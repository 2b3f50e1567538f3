//! The registry as a mathematical object: the clients and the command
//! table, and what each operation of the service makes of them.

use vstd::prelude::*;
use crate::client::ClientView;
use crate::command::{
    CommandStatus, CommandView, CurrentCommandView, ListedCommandView, PendingCommandView,
};
use crate::metrics::{key_command_id, key_completed, Bag};
use crate::strmap::first_free;

verus! {

/// Why the service turned an operation down.
#[derive(Debug, Clone, Copy, PartialEq, Eq, Structural)]
pub enum ServiceError {
    /// No client is registered under the id that the operation names.
    NotFound,
    /// The client already has a command in flight.
    FailedPrecondition,
}

impl ServiceError {
    /// The words that go with the error.
    pub open spec fn message_text(self) -> Seq<char> {
        match self {
            ServiceError::NotFound => "Client not found"@,
            ServiceError::FailedPrecondition => "Client is busy processing another command"@,
        }
    }

    /// The words that go with the error.
    pub fn message(&self) -> (r: String)
        ensures
            r@ == self.message_text(),
    {
        match self {
            ServiceError::NotFound => "Client not found".to_owned(),
            ServiceError::FailedPrecondition => {
                "Client is busy processing another command".to_owned()
            },
        }
    }
}

/// What a service stands for: its clients by id, its command table by
/// command id, and every client id that a registration has ever taken,
/// whether its record is still there or not.
#[verifier::ext_equal]
pub struct ServiceView {
    pub clients: Map<Seq<char>, ClientView>,
    pub commands: Map<Seq<char>, CommandView>,
    pub issued: Set<Seq<char>>,
}

/// One call of the service, with the time and the ids that it worked with.
pub enum Call {
    Register { id: Seq<char>, record: ClientView },
    Dispatch { client_id: Seq<char>, command: PendingCommandView, now: int },
    Complete { command_id: Seq<char> },
    Touch { client_id: Seq<char>, now: int },
    Report { client_id: Seq<char>, update: Bag, now: int },
    Sweep { now: int, ttl: int },
    Subscribe { client_id: Seq<char>, token: Seq<char> },
    Tick { client_id: Seq<char>, token: Seq<char>, now: int },
    DropStream { client_id: Seq<char>, token: Seq<char> },
}

/// What the answer to a status request stands for.
#[verifier::ext_equal]
pub struct StatusView {
    pub client_id: Seq<char>,
    pub status: Seq<char>,
    pub metrics: Bag,
    pub timestamp: int,
    pub pending_commands: Seq<PendingCommandView>,
    pub current_command: Option<CurrentCommandView>,
}

/// What one line of the administrative listing stands for.
#[verifier::ext_equal]
pub struct ClientInfoView {
    pub id: Seq<char>,
    pub name: Seq<char>,
    pub client_type: Seq<char>,
    pub version: Seq<char>,
    pub last_seen: int,
    pub metrics: Bag,
    pub current_command: Option<ListedCommandView>,
}

impl ServiceView {
    /// The record of `client_id` agrees with the rest: its id is among the
    /// issued ones, a busy client works on a command that the table knows
    /// and that is not completed, and the metrics of an idle client hold no
    /// command key.
    pub open spec fn sound_at(self, client_id: Seq<char>) -> bool {
        let client = self.clients[client_id];
        &&& self.issued.contains(client_id)
        &&& if client.busy() {
            let id = client.metrics()[key_command_id()];
            self.commands.contains_key(id) && self.commands[id].status.active()
        } else {
            client.clean()
        }
    }

    /// The clients, the command table and the issued ids agree: the service
    /// is sound at every registered client.
    pub open spec fn sound(self) -> bool {
        forall|c: Seq<char>| #[trigger] self.clients.contains_key(c) ==> self.sound_at(c)
    }

    /// A service with no client and no command, which has issued no id.
    pub open spec fn empty() -> ServiceView {
        ServiceView { clients: Map::empty(), commands: Map::empty(), issued: Set::empty() }
    }

    /// The service after `record` is registered under `id`: the record
    /// stands under the id, and the id is issued for good.
    pub open spec fn register(self, id: Seq<char>, record: ClientView) -> ServiceView {
        ServiceView {
            clients: self.clients.insert(id, record),
            issued: self.issued.insert(id),
            ..self
        }
    }

    /// The service after `call`.
    pub open spec fn after(self, call: Call) -> ServiceView {
        match call {
            Call::Register { id, record } => self.register(id, record),
            Call::Dispatch { client_id, command, now } => self.dispatch(client_id, command, now),
            Call::Complete { command_id } => self.complete(command_id),
            Call::Touch { client_id, now } => self.touch(client_id, now),
            Call::Report { client_id, update, now } => self.report(client_id, update, now),
            Call::Sweep { now, ttl } => self.sweep(now, ttl),
            Call::Subscribe { client_id, token } => self.subscribe(client_id, token),
            Call::Tick { client_id, token, now } => self.tick(client_id, token, now),
            Call::DropStream { client_id, token } => self.drop_stream(client_id, token),
        }
    }

    /// The service after the calls `calls[0]`, `calls[1]`, ... in turn.
    pub open spec fn after_all(self, calls: Seq<Call>) -> ServiceView
        decreases calls.len(),
    {
        if calls.len() == 0 {
            self
        } else {
            self.after_all(calls.drop_last()).after(calls.last())
        }
    }

    /// Whether a command may go to `client_id`: the client must be
    /// registered, and must not have a command in flight.
    pub open spec fn admits(self, client_id: Seq<char>) -> Result<(), ServiceError> {
        if !self.clients.contains_key(client_id) {
            Err(ServiceError::NotFound)
        } else if self.clients[client_id].busy() {
            Err(ServiceError::FailedPrecondition)
        } else {
            Ok(())
        }
    }

    /// The id under which a command that asks for the id `wanted` is
    /// stored: `wanted` itself where the table does not hold it, else the
    /// first of `wanted-`, `wanted--`, ... that it does not hold. No command
    /// is ever stored over another.
    pub open spec fn command_id_for(self, wanted: Seq<char>) -> Seq<char> {
        first_free(self.commands.dom(), wanted)
    }

    /// The service after a dispatch of `command` to `client_id` at `now`.
    /// Where the client does not admit it nothing changes: the command is
    /// not stored. Otherwise the command enters the table as pending, under
    /// the id that `command_id_for` gives it, and the client's metrics
    /// record it under that id.
    pub open spec fn dispatch(
        self,
        client_id: Seq<char>,
        command: PendingCommandView,
        now: int,
    ) -> ServiceView {
        if self.admits(client_id) is Ok {
            ServiceView {
                clients: self.clients.insert(
                    client_id,
                    self.clients[client_id].dispatched(
                        self.command_id_for(command.command_id),
                        command.command,
                        now,
                        command.parameters,
                    ),
                ),
                commands: self.commands.insert(
                    self.command_id_for(command.command_id),
                    CommandView {
                        status: CommandStatus::Pending,
                        parameters: command.parameters,
                        created_at: command.created_at,
                    },
                ),
                ..self
            }
        } else {
            self
        }
    }

    /// The service after `command_id` is reported as completed. An id that
    /// the table does not know changes nothing. A known command becomes
    /// completed, and every client that was working on it is idle again.
    pub open spec fn complete(self, command_id: Seq<char>) -> ServiceView {
        if self.commands.contains_key(command_id) {
            ServiceView {
                clients: Map::new(
                    |k: Seq<char>| self.clients.contains_key(k),
                    |k: Seq<char>|
                        if self.clients[k].works_on(command_id) {
                            self.clients[k].released()
                        } else {
                            self.clients[k]
                        },
                ),
                commands: self.commands.insert(
                    command_id,
                    CommandView { status: CommandStatus::Completed, ..self.commands[command_id] },
                ),
                ..self
            }
        } else {
            self
        }
    }

    /// The service after a contact of `client_id` at `now`.
    pub open spec fn touch(self, client_id: Seq<char>, now: int) -> ServiceView {
        if self.clients.contains_key(client_id) {
            ServiceView {
                clients: self.clients.insert(client_id, self.clients[client_id].touched(now)),
                ..self
            }
        } else {
            self
        }
    }

    /// The service after `client_id` reports `update` at `now`: the contact
    /// is recorded, a completion that the update names is carried out, and
    /// the update is merged into the client's metrics. An unknown client
    /// changes nothing.
    pub open spec fn report(self, client_id: Seq<char>, update: Bag, now: int) -> ServiceView {
        if self.clients.contains_key(client_id) {
            let seen = self.touch(client_id, now);
            let done = if update.contains_key(key_completed()) {
                seen.complete(update[key_completed()])
            } else {
                seen
            };
            ServiceView {
                clients: done.clients.insert(client_id, done.clients[client_id].updated(update)),
                ..done
            }
        } else {
            self
        }
    }

    /// The stream `token` is the subscriber of the registered client
    /// `client_id`.
    pub open spec fn streams_to(self, client_id: Seq<char>, token: Seq<char>) -> bool {
        self.clients.contains_key(client_id) && self.clients[client_id].subscriber == Some(token)
    }

    /// The service after the stream `token` is opened for `client_id`: it is
    /// the client's one subscriber, in place of any earlier one. An unknown
    /// client changes nothing.
    pub open spec fn subscribe(self, client_id: Seq<char>, token: Seq<char>) -> ServiceView {
        if self.clients.contains_key(client_id) {
            ServiceView {
                clients: self.clients.insert(client_id, self.clients[client_id].subscribed(token)),
                ..self
            }
        } else {
            self
        }
    }

    /// The service after a tick of the stream `token` of `client_id` at
    /// `now`: a stream that is the client's subscriber counts as a contact,
    /// any other changes nothing.
    pub open spec fn tick(self, client_id: Seq<char>, token: Seq<char>, now: int) -> ServiceView {
        if self.streams_to(client_id, token) {
            self.touch(client_id, now)
        } else {
            self
        }
    }

    /// The service after the stream `token` of `client_id` could not
    /// deliver: where it is the client's subscriber the client is
    /// disconnected and its record is gone; a stream that was replaced, or
    /// whose client is gone already, changes nothing.
    pub open spec fn drop_stream(self, client_id: Seq<char>, token: Seq<char>) -> ServiceView {
        if self.streams_to(client_id, token) {
            ServiceView { clients: self.clients.remove(client_id), ..self }
        } else {
            self
        }
    }

    /// The answer to a status request of `client_id` at `now`: the client's
    /// type as its status label, all of its metrics, the time of the
    /// request, no pending commands, and the current command as the metrics
    /// show it.
    pub open spec fn status_of(self, client_id: Seq<char>, now: int) -> StatusView {
        let client = self.clients[client_id];
        StatusView {
            client_id,
            status: client.client_type,
            metrics: client.metrics(),
            timestamp: now,
            pending_commands: Seq::empty(),
            current_command: client.current_command(),
        }
    }

    /// The line of the administrative listing for `client_id`: the record
    /// with its id, and the command that its metrics hold. The listing
    /// shows a command wherever the three command keys are present, also
    /// one that the client itself reports as completed.
    pub open spec fn info_of(self, client_id: Seq<char>) -> ClientInfoView {
        let client = self.clients[client_id];
        ClientInfoView {
            id: client_id,
            name: client.name,
            client_type: client.client_type,
            version: client.version,
            last_seen: client.last_seen,
            metrics: client.metrics(),
            current_command: client.listed_command(),
        }
    }

    /// The service after a sweep at `now`: every client whose last contact
    /// lies more than `ttl` back is gone, whatever it was doing. The command
    /// table is not touched.
    pub open spec fn sweep(self, now: int, ttl: int) -> ServiceView {
        ServiceView {
            clients: Map::new(
                |k: Seq<char>| self.clients.contains_key(k) && !self.clients[k].expired(now, ttl),
                |k: Seq<char>| self.clients[k],
            ),
            ..self
        }
    }
}

} // verus!
