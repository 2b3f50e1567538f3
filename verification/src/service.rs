//! The control service: the registry of clients, the command table, and the
//! operations that agents and administrators call.
//!
//! Every operation takes the service by `&mut` or `&`, so each one is a
//! single step: the check whether a client is busy and the mark that makes
//! it busy cannot be parted by another operation.

use vstd::prelude::*;
use crate::ambient::{fresh_id, unix_now};
use crate::client::{Client, ClientView};
use crate::command::{
    Command, CommandStatus, CurrentCommand, ListedCommand, PendingCommand, PendingCommandView,
};
use crate::laws::{
    law_sound_complete, law_sound_dispatch, law_sound_register, law_sound_report,
    law_sound_stream, law_sound_sweep, law_sound_touch,
};
use crate::metrics::Metrics;
use crate::model::{ClientInfoView, ServiceError, ServiceView, StatusView};
use crate::strmap::{
    first_free, lemma_first_free_is, lemma_first_free_of_free, lemma_longest, longest, padded,
    Duplicate, StringMap,
};

verus! {

/// The registry of clients, the table of commands, and the ledger of every
/// client id that a registration has taken. The ledger grows with each
/// registration, as the command table grows with each dispatch: an id, once
/// issued, is never drawn again.
#[derive(Debug)]
pub struct GameControlService {
    clients: StringMap<Client>,
    commands: StringMap<Command>,
    issued: StringMap<()>,
}

impl View for GameControlService {
    type V = ServiceView;

    closed spec fn view(&self) -> ServiceView {
        ServiceView {
            clients: self.clients@,
            commands: self.commands@,
            issued: self.issued@.dom(),
        }
    }
}

/// The answer to a registration.
#[derive(Debug)]
pub struct RegisterResponse {
    pub success: bool,
    pub client_id: String,
    pub message: String,
}

/// The answer to an accepted command.
#[derive(Debug)]
pub struct CommandResponse {
    pub success: bool,
    pub message: String,
}

/// The answer to an accepted status update.
#[derive(Debug)]
pub struct StatusUpdateResponse {
    pub success: bool,
    pub message: String,
}

/// The answer to a status request.
#[derive(Debug)]
pub struct StatusResponse {
    pub client_id: String,
    pub status: String,
    pub metrics: Metrics,
    pub timestamp: i64,
    pub pending_commands: Vec<PendingCommand>,
    pub current_command: Option<CurrentCommand>,
}

impl View for StatusResponse {
    type V = StatusView;

    open spec fn view(&self) -> StatusView {
        StatusView {
            client_id: self.client_id@,
            status: self.status@,
            metrics: self.metrics@,
            timestamp: self.timestamp as int,
            pending_commands: self.pending_commands@.map_values(|c: PendingCommand| c@),
            current_command: match self.current_command {
                Some(c) => Some(c@),
                None => None,
            },
        }
    }
}

/// One line of the administrative listing: a client record with its id and
/// the command that its metrics hold.
#[derive(Debug)]
pub struct ClientInfo {
    pub id: String,
    pub name: String,
    pub client_type: String,
    pub version: String,
    pub last_seen: i64,
    pub metrics: Metrics,
    pub current_command: Option<ListedCommand>,
}

impl View for ClientInfo {
    type V = ClientInfoView;

    open spec fn view(&self) -> ClientInfoView {
        ClientInfoView {
            id: self.id@,
            name: self.name@,
            client_type: self.client_type@,
            version: self.version@,
            last_seen: self.last_seen as int,
            metrics: self.metrics@,
            current_command: match self.current_command {
                Some(c) => Some(c@),
                None => None,
            },
        }
    }
}

/// What a sweep at the time of the call did: the time that the clock gave,
/// and the clients that the sweep took out, each with its id.
#[derive(Debug)]
pub struct Sweep {
    pub now: i64,
    pub evicted: Vec<(String, Client)>,
}

/// What a status stream does at a tick.
#[derive(Debug)]
pub enum StreamStep {
    /// Send this snapshot to the subscriber.
    Send(StatusResponse),
    /// End the stream: its client is gone, or another stream took its place.
    Stop,
}

/// How many snapshots a status stream holds for a slow subscriber before it
/// counts the subscriber as gone.
pub const STREAM_CAPACITY: usize = 128;

/// How long a status stream waits between two snapshots, in seconds.
pub const STREAM_PERIOD_SECS: u64 = 1;

/// How long a client may stay silent before a sweep evicts it, in seconds.
pub const CLIENT_TTL_SECS: i64 = 2;

/// How long the reaper waits between two sweeps, in seconds.
pub const SWEEP_PERIOD_SECS: u64 = 2;

/// A record that stands in for one that is taken out to be changed.
fn vacant_client() -> (r: Client)
    ensures
        r@ == ClientView::registered(
            Seq::<char>::empty(),
            Seq::<char>::empty(),
            Seq::<char>::empty(),
            0,
            0,
        ),
{
    Client::new(String::new(), String::new(), String::new(), 0, 0)
}

impl GameControlService {
    /// The ids of the clients, in the order in which they are listed.
    pub closed spec fn client_ids(&self) -> Seq<Seq<char>> {
        self.clients.keys()
    }

    /// The listing of the clients agrees with the view: each client is
    /// listed once, and nothing else is listed.
    pub open spec fn listed(&self) -> bool {
        &&& self.client_ids().no_duplicates()
        &&& forall|k: Seq<char>| #[trigger]
            self@.clients.contains_key(k) <==> self.client_ids().contains(k)
    }

    /// A service with no client and no command.
    pub fn new() -> (r: Self)
        ensures
            r@ == ServiceView::empty(),
            r@.sound(),
            r.client_ids() == Seq::<Seq<char>>::empty(),
    {
        let r = GameControlService {
            clients: StringMap::new(),
            commands: StringMap::new(),
            issued: StringMap::new(),
        };
        assert(r@.issued =~= Set::<Seq<char>>::empty());
        r
    }

    /// A snapshot of all client records, by id.
    pub fn get_clients(&self) -> (r: StringMap<Client>)
        ensures
            r@ == self@.clients,
            r.keys() == self.client_ids(),
            r.listed(),
    {
        self.clients.duplicate()
    }

    /// Registers a client under `client_id` at `now`. A record that was
    /// registered under the same id before is replaced.
    pub fn register_as(
        &mut self,
        client_id: String,
        name: String,
        client_type: String,
        version: String,
        max_players: i32,
        now: i64,
    ) -> (r: RegisterResponse)
        ensures
            final(self)@ == old(self)@.register(
                client_id@,
                ClientView::registered(
                    name@,
                    client_type@,
                    version@,
                    max_players as int,
                    now as int,
                ),
            ),
            final(self).client_ids() == if old(self)@.clients.contains_key(client_id@) {
                old(self).client_ids()
            } else {
                old(self).client_ids().push(client_id@)
            },
            old(self)@.sound() ==> final(self)@.sound(),
            r.success,
            r.client_id@ == client_id@,
            r.message@ == "Successfully registered"@,
    {
        proof {
            if self@.sound() {
                law_sound_register(
                    self@,
                    client_id@,
                    ClientView::registered(
                        name@,
                        client_type@,
                        version@,
                        max_players as int,
                        now as int,
                    ),
                );
            }
        }
        let id = client_id.clone();
        self.issued.insert(client_id.clone(), ());
        self.clients.insert(client_id, Client::new(name, client_type, version, max_players, now));
        assert(self@.issued =~= old(self)@.issued.insert(id@));
        RegisterResponse {
            success: true,
            client_id: id,
            message: "Successfully registered".to_owned(),
        }
    }

    /// Dispatches `command` to `client_id` at `now`: fails with `NotFound`
    /// where no such client is registered and with `FailedPrecondition` where
    /// the client has a command in flight, and then changes nothing.
    /// Otherwise the command is stored as pending and the client's metrics
    /// record it. A command that asks for an id that the table already
    /// holds is stored under that id lengthened until it is free: no
    /// dispatch touches the record of an earlier command.
    pub fn add_command_at(&mut self, client_id: &str, command: PendingCommand, now: i64) -> (r:
        Result<(), ServiceError>)
        ensures
            r == old(self)@.admits(client_id@),
            final(self)@ == old(self)@.dispatch(client_id@, command@, now as int),
            !old(self)@.commands.contains_key(old(self)@.command_id_for(command.command_id@)),
            old(self)@.sound() ==> final(self)@.sound(),
            final(self).client_ids() == old(self).client_ids(),
    {
        proof {
            if self@.sound() {
                law_sound_dispatch(self@, client_id@, command@, now as int);
            }
        }
        let id = self.commands.free_key(command.command_id);
        match self.clients.position(client_id) {
            None => Err(ServiceError::NotFound),
            Some(i) => {
                proof {
                    self.clients.lemma_listed();
                }
                if self.clients.value_at(i).is_busy() {
                    return Err(ServiceError::FailedPrecondition);
                }
                let mut client = self.clients.replace_at(i, vacant_client());
                client.begin_command(id.as_str(), command.command.as_str(), now, &command.parameters);
                self.clients.replace_at(i, client);
                self.commands.insert(
                    id,
                    Command {
                        status: CommandStatus::Pending,
                        parameters: command.parameters,
                        created_at: command.created_at,
                    },
                );
                assert(self@.clients =~= old(self)@.dispatch(
                    client_id@,
                    command@,
                    now as int,
                ).clients);
                assert(self@.commands =~= old(self)@.dispatch(
                    client_id@,
                    command@,
                    now as int,
                ).commands);
                Ok(())
            },
        }
    }

    /// Carries out the completion of `command_id`. An id that the command
    /// table does not know changes nothing, and is no error. A known command
    /// becomes completed, and every client that was working on it is idle
    /// again.
    pub fn complete(&mut self, command_id: &str)
        ensures
            final(self)@ == old(self)@.complete(command_id@),
            old(self)@.sound() ==> final(self)@.sound(),
            final(self).client_ids() == old(self).client_ids(),
    {
        proof {
            if self@.sound() {
                law_sound_complete(self@, command_id@);
            }
        }
        let p = match self.commands.position(command_id) {
            Some(p) => p,
            None => {
                return ;
            },
        };
        proof {
            self.commands.lemma_listed();
        }
        let mut command = self.commands.replace_at(
            p,
            Command { status: CommandStatus::Completed, parameters: StringMap::new(), created_at: 0 },
        );
        command.status = CommandStatus::Completed;
        self.commands.replace_at(p, command);
        assert(self.commands@ =~= old(self)@.complete(command_id@).commands);

        let n = self.clients.len();
        let mut i: usize = 0;
        while i < n
            invariant
                i <= n,
                n == self.clients.keys().len(),
                self.clients.listed(),
                old(self).clients.listed(),
                self.clients.keys() == old(self).clients.keys(),
                self.commands@ == old(self)@.complete(command_id@).commands,
                self.issued@ == old(self).issued@,
                forall|j: int|
                    0 <= j < i ==> #[trigger] self.clients.values()[j] == {
                        let before = old(self).clients.values()[j];
                        if before.works_on(command_id@) {
                            before.released()
                        } else {
                            before
                        }
                    },
                forall|j: int|
                    i <= j < n ==> {
                        let before = old(self).clients.values()[j];
                        #[trigger] self.clients.values()[j] == before
                    },
            decreases n - i,
        {
            if self.clients.value_at(i).works_on(command_id) {
                let mut client = self.clients.replace_at(i, vacant_client());
                client.release();
                self.clients.replace_at(i, client);
            }
            i += 1;
        }
        proof {
            self.clients.lemma_listed();
            old(self).clients.lemma_listed();
            let goal = old(self)@.complete(command_id@).clients;
            assert forall|k: Seq<char>| #[trigger] self.clients@.contains_key(k) implies self.clients@[k]
                == goal[k] by {
                let j = self.clients.keys().index_of(k);
                assert(self.clients.keys()[j] == k);
                assert(old(self).clients.keys()[j] == k);
            }
            assert(self.clients@ =~= goal);
        }
    }

    fn touch_at(&mut self, i: usize, now: i64)
        requires
            i < old(self).clients.keys().len(),
            old(self).clients.listed(),
        ensures
            final(self)@ == old(self)@.touch(old(self).clients.keys()[i as int], now as int),
            final(self).clients.keys() == old(self).clients.keys(),
            final(self).clients.listed(),
    {
        proof {
            self.clients.lemma_listed();
        }
        let mut client = self.clients.replace_at(i, vacant_client());
        client.touch(now);
        self.clients.replace_at(i, client);
        assert(self@.clients =~= old(self)@.touch(
            old(self).clients.keys()[i as int],
            now as int,
        ).clients);
    }

    /// Answers a status request of `client_id` at `now` and records the
    /// contact. Fails with `NotFound`, and changes nothing, where no such
    /// client is registered.
    pub fn get_status_at(&mut self, client_id: &str, now: i64) -> (r: Result<
        StatusResponse,
        ServiceError,
    >)
        ensures
            final(self)@ == old(self)@.touch(client_id@, now as int),
            old(self)@.sound() ==> final(self)@.sound(),
            final(self).client_ids() == old(self).client_ids(),
            match r {
                Ok(answer) => {
                    &&& old(self)@.clients.contains_key(client_id@)
                    &&& answer@ == final(self)@.status_of(client_id@, now as int)
                },
                Err(e) => {
                    &&& e == ServiceError::NotFound
                    &&& !old(self)@.clients.contains_key(client_id@)
                },
            },
    {
        proof {
            if self@.sound() {
                law_sound_touch(self@, client_id@, now as int);
            }
        }
        match self.clients.position(client_id) {
            None => Err(ServiceError::NotFound),
            Some(i) => {
                self.touch_at(i, now);
                proof {
                    self.clients.lemma_listed();
                }
                let client = self.clients.value_at(i);
                let answer = StatusResponse {
                    client_id: client_id.to_owned(),
                    status: client.client_type.clone(),
                    metrics: client.metrics(),
                    timestamp: now,
                    pending_commands: Vec::new(),
                    current_command: client.current_command(),
                };
                assert(answer@.pending_commands =~= Seq::empty());
                assert(answer@ =~= self@.status_of(client_id@, now as int));
                Ok(answer)
            },
        }
    }

    /// Takes a status update of `client_id` at `now`: records the contact,
    /// carries out the completion that the update names under
    /// `completed_command_id`, if any, and merges every key of the update
    /// that is not protected into the client's metrics. Fails with
    /// `NotFound`, and changes nothing, where no such client is registered.
    pub fn update_status_at(&mut self, client_id: &str, update: &Metrics, now: i64) -> (r: Result<
        StatusUpdateResponse,
        ServiceError,
    >)
        ensures
            final(self)@ == old(self)@.report(client_id@, update@, now as int),
            old(self)@.sound() ==> final(self)@.sound(),
            final(self).client_ids() == old(self).client_ids(),
            match r {
                Ok(answer) => old(self)@.clients.contains_key(client_id@) && answer.success
                    && answer.message@ == "Status updated"@,
                Err(e) => e == ServiceError::NotFound && !old(self)@.clients.contains_key(
                    client_id@,
                ),
            },
    {
        proof {
            if self@.sound() {
                law_sound_report(self@, client_id@, update@, now as int);
            }
        }
        match self.clients.position(client_id) {
            None => Err(ServiceError::NotFound),
            Some(i) => {
                self.touch_at(i, now);
                match update.get("completed_command_id") {
                    Some(done) => {
                        self.complete(done.as_str());
                    },
                    None => {},
                }
                // The completion has changed records, not their places.
                let ghost done = *self;
                let n = self.clients.len();
                assert(i < n);
                proof {
                    self.clients.lemma_listed();
                }
                let mut client = self.clients.replace_at(i, vacant_client());
                client.apply_update(update);
                self.clients.replace_at(i, client);
                assert(self@.clients =~= done@.clients.insert(
                    client_id@,
                    done@.clients[client_id@].updated(update@),
                ));
                Ok(
                    StatusUpdateResponse {
                        success: true,
                        message: "Status updated".to_owned(),
                    },
                )
            },
        }
    }

    /// The current command of `client_id` as its metrics show it; `None`
    /// for a client that shows none and for an id that is not registered.
    pub fn current_command(&self, client_id: &str) -> (r: Option<CurrentCommand>)
        ensures
            match r {
                Some(c) => self@.clients.contains_key(client_id@) && Some(c@)
                    == self@.clients[client_id@].current_command(),
                None => !self@.clients.contains_key(client_id@)
                    || self@.clients[client_id@].current_command() is None,
            },
    {
        match self.clients.get(client_id) {
            Some(client) => client.current_command(),
            None => None,
        }
    }

    /// The administrative listing: one line for each registered client.
    pub fn list_clients(&self) -> (r: Vec<ClientInfo>)
        ensures
            self.listed(),
            r@.len() == self.client_ids().len(),
            forall|i: int|
                0 <= i < r@.len() ==> (#[trigger] r@[i])@ == self@.info_of(self.client_ids()[i]),
    {
        let n = self.clients.len();
        proof {
            self.clients.lemma_listed();
        }
        let mut r: Vec<ClientInfo> = Vec::new();
        let mut i: usize = 0;
        while i < n
            invariant
                i <= n,
                n == self.clients.keys().len(),
                self.clients.listed(),
                r@.len() == i,
                forall|j: int|
                    0 <= j < i ==> (#[trigger] r@[j])@ == self@.info_of(self.client_ids()[j]),
            decreases n - i,
        {
            proof {
                self.clients.lemma_listed();
            }
            let client = self.clients.value_at(i);
            let info = ClientInfo {
                id: self.clients.key_at(i).clone(),
                name: client.name.clone(),
                client_type: client.client_type.clone(),
                version: client.version.clone(),
                last_seen: client.last_seen,
                metrics: client.metrics(),
                current_command: client.listed_command(),
            };
            assert(info@ =~= self@.info_of(self.client_ids()[i as int]));
            r.push(info);
            i += 1;
        }
        r
    }

    /// Sweeps the registry at `now`: every client whose last contact lies
    /// more than `ttl` back is taken out, whatever it was doing, and handed
    /// back with its id. The command table is not touched.
    pub fn evict_stale(&mut self, now: i64, ttl: i64) -> (evicted: Vec<(String, Client)>)
        ensures
            final(self)@ == old(self)@.sweep(now as int, ttl as int),
            old(self)@.sound() ==> final(self)@.sound(),
            final(self).listed(),
            forall|j: int|
                0 <= j < evicted@.len() ==> {
                    let id = (#[trigger] evicted@[j]).0@;
                    &&& old(self)@.clients.contains_key(id)
                    &&& old(self)@.clients[id].expired(now as int, ttl as int)
                    &&& evicted@[j].1@ == old(self)@.clients[id]
                },
            forall|k: Seq<char>|
                old(self)@.clients.contains_key(k) && old(self)@.clients[k].expired(
                    now as int,
                    ttl as int,
                ) ==> exists|j: int| 0 <= j < evicted@.len() && (#[trigger] evicted@[j]).0@ == k,
            forall|i: int, j: int|
                0 <= i < j < evicted@.len() ==> (#[trigger] evicted@[i]).0@ != (
                #[trigger] evicted@[j]).0@,
    {
        proof {
            if self@.sound() {
                law_sound_sweep(self@, now as int, ttl as int);
            }
        }
        let mut evicted: Vec<(String, Client)> = Vec::new();
        let mut i: usize = 0;
        let mut n: usize = self.clients.len();
        while i < n
            invariant
                i <= n,
                n == self.clients.keys().len(),
                self.clients.listed(),
                self.commands@ == old(self).commands@,
                self.issued@ == old(self).issued@,
                forall|k: Seq<char>| #[trigger]
                    self.clients@.contains_key(k) ==> old(self).clients@.contains_key(k)
                        && self.clients@[k] == old(self).clients@[k],
                forall|k: Seq<char>|
                    old(self).clients@.contains_key(k) && !old(self).clients@[k].expired(
                        now as int,
                        ttl as int,
                    ) ==> #[trigger] self.clients@.contains_key(k),
                forall|j: int|
                    0 <= j < i ==> !self.clients@[#[trigger] self.clients.keys()[j]].expired(
                        now as int,
                        ttl as int,
                    ),
                forall|j: int|
                    0 <= j < evicted@.len() ==> {
                        let id = (#[trigger] evicted@[j]).0@;
                        &&& old(self).clients@.contains_key(id)
                        &&& old(self).clients@[id].expired(now as int, ttl as int)
                        &&& evicted@[j].1@ == old(self).clients@[id]
                    },
                forall|k: Seq<char>|
                    old(self).clients@.contains_key(k) && !self.clients@.contains_key(k)
                        ==> exists|j: int|
                        0 <= j < evicted@.len() && (#[trigger] evicted@[j]).0@ == k,
                forall|j: int|
                    0 <= j < evicted@.len() ==> !self.clients@.contains_key(
                        (#[trigger] evicted@[j]).0@,
                    ),
                forall|i: int, j: int|
                    0 <= i < j < evicted@.len() ==> (#[trigger] evicted@[i]).0@ != (
                    #[trigger] evicted@[j]).0@,
            decreases n - i,
        {
            let ghost before = self.clients;
            let ghost taken = evicted@;
            proof {
                self.clients.lemma_listed();
            }
            if self.clients.value_at(i).is_expired(now, ttl) {
                let gone = self.clients.remove_at(i);
                evicted.push(gone);
                n = n - 1;
                proof {
                    self.clients.lemma_listed();
                    assert forall|j: int| 0 <= j < i implies !self.clients@[#[trigger]
                        self.clients.keys()[j]].expired(now as int, ttl as int) by {
                        assert(self.clients.keys()[j] == before.keys()[j]);
                    }
                    assert forall|j: int| 0 <= j < evicted@.len() implies {
                        let id = (#[trigger] evicted@[j]).0@;
                        &&& old(self).clients@.contains_key(id)
                        &&& old(self).clients@[id].expired(now as int, ttl as int)
                        &&& evicted@[j].1@ == old(self).clients@[id]
                    } by {
                        if j < taken.len() {
                            assert(evicted@[j] == taken[j]);
                        }
                    }
                    assert forall|j: int| 0 <= j < evicted@.len() implies !self.clients@.contains_key(
                        (#[trigger] evicted@[j]).0@,
                    ) by {
                        if j < taken.len() {
                            assert(evicted@[j] == taken[j]);
                        }
                    }
                    assert forall|i: int, j: int| 0 <= i < j < evicted@.len() implies (
                    #[trigger] evicted@[i]).0@ != (#[trigger] evicted@[j]).0@ by {
                        assert(evicted@[i] == taken[i]);
                        if j < taken.len() {
                            assert(evicted@[j] == taken[j]);
                        }
                    }
                    assert forall|k: Seq<char>|
                        old(self).clients@.contains_key(k) && !self.clients@.contains_key(
                            k,
                        ) implies exists|j: int|
                        0 <= j < evicted@.len() && (#[trigger] evicted@[j]).0@ == k by {
                        if before@.contains_key(k) {
                            assert(evicted@[taken.len() as int].0@ == k);
                        } else {
                            let j = choose|j: int| 0 <= j < taken.len() && (#[trigger] taken[j]).0@ == k;
                            assert(evicted@[j] == taken[j]);
                        }
                    }
                }
            } else {
                i += 1;
            }
        }
        proof {
            self.clients.lemma_listed();
            assert forall|k: Seq<char>| #[trigger]
                self.clients@.contains_key(k) implies !self.clients@[k].expired(
                now as int,
                ttl as int,
            ) by {
                let j = self.clients.keys().index_of(k);
                assert(self.clients.keys()[j] == k);
            }
            assert(self@.clients =~= old(self)@.sweep(now as int, ttl as int).clients);
        }
        evicted
    }

    /// The record of the command `command_id`, if the table holds it. The
    /// table keeps the record of every command that was ever stored.
    pub fn command(&self, command_id: &str) -> (r: Option<Command>)
        ensures
            match r {
                Some(c) => self@.commands.contains_key(command_id@) && c@
                    == self@.commands[command_id@],
                None => !self@.commands.contains_key(command_id@),
            },
    {
        match self.commands.get(command_id) {
            Some(c) => Some(c.duplicate()),
            None => None,
        }
    }

    /// Whether a registration has ever taken `client_id`, be its record
    /// still there or not.
    pub fn was_issued(&self, client_id: &str) -> (r: bool)
        ensures
            r == self@.issued.contains(client_id@),
    {
        self.issued.contains_key(client_id)
    }

    /// An id that no registration has taken and no client has: `seed`
    /// itself where it is free, else the first of `seed-`, `seed--`, ...
    /// that is.
    fn unused_id(&self, seed: String) -> (k: String)
        ensures
            k@ == first_free(self@.issued.union(self@.clients.dom()), seed@),
            !self@.issued.contains(k@),
            !self@.clients.contains_key(k@),
            k@.len() >= seed@.len(),
    {
        let mut k = seed;
        let ghost n: nat = 0;
        assert(k@ =~= padded(seed@, 0));
        loop
            invariant
                k@ == padded(seed@, n),
                forall|m: nat|
                    m < n ==> self@.issued.contains(#[trigger] padded(seed@, m))
                        || self@.clients.contains_key(padded(seed@, m)),
            ensures
                !self@.issued.contains(k@),
                !self@.clients.contains_key(k@),
            decreases longest(self.issued.keys()) + longest(self.clients.keys()) + 1 - k@.len(),
        {
            let taken = self.issued.contains_key(k.as_str());
            let held = self.clients.contains_key(k.as_str());
            if !taken && !held {
                break ;
            }
            proof {
                if taken {
                    self.issued.lemma_listed();
                    let i = self.issued.keys().index_of(k@);
                    assert(self.issued.keys()[i] == k@);
                    lemma_longest(self.issued.keys(), i);
                } else {
                    self.clients.lemma_listed();
                    let i = self.clients.keys().index_of(k@);
                    assert(self.clients.keys()[i] == k@);
                    lemma_longest(self.clients.keys(), i);
                }
                reveal_strlit("-");
            }
            k.append("-");
            proof {
                assert(k@ =~= padded(seed@, n + 1));
                n = n + 1;
            }
        }
        proof {
            lemma_first_free_is(self@.issued.union(self@.clients.dom()), seed@, n);
        }
        k
    }

    /// Registers a client under a fresh identifier at the time of the call
    /// and returns the identifier. The identifier is drawn at random, and
    /// no registration has taken it before: a draw that repeats an id that
    /// was ever issued is lengthened until it is free. So a registration
    /// never replaces a record, and the ids that registrations return are
    /// pairwise distinct, whatever has become of their clients since.
    pub fn register(
        &mut self,
        name: String,
        client_type: String,
        version: String,
        max_players: i32,
    ) -> (r: RegisterResponse)
        ensures
            r.success,
            old(self)@.sound() ==> final(self)@.sound(),
            r.message@ == "Successfully registered"@,
            r.client_id@.len() >= 36,
            !old(self)@.issued.contains(r.client_id@),
            !old(self)@.clients.contains_key(r.client_id@),
            final(self)@.clients.contains_key(r.client_id@),
            0 <= final(self)@.clients[r.client_id@].last_seen <= i64::MAX,
            final(self)@ == old(self)@.register(
                r.client_id@,
                ClientView::registered(
                    name@,
                    client_type@,
                    version@,
                    max_players as int,
                    final(self)@.clients[r.client_id@].last_seen,
                ),
            ),
            final(self).client_ids() == old(self).client_ids().push(r.client_id@),
    {
        let id = self.unused_id(fresh_id());
        let now = unix_now();
        self.register_as(id, name, client_type, version, max_players, now)
    }

    /// Dispatches `command` to `client_id` at the time of the call: see
    /// `add_command_at`. Whether the command is accepted does not depend on
    /// the time.
    pub fn add_command(&mut self, client_id: &str, command: PendingCommand) -> (r: Result<
        (),
        ServiceError,
    >)
        ensures
            r == old(self)@.admits(client_id@),
            !old(self)@.commands.contains_key(old(self)@.command_id_for(command.command_id@)),
            old(self)@.sound() ==> final(self)@.sound(),
            final(self).client_ids() == old(self).client_ids(),
            exists|now: int|
                0 <= now <= i64::MAX && final(self)@ == #[trigger] old(self)@.dispatch(
                    client_id@,
                    command@,
                    now,
                ),
    {
        let now = unix_now();
        let ghost before = self@;
        let r = self.add_command_at(client_id, command, now);
        assert(self@ == before.dispatch(client_id@, command@, now as int));
        r
    }

    /// Dispatches the command `command` with `parameters` to `client_id` at
    /// `now`, asking for the id `command_id`, and returns the id under which
    /// the command is stored: `command_id` itself, or, where the table holds
    /// that already, `command_id` lengthened until it is free. It is a
    /// dispatch of a pending command created at `now`.
    pub fn dispatch_as(
        &mut self,
        command_id: String,
        client_id: &str,
        command: String,
        parameters: Metrics,
        now: i64,
    ) -> (r: Result<String, ServiceError>)
        ensures
            final(self)@ == old(self)@.dispatch(
                client_id@,
                PendingCommandView {
                    command_id: command_id@,
                    command: command@,
                    parameters: parameters@,
                    created_at: now as int,
                },
                now as int,
            ),
            final(self).client_ids() == old(self).client_ids(),
            old(self)@.sound() ==> final(self)@.sound(),
            match r {
                Ok(id) => {
                    &&& old(self)@.admits(client_id@) is Ok
                    &&& id@ == old(self)@.command_id_for(command_id@)
                    &&& !old(self)@.commands.contains_key(id@)
                    &&& id@.len() >= command_id@.len()
                },
                Err(e) => old(self)@.admits(client_id@) == Err::<(), ServiceError>(e),
            },
    {
        let id = self.commands.free_key(command_id);
        let handed = id.clone();
        proof {
            lemma_first_free_of_free(self@.commands.dom(), id@);
        }
        let pending = PendingCommand { command_id: id, command, parameters, created_at: now };
        match self.add_command_at(client_id, pending, now) {
            Ok(_) => Ok(handed),
            Err(e) => Err(e),
        }
    }

    /// Dispatches the command `command` with `parameters` to `client_id`,
    /// under a fresh command id and at the time of the call, and returns
    /// the id. The id is drawn at random, and the command table does not
    /// hold it: a draw that repeats the id of a known command is lengthened
    /// until it is free. Whether the command is accepted depends on neither
    /// the id nor the time.
    pub fn dispatch(&mut self, client_id: &str, command: String, parameters: Metrics) -> (r: Result<
        String,
        ServiceError,
    >)
        ensures
            final(self).client_ids() == old(self).client_ids(),
            old(self)@.sound() ==> final(self)@.sound(),
            match r {
                Ok(id) => {
                    &&& old(self)@.admits(client_id@) is Ok
                    &&& id@.len() >= 36
                    &&& !old(self)@.commands.contains_key(id@)
                    &&& exists|now: int|
                        0 <= now <= i64::MAX && final(self)@ == #[trigger] old(self)@.dispatch(
                            client_id@,
                            PendingCommandView {
                                command_id: id@,
                                command: command@,
                                parameters: parameters@,
                                created_at: now,
                            },
                            now,
                        )
                },
                Err(e) => {
                    &&& old(self)@.admits(client_id@) == Err::<(), ServiceError>(e)
                    &&& final(self)@ == old(self)@
                },
            },
    {
        let id = self.commands.free_key(fresh_id());
        let now = unix_now();
        let ghost before = self@;
        proof {
            lemma_first_free_of_free(self@.commands.dom(), id@);
        }
        let ghost pending = PendingCommandView {
            command_id: id@,
            command: command@,
            parameters: parameters@,
            created_at: now as int,
        };
        let r = self.dispatch_as(id, client_id, command, parameters, now);
        assert(self@ == before.dispatch(client_id@, pending, now as int));
        r
    }

    /// Sends the command `command` with `parameters` to `client_id`: a
    /// `dispatch`, answered as the protocol answers it.
    pub fn send_command(&mut self, client_id: &str, command: String, parameters: Metrics) -> (r:
        Result<CommandResponse, ServiceError>)
        ensures
            final(self).client_ids() == old(self).client_ids(),
            old(self)@.sound() ==> final(self)@.sound(),
            match r {
                Ok(answer) => {
                    &&& old(self)@.admits(client_id@) is Ok
                    &&& answer.success
                    &&& answer.message@ == "Command accepted"@
                    &&& exists|id: Seq<char>, now: int|
                        {
                            &&& 0 <= now <= i64::MAX
                            &&& id.len() >= 36
                            &&& !old(self)@.commands.contains_key(id)
                            &&& final(self)@ == #[trigger] old(self)@.dispatch(
                                client_id@,
                                PendingCommandView {
                                    command_id: id,
                                    command: command@,
                                    parameters: parameters@,
                                    created_at: now,
                                },
                                now,
                            )
                        }
                },
                Err(e) => {
                    &&& old(self)@.admits(client_id@) == Err::<(), ServiceError>(e)
                    &&& final(self)@ == old(self)@
                },
            },
    {
        match self.dispatch(client_id, command, parameters) {
            Ok(_) => Ok(CommandResponse { success: true, message: "Command accepted".to_owned() }),
            Err(e) => Err(e),
        }
    }

    /// Answers a status request of `client_id` at the time of the call,
    /// which the answer carries as its timestamp: see `get_status_at`.
    pub fn get_status(&mut self, client_id: &str) -> (r: Result<StatusResponse, ServiceError>)
        ensures
            final(self).client_ids() == old(self).client_ids(),
            old(self)@.sound() ==> final(self)@.sound(),
            match r {
                Ok(answer) => old(self)@.clients.contains_key(client_id@) && 0 <= answer.timestamp
                    && final(self)@ == old(self)@.touch(client_id@, answer.timestamp as int)
                    && answer@ == final(self)@.status_of(client_id@, answer.timestamp as int),
                Err(e) => e == ServiceError::NotFound && !old(self)@.clients.contains_key(
                    client_id@,
                ) && final(self)@ == old(self)@,
            },
    {
        let now = unix_now();
        self.get_status_at(client_id, now)
    }

    /// Takes a status update of `client_id` at the time of the call: see
    /// `update_status_at`. Whether the update is accepted does not depend on
    /// the time.
    pub fn update_status(&mut self, client_id: &str, update: &Metrics) -> (r: Result<
        StatusUpdateResponse,
        ServiceError,
    >)
        ensures
            final(self).client_ids() == old(self).client_ids(),
            old(self)@.sound() ==> final(self)@.sound(),
            match r {
                Ok(answer) => old(self)@.clients.contains_key(client_id@) && answer.success
                    && answer.message@ == "Status updated"@,
                Err(e) => e == ServiceError::NotFound && !old(self)@.clients.contains_key(
                    client_id@,
                ),
            },
            exists|now: int|
                0 <= now <= i64::MAX && final(self)@ == #[trigger] old(self)@.report(client_id@, update@, now),
    {
        let now = unix_now();
        let ghost before = self@;
        let r = self.update_status_at(client_id, update, now);
        assert(self@ == before.report(client_id@, update@, now as int));
        r
    }

    /// Sweeps the registry at the time of the call and hands back that time
    /// with the clients it took out: see `evict_stale`.
    pub fn sweep(&mut self, ttl: i64) -> (r: Sweep)
        ensures
            0 <= r.now,
            final(self)@ == old(self)@.sweep(r.now as int, ttl as int),
            final(self).listed(),
            old(self)@.sound() ==> final(self)@.sound(),
            forall|j: int|
                0 <= j < r.evicted@.len() ==> {
                    let id = (#[trigger] r.evicted@[j]).0@;
                    &&& old(self)@.clients.contains_key(id)
                    &&& old(self)@.clients[id].expired(r.now as int, ttl as int)
                    &&& r.evicted@[j].1@ == old(self)@.clients[id]
                },
            forall|k: Seq<char>|
                old(self)@.clients.contains_key(k) && old(self)@.clients[k].expired(
                    r.now as int,
                    ttl as int,
                ) ==> exists|j: int|
                    0 <= j < r.evicted@.len() && (#[trigger] r.evicted@[j]).0@ == k,
            forall|i: int, j: int|
                0 <= i < j < r.evicted@.len() ==> (#[trigger] r.evicted@[i]).0@ != (
                #[trigger] r.evicted@[j]).0@,
    {
        let now = unix_now();
        let evicted = self.evict_stale(now, ttl);
        let ghost list = evicted@;
        let r = Sweep { now, evicted };
        assert forall|k: Seq<char>|
            old(self)@.clients.contains_key(k) && old(self)@.clients[k].expired(
                now as int,
                ttl as int,
            ) implies exists|j: int|
            0 <= j < r.evicted@.len() && (#[trigger] r.evicted@[j]).0@ == k by {
            let j = choose|j: int| 0 <= j < list.len() && (#[trigger] list[j]).0@ == k;
            assert(r.evicted@[j].0@ == k);
        }
        r
    }

    /// Opens the status stream `token` for `client_id`: the stream becomes
    /// the client's one subscriber, in place of any earlier one. Fails with
    /// `NotFound`, and changes nothing, where no such client is registered.
    pub fn stream_status_as(&mut self, client_id: &str, token: String) -> (r: Result<
        (),
        ServiceError,
    >)
        ensures
            final(self)@ == old(self)@.subscribe(client_id@, token@),
            old(self)@.sound() ==> final(self)@.sound(),
            final(self).client_ids() == old(self).client_ids(),
            match r {
                Ok(_) => old(self)@.clients.contains_key(client_id@),
                Err(e) => e == ServiceError::NotFound && !old(self)@.clients.contains_key(
                    client_id@,
                ),
            },
    {
        proof {
            if self@.sound() {
                law_sound_stream(self@, client_id@, token@, 0);
            }
        }
        match self.clients.position(client_id) {
            None => Err(ServiceError::NotFound),
            Some(i) => {
                proof {
                    self.clients.lemma_listed();
                }
                let mut client = self.clients.replace_at(i, vacant_client());
                client.subscribe(token);
                self.clients.replace_at(i, client);
                assert(self@.clients =~= old(self)@.subscribe(client_id@, token@).clients);
                Ok(())
            },
        }
    }

    /// Opens a status stream for `client_id` under a fresh token and
    /// returns the token: see `stream_status_as`.
    pub fn stream_status(&mut self, client_id: &str) -> (r: Result<String, ServiceError>)
        ensures
            final(self).client_ids() == old(self).client_ids(),
            old(self)@.sound() ==> final(self)@.sound(),
            match r {
                Ok(token) => old(self)@.clients.contains_key(client_id@) && token@.len() == 36
                    && final(self)@ == old(self)@.subscribe(client_id@, token@),
                Err(e) => e == ServiceError::NotFound && !old(self)@.clients.contains_key(
                    client_id@,
                ) && final(self)@ == old(self)@,
            },
    {
        let token = fresh_id();
        let handed = token.clone();
        match self.stream_status_as(client_id, token) {
            Ok(_) => Ok(handed),
            Err(e) => Err(e),
        }
    }

    /// A tick of the stream `token` of `client_id` at `now`. A stream that
    /// is the subscriber of its client records the contact and sends the
    /// status of the client; a stream whose client is gone, or that another
    /// stream has replaced, stops and changes nothing.
    pub fn stream_tick_at(&mut self, client_id: &str, token: &str, now: i64) -> (r: StreamStep)
        ensures
            final(self)@ == old(self)@.tick(client_id@, token@, now as int),
            old(self)@.sound() ==> final(self)@.sound(),
            final(self).client_ids() == old(self).client_ids(),
            match r {
                StreamStep::Send(snapshot) => old(self)@.streams_to(client_id@, token@) && snapshot@
                    == final(self)@.status_of(client_id@, now as int),
                StreamStep::Stop => !old(self)@.streams_to(client_id@, token@),
            },
    {
        proof {
            if self@.sound() {
                law_sound_stream(self@, client_id@, token@, now as int);
            }
        }
        let live = match self.clients.get(client_id) {
            Some(client) => client.streams_to(token),
            None => false,
        };
        if !live {
            return StreamStep::Stop;
        }
        match self.get_status_at(client_id, now) {
            Ok(snapshot) => StreamStep::Send(snapshot),
            Err(_) => StreamStep::Stop,
        }
    }

    /// A tick of the stream `token` of `client_id` at the time of the call,
    /// which the snapshot carries as its timestamp: see `stream_tick_at`.
    pub fn stream_tick(&mut self, client_id: &str, token: &str) -> (r: StreamStep)
        ensures
            final(self).client_ids() == old(self).client_ids(),
            old(self)@.sound() ==> final(self)@.sound(),
            match r {
                StreamStep::Send(snapshot) => old(self)@.streams_to(client_id@, token@) && 0
                    <= snapshot.timestamp && final(self)@ == old(self)@.tick(
                    client_id@,
                    token@,
                    snapshot.timestamp as int,
                ) && snapshot@ == final(self)@.status_of(client_id@, snapshot.timestamp as int),
                StreamStep::Stop => !old(self)@.streams_to(client_id@, token@) && final(self)@
                    == old(self)@,
            },
    {
        let now = unix_now();
        self.stream_tick_at(client_id, token, now)
    }

    /// Takes in that the stream `token` of `client_id` could not deliver,
    /// because its subscriber is gone or too slow. Where the stream is the
    /// subscriber of its client, the client counts as disconnected: its
    /// record is taken out and handed back. A stream that was replaced, or
    /// whose client is gone already, changes nothing.
    pub fn stream_failed(&mut self, client_id: &str, token: &str) -> (r: Option<Client>)
        ensures
            final(self)@ == old(self)@.drop_stream(client_id@, token@),
            old(self)@.sound() ==> final(self)@.sound(),
            final(self).listed(),
            match r {
                Some(client) => {
                    &&& old(self)@.streams_to(client_id@, token@)
                    &&& client@ == old(self)@.clients[client_id@]
                },
                None => !old(self)@.streams_to(client_id@, token@),
            },
    {
        proof {
            if self@.sound() {
                law_sound_stream(self@, client_id@, token@, 0);
            }
        }
        match self.clients.position(client_id) {
            None => {
                proof {
                    self.clients.lemma_listed();
                }
                None
            },
            Some(i) => {
                proof {
                    self.clients.lemma_listed();
                }
                if self.clients.value_at(i).streams_to(token) {
                    let (_, client) = self.clients.remove_at(i);
                    proof {
                        self.clients.lemma_listed();
                    }
                    Some(client)
                } else {
                    None
                }
            },
        }
    }
}

} // verus!
