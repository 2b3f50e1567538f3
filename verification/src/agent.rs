//! The agent's side of the protocol: what an agent keeps between its calls
//! to the service, what it reports, and how it recovers when a call fails.
//!
//! Nothing here talks to the service. Each function decides; the caller
//! connects, sleeps and sends.

use vstd::prelude::*;
use crate::ambient::unix_now;
use crate::command::{CurrentCommand, CurrentCommandView};
use crate::metrics::{key_completed, record_command, with_command, Bag, Metrics};
use crate::strmap::{Duplicate, StringMap};
use crate::text::{contains, occurs_in, str_eq};

verus! {

/// How long an agent works on a command, in seconds.
pub const COMMAND_DURATION_SECS: i64 = 5;

/// After how many failed attempts to connect an agent gives up.
pub const MAX_RETRIES: u32 = 10;

/// The longest that an agent waits between two attempts, in seconds.
pub const MAX_DELAY_SECS: u64 = 30;

/// What an agent keeps between its calls.
#[derive(Debug)]
pub struct ClientState {
    pub client_id: Option<String>,
    pub current_command: Option<CurrentCommand>,
    pub last_update: i64,
    pub reconnect_count: u32,
    pub command_start_time: Option<i64>,
}

/// What a `ClientState` stands for.
#[verifier::ext_equal]
pub struct ClientStateView {
    pub client_id: Option<Seq<char>>,
    pub current_command: Option<CurrentCommandView>,
    pub last_update: int,
    pub reconnect_count: int,
    pub command_start_time: Option<int>,
}

impl View for ClientState {
    type V = ClientStateView;

    open spec fn view(&self) -> ClientStateView {
        ClientStateView {
            client_id: match self.client_id {
                Some(id) => Some(id@),
                None => None,
            },
            current_command: match self.current_command {
                Some(c) => Some(c@),
                None => None,
            },
            last_update: self.last_update as int,
            reconnect_count: self.reconnect_count as int,
            command_start_time: match self.command_start_time {
                Some(t) => Some(t as int),
                None => None,
            },
        }
    }
}

impl ClientStateView {
    /// The state of an agent that has not registered yet.
    pub open spec fn initial() -> ClientStateView {
        ClientStateView {
            client_id: None,
            current_command: None,
            last_update: 0,
            reconnect_count: 0,
            command_start_time: None,
        }
    }

    /// The state after the agent takes up `command` at `now`.
    pub open spec fn started(self, command: CurrentCommandView, now: int) -> ClientStateView {
        ClientStateView { current_command: Some(command), command_start_time: Some(now), ..self }
    }

    /// The command that the agent took up has run its time at `now`.
    pub open spec fn finished(self, now: int) -> bool {
        match self.command_start_time {
            Some(start) => now - start >= COMMAND_DURATION_SECS,
            None => false,
        }
    }

    /// The state after the agent lays its command down.
    pub open spec fn laid_down(self) -> ClientStateView {
        match self.current_command {
            Some(_) => ClientStateView { current_command: None, command_start_time: None, ..self },
            None => self,
        }
    }

    /// The id of the command that the agent lays down, if it has one.
    pub open spec fn laid_down_id(self) -> Option<Seq<char>> {
        match self.current_command {
            Some(c) => Some(c.command_id),
            None => None,
        }
    }

    /// The state after the answer to a status request arrives at `now`: a
    /// command that the answer shows is taken up unless the agent is working
    /// on one already.
    pub open spec fn answered(self, shown: Option<CurrentCommandView>, now: int) -> ClientStateView {
        let next = match shown {
            Some(c) => if self.current_command is None {
                self.started(c, now)
            } else {
                self
            },
            None => self,
        };
        ClientStateView { last_update: now, ..next }
    }

    /// The state when the next report is due at `now`: a command that has
    /// run its time is laid down.
    pub open spec fn reporting(self, now: int) -> ClientStateView {
        if self.finished(now) {
            self.laid_down()
        } else {
            self
        }
    }

    /// The command that the report at `now` names as completed.
    pub open spec fn reported_done(self, now: int) -> Option<Seq<char>> {
        if self.finished(now) {
            self.laid_down_id()
        } else {
            None
        }
    }
}

/// What an agent sends with a status update.
#[derive(Debug)]
pub struct Report {
    pub client_id: Option<String>,
    pub current_command: Option<CurrentCommand>,
    pub completed_command_id: Option<String>,
}

impl ClientState {
    /// The state of an agent that has not registered yet.
    pub fn new() -> (r: Self)
        ensures
            r@ == ClientStateView::initial(),
    {
        ClientState {
            client_id: None,
            current_command: None,
            last_update: 0,
            reconnect_count: 0,
            command_start_time: None,
        }
    }

    /// Takes `id` as the id under which the agent is registered, in place
    /// of any earlier one. Nothing else changes.
    pub fn adopt_id(&mut self, id: String)
        ensures
            final(self)@ == (ClientStateView { client_id: Some(id@), ..old(self)@ }),
    {
        self.client_id = Some(id);
    }

    /// Takes up `command` at `now`.
    pub fn start_command_at(&mut self, command: CurrentCommand, now: i64)
        ensures
            final(self)@ == old(self)@.started(command@, now as int),
    {
        self.current_command = Some(command);
        self.command_start_time = Some(now);
    }

    /// Takes up `command` at the time of the call.
    pub fn start_command(&mut self, command: CurrentCommand)
        ensures
            final(self)@.command_start_time is Some,
            0 <= final(self)@.command_start_time->0 <= i64::MAX,
            final(self)@ == old(self)@.started(command@, final(self)@.command_start_time->0),
    {
        let now = unix_now();
        self.start_command_at(command, now);
    }

    /// Lays the command down and returns its id; `None`, and no change,
    /// where the agent has none.
    pub fn complete_command(&mut self) -> (r: Option<String>)
        ensures
            final(self)@ == old(self)@.laid_down(),
            match r {
                Some(id) => Some(id@) == old(self)@.laid_down_id(),
                None => old(self)@.laid_down_id() is None,
            },
    {
        match self.current_command.take() {
            Some(command) => {
                self.command_start_time = None;
                Some(command.command_id)
            },
            None => None,
        }
    }

    /// Whether the command that the agent took up has run its time at `now`.
    pub fn is_command_finished_at(&self, now: i64) -> (r: bool)
        ensures
            r == self@.finished(now as int),
    {
        match self.command_start_time {
            Some(start) => (now as i128) - (start as i128) >= (COMMAND_DURATION_SECS as i128),
            None => false,
        }
    }

    /// Whether the command that the agent took up has run its time. An
    /// agent without a command has none that is finished.
    pub fn is_command_finished(&self) -> (r: bool)
        ensures
            self@.command_start_time is None ==> !r,
            exists|now: int| 0 <= now <= i64::MAX && r == #[trigger] self@.finished(now),
    {
        let now = unix_now();
        let r = self.is_command_finished_at(now);
        assert(r == self@.finished(now as int));
        r
    }

    /// Takes in the answer to a status request that arrived at `now`.
    pub fn on_status(&mut self, shown: Option<CurrentCommand>, now: i64)
        ensures
            final(self)@ == old(self)@.answered(
                match shown {
                    Some(c) => Some(c@),
                    None => None,
                },
                now as int,
            ),
    {
        match shown {
            Some(command) => {
                if self.current_command.is_none() {
                    self.start_command_at(command, now);
                }
            },
            None => {},
        }
        self.last_update = now;
    }

    /// Counts a failure from which the agent did not recover.
    pub fn note_failure(&mut self)
        ensures
            final(self)@ == (ClientStateView {
                reconnect_count: if old(self)@.reconnect_count < u32::MAX {
                    old(self)@.reconnect_count + 1
                } else {
                    old(self)@.reconnect_count
                },
                ..old(self)@
            }),
    {
        if self.reconnect_count < u32::MAX {
            self.reconnect_count = self.reconnect_count + 1;
        }
    }

    /// Prepares the report that is due at `now`: a command that has run its
    /// time is laid down and named as completed; otherwise the command in
    /// hand, if any, is reported as current.
    pub fn next_report(&mut self, now: i64) -> (r: Report)
        ensures
            final(self)@ == old(self)@.reporting(now as int),
            r.client_id matches Some(id) ==> Some(id@) == old(self)@.client_id,
            r.client_id is None ==> old(self)@.client_id is None,
            r.current_command matches Some(c) ==> Some(c@) == final(self)@.current_command,
            r.current_command is None ==> final(self)@.current_command is None,
            r.completed_command_id matches Some(id) ==> Some(id@) == old(self)@.reported_done(
                now as int,
            ),
            r.completed_command_id is None ==> old(self)@.reported_done(now as int) is None,
    {
        let completed_command_id = if self.is_command_finished_at(now) {
            self.complete_command()
        } else {
            None
        };
        let client_id = match &self.client_id {
            Some(id) => Some(id.clone()),
            None => None,
        };
        let current_command = match &self.current_command {
            Some(c) => Some(c.duplicate()),
            None => None,
        };
        Report { client_id, current_command, completed_command_id }
    }
}

/// The metrics that an agent reports: its vital signs, the command it names
/// as completed, and the command it is working on with its parameters.
pub open spec fn report_of(current: Option<CurrentCommandView>, completed: Option<Seq<char>>) -> Bag {
    let vital = Map::<Seq<char>, Seq<char>>::empty().insert("status"@, "running"@).insert(
        "memory_usage"@,
        "128MB"@,
    ).insert("cpu_usage"@, "25%"@);
    let done = match completed {
        Some(id) => vital.insert(key_completed(), id),
        None => vital,
    };
    match current {
        Some(c) => with_command(done, c.command_id, c.command, c.started_at, c.parameters),
        None => done,
    }
}

/// The metrics that an agent reports.
pub fn status_report(current: Option<&CurrentCommand>, completed: Option<String>) -> (r: Metrics)
    ensures
        r@ == report_of(
            match current {
                Some(c) => Some(c@),
                None => None,
            },
            match completed {
                Some(id) => Some(id@),
                None => None,
            },
        ),
{
    let mut m: Metrics = StringMap::new();
    m.insert("status".to_owned(), "running".to_owned());
    m.insert("memory_usage".to_owned(), "128MB".to_owned());
    m.insert("cpu_usage".to_owned(), "25%".to_owned());
    match completed {
        Some(id) => {
            m.insert("completed_command_id".to_owned(), id);
        },
        None => {},
    }
    match current {
        Some(c) => {
            record_command(
                &mut m,
                c.command_id.as_str(),
                c.command.as_str(),
                c.started_at,
                &c.parameters,
            );
        },
        None => {},
    }
    m
}

/// Where an agent stands in its attempts to connect.
#[derive(Debug, Clone, Copy, PartialEq, Eq, Structural)]
pub struct Backoff {
    pub retry_count: u32,
    pub delay_secs: u64,
}

/// What an agent does after a failed attempt to connect.
#[derive(Debug, Clone, Copy, PartialEq, Eq, Structural)]
pub enum RetryStep {
    /// Give up: the failure is final.
    GiveUp,
    /// Wait this many seconds, then try again.
    Wait(u64),
}

impl Backoff {
    /// Before the first attempt: no failure yet, and a wait of one second
    /// after the first.
    pub open spec fn initial() -> Backoff {
        Backoff { retry_count: 0, delay_secs: 1 }
    }

    /// The failures counted after one more.
    pub open spec fn counted(self) -> int {
        if self.retry_count < u32::MAX {
            self.retry_count + 1
        } else {
            self.retry_count as int
        }
    }

    /// What to do after one more failure: give up at the tenth, wait
    /// before that.
    pub open spec fn step(self) -> RetryStep {
        if self.counted() >= MAX_RETRIES {
            RetryStep::GiveUp
        } else {
            RetryStep::Wait(self.delay_secs)
        }
    }

    /// The state after one more failure: the failure is counted, and unless
    /// the agent gives up the wait doubles, up to the longest wait.
    pub open spec fn failed(self) -> Backoff {
        Backoff {
            retry_count: self.counted() as u32,
            delay_secs: if self.counted() >= MAX_RETRIES {
                self.delay_secs
            } else if 2 * self.delay_secs <= MAX_DELAY_SECS {
                (2 * self.delay_secs) as u64
            } else {
                MAX_DELAY_SECS
            },
        }
    }

    /// Before the first attempt.
    pub fn new() -> (r: Self)
        ensures
            r == Backoff::initial(),
    {
        Backoff { retry_count: 0, delay_secs: 1 }
    }

    /// Takes in a failed attempt and says what to do next.
    pub fn on_failure(&mut self) -> (r: RetryStep)
        ensures
            r == old(self).step(),
            *final(self) == old(self).failed(),
    {
        if self.retry_count < u32::MAX {
            self.retry_count = self.retry_count + 1;
        }
        if self.retry_count >= MAX_RETRIES {
            return RetryStep::GiveUp;
        }
        let wait = self.delay_secs;
        if self.delay_secs <= MAX_DELAY_SECS / 2 {
            self.delay_secs = self.delay_secs * 2;
        } else {
            self.delay_secs = MAX_DELAY_SECS;
        }
        RetryStep::Wait(wait)
    }
}

/// An agent waits 1, 2, 4, 8, 16 and then 30 seconds after its failures,
/// and gives up at the tenth.
pub proof fn law_backoff_schedule()
    ensures
        Backoff::initial().step() == RetryStep::Wait(1),
        Backoff::initial().failed().step() == RetryStep::Wait(2),
        Backoff::initial().failed().failed().step() == RetryStep::Wait(4),
        Backoff::initial().failed().failed().failed().step() == RetryStep::Wait(8),
        Backoff::initial().failed().failed().failed().failed().step() == RetryStep::Wait(16),
        Backoff::initial().failed().failed().failed().failed().failed().step() == RetryStep::Wait(
            30,
        ),
        Backoff::initial().failed().failed().failed().failed().failed().failed().failed().failed().step()
            == RetryStep::Wait(30),
        Backoff::initial().failed().failed().failed().failed().failed().failed().failed().failed().failed().step()
            == RetryStep::GiveUp,
{
}

/// A failed call as the agent sees it: how the error describes itself, and
/// the message of the service where the service answered `NotFound`.
#[derive(Debug)]
pub struct Failure {
    pub description: String,
    pub not_found: Option<String>,
}

/// How an agent recovers from a failed call.
#[derive(Debug, Clone, Copy, PartialEq, Eq, Structural)]
pub enum Recovery {
    /// The connection is lost: connect again, then register again.
    Reconnect,
    /// The service does not know the agent: register again.
    Reregister,
    /// Nothing to be done: the failure stands.
    Fail,
}

/// How an agent recovers from a failure that describes itself as
/// `description`, with `not_found` the message of a `NotFound` answer.
pub open spec fn recovery_of(description: Seq<char>, not_found: Option<Seq<char>>) -> Recovery {
    if occurs_in("transport error"@, description) || occurs_in(
        "connection refused"@,
        description,
    ) {
        Recovery::Reconnect
    } else if not_found == Some("Client not found"@) {
        Recovery::Reregister
    } else {
        Recovery::Fail
    }
}

/// How an agent recovers from `failure`.
pub fn recovery_for(failure: &Failure) -> (r: Recovery)
    ensures
        r == recovery_of(
            failure.description@,
            match failure.not_found {
                Some(m) => Some(m@),
                None => None,
            },
        ),
{
    if contains(failure.description.as_str(), "transport error") || contains(
        failure.description.as_str(),
        "connection refused",
    ) {
        return Recovery::Reconnect;
    }
    match &failure.not_found {
        Some(message) => {
            if str_eq(message.as_str(), "Client not found") {
                Recovery::Reregister
            } else {
                Recovery::Fail
            }
        },
        None => Recovery::Fail,
    }
}

} // verus!
