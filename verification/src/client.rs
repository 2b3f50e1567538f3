//! The record that the registry keeps for each client.

use vstd::prelude::*;
use crate::command::{CurrentCommand, CurrentCommandView, ListedCommand, ListedCommandView};
use crate::metrics::{
    busy, command_key, current_command, current_command_of, is_busy, key_command_id,
    listed_command, listed_command_of, merge_update, merged, record_command, strip_command,
    with_command, without_command, Bag, Metrics,
};
use crate::strmap::{Duplicate, StringMap};
use crate::text::str_eq;

verus! {

/// One registered client. The descriptive fields are set at registration;
/// `status` is its metrics bag, absent until the first update or dispatch;
/// `last_seen` is the time of its last contact; `subscriber` is the token
/// of the one status stream that is open for it, if any.
#[derive(Debug)]
pub struct Client {
    pub name: String,
    pub client_type: String,
    pub version: String,
    pub max_players: i32,
    pub status: Option<Metrics>,
    pub last_seen: i64,
    pub subscriber: Option<String>,
}

/// What a `Client` stands for.
#[verifier::ext_equal]
pub struct ClientView {
    pub name: Seq<char>,
    pub client_type: Seq<char>,
    pub version: Seq<char>,
    pub max_players: int,
    pub status: Option<Bag>,
    pub last_seen: int,
    pub subscriber: Option<Seq<char>>,
}

impl View for Client {
    type V = ClientView;

    open spec fn view(&self) -> ClientView {
        ClientView {
            name: self.name@,
            client_type: self.client_type@,
            version: self.version@,
            max_players: self.max_players as int,
            status: match self.status {
                Some(m) => Some(m@),
                None => None,
            },
            last_seen: self.last_seen as int,
            subscriber: match self.subscriber {
                Some(t) => Some(t@),
                None => None,
            },
        }
    }
}

impl ClientView {
    /// A record as registration creates it.
    pub open spec fn registered(
        name: Seq<char>,
        client_type: Seq<char>,
        version: Seq<char>,
        max_players: int,
        now: int,
    ) -> ClientView {
        ClientView {
            name,
            client_type,
            version,
            max_players,
            status: None,
            last_seen: now,
            subscriber: None,
        }
    }

    /// The metrics bag, empty where the client has none yet.
    pub open spec fn metrics(self) -> Bag {
        match self.status {
            Some(m) => m,
            None => Map::empty(),
        }
    }

    /// The client has a command in flight.
    pub open spec fn busy(self) -> bool {
        busy(self.metrics())
    }

    /// The command in flight is `command_id`.
    pub open spec fn works_on(self, command_id: Seq<char>) -> bool {
        self.busy() && self.metrics()[key_command_id()] == command_id
    }

    /// The metrics hold none of the keys that record a command.
    pub open spec fn clean(self) -> bool {
        forall|k: Seq<char>| #[trigger] self.metrics().contains_key(k) ==> !command_key(k)
    }

    /// The view of the current command, read from the metrics.
    pub open spec fn current_command(self) -> Option<CurrentCommandView> {
        current_command_of(self.metrics())
    }

    /// The command that the metrics hold, as the administrative listing
    /// shows it.
    pub open spec fn listed_command(self) -> Option<ListedCommandView> {
        listed_command_of(self.metrics())
    }

    /// The record with `m` as its metrics bag.
    pub open spec fn with_metrics(self, m: Bag) -> ClientView {
        ClientView { status: Some(m), ..self }
    }

    /// The record after a contact at `now`: the time of last contact never
    /// goes back.
    pub open spec fn touched(self, now: int) -> ClientView {
        ClientView {
            last_seen: if now > self.last_seen {
                now
            } else {
                self.last_seen
            },
            ..self
        }
    }

    /// The record after the dispatch of a command to it.
    pub open spec fn dispatched(
        self,
        id: Seq<char>,
        name: Seq<char>,
        now: int,
        params: Bag,
    ) -> ClientView {
        self.with_metrics(with_command(self.metrics(), id, name, now, params))
    }

    /// The record with its command keys stripped: the client is idle again.
    /// A record without a bag stays without one.
    pub open spec fn released(self) -> ClientView {
        match self.status {
            Some(m) => self.with_metrics(without_command(m)),
            None => self,
        }
    }

    /// The record after `update` is merged into its metrics.
    pub open spec fn updated(self, update: Bag) -> ClientView {
        self.with_metrics(merged(self.metrics(), update))
    }

    /// How long the client has been silent at `now`.
    pub open spec fn silence(self, now: int) -> int {
        now - self.last_seen
    }

    /// More than `ttl` has passed at `now` since the last contact.
    pub open spec fn expired(self, now: int, ttl: int) -> bool {
        self.silence(now) > ttl
    }

    /// The record with the stream `token` as its one subscriber.
    pub open spec fn subscribed(self, token: Seq<char>) -> ClientView {
        ClientView { subscriber: Some(token), ..self }
    }
}

impl Duplicate for Client {
    fn duplicate(&self) -> (r: Self) {
        Client {
            name: self.name.clone(),
            client_type: self.client_type.clone(),
            version: self.version.clone(),
            max_players: self.max_players,
            status: match &self.status {
                Some(m) => Some(m.duplicate()),
                None => None,
            },
            last_seen: self.last_seen,
            subscriber: match &self.subscriber {
                Some(t) => Some(t.clone()),
                None => None,
            },
        }
    }
}

impl Clone for Client {
    fn clone(&self) -> (r: Self)
        ensures
            r@ == self@,
    {
        self.duplicate()
    }
}

impl Client {
    /// A record as registration creates it: no metrics yet, last seen at
    /// `now`.
    pub fn new(
        name: String,
        client_type: String,
        version: String,
        max_players: i32,
        now: i64,
    ) -> (r: Client)
        ensures
            r@ == ClientView::registered(
                name@,
                client_type@,
                version@,
                max_players as int,
                now as int,
            ),
    {
        Client {
            name,
            client_type,
            version,
            max_players,
            status: None,
            last_seen: now,
            subscriber: None,
        }
    }

    /// Whether the client has a command in flight.
    pub fn is_busy(&self) -> (r: bool)
        ensures
            r == self@.busy(),
    {
        match &self.status {
            Some(m) => is_busy(m),
            None => false,
        }
    }

    /// Whether the command in flight is `command_id`.
    pub fn works_on(&self, command_id: &str) -> (r: bool)
        ensures
            r == self@.works_on(command_id@),
    {
        match &self.status {
            Some(m) => match m.get("current_command_id") {
                Some(id) => str_eq(id.as_str(), command_id),
                None => false,
            },
            None => false,
        }
    }

    /// A copy of the metrics bag, empty where the client has none yet.
    pub fn metrics(&self) -> (r: Metrics)
        ensures
            r@ == self@.metrics(),
    {
        match &self.status {
            Some(m) => m.duplicate(),
            None => StringMap::new(),
        }
    }

    /// The view of the current command, read from the metrics.
    pub fn current_command(&self) -> (r: Option<CurrentCommand>)
        ensures
            r is Some <==> self@.current_command() is Some,
            r matches Some(c) ==> Some(c@) == self@.current_command(),
    {
        match &self.status {
            Some(m) => current_command(m),
            None => None,
        }
    }

    /// The command that the metrics hold, as the administrative listing
    /// shows it.
    pub fn listed_command(&self) -> (r: Option<ListedCommand>)
        ensures
            r is Some <==> self@.listed_command() is Some,
            r matches Some(c) ==> Some(c@) == self@.listed_command(),
    {
        match &self.status {
            Some(m) => listed_command(m),
            None => None,
        }
    }

    /// Records a contact at `now`.
    pub fn touch(&mut self, now: i64)
        ensures
            final(self)@ == old(self)@.touched(now as int),
    {
        if now > self.last_seen {
            self.last_seen = now;
        }
    }

    /// How long the client has been silent at `now`, in seconds; the
    /// largest or the smallest number there is where the true one does not
    /// fit.
    pub fn silent_for(&self, now: i64) -> (r: i64)
        ensures
            r == if self@.silence(now as int) > i64::MAX {
                i64::MAX as int
            } else if self@.silence(now as int) < i64::MIN {
                i64::MIN as int
            } else {
                self@.silence(now as int)
            },
    {
        let d: i128 = (now as i128) - (self.last_seen as i128);
        if d > i64::MAX as i128 {
            i64::MAX
        } else if d < i64::MIN as i128 {
            i64::MIN
        } else {
            d as i64
        }
    }

    /// Whether more than `ttl` has passed at `now` since the last contact.
    pub fn is_expired(&self, now: i64, ttl: i64) -> (r: bool)
        ensures
            r == self@.expired(now as int, ttl as int),
    {
        (now as i128) - (self.last_seen as i128) > (ttl as i128)
    }

    fn take_metrics(&mut self) -> (m: Metrics)
        ensures
            m@ == old(self)@.metrics(),
            final(self)@ == (ClientView { status: None, ..old(self)@ }),
    {
        match self.status.take() {
            Some(m) => m,
            None => StringMap::new(),
        }
    }

    /// Writes the command keys of a dispatched command into the metrics.
    pub fn begin_command(&mut self, id: &str, name: &str, now: i64, params: &Metrics)
        ensures
            final(self)@ == old(self)@.dispatched(id@, name@, now as int, params@),
    {
        let mut m = self.take_metrics();
        record_command(&mut m, id, name, now, params);
        self.status = Some(m);
    }

    /// Strips the command keys from the metrics.
    pub fn release(&mut self)
        ensures
            final(self)@ == old(self)@.released(),
    {
        match self.status.take() {
            Some(m) => {
                let mut m = m;
                strip_command(&mut m);
                self.status = Some(m);
            },
            None => {},
        }
    }

    /// Whether the stream `token` is the subscriber of this client.
    pub fn streams_to(&self, token: &str) -> (r: bool)
        ensures
            r == (self@.subscriber == Some(token@)),
    {
        match &self.subscriber {
            Some(t) => str_eq(t.as_str(), token),
            None => false,
        }
    }

    /// Binds the stream `token` as the one subscriber, in place of any
    /// earlier one.
    pub fn subscribe(&mut self, token: String)
        ensures
            final(self)@ == old(self)@.subscribed(token@),
    {
        self.subscriber = Some(token);
    }

    /// Merges a status update into the metrics.
    pub fn apply_update(&mut self, update: &Metrics)
        ensures
            final(self)@ == old(self)@.updated(update@),
    {
        let mut m = self.take_metrics();
        merge_update(&mut m, update);
        self.status = Some(m);
    }
}

} // verus!
