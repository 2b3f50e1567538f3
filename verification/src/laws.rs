//! Laws of the registry: what holds of every state, and of every sequence of
//! operations, whatever the clients and the clock do.

use vstd::prelude::*;
use crate::client::ClientView;
use crate::command::{
    CommandStatus, CurrentCommandView, ListedCommandView, PendingCommandView,
};
use crate::metrics::{
    command_key, current_command_of, holds_command, key_command, key_command_id, key_completed,
    key_started_at, lemma_parameter_key, lemma_reserved_keys, listed_command_of, merged,
    parameter_key, parameters_in, protected_key, Bag,
};
use crate::model::{Call, ServiceError, ServiceView};
use crate::strmap::lemma_first_free;
use crate::text::{decimal, lemma_parse_written};

verus! {

/// A registration under an id that no registered client has adds exactly
/// that client: the record stands under the id, and no other record and no
/// command changes.
pub proof fn law_fresh_registration(s: ServiceView, id: Seq<char>, record: ClientView)
    requires
        !s.clients.contains_key(id),
    ensures
        s.register(id, record).clients.contains_key(id),
        s.register(id, record).clients[id] == record,
        s.register(id, record).clients.remove(id) == s.clients,
        s.register(id, record).commands == s.commands,
        s.register(id, record).issued == s.issued.insert(id),
{
    assert(s.register(id, record).clients.remove(id) =~= s.clients);
}

/// The service after the registrations `ids[0]`, `ids[1]`, ... in turn,
/// each with its record.
pub open spec fn register_all(
    s: ServiceView,
    ids: Seq<Seq<char>>,
    records: Seq<ClientView>,
) -> ServiceView
    decreases ids.len(),
{
    if ids.len() == 0 {
        s
    } else {
        register_all(s, ids.drop_last(), records.drop_last()).register(ids.last(), records.last())
    }
}

/// Registrations under pairwise distinct ids do not disturb each other:
/// afterwards each id holds the record of its own registration, and a
/// client that was there before under another id is as it was.
pub proof fn law_distinct_registrations(
    s: ServiceView,
    ids: Seq<Seq<char>>,
    records: Seq<ClientView>,
)
    requires
        ids.len() == records.len(),
        ids.no_duplicates(),
    ensures
        forall|i: int|
            0 <= i < ids.len() ==> register_all(s, ids, records).clients.contains_key(
                #[trigger] ids[i],
            ) && register_all(s, ids, records).clients[ids[i]] == records[i],
        forall|k: Seq<char>|
            s.clients.contains_key(k) && !ids.contains(k) ==> #[trigger] register_all(
                s,
                ids,
                records,
            ).clients.contains_key(k) && register_all(s, ids, records).clients[k] == s.clients[k],
        register_all(s, ids, records).commands == s.commands,
    decreases ids.len(),
{
    if ids.len() > 0 {
        let front = ids.drop_last();
        law_distinct_registrations(s, front, records.drop_last());
        assert forall|i: int| 0 <= i < ids.len() implies register_all(
            s,
            ids,
            records,
        ).clients.contains_key(#[trigger] ids[i]) && register_all(s, ids, records).clients[ids[i]]
            == records[i] by {
            if i < ids.len() - 1 {
                assert(front[i] == ids[i]);
                assert(records.drop_last()[i] == records[i]);
            }
        }
        let all = register_all(s, ids, records);
        assert forall|k: Seq<char>|
            s.clients.contains_key(k) && !ids.contains(k) implies #[trigger] all.clients.contains_key(
            k,
        ) && all.clients[k] == s.clients[k] by {
            if front.contains(k) {
                let j = front.index_of(k);
                assert(ids[j] == k);
            }
            assert(ids[ids.len() - 1] == ids.last());
        }
    }
}

/// An id, once issued, is issued for good: no call takes it back,
/// whatever becomes of the record that stood under it.
pub proof fn law_issued_for_good(s: ServiceView, call: Call, id: Seq<char>)
    requires
        s.issued.contains(id),
    ensures
        s.after(call).issued.contains(id),
{
}

/// The id of the registration `calls[i]` is issued after every longer run
/// of the calls.
proof fn lemma_issued_in_run(s: ServiceView, calls: Seq<Call>, i: int, j: int)
    requires
        0 <= i < j <= calls.len(),
        calls[i] is Register,
    ensures
        s.after_all(calls.take(j)).issued.contains(calls[i]->id),
    decreases j,
{
    let run = calls.take(j);
    assert(run.drop_last() =~= calls.take(j - 1));
    assert(run.last() == calls[j - 1]);
    if j > i + 1 {
        lemma_issued_in_run(s, calls, i, j - 1);
        law_issued_for_good(s.after_all(calls.take(j - 1)), calls[j - 1], calls[i]->id);
    }
}

/// No client id is returned twice. Take any run of calls of the service,
/// in any order, sweeps and failed streams among them. Where each
/// registration in it comes under an id that was not issued before, as the
/// service draws its ids, the ids of the registrations are pairwise
/// distinct: an id is not reused even after its record is gone.
pub proof fn law_ids_never_reused(s: ServiceView, calls: Seq<Call>)
    requires
        forall|j: int|
            0 <= j < calls.len() && calls[j] is Register ==> !s.after_all(
                #[trigger] calls.take(j),
            ).issued.contains(calls[j]->id),
    ensures
        forall|i: int, j: int|
            0 <= i < j < calls.len() && #[trigger] calls[i] is Register
                && #[trigger] calls[j] is Register ==> calls[i]->id != calls[j]->id,
{
    assert forall|i: int, j: int|
        0 <= i < j < calls.len() && #[trigger] calls[i] is Register
            && #[trigger] calls[j] is Register implies calls[i]->id != calls[j]->id by {
        lemma_issued_in_run(s, calls, i, j);
        assert(!s.after_all(calls.take(j)).issued.contains(calls[j]->id));
    }
}

/// Soundness holds along every run of calls that starts from a sound
/// service and registers records as registration makes them, without
/// metrics.
pub proof fn law_sound_run(s: ServiceView, calls: Seq<Call>)
    requires
        s.sound(),
        forall|i: int|
            0 <= i < calls.len() && #[trigger] calls[i] is Register ==> calls[i]->record.status
                is None,
    ensures
        s.after_all(calls).sound(),
    decreases calls.len(),
{
    if calls.len() > 0 {
        let front = calls.drop_last();
        assert forall|i: int|
            0 <= i < front.len() && #[trigger] front[i] is Register implies front[i]->record.status
                is None by {
            assert(front[i] == calls[i]);
        }
        law_sound_run(s, front);
        let before = s.after_all(front);
        assert(calls[calls.len() - 1] == calls.last());
        match calls.last() {
            Call::Register { id, record } => law_sound_register(before, id, record),
            Call::Dispatch { client_id, command, now } => law_sound_dispatch(
                before,
                client_id,
                command,
                now,
            ),
            Call::Complete { command_id } => law_sound_complete(before, command_id),
            Call::Touch { client_id, now } => law_sound_touch(before, client_id, now),
            Call::Report { client_id, update, now } => law_sound_report(
                before,
                client_id,
                update,
                now,
            ),
            Call::Sweep { now, ttl } => law_sound_sweep(before, now, ttl),
            Call::Subscribe { client_id, token } => law_sound_stream(before, client_id, token, 0),
            Call::Tick { client_id, token, now } => law_sound_stream(
                before,
                client_id,
                token,
                now,
            ),
            Call::DropStream { client_id, token } => law_sound_stream(
                before,
                client_id,
                token,
                0,
            ),
        }
    }
}

/// A client that has a command in flight takes no other: the dispatch fails
/// with `FailedPrecondition` and changes nothing.
pub proof fn law_busy_rejects(
    s: ServiceView,
    client_id: Seq<char>,
    command: PendingCommandView,
    now: int,
)
    requires
        s.clients.contains_key(client_id),
        s.clients[client_id].busy(),
    ensures
        s.admits(client_id) == Err::<(), ServiceError>(ServiceError::FailedPrecondition),
        s.dispatch(client_id, command, now) == s,
{
}

/// Of two dispatches to the same idle client exactly one succeeds, in
/// whichever order they arrive: the first is accepted and makes the client
/// busy, the second fails with `FailedPrecondition` and changes nothing.
pub proof fn law_one_command_in_flight(
    s: ServiceView,
    client_id: Seq<char>,
    a: PendingCommandView,
    at_a: int,
    b: PendingCommandView,
    at_b: int,
)
    requires
        s.admits(client_id) is Ok,
    ensures
        s.dispatch(client_id, a, at_a).clients[client_id].busy(),
        s.dispatch(client_id, a, at_a).admits(client_id) == Err::<(), ServiceError>(
            ServiceError::FailedPrecondition,
        ),
        s.dispatch(client_id, a, at_a).dispatch(client_id, b, at_b) == s.dispatch(
            client_id,
            a,
            at_a,
        ),
        s.dispatch(client_id, b, at_b).clients[client_id].busy(),
        s.dispatch(client_id, b, at_b).admits(client_id) == Err::<(), ServiceError>(
            ServiceError::FailedPrecondition,
        ),
        s.dispatch(client_id, b, at_b).dispatch(client_id, a, at_a) == s.dispatch(
            client_id,
            b,
            at_b,
        ),
{
}

/// Releasing a client leaves it idle and clean.
pub proof fn lemma_released(client: ClientView)
    requires
        client.busy(),
    ensures
        !client.released().busy(),
        client.released().clean(),
        client.released().current_command() is None,
{
}

/// Completion is idempotent and tolerant: an id that the command table does
/// not know changes nothing; after a completion no client works on the
/// command; and a second completion of the same command changes nothing
/// more.
pub proof fn law_complete_idempotent(s: ServiceView, command_id: Seq<char>)
    ensures
        !s.commands.contains_key(command_id) ==> s.complete(command_id) == s,
        s.commands.contains_key(command_id) ==> s.complete(command_id).commands[command_id].status
            == CommandStatus::Completed,
        s.commands.contains_key(command_id) ==> forall|c: Seq<char>| #[trigger]
            s.complete(command_id).clients.contains_key(c) ==> !s.complete(
                command_id,
            ).clients[c].works_on(command_id),
        s.complete(command_id).complete(command_id) == s.complete(command_id),
{
    if s.commands.contains_key(command_id) {
        let once = s.complete(command_id);
        assert forall|c: Seq<char>| #[trigger] once.clients.contains_key(c) implies !once.clients[c].works_on(
            command_id,
        ) by {
            if s.clients[c].works_on(command_id) {
                lemma_released(s.clients[c]);
            }
        }
        assert(once.complete(command_id).clients =~= once.clients);
        assert(once.complete(command_id).commands =~= once.commands);
    }
}

/// A status update cannot make a client busy: whatever it holds, and
/// whichever completion it names, a client that was idle is idle afterwards.
pub proof fn law_report_leaves_idle(s: ServiceView, client_id: Seq<char>, update: Bag, now: int)
    requires
        s.clients.contains_key(client_id),
        !s.clients[client_id].busy(),
    ensures
        s.report(client_id, update, now).clients.contains_key(client_id),
        !s.report(client_id, update, now).clients[client_id].busy(),
        s.report(client_id, update, now).clients[client_id].current_command() is None,
{
    lemma_reserved_keys();
}

/// A status update that names the command a client is working on as
/// completed leaves that client idle and the command completed, and so does
/// the same update sent once more.
pub proof fn law_completion_report(
    s: ServiceView,
    client_id: Seq<char>,
    update: Bag,
    now: int,
    again: int,
)
    requires
        s.sound(),
        s.clients.contains_key(client_id),
        update.contains_key(key_completed()),
        s.clients[client_id].works_on(update[key_completed()]),
    ensures
        !s.report(client_id, update, now).clients[client_id].busy(),
        s.report(client_id, update, now).clients[client_id].current_command() is None,
        s.report(client_id, update, now).commands[update[key_completed()]].status
            == CommandStatus::Completed,
        !s.report(client_id, update, now).report(client_id, update, again).clients[client_id].busy(),
        s.report(client_id, update, now).report(client_id, update, again).commands[update[key_completed()]].status
            == CommandStatus::Completed,
{
    lemma_reserved_keys();
    let id = update[key_completed()];
    let seen = s.touch(client_id, now);
    assert(seen.clients[client_id].works_on(id));
    assert(seen.commands.contains_key(id));
    lemma_released(seen.clients[client_id]);
    let once = s.report(client_id, update, now);
    assert(!once.clients[client_id].busy());
    law_report_leaves_idle(once, client_id, update, again);
}

/// A sweep takes out every client that has been silent for longer than the
/// time to live, and no other: a client whose last contact lies at most
/// `ttl` back stays, with its record unchanged.
pub proof fn law_sweep(s: ServiceView, client_id: Seq<char>, now: int, ttl: int)
    requires
        s.clients.contains_key(client_id),
    ensures
        s.clients[client_id].expired(now, ttl) ==> !s.sweep(now, ttl).clients.contains_key(
            client_id,
        ),
        !s.clients[client_id].expired(now, ttl) ==> s.sweep(now, ttl).clients.contains_key(
            client_id,
        ) && s.sweep(now, ttl).clients[client_id] == s.clients[client_id],
{
}

/// A client that was in contact at `seen_at`, by a status request, by a
/// status update or by a tick of its status stream, outlives every sweep
/// that comes no later than `ttl` after it.
pub proof fn law_refresh_outlives_sweep(
    s: ServiceView,
    client_id: Seq<char>,
    update: Bag,
    seen_at: int,
    now: int,
    ttl: int,
)
    requires
        s.clients.contains_key(client_id),
        now - seen_at <= ttl,
    ensures
        s.touch(client_id, seen_at).sweep(now, ttl).clients.contains_key(client_id),
        s.report(client_id, update, seen_at).sweep(now, ttl).clients.contains_key(client_id),
        forall|token: Seq<char>|
            s.streams_to(client_id, token) ==> #[trigger] s.tick(client_id, token, seen_at).sweep(
                now,
                ttl,
            ).clients.contains_key(client_id),
{
}

/// A status update stores every key it holds that is not a command key,
/// with the update's value, whatever else the update holds or names as
/// completed.
pub proof fn law_report_stores(
    s: ServiceView,
    client_id: Seq<char>,
    update: Bag,
    now: int,
    k: Seq<char>,
)
    requires
        s.clients.contains_key(client_id),
        update.contains_key(k),
        !command_key(k),
    ensures
        s.report(client_id, update, now).clients[client_id].metrics().contains_key(k),
        s.report(client_id, update, now).clients[client_id].metrics()[k] == update[k],
{
}

/// Merging is last writer wins, key by key, and clears nothing: after two
/// updates a key holds the value of the later update that set it, and a key
/// that neither update set holds what it held before.
pub proof fn law_merge_twice(m: Bag, first: Bag, second: Bag, k: Seq<char>)
    ensures
        merged(merged(m, first), second).contains_key(k) <==> m.contains_key(k) || (
        first.contains_key(k) && !protected_key(k)) || (second.contains_key(k) && !protected_key(
            k,
        )),
        second.contains_key(k) && !protected_key(k) ==> merged(merged(m, first), second)[k]
            == second[k],
        !second.contains_key(k) && first.contains_key(k) && !protected_key(k) ==> merged(
            merged(m, first),
            second,
        )[k] == first[k],
        !second.contains_key(k) && !first.contains_key(k) && m.contains_key(k) ==> merged(
            merged(m, first),
            second,
        )[k] == m[k],
        protected_key(k) && m.contains_key(k) ==> merged(merged(m, first), second)[k] == m[k],
{
}

/// Two updates of one key each, under different keys that are not
/// protected, leave both keys in the bag, each with its value.
pub proof fn law_merge_two_keys(
    m: Bag,
    k1: Seq<char>,
    v1: Seq<char>,
    k2: Seq<char>,
    v2: Seq<char>,
)
    requires
        !protected_key(k1),
        !protected_key(k2),
        k1 != k2,
    ensures
        merged(merged(m, map![k1 => v1]), map![k2 => v2]) == m.insert(k1, v1).insert(k2, v2),
        merged(merged(Map::empty(), map![k1 => v1]), map![k2 => v2]) == map![k1 => v1, k2 => v2],
{
    assert(merged(merged(m, map![k1 => v1]), map![k2 => v2]) =~= m.insert(k1, v1).insert(k2, v2));
    let e = Map::<Seq<char>, Seq<char>>::empty();
    assert(merged(merged(e, map![k1 => v1]), map![k2 => v2]) =~= map![k1 => v1, k2 => v2]);
}

/// Two status updates of one client, neither of which names a completion,
/// leave the client's metrics as the two merges make them.
pub proof fn law_report_merges(
    s: ServiceView,
    client_id: Seq<char>,
    first: Bag,
    at_first: int,
    second: Bag,
    at_second: int,
)
    requires
        s.clients.contains_key(client_id),
        !first.contains_key(key_completed()),
        !second.contains_key(key_completed()),
    ensures
        s.report(client_id, first, at_first).report(
            client_id,
            second,
            at_second,
        ).clients[client_id].metrics() == merged(
            merged(s.clients[client_id].metrics(), first),
            second,
        ),
{
}

/// The forms in which the laws below take soundness apart.
proof fn lemma_sound_from(before: ServiceView, after: ServiceView)
    requires
        before.sound(),
        after.commands == before.commands,
        after.issued == before.issued,
        forall|c: Seq<char>| #[trigger]
            after.clients.contains_key(c) ==> before.clients.contains_key(c) && after.clients[c].status
                == before.clients[c].status,
    ensures
        after.sound(),
{
    assert forall|c: Seq<char>| #[trigger] after.clients.contains_key(c) implies after.sound_at(c) by {
        assert(before.clients.contains_key(c));
    }
}

/// Soundness holds at the start: the service with no client and no command
/// is sound.
pub proof fn law_sound_empty()
    ensures
        ServiceView::empty().sound(),
{
}

/// Registration keeps a sound service sound.
pub proof fn law_sound_register(s: ServiceView, client_id: Seq<char>, record: ClientView)
    requires
        s.sound(),
        record.status is None,
    ensures
        s.register(client_id, record).sound(),
{
    let r = s.register(client_id, record);
    assert forall|c: Seq<char>| #[trigger] r.clients.contains_key(c) implies r.sound_at(c) by {
        if c != client_id {
            assert(s.clients.contains_key(c));
        }
    }
}

/// Dispatch keeps a sound service sound.
pub proof fn law_sound_dispatch(
    s: ServiceView,
    client_id: Seq<char>,
    command: PendingCommandView,
    now: int,
)
    requires
        s.sound(),
    ensures
        s.dispatch(client_id, command, now).sound(),
{
    lemma_reserved_keys();
    let d = s.dispatch(client_id, command, now);
    if s.admits(client_id) is Ok {
        assert forall|c: Seq<char>| #[trigger] d.clients.contains_key(c) implies d.sound_at(c) by {
            if c == client_id {
                lemma_dispatched_id(s.clients[c], command, now);
            } else {
                assert(s.clients.contains_key(c));
            }
        }
    }
}

/// After a dispatch the client's metrics name the dispatched command.
proof fn lemma_dispatched_id(client: ClientView, command: PendingCommandView, now: int)
    ensures
        client.dispatched(command.command_id, command.command, now, command.parameters).busy(),
        client.dispatched(
            command.command_id,
            command.command,
            now,
            command.parameters,
        ).metrics()[key_command_id()] == command.command_id,
        client.dispatched(
            command.command_id,
            command.command,
            now,
            command.parameters,
        ).metrics()[key_command()] == command.command,
        client.dispatched(
            command.command_id,
            command.command,
            now,
            command.parameters,
        ).metrics()[key_started_at()] == decimal(now),
{
    lemma_reserved_keys();
}

/// Completion keeps a sound service sound.
pub proof fn law_sound_complete(s: ServiceView, command_id: Seq<char>)
    requires
        s.sound(),
    ensures
        s.complete(command_id).sound(),
{
    let d = s.complete(command_id);
    if s.commands.contains_key(command_id) {
        assert forall|c: Seq<char>| #[trigger] d.clients.contains_key(c) implies d.sound_at(c) by {
            assert(s.clients.contains_key(c));
            if s.clients[c].works_on(command_id) {
                lemma_released(s.clients[c]);
            }
        }
    }
}

/// A contact keeps a sound service sound.
pub proof fn law_sound_touch(s: ServiceView, client_id: Seq<char>, now: int)
    requires
        s.sound(),
    ensures
        s.touch(client_id, now).sound(),
{
    lemma_sound_from(s, s.touch(client_id, now));
}

/// A status update keeps a sound service sound.
pub proof fn law_sound_report(s: ServiceView, client_id: Seq<char>, update: Bag, now: int)
    requires
        s.sound(),
    ensures
        s.report(client_id, update, now).sound(),
{
    lemma_reserved_keys();
    if s.clients.contains_key(client_id) {
        let seen = s.touch(client_id, now);
        law_sound_touch(s, client_id, now);
        let done = if update.contains_key(key_completed()) {
            seen.complete(update[key_completed()])
        } else {
            seen
        };
        if update.contains_key(key_completed()) {
            law_sound_complete(seen, update[key_completed()]);
        }
        assert(done.sound());
        let r = s.report(client_id, update, now);
        assert forall|c: Seq<char>| #[trigger] r.clients.contains_key(c) implies r.sound_at(c) by {
            assert(done.clients.contains_key(c));
        }
    }
}

/// A sweep keeps a sound service sound.
pub proof fn law_sound_sweep(s: ServiceView, now: int, ttl: int)
    requires
        s.sound(),
    ensures
        s.sweep(now, ttl).sound(),
{
    lemma_sound_from(s, s.sweep(now, ttl));
}

/// The opening, the tick and the failure of a status stream keep a sound
/// service sound.
pub proof fn law_sound_stream(s: ServiceView, client_id: Seq<char>, token: Seq<char>, now: int)
    requires
        s.sound(),
    ensures
        s.subscribe(client_id, token).sound(),
        s.tick(client_id, token, now).sound(),
        s.drop_stream(client_id, token).sound(),
{
    lemma_sound_from(s, s.subscribe(client_id, token));
    lemma_sound_from(s, s.tick(client_id, token, now));
    lemma_sound_from(s, s.drop_stream(client_id, token));
}

/// The time of a client's last contact never goes back: dispatch,
/// completion, status request, status update, and the opening and the tick
/// of a stream (stated with `command_id` as the token) leave every
/// registered client registered, with a last contact no earlier than
/// before; and a contact at `now` leaves it no earlier than `now`.
pub proof fn law_last_contact_monotonic(
    s: ServiceView,
    c: Seq<char>,
    client_id: Seq<char>,
    command: PendingCommandView,
    command_id: Seq<char>,
    update: Bag,
    now: int,
)
    requires
        s.clients.contains_key(c),
    ensures
        s.dispatch(client_id, command, now).clients.contains_key(c),
        s.dispatch(client_id, command, now).clients[c].last_seen >= s.clients[c].last_seen,
        s.complete(command_id).clients.contains_key(c),
        s.complete(command_id).clients[c].last_seen >= s.clients[c].last_seen,
        s.touch(client_id, now).clients.contains_key(c),
        s.touch(client_id, now).clients[c].last_seen >= s.clients[c].last_seen,
        s.report(client_id, update, now).clients.contains_key(c),
        s.report(client_id, update, now).clients[c].last_seen >= s.clients[c].last_seen,
        s.subscribe(client_id, command_id).clients.contains_key(c),
        s.subscribe(client_id, command_id).clients[c].last_seen >= s.clients[c].last_seen,
        s.tick(client_id, command_id, now).clients.contains_key(c),
        s.tick(client_id, command_id, now).clients[c].last_seen >= s.clients[c].last_seen,
        s.touch(c, now).clients[c].last_seen >= now,
        s.report(c, update, now).clients[c].last_seen >= now,
        s.streams_to(c, command_id) ==> s.tick(c, command_id, now).clients[c].last_seen >= now,
{
}

/// A command never moves back in its lifecycle, and the table never
/// forgets one: after any operation on a service with a finite table, as
/// every table is, a known command is still known, at the same status or a
/// later one, with its parameters and its time of creation unchanged. That
/// holds of a dispatch that asks for the id of the known command too: it
/// is stored under another id.
pub proof fn law_lifecycle_monotonic(
    s: ServiceView,
    known: Seq<char>,
    client_id: Seq<char>,
    record: ClientView,
    command: PendingCommandView,
    command_id: Seq<char>,
    update: Bag,
    now: int,
    ttl: int,
)
    requires
        s.commands.contains_key(known),
        s.commands.dom().finite(),
    ensures
        !s.commands.contains_key(s.command_id_for(command.command_id)),
        keeps_command(s, s.register(client_id, record), known),
        keeps_command(s, s.dispatch(client_id, command, now), known),
        keeps_command(s, s.complete(command_id), known),
        keeps_command(s, s.touch(client_id, now), known),
        keeps_command(s, s.report(client_id, update, now), known),
        keeps_command(s, s.sweep(now, ttl), known),
        keeps_command(s, s.subscribe(client_id, command_id), known),
        keeps_command(s, s.tick(client_id, command_id, now), known),
        keeps_command(s, s.drop_stream(client_id, command_id), known),
{
    lemma_first_free(s.commands.dom(), command.command_id);
}

/// `after` still knows the command `id` of `before`, no earlier in its
/// lifecycle and otherwise unchanged.
pub open spec fn keeps_command(before: ServiceView, after: ServiceView, id: Seq<char>) -> bool {
    &&& after.commands.contains_key(id)
    &&& after.commands[id].status.rank() >= before.commands[id].status.rank()
    &&& after.commands[id].parameters == before.commands[id].parameters
    &&& after.commands[id].created_at == before.commands[id].created_at
}

/// What a dispatch writes, a status request reads back: after a dispatch
/// to an idle client of a sound service, the client's current command is
/// the dispatched one, with the id under which it is stored, its name, its
/// parameters and the time of the dispatch. It is left out that the
/// client's metrics already report that very id as completed.
pub proof fn law_dispatch_shows_command(
    s: ServiceView,
    client_id: Seq<char>,
    command: PendingCommandView,
    now: int,
)
    requires
        s.sound(),
        s.admits(client_id) is Ok,
        i64::MIN <= now <= i64::MAX,
        !(s.clients[client_id].metrics().contains_key(key_completed())
            && s.clients[client_id].metrics()[key_completed()] == s.command_id_for(
            command.command_id,
        )),
    ensures
        s.dispatch(client_id, command, now).clients[client_id].current_command() == Some(
            CurrentCommandView {
                command_id: s.command_id_for(command.command_id),
                command: command.command,
                parameters: command.parameters,
                started_at: now,
            },
        ),
{
    lemma_reserved_keys();
    lemma_parse_written(now);
    let before = s.clients[client_id];
    let stored = PendingCommandView {
        command_id: s.command_id_for(command.command_id),
        ..command
    };
    lemma_dispatched_id(before, stored, now);
    let m = before.dispatched(
        stored.command_id,
        command.command,
        now,
        command.parameters,
    ).metrics();
    assert(before.clean());
    assert(parameters_in(m) =~= command.parameters) by {
        assert forall|p: Seq<char>| #[trigger] parameters_in(m).contains_key(p)
            <==> command.parameters.contains_key(p) by {
            lemma_parameter_key(p);
            if before.metrics().contains_key(parameter_key(p)) {
                assert(command_key(parameter_key(p)));
            }
        }
        assert forall|p: Seq<char>| #[trigger] parameters_in(m).contains_key(p) implies parameters_in(
            m,
        )[p] == command.parameters[p] by {
            lemma_parameter_key(p);
        }
    }
    assert(m.contains_key(key_completed()) <==> before.metrics().contains_key(key_completed()));
    if m.contains_key(key_completed()) {
        assert(m[key_completed()] == before.metrics()[key_completed()]);
    }
}

/// The listing and a status answer agree on every bag but one kind. The
/// listing shows a command exactly where the three command keys are there;
/// a status answer shows the same command, with its parameters, unless the
/// bag reports that very command as completed, and then shows none.
pub proof fn law_listing_and_status(m: Bag)
    ensures
        listed_command_of(m) is Some <==> holds_command(m),
        current_command_of(m) is Some ==> listed_command_of(m) is Some,
        current_command_of(m) matches Some(c) ==> listed_command_of(m) == Some(
            ListedCommandView {
                command_id: c.command_id,
                command: c.command,
                started_at: c.started_at,
            },
        ),
        listed_command_of(m) is Some && current_command_of(m) is None ==> m.contains_key(
            key_completed(),
        ) && m[key_completed()] == m[key_command_id()],
{
}

/// A client has at most one status stream. A stream that is opened takes
/// the place of the one before it: the earlier stream is no subscriber any
/// more, its ticks stop, and its failure to deliver disconnects nobody.
pub proof fn law_one_subscriber(
    s: ServiceView,
    client_id: Seq<char>,
    first: Seq<char>,
    second: Seq<char>,
    now: int,
)
    requires
        s.clients.contains_key(client_id),
        first != second,
    ensures
        s.subscribe(client_id, first).streams_to(client_id, first),
        s.subscribe(client_id, first).subscribe(client_id, second).streams_to(client_id, second),
        !s.subscribe(client_id, first).subscribe(client_id, second).streams_to(client_id, first),
        s.subscribe(client_id, first).subscribe(client_id, second).tick(client_id, first, now)
            == s.subscribe(client_id, first).subscribe(client_id, second),
        s.subscribe(client_id, first).subscribe(client_id, second).drop_stream(client_id, first)
            == s.subscribe(client_id, first).subscribe(client_id, second),
        forall|a: Seq<char>, b: Seq<char>|
            s.streams_to(client_id, a) && s.streams_to(client_id, b) ==> a == b,
{
}

/// A stream that cannot deliver disconnects its client: the record is
/// gone, every other record and the command table are as they were, and the
/// stream stops at its next tick.
pub proof fn law_stream_failure_disconnects(
    s: ServiceView,
    client_id: Seq<char>,
    token: Seq<char>,
    now: int,
)
    requires
        s.streams_to(client_id, token),
    ensures
        !s.drop_stream(client_id, token).clients.contains_key(client_id),
        s.drop_stream(client_id, token).clients == s.clients.remove(client_id),
        s.drop_stream(client_id, token).commands == s.commands,
        !s.drop_stream(client_id, token).streams_to(client_id, token),
        s.drop_stream(client_id, token).tick(client_id, token, now) == s.drop_stream(
            client_id,
            token,
        ),
        s.drop_stream(client_id, token).drop_stream(client_id, token) == s.drop_stream(
            client_id,
            token,
        ),
{
}

} // verus!
