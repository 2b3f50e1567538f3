//! The metrics bag of a client, and the reserved keys in it that record the
//! command the client is working on.
//!
//! A bag is a free-form map from text to text. The dispatcher writes the
//! command keys into it, a completion strips them, and the view of the
//! current command is read back from them: the bag is the one place where a
//! command's presence is recorded.

use vstd::prelude::*;
use crate::command::{CurrentCommand, CurrentCommandView, ListedCommand, ListedCommandView};
use crate::strmap::{lemma_map_of_ends, lemma_map_of_take, map_of, StringMap};
use crate::text::{
    decimal, format_i64, has_prefix, join, parse_i64, parse_i64_spec, starts_with, str_eq,
    strip_prefix,
};

verus! {

/// A metrics bag.
pub type Metrics = StringMap<String>;

/// What a metrics bag stands for.
pub type Bag = Map<Seq<char>, Seq<char>>;

/// The key that holds the id of the current command.
pub open spec fn key_command_id() -> Seq<char> {
    "current_command_id"@
}

/// The key that holds the name of the current command.
pub open spec fn key_command() -> Seq<char> {
    "current_command"@
}

/// The key that holds the time at which the current command started.
pub open spec fn key_started_at() -> Seq<char> {
    "command_started_at"@
}

/// The key by which a client reports a command as completed.
pub open spec fn key_completed() -> Seq<char> {
    "completed_command_id"@
}

/// What the key of every command parameter begins with.
pub open spec fn parameter_prefix() -> Seq<char> {
    "parameter_"@
}

/// The key under which the parameter `name` is kept.
pub open spec fn parameter_key(name: Seq<char>) -> Seq<char> {
    parameter_prefix() + name
}

/// The parameter that the key `key` is for.
pub open spec fn parameter_name(key: Seq<char>) -> Seq<char> {
    key.skip(parameter_prefix().len() as int)
}

/// `k` is one of the keys that record the current command.
pub open spec fn command_key(k: Seq<char>) -> bool {
    k == key_command_id() || k == key_command() || k == key_started_at() || has_prefix(
        k,
        parameter_prefix(),
    )
}

/// `k` is a key that a status update may not set: one of the keys that
/// record the current command, and no other. (The completion key is
/// reserved as well, but a status update is what sets it.)
pub open spec fn protected_key(k: Seq<char>) -> bool {
    command_key(k)
}

/// The bag records a command: its client is busy.
pub open spec fn busy(m: Bag) -> bool {
    m.contains_key(key_command_id())
}

/// `m` without the keys that record the current command.
pub open spec fn without_command(m: Bag) -> Bag {
    Map::new(|k: Seq<char>| m.contains_key(k) && !command_key(k), |k: Seq<char>| m[k])
}

/// `m` after a status update: each key of `update` that is not protected is
/// set to the update's value, and every other key of `m` stays as it is.
pub open spec fn merged(m: Bag, update: Bag) -> Bag {
    Map::new(
        |k: Seq<char>| m.contains_key(k) || (update.contains_key(k) && !protected_key(k)),
        |k: Seq<char>|
            if update.contains_key(k) && !protected_key(k) {
                update[k]
            } else {
                m[k]
            },
    )
}

/// `k` is the key of one of the parameters `params`.
pub open spec fn keeps_parameter(params: Bag, k: Seq<char>) -> bool {
    has_prefix(k, parameter_prefix()) && params.contains_key(parameter_name(k))
}

/// `m` with each parameter of `params` under its parameter key.
pub open spec fn with_parameters(m: Bag, params: Bag) -> Bag {
    Map::new(
        |k: Seq<char>| m.contains_key(k) || keeps_parameter(params, k),
        |k: Seq<char>|
            if keeps_parameter(params, k) {
                params[parameter_name(k)]
            } else {
                m[k]
            },
    )
}

/// `m` after the dispatch of a command: its id, its name, the time written
/// in decimal, and one key for each parameter.
pub open spec fn with_command(m: Bag, id: Seq<char>, name: Seq<char>, now: int, params: Bag) -> Bag {
    with_parameters(
        m.insert(key_command_id(), id).insert(key_command(), name).insert(
            key_started_at(),
            decimal(now),
        ),
        params,
    )
}

/// The parameters that `m` records, each under its own name.
pub open spec fn parameters_in(m: Bag) -> Bag {
    Map::new(
        |p: Seq<char>| m.contains_key(parameter_key(p)),
        |p: Seq<char>| m[parameter_key(p)],
    )
}

/// The time that `text` gives as a start: the number written there, or 0
/// where no number is written.
pub open spec fn started_at_of(text: Seq<char>) -> int {
    match parse_i64_spec(text) {
        Some(v) => v as int,
        None => 0,
    }
}

/// `m` holds a command: the three command keys are there.
pub open spec fn holds_command(m: Bag) -> bool {
    &&& m.contains_key(key_command_id())
    &&& m.contains_key(key_command())
    &&& m.contains_key(key_started_at())
}

/// `m` shows a current command to its client: it holds one, and the
/// command is not the one that `m` reports as completed.
pub open spec fn shows_command(m: Bag) -> bool {
    &&& holds_command(m)
    &&& !(m.contains_key(key_completed()) && m[key_completed()] == m[key_command_id()])
}

/// The command that `m` holds, as the administrative listing shows it: the
/// id, the name and the start, whatever `m` reports as completed.
pub open spec fn listed_command_of(m: Bag) -> Option<ListedCommandView> {
    if holds_command(m) {
        Some(
            ListedCommandView {
                command_id: m[key_command_id()],
                command: m[key_command()],
                started_at: started_at_of(m[key_started_at()]),
            },
        )
    } else {
        None
    }
}

/// The current command as `m` records it, if it shows one.
pub open spec fn current_command_of(m: Bag) -> Option<CurrentCommandView> {
    if shows_command(m) {
        Some(
            CurrentCommandView {
                command_id: m[key_command_id()],
                command: m[key_command()],
                parameters: parameters_in(m),
                started_at: started_at_of(m[key_started_at()]),
            },
        )
    } else {
        None
    }
}

/// How the reserved keys relate: the three command keys differ from each
/// other and are protected, none of them is a parameter key, the completion
/// key is neither a command key nor protected, and a key is protected
/// exactly when it is a command key.
pub proof fn lemma_reserved_keys()
    ensures
        protected_key(key_command_id()),
        protected_key(key_command()),
        protected_key(key_started_at()),
        !protected_key(key_completed()),
        !command_key(key_completed()),
        key_command_id() != key_command(),
        key_command_id() != key_started_at(),
        key_command() != key_started_at(),
        !has_prefix(key_command_id(), parameter_prefix()),
        !has_prefix(key_command(), parameter_prefix()),
        !has_prefix(key_started_at(), parameter_prefix()),
        !has_prefix(key_completed(), parameter_prefix()),
        forall|k: Seq<char>| #[trigger] protected_key(k) <==> command_key(k),
{
    reveal_strlit("current_command_id");
    reveal_strlit("current_command");
    reveal_strlit("command_started_at");
    reveal_strlit("completed_command_id");
    reveal_strlit("parameter_");
    let id = key_command_id();
    let name = key_command();
    let started = key_started_at();
    let done = key_completed();
    let p = parameter_prefix();
    assert(id.subrange(0, p.len() as int)[0] != p[0]);
    assert(name.subrange(0, p.len() as int)[0] != p[0]);
    assert(started.subrange(0, p.len() as int)[0] != p[0]);
    assert(done.subrange(0, p.len() as int)[0] != p[0]);
    assert(done[1] != id[1]);
    assert(done[1] != name[1]);
    assert(done[3] != started[3]);
    assert(id[1] != started[1]);
    assert(id.len() != name.len());
    assert(name.len() != started.len());
}

/// A parameter key gives its parameter's name back, and nothing else does.
pub proof fn lemma_parameter_key(name: Seq<char>)
    ensures
        has_prefix(parameter_key(name), parameter_prefix()),
        parameter_name(parameter_key(name)) == name,
        forall|k: Seq<char>|
            has_prefix(k, parameter_prefix()) && #[trigger] parameter_name(k) == name ==> k
                == parameter_key(name),
{
    let p = parameter_prefix();
    assert(parameter_key(name).subrange(0, p.len() as int) =~= p);
    assert(parameter_key(name).skip(p.len() as int) =~= name);
    assert forall|k: Seq<char>|
        has_prefix(k, p) && #[trigger] parameter_name(k) == name implies k == parameter_key(
        name,
    ) by {
        assert(k =~= k.subrange(0, p.len() as int) + k.skip(p.len() as int));
    }
}

/// A key that begins with the parameter prefix is the parameter key of its
/// own parameter name.
pub proof fn lemma_parameter_name(k: Seq<char>)
    requires
        has_prefix(k, parameter_prefix()),
    ensures
        parameter_key(parameter_name(k)) == k,
{
    let p = parameter_prefix();
    assert(k =~= k.subrange(0, p.len() as int) + k.skip(p.len() as int));
}

/// Whether `key` is one of the keys that record the current command.
pub fn is_command_key(key: &str) -> (r: bool)
    ensures
        r == command_key(key@),
{
    str_eq(key, "current_command_id") || str_eq(key, "current_command") || str_eq(
        key,
        "command_started_at",
    ) || starts_with(key, "parameter_")
}

/// Whether `key` is a key that a status update may not set.
pub fn is_protected_key(key: &str) -> (r: bool)
    ensures
        r == protected_key(key@),
{
    is_command_key(key)
}

/// Whether the bag records a command.
pub fn is_busy(m: &Metrics) -> (r: bool)
    ensures
        r == busy(m@),
{
    m.contains_key("current_command_id")
}

/// Takes the keys that record the current command out of `m`.
pub fn strip_command(m: &mut Metrics)
    ensures
        final(m)@ == without_command(old(m)@),
{
    let mut i: usize = 0;
    let mut n: usize = m.len();
    while i < n
        invariant
            i <= n,
            n == m.keys().len(),
            m.listed(),
            forall|k: Seq<char>| #[trigger]
                m@.contains_key(k) ==> old(m)@.contains_key(k) && m@[k] == old(m)@[k],
            forall|k: Seq<char>|
                old(m)@.contains_key(k) && !command_key(k) ==> #[trigger] m@.contains_key(k),
            forall|j: int| 0 <= j < i ==> !command_key(#[trigger] m.keys()[j]),
        decreases n - i,
    {
        let ghost before = *m;
        proof {
            m.lemma_listed();
        }
        if is_command_key(m.key_at(i).as_str()) {
            m.remove_at(i);
            n = n - 1;
            assert forall|j: int| 0 <= j < i implies !command_key(#[trigger] m.keys()[j]) by {
                assert(m.keys()[j] == before.keys()[j]);
            }
        } else {
            i += 1;
        }
    }
    proof {
        m.lemma_listed();
        assert forall|k: Seq<char>| #[trigger] m@.contains_key(k) implies !command_key(k) by {
            let j = m.keys().index_of(k);
            assert(m.keys()[j] == k);
        }
        assert(m@ =~= without_command(old(m)@));
    }
}

/// Merges a status update into `m`: every key of `update` that is not
/// protected is set, and nothing else changes.
pub fn merge_update(m: &mut Metrics, update: &Metrics)
    ensures
        final(m)@ == merged(old(m)@, update@),
{
    let n = update.len();
    let mut i: usize = 0;
    proof {
        lemma_map_of_ends(update.keys(), update.values());
        assert(m@ =~= merged(old(m)@, Map::<Seq<char>, Seq<char>>::empty()));
    }
    while i < n
        invariant
            i <= n,
            n == update.keys().len(),
            update.listed(),
            m@ == merged(old(m)@, map_of(update.keys().take(i as int), update.values().take(i as int))),
        decreases n - i,
    {
        let key = update.key_at(i);
        let value = update.value_at(i);
        let ghost seen = map_of(update.keys().take(i as int), update.values().take(i as int));
        proof {
            lemma_map_of_take(update.keys(), update.values(), i as int);
        }
        if !is_protected_key(key.as_str()) {
            m.insert(key.clone(), value.clone());
        }
        assert(m@ =~= merged(old(m)@, seen.insert(key@, value@)));
        i += 1;
    }
    proof {
        lemma_map_of_ends(update.keys(), update.values());
    }
}

/// Writes the command keys into `m`: the id, the name, the time `now` in
/// decimal, and one parameter key for each entry of `params`.
pub fn record_command(m: &mut Metrics, id: &str, name: &str, now: i64, params: &Metrics)
    ensures
        final(m)@ == with_command(old(m)@, id@, name@, now as int, params@),
{
    m.insert("current_command_id".to_owned(), id.to_owned());
    m.insert("current_command".to_owned(), name.to_owned());
    m.insert("command_started_at".to_owned(), format_i64(now));
    let ghost base = m@;
    let n = params.len();
    let mut i: usize = 0;
    proof {
        lemma_map_of_ends(params.keys(), params.values());
        assert(m@ =~= with_parameters(base, Map::<Seq<char>, Seq<char>>::empty()));
    }
    while i < n
        invariant
            i <= n,
            n == params.keys().len(),
            params.listed(),
            m@ == with_parameters(
                base,
                map_of(params.keys().take(i as int), params.values().take(i as int)),
            ),
        decreases n - i,
    {
        let name_i = params.key_at(i);
        let value = params.value_at(i);
        let ghost seen = map_of(params.keys().take(i as int), params.values().take(i as int));
        proof {
            lemma_map_of_take(params.keys(), params.values(), i as int);
            lemma_parameter_key(name_i@);
        }
        m.insert(join("parameter_", name_i.as_str()), value.clone());
        assert(m@ =~= with_parameters(base, seen.insert(name_i@, value@)));
        i += 1;
    }
    proof {
        lemma_map_of_ends(params.keys(), params.values());
    }
}

/// The parameters that `m` records, each under its own name.
pub fn parameters(m: &Metrics) -> (r: Metrics)
    ensures
        r@ == parameters_in(m@),
{
    let mut r: Metrics = StringMap::new();
    let n = m.len();
    let mut i: usize = 0;
    proof {
        lemma_map_of_ends(m.keys(), m.values());
        assert(r@ =~= parameters_in(Map::<Seq<char>, Seq<char>>::empty()));
    }
    while i < n
        invariant
            i <= n,
            n == m.keys().len(),
            m.listed(),
            r@ == parameters_in(map_of(m.keys().take(i as int), m.values().take(i as int))),
        decreases n - i,
    {
        let key = m.key_at(i);
        let value = m.value_at(i);
        let ghost seen = map_of(m.keys().take(i as int), m.values().take(i as int));
        proof {
            lemma_map_of_take(m.keys(), m.values(), i as int);
        }
        match strip_prefix(key.as_str(), "parameter_") {
            Some(name) => {
                proof {
                    lemma_parameter_name(key@);
                    lemma_parameter_key(name@);
                }
                r.insert(name, value.clone());
            },
            None => {
                assert forall|p: Seq<char>| parameter_key(p) != key@ by {
                    lemma_parameter_key(p);
                }
            },
        }
        assert(r@ =~= parameters_in(seen.insert(key@, value@))) by {
            assert forall|p: Seq<char>| #[trigger]
                seen.insert(key@, value@).contains_key(parameter_key(p)) implies (
            seen.contains_key(parameter_key(p)) || (has_prefix(key@, parameter_prefix()) && p
                == parameter_name(key@))) by {
                lemma_parameter_key(p);
            }
        }
        i += 1;
    }
    proof {
        lemma_map_of_ends(m.keys(), m.values());
    }
    r
}

/// The command that `m` holds, as the administrative listing shows it:
/// there is one exactly where the three command keys are present.
pub fn listed_command(m: &Metrics) -> (r: Option<ListedCommand>)
    ensures
        r is Some <==> holds_command(m@),
        r matches Some(c) ==> Some(c@) == listed_command_of(m@),
{
    let id = match m.get("current_command_id") {
        Some(id) => id,
        None => {
            return None;
        },
    };
    let name = match m.get("current_command") {
        Some(name) => name,
        None => {
            return None;
        },
    };
    let started = match m.get("command_started_at") {
        Some(started) => started,
        None => {
            return None;
        },
    };
    let started_at = match parse_i64(started.as_str()) {
        Some(t) => t,
        None => 0,
    };
    Some(ListedCommand { command_id: id.clone(), command: name.clone(), started_at })
}

/// The current command as `m` records it: there is one where the three
/// command keys are present and the command is not reported as completed.
pub fn current_command(m: &Metrics) -> (r: Option<CurrentCommand>)
    ensures
        r is Some <==> shows_command(m@),
        r matches Some(c) ==> Some(c@) == current_command_of(m@),
{
    let id = match m.get("current_command_id") {
        Some(id) => id,
        None => {
            return None;
        },
    };
    let name = match m.get("current_command") {
        Some(name) => name,
        None => {
            return None;
        },
    };
    let started = match m.get("command_started_at") {
        Some(started) => started,
        None => {
            return None;
        },
    };
    let completed = match m.get("completed_command_id") {
        Some(done) => str_eq(done.as_str(), id.as_str()),
        None => false,
    };
    if completed {
        return None;
    }
    let started_at = match parse_i64(started.as_str()) {
        Some(t) => t,
        None => 0,
    };
    let c = CurrentCommand {
        command_id: id.clone(),
        command: name.clone(),
        parameters: parameters(m),
        started_at,
    };
    assert(c@ =~= current_command_of(m@).unwrap());
    Some(c)
}

} // verus!
