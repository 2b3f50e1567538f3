//! What the service takes from its surroundings: the time of day and fresh
//! identifiers. Nothing here is proved; each contract states only what holds
//! of every value that can come back.

use vstd::prelude::*;

verus! {

/// The time now, in whole seconds since the Unix epoch, as
/// `chrono::Utc::now().timestamp()` gives it. The clock decides the value.
/// `Utc::now` measures the time that has passed since the epoch and does not
/// return where the system clock stands before it, so the seconds are never
/// negative; nothing else is claimed.
#[verifier::external_body]
pub(crate) fn unix_now() -> (t: i64)
    ensures
        0 <= t,
{
    chrono::Utc::now().timestamp()
}

/// A new identifier: a random version 4 UUID from `uuid::Uuid::new_v4`,
/// written by its `Display`, which is the hyphenated lower-case form of 36
/// characters. Which identifier comes back is left to chance: two calls may
/// even return the same one. The call does not return where the system has
/// no randomness to give.
#[verifier::external_body]
pub(crate) fn fresh_id() -> (id: String)
    ensures
        id@.len() == 36,
{
    uuid::Uuid::new_v4().to_string()
}

} // verus!
