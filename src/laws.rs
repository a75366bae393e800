//! What holds across calls of the store.

use vstd::prelude::*;
use crate::database::{NANOS_PER_SEC, Slot, after_set, deadline, expired_at, get_step};

verus! {

/// A lookup of a key that was never set finds nothing and changes nothing.
pub proof fn lemma_get_unset(
    m: Map<Seq<char>, Slot>,
    k: Seq<char>,
    now: u128,
    r: Option<Seq<char>>,
    after: Map<Seq<char>, Slot>,
)
    requires
        !m.contains_key(k),
        get_step(m, k, now, r, after),
    ensures
        r is None,
        after == m,
{
}

/// Setting a key without a time-to-live, then looking it up, finds the value
/// set, at any later time, provided the key had no deadline before (a plain
/// `set` keeps an earlier deadline).
pub proof fn lemma_set_then_get(
    m: Map<Seq<char>, Slot>,
    k: Seq<char>,
    v: Seq<char>,
    t1: u128,
    t2: u128,
    r: Option<Seq<char>>,
    after: Map<Seq<char>, Slot>,
)
    requires
        !m.contains_key(k) || m[k].1 is None,
        get_step(after_set(m, k, v, None, t1), k, t2, r, after),
    ensures
        r == Some(v),
{
}

/// Setting a key with a time-to-live of one second, then looking it up before
/// the second has passed, finds the value set.
pub proof fn lemma_ttl_alive(
    m: Map<Seq<char>, Slot>,
    k: Seq<char>,
    v: Seq<char>,
    t1: u128,
    t2: u128,
    r: Option<Seq<char>>,
    after: Map<Seq<char>, Slot>,
)
    requires
        t2 <= t1 + NANOS_PER_SEC,
        get_step(after_set(m, k, v, Some(1), t1), k, t2, r, after),
    ensures
        r == Some(v),
{
}

/// Setting a key with a time-to-live of one second, then looking it up once
/// the second has passed, finds nothing; the key is then gone, and no longer
/// counts as expired at any time.
pub proof fn lemma_ttl_expired(
    m: Map<Seq<char>, Slot>,
    k: Seq<char>,
    v: Seq<char>,
    t1: u128,
    t2: u128,
    r: Option<Seq<char>>,
    after: Map<Seq<char>, Slot>,
    t3: u128,
)
    requires
        t2 > deadline(t1, 1),
        get_step(after_set(m, k, v, Some(1), t1), k, t2, r, after),
    ensures
        r is None,
        !after.contains_key(k),
        !expired_at(after, k, t3),
{
}

/// Once a key is deleted, a lookup of it finds nothing.
pub proof fn lemma_delete_then_get(
    m: Map<Seq<char>, Slot>,
    k: Seq<char>,
    now: u128,
    r: Option<Seq<char>>,
    after: Map<Seq<char>, Slot>,
)
    requires
        get_step(m.remove(k), k, now, r, after),
    ensures
        r is None,
{
}

} // verus!
