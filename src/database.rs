//! The key-value store: values, optional expiry deadlines, lazy eviction.

use vstd::prelude::*;
use tokio::time::Instant;
use crate::clock::nanos_since;
use crate::text::{ends_with_text, same_text, starts_with_text};

verus! {

/// Nanoseconds in one second.
pub const NANOS_PER_SEC: u128 = 1_000_000_000;

/// What a key maps to: its value, and the deadline (in nanoseconds since
/// the store was created) after which it counts as expired, if any.
pub type Slot = (Seq<char>, Option<u128>);

/// The deadline of a key set at `now` with a time-to-live of `ttl` seconds;
/// a deadline beyond the clock's range stands at its end.
pub open spec fn deadline(now: u128, ttl: u64) -> u128 {
    if now + ttl * NANOS_PER_SEC <= u128::MAX {
        (now + ttl * NANOS_PER_SEC) as u128
    } else {
        u128::MAX
    }
}

/// The store after `set(key, value, ttl)` at time `now`. A time-to-live of
/// zero, or none, keeps whatever deadline the key already had.
pub open spec fn after_set(
    m: Map<Seq<char>, Slot>,
    key: Seq<char>,
    value: Seq<char>,
    ttl: Option<u64>,
    now: u128,
) -> Map<Seq<char>, Slot> {
    let kept = if m.contains_key(key) { m[key].1 } else { None };
    let exp = match ttl {
        Some(s) => if s > 0 { Some(deadline(now, s)) } else { kept },
        None => kept,
    };
    m.insert(key, (value, exp))
}

/// Whether `key` has a deadline that `now` has passed.
pub open spec fn expired_at(m: Map<Seq<char>, Slot>, key: Seq<char>, now: u128) -> bool {
    m.contains_key(key) && m[key].1 is Some && now > m[key].1->0
}

/// What a lookup of `key` at time `now` does: an expired key is evicted and
/// reported absent; otherwise the store is unchanged and the stored value,
/// if any, is returned.
pub open spec fn get_step(
    before: Map<Seq<char>, Slot>,
    key: Seq<char>,
    now: u128,
    r: Option<Seq<char>>,
    after: Map<Seq<char>, Slot>,
) -> bool {
    if expired_at(before, key, now) {
        r is None && after == before.remove(key)
    } else {
        after == before && r == (if before.contains_key(key) {
            Some(before[key].0)
        } else {
            None
        })
    }
}

/// The characters of an optional string.
pub open spec fn text_of(r: Option<String>) -> Option<Seq<char>> {
    match r {
        Some(v) => Some(v@),
        None => None,
    }
}

/// Which keys a listing selects.
#[derive(PartialEq, Eq, Structural, Clone, Copy)]
pub enum Pick {
    Every,
    Prefix,
    Suffix,
}

/// Whether a listing of kind `pick` with `pattern` takes `key`.
pub open spec fn picks(pick: Pick, pattern: Seq<char>, key: Seq<char>) -> bool {
    match pick {
        Pick::Every => true,
        Pick::Prefix => pattern.is_prefix_of(key),
        Pick::Suffix => pattern.is_suffix_of(key),
    }
}

/// Whether `m` has a key that the listing takes.
pub open spec fn any_picked(m: Map<Seq<char>, Slot>, pick: Pick, pattern: Seq<char>) -> bool {
    exists|k: Seq<char>| m.contains_key(k) && picks(pick, pattern, k)
}

/// Whether `v` lists, once each, exactly the pairs (key, value) of `m` whose
/// key the listing takes.
pub open spec fn lists(
    v: Seq<(String, String)>,
    m: Map<Seq<char>, Slot>,
    pick: Pick,
    pattern: Seq<char>,
) -> bool {
    &&& forall|i: int|
        0 <= i < v.len() ==> m.contains_key(#[trigger] v[i].0@) && picks(pick, pattern, v[i].0@)
            && v[i].1@ == m[v[i].0@].0
    &&& forall|i: int, j: int| 0 <= i < j < v.len() ==> v[i].0@ != v[j].0@
    &&& forall|k: Seq<char>|
        m.contains_key(k) && picks(pick, pattern, k) ==> exists|i: int|
            0 <= i < v.len() && #[trigger] v[i].0@ == k
}

/// Whether `v` lists every key of `m` once.
pub open spec fn lists_keys(v: Seq<String>, m: Map<Seq<char>, Slot>) -> bool {
    &&& forall|i: int| 0 <= i < v.len() ==> m.contains_key(#[trigger] v[i]@)
    &&& forall|i: int, j: int| 0 <= i < j < v.len() ==> v[i]@ != v[j]@
    &&& forall|k: Seq<char>| m.contains_key(k) ==> exists|i: int| 0 <= i < v.len() && #[trigger] v[i]@ == k
}

struct Entry {
    key: String,
    value: String,
    expires: Option<u128>,
}

/// The store. Its model maps each key to its value and optional deadline;
/// a key has a deadline only while it has a value.
pub struct Database {
    entries: Vec<Entry>,
    origin: Instant,
    model: Ghost<Map<Seq<char>, Slot>>,
}

impl View for Database {
    type V = Map<Seq<char>, Slot>;

    closed spec fn view(&self) -> Map<Seq<char>, Slot> {
        self.model@
    }
}

impl Database {
    spec fn key_at(&self, i: int) -> Seq<char> {
        self.entries@[i].key@
    }

    /// The store's entries are in step with its model, one per key.
    pub closed spec fn wf(&self) -> bool {
        &&& forall|i: int, j: int|
            0 <= i < j < self.entries@.len() ==> self.key_at(i) != self.key_at(j)
        &&& forall|i: int|
            0 <= i < self.entries@.len() ==> self.model@.contains_key(#[trigger] self.key_at(i))
                && self.model@[self.key_at(i)] == (
                self.entries@[i].value@,
                self.entries@[i].expires,
            )
        &&& forall|k: Seq<char>|
            #[trigger] self.model@.contains_key(k) ==> exists|i: int|
                0 <= i < self.entries@.len() && self.key_at(i) == k
    }

    /// The values, by key.
    pub open spec fn values(&self) -> Map<Seq<char>, Seq<char>> {
        self@.map_values(|s: Slot| s.0)
    }

    /// An empty store, whose clock starts now.
    pub fn new() -> (r: Database)
        ensures
            r.wf(),
            r@ == Map::<Seq<char>, Slot>::empty(),
    {
        Database { entries: Vec::new(), origin: Instant::now(), model: Ghost(Map::empty()) }
    }

    /// Nanoseconds since the store was created.
    pub fn now(&self) -> (r: u128) {
        nanos_since(&self.origin)
    }

    fn find(&self, key: &str) -> (r: Option<usize>)
        requires
            self.wf(),
        ensures
            match r {
                Some(i) => i < self.entries@.len() && self.key_at(i as int) == key@,
                None => !self@.contains_key(key@),
            },
    {
        let mut i: usize = 0;
        while i < self.entries.len()
            invariant
                self.wf(),
                i <= self.entries@.len(),
                forall|j: int| 0 <= j < i ==> self.key_at(j) != key@,
            decreases self.entries@.len() - i,
        {
            if same_text(self.entries[i].key.as_str(), key) {
                return Some(i);
            }
            i += 1;
        }
        None
    }

    /// Stores `value` under `key` at time `now`; a non-zero `ttl` gives the
    /// key a deadline `ttl` seconds later.
    pub fn set_at(&mut self, key: String, value: String, ttl: Option<u64>, now: u128)
        requires
            old(self).wf(),
        ensures
            final(self).wf(),
            final(self)@ == after_set(old(self)@, key@, value@, ttl, now),
    {
        let fresh: Option<u128> = match ttl {
            Some(s) => if s > 0 {
                let span: u128 = s as u128 * NANOS_PER_SEC;
                if now <= u128::MAX - span {
                    Some(now + span)
                } else {
                    Some(u128::MAX)
                }
            } else {
                None
            },
            None => None,
        };
        let ghost k = key@;
        let ghost newm = after_set(self@, key@, value@, ttl, now);
        match self.find(key.as_str()) {
            Some(i) => {
                let kept = self.entries[i].expires;
                let expires = if fresh.is_some() { fresh } else { kept };
                self.entries.set(i, Entry { key, value, expires });
                self.model = Ghost(newm);
                assert(fresh.is_some() ==> fresh == newm[k].1);
                assert(newm[k] == (self.entries@[i as int].value@, self.entries@[i as int].expires));
                assert forall|a: int, b: int| 0 <= a < b < self.entries@.len() implies self.key_at(a) != self.key_at(b) by {
                    assert(old(self).key_at(a) != old(self).key_at(b));
                }
                assert forall|a: int| 0 <= a < self.entries@.len() implies self.model@.contains_key(#[trigger] self.key_at(a))
                    && self.model@[self.key_at(a)] == (self.entries@[a].value@, self.entries@[a].expires) by {
                    if a != i {
                        assert(old(self).key_at(a) != k);
                    }
                }
                assert forall|kk: Seq<char>| #[trigger] self.model@.contains_key(kk) implies exists|j: int|
                    0 <= j < self.entries@.len() && self.key_at(j) == kk by {
                    if kk == k {
                        assert(self.key_at(i as int) == kk);
                    } else {
                        assert(old(self)@.contains_key(kk));
                        let j = choose|j: int| 0 <= j < old(self).entries@.len() && old(self).key_at(j) == kk;
                        assert(self.key_at(j) == kk);
                    }
                }
            },
            None => {
                self.entries.push(Entry { key, value, expires: fresh });
                self.model = Ghost(newm);
                let ghost n = self.entries@.len() - 1;
                assert(self.key_at(n) == k);
                assert forall|a: int, b: int| 0 <= a < b < self.entries@.len() implies self.key_at(a) != self.key_at(b) by {
                    if b < n {
                        assert(old(self).key_at(a) != old(self).key_at(b));
                    } else {
                        assert(old(self)@.contains_key(old(self).key_at(a)));
                    }
                }
                assert forall|a: int| 0 <= a < self.entries@.len() implies self.model@.contains_key(#[trigger] self.key_at(a))
                    && self.model@[self.key_at(a)] == (self.entries@[a].value@, self.entries@[a].expires) by {
                    if a != n {
                        assert(old(self)@.contains_key(old(self).key_at(a)));
                    }
                }
                assert forall|kk: Seq<char>| #[trigger] self.model@.contains_key(kk) implies exists|j: int|
                    0 <= j < self.entries@.len() && self.key_at(j) == kk by {
                    if kk == k {
                        assert(self.key_at(n) == kk);
                    } else {
                        assert(old(self)@.contains_key(kk));
                        let j = choose|j: int| 0 <= j < old(self).entries@.len() && old(self).key_at(j) == kk;
                        assert(self.key_at(j) == kk);
                    }
                }
            },
        }
    }

    /// Stores `value` under `key`, reading the clock for the deadline.
    pub fn set(&mut self, key: String, value: String, ttl: Option<u64>)
        requires
            old(self).wf(),
        ensures
            final(self).wf(),
            exists|now: u128| final(self)@ == after_set(old(self)@, key@, value@, ttl, now),
    {
        let now = self.now();
        self.set_at(key, value, ttl, now);
    }

    /// Removes `key` and its deadline; says whether the key had a value.
    pub fn delete(&mut self, key: &str) -> (r: bool)
        requires
            old(self).wf(),
        ensures
            final(self).wf(),
            r == old(self)@.contains_key(key@),
            final(self)@ == old(self)@.remove(key@),
    {
        match self.find(key) {
            Some(i) => {
                let ghost k = key@;
                self.entries.remove(i);
                self.model = Ghost(self.model@.remove(k));
                assert forall|a: int, b: int| 0 <= a < b < self.entries@.len() implies self.key_at(a) != self.key_at(b) by {
                    let oa = if a < i { a } else { a + 1 };
                    let ob = if b < i { b } else { b + 1 };
                    assert(old(self).key_at(oa) != old(self).key_at(ob));
                }
                assert forall|a: int| 0 <= a < self.entries@.len() implies self.model@.contains_key(#[trigger] self.key_at(a))
                    && self.model@[self.key_at(a)] == (self.entries@[a].value@, self.entries@[a].expires) by {
                    let oa = if a < i { a } else { a + 1 };
                    assert(old(self).key_at(oa) == self.key_at(a));
                    assert(old(self)@.contains_key(old(self).key_at(oa)));
                    if oa < i {
                        assert(old(self).key_at(oa) != old(self).key_at(i as int));
                    } else {
                        assert(old(self).key_at(i as int) != old(self).key_at(oa));
                    }
                }
                assert forall|kk: Seq<char>| #[trigger] self.model@.contains_key(kk) implies exists|j: int|
                    0 <= j < self.entries@.len() && self.key_at(j) == kk by {
                    assert(old(self)@.contains_key(kk));
                    let j = choose|j: int| 0 <= j < old(self).entries@.len() && old(self).key_at(j) == kk;
                    if j < i {
                        assert(self.key_at(j) == kk);
                    } else {
                        assert(j != i);
                        assert(self.key_at(j - 1) == kk);
                    }
                }
                true
            },
            None => {
                assert(self@ =~= self@.remove(key@));
                false
            },
        }
    }

    /// Whether `key` has a deadline that `now` has passed.
    pub fn is_expired_at(&self, key: &str, now: u128) -> (r: bool)
        requires
            self.wf(),
        ensures
            r == expired_at(self@, key@, now),
    {
        match self.find(key) {
            Some(i) => {
                assert(self@.contains_key(self.key_at(i as int)));
                match self.entries[i].expires {
                    Some(t) => now > t,
                    None => false,
                }
            },
            None => false,
        }
    }

    /// Whether `key` has a deadline that the clock has passed.
    pub fn is_expired(&self, key: &str) -> (r: bool)
        requires
            self.wf(),
        ensures
            exists|now: u128| r == expired_at(self@, key@, now),
    {
        let now = self.now();
        self.is_expired_at(key, now)
    }

    /// Looks `key` up at time `now`, evicting it first if it has expired.
    pub fn get_at(&mut self, key: &str, now: u128) -> (r: Option<String>)
        requires
            old(self).wf(),
        ensures
            final(self).wf(),
            get_step(old(self)@, key@, now, text_of(r), final(self)@),
    {
        if self.is_expired_at(key, now) {
            self.delete(key);
            return None;
        }
        match self.find(key) {
            Some(i) => {
                assert(self@.contains_key(self.key_at(i as int)));
                Some(self.entries[i].value.clone())
            },
            None => None,
        }
    }

    /// Looks `key` up, reading the clock to decide whether it has expired.
    pub fn get(&mut self, key: &str) -> (r: Option<String>)
        requires
            old(self).wf(),
        ensures
            final(self).wf(),
            exists|now: u128| get_step(old(self)@, key@, now, text_of(r), final(self)@),
    {
        let now = self.now();
        self.get_at(key, now)
    }

    /// The pairs whose key the listing takes, in the store's order.
    fn select(&self, pick: Pick, pattern: &str) -> (r: Vec<(String, String)>)
        requires
            self.wf(),
        ensures
            lists(r@, self@, pick, pattern@),
    {
        let mut out: Vec<(String, String)> = Vec::new();
        let ghost mut from: Seq<int> = Seq::empty();
        let mut i: usize = 0;
        while i < self.entries.len()
            invariant
                self.wf(),
                i <= self.entries@.len(),
                from.len() == out@.len(),
                forall|j: int| 0 <= j < from.len() ==> 0 <= #[trigger] from[j] < i
                    && out@[j].0@ == self.key_at(from[j])
                    && out@[j].1@ == self.entries@[from[j]].value@
                    && picks(pick, pattern@, self.key_at(from[j])),
                forall|a: int, b: int| 0 <= a < b < from.len() ==> from[a] < from[b],
                forall|t: int| 0 <= t < i && picks(pick, pattern@, #[trigger] self.key_at(t))
                    ==> exists|j: int| 0 <= j < from.len() && from[j] == t,
            decreases self.entries@.len() - i,
        {
            let key = self.entries[i].key.as_str();
            let take = match pick {
                Pick::Every => true,
                Pick::Prefix => starts_with_text(key, pattern),
                Pick::Suffix => ends_with_text(key, pattern),
            };
            if take {
                out.push((self.entries[i].key.clone(), self.entries[i].value.clone()));
                proof {
                    let old_from = from;
                    from = from.push(i as int);
                    assert forall|t: int| 0 <= t < i + 1 && picks(pick, pattern@, #[trigger] self.key_at(t))
                        implies exists|j: int| 0 <= j < from.len() && from[j] == t by {
                        if t == i {
                            assert(from[from.len() - 1] == t);
                        } else {
                            let j = choose|j: int| 0 <= j < old_from.len() && old_from[j] == t;
                            assert(from[j] == t);
                        }
                    }
                }
            }
            i += 1;
        }
        proof {
            let v = out@;
            assert forall|a: int| 0 <= a < v.len() implies self@.contains_key(#[trigger] v[a].0@)
                && picks(pick, pattern@, v[a].0@) && v[a].1@ == self@[v[a].0@].0 by {
                assert(self@.contains_key(self.key_at(from[a])));
            }
            assert forall|a: int, b: int| 0 <= a < b < v.len() implies v[a].0@ != v[b].0@ by {
                assert(from[a] < from[b]);
                assert(self.key_at(from[a]) != self.key_at(from[b]));
            }
            assert forall|k: Seq<char>| self@.contains_key(k) && picks(pick, pattern@, k)
                implies exists|a: int| 0 <= a < v.len() && #[trigger] v[a].0@ == k by {
                let t = choose|t: int| 0 <= t < self.entries@.len() && self.key_at(t) == k;
                let j = choose|j: int| 0 <= j < from.len() && from[j] == t;
                assert(v[j].0@ == k);
            }
        }
        out
    }

    /// Every pair of the store (expired ones included), or `None` when the
    /// store is empty.
    pub fn get_all(&self) -> (r: Option<Vec<(String, String)>>)
        requires
            self.wf(),
        ensures
            r is None <==> self@.dom().is_empty(),
            r matches Some(v) ==> lists(v@, self@, Pick::Every, Seq::empty()),
    {
        let v = self.select(Pick::Every, "");
        self.some_if_any(v, Pick::Every, "")
    }

    /// The pairs whose key begins with `pattern`, or `None` when there is none.
    pub fn get_sw(&self, pattern: &str) -> (r: Option<Vec<(String, String)>>)
        requires
            self.wf(),
        ensures
            r is None <==> !any_picked(self@, Pick::Prefix, pattern@),
            r matches Some(v) ==> lists(v@, self@, Pick::Prefix, pattern@),
    {
        let v = self.select(Pick::Prefix, pattern);
        self.some_if_any(v, Pick::Prefix, pattern)
    }

    /// The pairs whose key ends with `pattern`, or `None` when there is none.
    pub fn get_ew(&self, pattern: &str) -> (r: Option<Vec<(String, String)>>)
        requires
            self.wf(),
        ensures
            r is None <==> !any_picked(self@, Pick::Suffix, pattern@),
            r matches Some(v) ==> lists(v@, self@, Pick::Suffix, pattern@),
    {
        let v = self.select(Pick::Suffix, pattern);
        self.some_if_any(v, Pick::Suffix, pattern)
    }

    fn some_if_any(&self, v: Vec<(String, String)>, pick: Pick, pattern: &str) -> (r: Option<
        Vec<(String, String)>,
    >)
        requires
            lists(v@, self@, pick, pattern@),
        ensures
            r is None <==> !any_picked(self@, pick, pattern@),
            pick == Pick::Every ==> (r is None <==> self@.dom().is_empty()),
            r matches Some(w) ==> w == v,
    {
        if v.len() == 0 {
            assert(!any_picked(self@, pick, pattern@));
            if pick == Pick::Every {
                assert forall|k: Seq<char>| !self@.dom().contains(k) by {
                    assert(picks(Pick::Every, pattern@, k));
                }
                assert(self@.dom() =~= Set::empty());
            }
            None
        } else {
            assert(self@.contains_key(v@[0].0@));
            assert(self@.dom().contains(v@[0].0@));
            Some(v)
        }
    }

    /// Every key of the store, once each, or `None` when the store is empty.
    pub fn get_keys(&self) -> (r: Option<Vec<String>>)
        requires
            self.wf(),
        ensures
            r is None <==> self@.dom().is_empty(),
            r matches Some(v) ==> lists_keys(v@, self@),
    {
        let all = self.select(Pick::Every, "");
        let all = self.some_if_any(all, Pick::Every, "");
        match all {
            None => None,
            Some(pairs) => {
                let mut keys: Vec<String> = Vec::new();
                let mut i: usize = 0;
                while i < pairs.len()
                    invariant
                        i <= pairs@.len(),
                        keys@.len() == i,
                        forall|j: int| 0 <= j < i ==> #[trigger] keys@[j]@ == pairs@[j].0@,
                    decreases pairs@.len() - i,
                {
                    keys.push(pairs[i].0.clone());
                    i += 1;
                }
                proof {
                    assert forall|k: Seq<char>| self@.contains_key(k) implies exists|a: int|
                        0 <= a < keys@.len() && #[trigger] keys@[a]@ == k by {
                        assert(picks(Pick::Every, Seq::empty(), k));
                        let a = choose|a: int| 0 <= a < pairs@.len() && #[trigger] pairs@[a].0@ == k;
                        assert(keys@[a]@ == k);
                    }
                    assert forall|a: int| 0 <= a < keys@.len() implies self@.contains_key(#[trigger] keys@[a]@) by {
                        assert(keys@[a]@ == pairs@[a].0@);
                    }
                    assert forall|a: int, b: int| 0 <= a < b < keys@.len() implies keys@[a]@ != keys@[b]@ by {
                        assert(keys@[a]@ == pairs@[a].0@);
                        assert(keys@[b]@ == pairs@[b].0@);
                    }
                }
                Some(keys)
            },
        }
    }
}

} // verus!
