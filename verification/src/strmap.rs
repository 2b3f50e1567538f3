//! A map keyed by text, kept as a list of entries in insertion order.
//!
//! The map never holds a key twice. Its view is a `Map` from the characters
//! of a key to the view of the value; `keys()` and `values()` give the same
//! entries in the order in which they are listed.

use vstd::prelude::*;
use crate::text::str_eq;

verus! {

/// A value that can be copied with its view unchanged.
pub trait Duplicate: View + Sized {
    /// A copy of `self` with the same view.
    fn duplicate(&self) -> (r: Self)
        ensures
            r@ == self@,
    ;
}

impl Duplicate for String {
    fn duplicate(&self) -> (r: Self) {
        self.clone()
    }
}

#[derive(Debug)]
struct Entry<V> {
    key: String,
    value: V,
}

/// A map from text to `V`.
#[derive(Debug)]
pub struct StringMap<V> {
    entries: Vec<Entry<V>>,
}

spec fn keys_of<V>(entries: Seq<Entry<V>>) -> Seq<Seq<char>> {
    Seq::new(entries.len(), |i: int| entries[i].key@)
}

spec fn values_of<V: View>(entries: Seq<Entry<V>>) -> Seq<V::V> {
    Seq::new(entries.len(), |i: int| entries[i].value@)
}

/// The map that a list of keys and a list of values stand for.
pub open spec fn map_of<T>(keys: Seq<Seq<char>>, values: Seq<T>) -> Map<Seq<char>, T> {
    Map::new(|k: Seq<char>| keys.contains(k), |k: Seq<char>| values[keys.index_of(k)])
}

/// With no key listed twice, the map holds each listed entry and nothing else.
pub proof fn lemma_map_of<T>(keys: Seq<Seq<char>>, values: Seq<T>)
    requires
        keys.no_duplicates(),
        keys.len() == values.len(),
    ensures
        forall|k: Seq<char>| #[trigger] map_of(keys, values).contains_key(k) <==> keys.contains(k),
        forall|i: int|
            0 <= i < keys.len() ==> map_of(keys, values).contains_key(#[trigger] keys[i])
                && map_of(keys, values)[keys[i]] == values[i],
{
    assert forall|i: int| 0 <= i < keys.len() implies map_of(keys, values).contains_key(
        #[trigger] keys[i],
    ) && map_of(keys, values)[keys[i]] == values[i] by {
        let j = keys.index_of(keys[i]);
        assert(0 <= j < keys.len() && keys[j] == keys[i]);
    }
}

/// The map of the first `i + 1` entries is the map of the first `i` with the
/// `i`-th entry added, and that entry's key is new to it.
pub proof fn lemma_map_of_take<T>(keys: Seq<Seq<char>>, values: Seq<T>, i: int)
    requires
        keys.no_duplicates(),
        keys.len() == values.len(),
        0 <= i < keys.len(),
    ensures
        map_of(keys.take(i + 1), values.take(i + 1)) == map_of(keys.take(i), values.take(i)).insert(
            keys[i],
            values[i],
        ),
        !map_of(keys.take(i), values.take(i)).contains_key(keys[i]),
{
    let ka = keys.take(i);
    let va = values.take(i);
    let kb = keys.take(i + 1);
    let vb = values.take(i + 1);
    lemma_map_of(ka, va);
    lemma_map_of(kb, vb);
    let a = map_of(ka, va);
    let b = map_of(kb, vb);
    assert(kb[i] == keys[i]);
    assert forall|q: Seq<char>| #[trigger]
        b.contains_key(q) <==> a.insert(keys[i], values[i]).contains_key(q) by {
        if ka.contains(q) {
            let j = ka.index_of(q);
            assert(kb[j] == q);
        }
        if kb.contains(q) {
            let j = kb.index_of(q);
            if j < i {
                assert(ka[j] == q);
            }
        }
    }
    assert forall|q: Seq<char>| #[trigger] b.contains_key(q) implies b[q] == a.insert(
        keys[i],
        values[i],
    )[q] by {
        let j = kb.index_of(q);
        assert(kb[j] == q);
        if j < i {
            assert(ka[j] == q);
        }
    }
    assert(b =~= a.insert(keys[i], values[i]));
}

/// The map of no entries is empty, and the map of all entries is the whole.
pub proof fn lemma_map_of_ends<T>(keys: Seq<Seq<char>>, values: Seq<T>)
    requires
        keys.len() == values.len(),
    ensures
        map_of(keys.take(0), values.take(0)) == Map::<Seq<char>, T>::empty(),
        map_of(keys.take(keys.len() as int), values.take(keys.len() as int)) == map_of(
            keys,
            values,
        ),
{
    assert(keys.take(keys.len() as int) =~= keys);
    assert(values.take(keys.len() as int) =~= values);
    assert(map_of(keys.take(0), values.take(0)) =~= Map::<Seq<char>, T>::empty());
}

/// The length of the longest of `keys`, 0 where there is none.
pub open spec fn longest(keys: Seq<Seq<char>>) -> nat
    decreases keys.len(),
{
    if keys.len() == 0 {
        0
    } else if keys.last().len() > longest(keys.drop_last()) {
        keys.last().len()
    } else {
        longest(keys.drop_last())
    }
}

/// No key is longer than the longest.
pub proof fn lemma_longest(keys: Seq<Seq<char>>, i: int)
    requires
        0 <= i < keys.len(),
    ensures
        keys[i].len() <= longest(keys),
    decreases keys.len(),
{
    if i < keys.len() - 1 {
        lemma_longest(keys.drop_last(), i);
    }
}

/// `seed` with `n` hyphens after it.
pub open spec fn padded(seed: Seq<char>, n: nat) -> Seq<char> {
    seed + Seq::new(n, |i: int| '-')
}

/// `padded(seed, n)` is the first of `seed`, `seed-`, `seed--`, ... that
/// `taken` does not hold.
pub open spec fn first_free_at(taken: Set<Seq<char>>, seed: Seq<char>, n: nat) -> bool {
    &&& !taken.contains(padded(seed, n))
    &&& forall|m: nat| m < n ==> taken.contains(#[trigger] padded(seed, m))
}

/// The first of `seed`, `seed-`, `seed--`, ... that `taken` does not hold.
/// There is one for every finite `taken`.
pub open spec fn first_free(taken: Set<Seq<char>>, seed: Seq<char>) -> Seq<char> {
    padded(seed, choose|n: nat| first_free_at(taken, seed, n))
}

/// The first free padding is the only one: where `padded(seed, n)` is
/// the first that `taken` lacks, it is `first_free(taken, seed)`.
pub proof fn lemma_first_free_is(taken: Set<Seq<char>>, seed: Seq<char>, n: nat)
    requires
        first_free_at(taken, seed, n),
    ensures
        first_free(taken, seed) == padded(seed, n),
        !taken.contains(first_free(taken, seed)),
        first_free(taken, seed).len() >= seed.len(),
{
    let c = choose|c: nat| first_free_at(taken, seed, c);
    assert(first_free_at(taken, seed, c));
    if c < n {
        assert(taken.contains(padded(seed, c)));
    }
    if n < c {
        assert(taken.contains(padded(seed, n)));
    }
}

/// A seed that `taken` lacks is its own first free padding.
pub proof fn lemma_first_free_of_free(taken: Set<Seq<char>>, seed: Seq<char>)
    requires
        !taken.contains(seed),
    ensures
        first_free(taken, seed) == seed,
{
    assert(padded(seed, 0) =~= seed);
    lemma_first_free_is(taken, seed, 0);
}

/// A bound on the lengths of the texts in a finite set.
proof fn lemma_lengths_bounded(taken: Set<Seq<char>>) -> (bound: nat)
    requires
        taken.finite(),
    ensures
        forall|s: Seq<char>| taken.contains(s) ==> s.len() <= bound,
    decreases taken.len(),
{
    if taken.len() == 0 {
        0
    } else {
        let x = taken.choose();
        let rest = lemma_lengths_bounded(taken.remove(x));
        let bound = if x.len() > rest {
            x.len()
        } else {
            rest
        };
        assert forall|s: Seq<char>| taken.contains(s) implies s.len() <= bound by {
            if s != x {
                assert(taken.remove(x).contains(s));
            }
        }
        bound
    }
}

/// Below a free padding there is a first free padding.
proof fn lemma_first_free_below(taken: Set<Seq<char>>, seed: Seq<char>, n: nat)
    requires
        !taken.contains(padded(seed, n)),
    ensures
        exists|m: nat| first_free_at(taken, seed, m),
    decreases n,
{
    if forall|m: nat| m < n ==> taken.contains(#[trigger] padded(seed, m)) {
        assert(first_free_at(taken, seed, n));
    } else {
        let m = choose|m: nat| m < n && !taken.contains(#[trigger] padded(seed, m));
        lemma_first_free_below(taken, seed, m);
    }
}

/// A finite set lacks the first free padding of every seed.
pub proof fn lemma_first_free(taken: Set<Seq<char>>, seed: Seq<char>)
    requires
        taken.finite(),
    ensures
        !taken.contains(first_free(taken, seed)),
        first_free(taken, seed).len() >= seed.len(),
{
    let bound = lemma_lengths_bounded(taken);
    let far = padded(seed, bound + 1);
    assert(far.len() > bound);
    lemma_first_free_below(taken, seed, bound + 1);
    let n = choose|n: nat| first_free_at(taken, seed, n);
    lemma_first_free_is(taken, seed, n);
}

impl<V> StringMap<V> {
    /// The keys, in the order in which the entries are listed.
    pub closed spec fn keys(&self) -> Seq<Seq<char>> {
        keys_of(self.entries@)
    }

    #[verifier::type_invariant]
    spec fn keys_distinct(&self) -> bool {
        self.keys().no_duplicates()
    }
}

impl<V: View> View for StringMap<V> {
    type V = Map<Seq<char>, V::V>;

    closed spec fn view(&self) -> Map<Seq<char>, V::V> {
        map_of(self.keys(), self.values())
    }
}

impl<V: View> StringMap<V> {
    /// The values, in the order in which the entries are listed.
    pub closed spec fn values(&self) -> Seq<V::V> {
        values_of(self.entries@)
    }

    /// The listing and the view agree: no key is listed twice, and the view
    /// is the map that the listing stands for. Every map that a function of
    /// this module hands out is `listed`.
    pub open spec fn listed(&self) -> bool {
        &&& self.keys().len() == self.values().len()
        &&& self.keys().no_duplicates()
        &&& self@ == map_of(self.keys(), self.values())
    }

    /// What `listed` gives for each index and each key.
    pub proof fn lemma_listed(&self)
        requires
            self.listed(),
        ensures
            forall|k: Seq<char>| #[trigger] self@.contains_key(k) <==> self.keys().contains(k),
            forall|i: int|
                0 <= i < self.keys().len() ==> self@.contains_key(#[trigger] self.keys()[i])
                    && self@[self.keys()[i]] == self.values()[i],
    {
        lemma_map_of(self.keys(), self.values());
    }

    /// An empty map.
    pub fn new() -> (r: Self)
        ensures
            r@ == Map::<Seq<char>, V::V>::empty(),
            r.keys() == Seq::<Seq<char>>::empty(),
            r.values() == Seq::<V::V>::empty(),
            r.listed(),
    {
        let entries: Vec<Entry<V>> = Vec::new();
        assert(keys_of(entries@) =~= Seq::<Seq<char>>::empty());
        let r = StringMap { entries };
        assert(r.values() =~= Seq::<V::V>::empty());
        assert(r@ =~= Map::<Seq<char>, V::V>::empty());
        r
    }

    /// The number of entries.
    pub fn len(&self) -> (n: usize)
        ensures
            n == self.keys().len(),
            self.listed(),
    {
        proof {
            use_type_invariant(self);
        }
        self.entries.len()
    }

    /// Whether the map holds nothing.
    pub fn is_empty(&self) -> (r: bool)
        ensures
            r == (self.keys().len() == 0),
            r == (self@ == Map::<Seq<char>, V::V>::empty()),
            self.listed(),
    {
        proof {
            use_type_invariant(self);
            self.lemma_listed();
            if self.keys().len() == 0 {
                assert(self@ =~= Map::<Seq<char>, V::V>::empty());
            } else {
                assert(self@.contains_key(self.keys()[0]));
            }
        }
        self.entries.len() == 0
    }

    /// The key of the `i`-th entry.
    pub fn key_at(&self, i: usize) -> (k: &String)
        requires
            i < self.keys().len(),
        ensures
            k@ == self.keys()[i as int],
    {
        &self.entries[i].key
    }

    /// The value of the `i`-th entry.
    pub fn value_at(&self, i: usize) -> (v: &V)
        requires
            i < self.keys().len(),
        ensures
            v@ == self.values()[i as int],
            self.keys().len() == self.values().len(),
    {
        &self.entries[i].value
    }

    /// Where `key` is listed, if it is.
    pub fn position(&self, key: &str) -> (r: Option<usize>)
        ensures
            self.listed(),
            match r {
                Some(i) => i < self.keys().len() && self.keys()[i as int] == key@
                    && self@.contains_key(key@),
                None => !self@.contains_key(key@) && !self.keys().contains(key@),
            },
    {
        proof {
            use_type_invariant(self);
            self.lemma_listed();
        }
        let mut i: usize = 0;
        while i < self.entries.len()
            invariant
                i <= self.entries@.len(),
                self.keys().len() == self.entries@.len(),
                self.listed(),
                forall|k: Seq<char>| #[trigger] self@.contains_key(k) <==> self.keys().contains(k),
                forall|j: int| 0 <= j < i ==> self.keys()[j] != key@,
            decreases self.entries@.len() - i,
        {
            if str_eq(self.entries[i].key.as_str(), key) {
                assert(self.keys()[i as int] == key@);
                return Some(i);
            }
            i += 1;
        }
        None
    }

    /// Whether `key` has an entry.
    pub fn contains_key(&self, key: &str) -> (r: bool)
        ensures
            r == self@.contains_key(key@),
            self.listed(),
    {
        self.position(key).is_some()
    }

    /// The value under `key`, if there is one.
    pub fn get(&self, key: &str) -> (r: Option<&V>)
        ensures
            match r {
                Some(v) => self@.contains_key(key@) && v@ == self@[key@],
                None => !self@.contains_key(key@),
            },
    {
        match self.position(key) {
            Some(i) => {
                proof {
                    self.lemma_listed();
                }
                Some(&self.entries[i].value)
            },
            None => None,
        }
    }

    /// A key that the map does not hold: `seed` itself where it is free,
    /// else the first of `seed-`, `seed--`, ... that is.
    pub fn free_key(&self, seed: String) -> (k: String)
        ensures
            k@ == first_free(self@.dom(), seed@),
            !self@.contains_key(k@),
            k@.len() >= seed@.len(),
    {
        let mut k = seed;
        let ghost n: nat = 0;
        proof {
            use_type_invariant(self);
            assert(k@ =~= padded(seed@, 0));
        }
        while self.contains_key(k.as_str())
            invariant
                self.listed(),
                k@ == padded(seed@, n),
                forall|m: nat| m < n ==> self@.contains_key(#[trigger] padded(seed@, m)),
            decreases longest(self.keys()) + 1 - k@.len(),
        {
            proof {
                self.lemma_listed();
                let i = self.keys().index_of(k@);
                assert(self.keys()[i] == k@);
                lemma_longest(self.keys(), i);
                reveal_strlit("-");
            }
            k.append("-");
            proof {
                assert(k@ =~= padded(seed@, n + 1));
                n = n + 1;
            }
        }
        proof {
            lemma_first_free_is(self@.dom(), seed@, n);
        }
        k
    }

    /// Puts `value` in place of the value of the `i`-th entry and hands the
    /// earlier value back. The entry keeps its key and its place.
    pub fn replace_at(&mut self, i: usize, value: V) -> (r: V)
        requires
            i < old(self).keys().len(),
        ensures
            r@ == old(self).values()[i as int],
            final(self).keys() == old(self).keys(),
            final(self).values() == old(self).values().update(i as int, value@),
            final(self)@ == old(self)@.insert(old(self).keys()[i as int], value@),
            final(self).listed(),
    {
        proof {
            use_type_invariant(&*self);
        }
        let ghost given = value@;
        let mut value = value;
        let mut taken = Self::new();
        std::mem::swap(self, &mut taken);
        let StringMap { mut entries } = taken;
        let ghost before = entries@;
        std::mem::swap(&mut entries[i].value, &mut value);
        assert(entries@[i as int].key == before[i as int].key);
        assert(keys_of(entries@) =~= old(self).keys());
        *self = StringMap { entries };
        assert(self.values() =~= old(self).values().update(i as int, given));
        proof {
            lemma_map_of(self.keys(), self.values());
            lemma_map_of(old(self).keys(), old(self).values());
            assert(self@ =~= old(self)@.insert(old(self).keys()[i as int], given));
        }
        value
    }

    /// Sets the value under `key`. A key that is already listed keeps its
    /// place and hands its earlier value back; a new key goes to the end.
    pub fn insert(&mut self, key: String, value: V) -> (r: Option<V>)
        ensures
            final(self)@ == old(self)@.insert(key@, value@),
            final(self).listed(),
            match r {
                Some(v) => {
                    &&& old(self)@.contains_key(key@)
                    &&& v@ == old(self)@[key@]
                    &&& final(self).keys() == old(self).keys()
                    &&& final(self).values() == old(self).values().update(
                        old(self).keys().index_of(key@),
                        value@,
                    )
                },
                None => {
                    &&& !old(self)@.contains_key(key@)
                    &&& final(self).keys() == old(self).keys().push(key@)
                    &&& final(self).values() == old(self).values().push(value@)
                },
            },
    {
        match self.position(key.as_str()) {
            Some(i) => {
                proof {
                    self.lemma_listed();
                    assert(self.keys()[self.keys().index_of(key@)] == key@);
                }
                Some(self.replace_at(i, value))
            },
            None => {
                proof {
                    use_type_invariant(&*self);
                }
                let ghost k = key@;
                let ghost v = value@;
                let mut taken = Self::new();
                std::mem::swap(self, &mut taken);
                let StringMap { mut entries } = taken;
                entries.push(Entry { key, value });
                assert(keys_of(entries@) =~= old(self).keys().push(k));
                *self = StringMap { entries };
                assert(self.values() =~= old(self).values().push(v));
                proof {
                    lemma_map_of(self.keys(), self.values());
                    lemma_map_of(old(self).keys(), old(self).values());
                    assert forall|q: Seq<char>| #[trigger]
                        self@.contains_key(q) <==> old(self)@.insert(k, v).contains_key(q) by {
                        assert(self.keys()[old(self).keys().len() as int] == k);
                        if old(self).keys().contains(q) {
                            let j = old(self).keys().index_of(q);
                            assert(self.keys()[j] == q);
                        }
                        if self.keys().contains(q) {
                            let j = self.keys().index_of(q);
                            if j < old(self).keys().len() {
                                assert(old(self).keys()[j] == q);
                            }
                        }
                    }
                    assert forall|q: Seq<char>| #[trigger] self@.contains_key(q) implies self@[q]
                        == old(self)@.insert(k, v)[q] by {
                        let j = self.keys().index_of(q);
                        assert(self.keys()[j] == q);
                        if j < old(self).keys().len() {
                            assert(old(self).keys()[j] == q);
                        }
                    }
                    assert(self@ =~= old(self)@.insert(k, v));
                }
                None
            },
        }
    }

    /// Takes the `i`-th entry out. The entries after it move up by one.
    pub fn remove_at(&mut self, i: usize) -> (r: (String, V))
        requires
            i < old(self).keys().len(),
        ensures
            r.0@ == old(self).keys()[i as int],
            r.1@ == old(self).values()[i as int],
            final(self).keys() == old(self).keys().remove(i as int),
            final(self).values() == old(self).values().remove(i as int),
            final(self)@ == old(self)@.remove(old(self).keys()[i as int]),
            final(self).listed(),
    {
        proof {
            use_type_invariant(&*self);
        }
        let mut taken = Self::new();
        std::mem::swap(self, &mut taken);
        let StringMap { mut entries } = taken;
        let entry = entries.remove(i);
        assert(keys_of(entries@) =~= old(self).keys().remove(i as int));
        *self = StringMap { entries };
        assert(self.values() =~= old(self).values().remove(i as int));
        proof {
            let gone = old(self).keys()[i as int];
            lemma_map_of(self.keys(), self.values());
            lemma_map_of(old(self).keys(), old(self).values());
            assert forall|q: Seq<char>| #[trigger]
                self@.contains_key(q) <==> old(self)@.remove(gone).contains_key(q) by {
                if self.keys().contains(q) {
                    let j = self.keys().index_of(q);
                    let from = if j < i { j } else { j + 1 };
                    assert(old(self).keys()[from] == q);
                }
                if old(self).keys().contains(q) && q != gone {
                    let j = old(self).keys().index_of(q);
                    let to = if j < i { j } else { j - 1 };
                    assert(self.keys()[to] == q);
                }
            }
            assert forall|q: Seq<char>| #[trigger] self@.contains_key(q) implies self@[q]
                == old(self)@.remove(gone)[q] by {
                let j = self.keys().index_of(q);
                let from = if j < i { j } else { j + 1 };
                assert(old(self).keys()[from] == q);
            }
            assert(self@ =~= old(self)@.remove(gone));
        }
        (entry.key, entry.value)
    }

    /// Takes the entry under `key` out, if there is one.
    pub fn remove(&mut self, key: &str) -> (r: Option<V>)
        ensures
            final(self)@ == old(self)@.remove(key@),
            final(self).listed(),
            match r {
                Some(v) => {
                    let at = old(self).keys().index_of(key@);
                    &&& old(self)@.contains_key(key@)
                    &&& v@ == old(self)@[key@]
                    &&& final(self).keys() == old(self).keys().remove(at)
                    &&& final(self).values() == old(self).values().remove(at)
                },
                None => {
                    &&& !old(self)@.contains_key(key@)
                    &&& final(self).keys() == old(self).keys()
                    &&& final(self).values() == old(self).values()
                },
            },
    {
        match self.position(key) {
            Some(i) => {
                proof {
                    self.lemma_listed();
                    assert(self.keys()[self.keys().index_of(key@)] == key@);
                }
                let (_, value) = self.remove_at(i);
                Some(value)
            },
            None => {
                assert(self@ =~= old(self)@.remove(key@));
                None
            },
        }
    }
}

impl<V: Duplicate> Duplicate for StringMap<V> {
    fn duplicate(&self) -> (r: Self)
        ensures
            r.keys() == self.keys(),
            r.values() == self.values(),
            r.listed(),
    {
        proof {
            use_type_invariant(self);
        }
        let mut entries: Vec<Entry<V>> = Vec::new();
        let mut i: usize = 0;
        while i < self.entries.len()
            invariant
                i <= self.entries@.len(),
                entries@.len() == i,
                forall|j: int| 0 <= j < i ==> entries@[j].key@ == self.entries@[j].key@,
                forall|j: int| 0 <= j < i ==> entries@[j].value@ == self.entries@[j].value@,
            decreases self.entries@.len() - i,
        {
            let key = self.entries[i].key.clone();
            let value = self.entries[i].value.duplicate();
            entries.push(Entry { key, value });
            i += 1;
        }
        assert(keys_of(entries@) =~= self.keys());
        let r = StringMap { entries };
        assert(r.values() =~= self.values());
        r
    }
}

impl<V: Duplicate> Clone for StringMap<V> {
    fn clone(&self) -> (r: Self)
        ensures
            r@ == self@,
            r.keys() == self.keys(),
            r.values() == self.values(),
            r.listed(),
    {
        self.duplicate()
    }
}

} // verus!
