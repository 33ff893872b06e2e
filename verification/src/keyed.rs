//! Values indexed by keys that are compared by their views, kept in the order in which
//! the keys were first stored. It stands where a `HashMap` would be keyed by strings or
//! by records of strings: each key names a bucket (a string, such as a player name),
//! and a hash map from buckets to positions finds the few entries a key can be.

use vstd::hash_map::StringHashMap;
use vstd::prelude::*;

verus! {

/// Keys whose equality can be decided (two keys are the same exactly when their views
/// are equal), each with a bucket: a string that equal keys share.
pub trait SameKey: View + Sized {
    /// The bucket of a key.
    spec fn bucket_of(key: Self::V) -> Seq<char>;

    fn bucket(&self) -> (b: String)
        ensures
            b@ == Self::bucket_of(self@),
    ;

    fn same_key(&self, other: &Self) -> (r: bool)
        ensures
            r == (self@ == other@),
    ;
}

/// `keys` lists the keys of `m`, each exactly once.
pub open spec fn enumerates<K, V>(keys: Seq<K>, m: Map<K, V>) -> bool {
    &&& forall|i: int| 0 <= i < keys.len() ==> #[trigger] m.contains_key(keys[i])
    &&& forall|k: K| m.contains_key(k) ==> exists|i: int| 0 <= i < keys.len() && keys[i] == k
    &&& forall|i: int, j: int| 0 <= i < j < keys.len() ==> keys[i] != keys[j]
}

/// Values indexed by keys.
pub struct KeyedList<K: SameKey, V> {
    entries: Vec<(K, V)>,
    index: StringHashMap<Vec<usize>>,
    map: Ghost<Map<K::V, V>>,
}

/// A copy of a list of positions.
fn copy_positions(v: &Vec<usize>) -> (r: Vec<usize>)
    ensures
        r@ == v@,
{
    let mut r: Vec<usize> = Vec::new();
    let mut i: usize = 0;
    while i < v.len()
        invariant
            i <= v@.len(),
            r@ == v@.take(i as int),
        decreases v@.len() - i,
    {
        r.push(v[i]);
        i += 1;
        assert(r@ =~= v@.take(i as int));
    }
    assert(v@.take(i as int) =~= v@);
    r
}

impl<K: SameKey, V> View for KeyedList<K, V> {
    type V = Map<K::V, V>;

    closed spec fn view(&self) -> Map<K::V, V> {
        self.map@
    }
}

impl<K: SameKey, V> KeyedList<K, V> {
    /// The keys in their stored order.
    pub closed spec fn keys(&self) -> Seq<K::V> {
        self.entries@.map_values(|e: (K, V)| e.0@)
    }

    /// Each stored key occurs once and carries its value of the view.
    pub closed spec fn wf(&self) -> bool {
        &&& forall|i: int|
            0 <= i < self.entries@.len() ==> {
                &&& #[trigger] self.map@.contains_key(self.entries@[i].0@)
                &&& self.map@[self.entries@[i].0@] == self.entries@[i].1
            }
        &&& forall|k: K::V|
            self.map@.contains_key(k) ==> exists|i: int|
                0 <= i < self.entries@.len() && #[trigger] self.entries@[i].0@ == k
        &&& forall|i: int, j: int|
            0 <= i < j < self.entries@.len() ==> self.entries@[i].0@ != self.entries@[j].0@
        &&& self.indexed()
    }

    /// Every position is listed under its key's bucket, and every listed position holds
    /// a key of that bucket.
    closed spec fn indexed(&self) -> bool {
        &&& forall|i: int|
            0 <= i < self.entries@.len() ==> {
                &&& #[trigger] self.index@.contains_key(K::bucket_of(self.entries@[i].0@))
                &&& self.index@[K::bucket_of(self.entries@[i].0@)]@.contains(i as usize)
            }
        &&& forall|b: Seq<char>, j: int|
            #![trigger self.index@[b]@[j]]
            self.index@.contains_key(b) && 0 <= j < self.index@[b]@.len() ==> {
                &&& self.index@[b]@[j] < self.entries@.len()
                &&& K::bucket_of(self.entries@[self.index@[b]@[j] as int].0@) == b
            }
    }

    /// The stored keys enumerate the view.
    pub proof fn lemma_keys(&self)
        requires
            self.wf(),
        ensures
            enumerates(self.keys(), self@),
    {
        assert forall|k: K::V| self@.contains_key(k) implies exists|i: int|
            0 <= i < self.keys().len() && self.keys()[i] == k by {
            let i = choose|i: int| 0 <= i < self.entries@.len() && #[trigger] self.entries@[i].0@ == k;
            assert(self.keys()[i] == k);
        }
    }

    /// An empty list.
    pub fn new() -> (l: Self)
        ensures
            l.wf(),
            l@ == Map::<K::V, V>::empty(),
            l.keys() == Seq::<K::V>::empty(),
    {
        let l = KeyedList { entries: Vec::new(), index: StringHashMap::new(), map: Ghost(Map::empty()) };
        assert(l.keys() =~= Seq::<K::V>::empty());
        l
    }

    /// Number of keys.
    pub fn len(&self) -> (n: usize)
        ensures
            n == self.keys().len(),
    {
        self.entries.len()
    }

    /// The `i`-th stored key and its value.
    pub fn entry(&self, i: usize) -> (r: (&K, &V))
        requires
            self.wf(),
            i < self.keys().len(),
        ensures
            r.0@ == self.keys()[i as int],
            self@.contains_key(r.0@),
            *r.1 == self@[r.0@],
    {
        let e = &self.entries[i];
        assert(self.map@.contains_key(self.entries@[i as int].0@));
        (&e.0, &e.1)
    }

    /// Where `key` is stored, if it is.
    pub fn find(&self, key: &K) -> (r: Option<usize>)
        requires
            self.wf(),
        ensures
            r is Some <==> self@.contains_key(key@),
            r matches Some(i) ==> i < self.keys().len() && self.keys()[i as int] == key@,
    {
        let b = key.bucket();
        let ghost k = key@;
        let n = self.entries.len();
        match self.index.get(b.as_str()) {
            None => {
                proof {
                    if self.map@.contains_key(k) {
                        let i = choose|i: int| 0 <= i < self.entries@.len() && #[trigger] self.entries@[i].0@ == k;
                        assert(self.index@.contains_key(K::bucket_of(self.entries@[i].0@)));
                    }
                }
                None
            },
            Some(list) => {
                let mut t: usize = 0;
                while t < list.len()
                    invariant
                        self.wf(),
                        b@ == K::bucket_of(k),
                        k == key@,
                        self.index@.contains_key(b@),
                        *list == self.index@[b@],
                        t <= list@.len(),
                        n == self.entries@.len(),
                        forall|s: int| 0 <= s < t ==> self.entries@[list@[s] as int].0@ != k,
                    decreases list@.len() - t,
                {
                    let p = list[t];
                    assert(self.index@[b@]@[t as int] == p);
                    if self.entries[p].0.same_key(key) {
                        assert(self.map@.contains_key(self.entries@[p as int].0@));
                        return Some(p);
                    }
                    t += 1;
                }
                proof {
                    if self.map@.contains_key(k) {
                        let i = choose|i: int| 0 <= i < self.entries@.len() && #[trigger] self.entries@[i].0@ == k;
                        assert(self.index@.contains_key(K::bucket_of(self.entries@[i].0@)));
                        assert(list@.contains(i as usize));
                        let s = choose|s: int| 0 <= s < list@.len() && list@[s] == i as usize;
                        assert(list@[s] as int == i);
                        assert(self.entries@[list@[s] as int].0@ == k);
                    }
                }
                None
            },
        }
    }

    /// Replaces the value of the key stored at `i` by `value`.
    pub fn replace(&mut self, i: usize, key: K, value: V)
        requires
            old(self).wf(),
            i < old(self).keys().len(),
            old(self).keys()[i as int] == key@,
        ensures
            final(self).wf(),
            final(self)@ == old(self)@.insert(key@, value),
            final(self).keys() == old(self).keys(),
    {
        let ghost k = key@;
        let ghost v = value;
        let ghost before = self.entries@;
        let ghost old_map = self.map@;
        assert(before[i as int].0@ == k);
        self.entries.set(i, (key, value));
        self.map = Ghost(old_map.insert(k, v));
        assert forall|j: int| 0 <= j < self.entries@.len() implies {
            &&& #[trigger] self.map@.contains_key(self.entries@[j].0@)
            &&& self.map@[self.entries@[j].0@] == self.entries@[j].1
        } by {
            if j != i {
                assert(self.entries@[j] == before[j]);
                assert(before[j].0@ != k);
                assert(old_map.contains_key(before[j].0@));
            }
        }
        assert forall|c: K::V| self.map@.contains_key(c) implies exists|j: int|
            0 <= j < self.entries@.len() && #[trigger] self.entries@[j].0@ == c by {
            if c == k {
                assert(self.entries@[i as int].0@ == c);
            } else {
                let j = choose|j: int| 0 <= j < before.len() && #[trigger] before[j].0@ == c;
                assert(self.entries@[j] == before[j]);
            }
        }
        assert forall|a: int, b: int| 0 <= a < b < self.entries@.len() implies
            self.entries@[a].0@ != self.entries@[b].0@ by {
            if a != i && b != i {
                assert(self.entries@[a] == before[a]);
                assert(self.entries@[b] == before[b]);
            } else if a == i {
                assert(self.entries@[b] == before[b]);
            } else {
                assert(self.entries@[a] == before[a]);
            }
        }
        assert forall|j: int| 0 <= j < self.entries@.len() implies {
            &&& #[trigger] self.index@.contains_key(K::bucket_of(self.entries@[j].0@))
            &&& self.index@[K::bucket_of(self.entries@[j].0@)]@.contains(j as usize)
        } by {
            assert(self.entries@[j].0@ == before[j].0@);
        }
        assert forall|b: Seq<char>, j: int|
            #![trigger self.index@[b]@[j]]
            self.index@.contains_key(b) && 0 <= j < self.index@[b]@.len() implies {
                &&& self.index@[b]@[j] < self.entries@.len()
                &&& K::bucket_of(self.entries@[self.index@[b]@[j] as int].0@) == b
            } by {
            let p = self.index@[b]@[j] as int;
            assert(self.entries@[p].0@ == before[p].0@);
        }
        assert(self.keys() =~= before.map_values(|e: (K, V)| e.0@));
    }

    /// Stores a key that is not stored yet, with `value`, after all others.
    pub fn push_new(&mut self, key: K, value: V)
        requires
            old(self).wf(),
            !old(self)@.contains_key(key@),
        ensures
            final(self).wf(),
            final(self)@ == old(self)@.insert(key@, value),
            final(self).keys() == old(self).keys().push(key@),
    {
        let ghost k = key@;
        let ghost v = value;
        let ghost before = self.entries@;
        let ghost old_map = self.map@;
        let ghost old_index = self.index@;
        let n = self.entries.len();
        let b = key.bucket();
        let mut positions = match self.index.get(b.as_str()) {
            Some(list) => copy_positions(list),
            None => Vec::new(),
        };
        let ghost old_positions = positions@;
        positions.push(n);
        self.index.insert(b, positions);
        self.entries.push((key, value));
        self.map = Ghost(old_map.insert(k, v));
        assert forall|j: int| 0 <= j < self.entries@.len() implies {
            &&& #[trigger] self.index@.contains_key(K::bucket_of(self.entries@[j].0@))
            &&& self.index@[K::bucket_of(self.entries@[j].0@)]@.contains(j as usize)
        } by {
            if j < before.len() {
                assert(self.entries@[j] == before[j]);
                assert(old_index.contains_key(K::bucket_of(before[j].0@)));
                assert(old_index[K::bucket_of(before[j].0@)]@.contains(j as usize));
                if K::bucket_of(before[j].0@) == K::bucket_of(k) {
                    let s = choose|s: int| 0 <= s < old_positions.len() && old_positions[s] == j as usize;
                    assert(self.index@[K::bucket_of(k)]@[s] == j as usize);
                }
            } else {
                assert(self.index@[K::bucket_of(k)]@[old_positions.len() as int] == n);
            }
        }
        assert forall|c: Seq<char>, j: int|
            #![trigger self.index@[c]@[j]]
            self.index@.contains_key(c) && 0 <= j < self.index@[c]@.len() implies {
                &&& self.index@[c]@[j] < self.entries@.len()
                &&& K::bucket_of(self.entries@[self.index@[c]@[j] as int].0@) == c
            } by {
            if c == K::bucket_of(k) {
                if j < old_positions.len() {
                    assert(old_index.contains_key(c));
                    assert(old_index[c]@[j] == self.index@[c]@[j]);
                    let p = old_index[c]@[j] as int;
                    assert(self.entries@[p] == before[p]);
                } else {
                    assert(self.index@[c]@[j] == n);
                }
            } else {
                assert(old_index[c]@[j] == self.index@[c]@[j]);
                let p = old_index[c]@[j] as int;
                assert(self.entries@[p] == before[p]);
            }
        }
        assert forall|j: int| 0 <= j < self.entries@.len() implies {
            &&& #[trigger] self.map@.contains_key(self.entries@[j].0@)
            &&& self.map@[self.entries@[j].0@] == self.entries@[j].1
        } by {
            if j < before.len() {
                assert(self.entries@[j] == before[j]);
                assert(old_map.contains_key(before[j].0@));
            }
        }
        assert forall|c: K::V| self.map@.contains_key(c) implies exists|j: int|
            0 <= j < self.entries@.len() && #[trigger] self.entries@[j].0@ == c by {
            if c == k {
                assert(self.entries@[before.len() as int].0@ == c);
            } else {
                let j = choose|j: int| 0 <= j < before.len() && #[trigger] before[j].0@ == c;
                assert(self.entries@[j] == before[j]);
            }
        }
        assert forall|a: int, b: int| 0 <= a < b < self.entries@.len() implies
            self.entries@[a].0@ != self.entries@[b].0@ by {
            assert(self.entries@[a] == before[a]);
            assert(old_map.contains_key(before[a].0@));
            if b < before.len() {
                assert(self.entries@[b] == before[b]);
            }
        }
        assert(self.keys() =~= before.map_values(|e: (K, V)| e.0@).push(k));
    }
}

} // verus!

verus! {

impl SameKey for String {
    /// A string is its own bucket.
    open spec fn bucket_of(key: Seq<char>) -> Seq<char> {
        key
    }

    fn bucket(&self) -> (b: String) {
        self.clone()
    }

    fn same_key(&self, other: &Self) -> (r: bool) {
        crate::text::same_text(self.as_str(), other.as_str())
    }
}

} // verus!
