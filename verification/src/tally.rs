//! A keyed tally of counters: what a `HashMap<Key, Count>` with
//! `entry(key).or_insert(0)` followed by `+=` keeps. Keys are compared by their views;
//! each key type fixes how large its counters may grow (the maximum of the counter
//! type the key is tallied with).

use crate::keyed::{enumerates, KeyedList, SameKey};
use vstd::prelude::*;

verus! {

/// Keys that counters are tallied under; each key type fixes the largest value its
/// counters may reach.
pub trait TallyKey: SameKey {
    /// The largest value a counter of this key may reach.
    spec fn max_count() -> int;

    proof fn lemma_max_count()
        ensures
            0 <= Self::max_count() <= i64::MAX,
    ;
}

/// The counter of `key` in `counts`; absent keys count zero.
pub open spec fn count_of<V>(counts: Map<V, int>, key: V) -> int {
    if counts.contains_key(key) {
        counts[key]
    } else {
        0
    }
}

/// How often `k` occurs in `keys`.
pub open spec fn occurrences<V>(keys: Seq<V>, k: V) -> nat
    decreases keys.len(),
{
    if keys.len() == 0 {
        0
    } else {
        (if keys[0] == k { 1nat } else { 0nat }) + occurrences(keys.drop_first(), k)
    }
}

/// The counters after adding 5 for each key of `keys`, in order.
pub open spec fn tallied<V>(counts: Map<V, int>, keys: Seq<V>) -> Map<V, int>
    decreases keys.len(),
{
    if keys.len() == 0 {
        counts
    } else {
        tallied(counts.insert(keys[0], count_of(counts, keys[0]) + 5), keys.drop_first())
    }
}

/// Adding 5 for each key of `keys` keeps every counter at most `max`.
pub open spec fn tally_fits<V>(counts: Map<V, int>, keys: Seq<V>, max: int) -> bool {
    forall|k: V| #[trigger] count_of(counts, k) + 5 * occurrences(keys, k) <= max
}

/// The tally does not depend on the order of the keys: each counter grows by 5 for
/// each occurrence of its key, and the keys are those counted before and those added.
pub proof fn lemma_tallied<V>(counts: Map<V, int>, keys: Seq<V>, k: V)
    ensures
        count_of(tallied(counts, keys), k) == count_of(counts, k) + 5 * occurrences(keys, k),
        tallied(counts, keys).contains_key(k) <==> (counts.contains_key(k) || keys.contains(k)),
    decreases keys.len(),
{
    if keys.len() > 0 {
        let next = counts.insert(keys[0], count_of(counts, keys[0]) + 5);
        lemma_tallied(next, keys.drop_first(), k);
        if keys.drop_first().contains(k) {
            let i = choose|i: int| 0 <= i < keys.drop_first().len() && keys.drop_first()[i] == k;
            assert(keys[i + 1] == k);
        }
        if keys.contains(k) && keys[0] != k {
            let i = choose|i: int| 0 <= i < keys.len() && keys[i] == k;
            assert(keys.drop_first()[i - 1] == k);
        }
    }
}

/// Counting the first key of `keys` moves the question whether the rest fits, and
/// what the tally comes to, on to the rest of the keys.
pub proof fn lemma_fits_step<V>(before: Map<V, int>, after: Map<V, int>, k: V, keys: Seq<V>, tail: Seq<V>)
    requires
        keys.len() > 0,
        keys[0] == k,
        keys.drop_first() == tail,
        after == before.insert(k, count_of(before, k) + 5),
    ensures
        forall|max: int| tally_fits(after, tail, max) == #[trigger] tally_fits(before, keys, max),
        tallied(after, tail) == tallied(before, keys),
{
    assert forall|x: V| #[trigger] count_of(after, x) + 5 * occurrences(tail, x)
        == count_of(before, x) + 5 * occurrences(keys, x) by {}
    assert forall|max: int| tally_fits(after, tail, max) == #[trigger] tally_fits(before, keys, max) by {
        if tally_fits(before, keys, max) {
            assert forall|x: V| #[trigger] count_of(after, x) + 5 * occurrences(tail, x) <= max by {
                assert(count_of(before, x) + 5 * occurrences(keys, x) <= max);
            }
        }
        if tally_fits(after, tail, max) {
            assert forall|x: V| #[trigger] count_of(before, x) + 5 * occurrences(keys, x) <= max by {
                assert(count_of(after, x) + 5 * occurrences(tail, x) <= max);
            }
        }
    }
}

/// Tallying `a + b` is tallying `a`, then `b`.
pub proof fn lemma_tallied_append<V>(counts: Map<V, int>, a: Seq<V>, b: Seq<V>)
    ensures
        tallied(counts, a + b) == tallied(tallied(counts, a), b),
    decreases a.len(),
{
    if a.len() == 0 {
        assert(a + b =~= b);
    } else {
        let next = counts.insert(a[0], count_of(counts, a[0]) + 5);
        assert((a + b).drop_first() =~= a.drop_first() + b);
        assert((a + b)[0] == a[0]);
        lemma_tallied_append(next, a.drop_first(), b);
    }
}

/// Tallying one more key adds 5 to its counter.
pub proof fn lemma_tallied_push<V>(counts: Map<V, int>, done: Seq<V>, k: V)
    ensures
        tallied(counts, done.push(k)) == tallied(counts, done).insert(
            k,
            count_of(tallied(counts, done), k) + 5,
        ),
{
    assert(done.push(k) =~= done + seq![k]);
    lemma_tallied_append(counts, done, seq![k]);
    let mid = tallied(counts, done);
    let one = seq![k];
    assert(one.drop_first() =~= Seq::<V>::empty());
    assert(one[0] == k);
    let next = mid.insert(k, count_of(mid, k) + 5);
    assert(tallied(next, one.drop_first()) == next);
    assert(tallied(mid, one) == next);
}

/// Counting `keys` from `counts` stopped at a key whose counter would pass `max`:
/// `after` holds the counters of the keys before that one.
pub open spec fn tally_stopped<V>(counts: Map<V, int>, keys: Seq<V>, max: int, after: Map<V, int>) -> bool {
    exists|n: int|
        #![trigger keys.take(n)]
        0 <= n < keys.len() && after == tallied(counts, keys.take(n)) && count_of(after, keys[n]) + 5 > max
}

/// Counting `all` from the counters `start` has come as far as `done`, with `rest` left
/// to count: `now` holds the counters of the keys done.
pub open spec fn tally_progress<V>(start: Map<V, int>, all: Seq<V>, done: Seq<V>, rest: Seq<V>, now: Map<V, int>) -> bool {
    &&& done + rest == all
    &&& now == tallied(start, done)
}

/// Counting the next key keeps the progress, and leaves unchanged whether the keys left
/// fit under `max`.
pub proof fn lemma_progress_step<V>(
    start: Map<V, int>,
    all: Seq<V>,
    done: Seq<V>,
    rest: Seq<V>,
    now: Map<V, int>,
    next: Map<V, int>,
    max: int,
)
    requires
        tally_progress(start, all, done, rest, now),
        rest.len() > 0,
        next == now.insert(rest[0], count_of(now, rest[0]) + 5),
    ensures
        tally_progress(start, all, done.push(rest[0]), rest.drop_first(), next),
        tally_fits(next, rest.drop_first(), max) == tally_fits(now, rest, max),
{
    lemma_fits_step(now, next, rest[0], rest, rest.drop_first());
    lemma_tallied_push(start, done, rest[0]);
    assert(done.push(rest[0]) + rest.drop_first() =~= done + rest);
}

/// Where the next key's counter would pass `max`, the keys left do not fit and counting
/// stops there.
pub proof fn lemma_progress_overflow<V>(
    start: Map<V, int>,
    all: Seq<V>,
    done: Seq<V>,
    rest: Seq<V>,
    now: Map<V, int>,
    max: int,
)
    requires
        tally_progress(start, all, done, rest, now),
        rest.len() > 0,
        count_of(now, rest[0]) + 5 > max,
    ensures
        !tally_fits(now, rest, max),
        tally_stopped(start, all, max, now),
{
    assert(all.take(done.len() as int) =~= done);
    assert(all[done.len() as int] == rest[0]);
    assert(occurrences(rest, rest[0]) >= 1);
    assert(count_of(now, rest[0]) + 5 * occurrences(rest, rest[0]) > max);
}

/// Once no key is left, the counters are the tally of all keys.
pub proof fn lemma_progress_done<V>(start: Map<V, int>, all: Seq<V>, done: Seq<V>, now: Map<V, int>)
    requires
        tally_progress(start, all, done, Seq::<V>::empty(), now),
    ensures
        now == tallied(start, all),
{
    assert(done + Seq::<V>::empty() =~= done);
}

/// Counting one key changes that key's counter alone: every other counter stays, no key
/// is lost, and at most one key is new.
pub proof fn lemma_count_changes_one_key<V>(counts: Map<V, int>, key: V, amount: int)
    requires
        counts.dom().finite(),
    ensures
        forall|k: V| k != key ==> #[trigger] count_of(counts.insert(key, count_of(counts, key) + amount), k)
            == count_of(counts, k),
        counts.dom().subset_of(counts.insert(key, count_of(counts, key) + amount).dom()),
        counts.insert(key, count_of(counts, key) + amount).dom().len() <= counts.dom().len() + 1,
{
    let after = counts.insert(key, count_of(counts, key) + amount);
    assert(after.dom() =~= counts.dom().insert(key));
}

/// Counters indexed by keys, in the order in which the keys first appeared.
pub struct Tally<K: TallyKey> {
    list: KeyedList<K, i64>,
}

impl<K: TallyKey> View for Tally<K> {
    type V = Map<K::V, int>;

    closed spec fn view(&self) -> Map<K::V, int> {
        self.list@.map_values(|c: i64| c as int)
    }
}

impl<K: TallyKey> Tally<K> {
    /// The keys in their stored order.
    pub closed spec fn keys(&self) -> Seq<K::V> {
        self.list.keys()
    }

    /// The keys are stored once each and every counter lies between zero and the
    /// key's maximum.
    pub closed spec fn wf(&self) -> bool {
        &&& self.list.wf()
        &&& forall|k: K::V| #[trigger] self.list@.contains_key(k) ==> 0 <= self.list@[k] <= K::max_count()
    }

    /// The stored keys enumerate the tally.
    pub proof fn lemma_keys(&self)
        requires
            self.wf(),
        ensures
            enumerates(self.keys(), self@),
    {
        self.list.lemma_keys();
    }

    /// Every counter lies between zero and the key's maximum.
    pub proof fn lemma_counts_fit(&self, k: K::V)
        requires
            self.wf(),
        ensures
            0 <= count_of(self@, k) <= K::max_count(),
    {
        K::lemma_max_count();
    }

    /// An empty tally.
    pub fn new() -> (t: Self)
        ensures
            t.wf(),
            t@ == Map::<K::V, int>::empty(),
    {
        let t = Tally { list: KeyedList::new() };
        assert(t@ =~= Map::<K::V, int>::empty());
        t
    }

    /// Number of distinct keys.
    pub fn len(&self) -> (n: usize)
        ensures
            n == self.keys().len(),
    {
        self.list.len()
    }

    /// The `i`-th stored key and its counter.
    pub fn entry(&self, i: usize) -> (r: (&K, i64))
        requires
            self.wf(),
            i < self.keys().len(),
        ensures
            r.0@ == self.keys()[i as int],
            self@.contains_key(r.0@),
            r.1 as int == self@[r.0@],
    {
        let (k, c) = self.list.entry(i);
        (k, *c)
    }

    /// The counter of `key`, if it has one.
    pub fn get(&self, key: &K) -> (r: Option<i64>)
        requires
            self.wf(),
        ensures
            r is Some <==> self@.contains_key(key@),
            r matches Some(c) ==> c as int == self@[key@],
    {
        match self.list.find(key) {
            Some(i) => {
                let (_, c) = self.list.entry(i);
                Some(*c)
            },
            None => None,
        }
    }

    /// Adds `amount` to the counter of `key`, starting it at zero where it has none.
    pub fn add(&mut self, key: K, amount: i64)
        requires
            old(self).wf(),
            0 <= amount,
            count_of(old(self)@, key@) + amount <= K::max_count(),
        ensures
            final(self).wf(),
            final(self)@ == old(self)@.insert(key@, count_of(old(self)@, key@) + amount),
    {
        proof {
            K::lemma_max_count();
        }
        let ghost before = self@;
        match self.list.find(&key) {
            Some(i) => {
                let (_, c) = self.list.entry(i);
                let total = *c + amount;
                self.list.replace(i, key, total);
            },
            None => {
                self.list.push_new(key, amount);
            },
        }
        assert(self@ =~= before.insert(key@, count_of(before, key@) + amount));
    }
}

} // verus!
