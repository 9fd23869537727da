//! A keyed store: the persistent state of the exchange is a handful of these.
use crate::types::{AccountId, AssetId};
use vstd::prelude::*;

verus! {

/// A key of a store: a plain value whose equality can be decided.
pub trait StoreKey: Sized {
    fn same(&self, other: &Self) -> (r: bool)
        ensures
            r == (*self == *other),
    ;
}

impl StoreKey for AssetId {
    fn same(&self, other: &Self) -> (r: bool) {
        *self == *other
    }
}

impl StoreKey for AccountId {
    fn same(&self, other: &Self) -> (r: bool) {
        *self == *other
    }
}

impl<A: StoreKey, B: StoreKey> StoreKey for (A, B) {
    fn same(&self, other: &Self) -> (r: bool) {
        self.0.same(&other.0) && self.1.same(&other.1)
    }
}

/// The value that the latest write of `k` in `s` left, if any.
pub open spec fn latest<K, V>(s: Seq<(K, Option<V>)>, k: K) -> Option<V>
    decreases s.len(),
{
    if s.len() == 0 {
        None
    } else if s.last().0 == k {
        s.last().1
    } else {
        latest(s.drop_last(), k)
    }
}

/// A map from keys to values, kept as a log of writes in which the latest write of a key wins.
pub struct Store<K, V> {
    writes: Vec<(K, Option<V>)>,
}

impl<K: StoreKey, V> View for Store<K, V> {
    type V = Map<K, V>;

    closed spec fn view(&self) -> Map<K, V> {
        Map::new(|k: K| latest(self.writes@, k) is Some, |k: K| latest(self.writes@, k)->Some_0)
    }
}

impl<K: StoreKey, V> Store<K, V> {
    pub fn new() -> (r: Self)
        ensures
            r@ == Map::<K, V>::empty(),
    {
        let r = Store { writes: Vec::new() };
        assert(r@ =~= Map::<K, V>::empty());
        r
    }

    /// The value stored under `k`.
    pub fn get(&self, k: &K) -> (r: Option<&V>)
        ensures
            match r {
                Some(v) => self@.contains_key(*k) && *v == self@[*k],
                None => !self@.contains_key(*k),
            },
    {
        let mut i = self.writes.len();
        assert(self.writes@.subrange(0, i as int) =~= self.writes@);
        while i > 0
            invariant
                i <= self.writes@.len(),
                latest(self.writes@, *k) == latest(self.writes@.subrange(0, i as int), *k),
            decreases i,
        {
            let ghost s = self.writes@.subrange(0, i as int);
            assert(s.drop_last() =~= self.writes@.subrange(0, i - 1));
            if self.writes[i - 1].0.same(k) {
                return match &self.writes[i - 1].1 {
                    Some(v) => Some(v),
                    None => None,
                };
            }
            i = i - 1;
        }
        None
    }

    /// Stores `v` under `k`.
    pub fn set(&mut self, k: K, v: V)
        ensures
            final(self)@ == old(self)@.insert(k, v),
    {
        let ghost s = self.writes@;
        self.writes.push((k, Some(v)));
        assert(self.writes@.drop_last() =~= s);
        assert(self@ =~= old(self)@.insert(k, v));
    }

    /// Removes what is stored under `k`.
    pub fn remove(&mut self, k: K)
        ensures
            final(self)@ == old(self)@.remove(k),
    {
        let ghost s = self.writes@;
        self.writes.push((k, None));
        assert(self.writes@.drop_last() =~= s);
        assert(self@ =~= old(self)@.remove(k));
    }
}

impl<K: StoreKey + Copy, V: Copy> Store<K, V> {
    /// A copy of the store, to stage changes that are kept only if all of them succeed.
    pub fn duplicate(&self) -> (r: Self)
        ensures
            r@ == self@,
    {
        let mut writes: Vec<(K, Option<V>)> = Vec::new();
        let mut i: usize = 0;
        while i < self.writes.len()
            invariant
                i <= self.writes@.len(),
                writes@ == self.writes@.subrange(0, i as int),
            decreases self.writes@.len() - i,
        {
            writes.push(self.writes[i]);
            i = i + 1;
            assert(writes@ =~= self.writes@.subrange(0, i as int));
        }
        assert(writes@ =~= self.writes@);
        Store { writes }
    }
}

} // verus!
