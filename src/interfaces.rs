use crate::generic_containers::{Container, DynamicContainer};
use core::borrow::Borrow;
use core::ops::{Index, IndexMut};
use vstd::prelude::*;

verus! {

/// What a lookup of `key` in the map `m` gives: the stored value, or absence.
pub open spec fn lookup<K, V>(m: Map<K, V>, key: K) -> Option<V> {
    if m.contains_key(key) {
        Some(m[key])
    } else {
        None
    }
}

/// A container of key-value pairs, keyed by a value that is cheap to copy.
///
/// The view is the mapping from keys to values.
pub trait CopyMap<K, V>: Container<(K, V)> + View<V = Map<K, V>> where K: Copy + Eq {
    /// Whether `insert` may bring `key` in as a new key: a dictionary takes any
    /// fresh key while its count fits, an array only the next index.
    spec fn admits(&self, key: K) -> bool;

    /// The count is the number of keys, and a well-formed map holds finitely many.
    proof fn lemma_len_is_key_count(&self)
        requires
            self.well_formed(),
        ensures
            self@.dom().finite(),
            self.spec_len() == self@.dom().len(),
    ;

    /// A pair that `add` takes in carries a fresh key, and `add` inserts it.
    proof fn lemma_add_takes_fresh_keys(&self, key: K, value: V)
        requires
            self.well_formed(),
            self.can_add((key, value)),
        ensures
            !self@.contains_key(key),
            self.spec_add((key, value)) == self@.insert(key, value),
    ;

    /// The value stored under `key`, if there is one.
    fn get(&self, key: K) -> (r: Option<&V>)
        requires
            self.well_formed(),
        ensures
            r == (if self@.contains_key(key) { Some(&self@[key]) } else { None }),
    ;

    /// A handle through which the value stored under `key` is changed in place.
    fn get_mut(&mut self, key: K) -> (r: Option<&mut V>)
        requires
            old(self).well_formed(),
        ensures
            final(self).well_formed(),
            final(self).spec_len() == old(self).spec_len(),
            final(self).spec_capacity() == old(self).spec_capacity(),
            old(self)@.contains_key(key) <==> r.is_some(),
            match r {
                Some(h) => *h == old(self)@[key] && final(self)@ == old(self)@.insert(key, *final(h)),
                None => final(self)@ == old(self)@,
            },
    ;

    /// Stores `v` under `k`, and gives back the value it replaces, if any.
    fn insert(&mut self, k: K, v: V) -> (r: Option<V>)
        requires
            old(self).well_formed(),
            old(self)@.contains_key(k) || old(self).admits(k),
        ensures
            final(self).well_formed(),
            final(self)@ == old(self)@.insert(k, v),
            final(self).spec_capacity() >= old(self).spec_capacity(),
            r == lookup(old(self)@, k),
            final(self).spec_len() == old(self).spec_len() + (if old(self)@.contains_key(k) { 0int } else { 1int }),
    ;
}

/// A container of key-value pairs, looked up through any view that the key
/// type borrows as, so that a query needs no owned key.
///
/// The view is the mapping from keys to values.
pub trait BorrowMap<K, V>: Container<(K, V)> + View<V = Map<K, V>> where K: Eq {
    /// Whether `insert` may bring `key` in as a new key.
    spec fn admits(&self, key: K) -> bool;

    /// The stored key that `query` stands for: a key and its borrowed view
    /// compare alike, so each query names one key.
    spec fn key_for<Q: ?Sized>(query: &Q) -> K;

    /// A key looked up as itself names that very key, so distinct keys name
    /// distinct entries.
    proof fn lemma_key_for_key(k: &K)
        ensures
            Self::key_for(k) == *k,
    ;

    /// The count is the number of keys, and a well-formed map holds finitely many.
    proof fn lemma_len_is_key_count(&self)
        requires
            self.well_formed(),
        ensures
            self@.dom().finite(),
            self.spec_len() == self@.dom().len(),
    ;

    /// A pair that `add` takes in carries a fresh key, and `add` inserts it.
    proof fn lemma_add_takes_fresh_keys(&self, key: K, value: V)
        requires
            self.well_formed(),
            self.can_add((key, value)),
        ensures
            !self@.contains_key(key),
            self.spec_add((key, value)) == self@.insert(key, value),
    ;

    /// The value stored under the key that `key` stands for, if there is one.
    fn get<Q: ?Sized>(&self, key: &Q) -> (r: Option<&V>)
        where
            K: Borrow<Q>,
            Q: Eq,
        requires
            self.well_formed(),
        ensures
            r == (if self@.contains_key(Self::key_for(key)) {
                Some(&self@[Self::key_for(key)])
            } else {
                None
            }),
    ;

    /// A handle through which the value stored under the key that `k` stands
    /// for is changed in place.
    fn get_mut<Q: ?Sized>(&mut self, k: &Q) -> (r: Option<&mut V>)
        where
            K: Borrow<Q>,
            Q: Eq,
        requires
            old(self).well_formed(),
        ensures
            final(self).well_formed(),
            final(self).spec_len() == old(self).spec_len(),
            final(self).spec_capacity() == old(self).spec_capacity(),
            old(self)@.contains_key(Self::key_for(k)) <==> r.is_some(),
            match r {
                Some(h) => *h == old(self)@[Self::key_for(k)] && final(self)@ == old(self)@.insert(
                    Self::key_for(k),
                    *final(h),
                ),
                None => final(self)@ == old(self)@,
            },
    ;

    /// Stores `v` under `k`, and gives back the value it replaces, if any.
    fn insert(&mut self, k: K, v: V) -> (r: Option<V>)
        requires
            old(self).well_formed(),
            old(self)@.contains_key(k) || old(self).admits(k),
        ensures
            final(self).well_formed(),
            final(self)@ == old(self)@.insert(k, v),
            final(self).spec_capacity() >= old(self).spec_capacity(),
            r == lookup(old(self)@, k),
            final(self).spec_len() == old(self).spec_len() + (if old(self)@.contains_key(k) { 0int } else { 1int }),
    ;
}

/// A key-value map that grows and shrinks, keyed by a value that is cheap to copy.
pub trait CopyDictionary<K, V>: CopyMap<K, V> + DynamicContainer<(K, V)> where K: Copy + Eq {
    /// A dictionary takes any fresh key, by `insert` and by `add`, while its
    /// count fits in a `usize`.
    proof fn lemma_fresh_keys_fit(&self, key: K, value: V)
        requires
            self.well_formed(),
            !self@.contains_key(key),
            self.spec_len() < usize::MAX,
        ensures
            self.admits(key),
            self.can_add((key, value)),
    ;

    /// Whether a value is stored under `key`.
    fn contains(&self, key: K) -> (r: bool)
        requires
            self.well_formed(),
        ensures
            r == self@.contains_key(key),
    {
        match self.get(key) {
            Some(_) => true,
            None => false,
        }
    }

    /// Takes the value stored under `k` out, if there is one.
    fn remove(&mut self, k: K) -> (r: Option<V>)
        requires
            old(self).well_formed(),
        ensures
            final(self).well_formed(),
            final(self)@ == old(self)@.remove(k),
            final(self).spec_capacity() >= old(self).spec_capacity(),
            !old(self)@.contains_key(k) ==> final(self).spec_capacity() == old(self).spec_capacity(),
            r == lookup(old(self)@, k),
            final(self).spec_len() == old(self).spec_len() - (if old(self)@.contains_key(k) { 1int } else { 0int }),
    ;
}

/// A key-value map that grows and shrinks, looked up through borrowed views
/// of its keys.
pub trait Dictionary<K, V>: BorrowMap<K, V> + DynamicContainer<(K, V)> where K: Eq {
    /// A dictionary takes any fresh key, by `insert` and by `add`, while its
    /// count fits in a `usize`.
    proof fn lemma_fresh_keys_fit(&self, key: K, value: V)
        requires
            self.well_formed(),
            !self@.contains_key(key),
            self.spec_len() < usize::MAX,
        ensures
            self.admits(key),
            self.can_add((key, value)),
    ;

    /// Whether a value is stored under the key that `key` stands for.
    fn contains<Q: ?Sized>(&self, key: &Q) -> (r: bool)
        where
            K: Borrow<Q>,
            Q: Eq,
        requires
            self.well_formed(),
        ensures
            r == self@.contains_key(Self::key_for(key)),
    {
        match self.get(key) {
            Some(_) => true,
            None => false,
        }
    }

    /// Takes the value stored under the key that `k` stands for out, if there is one.
    fn remove<Q: ?Sized>(&mut self, k: &Q) -> (r: Option<V>)
        where
            K: Borrow<Q>,
            Q: Eq,
        requires
            old(self).well_formed(),
        ensures
            final(self).well_formed(),
            final(self)@ == old(self)@.remove(Self::key_for(k)),
            final(self).spec_capacity() >= old(self).spec_capacity(),
            !old(self)@.contains_key(Self::key_for(k)) ==> final(self).spec_capacity()
                == old(self).spec_capacity(),
            r == lookup(old(self)@, Self::key_for(k)),
            final(self).spec_len() == old(self).spec_len() - (if old(self)@.contains_key(
                Self::key_for(k),
            ) {
                1int
            } else {
                0int
            }),
    ;
}

/// An array of fixed size: the keys are the indices below its length.
///
/// Implementations are expected to make subscripts reach the same values as
/// `get` and `get_mut`, and to fail on an index out of range; std's `Index`
/// carries no contract, so this is not stated here.
pub trait Array<V>: CopyMap<usize, V> + Index<usize, Output = V> + IndexMut<usize, Output = V> {
    /// The indices are those below the length, and they never change.
    proof fn lemma_fixed_indices(&self, i: usize, value: V)
        requires
            self.well_formed(),
        ensures
            self@.contains_key(i) <==> i < self.spec_len(),
            !self.admits(i),
            !self.can_add((i, value)),
    ;
}

/// An array that grows at its end: the keys are the indices below its length,
/// and a new value goes in at the index equal to the length.
pub trait DynamicArray<V>:
    CopyMap<usize, V> + DynamicContainer<(usize, V)> + Index<usize, Output = V> + IndexMut<usize, Output = V> {
    /// The indices are those below the length; only the next one is admitted,
    /// while the length fits in a `usize`.
    proof fn lemma_indices(&self, i: usize, value: V)
        requires
            self.well_formed(),
        ensures
            self@.contains_key(i) <==> i < self.spec_len(),
            self.admits(i) <==> i == self.spec_len() && self.spec_len() < usize::MAX,
            self.can_add((i, value)) <==> i == self.spec_len() && self.spec_len() < usize::MAX,
    ;
}

} // verus!
