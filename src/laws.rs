use crate::generic_containers::Container;
use crate::interfaces::{lookup, BorrowMap, CopyMap};
use vstd::prelude::*;

verus! {

/// Inserting under a key that was absent grows the count by exactly one;
/// inserting under a key that was present leaves the count as it was.
pub proof fn lemma_insert_len<K: Copy + Eq, V, T: CopyMap<K, V>>(
    before: T,
    after: T,
    key: K,
    value: V,
)
    requires
        before.well_formed(),
        after.well_formed(),
        after@ == before@.insert(key, value),
    ensures
        after.spec_len() == before.spec_len() + (if before@.contains_key(key) { 0int } else { 1int }),
{
    before.lemma_len_is_key_count();
    after.lemma_len_is_key_count();
    assert(after@.dom() == before@.dom().insert(key));
}

/// A value inserted under a fresh key displaces nothing, and a lookup of the
/// key afterwards gives that value back.
pub proof fn lemma_insert_then_get<K: Copy + Eq, V, T: CopyMap<K, V>>(
    before: T,
    after: T,
    key: K,
    value: V,
)
    requires
        !before@.contains_key(key),
        after@ == before@.insert(key, value),
    ensures
        lookup(before@, key) == None::<V>,
        lookup(after@, key) == Some(value),
{
}

/// Inserting `v1` and then `v2` under one key: the second insert gives `v1`
/// back, a lookup afterwards gives `v2`, and the second insert leaves the count
/// as it was.
pub proof fn lemma_overwrite<K: Copy + Eq, V, T: CopyMap<K, V>>(
    start: T,
    first: T,
    second: T,
    key: K,
    v1: V,
    v2: V,
)
    requires
        start.well_formed(),
        first.well_formed(),
        second.well_formed(),
        first@ == start@.insert(key, v1),
        second@ == first@.insert(key, v2),
    ensures
        lookup(first@, key) == Some(v1),
        lookup(second@, key) == Some(v2),
        second.spec_len() == first.spec_len(),
{
    lemma_insert_len(first, second, key, v2);
}

/// A lookup is present exactly where the key is stored, so `contains` and
/// `get` agree on every key; once a key is removed, its lookup is absent.
pub proof fn lemma_absence<K: Copy + Eq, V, T: CopyMap<K, V>>(before: T, after: T, key: K)
    requires
        after@ == before@.remove(key),
    ensures
        lookup(before@, key) is Some <==> before@.contains_key(key),
        lookup(after@, key) == None::<V>,
        !after@.contains_key(key),
{
}

/// Removing a present key shrinks the count by exactly one and gives back the
/// value stored under it; removing an absent key gives back nothing and leaves
/// the count as it was.
pub proof fn lemma_remove_len<K: Copy + Eq, V, T: CopyMap<K, V>>(before: T, after: T, key: K)
    requires
        before.well_formed(),
        after.well_formed(),
        after@ == before@.remove(key),
    ensures
        before@.contains_key(key) ==> lookup(before@, key) == Some(before@[key])
            && after.spec_len() + 1 == before.spec_len(),
        !before@.contains_key(key) ==> lookup(before@, key) == None::<V> && after.spec_len()
            == before.spec_len(),
{
    before.lemma_len_is_key_count();
    after.lemma_len_is_key_count();
    assert(after@.dom() == before@.dom().remove(key));
}

/// In a map looked up through borrowed views: inserting under `key` makes a
/// lookup of `key` give the value, grows the count by one exactly when the key
/// was absent, and leaves every other key's lookup as it was.
pub proof fn lemma_borrowed_insert<K: Eq, V, T: BorrowMap<K, V>>(
    before: T,
    after: T,
    key: K,
    value: V,
)
    requires
        before.well_formed(),
        after.well_formed(),
        after@ == before@.insert(key, value),
    ensures
        lookup(after@, T::key_for(&key)) == Some(value),
        after.spec_len() == before.spec_len() + (if before@.contains_key(key) { 0int } else { 1int }),
        forall|k2: K|
            k2 != key ==> lookup(after@, #[trigger] T::key_for(&k2)) == lookup(before@, T::key_for(&k2)),
{
    T::lemma_key_for_key(&key);
    before.lemma_len_is_key_count();
    after.lemma_len_is_key_count();
    assert(after@.dom() == before@.dom().insert(key));
    assert forall|k2: K| k2 != key implies lookup(after@, #[trigger] T::key_for(&k2)) == lookup(
        before@,
        T::key_for(&k2),
    ) by {
        T::lemma_key_for_key(&k2);
    }
}

/// In a map looked up through borrowed views: inserting `v1` and then `v2`
/// under one key, the second insert gives `v1` back, a lookup of the key gives
/// `v2`, and the count stays as it was after the first insert.
pub proof fn lemma_borrowed_overwrite<K: Eq, V, T: BorrowMap<K, V>>(
    start: T,
    first: T,
    second: T,
    key: K,
    v1: V,
    v2: V,
)
    requires
        start.well_formed(),
        first.well_formed(),
        second.well_formed(),
        first@ == start@.insert(key, v1),
        second@ == first@.insert(key, v2),
    ensures
        lookup(first@, key) == Some(v1),
        lookup(second@, T::key_for(&key)) == Some(v2),
        second.spec_len() == first.spec_len(),
{
    lemma_borrowed_insert(first, second, key, v2);
}

/// In a map looked up through borrowed views: removing through `query` gives
/// back the value of the key it names and shrinks the count by one when that
/// key was present, leaves the count when it was absent, makes the key's lookup
/// absent, and leaves every other key's lookup as it was.
pub proof fn lemma_borrowed_remove<K: Eq, V, T: BorrowMap<K, V>, Q: ?Sized>(
    before: T,
    after: T,
    query: &Q,
)
    requires
        before.well_formed(),
        after.well_formed(),
        after@ == before@.remove(T::key_for(query)),
    ensures
        before@.contains_key(T::key_for(query)) ==> lookup(before@, T::key_for(query)) == Some(
            before@[T::key_for(query)],
        ) && after.spec_len() + 1 == before.spec_len(),
        !before@.contains_key(T::key_for(query)) ==> lookup(before@, T::key_for(query)) == None::<V>
            && after.spec_len() == before.spec_len(),
        lookup(after@, T::key_for(query)) == None::<V>,
        forall|k2: K|
            k2 != T::key_for(query) ==> lookup(after@, #[trigger] T::key_for(&k2)) == lookup(
                before@,
                T::key_for(&k2),
            ),
{
    before.lemma_len_is_key_count();
    after.lemma_len_is_key_count();
    assert(after@.dom() == before@.dom().remove(T::key_for(query)));
    assert forall|k2: K| k2 != T::key_for(query) implies lookup(
        after@,
        #[trigger] T::key_for(&k2),
    ) == lookup(before@, T::key_for(&k2)) by {
        T::lemma_key_for_key(&k2);
    }
}

} // verus!
