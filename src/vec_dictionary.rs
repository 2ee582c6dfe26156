use crate::generic_containers::{Container, DynamicContainer, Iterable};
use crate::interfaces::{lookup, CopyDictionary, CopyMap};
use vstd::prelude::*;

verus! {

/// Whether no two pairs of `s` share a key.
spec fn keys_unique<V>(s: Seq<(u64, V)>) -> bool {
    forall|i: int, j: int|
        0 <= i < s.len() && 0 <= j < s.len() && #[trigger] s[i].0 == #[trigger] s[j].0 ==> i == j
}

/// The mapping that a list of pairs stands for.
spec fn pairs_map<V>(s: Seq<(u64, V)>) -> Map<u64, V>
    decreases s.len(),
{
    if s.len() == 0 {
        Map::empty()
    } else {
        pairs_map(s.drop_last()).insert(s.last().0, s.last().1)
    }
}

proof fn lemma_drop_last_unique<V>(s: Seq<(u64, V)>)
    requires
        keys_unique(s),
        s.len() > 0,
    ensures
        keys_unique(s.drop_last()),
{
    assert forall|i: int, j: int|
        0 <= i < s.drop_last().len() && 0 <= j < s.drop_last().len() && #[trigger] s.drop_last()[i].0
            == #[trigger] s.drop_last()[j].0 implies i == j by {
        assert(s[i].0 == s[j].0);
    }
}

/// Every key of the mapping is the key of some pair.
proof fn lemma_pairs_map_keys<V>(s: Seq<(u64, V)>, k: u64)
    requires
        pairs_map(s).contains_key(k),
    ensures
        exists|i: int| 0 <= i < s.len() && #[trigger] s[i].0 == k,
    decreases s.len(),
{
    if s.last().0 != k {
        lemma_pairs_map_keys(s.drop_last(), k);
        let i = choose|i: int| 0 <= i < s.drop_last().len() && #[trigger] s.drop_last()[i].0 == k;
        assert(s[i].0 == k);
    } else {
        assert(s[s.len() - 1].0 == k);
    }
}

/// Each pair of a list with unique keys is in the mapping.
proof fn lemma_pairs_map_index<V>(s: Seq<(u64, V)>, i: int)
    requires
        keys_unique(s),
        0 <= i < s.len(),
    ensures
        pairs_map(s).contains_key(s[i].0),
        pairs_map(s)[s[i].0] == s[i].1,
    decreases s.len(),
{
    if i < s.len() - 1 {
        lemma_drop_last_unique(s);
        lemma_pairs_map_index(s.drop_last(), i);
        assert(s.drop_last()[i] == s[i]);
        assert(s[s.len() - 1].0 != s[i].0);
    }
}

/// A list with unique keys has as many keys in its mapping as it has pairs.
proof fn lemma_pairs_map_len<V>(s: Seq<(u64, V)>)
    requires
        keys_unique(s),
    ensures
        pairs_map(s).dom().finite(),
        pairs_map(s).dom().len() == s.len(),
    decreases s.len(),
{
    if s.len() > 0 {
        let t = s.drop_last();
        lemma_drop_last_unique(s);
        lemma_pairs_map_len(t);
        if pairs_map(t).contains_key(s.last().0) {
            lemma_pairs_map_keys(t, s.last().0);
            let i = choose|i: int| 0 <= i < t.len() && #[trigger] t[i].0 == s.last().0;
            assert(s[i].0 == s[s.len() - 1].0);
        }
    }
}

/// Replacing the value of one pair replaces it in the mapping.
proof fn lemma_pairs_map_update<V>(s: Seq<(u64, V)>, i: int, v: V)
    requires
        keys_unique(s),
        0 <= i < s.len(),
    ensures
        keys_unique(s.update(i, (s[i].0, v))),
        pairs_map(s.update(i, (s[i].0, v))) == pairs_map(s).insert(s[i].0, v),
    decreases s.len(),
{
    let u = s.update(i, (s[i].0, v));
    assert forall|a: int, b: int|
        0 <= a < u.len() && 0 <= b < u.len() && #[trigger] u[a].0 == #[trigger] u[b].0 implies a
            == b by {
        assert(s[a].0 == s[b].0);
    }
    if i == s.len() - 1 {
        assert(u.drop_last() =~= s.drop_last());
        assert(pairs_map(u) =~= pairs_map(s).insert(s[i].0, v));
    } else {
        lemma_drop_last_unique(s);
        lemma_pairs_map_update(s.drop_last(), i, v);
        assert(u.drop_last() =~= s.drop_last().update(i, (s[i].0, v)));
        assert(s[s.len() - 1].0 != s[i].0);
        assert(pairs_map(u) =~= pairs_map(s).insert(s[i].0, v));
    }
}

/// Taking one pair out takes its key out of the mapping.
proof fn lemma_pairs_map_remove<V>(s: Seq<(u64, V)>, i: int)
    requires
        keys_unique(s),
        0 <= i < s.len(),
    ensures
        keys_unique(s.remove(i)),
        pairs_map(s.remove(i)) == pairs_map(s).remove(s[i].0),
    decreases s.len(),
{
    let r = s.remove(i);
    assert forall|a: int, b: int|
        0 <= a < r.len() && 0 <= b < r.len() && #[trigger] r[a].0 == #[trigger] r[b].0 implies a
            == b by {
        let a2 = if a < i { a } else { a + 1 };
        let b2 = if b < i { b } else { b + 1 };
        assert(s[a2].0 == s[b2].0);
    }
    let t = s.drop_last();
    lemma_drop_last_unique(s);
    if i == s.len() - 1 {
        assert(r =~= t);
        if pairs_map(t).contains_key(s[i].0) {
            lemma_pairs_map_keys(t, s[i].0);
            let j = choose|j: int| 0 <= j < t.len() && #[trigger] t[j].0 == s[i].0;
            assert(s[j].0 == s[i].0);
        }
        assert(pairs_map(r) =~= pairs_map(s).remove(s[i].0));
    } else {
        lemma_pairs_map_remove(t, i);
        assert(r.drop_last() =~= t.remove(i));
        assert(r.last() == s.last());
        assert(s[s.len() - 1].0 != s[i].0);
        assert(pairs_map(r) =~= pairs_map(s).remove(s[i].0));
    }
}

/// A fresh key can join a list with unique keys.
proof fn lemma_push_fresh<V>(s: Seq<(u64, V)>, k: u64, v: V)
    requires
        keys_unique(s),
        !pairs_map(s).contains_key(k),
    ensures
        keys_unique(s.push((k, v))),
        pairs_map(s.push((k, v))) == pairs_map(s).insert(k, v),
{
    let t = s.push((k, v));
    assert forall|a: int, b: int|
        0 <= a < t.len() && 0 <= b < t.len() && #[trigger] t[a].0 == #[trigger] t[b].0 implies a
            == b by {
        if a < s.len() {
            lemma_pairs_map_index(s, a);
        }
        if b < s.len() {
            lemma_pairs_map_index(s, b);
        }
    }
    assert(t.drop_last() =~= s);
}

/// A key that no pair carries is not in the mapping.
proof fn lemma_absent_key<V>(s: Seq<(u64, V)>, k: u64)
    requires
        forall|i: int| 0 <= i < s.len() ==> #[trigger] s[i].0 != k,
    ensures
        !pairs_map(s).contains_key(k),
{
    if pairs_map(s).contains_key(k) {
        lemma_pairs_map_keys(s, k);
    }
}

/// Relies on `Vec::shrink_to_fit`: it gives back spare storage and leaves the
/// elements as they are.
#[verifier::external_body]
fn shrink_storage<T>(v: &mut Vec<T>)
    ensures
        final(v)@ == old(v)@,
{
    v.shrink_to_fit()
}

/// A dictionary keyed by `u64`, held as a list of pairs with unique keys.
///
/// It keeps a capacity of its own: it grows the capacity by doubling when a
/// new key finds no room, and keeps at least that much storage reserved.
pub struct VecDictionary<V> {
    entries: Vec<(u64, V)>,
    cap: usize,
}

impl<V> View for VecDictionary<V> {
    type V = Map<u64, V>;

    closed spec fn view(&self) -> Map<u64, V> {
        pairs_map(self.entries@)
    }
}

impl<V> VecDictionary<V> {
    /// An empty dictionary, with no storage reserved.
    pub fn new() -> (r: Self)
        ensures
            r.well_formed(),
            r@ == Map::<u64, V>::empty(),
            r.spec_len() == 0,
            r.spec_capacity() == 0,
    {
        let r = VecDictionary { entries: Vec::new(), cap: 0 };
        assert(r@ =~= Map::<u64, V>::empty());
        r
    }

    /// The keys, in the order in which they were first inserted: the traversal
    /// order of the values.
    pub closed spec fn spec_keys(&self) -> Seq<u64> {
        self.entries@.map_values(|p: (u64, V)| p.0)
    }

    /// The item at each position of the traversal is the value stored under
    /// the key at the same position.
    pub proof fn lemma_items_follow_keys(&self)
        requires
            self.well_formed(),
        ensures
            self.spec_keys().len() == self.spec_items().len(),
            self.spec_items().len() == self.spec_len(),
            forall|i: int|
                0 <= i < self.spec_keys().len() ==> self@.contains_key(#[trigger] self.spec_keys()[i])
                    && self@[self.spec_keys()[i]] == self.spec_items()[i],
    {
        assert forall|i: int| 0 <= i < self.spec_keys().len() implies self@.contains_key(
            #[trigger] self.spec_keys()[i],
        ) && self@[self.spec_keys()[i]] == self.spec_items()[i] by {
            lemma_pairs_map_index(self.entries@, i);
        }
    }

    /// Makes sure that one more pair fits in the capacity, doubling it when full.
    fn make_room(&mut self)
        requires
            old(self).well_formed(),
            old(self).entries@.len() < usize::MAX,
        ensures
            final(self).well_formed(),
            final(self).entries@ == old(self).entries@,
            final(self).cap > old(self).entries@.len(),
            final(self).cap >= old(self).cap,
    {
        if self.entries.len() == self.cap {
            let new_cap: usize = if self.cap == 0 {
                4
            } else if self.cap <= usize::MAX / 2 {
                self.cap * 2
            } else {
                usize::MAX
            };
            self.entries.reserve(new_cap - self.entries.len());
            self.cap = new_cap;
        }
    }

    /// The position of the pair with key `key`, if there is one.
    fn find(&self, key: u64) -> (r: Option<usize>)
        ensures
            match r {
                Some(i) => i < self.entries@.len() && self.entries@[i as int].0 == key,
                None => forall|i: int| 0 <= i < self.entries@.len() ==> #[trigger] self.entries@[i].0 != key,
            },
    {
        let mut i: usize = 0;
        while i < self.entries.len()
            invariant
                i <= self.entries@.len(),
                forall|j: int| 0 <= j < i ==> #[trigger] self.entries@[j].0 != key,
            decreases self.entries@.len() - i,
        {
            if self.entries[i].0 == key {
                return Some(i);
            }
            i = i + 1;
        }
        None
    }
}

impl<V> Container<(u64, V)> for VecDictionary<V> {
    closed spec fn well_formed(&self) -> bool {
        &&& keys_unique(self.entries@)
        &&& self.entries@.len() <= self.cap
    }

    closed spec fn spec_len(&self) -> nat {
        self.entries@.len()
    }

    closed spec fn spec_capacity(&self) -> nat {
        self.cap as nat
    }

    open spec fn can_add(&self, element: (u64, V)) -> bool {
        &&& !self@.contains_key(element.0)
        &&& self.spec_len() < usize::MAX
    }

    open spec fn spec_add(&self, element: (u64, V)) -> Map<u64, V> {
        self@.insert(element.0, element.1)
    }

    fn add(&mut self, element: (u64, V)) {
        self.make_room();
        proof {
            lemma_push_fresh(self.entries@, element.0, element.1);
        }
        self.entries.push(element);
    }

    fn len(&self) -> (r: usize) {
        self.entries.len()
    }
}

impl<V> DynamicContainer<(u64, V)> for VecDictionary<V> {
    fn reserve(&mut self, additional: usize) {
        let len = self.entries.len();
        if self.cap < len + additional {
            self.entries.reserve(additional);
            self.cap = len + additional;
        }
    }

    fn shrink_to_fit(&mut self)
        ensures
            final(self).spec_capacity() == final(self).spec_len(),
    {
        shrink_storage(&mut self.entries);
        self.cap = self.entries.len();
    }

    fn capacity(&self) -> (r: usize) {
        self.cap
    }
}

impl<V> CopyMap<u64, V> for VecDictionary<V> {
    open spec fn admits(&self, key: u64) -> bool {
        self.spec_len() < usize::MAX
    }

    proof fn lemma_len_is_key_count(&self) {
        lemma_pairs_map_len(self.entries@);
    }

    proof fn lemma_add_takes_fresh_keys(&self, key: u64, value: V) {
    }

    fn get(&self, key: u64) -> (r: Option<&V>) {
        match self.find(key) {
            Some(i) => {
                proof {
                    lemma_pairs_map_index(self.entries@, i as int);
                }
                Some(&self.entries[i].1)
            },
            None => {
                proof {
                    lemma_absent_key(self.entries@, key);
                }
                None
            },
        }
    }

    fn get_mut(&mut self, key: u64) -> (r: Option<&mut V>) {
        match self.find(key) {
            Some(i) => {
                proof {
                    lemma_pairs_map_index(self.entries@, i as int);
                }
                let ghost before = self.entries@;
                let entry = &mut self.entries[i];
                let h = &mut entry.1;
                proof {
                    lemma_pairs_map_update(before, i as int, *final(h));
                }
                Some(h)
            },
            None => {
                proof {
                    lemma_absent_key(self.entries@, key);
                }
                None
            },
        }
    }

    fn insert(&mut self, k: u64, v: V) -> (r: Option<V>) {
        match self.find(k) {
            Some(i) => {
                proof {
                    lemma_pairs_map_index(self.entries@, i as int);
                    lemma_pairs_map_update(self.entries@, i as int, v);
                }
                let mut v = v;
                let entry = &mut self.entries[i];
                core::mem::swap(&mut entry.1, &mut v);
                Some(v)
            },
            None => {
                proof {
                    lemma_absent_key(self.entries@, k);
                }
                self.make_room();
                proof {
                    lemma_push_fresh(self.entries@, k, v);
                }
                self.entries.push((k, v));
                None
            },
        }
    }
}

impl<V> CopyDictionary<u64, V> for VecDictionary<V> {
    proof fn lemma_fresh_keys_fit(&self, key: u64, value: V) {
    }

    fn remove(&mut self, k: u64) -> (r: Option<V>)
        ensures
            final(self).spec_capacity() == old(self).spec_capacity(),
    {
        match self.find(k) {
            Some(i) => {
                proof {
                    lemma_pairs_map_index(self.entries@, i as int);
                    lemma_pairs_map_remove(self.entries@, i as int);
                }
                let pair = self.entries.remove(i);
                Some(pair.1)
            },
            None => {
                proof {
                    lemma_absent_key(self.entries@, k);
                    assert(self@.remove(k) =~= self@);
                }
                None
            },
        }
    }
}

/// Traversal goes over the values, in the order in which their keys were first
/// inserted; the keys stay as they are.
impl<V> Iterable<V> for VecDictionary<V> {
    closed spec fn spec_items(&self) -> Seq<V> {
        self.entries@.map_values(|p: (u64, V)| p.1)
    }

    fn into_items(self) -> (r: Vec<V>) {
        let ghost values = self.spec_items();
        let mut entries = self.entries;
        let mut reversed: Vec<V> = Vec::new();
        while entries.len() > 0
            invariant
                values.len() == entries@.len() + reversed@.len(),
                forall|i: int| 0 <= i < entries@.len() ==> #[trigger] entries@[i].1 == values[i],
                forall|i: int|
                    0 <= i < reversed@.len() ==> #[trigger] reversed@[i] == values[values.len() - 1 - i],
            decreases entries@.len(),
        {
            let pair = entries.pop().unwrap();
            reversed.push(pair.1);
        }
        let mut r: Vec<V> = Vec::new();
        while reversed.len() > 0
            invariant
                values.len() == r@.len() + reversed@.len(),
                forall|i: int| 0 <= i < r@.len() ==> #[trigger] r@[i] == values[i],
                forall|i: int|
                    0 <= i < reversed@.len() ==> #[trigger] reversed@[i] == values[values.len() - 1 - i],
            decreases reversed@.len(),
        {
            let v = reversed.pop().unwrap();
            r.push(v);
        }
        assert(r@ =~= values);
        r
    }

    fn items(&self) -> (r: Vec<&V>) {
        let mut r: Vec<&V> = Vec::new();
        let mut i: usize = 0;
        while i < self.entries.len()
            invariant
                i <= self.entries@.len(),
                r@.len() == i,
                forall|j: int| 0 <= j < i ==> *#[trigger] r@[j] == self.spec_items()[j],
            decreases self.entries@.len() - i,
        {
            r.push(&self.entries[i].1);
            i = i + 1;
        }
        r
    }

    fn item_mut(&mut self, i: usize) -> (r: &mut V)
        ensures
            old(self).well_formed() ==> final(self).well_formed(),
            final(self).spec_keys() == old(self).spec_keys(),
            final(self).spec_len() == old(self).spec_len(),
            final(self).spec_capacity() == old(self).spec_capacity(),
            old(self).well_formed() ==> final(self)@ == old(self)@.insert(
                old(self).spec_keys()[i as int],
                *final(r),
            ),
    {
        let ghost before = self.entries@;
        let entry = &mut self.entries[i];
        let h = &mut entry.1;
        proof {
            if keys_unique(before) {
                lemma_pairs_map_update(before, i as int, *final(h));
            }
            let after = before.update(i as int, (before[i as int].0, *final(h)));
            assert(after.map_values(|p: (u64, V)| p.1) =~= before.map_values(|p: (u64, V)| p.1).update(
                i as int,
                *final(h),
            ));
            assert(after.map_values(|p: (u64, V)| p.0) =~= before.map_values(|p: (u64, V)| p.0));
        }
        h
    }
}

} // verus!
