use vstd::prelude::*;

verus! {

/// A container: it takes elements in and reports how many it holds.
///
/// Its contents are modelled by its view; how the elements are laid out is
/// left to each implementation.
pub trait Container<E>: View + Sized {
    /// The invariant that every operation of the container keeps.
    spec fn well_formed(&self) -> bool;

    /// The number of elements held.
    spec fn spec_len(&self) -> nat;

    /// The number of elements the container can hold without growing its
    /// storage. Only a container that shrinks on request (`DynamicContainer`)
    /// ever lowers it.
    spec fn spec_capacity(&self) -> nat;

    /// Whether `add` takes `element` in. This is the implementation's own
    /// bound (a keyed container takes a fresh key only, a bounded one has room).
    spec fn can_add(&self, element: E) -> bool;

    /// The contents after `add` has taken `element` in; each capability pins
    /// it down (a map: the pair is inserted).
    spec fn spec_add(&self, element: E) -> Self::V;

    /// Adds an element: it joins the contents, the count grows by exactly
    /// one, and the capacity does not go down.
    fn add(&mut self, element: E)
        requires
            old(self).well_formed(),
            old(self).can_add(element),
        ensures
            final(self).well_formed(),
            final(self)@ == old(self).spec_add(element),
            final(self).spec_len() == old(self).spec_len() + 1,
            final(self).spec_capacity() >= old(self).spec_capacity(),
    ;

    /// The number of elements held.
    fn len(&self) -> (r: usize)
        requires
            self.well_formed(),
        ensures
            r == self.spec_len(),
    ;
}

/// A container whose storage grows and shrinks on request.
pub trait DynamicContainer<E>: Container<E> {
    /// Makes room for at least `additional` more elements; the contents stay
    /// as they are and the capacity never goes down.
    fn reserve(&mut self, additional: usize)
        requires
            old(self).well_formed(),
            old(self).spec_len() + additional <= usize::MAX,
        ensures
            final(self).well_formed(),
            final(self)@ == old(self)@,
            final(self).spec_len() == old(self).spec_len(),
            final(self).spec_capacity() >= old(self).spec_capacity(),
            final(self).spec_capacity() >= old(self).spec_len() + additional,
    ;

    /// Gives back unused storage: the contents stay as they are, and the
    /// capacity goes down toward the length, never below it.
    fn shrink_to_fit(&mut self)
        requires
            old(self).well_formed(),
        ensures
            final(self).well_formed(),
            final(self)@ == old(self)@,
            final(self).spec_len() == old(self).spec_len(),
            final(self).spec_capacity() <= old(self).spec_capacity(),
            final(self).spec_capacity() >= final(self).spec_len(),
    ;

    /// The number of elements the container can hold without growing its
    /// storage; never less than the length.
    fn capacity(&self) -> (r: usize)
        requires
            self.well_formed(),
        ensures
            r == self.spec_capacity(),
            self.spec_len() <= r,
    ;
}

/// A container that hands out its items in one traversal order: by value,
/// by shared reference, and by mutable reference.
///
/// The order is the implementation's to choose and to document.
pub trait Iterable<T>: Sized {
    /// The items, in traversal order.
    spec fn spec_items(&self) -> Seq<T>;

    /// Consumes the container and gives its items, in traversal order.
    fn into_items(self) -> (r: Vec<T>)
        ensures
            r@ == self.spec_items(),
    ;

    /// References to the items, in traversal order.
    fn items(&self) -> (r: Vec<&T>)
        ensures
            r@.len() == self.spec_items().len(),
            forall|i: int| 0 <= i < r@.len() ==> *#[trigger] r@[i] == self.spec_items()[i],
    ;

    /// A mutable reference to the item at position `i` of the traversal;
    /// what is written through it is what the container holds there afterwards.
    fn item_mut(&mut self, i: usize) -> (r: &mut T)
        requires
            i < old(self).spec_items().len(),
        ensures
            *r == old(self).spec_items()[i as int],
            final(self).spec_items() == old(self).spec_items().update(i as int, *final(r)),
    ;
}

} // verus!
