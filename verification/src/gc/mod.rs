//! An arena: values are allocated once and then reached through handles.
use std::marker::PhantomData;
use vstd::prelude::*;

verus! {

/// The heap allows you to allocate memory.
///
/// Values live for as long as the heap does; a `Gc` handle names one of
/// them, and any number of copies of a handle name the same value.
#[derive(Debug)]
pub struct Heap<T> {
    objects: Vec<T>,
}

/// A handle to a value allocated in a `Heap`.
#[derive(Debug)]
pub struct Gc<T> {
    index: usize,
    marker: PhantomData<T>,
}

impl<T> Clone for Gc<T> {
    fn clone(&self) -> (r: Self)
        ensures
            r == *self,
    {
        Gc { index: self.index, marker: PhantomData }
    }
}

impl<T> Copy for Gc<T> {

}

impl<T> Gc<T> {
    /// The position of the handle's value in its heap.
    pub closed spec fn spec_index(&self) -> nat {
        self.index as nat
    }
}

impl<T> View for Heap<T> {
    type V = Seq<T>;

    /// The allocated values, in the order they were allocated.
    closed spec fn view(&self) -> Seq<T> {
        self.objects@
    }
}

impl<T> Heap<T> {
    /// `gc` names a value of this heap.
    pub open spec fn holds(&self, gc: Gc<T>) -> bool {
        gc.spec_index() < self@.len()
    }

    /// An empty heap.
    pub fn new() -> (r: Self)
        ensures
            r@ == Seq::<T>::empty(),
    {
        Heap { objects: Vec::new() }
    }

    /// Moves `value` into the heap and returns a handle to it.
    pub fn allocate(&mut self, value: T) -> (gc: Gc<T>)
        ensures
            final(self)@ == old(self)@.push(value),
            gc.spec_index() == old(self)@.len(),
    {
        let index = self.objects.len();
        self.objects.push(value);
        Gc { index, marker: PhantomData }
    }

    /// The value that `gc` names.
    pub fn get(&self, gc: Gc<T>) -> (r: &T)
        requires
            self.holds(gc),
        ensures
            *r == self@[gc.spec_index() as int],
    {
        &self.objects[gc.index]
    }

    /// Replaces the value that `gc` names.
    pub fn set(&mut self, gc: Gc<T>, value: T)
        requires
            old(self).holds(gc),
        ensures
            final(self)@ == old(self)@.update(gc.spec_index() as int, value),
    {
        self.objects.set(gc.index, value);
    }
}

/// What a read through a handle gives back: the value last stored through
/// that handle, whatever was stored through other handles or allocated
/// since.
pub proof fn law_read_after_store<T>(h: Seq<T>, i: int, j: int, v: T, w: T)
    requires
        0 <= i < h.len(),
        0 <= j < h.len(),
    ensures
        h.update(i, v)[i] == v,
        i != j ==> h.update(j, w)[i] == h[i],
        h.push(w)[i] == h[i],
        h.push(w)[h.len() as int] == w,
{
}

} // verus!
