//! A bounded history: once full, each new value pushes out the oldest.

use std::collections::VecDeque;
use vstd::prelude::*;
use vstd::std_specs::iter::IteratorSpec;

verus! {

/// A history of values, oldest first, bounded by a capacity.
///
/// A capacity of zero bounds nothing: pushes then keep every value.
pub struct RingBuffer<T> {
    buffer: VecDeque<T>,
    capacity: usize,
}

impl<T> RingBuffer<T> {
    /// The values held, oldest first.
    pub closed spec fn items(&self) -> Seq<T> {
        self.buffer@
    }

    /// The capacity the buffer was given last.
    pub closed spec fn spec_capacity(&self) -> usize {
        self.capacity
    }

    /// The buffer holds no more values than its capacity, unless that is zero.
    pub open spec fn well_formed(&self) -> bool {
        self.spec_capacity() == 0 || self.items().len() <= self.spec_capacity()
    }

    /// The values after pushing `value` onto `items` under `capacity`.
    pub open spec fn pushed(items: Seq<T>, capacity: usize, value: T) -> Seq<T> {
        if capacity > 0 && items.len() == capacity {
            items.drop_first().push(value)
        } else {
            items.push(value)
        }
    }

    /// An empty buffer with the given capacity.
    pub fn new(capacity: usize) -> (r: Self)
        ensures
            r.items() == Seq::<T>::empty(),
            r.spec_capacity() == capacity,
            r.well_formed(),
    {
        RingBuffer { buffer: VecDeque::with_capacity(capacity), capacity }
    }

    /// Appends `value`; a full buffer drops its oldest value first.
    pub fn push(&mut self, value: T)
        ensures
            final(self).items() == Self::pushed(old(self).items(), old(self).spec_capacity(), value),
            final(self).spec_capacity() == old(self).spec_capacity(),
            old(self).well_formed() ==> final(self).well_formed(),
    {
        if self.buffer.len() == self.capacity {
            let _ = self.buffer.pop_front();
        }
        self.buffer.push_back(value);
    }

    /// An iterator over the values, oldest first.
    pub fn iter(&self) -> (r: std::collections::vec_deque::Iter<'_, T>)
        ensures
            r.remaining() == self.items().as_ref(),
    {
        proof {
            broadcast use vstd::std_specs::vecdeque::group_vec_dequeue_axioms;
        }
        self.buffer.iter()
    }

    /// The value at `index`, counting from the oldest, if there is one.
    pub fn get(&self, index: usize) -> (r: Option<&T>)
        ensures
            match r {
                Some(v) => index < self.items().len() && *v == self.items()[index as int],
                None => index >= self.items().len(),
            },
    {
        if index < self.buffer.len() {
            Some(&self.buffer[index])
        } else {
            None
        }
    }

    /// Sets a new capacity and drops the newest values beyond it.
    pub fn update_capacity(&mut self, new_capacity: usize)
        ensures
            final(self).spec_capacity() == new_capacity,
            final(self).items() == if new_capacity < old(self).items().len() {
                old(self).items().take(new_capacity as int)
            } else {
                old(self).items()
            },
            final(self).well_formed(),
    {
        self.capacity = new_capacity;
        self.buffer.truncate(self.capacity);
    }

    /// The number of values held.
    pub fn len(&self) -> (r: usize)
        ensures
            r == self.items().len(),
    {
        self.buffer.len()
    }
}

} // verus!
