//! # Queue
//!
//! A queue is a linear container that follows the first-in-first-out (FIFO)
//! principle: elements are added at the rear and removed from the front,
//! keeping their arrival order. The view of a queue lists its elements from
//! front to rear, so the front of the queue is the first element of the view.

use std::collections::VecDeque;
use vstd::prelude::*;

verus! {

/// A FIFO queue backed by a double-ended array queue.
#[derive(Debug)]
pub struct Queue<T> {
    data: VecDeque<T>,
}

impl<T> View for Queue<T> {
    type V = Seq<T>;

    closed spec fn view(&self) -> Seq<T> {
        self.data@
    }
}

impl<T> Queue<T> {
    /// Creates a new empty queue.
    pub fn new() -> (queue: Self)
        ensures
            queue@ == Seq::<T>::empty(),
    {
        Queue { data: VecDeque::new() }
    }

    /// Adds an element to the rear of the queue.
    pub fn enqueue(&mut self, element: T)
        ensures
            final(self)@ == old(self)@.push(element),
    {
        self.data.push_back(element)
    }

    /// Removes and returns the front element, or `None` when the queue is
    /// empty.
    pub fn dequeue(&mut self) -> (element: Option<T>)
        ensures
            old(self)@.len() == 0 ==> element is None && final(self)@ == old(self)@,
            old(self)@.len() > 0 ==> element == Some(old(self)@[0])
                && final(self)@ == old(self)@.drop_first(),
    {
        self.data.pop_front()
    }

    /// Reports whether the queue holds no elements.
    pub fn is_null(&mut self) -> (empty: bool)
        ensures
            empty <==> old(self)@.len() == 0,
            final(self)@ == old(self)@,
    {
        self.data.len() == 0
    }

    /// Returns a reference to the front element without removing it, or
    /// `None` when the queue is empty.
    pub fn peek(&mut self) -> (front: Option<&T>)
        ensures
            final(self)@ == old(self)@,
            (match front {
                Some(element) => old(self)@.len() > 0 && *element == old(self)@[0],
                None => old(self)@.len() == 0,
            }),
    {
        if self.data.len() == 0 {
            None
        } else {
            Some(&self.data[0])
        }
    }
}

} // verus!
