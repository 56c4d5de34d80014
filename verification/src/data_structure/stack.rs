//! # Stack
//!
//! A stack is a linear container that follows the last-in-first-out (LIFO)
//! principle: elements are added to and removed from the top. The view of a
//! stack lists its elements from bottom to top, so the top of the stack is
//! the last element of the view.

use vstd::prelude::*;

verus! {

/// A LIFO stack backed by a growable array.
#[derive(Debug)]
pub struct Stack<T> {
    data: Vec<T>,
}

impl<T> View for Stack<T> {
    type V = Seq<T>;

    closed spec fn view(&self) -> Seq<T> {
        self.data@
    }
}

impl<T> Stack<T> {
    /// Creates a new empty stack.
    pub fn new() -> (stack: Self)
        ensures
            stack@ == Seq::<T>::empty(),
    {
        Stack { data: Vec::new() }
    }

    /// Adds an element to the top of the stack.
    pub fn push(&mut self, element: T)
        ensures
            final(self)@ == old(self)@.push(element),
    {
        self.data.push(element)
    }

    /// Removes and returns the top element, or `None` when the stack is
    /// empty.
    pub fn pop(&mut self) -> (element: Option<T>)
        ensures
            old(self)@.len() == 0 ==> element is None && final(self)@ == old(self)@,
            old(self)@.len() > 0 ==> element == Some(old(self)@.last())
                && final(self)@ == old(self)@.drop_last(),
    {
        self.data.pop()
    }

    /// Reports whether the stack holds no elements.
    pub fn is_null(&mut self) -> (empty: bool)
        ensures
            empty <==> old(self)@.len() == 0,
            final(self)@ == old(self)@,
    {
        self.data.is_empty()
    }

    /// Returns a reference to the top element without removing it, or `None`
    /// when the stack is empty.
    pub fn peek(&mut self) -> (top: Option<&T>)
        ensures
            final(self)@ == old(self)@,
            (match top {
                Some(element) => old(self)@.len() > 0 && *element == old(self)@.last(),
                None => old(self)@.len() == 0,
            }),
    {
        if self.data.len() == 0 {
            None
        } else {
            Some(&self.data[self.data.len() - 1])
        }
    }
}

} // verus!
