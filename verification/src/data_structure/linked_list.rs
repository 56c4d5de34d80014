//! # Linked list
//!
//! A singly linked list of nodes, each owning an element and the link to its
//! successor. Elements are pushed and popped at the head, and the list keeps
//! a running count of its nodes. The view of a list gives its elements from
//! head to tail.

use vstd::prelude::*;

verus! {

/// One cell of the list: an element and the link to its successor.
#[derive(Debug)]
pub struct Node<T> {
    data: T,
    next: Option<Box<Node<T>>>,
}

/// The elements reachable from `node`, head first.
spec fn links_view<T>(node: Option<Box<Node<T>>>) -> Seq<T>
    decreases node,
{
    match node {
        None => Seq::empty(),
        Some(n) => seq![n.data] + links_view(n.next),
    }
}

/// A singly linked list with a tracked length.
#[derive(Debug)]
pub struct List<T> {
    head: Option<Box<Node<T>>>,
    len: usize,
}

impl<T> View for List<T> {
    type V = Seq<T>;

    closed spec fn view(&self) -> Seq<T> {
        links_view(self.head)
    }
}

impl<T> List<T> {
    /// The tracked length agrees with the number of reachable nodes.
    pub closed spec fn wf(&self) -> bool {
        self.len == links_view(self.head).len()
    }

    /// Creates a new empty linked list.
    pub fn new() -> (list: Self)
        ensures
            list.wf(),
            list@ == Seq::<T>::empty(),
    {
        List { head: None, len: 0 }
    }

    /// Prepends an element as the new head of the list.
    pub fn push(&mut self, data: T)
        requires
            old(self).wf(),
            old(self)@.len() < usize::MAX,
        ensures
            final(self).wf(),
            final(self)@ == seq![data] + old(self)@,
    {
        let new_node = Box::new(Node { data, next: self.head.take() });
        self.head = Some(new_node);
        self.len = self.len + 1;
    }

    /// Removes and returns the head element, or `None` when the list is
    /// empty.
    pub fn pop(&mut self) -> (element: Option<T>)
        requires
            old(self).wf(),
        ensures
            final(self).wf(),
            old(self)@.len() == 0 ==> element is None && final(self)@ == old(self)@,
            old(self)@.len() > 0 ==> element == Some(old(self)@[0])
                && final(self)@ == old(self)@.drop_first(),
    {
        match self.head.take() {
            None => None,
            Some(boxed_node) => {
                let node = *boxed_node;
                self.head = node.next;
                self.len = self.len - 1;
                proof {
                    assert(old(self)@.drop_first() =~= links_view(self.head));
                }
                Some(node.data)
            },
        }
    }

    /// Reports whether the list is empty.
    pub fn is_empty(&self) -> (empty: bool)
        ensures
            empty <==> self@.len() == 0,
    {
        self.head.is_none()
    }

    /// Returns the number of elements, as tracked by the list.
    pub fn size(&self) -> (n: usize)
        requires
            self.wf(),
        ensures
            n == self@.len(),
    {
        self.len
    }
}

} // verus!
