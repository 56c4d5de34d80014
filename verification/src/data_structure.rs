//! The container types: heap, linked list, queue and stack.

pub mod heap;
pub mod linked_list;
pub mod queue;
pub mod stack;
