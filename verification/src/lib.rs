//! A small collection of classic linear and tree-based containers: a binary
//! max-heap with in-place heap-sort, a stack, a queue, and a singly linked
//! list. Each operation carries a contract that pins down its effect on the
//! container's abstract contents.

pub mod data_structure;
