//! Data structures with a mathematical view of their contents.

pub mod union_find;
