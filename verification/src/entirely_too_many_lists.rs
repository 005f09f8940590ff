//! Linked lists in several ownership styles, each with a sequence as its view.

pub mod first;
pub mod fourth;
pub mod third;
