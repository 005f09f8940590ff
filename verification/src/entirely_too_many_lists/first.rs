//! A singly-linked stack of `i32` built from boxed nodes.

use vstd::prelude::*;

verus! {

/// A stack of `i32` values; the element pushed last is at the head.
pub struct List {
    head: Link,
}

enum Link {
    Nil,
    More(Box<Node>),
}

struct Node {
    elem: i32,
    next: Link,
}

impl Link {
    /// The elements from this link to the end of the chain.
    spec fn elems(self) -> Seq<i32>
        decreases self,
    {
        match self {
            Link::Nil => Seq::empty(),
            Link::More(node) => seq![node.elem] + node.next.elems(),
        }
    }
}

impl View for List {
    type V = Seq<i32>;

    /// The elements from the head, at index 0, to the bottom of the stack.
    closed spec fn view(&self) -> Seq<i32> {
        self.head.elems()
    }
}

impl List {
    /// Creates an empty stack.
    pub fn new() -> (list: Self)
        ensures
            list@ == Seq::<i32>::empty(),
    {
        List { head: Link::Nil }
    }

    /// Puts `elem` on top of the stack.
    pub fn push(&mut self, elem: i32)
        ensures
            final(self)@ == seq![elem] + old(self)@,
    {
        let mut rest = Link::Nil;
        std::mem::swap(&mut self.head, &mut rest);
        let new_node = Box::new(Node { elem: elem, next: rest });
        self.head = Link::More(new_node);
    }

    /// Removes and returns the top of the stack. Returns `None`, and changes
    /// nothing, when the stack is empty.
    pub fn pop(&mut self) -> (popped: Option<i32>)
        ensures
            old(self)@.len() == 0 ==> popped.is_none(),
            old(self)@.len() == 0 ==> final(self)@ == old(self)@,
            old(self)@.len() > 0 ==> popped == Some(old(self)@[0]),
            old(self)@.len() > 0 ==> final(self)@ == old(self)@.drop_first(),
    {
        let mut taken = Link::Nil;
        std::mem::swap(&mut self.head, &mut taken);
        match taken {
            Link::Nil => None,
            Link::More(boxed_node) => {
                let node = *boxed_node;
                self.head = node.next;
                assert(self.head.elems() =~= old(self)@.drop_first());
                Some(node.elem)
            },
        }
    }
}

impl Drop for List {
    /// Frees the nodes one after the other, so that a long stack does not
    /// need a deep recursion to go away.
    fn drop(&mut self)
        opens_invariants none
        no_unwind
    {
        let mut cur_link = Link::Nil;
        std::mem::swap(&mut self.head, &mut cur_link);
        loop
            decreases cur_link.elems().len(),
        {
            match cur_link {
                Link::More(boxed_node) => {
                    let node = *boxed_node;
                    cur_link = node.next;
                },
                Link::Nil => {
                    break ;
                },
            }
        }
    }
}

} // verus!
