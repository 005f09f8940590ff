//! A persistent singly-linked list: lists share their tails through
//! reference-counted nodes, and no operation changes an existing list.

use std::rc::Rc;
use vstd::prelude::*;

verus! {

/// An immutable list; `prepend` and `tail` make new lists that share nodes
/// with the old one.
pub struct List<T> {
    head: Link<T>,
}

type Link<T> = Option<Rc<Node<T>>>;

struct Node<T> {
    elem: T,
    next: Link<T>,
}

/// The elements from the node behind `link` to the end of the list.
spec fn elems<T>(link: Link<T>) -> Seq<T>
    decreases link,
{
    match link {
        None => Seq::empty(),
        Some(node) => seq![node.elem] + elems(node.next),
    }
}

/// `Rc::clone`: a second pointer to the same node.
#[verifier::external_body]
fn share<T>(node: &Rc<Node<T>>) -> (shared: Rc<Node<T>>)
    ensures
        shared == *node,
{
    Rc::clone(node)
}

/// `Rc::try_unwrap`: the node itself when no other pointer shares it, else
/// the pointer back. It neither panics nor blocks.
#[verifier::external_body]
fn unshare<T>(node: Rc<Node<T>>) -> (owned: Result<Node<T>, Rc<Node<T>>>)
    ensures
        owned is Ok ==> owned->Ok_0 == *node,
        owned is Err ==> owned->Err_0 == node,
    opens_invariants none
    no_unwind
{
    Rc::try_unwrap(node)
}

fn share_link<T>(link: &Link<T>) -> (shared: Link<T>)
    ensures
        shared == *link,
{
    match link {
        Some(node) => Some(share(node)),
        None => None,
    }
}

impl<T> View for List<T> {
    type V = Seq<T>;

    /// The elements, the head of the list first.
    closed spec fn view(&self) -> Seq<T> {
        elems(self.head)
    }
}

impl<T> List<T> {
    /// Creates an empty list.
    pub fn new() -> (list: Self)
        ensures
            list@ == Seq::<T>::empty(),
    {
        List { head: None }
    }

    /// Returns the list that has `elem` in front of the elements of this one.
    pub fn prepend(&self, elem: T) -> (list: List<T>)
        ensures
            list@ == seq![elem] + self@,
    {
        List { head: Some(Rc::new(Node { elem: elem, next: share_link(&self.head) })) }
    }

    /// Returns the list without its first element; the tail of an empty list
    /// is empty.
    pub fn tail(&self) -> (list: List<T>)
        ensures
            self@.len() == 0 ==> list@ == Seq::<T>::empty(),
            self@.len() > 0 ==> list@ == self@.drop_first(),
    {
        match &self.head {
            Some(node) => {
                assert(elems(node.next) =~= self@.drop_first());
                List { head: share_link(&node.next) }
            },
            None => List { head: None },
        }
    }

    /// Returns the first element, or `None` when the list is empty.
    pub fn head(&self) -> (first: Option<&T>)
        ensures
            self@.len() == 0 ==> first.is_none(),
            self@.len() > 0 ==> first == Some(&self@[0]),
    {
        match &self.head {
            Some(node) => Some(&node.elem),
            None => None,
        }
    }
}

/// A walk over the elements of a list, from its head on.
pub struct Iter<'a, T> {
    next: Option<&'a Node<T>>,
}

impl<'a, T> View for Iter<'a, T> {
    type V = Seq<T>;

    /// The elements that the walk has still to yield, in order.
    closed spec fn view(&self) -> Seq<T> {
        match self.next {
            None => Seq::empty(),
            Some(node) => seq![node.elem] + elems(node.next),
        }
    }
}

impl<T> List<T> {
    /// Starts a walk over all elements of the list.
    pub fn iter(&self) -> (iter: Iter<'_, T>)
        ensures
            iter@ == self@,
    {
        match &self.head {
            Some(node) => Iter { next: Some(&**node) },
            None => Iter { next: None },
        }
    }
}

impl<'a, T> Iter<'a, T> {
    /// Yields the next element and moves on, or returns `None` at the end.
    pub fn next(&mut self) -> (item: Option<&'a T>)
        ensures
            old(self)@.len() == 0 ==> item.is_none(),
            old(self)@.len() == 0 ==> final(self)@ == old(self)@,
            old(self)@.len() > 0 ==> item == Some(&old(self)@[0]),
            old(self)@.len() > 0 ==> final(self)@ == old(self)@.drop_first(),
    {
        match self.next {
            Some(node) => {
                self.next = match &node.next {
                    Some(following) => Some(&**following),
                    None => None,
                };
                assert(self@ =~= old(self)@.drop_first());
                Some(&node.elem)
            },
            None => None,
        }
    }
}

impl<T> Drop for List<T> {
    /// Frees the nodes that no other list shares, one after the other, and
    /// stops at the first node that another list still holds.
    fn drop(&mut self)
        opens_invariants none
        no_unwind
    {
        let mut head: Link<T> = None;
        std::mem::swap(&mut self.head, &mut head);
        loop
            decreases elems(head).len(),
        {
            match head {
                Some(node) => {
                    match unshare(node) {
                        Ok(real_node) => {
                            head = real_node.next;
                        },
                        _ => {
                            return ;
                        },
                    }
                },
                None => {
                    break ;
                },
            }
        }
    }
}

} // verus!
