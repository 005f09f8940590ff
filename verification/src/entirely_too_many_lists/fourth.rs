//! A double-ended queue with the interface of a doubly-linked list.
//!
//! The elements are kept in a ring buffer, so that both ends are reached in
//! constant time without any shared ownership between nodes.

use std::collections::VecDeque;
use vstd::prelude::*;

verus! {

/// A deque whose view is the sequence of its elements, the head at index 0
/// and the tail at the last index.
#[derive(Debug)]
pub struct List<T> {
    items: VecDeque<T>,
}

/// `VecDeque::front_mut`: a mutable reference to the first element, or `None`
/// for an empty deque. Whatever is written through the reference becomes the
/// first element; nothing else changes.
#[verifier::external_body]
fn front_mut<T>(items: &mut VecDeque<T>) -> (front: Option<&mut T>)
    ensures
        old(items)@.len() == 0 ==> front.is_none(),
        old(items)@.len() == 0 ==> final(items)@ == old(items)@,
        old(items)@.len() > 0 ==> front.is_some(),
        old(items)@.len() > 0 ==> *front.unwrap() == old(items)@[0],
        old(items)@.len() > 0 ==> final(items)@ == old(items)@.update(0, *final(front.unwrap())),
{
    items.front_mut()
}

/// `VecDeque::back_mut`: a mutable reference to the last element, or `None`
/// for an empty deque. Whatever is written through the reference becomes the
/// last element; nothing else changes.
#[verifier::external_body]
fn back_mut<T>(items: &mut VecDeque<T>) -> (back: Option<&mut T>)
    ensures
        old(items)@.len() == 0 ==> back.is_none(),
        old(items)@.len() == 0 ==> final(items)@ == old(items)@,
        old(items)@.len() > 0 ==> back.is_some(),
        old(items)@.len() > 0 ==> *back.unwrap() == old(items)@.last(),
        old(items)@.len() > 0 ==> final(items)@ == old(items)@.update(
            old(items)@.len() - 1,
            *final(back.unwrap()),
        ),
{
    items.back_mut()
}

impl<T> View for List<T> {
    type V = Seq<T>;

    closed spec fn view(&self) -> Seq<T> {
        self.items@
    }
}

impl<T> List<T> {
    /// Creates an empty deque.
    pub fn new() -> (list: Self)
        ensures
            list@ == Seq::<T>::empty(),
    {
        Self { items: VecDeque::new() }
    }

    /// Appends an element to the head of the list.
    pub fn push_front(&mut self, elem: T)
        ensures
            final(self)@ == seq![elem] + old(self)@,
    {
        self.items.push_front(elem);
    }

    /// Pops the element at the head of the list.
    /// `None` is returned, and nothing changes, if the list is empty.
    pub fn pop_front(&mut self) -> (popped: Option<T>)
        ensures
            old(self)@.len() == 0 ==> popped.is_none(),
            old(self)@.len() == 0 ==> final(self)@ == old(self)@,
            old(self)@.len() > 0 ==> popped == Some(old(self)@[0]),
            old(self)@.len() > 0 ==> final(self)@ == old(self)@.drop_first(),
    {
        let popped = self.items.pop_front();
        proof {
            if old(self)@.len() > 0 {
                assert(self@ =~= old(self)@.drop_first());
            }
        }
        popped
    }

    /// Returns a reference to the element at the head of the list.
    /// `None` is returned if the list is empty.
    pub fn peek_front(&self) -> (front: Option<&T>)
        ensures
            self@.len() == 0 ==> front.is_none(),
            self@.len() > 0 ==> front == Some(&self@[0]),
    {
        if self.items.len() == 0 {
            None
        } else {
            Some(&self.items[0])
        }
    }

    /// Appends an element to the tail of the list.
    pub fn push_back(&mut self, elem: T)
        ensures
            final(self)@ == old(self)@.push(elem),
    {
        self.items.push_back(elem);
    }

    /// Pops the element at the tail of the list.
    /// `None` is returned, and nothing changes, if the list is empty.
    pub fn pop_back(&mut self) -> (popped: Option<T>)
        ensures
            old(self)@.len() == 0 ==> popped.is_none(),
            old(self)@.len() == 0 ==> final(self)@ == old(self)@,
            old(self)@.len() > 0 ==> popped == Some(old(self)@.last()),
            old(self)@.len() > 0 ==> final(self)@ == old(self)@.drop_last(),
    {
        let popped = self.items.pop_back();
        proof {
            if old(self)@.len() > 0 {
                assert(self@ =~= old(self)@.drop_last());
            }
        }
        popped
    }

    /// Returns a reference to the element at the tail of the list.
    /// `None` is returned if the list is empty. The list is not changed.
    pub fn peek_back(&mut self) -> (back: Option<&T>)
        ensures
            final(self)@ == old(self)@,
            old(self)@.len() == 0 ==> back.is_none(),
            old(self)@.len() > 0 ==> back == Some(&old(self)@.last()),
    {
        let len = self.items.len();
        if len == 0 {
            None
        } else {
            Some(&self.items[len - 1])
        }
    }

    /// Returns a mutable reference to the element at the tail of the list.
    /// `None` is returned if the list is empty. What is written through the
    /// reference becomes the last element.
    pub fn peek_back_mut(&mut self) -> (back: Option<&mut T>)
        ensures
            old(self)@.len() == 0 ==> back.is_none(),
            old(self)@.len() == 0 ==> final(self)@ == old(self)@,
            old(self)@.len() > 0 ==> back.is_some(),
            old(self)@.len() > 0 ==> *back.unwrap() == old(self)@.last(),
            old(self)@.len() > 0 ==> final(self)@ == old(self)@.update(
                old(self)@.len() - 1,
                *final(back.unwrap()),
            ),
    {
        back_mut(&mut self.items)
    }

    /// Returns a mutable reference to the element at the head of the list.
    /// `None` is returned if the list is empty. What is written through the
    /// reference becomes the first element.
    pub fn peek_front_mut(&mut self) -> (front: Option<&mut T>)
        ensures
            old(self)@.len() == 0 ==> front.is_none(),
            old(self)@.len() == 0 ==> final(self)@ == old(self)@,
            old(self)@.len() > 0 ==> front.is_some(),
            old(self)@.len() > 0 ==> *front.unwrap() == old(self)@[0],
            old(self)@.len() > 0 ==> final(self)@ == old(self)@.update(0, *final(front.unwrap())),
    {
        front_mut(&mut self.items)
    }
}

/// A walk that takes the elements out of a list, from either end.
pub struct IntoIter<T>(List<T>);

impl<T> View for IntoIter<T> {
    type V = Seq<T>;

    /// The elements that have not been taken out yet, head first.
    closed spec fn view(&self) -> Seq<T> {
        self.0@
    }
}

impl<T> List<T> {
    /// Returns a walk that hands out the values of the list from head to
    /// tail.
    pub fn into_iter(self) -> (iter: IntoIter<T>)
        ensures
            iter@ == self@,
    {
        IntoIter(self)
    }
}

impl<T> IntoIter<T> {
    /// Takes out the element at the head, or returns `None` when nothing is
    /// left.
    pub fn next(&mut self) -> (item: Option<T>)
        ensures
            old(self)@.len() == 0 ==> item.is_none(),
            old(self)@.len() == 0 ==> final(self)@ == old(self)@,
            old(self)@.len() > 0 ==> item == Some(old(self)@[0]),
            old(self)@.len() > 0 ==> final(self)@ == old(self)@.drop_first(),
    {
        self.0.pop_front()
    }

    /// Takes out the element at the tail, or returns `None` when nothing is
    /// left.
    pub fn next_back(&mut self) -> (item: Option<T>)
        ensures
            old(self)@.len() == 0 ==> item.is_none(),
            old(self)@.len() == 0 ==> final(self)@ == old(self)@,
            old(self)@.len() > 0 ==> item == Some(old(self)@.last()),
            old(self)@.len() > 0 ==> final(self)@ == old(self)@.drop_last(),
    {
        self.0.pop_back()
    }
}

/// A walk over references to the elements of a list, from head to tail.
pub struct Iter<'a, T> {
    list: &'a List<T>,
    position: usize,
}

impl<'a, T> View for Iter<'a, T> {
    type V = Seq<T>;

    /// The elements that the walk has still to yield, in order.
    closed spec fn view(&self) -> Seq<T> {
        if self.position <= self.list@.len() {
            self.list@.subrange(self.position as int, self.list@.len() as int)
        } else {
            Seq::empty()
        }
    }
}

impl<T> List<T> {
    /// Starts a walk over all elements of the list.
    pub fn iter(&self) -> (iter: Iter<'_, T>)
        ensures
            iter@ == self@,
    {
        let iter = Iter { list: self, position: 0 };
        assert(iter@ =~= self@);
        iter
    }
}

impl<'a, T> Iter<'a, T> {
    /// Yields the next element and moves on, or returns `None` at the end.
    pub fn next(&mut self) -> (item: Option<&'a T>)
        ensures
            old(self)@.len() == 0 ==> item.is_none(),
            old(self)@.len() == 0 ==> final(self)@ == old(self)@,
            old(self)@.len() > 0 ==> item == Some(&old(self)@[0]),
            old(self)@.len() > 0 ==> final(self)@ == old(self)@.drop_first(),
    {
        if self.position < self.list.items.len() {
            let item = &self.list.items[self.position];
            self.position = self.position + 1;
            assert(self@ =~= old(self)@.drop_first());
            Some(item)
        } else {
            None
        }
    }
}

} // verus!
