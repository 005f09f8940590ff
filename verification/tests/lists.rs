use learn_rust::entirely_too_many_lists::first;
use learn_rust::entirely_too_many_lists::fourth;
use learn_rust::entirely_too_many_lists::third;

#[test]
fn first_basics() {
    let mut list = first::List::new();

    assert_eq!(list.pop(), None);

    list.push(1);
    list.push(2);
    list.push(3);

    assert_eq!(list.pop(), Some(3));
    assert_eq!(list.pop(), Some(2));

    list.push(4);
    list.push(5);

    assert_eq!(list.pop(), Some(5));
    assert_eq!(list.pop(), Some(4));
    assert_eq!(list.pop(), Some(1));
    assert_eq!(list.pop(), None);
}

#[test]
fn first_drop_of_a_long_list() {
    let mut list = first::List::new();
    for i in 0..200_000 {
        list.push(i);
    }
    drop(list);
}

#[test]
fn third_basics() {
    let list = third::List::new();
    assert_eq!(list.head(), None);

    let list = list.prepend(1).prepend(2).prepend(3);
    assert_eq!(list.head(), Some(&3));

    let list = list.tail();
    assert_eq!(list.head(), Some(&2));

    let list = list.tail();
    assert_eq!(list.head(), Some(&1));

    let list = list.tail();
    assert_eq!(list.head(), None);

    // Make sure empty tail works
    let list = list.tail();
    assert_eq!(list.head(), None);
}

#[test]
fn third_lists_share_their_tail() {
    let base = third::List::new().prepend(1).prepend(2);
    let left = base.prepend(10);
    let right = base.prepend(20);

    assert_eq!(left.head(), Some(&10));
    assert_eq!(right.head(), Some(&20));
    assert_eq!(left.tail().head(), Some(&2));
    assert_eq!(right.tail().head(), Some(&2));
    assert_eq!(base.head(), Some(&2));

    drop(left);
    assert_eq!(base.tail().head(), Some(&1));
    assert_eq!(right.tail().tail().head(), Some(&1));
}

#[test]
fn third_iter() {
    let list = third::List::new().prepend(1).prepend(2).prepend(3);

    let mut iter = list.iter();
    assert_eq!(iter.next(), Some(&3));
    assert_eq!(iter.next(), Some(&2));
    assert_eq!(iter.next(), Some(&1));
    assert_eq!(iter.next(), None);
    assert_eq!(iter.next(), None);

    let empty: third::List<i32> = third::List::new();
    assert_eq!(empty.iter().next(), None);
}

#[test]
fn third_drop_of_a_long_list() {
    let mut list = third::List::new();
    for i in 0..200_000 {
        list = list.prepend(i);
    }
    let kept = list.tail();
    drop(list);
    assert_eq!(kept.head(), Some(&199_998));
}

#[test]
fn fourth_push_front_pop_front() {
    let mut list = fourth::List::new();

    list.push_front(3);
    list.push_front(4);

    assert_eq!(Some(4), list.pop_front());
    assert_eq!(Some(3), list.pop_front());
    assert_eq!(None, list.pop_front());
}

#[test]
fn fourth_push_back_pop_front() {
    let mut lst = fourth::List::<i32>::new();

    lst.push_back(3);
    lst.push_front(4);
    assert_eq!(Some(4), lst.pop_front());
    assert_eq!(Some(3), lst.pop_front());
    assert_eq!(None, lst.pop_front());
}

#[test]
fn fourth_pop_back() {
    let mut lst = fourth::List::<i32>::new();

    lst.push_back(3);
    lst.push_front(4);
    assert_eq!(Some(3), lst.pop_back());
    assert_eq!(Some(4), lst.pop_back());
    assert_eq!(None, lst.pop_front());
    assert_eq!(None, lst.pop_back());
}

#[test]
fn fourth_peek_front() {
    let mut lst = fourth::List::<i32>::new();
    assert!(lst.peek_front().is_none());

    lst.push_front(3);
    assert_eq!(3, *lst.peek_front().unwrap());

    lst.push_front(7);
    assert_eq!(7, *lst.peek_front().unwrap());
    assert_eq!(3, *lst.peek_back().unwrap());
}

#[test]
fn fourth_peek_back() {
    let mut lst = fourth::List::<i32>::new();

    lst.push_front(3);

    assert_eq!(3, *lst.peek_back().unwrap());

    lst.pop_back();

    assert_eq!(true, lst.peek_back().is_none());
}

#[test]
fn fourth_peek_back_mut() {
    let mut lst = fourth::List::<i32>::new();
    assert!(lst.peek_back_mut().is_none());

    lst.push_front(3);

    let r = lst.peek_back_mut();

    *r.unwrap() = 4;

    assert_eq!(4, lst.pop_back().unwrap());
}

#[test]
fn fourth_peek_front_mut() {
    let mut lst = fourth::List::<i32>::new();
    assert!(lst.peek_front_mut().is_none());

    lst.push_back(3);

    let r = lst.peek_front_mut();

    *r.unwrap() = 4;

    assert_eq!(4, lst.pop_back().unwrap());
}

#[test]
fn fourth_mutable_peeks_reach_their_own_end() {
    let mut lst = fourth::List::<i32>::new();
    lst.push_back(1);
    lst.push_back(2);
    lst.push_back(3);

    *lst.peek_front_mut().unwrap() = 10;
    *lst.peek_back_mut().unwrap() = 30;

    assert_eq!(Some(10), lst.pop_front());
    assert_eq!(Some(2), lst.pop_front());
    assert_eq!(Some(30), lst.pop_front());
    assert_eq!(None, lst.pop_front());
}

#[test]
fn fourth_into_iter() {
    let mut lst = fourth::List::new();

    lst.push_front(3);
    lst.push_front(4);
    lst.push_front(5);

    let mut iter = lst.into_iter();

    assert_eq!(Some(5), iter.next());
    assert_eq!(Some(4), iter.next());
    assert_eq!(Some(3), iter.next());
    assert_eq!(true, iter.next().is_none());
}

#[test]
fn fourth_into_iter_from_both_ends() {
    let mut lst = fourth::List::new();
    lst.push_back(1);
    lst.push_back(2);
    lst.push_back(3);
    lst.push_back(4);

    let mut iter = lst.into_iter();
    assert_eq!(Some(1), iter.next());
    assert_eq!(Some(4), iter.next_back());
    assert_eq!(Some(3), iter.next_back());
    assert_eq!(Some(2), iter.next());
    assert_eq!(None, iter.next_back());
    assert_eq!(None, iter.next());
}

#[test]
fn fourth_iter() {
    let mut lst = fourth::List::new();
    lst.push_back(1);
    lst.push_back(2);
    lst.push_front(0);

    let mut iter = lst.iter();
    assert_eq!(Some(&0), iter.next());
    assert_eq!(Some(&1), iter.next());
    assert_eq!(Some(&2), iter.next());
    assert_eq!(None, iter.next());
    assert_eq!(None, iter.next());

    assert_eq!(Some(0), lst.pop_front());
}
