use learn_rust::entirely_too_many_lists::fourth::List;
use std::cell::{Ref, RefCell};

#[test]
fn cell_test() {
    let d = RefCell::new(3);
    let e = d.clone();
    *e.borrow_mut() = 4;
    println!("Value in d is {}", d.borrow());
    println!("Value in e is {}", e.borrow());
}

#[test]
fn refcell_map_test() {
    let c = RefCell::new((5, 'b'));
    let b1: Ref<(u32, char)> = c.borrow();
    let b2: Ref<u32> = Ref::map(b1, |t| &t.0);
    assert_eq!(*b2, 5);
}

#[test]
fn list_behind_a_refcell() {
    let shared = RefCell::new(List::new());
    shared.borrow_mut().push_back(5);
    shared.borrow_mut().push_back(6);
    *shared.borrow_mut().peek_front_mut().unwrap() = 50;
    assert_eq!(Some(&50), shared.borrow().peek_front());
    assert_eq!(Some(6), shared.borrow_mut().pop_back());
}
