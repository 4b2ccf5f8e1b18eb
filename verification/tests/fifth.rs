use std::cell::{Cell, RefCell};
use std::collections::HashMap;
use std::rc::Rc;

use rustlab::fifth::List;

#[test]
fn fifth_basics() {
    let mut list = List::new();

    // Check empty list behaves right
    assert_eq!(list.pop(), None);

    // Populate list
    list.push(1);
    list.push(2);
    list.push(3);

    // Check normal removal
    assert_eq!(list.pop(), Some(1));
    assert_eq!(list.pop(), Some(2));

    // Push some more just to make sure nothing's corrupted
    list.push(4);
    list.push(5);

    // Check normal removal
    assert_eq!(list.pop(), Some(3));
    assert_eq!(list.pop(), Some(4));

    // Check exhaustion
    assert_eq!(list.pop(), Some(5));
    assert_eq!(list.pop(), None);

    // Check the exhaustion case fixed the pointer right
    list.push(6);
    list.push(7);

    // Check normal removal
    assert_eq!(list.pop(), Some(6));
    assert_eq!(list.pop(), Some(7));
    assert_eq!(list.pop(), None);
}

#[test]
fn test_cell() {
    let hashcell = Rc::new(RefCell::new(HashMap::new()));
    {
        let mut map = hashcell.borrow_mut();
        map.insert("key1", 10);
        map.insert("key2", 10);
        map.insert("key3", 10);
    }
    let total: i32 = hashcell.borrow().values().sum();
    println!("total: {total}");
    let _a = Cell::new("g".to_uppercase().to_string());
}

#[test]
fn fifth_queue_keeps_order_of_owned_values() {
    let mut list: List<String> = List::new();
    list.push("a".to_string());
    list.push("b".to_string());
    assert_eq!(list.pop(), Some("a".to_string()));
    list.push("c".to_string());
    assert_eq!(list.pop(), Some("b".to_string()));
    assert_eq!(list.pop(), Some("c".to_string()));
    assert_eq!(list.pop(), None);
}

#[test]
fn fifth_push_behind_single_value() {
    let mut list = List::new();
    list.push(10u64);
    list.push(20u64);
    assert_eq!(list.pop(), Some(10));
    assert_eq!(list.pop(), Some(20));
}
