use data_structures::linked_list::LinkedList;

#[test]
fn linked_list_new() {
    let list: LinkedList<i32> = LinkedList::new();
    assert_eq!(list.len(), 0);
    assert!(list.is_empty());
}

#[test]
fn push_front() {
    let mut list = LinkedList::new();
    list.push_front(1);
    list.push_front(2);
    list.push_front(3);

    assert_eq!(list.len(), 3);
    assert_eq!(list.front(), Some(&3));
    assert_eq!(list.back(), Some(&1));
}

#[test]
fn push_back() {
    let mut list = LinkedList::new();
    list.push_back(1);
    list.push_back(2);
    list.push_back(3);

    assert_eq!(list.len(), 3);
    assert_eq!(list.front(), Some(&1));
    assert_eq!(list.back(), Some(&3));
}

#[test]
fn pop_front() {
    let mut list = LinkedList::new();
    list.push_back(1);
    list.push_back(2);
    list.push_back(3);

    assert_eq!(list.pop_front(), Some(1));
    assert_eq!(list.pop_front(), Some(2));
    assert_eq!(list.pop_front(), Some(3));
    assert_eq!(list.pop_front(), None);
}

#[test]
fn pop_back() {
    let mut list = LinkedList::new();
    list.push_back(1);
    list.push_back(2);
    list.push_back(3);

    assert_eq!(list.pop_back(), Some(3));
    assert_eq!(list.pop_back(), Some(2));
    assert_eq!(list.pop_back(), Some(1));
    assert_eq!(list.pop_back(), None);
}

#[test]
fn linked_list_remove() {
    let mut list = LinkedList::new();
    list.push_back(1);
    list.push_back(2);
    list.push_back(3);

    assert_eq!(list.remove(1), 2);
    assert_eq!(list.remove(0), 1);
    assert_eq!(list.remove(0), 3);
}

#[test]
fn front() {
    let mut list = LinkedList::new();
    list.push_back(1);
    list.push_back(2);
    list.push_back(3);

    assert_eq!(list.front(), Some(&1));
}

#[test]
fn back() {
    let mut list = LinkedList::new();
    list.push_back(1);
    list.push_back(2);
    list.push_back(3);

    assert_eq!(list.back(), Some(&3));
}

#[test]
fn is_empty() {
    let mut list = LinkedList::new();
    assert!(list.is_empty());

    list.push_back(1);
    assert!(!list.is_empty());
}

#[test]
fn len() {
    let mut list = LinkedList::new();
    assert_eq!(list.len(), 0);

    list.push_back(1);
    assert_eq!(list.len(), 1);

    list.push_back(2);
    assert_eq!(list.len(), 2);

    list.push_back(3);
    assert_eq!(list.len(), 3);
}

#[test]
fn empty_list_has_no_ends() {
    let list: LinkedList<u8> = LinkedList::new();
    assert_eq!(list.front(), None);
    assert_eq!(list.back(), None);
}

#[test]
fn remove_last_position() {
    let mut list = LinkedList::new();
    for i in 0..5 {
        list.push_back(i);
    }
    assert_eq!(list.remove(4), 4);
    assert_eq!(list.back(), Some(&3));
    assert_eq!(list.len(), 4);
}
