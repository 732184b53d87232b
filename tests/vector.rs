use data_structures::vector::Vector;
use std::cell::Cell;
use std::rc::Rc;

#[test]
fn vector_test_new() {
    let v: Vector<i32> = Vector::new();
    assert_eq!(v.len(), 0);
    assert_eq!(v.capacity(), 0);
    assert!(v.is_empty());
}

#[test]
fn test_push() {
    let mut v = Vector::new();
    v.push(1);
    v.push(2);
    v.push(3);

    assert_eq!(v.len(), 3);
    assert_eq!(v.capacity(), 4);
    assert!(!v.is_empty());
}

#[test]
fn test_insert() {
    let mut v = Vector::new();
    v.push(1);
    v.push(2);
    v.push(3);

    v.insert(1, 4);

    assert_eq!(v.len(), 4);
    assert_eq!(v.capacity(), 4);
    assert_eq!(v[0], 1);
    assert_eq!(v[1], 4);
    assert_eq!(v[2], 2);
    assert_eq!(v[3], 3);
}

#[test]
fn test_prepend() {
    let mut v = Vector::new();
    v.push(1);
    v.push(2);
    v.push(3);

    v.prepend(4);

    assert_eq!(v.len(), 4);
    assert_eq!(v.capacity(), 4);
    assert_eq!(v[0], 4);
    assert_eq!(v[1], 1);
    assert_eq!(v[2], 2);
    assert_eq!(v[3], 3);
}

#[test]
fn test_pop() {
    let mut v = Vector::new();
    v.push(1);
    v.push(2);
    v.push(3);

    assert_eq!(v.pop(), Some(3));
    assert_eq!(v.pop(), Some(2));
    assert_eq!(v.pop(), Some(1));
    assert_eq!(v.pop(), None);
}

#[test]
fn vector_test_remove() {
    let mut v = Vector::new();
    v.push(1);
    v.push(2);
    v.push(3);

    assert_eq!(v.remove(1), 2);
    assert_eq!(v.len(), 2);
    assert_eq!(v.capacity(), 4);
    assert_eq!(v[0], 1);
    assert_eq!(v[1], 3);
}

#[test]
fn test_index() {
    let mut v = Vector::new();
    v.push(1);
    v.push(2);
    v.push(3);

    assert_eq!(v[0], 1);
    assert_eq!(v[1], 2);
    assert_eq!(v[2], 3);
}

#[test]
#[should_panic]
fn test_index_out_of_bounds() {
    let mut v = Vector::new();
    v.push(1);
    v.push(2);
    v.push(3);

    let _ = v[3];
}

#[test]
#[should_panic]
fn test_insert_out_of_bounds() {
    let mut v = Vector::new();
    v.push(1);
    v.push(2);
    v.push(3);

    v.insert(4, 4);
}

#[test]
#[should_panic]
fn vector_test_remove_out_of_bounds() {
    let mut v = Vector::new();
    v.push(1);
    v.push(2);
    v.push(3);

    v.remove(3);
}

#[test]
fn insert_at_length_appends() {
    let mut v = Vector::new();
    v.push(1);
    v.push(2);
    v.insert(2, 9);
    assert_eq!(v.len(), 3);
    assert_eq!(*v.index(2), 9);
    assert_eq!(v.capacity(), 4);
}

#[test]
fn insert_into_empty_allocates_one_slot() {
    let mut v = Vector::new();
    v.insert(0, 7);
    assert_eq!(v.len(), 1);
    assert_eq!(v.capacity(), 1);
    assert_eq!(v[0], 7);
}

#[test]
fn capacity_is_least_power_of_two_after_pushes() {
    let mut v = Vector::new();
    assert_eq!(v.capacity(), 0);
    let expected = [1usize, 2, 4, 4, 8, 8, 8, 8, 16, 16, 16, 16, 16, 16, 16, 16, 32];
    for (k, want) in expected.iter().enumerate() {
        v.push(k as u64);
        assert_eq!(v.capacity(), *want);
        assert!(v.len() <= v.capacity());
    }
}

#[test]
fn pushed_values_survive_growth() {
    let mut v = Vector::new();
    for i in 0..100u32 {
        v.push(i * 3);
        for j in 0..=i {
            assert_eq!(v[j as usize], j * 3);
        }
    }
    assert_eq!(v.len(), 100);
    assert_eq!(v.capacity(), 128);
}

#[test]
fn length_within_capacity_under_mixed_operations() {
    let mut v = Vector::new();
    for i in 0..40i64 {
        match i % 5 {
            0 | 1 => v.push(i),
            2 => v.prepend(i),
            3 => {
                let _ = v.pop();
            }
            _ => {
                if !v.is_empty() {
                    let _ = v.remove(0);
                }
            }
        }
        assert!(v.len() <= v.capacity());
    }
}

#[test]
fn removal_keeps_capacity() {
    let mut v = Vector::new();
    for i in 0..5 {
        v.push(i);
    }
    assert_eq!(v.capacity(), 8);
    while v.pop().is_some() {}
    assert_eq!(v.len(), 0);
    assert_eq!(v.capacity(), 8);
    assert!(v.is_empty());
}

struct DropCounter {
    drops: Rc<Cell<usize>>,
}

impl Drop for DropCounter {
    fn drop(&mut self) {
        self.drops.set(self.drops.get() + 1);
    }
}

#[test]
fn every_element_is_dropped_exactly_once() {
    let drops = Rc::new(Cell::new(0usize));
    let made = 20usize;
    {
        let mut v = Vector::new();
        for _ in 0..made {
            v.push(DropCounter { drops: drops.clone() });
        }
        v.insert(3, DropCounter { drops: drops.clone() });
        v.prepend(DropCounter { drops: drops.clone() });
        assert_eq!(drops.get(), 0);
        let removed = v.remove(5);
        assert_eq!(drops.get(), 0);
        drop(removed);
        assert_eq!(drops.get(), 1);
        let popped = v.pop();
        assert_eq!(drops.get(), 1);
        drop(popped);
        assert_eq!(drops.get(), 2);
        assert_eq!(v.len(), made);
    }
    assert_eq!(drops.get(), made + 2);
}
