use data_structures::hash_table_linear_probing::HashTable;

fn populate_hash_table(hash_table: &mut HashTable<i32>, from: i32, to: i32) {
    for i in from..to {
        let key = format!("key{}", i);
        hash_table.add(key.clone(), i);
    }
}

#[test]
fn hash_table_linear_probing_new() {
    let hash_table: HashTable<i32> = HashTable::new();
    assert_eq!(hash_table.slot_capacity(), 1);
    assert_eq!(hash_table.slot_count(), 1);
}

#[test]
fn add() {
    let mut hash_table: HashTable<i32> = HashTable::new();
    populate_hash_table(&mut hash_table, 0, 3);

    assert_eq!(hash_table.slot_count(), 3);
}

#[test]
fn key_exists() {
    let mut hash_table: HashTable<i32> = HashTable::new();
    populate_hash_table(&mut hash_table, 0, 3);

    for i in 0..3 {
        let key = format!("key{}", i);
        assert!(hash_table.contains_key(&key));
    }

    assert!(!hash_table.contains_key("key10"));
}

#[test]
fn get() {
    let mut hash_table: HashTable<i32> = HashTable::new();
    populate_hash_table(&mut hash_table, 0, 3);

    for i in 0..3 {
        let key = format!("key{}", i);
        assert_eq!(hash_table.get(&key), Some(i));
    }

    assert_eq!(hash_table.get("key10"), None);
}

#[test]
fn hash_table_linear_probing_remove() {
    let mut hash_table: HashTable<i32> = HashTable::new();
    populate_hash_table(&mut hash_table, 0, 3);

    for i in 0..3 {
        let key = format!("key{}", i);
        assert_eq!(hash_table.remove(&key), Some(i));
    }

    assert_eq!(hash_table.remove("key10"), None);
}

#[test]
fn remove_and_add() {
    let mut hash_table: HashTable<i32> = HashTable::new();
    populate_hash_table(&mut hash_table, 0, 3);

    for i in 0..3 {
        let key = format!("key{}", i);
        assert_eq!(hash_table.remove(&key), Some(i));
    }

    populate_hash_table(&mut hash_table, 0, 3);

    for i in 0..3 {
        let key = format!("key{}", i);
        assert_eq!(hash_table.get(&key), Some(i));
    }
}

#[test]
fn adding_a_key_again_overwrites_its_value() {
    let mut hash_table: HashTable<u32> = HashTable::new();
    hash_table.add(String::from("a"), 1);
    hash_table.add(String::from("a"), 2);
    assert_eq!(hash_table.slot_count(), 1);
    assert_eq!(hash_table.get("a"), Some(2));
}

#[test]
fn removed_key_is_gone_and_slot_reused() {
    let mut hash_table: HashTable<u32> = HashTable::new();
    hash_table.add(String::from("x"), 5);
    assert_eq!(hash_table.remove("x"), Some(5));
    assert_eq!(hash_table.get("x"), None);
    assert!(!hash_table.contains_key("x"));
    assert_eq!(hash_table.remove("x"), None);
    hash_table.add(String::from("y"), 6);
    assert_eq!(hash_table.slot_count(), 1);
    assert_eq!(hash_table.get("y"), Some(6));
}

#[test]
fn storage_capacity_covers_slots() {
    let mut hash_table: HashTable<i32> = HashTable::new();
    populate_hash_table(&mut hash_table, 0, 9);
    assert_eq!(hash_table.slot_count(), 9);
    assert!(hash_table.slot_capacity() >= hash_table.slot_count());
}
