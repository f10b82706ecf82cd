//! The hash table and the heap that interns strings.

use rlox::hashtable::{Entry, HashTable};
use rlox::heap::Heap;
use rlox::value::{hash_string, LoxObject, ObjRef, Value};

fn key(index: usize, hash: u32) -> ObjRef {
    ObjRef { index, hash }
}

#[test]
fn a_fresh_table_is_empty() {
    let table = HashTable::new();
    assert_eq!(table.capacity(), 0);
    assert!(table.get(&key(0, 0)).is_none());
    let empty = Entry::all_none();
    assert!(empty.key.is_none());
    assert!(empty.value == Value::Nil);
}

#[test]
fn insertion_then_lookup_finds_the_value() {
    let mut table = HashTable::new();
    assert!(table.set(key(1, 17), Value::Number(5)));
    assert_eq!(table.capacity(), 8);
    assert!(*table.get(&key(1, 17)).unwrap() == Value::Number(5));
    assert!(table.get(&key(2, 17)).is_none());
    assert!(!table.set(key(1, 17), Value::Bool(true)));
    assert!(*table.get(&key(1, 17)).unwrap() == Value::Bool(true));
}

#[test]
fn deletion_then_lookup_misses() {
    let mut table = HashTable::new();
    assert!(!table.delete(&key(1, 1)));
    table.set(key(1, 1), Value::Nil);
    table.set(key(2, 1), Value::Bool(false));
    assert!(table.delete(&key(1, 1)));
    assert!(table.get(&key(1, 1)).is_none());
    assert!(*table.get(&key(2, 1)).unwrap() == Value::Bool(false));
    assert!(!table.delete(&key(1, 1)));
    assert!(table.set(key(1, 1), Value::Number(3)));
    assert!(*table.get(&key(1, 1)).unwrap() == Value::Number(3));
}

#[test]
fn colliding_keys_keep_their_own_values() {
    let mut table = HashTable::new();
    for i in 0..5 {
        assert!(table.set(key(i, 3), Value::Number(i as u64)));
    }
    for i in 0..5 {
        assert!(*table.get(&key(i, 3)).unwrap() == Value::Number(i as u64));
    }
    assert!(table.delete(&key(2, 3)));
    assert!(*table.get(&key(4, 3)).unwrap() == Value::Number(4));
    assert!(table.get(&key(2, 3)).is_none());
    assert!(table.get(&key(5, 3)).is_none());
}

#[test]
fn probing_wraps_round_the_end_of_the_table() {
    let mut table = HashTable::new();
    for i in 0..4 {
        table.set(key(i, 7), Value::Number(i as u64));
    }
    assert_eq!(table.capacity(), 8);
    for i in 0..4 {
        assert!(*table.get(&key(i, 7)).unwrap() == Value::Number(i as u64));
    }
}

#[test]
fn growth_keeps_every_live_entry() {
    let mut table = HashTable::new();
    for i in 0..100usize {
        assert!(table.set(key(i, (i * 31) as u32), Value::Number(i as u64)));
    }
    assert_eq!(table.capacity(), 256);
    for i in 0..100usize {
        assert!(*table.get(&key(i, (i * 31) as u32)).unwrap() == Value::Number(i as u64));
    }
}

#[test]
fn the_table_grows_at_three_quarters() {
    let mut table = HashTable::new();
    for i in 0..6 {
        table.set(key(i, i as u32), Value::Nil);
    }
    assert_eq!(table.capacity(), 8);
    table.set(key(6, 6), Value::Nil);
    assert_eq!(table.capacity(), 16);
    for i in 7..12 {
        table.set(key(i, i as u32), Value::Nil);
    }
    assert_eq!(table.capacity(), 16);
    table.set(key(12, 12), Value::Nil);
    assert_eq!(table.capacity(), 32);
}

#[test]
fn tombstones_count_until_the_table_grows() {
    let mut table = HashTable::new();
    for i in 0..6 {
        table.set(key(i, i as u32), Value::Nil);
    }
    for i in 0..6 {
        assert!(table.delete(&key(i, i as u32)));
    }
    assert_eq!(table.capacity(), 8);
    table.set(key(9, 9), Value::Bool(true));
    assert_eq!(table.capacity(), 16);
    assert!(*table.get(&key(9, 9)).unwrap() == Value::Bool(true));
    for i in 0..6 {
        assert!(table.get(&key(i, i as u32)).is_none());
    }
}

#[test]
fn clearing_drops_everything() {
    let mut table = HashTable::new();
    table.set(key(1, 1), Value::Nil);
    table.clear();
    assert_eq!(table.capacity(), 0);
    assert!(table.get(&key(1, 1)).is_none());
    assert!(table.set(key(1, 1), Value::Nil));
}

#[test]
fn all_entries_are_added_to_another_table() {
    let mut from = HashTable::new();
    let mut to = HashTable::new();
    from.set(key(1, 1), Value::Number(1));
    from.set(key(2, 2), Value::Number(2));
    from.set(key(3, 3), Value::Number(3));
    from.delete(&key(3, 3));
    to.set(key(2, 2), Value::Nil);
    to.set(key(4, 4), Value::Number(4));
    assert_eq!(from.count(), 3);
    assert_eq!(to.count(), 2);
    assert!(HashTable::table_add_all(&from, &mut to));
    assert_eq!(to.count(), 3);
    assert!(*to.get(&key(1, 1)).unwrap() == Value::Number(1));
    assert!(*to.get(&key(2, 2)).unwrap() == Value::Number(2));
    assert!(to.get(&key(3, 3)).is_none());
    assert!(*to.get(&key(4, 4)).unwrap() == Value::Number(4));
}

#[test]
fn a_string_is_found_by_text_and_hash() {
    let objects = vec![
        LoxObject::new_string(String::from("one")),
        LoxObject::new_string(String::from("two")),
    ];
    let mut table = HashTable::new();
    assert!(table.find_string(&objects, &LoxObject::new_string(String::from("one"))).is_none());
    table.set(key(0, hash_string("one")), Value::Nil);
    table.set(key(1, hash_string("two")), Value::Nil);
    assert_eq!(
        table.find_string(&objects, &LoxObject::new_string(String::from("two"))),
        Some(key(1, hash_string("two")))
    );
    assert_eq!(
        table.find_string(&objects, &LoxObject::new_string(String::from("one"))),
        Some(key(0, hash_string("one")))
    );
    assert!(table.find_string(&objects, &LoxObject::new_string(String::from("three"))).is_none());
    let forged = LoxObject::String { value: String::from("one"), hash: 1 };
    assert!(table.find_string(&objects, &forged).is_none());
}

#[test]
fn equal_texts_are_interned_once() {
    let mut heap = Heap::new();
    assert!(heap.can_allocate());
    let a = heap.allocate_string(String::from("hello"));
    let b = heap.allocate_string(String::from("world"));
    let c = heap.allocate_string(String::from("hello"));
    assert_eq!(a, c);
    assert_ne!(a, b);
    assert_eq!(heap.len(), 2);
    assert_eq!(a, ObjRef { index: 0, hash: hash_string("hello") });
    assert_eq!(b, ObjRef { index: 1, hash: hash_string("world") });
    assert_eq!(heap.string(a), "hello");
    assert_eq!(heap.string(b), "world");
    assert!(heap.has(a));
    assert!(!heap.has(ObjRef { index: 2, hash: 0 }));
    assert!(!heap.has(ObjRef { index: 0, hash: 0 }));
}

#[test]
fn concatenation_is_interned() {
    let mut heap = Heap::new();
    let foo = heap.allocate_string(String::from("foo"));
    let bar = heap.allocate_string(String::from("bar"));
    let foobar = heap.allocate_string(String::from("foobar"));
    let joined = heap.concatenate(foo, bar).unwrap();
    assert_eq!(joined, foobar);
    assert_eq!(heap.len(), 3);
    let other = heap.concatenate(bar, foo).unwrap();
    assert_eq!(heap.string(other), "barfoo");
    assert_eq!(heap.find("barfoo"), Some(other));
    assert_eq!(heap.find("foobaz"), None);
    assert_eq!(heap.try_allocate_string(String::from("foo")), Some(foo));
    assert_eq!(heap.len(), 4);
}

#[test]
fn many_strings_stay_distinct() {
    let mut heap = Heap::new();
    let mut handles = Vec::new();
    for i in 0..300 {
        handles.push(heap.allocate_string(format!("s{}", i)));
    }
    assert_eq!(heap.len(), 300);
    for (i, handle) in handles.iter().enumerate() {
        assert_eq!(handle.index, i);
        assert_eq!(heap.string(*handle), &format!("s{}", i));
        assert_eq!(heap.allocate_string(format!("s{}", i)), *handle);
    }
    assert_eq!(heap.len(), 300);
}
