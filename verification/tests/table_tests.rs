use wasmfxtime::table::{Resource, Table, TableError};

const STREAM: u64 = 1;
const SOCKET: u64 = 2;

#[test]
fn new_table_starts_at_key_three() {
    let mut t: Table<String> = Table::new();
    assert_eq!(t.push(STREAM, "a".to_string()), Ok(3));
    assert_eq!(t.push(STREAM, "b".to_string()), Ok(4));
    assert!(!t.contains_key(0));
    assert!(!t.contains_key(1));
    assert!(!t.contains_key(2));
    assert!(t.contains_key(3));
}

#[test]
fn default_table_is_empty() {
    let t: Table<u32> = Table::default();
    assert!(!t.contains_key(3));
}

#[test]
fn get_after_push() {
    let mut t: Table<u32> = Table::new();
    let k = t.push(STREAM, 42).unwrap();
    assert_eq!(t.get(k, STREAM), Ok(&42));
    assert_eq!(t.get(k, SOCKET), Err(TableError::WrongType));
    assert_eq!(t.get(99, STREAM), Err(TableError::NotPresent));
    assert!(t.is(k, STREAM));
    assert!(!t.is(k, SOCKET));
    assert!(!t.is(99, STREAM));
}

#[test]
fn get_mut_updates_value() {
    let mut t: Table<u32> = Table::new();
    let k = t.push(STREAM, 1).unwrap();
    *t.get_mut(k, STREAM).unwrap() = 5;
    assert_eq!(t.get(k, STREAM), Ok(&5));
    assert_eq!(t.get_mut(k, SOCKET).err(), Some(TableError::WrongType));
    *t.get_any_mut(k).unwrap() += 1;
    assert_eq!(t.get(k, STREAM), Ok(&6));
    *t.get_as_any_mut(k).unwrap() += 1;
    assert_eq!(t.get(k, STREAM), Ok(&7));
    assert_eq!(t.get_any_mut(77).err(), Some(TableError::NotPresent));
    assert_eq!(t.get_as_any_mut(77).err(), Some(TableError::NotPresent));
}

#[test]
fn delete_returns_value_and_removes() {
    let mut t: Table<u32> = Table::new();
    let k = t.push(STREAM, 9).unwrap();
    assert_eq!(t.delete(k, STREAM), Ok(9));
    assert!(!t.contains_key(k));
    assert_eq!(t.delete(k, STREAM), Err(TableError::NotPresent));
}

#[test]
fn delete_wrong_type_keeps_entry() {
    let mut t: Table<u32> = Table::new();
    let k = t.push(STREAM, 9).unwrap();
    assert_eq!(t.delete(k, SOCKET), Err(TableError::WrongType));
    assert_eq!(t.get(k, STREAM), Ok(&9));
}

#[test]
fn parent_with_children_cannot_be_deleted() {
    let mut t: Table<u32> = Table::new();
    let parent = t.push(SOCKET, 1).unwrap();
    let child = t.push_child(STREAM, 2, parent).unwrap();
    assert_eq!(t.delete(parent, SOCKET), Err(TableError::HasChildren));
    assert_eq!(t.get(parent, SOCKET), Ok(&1));
    assert_eq!(t.delete(child, STREAM), Ok(2));
    assert_eq!(t.delete(parent, SOCKET), Ok(1));
}

#[test]
fn wrong_type_child_delete_keeps_link() {
    let mut t: Table<u32> = Table::new();
    let parent = t.push(SOCKET, 1).unwrap();
    let child = t.push_child(STREAM, 2, parent).unwrap();
    assert_eq!(t.delete(child, SOCKET), Err(TableError::WrongType));
    assert_eq!(t.delete(parent, SOCKET), Err(TableError::HasChildren));
}

#[test]
fn push_child_needs_parent() {
    let mut t: Table<u32> = Table::new();
    assert_eq!(t.push_child(STREAM, 2, 10), Err(TableError::NotPresent));
}

#[test]
fn typed_resources() {
    let mut t: Table<u32> = Table::new();
    let sock = t.push_resource(SOCKET, 10).unwrap();
    assert!(sock.owned());
    assert_eq!(sock.kind(), SOCKET);
    let stream = t.push_child_resource(STREAM, 20, &sock).unwrap();
    assert_eq!(t.get_resource(&stream), Ok(&20));
    *t.get_resource_mut(&stream).unwrap() = 21;
    assert_eq!(t.get_resource(&stream), Ok(&21));
    assert_eq!(t.delete_resource(sock), Err(TableError::HasChildren));
    assert_eq!(t.delete_resource(stream), Ok(21));
    assert_eq!(t.delete_resource(sock), Ok(10));
    let borrowed = Resource::new_borrow(3, SOCKET);
    assert!(!borrowed.owned());
    assert_eq!(borrowed.rep(), 3);
    assert_eq!(t.push_child_resource(STREAM, 1, &borrowed).err(), Some(TableError::NotPresent));
}

#[test]
fn freed_keys_are_not_reused_before_wrap() {
    let mut t: Table<u32> = Table::new();
    let a = t.push(STREAM, 1).unwrap();
    t.delete(a, STREAM).unwrap();
    let b = t.push(STREAM, 2).unwrap();
    assert_eq!(b, a + 1);
}

#[test]
fn iter_entries_looks_up_each_key() {
    let mut t: Table<u32> = Table::new();
    let a = t.push(STREAM, 10).unwrap();
    let b = t.push(STREAM + 1, 20).unwrap();
    let found = t.iter_entries(vec![(b, "first"), (a + 100, "missing"), (a, "last")]);
    assert_eq!(found.len(), 3);
    assert_eq!(found[0], (Ok(&20), "first"));
    assert_eq!(found[1], (Err(TableError::NotPresent), "missing"));
    assert_eq!(found[2], (Ok(&10), "last"));
}
