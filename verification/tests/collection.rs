use monadb::collection::{
    check_name, contains, delete, first, get, last, len, prefix, prefix_bounds, put, range, range_bounds,
    reversed,
    StoreError,
};
use monadb::keys::{encode, prefix_bytes, KeyPart};
use redb::backends::InMemoryBackend;
use redb::{Database, WriteTransaction};

fn txn() -> WriteTransaction {
    let db = Database::builder().create_with_backend(InMemoryBackend::new()).unwrap();
    db.begin_write().unwrap()
}

fn key_int(n: i64) -> Vec<KeyPart> {
    vec![KeyPart::Int(n)]
}

fn text(s: &str) -> Vec<KeyPart> {
    vec![KeyPart::Str(s.to_string())]
}

#[test]
fn put_then_get_returns_the_document() {
    let mut t = txn();
    put(&mut t, "users", &key_int(1), b"doc-one").unwrap();
    assert_eq!(get(&t, "users", &key_int(1)).unwrap(), b"doc-one".to_vec());
    put(&mut t, "users", &key_int(1), b"doc-two").unwrap();
    assert_eq!(get(&t, "users", &key_int(1)).unwrap(), b"doc-two".to_vec());
    assert_eq!(len(&t, "users").unwrap(), 1);
}

#[test]
fn missing_key_and_missing_collection_are_missing() {
    let mut t = txn();
    assert!(matches!(get(&t, "nothing", &key_int(1)), Err(StoreError::Missing)));
    put(&mut t, "users", &key_int(1), b"d").unwrap();
    assert!(matches!(get(&t, "users", &key_int(2)), Err(StoreError::Missing)));
    assert!(!contains(&t, "users", &key_int(2)).unwrap());
    assert!(contains(&t, "users", &key_int(1)).unwrap());
    assert!(!contains(&t, "nothing", &key_int(1)).unwrap());
    assert_eq!(len(&t, "nothing").unwrap(), 0);
}

#[test]
fn delete_removes_and_a_failed_delete_creates_nothing() {
    let mut t = txn();
    assert!(matches!(delete(&mut t, "ghost", &key_int(1)), Err(StoreError::Missing)));
    assert_eq!(t.list_tables().unwrap().count(), 0);
    put(&mut t, "users", &key_int(1), b"d").unwrap();
    delete(&mut t, "users", &key_int(1)).unwrap();
    assert!(matches!(get(&t, "users", &key_int(1)), Err(StoreError::Missing)));
    assert!(matches!(delete(&mut t, "users", &key_int(1)), Err(StoreError::Missing)));
    assert_eq!(len(&t, "users").unwrap(), 0);
}

#[test]
fn range_is_half_open_and_ascending() {
    let mut t = txn();
    for n in [5, 1, 3, 2, 4] {
        put(&mut t, "c", &key_int(n), format!("d{n}").as_bytes()).unwrap();
    }
    let es = range(&t, "c", Some(&key_int(2)), Some(&key_int(4))).unwrap();
    let docs: Vec<Vec<u8>> = es.iter().map(|(_, d)| d.clone()).collect();
    assert_eq!(docs, vec![b"d2".to_vec(), b"d3".to_vec()]);
    assert_eq!(es[0].0, encode(&key_int(2)));
    let all = range(&t, "c", None, None).unwrap();
    assert_eq!(all.len(), 5);
    let back = reversed(all);
    assert_eq!(back[0].1, b"d5".to_vec());
    assert_eq!(back[4].1, b"d1".to_vec());
    assert!(range(&t, "none", None, None).unwrap().is_empty());
}

#[test]
fn prefix_selects_keys_extending_a_string() {
    let mut t = txn();
    for s in ["apple", "apricot", "banana", "ap"] {
        put(&mut t, "fruit", &text(s), s.as_bytes()).unwrap();
    }
    let p = prefix_bytes(&KeyPart::Str("ap".to_string())).unwrap();
    let es = prefix(&t, "fruit", &p).unwrap();
    let docs: Vec<Vec<u8>> = es.iter().map(|(_, d)| d.clone()).collect();
    assert_eq!(docs, vec![b"ap".to_vec(), b"apple".to_vec(), b"apricot".to_vec()]);
}

#[test]
fn bounds_encode_the_ends_and_the_prefix_successor() {
    let (lo, hi) = range_bounds(Some(&key_int(1)), None);
    assert_eq!(lo, Some(encode(&key_int(1))));
    assert_eq!(hi, None);
    let (lo, hi) = prefix_bounds(&[0x02, 0x61]);
    assert_eq!(lo, vec![0x02, 0x61]);
    assert_eq!(hi, Some(vec![0x02, 0x62]));
    let (_, hi) = prefix_bounds(&[0xFF, 0xFF]);
    assert_eq!(hi, None);
}

#[test]
fn first_and_last_are_the_smallest_and_largest_keys() {
    let mut t = txn();
    assert!(first(&t, "c").unwrap().is_none());
    for n in [3, -7, 12] {
        put(&mut t, "c", &key_int(n), format!("d{n}").as_bytes()).unwrap();
    }
    assert_eq!(first(&t, "c").unwrap().unwrap().1, b"d-7".to_vec());
    assert_eq!(last(&t, "c").unwrap().unwrap().1, b"d12".to_vec());
}

#[test]
fn an_empty_collection_name_is_refused() {
    let mut t = txn();
    assert!(matches!(check_name(""), Err(StoreError::EmptyName)));
    assert!(check_name("users").is_ok());
    assert!(matches!(put(&mut t, "", &key_int(1), b"d"), Err(StoreError::EmptyName)));
    assert!(matches!(get(&t, "", &key_int(1)), Err(StoreError::EmptyName)));
    assert!(matches!(delete(&mut t, "", &key_int(1)), Err(StoreError::EmptyName)));
    assert!(matches!(range(&t, "", None, None), Err(StoreError::EmptyName)));
    assert!(matches!(first(&t, ""), Err(StoreError::EmptyName)));
    assert_eq!(t.list_tables().unwrap().count(), 0);
}

#[test]
fn get_and_contains_follow_puts_and_deletes() {
    let mut t = txn();
    put(&mut t, "users", &text("alice"), b"{age:30}").unwrap();
    assert_eq!(get(&t, "users", &text("alice")).unwrap(), b"{age:30}".to_vec());
    assert!(contains(&t, "users", &text("alice")).unwrap());
    delete(&mut t, "users", &text("alice")).unwrap();
    assert!(matches!(get(&t, "users", &text("alice")), Err(StoreError::Missing)));
    assert!(!contains(&t, "users", &text("alice")).unwrap());
}
