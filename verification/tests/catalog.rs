use monadb::catalog::{CacheLookup, Catalog};
use monadb::error::Error;
use monadb::ir::{Key, TableDefinition, Type};

fn users() -> TableDefinition {
    TableDefinition { oid: Some(4), name: "users".into(), keys: vec![Key { name: "id".into(), ty: Type::Int }] }
}

#[test]
fn empty_cache_misses() {
    let mut c = Catalog::new();
    assert!(matches!(c.cached("users", 0), CacheLookup::Miss));
}

#[test]
fn scanned_table_is_a_hit_until_the_generation_moves() {
    let mut c = Catalog::new();
    let def = c.scan_and_cache("users", Ok(users())).unwrap();
    assert_eq!(def.oid, Some(4));
    match c.cached("users", 0) {
        CacheLookup::Hit(d) => {
            assert_eq!(d.name, "users");
            assert_eq!(d.oid, Some(4));
            assert_eq!(d.keys.len(), 1);
        }
        _ => panic!("expected a hit"),
    }
    // A CREATE or DROP bumps the generation: everything is flushed.
    assert!(matches!(c.cached("users", 1), CacheLookup::Miss));
    assert_eq!(c.generation, 1);
}

#[test]
fn unbound_table_is_cached_as_a_tombstone() {
    let mut c = Catalog::new();
    let r = c.scan_and_cache("ghost", Err(Error::UnboundTable("scan".into())));
    assert!(matches!(r, Err(Error::UnboundTable(m)) if m == "ghost"));
    assert!(matches!(c.cached("ghost", 0), CacheLookup::NegativeHit));
    assert!(matches!(c.cached("users", 0), CacheLookup::Miss));
}

#[test]
fn transient_errors_are_not_cached() {
    let mut c = Catalog::new();
    let r = c.scan_and_cache("users", Err(Error::InternalError("io".into())));
    assert!(matches!(r, Err(Error::InternalError(_))));
    assert!(matches!(c.cached("users", 0), CacheLookup::Miss));
}

#[test]
fn a_later_scan_replaces_the_entry() {
    let mut c = Catalog::new();
    let _ = c.scan_and_cache("users", Err(Error::UnboundTable("users".into())));
    let _ = c.scan_and_cache("users", Ok(users()));
    assert_eq!(c.tables.len(), 1);
    assert!(matches!(c.cached("users", 0), CacheLookup::Hit(_)));
}
