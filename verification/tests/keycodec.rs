use monadb::keycodec::{surrogate_partial, surrogate_row_id, table_prefix, table_prefix_upper, SUFFIX_LEN};

#[test]
fn table_prefix_is_be() {
    assert_eq!(table_prefix(1), [0, 0, 0, 1]);
    assert_eq!(table_prefix(0x0102_0304), [0x01, 0x02, 0x03, 0x04]);
}

#[test]
fn surrogate_round_trip() {
    let k = surrogate_partial(7, 42);
    assert_eq!(k.len(), 12);
    assert_eq!(&k[..4], &[0, 0, 0, 7]);
    let mut full = k.clone();
    full.extend_from_slice(&[0u8; SUFFIX_LEN]);
    assert_eq!(surrogate_row_id(&full), Some(42));
}

#[test]
fn surrogate_keys_sort_by_table_then_row() {
    let a = surrogate_partial(1, u64::MAX);
    let b = surrogate_partial(2, 0);
    assert!(a < b, "table_id must dominate row_id in lex order");
    let c = surrogate_partial(7, 1);
    let d = surrogate_partial(7, 2);
    assert!(c < d, "within a table, row_ids must sort big-endian");
}

#[test]
fn table_prefix_upper_wraps_at_max() {
    assert_eq!(table_prefix_upper(1), [0, 0, 0, 2]);
    assert_eq!(table_prefix_upper(u32::MAX), [0, 0, 0, 0]);
}

#[test]
fn short_key_has_no_row_id() {
    assert_eq!(surrogate_row_id(&[0u8; 19]), None);
}
