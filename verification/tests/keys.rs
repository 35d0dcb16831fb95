use monadb::keys::{decode, encode, prefix_bytes, successor, KeyPart};

fn corpus() -> Vec<Vec<KeyPart>> {
    let ints = [i64::MIN, -2, -1, 0, 1, 2, 255, 256, i64::MAX];
    let strs = ["", "a", "a\u{0}b", "ab", "b", "é"];
    let bins: [&[u8]; 5] = [b"", b"\x00", b"\x00\xff", b"a", b"\xff"];
    let mut scalars = Vec::new();
    scalars.extend(ints.iter().map(|&i| KeyPart::Int(i)));
    scalars.extend(strs.iter().map(|s| KeyPart::Str((*s).into())));
    scalars.extend(bins.iter().map(|b| KeyPart::Bytes(b.to_vec())));
    let mut out: Vec<Vec<KeyPart>> = vec![vec![]];
    out.extend(scalars.iter().cloned().map(|p| vec![p]));
    for a in &scalars {
        for b in &scalars {
            out.push(vec![a.clone(), b.clone()]);
        }
    }
    out
}

#[test]
fn encoding_preserves_order() {
    let keys = corpus();
    for a in &keys {
        for b in &keys {
            assert_eq!(encode(a).cmp(&encode(b)), a.cmp(b), "order disagreement: {a:?} vs {b:?}");
        }
    }
}

#[test]
fn encoding_roundtrips() {
    for k in corpus() {
        assert_eq!(decode(&encode(&k)).unwrap(), k);
    }
}

#[test]
fn successor_bounds_prefixes() {
    // Every key extending `p` sorts >= p and < successor(p).
    let p = encode(&[KeyPart::Str("ab".into())]);
    let ext = encode(&[KeyPart::Str("ab\u{ffff}z".into())]);
    let up = successor(&p[..p.len() - 1]).unwrap(); // prefix without terminator
    assert!(ext < up);
    assert_eq!(successor(&[0xff, 0xff]), None);
}

#[test]
fn successor_drops_trailing_ff() {
    assert_eq!(successor(&[0x01, 0xff, 0xff]), Some(vec![0x02]));
    assert_eq!(successor(&[0x01, 0x02]), Some(vec![0x01, 0x03]));
    assert_eq!(successor(&[]), None);
}

#[test]
fn int_encoding_bytes() {
    assert_eq!(encode(&[KeyPart::Int(0)]), vec![0x01, 0x80, 0, 0, 0, 0, 0, 0, 0]);
    assert_eq!(encode(&[KeyPart::Bytes(vec![0x00, 0x61])]), vec![0x03, 0x00, 0xFF, 0x61, 0x00]);
}

#[test]
fn decode_errors() {
    assert_eq!(decode(&[0x01, 0x00]), Err("truncated int key".to_string()));
    assert_eq!(decode(&[0x02, 0x61]), Err("unterminated key component".to_string()));
    assert_eq!(decode(&[0x07]), Err("bad key tag 0x7".to_string()));
    assert_eq!(decode(&[0x2a]), Err("bad key tag 0x2a".to_string()));
    assert!(decode(&[0x02, 0xC3, 0x00]).is_err());
    assert_eq!(decode(&[]), Ok(vec![]));
}

#[test]
fn prefix_bytes_have_no_terminator() {
    assert_eq!(prefix_bytes(&KeyPart::Str("a\0".into())), Some(vec![0x02, 0x61, 0x00, 0xFF]));
    assert_eq!(prefix_bytes(&KeyPart::Bytes(vec![1])), Some(vec![0x03, 0x01]));
    assert_eq!(prefix_bytes(&KeyPart::Int(1)), None);
    let full = encode(&[KeyPart::Str("abc".into()), KeyPart::Int(3)]);
    let p = prefix_bytes(&KeyPart::Str("ab".into())).unwrap();
    assert!(full.starts_with(&p));
}

#[test]
fn successor_range_holds_only_extensions() {
    let p = vec![0x01u8, 0xff];
    let up = successor(&p).unwrap();
    assert_eq!(up, vec![0x02]);
    // Inside [p, up): extends p.
    let inside = vec![0x01u8, 0xff, 0x00, 0x07];
    assert!(p <= inside && inside < up);
    assert!(inside.starts_with(&p));
    // Not extending p: below p or at/after up.
    let below = vec![0x01u8, 0xfe, 0xff];
    assert!(below < p);
    let after = vec![0x02u8, 0x00];
    assert!(after >= up);
}

#[test]
fn decode_names_the_first_failure() {
    assert_eq!(decode(&[0x01, 0x00]), Err("truncated int key".to_string()));
    assert_eq!(decode(&[0x02, 0x61]), Err("unterminated key component".to_string()));
    assert_eq!(decode(&[0x2a, 0x02]), Err("bad key tag 0x2a".to_string()));
}
