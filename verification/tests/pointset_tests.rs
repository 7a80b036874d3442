use symtex::pointset::{ParseError, PointSet};

fn parse_err(bytes: &[u8]) -> ParseError {
    match PointSet::deserialize(bytes) {
        Ok(_) => panic!("expected a parse error"),
        Err(e) => e,
    }
}

#[test]
fn empty_set_round_trip() {
    let ps = PointSet::new();
    assert!(ps.is_empty());
    assert_eq!(ps.len(), 0);
    let bytes = ps.serialize();
    assert_eq!(bytes[0], 1, "version tag");
    let back = PointSet::deserialize(&bytes).unwrap();
    assert!(back.is_empty());
    assert_eq!(back.len(), 0);
}

#[test]
fn two_element_round_trip() {
    let mut ps = PointSet::new();
    assert!(ps.insert(7));
    assert!(ps.insert(42));
    assert!(!ps.insert(7), "re-inserting an id reports it as present");
    assert_eq!(ps.len(), 2);
    let bytes = ps.serialize();
    let back = PointSet::deserialize(&bytes).unwrap();
    assert_eq!(back.len(), 2);
    assert!(back.contains(7));
    assert!(back.contains(42));
    assert!(!back.contains(8));
}

#[test]
fn max_id_reports_largest() {
    let mut ps = PointSet::new();
    assert_eq!(ps.max_id(), None);
    ps.insert(3);
    ps.insert(99);
    ps.insert(41);
    assert_eq!(ps.max_id(), Some(99));
}

#[test]
fn union_in_place_merges() {
    let mut a = PointSet::new();
    a.insert(1);
    a.insert(2);
    let mut b = PointSet::new();
    b.insert(2);
    b.insert(3);
    a.union_in_place(&b);
    assert_eq!(a.len(), 3);
    assert!(a.contains(1) && a.contains(2) && a.contains(3));
}

#[test]
fn union_is_commutative_and_idempotent() {
    let mut x = PointSet::new();
    x.insert(10);
    x.insert(20);
    let mut y = PointSet::new();
    y.insert(20);
    y.insert(30);

    let mut ab = PointSet::new();
    ab.union_in_place(&x);
    ab.union_in_place(&y);
    let mut ba = PointSet::new();
    ba.union_in_place(&y);
    ba.union_in_place(&x);
    assert_eq!(ab.len(), ba.len());
    for id in [10u32, 20, 30] {
        assert_eq!(ab.contains(id), ba.contains(id));
    }

    let mut twice = PointSet::new();
    twice.union_in_place(&x);
    twice.union_in_place(&x);
    assert_eq!(twice.len(), x.len());
}

#[test]
fn deserialize_rejects_empty() {
    assert_eq!(parse_err(&[]), ParseError::Truncated);
}

#[test]
fn deserialize_rejects_short_header() {
    assert_eq!(parse_err(&[1, 0, 0]), ParseError::Truncated);
}

#[test]
fn deserialize_rejects_unknown_version() {
    let mut bytes = PointSet::new().serialize();
    bytes[0] = 9;
    assert_eq!(parse_err(&bytes), ParseError::UnsupportedVersion);
}

#[test]
fn deserialize_rejects_truncated_payload() {
    let mut ps = PointSet::new();
    ps.insert(5);
    let mut bytes = ps.serialize();
    bytes.pop();
    assert_eq!(parse_err(&bytes), ParseError::Truncated);
}

#[test]
fn deserialize_rejects_trailing_bytes() {
    let mut bytes = PointSet::new().serialize();
    bytes.push(0);
    assert_eq!(parse_err(&bytes), ParseError::TrailingBytes);
}

#[test]
fn deserialize_rejects_oversized_length() {
    // Version byte, then a length prefix far past the accepted bound.
    let bytes = [1u8, 0xff, 0xff, 0xff, 0xff, 0xff, 0xff, 0xff, 0xff];
    assert_eq!(parse_err(&bytes), ParseError::Oversized);
}

#[test]
fn deserialize_rejects_malformed_payload() {
    // A correct frame around four garbage payload bytes.
    let bytes = [1u8, 4, 0, 0, 0, 0, 0, 0, 0, 0xde, 0xad, 0xbe, 0xef];
    assert_eq!(parse_err(&bytes), ParseError::Malformed);
}

#[test]
fn serialization_matches_roaring_portable_format() {
    // The payload after the 9-byte frame header is the standard portable
    // roaring serialization, byte for byte.
    let mut ps = PointSet::new();
    ps.insert(7);
    ps.insert(42);
    let framed = ps.serialize();
    let mut rb = roaring::RoaringBitmap::new();
    rb.insert(7);
    rb.insert(42);
    let mut raw = Vec::new();
    rb.serialize_into(&mut raw).unwrap();
    assert_eq!(&framed[9..], raw.as_slice());
    let len = u64::from_le_bytes(framed[1..9].try_into().unwrap());
    assert_eq!(len as usize, raw.len());
}

#[test]
fn run_container_serialization_round_trips() {
    // A range insertion gives roaring a run container, whose portable
    // serialization differs from array and bitmap containers; the frame
    // must carry it unchanged in both directions.
    let mut rb = roaring::RoaringBitmap::new();
    rb.insert_range(10..50_000);
    let mut raw = Vec::new();
    rb.serialize_into(&mut raw).unwrap();
    let mut framed = vec![1u8];
    framed.extend_from_slice(&(raw.len() as u64).to_le_bytes());
    framed.extend_from_slice(&raw);
    let ps = PointSet::deserialize(&framed).unwrap();
    assert_eq!(ps.len(), 49_990);
    assert!(ps.contains(10) && ps.contains(49_999) && !ps.contains(50_000));
    let again = ps.serialize();
    let back = PointSet::deserialize(&again).unwrap();
    assert_eq!(back.len(), 49_990);
    assert!(back.contains(25_000));
}
