use blockdag::schema::{CodecError, KeyCodec, Schema, ValueCodec};
use blockdag::tables::{GhostdagSchema, HeadersSchema, ReachabilitySchema, RelationsSchema};
use blockdag::types::{GhostdagData, Header, HeaderRecord, ReachabilityEntry};

#[test]
fn key_round_trip() {
    let bytes = <u64 as KeyCodec<RelationsSchema>>::encode_key(&0x0102030405060708).unwrap();
    assert_eq!(bytes, vec![8, 7, 6, 5, 4, 3, 2, 1]);
    assert_eq!(<u64 as KeyCodec<HeadersSchema>>::decode_key(&bytes), Ok(0x0102030405060708));
}

#[test]
fn key_rejects_bad_length() {
    assert_eq!(<u64 as KeyCodec<GhostdagSchema>>::decode_key(&[1, 2, 3]), Err(CodecError::BadLength));
    assert_eq!(<u64 as KeyCodec<GhostdagSchema>>::decode_key(&[0; 16]), Err(CodecError::BadLength));
}

#[test]
fn relations_round_trip() {
    let v: Vec<u64> = vec![1, 2, u64::MAX];
    let bytes = <Vec<u64> as ValueCodec<RelationsSchema>>::encode_value(&v).unwrap();
    assert_eq!(bytes.len(), 24);
    assert_eq!(&bytes[0..8], &[1, 0, 0, 0, 0, 0, 0, 0]);
    assert_eq!(<Vec<u64> as ValueCodec<RelationsSchema>>::decode_value(&bytes).unwrap(), v);
    let empty: Vec<u64> = vec![];
    let bytes = <Vec<u64> as ValueCodec<RelationsSchema>>::encode_value(&empty).unwrap();
    assert!(bytes.is_empty());
    assert!(<Vec<u64> as ValueCodec<RelationsSchema>>::decode_value(&[0; 7]).is_err());
}

#[test]
fn header_record_round_trip() {
    let r = HeaderRecord { header: Header::new(9, vec![3, 4]), counter: 0 };
    let bytes = <HeaderRecord as ValueCodec<HeadersSchema>>::encode_value(&r).unwrap();
    assert_eq!(bytes.len(), 32);
    let back = <HeaderRecord as ValueCodec<HeadersSchema>>::decode_value(&bytes).unwrap();
    assert_eq!(back.header.hash, 9);
    assert_eq!(back.header.parents, vec![3, 4]);
    assert_eq!(back.counter, 0);
    assert_eq!(
        <HeaderRecord as ValueCodec<HeadersSchema>>::decode_value(&[0; 8]).unwrap_err(),
        CodecError::BadLength
    );
}

#[test]
fn ghostdag_round_trip() {
    let d = GhostdagData::new(5, 7, vec![1, 2], vec![3]);
    let bytes = <GhostdagData as ValueCodec<GhostdagSchema>>::encode_value(&d).unwrap();
    assert_eq!(bytes.len(), 48);
    let back = <GhostdagData as ValueCodec<GhostdagSchema>>::decode_value(&bytes).unwrap();
    assert_eq!(back.selected_parent, 5);
    assert_eq!(back.blue_score, 7);
    assert_eq!(back.mergeset_blues, vec![1, 2]);
    assert_eq!(back.mergeset_reds, vec![3]);
}

#[test]
fn ghostdag_rejects_malformed() {
    // three header words claiming five blues with none following
    let mut bytes = vec![0u8; 24];
    bytes[16] = 5;
    assert_eq!(
        <GhostdagData as ValueCodec<GhostdagSchema>>::decode_value(&bytes).unwrap_err(),
        CodecError::Malformed
    );
    assert_eq!(
        <GhostdagData as ValueCodec<GhostdagSchema>>::decode_value(&[0; 9]).unwrap_err(),
        CodecError::BadLength
    );
}

#[test]
fn reachability_round_trip() {
    let e = ReachabilityEntry { selected_parent: 4, mergeset: vec![2, 3] };
    let bytes = <ReachabilityEntry as ValueCodec<ReachabilitySchema>>::encode_value(&e).unwrap();
    let back = <ReachabilityEntry as ValueCodec<ReachabilitySchema>>::decode_value(&bytes).unwrap();
    assert_eq!(back.selected_parent, 4);
    assert_eq!(back.mergeset, vec![2, 3]);
    assert!(<ReachabilityEntry as ValueCodec<ReachabilitySchema>>::decode_value(&[]).is_err());
}

#[test]
fn column_families_are_distinct() {
    let names = [
        <RelationsSchema as Schema>::COLUMN_FAMILY,
        <HeadersSchema as Schema>::COLUMN_FAMILY,
        <GhostdagSchema as Schema>::COLUMN_FAMILY,
        <ReachabilitySchema as Schema>::COLUMN_FAMILY,
    ];
    for i in 0..names.len() {
        for j in 0..i {
            assert_ne!(names[i], names[j]);
        }
    }
}
