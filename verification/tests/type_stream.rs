use ms_pdb::fields::Field;
use ms_pdb::tpi::{Stream, TypeStream, TypeStreamHeader, STREAM_TPI};
use ms_pdb::types::TypeIndex;

/// Frames one type record: `len: u16` (bytes that follow), `kind: u16`, then `data`.
fn record(kind: u16, data: &[u8]) -> Vec<u8> {
    let mut v = Vec::new();
    let len = (2 + data.len()) as u16;
    v.extend_from_slice(&len.to_le_bytes());
    v.extend_from_slice(&kind.to_le_bytes());
    v.extend_from_slice(data);
    v
}

/// An `LF_MEMBER` item: attr(u16), ty(u32), offset(numeric), name(strz).
fn member_item(name: &[u8]) -> Vec<u8> {
    let mut v = Vec::new();
    v.extend_from_slice(&0x150du16.to_le_bytes()); // LF_MEMBER
    v.extend_from_slice(&0u16.to_le_bytes()); // attr
    v.extend_from_slice(&0x1000u32.to_le_bytes()); // ty
    v.extend_from_slice(&0u16.to_le_bytes()); // offset
    v.extend_from_slice(name);
    v.push(0);
    v
}

/// An `LF_INDEX` continuation item: kind(u16), pad(u16), ty(u32).
fn index_item(target: u32) -> Vec<u8> {
    let mut v = Vec::new();
    v.extend_from_slice(&0x1404u16.to_le_bytes()); // LF_INDEX
    v.extend_from_slice(&0u16.to_le_bytes()); // padding
    v.extend_from_slice(&target.to_le_bytes());
    v
}

/// Builds a minimal TPI stream containing `records`, starting at TypeIndex 0x1000.
fn type_stream(records: &[Vec<u8>]) -> TypeStream<Vec<u8>> {
    let mut body = Vec::new();
    for r in records {
        body.extend_from_slice(r);
    }
    let mut header = TypeStreamHeader::empty();
    header.type_index_begin = TypeIndex(0x1000);
    header.type_index_end = TypeIndex(0x1000 + records.len() as u32);
    header.type_record_bytes = body.len() as u32;

    let mut bytes = Vec::new();
    bytes.extend_from_slice(&header.as_bytes());
    bytes.extend_from_slice(&body);
    TypeStream::parse(Stream(STREAM_TPI), bytes).expect("synthetic type stream should parse")
}

/// A cyclic `LF_INDEX` continuation chain must terminate with an error rather than
/// looping forever.
#[test]
fn iter_fields_detects_continuation_cycle() {
    // 0x1000: [ LF_MEMBER "a", LF_INDEX -> 0x1001 ]
    // 0x1001: [ LF_INDEX -> 0x1000 ]   <-- cycle back
    let mut first = member_item(b"a");
    first.extend_from_slice(&index_item(0x1001));
    let second = index_item(0x1000);
    let ts = type_stream(&[
        record(0x1203, &first),  // LF_FIELDLIST
        record(0x1203, &second), // LF_FIELDLIST
    ]);

    // Bound the take so that a regression in the cycle guard fails this test
    // quickly instead of hanging the test run forever.
    let mut it = ts.iter_fields(TypeIndex(0x1000));
    let got: Vec<_> = std::iter::from_fn(|| it.next()).take(8).collect();
    assert_eq!(
        got.len(),
        2,
        "expected the member then a cycle error: {got:?}"
    );
    assert!(
        matches!(got[0], Ok(Field::Member(_))),
        "first item: {:?}",
        got[0]
    );
    let err = got[1].as_ref().expect_err("cycle must be reported");
    assert!(
        err.message().contains("cycle"),
        "error should name the cycle: {}",
        err.message()
    );
}

/// A non-cyclic continuation chain still walks every record.
#[test]
fn iter_fields_follows_continuation_chain() {
    let mut first = member_item(b"a");
    first.extend_from_slice(&index_item(0x1001));
    let second = member_item(b"b");
    let ts = type_stream(&[record(0x1203, &first), record(0x1203, &second)]);

    let mut it = ts.iter_fields(TypeIndex(0x1000));
    let got: Vec<_> = std::iter::from_fn(|| it.next()).collect();
    assert_eq!(got.len(), 2, "{got:?}");
    assert!(
        got.iter().all(|f| matches!(f, Ok(Field::Member(_)))),
        "{got:?}"
    );
}
