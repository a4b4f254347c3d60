use ms_pdb::fields::Field;
use ms_pdb::tpi::{
    CachedTypeStreamHeader, Pdb, Stream, StreamIndexU16, TypeStream, TypeStreamError, TypeStreamHeader, TypeStreamKind,
    STREAM_INDEX_NIL, STREAM_IPI, STREAM_TPI, TPI_STREAM_HEADER_LEN, TYPE_STREAM_VERSION_2004,
};
use ms_pdb::types::{TypeIndex, LF_FIELDLIST};

fn record(kind: u16, data: &[u8]) -> Vec<u8> {
    let mut v = ((2 + data.len()) as u16).to_le_bytes().to_vec();
    v.extend_from_slice(&kind.to_le_bytes());
    v.extend_from_slice(data);
    v
}

fn member_item(name: &[u8]) -> Vec<u8> {
    let mut v = Vec::new();
    v.extend_from_slice(&0x150du16.to_le_bytes());
    v.extend_from_slice(&0u16.to_le_bytes());
    v.extend_from_slice(&0x1000u32.to_le_bytes());
    v.extend_from_slice(&0u16.to_le_bytes());
    v.extend_from_slice(name);
    v.push(0);
    v
}

fn index_item(target: u32) -> Vec<u8> {
    let mut v = Vec::new();
    v.extend_from_slice(&0x1404u16.to_le_bytes());
    v.extend_from_slice(&0u16.to_le_bytes());
    v.extend_from_slice(&target.to_le_bytes());
    v
}

fn stream_bytes(records: &[Vec<u8>]) -> Vec<u8> {
    let mut body = Vec::new();
    for r in records {
        body.extend_from_slice(r);
    }
    let mut header = TypeStreamHeader::empty();
    header.type_index_end = TypeIndex(0x1000 + records.len() as u32);
    header.type_record_bytes = body.len() as u32;
    let mut bytes = header.as_bytes();
    bytes.extend_from_slice(&body);
    bytes
}

fn collect_fields(ts: &TypeStream<Vec<u8>>, ti: u32) -> Vec<Result<Field<'_>, TypeStreamError>> {
    let mut it = ts.iter_fields(TypeIndex(ti));
    std::iter::from_fn(|| it.next()).take(16).collect()
}

#[test]
fn empty_header_has_its_exact_encoding() {
    let h = TypeStreamHeader::empty();
    let bytes = h.as_bytes();
    let mut expected = vec![0, 0, 0, 0, 56, 0, 0, 0, 0, 0x10, 0, 0, 0, 0x10, 0, 0, 0, 0, 0, 0];
    expected.extend_from_slice(&[0xff, 0xff, 0xff, 0xff]);
    expected.extend_from_slice(&[0; 32]);
    assert_eq!(bytes, expected);
    assert_eq!(bytes.len(), TPI_STREAM_HEADER_LEN);
    assert_eq!(h.hash_stream_index, StreamIndexU16(STREAM_INDEX_NIL));
}

#[test]
fn header_encoding_round_trips() {
    let mut h = TypeStreamHeader::empty();
    h.version = TYPE_STREAM_VERSION_2004;
    h.type_index_end = TypeIndex(0x1234);
    h.hash_stream_index = StreamIndexU16(7);
    h.hash_value_buffer_offset = -2;
    h.hash_adj_buffer_length = 0xdead_beef;
    let bytes = h.as_bytes();
    assert_eq!(TypeStreamHeader::read_from_prefix(&bytes), Some(h));
    assert_eq!(&bytes[0..4], &[0x0b, 0xca, 0x31, 0x01]);
    assert_eq!(&bytes[32..36], &[0xfe, 0xff, 0xff, 0xff]);
    assert_eq!(TypeStreamHeader::read_from_prefix(&bytes[..55]), None);
}

#[test]
fn empty_stream_is_valid_and_defines_no_types() {
    let ts = TypeStream::parse(Stream(STREAM_TPI), Vec::new()).unwrap();
    assert!(ts.is_empty());
    assert_eq!(ts.type_index_begin(), TypeIndex(0x1000));
    assert_eq!(ts.type_index_end(), TypeIndex(0x1000));
    assert_eq!(ts.num_types(), 0);
    assert_eq!(ts.version(), TYPE_STREAM_VERSION_2004);
    assert_eq!(ts.hash_stream(), None);
    assert_eq!(ts.records_offset(), 0);
    assert_eq!(ts.type_records_range(), 0..0);
    assert!(ts.type_records_bytes().is_empty());
    assert_eq!(ts.record_starts(), &[0]);
    assert!(ts.header().is_none());
    assert_eq!(ts.record(TypeIndex(0x1000)).unwrap_err(), TypeStreamError::RecordDecodeFailed(TypeIndex(0x1000)));
}

#[test]
fn header_checks_report_each_failure() {
    let s = Stream(STREAM_TPI);
    assert_eq!(TypeStream::parse(s, vec![1u8; 10]).err(), Some(TypeStreamError::HeaderTooShort(s)));

    let mut h = TypeStreamHeader::empty();
    h.type_index_begin = TypeIndex(0x1001);
    assert_eq!(TypeStream::parse(s, h.as_bytes()).err(), Some(TypeStreamError::TypeIndexRangeReversed(s)));

    let mut h = TypeStreamHeader::empty();
    h.type_index_begin = TypeIndex(0x10);
    assert_eq!(TypeStream::parse(s, h.as_bytes()).err(), Some(TypeStreamError::TypeIndexBeginTooSmall(TypeIndex(0x10))));

    let mut h = TypeStreamHeader::empty();
    h.header_size = 55;
    assert_eq!(TypeStream::parse(s, h.as_bytes()).err(), Some(TypeStreamError::HeaderSizeTooSmall(s)));

    let mut h = TypeStreamHeader::empty();
    h.type_record_bytes = 1;
    assert_eq!(TypeStream::parse(s, h.as_bytes()).err(), Some(TypeStreamError::TypeRecordsPastEnd(s)));

    let h = TypeStreamHeader::empty();
    assert!(TypeStream::parse(s, h.as_bytes()).is_ok());
}

#[test]
fn records_follow_the_header() {
    let bytes = stream_bytes(&[record(0x1505, &[1, 2, 3, 4]), record(LF_FIELDLIST, &[])]);
    let ts = TypeStream::parse(Stream(STREAM_IPI), bytes).unwrap();
    assert_eq!(ts.num_types(), 2);
    assert_eq!(ts.records_offset(), 56);
    assert_eq!(ts.type_records_range(), 56..68);
    assert_eq!(ts.record_starts(), &[0, 8, 12]);
    let r = ts.record(TypeIndex(0x1000)).unwrap();
    assert_eq!((r.kind, r.data), (0x1505, &[1u8, 2, 3, 4][..]));
    let r = ts.record(TypeIndex(0x1001)).unwrap();
    assert_eq!((r.kind, r.data.len()), (LF_FIELDLIST, 0));
    assert!(ts.is_primitive(TypeIndex(0x74)));
    assert!(!ts.is_primitive(TypeIndex(0x1000)));
    assert_eq!(ts.record(TypeIndex(0x74)).unwrap_err(), TypeStreamError::PrimitiveTypeIndex(TypeIndex(0x74)));
    assert_eq!(ts.record(TypeIndex(0x1002)).unwrap_err(), TypeStreamError::RecordDecodeFailed(TypeIndex(0x1002)));
    assert_eq!(ts.record(TypeIndex(0x1003)).unwrap_err(), TypeStreamError::TypeIndexOutOfRange(TypeIndex(0x1003)));
    let mut it = ts.iter_type_records();
    assert_eq!(it.next().unwrap().kind, 0x1505);
    assert_eq!(it.next().unwrap().kind, LF_FIELDLIST);
    assert!(it.next().is_none());
}

#[test]
fn type_index_map_gives_each_record_range() {
    let bytes = stream_bytes(&[record(0x1505, &[1, 2, 3, 4]), record(LF_FIELDLIST, &[])]);
    let ts = TypeStream::parse(Stream(STREAM_TPI), bytes).unwrap();
    let map = ts.build_types_starts();
    assert_eq!(map.type_index_begin, TypeIndex(0x1000));
    assert_eq!(map.type_index_end, TypeIndex(0x1002));
    assert_eq!(map.starts, vec![0, 8, 12]);
    assert_eq!(map.record_range(TypeIndex(0x1000)).unwrap(), 0..8);
    assert_eq!(map.record_range(TypeIndex(0x1001)).unwrap(), 8..12);
    assert_eq!(map.record_range(TypeIndex(0x1002)).unwrap_err(), TypeStreamError::MapTypeIndexOutOfRange(TypeIndex(0x1002)));
    assert_eq!(map.record_range(TypeIndex(3)).unwrap_err(), TypeStreamError::MapPrimitiveTypeIndex(TypeIndex(3)));
    assert!(map.is_primitive(TypeIndex(0xfff)));
    assert!(!map.is_primitive(TypeIndex(0x1000)));
    // The range of each record, within the record bytes, holds exactly that record.
    let records = ts.type_records_bytes();
    let range = map.record_range(TypeIndex(0x1000)).unwrap();
    let rec = ts.record(TypeIndex(0x1000)).unwrap();
    assert_eq!(&records[range.start + 4..range.end], rec.data);
}

#[test]
fn to_ref_borrows_the_same_stream() {
    let bytes = stream_bytes(&[record(0x1505, &[9, 9])]);
    let ts = TypeStream::parse(Stream(STREAM_TPI), bytes).unwrap();
    let r = ts.to_ref();
    assert_eq!(r.stream_data, &ts.stream_data[..]);
    assert_eq!(r.type_index_end(), TypeIndex(0x1001));
    assert_eq!(r.record(TypeIndex(0x1000)).unwrap().data, &[9, 9]);
}

#[test]
fn record_bytes_can_be_rewritten_in_place() {
    let bytes = stream_bytes(&[record(0x1505, &[1, 2])]);
    let mut ts = TypeStream::parse(Stream(STREAM_TPI), bytes).unwrap();
    {
        let recs = ts.type_records_bytes_mut();
        assert_eq!(recs.len(), 6);
        recs[4] = 7;
    }
    assert_eq!(ts.stream_data[60], 7);
    assert_eq!(ts.stream_data.len(), 62);
    assert_eq!(ts.header().unwrap().type_record_bytes, 6);
}

#[test]
fn chain_reports_a_continuation_to_a_record_that_is_not_a_field_list() {
    let mut first = member_item(b"a");
    first.extend_from_slice(&index_item(0x1001));
    let ts = TypeStream::parse(
        Stream(STREAM_TPI),
        stream_bytes(&[record(LF_FIELDLIST, &first), record(0x1505, &[0, 0])]),
    )
    .unwrap();
    let got = collect_fields(&ts, 0x1000);
    assert_eq!(got.len(), 2);
    assert!(matches!(got[0], Ok(Field::Member(_))));
    assert_eq!(got[1].as_ref().unwrap_err(), &TypeStreamError::NotFieldList(TypeIndex(0x1001)));
    assert!(got[1].as_ref().unwrap_err().message().contains("LF_FIELDLIST"));
}

#[test]
fn chain_reports_a_continuation_out_of_range_and_a_bad_item() {
    let mut first = member_item(b"a");
    first.extend_from_slice(&index_item(0x2000));
    let ts = TypeStream::parse(Stream(STREAM_TPI), stream_bytes(&[record(LF_FIELDLIST, &first)])).unwrap();
    let got = collect_fields(&ts, 0x1000);
    assert_eq!(got.len(), 2);
    assert_eq!(got[1].as_ref().unwrap_err(), &TypeStreamError::TypeIndexOutOfRange(TypeIndex(0x2000)));

    let mut bad = member_item(b"a");
    bad.extend_from_slice(&0xdeadu16.to_le_bytes());
    bad.extend_from_slice(&index_item(0x1000));
    let ts = TypeStream::parse(Stream(STREAM_TPI), stream_bytes(&[record(LF_FIELDLIST, &bad)])).unwrap();
    let got = collect_fields(&ts, 0x1000);
    assert_eq!(got.len(), 2);
    assert_eq!(got[1].as_ref().unwrap_err(), &TypeStreamError::FieldDecodeFailed);
}

#[test]
fn chain_to_itself_is_a_cycle_and_index_zero_is_empty() {
    let mut first = member_item(b"a");
    first.extend_from_slice(&member_item(b"b"));
    first.extend_from_slice(&index_item(0x1000));
    let ts = TypeStream::parse(Stream(STREAM_TPI), stream_bytes(&[record(LF_FIELDLIST, &first)])).unwrap();
    let got = collect_fields(&ts, 0x1000);
    assert_eq!(got.len(), 3);
    assert!(matches!(got[0], Ok(Field::Member(m)) if m.name == b"a"));
    assert!(matches!(got[1], Ok(Field::Member(m)) if m.name == b"b"));
    assert_eq!(got[2].as_ref().unwrap_err(), &TypeStreamError::FieldListCycle(TypeIndex(0x1000)));
    assert!(collect_fields(&ts, 0).is_empty());
    assert_eq!(collect_fields(&ts, 0x20)[0].as_ref().unwrap_err(), &TypeStreamError::PrimitiveTypeIndex(TypeIndex(0x20)));
    // After the last item, iteration keeps ending.
    let mut it = ts.iter_fields(TypeIndex(0x1000));
    for _ in 0..3 {
        assert!(it.next().is_some());
    }
    assert!(it.next().is_none());
    assert!(it.next().is_none());
}

#[test]
fn pdb_reads_its_type_streams() {
    let tpi = stream_bytes(&[record(0x1505, &[1, 2])]);
    let pdb = Pdb { streams: vec![vec![], vec![], tpi.clone()] };
    let ts = pdb.read_type_stream().unwrap();
    assert_eq!(ts.stream_data, tpi);
    assert_eq!(ts.num_types(), 1);
    assert_eq!(pdb.read_ipi_stream().err(), Some(TypeStreamError::StreamNotFound(STREAM_IPI)));
    assert_eq!(pdb.read_stream_to_vec(1).unwrap(), Vec::<u8>::new());
    let bad = Pdb { streams: vec![vec![], vec![], vec![1, 2, 3]] };
    assert_eq!(
        bad.read_tpi_or_ipi_stream(Stream(STREAM_TPI)).err(),
        Some(TypeStreamError::HeaderTooShort(Stream(STREAM_TPI)))
    );
}

#[test]
fn stream_kinds_and_hash_stream_indices() {
    assert_eq!(TypeStreamKind::TPI.stream(), Stream(2));
    assert_eq!(TypeStreamKind::IPI.stream(), Stream(4));
    assert_eq!(StreamIndexU16(5).get(), Some(5));
    assert_eq!(StreamIndexU16(STREAM_INDEX_NIL).get(), None);
    let mut h = TypeStreamHeader::empty();
    h.hash_stream_index = StreamIndexU16(9);
    h.version = 7;
    let ts = TypeStream::parse(Stream(STREAM_TPI), h.as_bytes()).unwrap();
    assert_eq!(ts.hash_stream(), Some(9));
    assert_eq!(ts.version(), 7);
    assert_eq!(ts.header(), Some(h));
}

#[test]
fn error_messages_describe_each_error() {
    assert!(TypeStreamError::FieldListCycle(TypeIndex(1)).message().contains("cycle"));
    assert_eq!(
        TypeStreamError::TypeIndexOutOfRange(TypeIndex(1)).message(),
        "The given TypeIndex TypeIndex(1) is out of bounds (exceeds maximum allowed TypeIndex)"
    );
    assert!(TypeStreamError::HeaderTooShort(Stream(2)).message().contains("header"));
}

#[test]
fn error_messages_name_the_stream_and_type_index() {
    let ti = TypeIndex(0x10);
    assert_eq!(
        TypeStreamError::TypeIndexBeginTooSmall(ti).message(),
        format!(
            "The Type Stream has an invalid value for type_index_begin ({:?}). It is less than the minimum required value ({}).",
            ti, 4096
        )
    );
    assert_eq!(
        TypeStreamError::TypeIndexRangeReversed(Stream(2)).message(),
        "Type stream (stream 2) has invalid values in header.  The type_index_begin field is greater than the type_index_end field."
    );
    assert_eq!(
        TypeStreamError::HeaderSizeTooSmall(Stream(4)).message(),
        "Type stream (stream 4) has invalid values in header.  The header_size field is smaller than the definition of the actual header."
    );
    assert_eq!(
        TypeStreamError::TypeRecordsPastEnd(Stream(12345)).message(),
        "Type stream (stream 12345) has invalid values in header.  The header_size and type_record_bytes fields exceed the size of the stream."
    );
    assert_eq!(
        TypeStreamError::NotFieldList(TypeIndex(0x1001)).message(),
        format!("LF_INDEX continuation at {:?} does not point to an LF_FIELDLIST", TypeIndex(0x1001))
    );
    assert_eq!(
        TypeStreamError::FieldListCycle(TypeIndex(4097)).message(),
        "cycle detected in LF_FIELDLIST continuation chain at TypeIndex(4097)"
    );
    assert_eq!(
        TypeStreamError::MapPrimitiveTypeIndex(TypeIndex(3)).message(),
        "The TypeIndex is a primitive type, not a type record."
    );
    assert_eq!(TypeStreamError::MapTypeIndexOutOfRange(TypeIndex(0x2000)).message(), "The TypeIndex is out of range.");
    assert_eq!(
        TypeStreamError::PrimitiveTypeIndex(TypeIndex(3)).message(),
        "The given TypeIndex is a primitive type index, not a type record."
    );
    assert_eq!(TypeStreamError::RecordDecodeFailed(TypeIndex(0x1000)).message(), "Failed to decode type record");
}

#[test]
fn set_header_rewrites_the_header_bytes_only() {
    let bytes = stream_bytes(&[record(0x1505, &[1, 2])]);
    let mut ts = TypeStream::parse(Stream(STREAM_TPI), bytes.clone()).unwrap();
    let mut h = ts.header().unwrap();
    h.version = TYPE_STREAM_VERSION_2004;
    assert!(ts.set_header(&h));
    assert_eq!(ts.version(), TYPE_STREAM_VERSION_2004);
    assert_eq!(&ts.stream_data[56..], &bytes[56..]);
    assert_eq!(&ts.stream_data[..56], &h.as_bytes()[..]);
    let mut short = TypeStream::parse(Stream(STREAM_TPI), Vec::new()).unwrap();
    assert!(!short.set_header(&h));
    assert!(short.stream_data.is_empty());
}

#[test]
fn cached_header_gives_its_index_range() {
    let none = CachedTypeStreamHeader { header: None };
    assert!(none.header().is_none());
    assert_eq!(none.type_index_begin(), TypeIndex(0x1000));
    assert_eq!(none.type_index_end(), TypeIndex(0x1000));
    let mut h = TypeStreamHeader::empty();
    h.type_index_end = TypeIndex(0x1050);
    let some = CachedTypeStreamHeader { header: Some(h) };
    assert_eq!(some.header(), Some(&h));
    assert_eq!(some.type_index_begin(), TypeIndex(0x1000));
    assert_eq!(some.type_index_end(), TypeIndex(0x1050));
}

#[test]
fn record_bytes_past_a_short_stream_are_an_error_not_an_overflow() {
    let s = Stream(STREAM_TPI);
    let mut h = TypeStreamHeader::empty();
    h.type_record_bytes = 0xffff_ffff;
    assert_eq!(TypeStream::parse(s, h.as_bytes()).err(), Some(TypeStreamError::TypeRecordsPastEnd(s)));
    let mut h = TypeStreamHeader::empty();
    h.header_size = 0xffff_fff0;
    h.type_record_bytes = 0x20;
    assert_eq!(TypeStream::parse(s, h.as_bytes()).err(), Some(TypeStreamError::TypeRecordsPastEnd(s)));
}

#[test]
fn stream_bytes_are_the_whole_stream() {
    let bytes = stream_bytes(&[record(0x1505, &[1, 2])]);
    let ts = TypeStream::parse(Stream(STREAM_TPI), bytes.clone()).unwrap();
    assert_eq!(ts.stream_bytes(), &bytes[..]);
    assert_eq!(ts.stream_bytes().len(), 62);
}

#[test]
fn recheck_takes_a_changed_header_and_rebuilds_the_starts() {
    let bytes = stream_bytes(&[record(0x1505, &[1, 2]), record(0x1505, &[3, 4])]);
    let mut ts = TypeStream::parse(Stream(STREAM_TPI), bytes).unwrap();
    assert_eq!(ts.record_starts(), &[0, 6, 12]);
    // Shrink the records to the first one and move the index range.
    let mut h = ts.header().unwrap();
    h.type_index_begin = TypeIndex(0x2000);
    h.type_index_end = TypeIndex(0x2001);
    h.type_record_bytes = 6;
    assert!(ts.set_header(&h));
    assert!(ts.recheck());
    assert_eq!(ts.type_index_begin(), TypeIndex(0x2000));
    assert_eq!(ts.type_index_end(), TypeIndex(0x2001));
    assert_eq!(ts.record_starts(), &[0, 6]);
    assert_eq!(ts.record(TypeIndex(0x2000)).unwrap().data, &[1, 2]);
    assert_eq!(ts.record(TypeIndex(0x2001)).unwrap_err(), TypeStreamError::RecordDecodeFailed(TypeIndex(0x2001)));
    assert_eq!(ts.record(TypeIndex(0x2002)).unwrap_err(), TypeStreamError::TypeIndexOutOfRange(TypeIndex(0x2002)));
}

#[test]
fn recheck_refuses_a_broken_header_and_keeps_the_range() {
    let bytes = stream_bytes(&[record(0x1505, &[1, 2])]);
    let mut ts = TypeStream::parse(Stream(STREAM_TPI), bytes).unwrap();
    let mut h = ts.header().unwrap();
    h.type_record_bytes = 1000;
    assert!(ts.set_header(&h));
    assert!(!ts.recheck());
    assert_eq!(ts.type_index_begin(), TypeIndex(0x1000));
    assert_eq!(ts.type_index_end(), TypeIndex(0x1001));
    assert_eq!(ts.header().unwrap().type_record_bytes, 1000);
}

#[test]
fn a_mutable_slice_holds_a_type_stream() {
    let mut bytes = stream_bytes(&[record(0x1505, &[1, 2])]);
    let mut ts = TypeStream::parse(Stream(STREAM_TPI), &mut bytes[..]).unwrap();
    assert_eq!(ts.num_types(), 1);
    ts.type_records_bytes_mut()[4] = 9;
    assert!(ts.recheck());
    assert_eq!(ts.record(TypeIndex(0x1000)).unwrap().data, &[9, 2]);
    let mut h = ts.header().unwrap();
    h.version = TYPE_STREAM_VERSION_2004;
    assert!(ts.set_header(&h));
    assert_eq!(ts.version(), TYPE_STREAM_VERSION_2004);
    drop(ts);
    assert_eq!(&bytes[0..4], &TYPE_STREAM_VERSION_2004.to_le_bytes());
}

#[test]
fn chain_ends_at_a_later_continuation_to_another_kind_of_record() {
    let mut first = member_item(b"a");
    first.extend_from_slice(&index_item(0x1001));
    let mut second = member_item(b"b");
    second.extend_from_slice(&index_item(0x1002));
    let ts = TypeStream::parse(
        Stream(STREAM_TPI),
        stream_bytes(&[record(LF_FIELDLIST, &first), record(LF_FIELDLIST, &second), record(0x1505, &[0, 0])]),
    )
    .unwrap();
    let mut it = ts.iter_fields(TypeIndex(0x1000));
    assert!(matches!(it.next(), Some(Ok(Field::Member(m))) if m.name == b"a"));
    assert!(matches!(it.next(), Some(Ok(Field::Member(m))) if m.name == b"b"));
    assert_eq!(it.next().unwrap().unwrap_err(), TypeStreamError::NotFieldList(TypeIndex(0x1002)));
    assert!(it.next().is_none());
    assert!(it.next().is_none());
}
