use ms_pdb::fields::{FieldList, LF_MEMBER};

/// An `LF_MEMBER` item: attr(u16), ty(u32), offset(numeric), name(strz).
fn member_item(name: &[u8]) -> Vec<u8> {
    let mut v = Vec::new();
    v.extend_from_slice(&LF_MEMBER.to_le_bytes());
    v.extend_from_slice(&0u16.to_le_bytes()); // attr
    v.extend_from_slice(&0x1000u32.to_le_bytes()); // ty
    v.extend_from_slice(&0u16.to_le_bytes()); // offset: immediate numeric 0
    v.extend_from_slice(name);
    v.push(0);
    v
}

/// A well-formed field list decodes every item and then ends cleanly.
#[test]
fn iter_fields_decodes_all_items() {
    let mut bytes = member_item(b"a");
    bytes.extend_from_slice(&member_item(b"b"));
    let list = FieldList { bytes: &bytes };
    let mut it = list.iter();
    let got: Vec<_> = std::iter::from_fn(|| it.next()).collect();
    assert_eq!(got.len(), 2);
    assert!(got.iter().all(|f| f.is_ok()));
}

/// An unrecognized item kind must surface an error, NOT silently end iteration.
///
/// Silently truncating a field list makes a caller that computes record layout
/// produce a wrong answer with no indication that anything went wrong.
#[test]
fn iter_fields_reports_unrecognized_item_instead_of_truncating() {
    let mut bytes = member_item(b"a");
    bytes.extend_from_slice(&0xdeadu16.to_le_bytes()); // not a valid LF_* item kind
    let list = FieldList { bytes: &bytes };
    let mut it = list.iter();
    let got: Vec<_> = std::iter::from_fn(|| it.next()).collect();
    assert_eq!(got.len(), 2, "expected the good field and then an error");
    assert!(got[0].is_ok());
    assert!(got[1].is_err(), "unrecognized item kind must yield Err");
    // The iterator is fused after the error.
    let mut it2 = list.iter();
    assert!(std::iter::from_fn(|| it2.next()).nth(2).is_none());
}
