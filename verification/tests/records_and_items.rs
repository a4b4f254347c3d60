use ms_pdb::fields::{
    introduces_virtual, Field, FieldList, LF_BCLASS, LF_ENUMERATE, LF_FRIENDCLS, LF_FRIENDFCN,
    LF_INDEX, LF_IVBCLASS, LF_MEMBER, LF_METHOD, LF_NESTEDTYPE, LF_NESTEDTYPEEX, LF_ONEMETHOD,
    LF_STMEMBER, LF_VBCLASS, LF_VFUNCOFF, LF_VFUNCTAB,
};
use ms_pdb::parser::{Parser, LF_USHORT, LF_UTF8STRING, LF_VARSTRING};
use ms_pdb::types::{build_types_starts, TypeIndex, TypesIter};

fn item(kind: u16, body: &[u8]) -> Vec<u8> {
    let mut v = kind.to_le_bytes().to_vec();
    v.extend_from_slice(body);
    v
}

fn parse_one(bytes: &[u8]) -> (Option<Field<'_>>, usize) {
    let mut p = Parser::new(bytes);
    let r = Field::parse(&mut p).ok();
    (r, p.len())
}

#[test]
fn little_endian_integers_decode() {
    let bytes = [0x34u8, 0x12, 0x78, 0x56, 0xff];
    let mut p = Parser::new(&bytes);
    assert_eq!(p.u16().unwrap(), 0x1234);
    assert_eq!(p.len(), 3);
    let mut q = Parser::new(&bytes);
    assert_eq!(q.u32().unwrap(), 0x5678_1234);
    assert_eq!(q.peek_rest(), &[0xff]);
    let mut short = Parser::new(&bytes[..1]);
    assert!(short.u16().is_err());
    assert_eq!(short.len(), 1);
}

#[test]
fn strz_reads_to_the_first_nul() {
    let bytes = b"ab\0cd\0";
    let mut p = Parser::new(bytes);
    assert_eq!(p.strz().unwrap(), b"ab");
    assert_eq!(p.strz().unwrap(), b"cd");
    assert!(p.is_empty());
    let mut q = Parser::new(b"no nul");
    assert!(q.strz().is_err());
}

#[test]
fn numeric_leaves_have_their_encoded_lengths() {
    // Immediate value.
    let imm = [0x05u8, 0x00, 0xaa];
    let mut p = Parser::new(&imm);
    assert_eq!(p.number().unwrap().bytes, &[0x05, 0x00]);
    assert_eq!(p.len(), 1);
    // LF_USHORT carries two more bytes.
    let mut us = LF_USHORT.to_le_bytes().to_vec();
    us.extend_from_slice(&[0x34, 0x12, 0x99]);
    let mut p = Parser::new(&us);
    assert_eq!(p.number().unwrap().bytes.len(), 4);
    assert_eq!(p.len(), 1);
    // LF_VARSTRING carries a u16 length and that many bytes.
    let mut vs = LF_VARSTRING.to_le_bytes().to_vec();
    vs.extend_from_slice(&[3, 0, b'x', b'y', b'z', 7]);
    let mut p = Parser::new(&vs);
    assert_eq!(p.number().unwrap().bytes.len(), 7);
    assert_eq!(p.len(), 1);
    // LF_UTF8STRING carries a NUL-terminated string.
    let mut u8s = LF_UTF8STRING.to_le_bytes().to_vec();
    u8s.extend_from_slice(b"hi\0!");
    let mut p = Parser::new(&u8s);
    assert_eq!(p.number().unwrap().bytes.len(), 5);
    assert_eq!(p.len(), 1);
    // An unknown numeric leaf is an error; so is a payload cut short.
    let mut p = Parser::new(&[0x11, 0x80, 0, 0]);
    assert!(p.number().is_err());
    let mut p = Parser::new(&[0x02, 0x80, 0]);
    assert!(p.number().is_err());
}

#[test]
fn every_item_kind_decodes() {
    let name = b"n\0";
    let mut ty_name = vec![0, 0];
    ty_name.extend_from_slice(&0x1234u32.to_le_bytes());
    ty_name.extend_from_slice(name);

    let mut bclass = vec![1, 0];
    bclass.extend_from_slice(&0x1001u32.to_le_bytes());
    bclass.extend_from_slice(&[8, 0]);
    match parse_one(&item(LF_BCLASS, &bclass)) {
        (Some(Field::BaseClass(b)), 0) => {
            assert_eq!(b.attr, 1);
            assert_eq!(b.ty, TypeIndex(0x1001));
            assert_eq!(b.offset.bytes, &[8, 0]);
        }
        other => panic!("{other:?}"),
    }

    let mut vb = vec![2, 0];
    vb.extend_from_slice(&0x1002u32.to_le_bytes());
    vb.extend_from_slice(&0x1003u32.to_le_bytes());
    vb.extend_from_slice(&[4, 0, 0, 0]);
    match parse_one(&item(LF_VBCLASS, &vb)) {
        (Some(Field::DirectVirtualBaseClass(b)), 0) => {
            assert_eq!(b.fixed.attr, 2);
            assert_eq!(b.fixed.btype, TypeIndex(0x1002));
            assert_eq!(b.fixed.vbtype, TypeIndex(0x1003));
            assert_eq!(b.vbpoff.bytes, &[4, 0]);
            assert_eq!(b.vboff.bytes, &[0, 0]);
        }
        other => panic!("{other:?}"),
    }
    assert!(matches!(
        parse_one(&item(LF_IVBCLASS, &vb)),
        (Some(Field::IndirectVirtualBaseClass(_)), 0)
    ));

    let mut en = vec![3, 0, 7, 0];
    en.extend_from_slice(b"seven\0");
    match parse_one(&item(LF_ENUMERATE, &en)) {
        (Some(Field::Enumerate(e)), 0) => {
            assert_eq!(e.attr, 3);
            assert_eq!(e.value.bytes, &[7, 0]);
            assert_eq!(e.name, b"seven");
        }
        other => panic!("{other:?}"),
    }

    match parse_one(&item(LF_FRIENDFCN, &ty_name)) {
        (Some(Field::FriendFn(f)), 0) => {
            assert_eq!(f.ty, TypeIndex(0x1234));
            assert_eq!(f.name, b"n");
        }
        other => panic!("{other:?}"),
    }
    match parse_one(&item(LF_NESTEDTYPE, &ty_name)) {
        (Some(Field::NestedType(f)), 0) => {
            assert_eq!(f.nested_ty, TypeIndex(0x1234));
            assert_eq!(f.name, b"n");
        }
        other => panic!("{other:?}"),
    }

    let mut padded = vec![0, 0];
    padded.extend_from_slice(&0x2000u32.to_le_bytes());
    assert!(matches!(parse_one(&item(LF_INDEX, &padded)), (Some(Field::Index(TypeIndex(0x2000))), 0)));
    assert!(matches!(
        parse_one(&item(LF_VFUNCTAB, &padded)),
        (Some(Field::VFuncTable(TypeIndex(0x2000))), 0)
    ));
    assert!(matches!(
        parse_one(&item(LF_FRIENDCLS, &padded)),
        (Some(Field::FriendClass(TypeIndex(0x2000))), 0)
    ));

    let mut member = vec![5, 0];
    member.extend_from_slice(&0x1005u32.to_le_bytes());
    member.extend_from_slice(&[0x10, 0]);
    member.extend_from_slice(b"m\0");
    match parse_one(&item(LF_MEMBER, &member)) {
        (Some(Field::Member(m)), 0) => {
            assert_eq!(m.attr, 5);
            assert_eq!(m.ty, TypeIndex(0x1005));
            assert_eq!(m.offset.bytes, &[0x10, 0]);
            assert_eq!(m.name, b"m");
        }
        other => panic!("{other:?}"),
    }

    let mut named = vec![9, 0];
    named.extend_from_slice(&0x1006u32.to_le_bytes());
    named.extend_from_slice(b"s\0");
    match parse_one(&item(LF_STMEMBER, &named)) {
        (Some(Field::StaticMember(m)), 0) => {
            assert_eq!((m.attr, m.ty, m.name), (9, TypeIndex(0x1006), &b"s"[..]));
        }
        other => panic!("{other:?}"),
    }
    match parse_one(&item(LF_METHOD, &named)) {
        (Some(Field::Method(m)), 0) => {
            assert_eq!((m.count, m.methods, m.name), (9, TypeIndex(0x1006), &b"s"[..]));
        }
        other => panic!("{other:?}"),
    }
    match parse_one(&item(LF_NESTEDTYPEEX, &named)) {
        (Some(Field::NestedTypeEx(m)), 0) => {
            assert_eq!((m.attr, m.ty, m.name), (9, TypeIndex(0x1006), &b"s"[..]));
        }
        other => panic!("{other:?}"),
    }

    let mut vfo = vec![0, 0];
    vfo.extend_from_slice(&0x1007u32.to_le_bytes());
    vfo.extend_from_slice(&24u32.to_le_bytes());
    match parse_one(&item(LF_VFUNCOFF, &vfo)) {
        (Some(Field::VFuncOffset(v)), 0) => {
            assert_eq!(v.vtable_ty, TypeIndex(0x1007));
            assert_eq!(v.offset, 24);
        }
        other => panic!("{other:?}"),
    }
}

#[test]
fn one_method_reads_vbaseoff_only_when_introducing_virtual() {
    // attr 0x10: method properties 4, "introducing virtual".
    let mut intro = vec![0x10, 0];
    intro.extend_from_slice(&0x1008u32.to_le_bytes());
    intro.extend_from_slice(&16u32.to_le_bytes());
    intro.extend_from_slice(b"f\0");
    match parse_one(&item(LF_ONEMETHOD, &intro)) {
        (Some(Field::OneMethod(m)), 0) => {
            assert_eq!((m.attr, m.ty, m.vbaseoff, m.name), (0x10, TypeIndex(0x1008), 16, &b"f"[..]));
        }
        other => panic!("{other:?}"),
    }
    // attr 0x04: method properties 1, "virtual", no offset.
    let mut plain = vec![0x04, 0];
    plain.extend_from_slice(&0x1008u32.to_le_bytes());
    plain.extend_from_slice(b"g\0");
    match parse_one(&item(LF_ONEMETHOD, &plain)) {
        (Some(Field::OneMethod(m)), 0) => {
            assert_eq!((m.attr, m.vbaseoff, m.name), (0x04, 0, &b"g"[..]));
        }
        other => panic!("{other:?}"),
    }
    assert!(introduces_virtual(0x10));
    assert!(introduces_virtual(0x18));
    assert!(!introduces_virtual(0x04));
    assert!(!introduces_virtual(0x14));
    assert!(!introduces_virtual(0));
}

#[test]
fn truncated_or_unknown_items_fail() {
    assert!(parse_one(&item(LF_MEMBER, &[0, 0, 0])).0.is_none());
    assert!(parse_one(&item(0x1234, &[0; 16])).0.is_none());
    assert!(parse_one(&[0x0d]).0.is_none());
}

#[test]
fn padding_bytes_are_skipped_and_padding_alone_ends_iteration() {
    let mut bytes = item(LF_INDEX, &[0, 0, 0x01, 0x10, 0, 0]);
    bytes.extend_from_slice(&[0xf2, 0xf1]);
    bytes.extend_from_slice(&item(LF_INDEX, &[0, 0, 0x02, 0x10, 0, 0]));
    bytes.extend_from_slice(&[0xf3, 0xf2, 0xf1]);
    let list = FieldList { bytes: &bytes };
    let mut it = list.iter();
    let got: Vec<_> = std::iter::from_fn(|| it.next()).collect();
    assert_eq!(got.len(), 2);
    assert!(matches!(got[1], Ok(Field::Index(TypeIndex(0x1002)))));
    // Only padding is left: the iterator ends without consuming it.
    assert_eq!(it.bytes, &[0xf3, 0xf2, 0xf1]);
    assert!(it.next().is_none());
}

#[test]
fn error_ends_field_iteration_and_empties_it() {
    let bytes = item(0x9999, &[1, 2, 3]);
    let list = FieldList { bytes: &bytes };
    let mut it = list.iter();
    assert!(matches!(it.next(), Some(Err(_))));
    assert!(it.bytes.is_empty());
    assert!(it.next().is_none());
}

fn type_record(kind: u16, data: &[u8]) -> Vec<u8> {
    let mut v = ((2 + data.len()) as u16).to_le_bytes().to_vec();
    v.extend_from_slice(&kind.to_le_bytes());
    v.extend_from_slice(data);
    v
}

#[test]
fn types_iter_yields_records_then_stops_at_a_bad_one() {
    let mut bytes = type_record(0x1203, &[1, 2]);
    bytes.extend_from_slice(&type_record(0x1505, &[3, 4, 5, 6]));
    bytes.extend_from_slice(&[9, 0, 1]); // claims 9 bytes, has 1
    let mut it = TypesIter::new(&bytes);
    let r1 = it.next().unwrap();
    assert_eq!((r1.kind, r1.data), (0x1203, &[1u8, 2][..]));
    let r2 = it.next().unwrap();
    assert_eq!((r2.kind, r2.data), (0x1505, &[3u8, 4, 5, 6][..]));
    assert!(it.next().is_none());
    assert!(it.rest().is_empty());
    assert!(it.next().is_none());
}

#[test]
fn starts_table_lists_each_record_and_where_decoding_ended() {
    let mut bytes = type_record(0x1203, &[1, 2]);
    bytes.extend_from_slice(&type_record(0x1505, &[3, 4, 5, 6]));
    assert_eq!(build_types_starts(2, &bytes), vec![0, 6, 14]);
    bytes.extend_from_slice(&[1, 0, 0, 0]); // a record whose length is below 2
    assert_eq!(build_types_starts(3, &bytes), vec![0, 6, 14]);
    assert_eq!(build_types_starts(0, &[]), vec![0]);
}

#[test]
fn a_failed_read_leaves_the_parser_within_its_input() {
    let bytes = [0x02u8, 0x80, 7];
    let mut p = Parser::new(&bytes);
    assert!(p.number().is_err());
    let rest = p.peek_rest();
    assert!(rest.len() <= bytes.len());
    assert_eq!(rest, &bytes[bytes.len() - rest.len()..]);

    // A method group whose name has no NUL fails, and the parser keeps a tail of the item.
    let mut body = 3u16.to_le_bytes().to_vec();
    body.extend_from_slice(&0x1010u32.to_le_bytes());
    body.extend_from_slice(b"abc");
    let bytes = item(LF_METHOD, &body);
    let mut p = Parser::new(&bytes);
    assert!(Field::parse(&mut p).is_err());
    let rest = p.peek_rest();
    assert_eq!(rest, &bytes[bytes.len() - rest.len()..]);
}
