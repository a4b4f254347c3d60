//! The Type Information Stream (TPI) and the ID stream (IPI) of a PDB file.
//!
//! A type stream begins with a `TypeStreamHeader`, which gives, among other things, the range of
//! type indices that the stream defines and the size of the type record data that follows the
//! header. The type records follow one another; the record with the first type index comes
//! first.

use vstd::prelude::*;
use crate::bytes::{le_u16, le_u32, read_u16_le, read_u32_le};
use crate::text::{push_decimal, spec_decimal};
use vstd::string::StringExecFns;
use crate::types::{TypeIndex, TypeRecord, TypesIter, TYPE_INDEX_MIN_BEGIN, build_types_starts, spec_type_record, spec_types_starts, spec_iter_rest, lemma_iteration_matches_starts};
pub use crate::field_chain::IterFieldChain;

verus! {

/// The index of a stream within the MSF container of a PDB file.
#[derive(Clone, Copy, Debug, PartialEq, Eq, Structural, Hash)]
pub struct Stream(pub u32);

/// The index of the stream that holds the primary type stream (TPI).
pub const STREAM_TPI: u32 = 2;

/// The index of the stream that holds the ID stream (IPI).
pub const STREAM_IPI: u32 = 4;

/// A 16-bit stream index, in which `0xffff` means that there is no stream.
#[derive(Clone, Copy, Debug, PartialEq, Eq, Structural, Hash)]
pub struct StreamIndexU16(pub u16);

/// The value of a `StreamIndexU16` that means "no stream".
pub const STREAM_INDEX_NIL: u16 = 0xffff;

impl StreamIndexU16 {
    /// The stream index, or `None` for the nil stream.
    pub fn get(&self) -> (r: Option<u32>)
        ensures
            r == (if self.0 == 0xffff { None } else { Some(self.0 as u32) }),
    {
        if self.0 == 0xffff {
            None
        } else {
            Some(self.0 as u32)
        }
    }
}

} // verus!

verus! {

/// The size in bytes of an encoded `TypeStreamHeader`.
pub const TPI_STREAM_HEADER_LEN: usize = 56;

/// The expected value of `TypeStreamHeader::version`.
pub const TYPE_STREAM_VERSION_2004: u32 = 20040203;

/// The header of a type stream. It is stored little-endian, fields in the order below, with no
/// padding: 56 bytes in all.
#[derive(Clone, Copy, Debug, PartialEq, Eq, Structural)]
pub struct TypeStreamHeader {
    pub version: u32,
    pub header_size: u32,
    pub type_index_begin: TypeIndex,
    pub type_index_end: TypeIndex,
    /// The number of bytes of type record data following the header.
    pub type_record_bytes: u32,
    pub hash_stream_index: StreamIndexU16,
    pub hash_aux_stream_index: StreamIndexU16,
    /// The size of each hash key in the hash value substream; 4 for the current version.
    pub hash_key_size: u32,
    /// The number of hash buckets. Each record hash is taken modulo this number.
    pub num_hash_buckets: u32,
    pub hash_value_buffer_offset: i32,
    pub hash_value_buffer_length: u32,
    pub index_offset_buffer_offset: i32,
    pub index_offset_buffer_length: u32,
    pub hash_adj_buffer_offset: i32,
    pub hash_adj_buffer_length: u32,
}

/// The header encoded at the front of `s`, or `None` when `s` is shorter than a header.
pub open spec fn spec_header(s: Seq<u8>) -> Option<TypeStreamHeader> {
    if s.len() < 56 {
        None
    } else {
        Some(
            TypeStreamHeader {
                version: le_u32(s, 0),
                header_size: le_u32(s, 4),
                type_index_begin: TypeIndex(le_u32(s, 8)),
                type_index_end: TypeIndex(le_u32(s, 12)),
                type_record_bytes: le_u32(s, 16),
                hash_stream_index: StreamIndexU16(le_u16(s, 20)),
                hash_aux_stream_index: StreamIndexU16(le_u16(s, 22)),
                hash_key_size: le_u32(s, 24),
                num_hash_buckets: le_u32(s, 28),
                hash_value_buffer_offset: le_u32(s, 32) as i32,
                hash_value_buffer_length: le_u32(s, 36),
                index_offset_buffer_offset: le_u32(s, 40) as i32,
                index_offset_buffer_length: le_u32(s, 44),
                hash_adj_buffer_offset: le_u32(s, 48) as i32,
                hash_adj_buffer_length: le_u32(s, 52),
            },
        )
    }
}

/// The little-endian encoding of a `u16`.
#[verifier::opaque]
pub open spec fn u16_le_bytes(v: u16) -> Seq<u8> {
    seq![(v % 0x100) as u8, (v / 0x100) as u8]
}

/// The little-endian encoding of a `u32`.
#[verifier::opaque]
pub open spec fn u32_le_bytes(v: u32) -> Seq<u8> {
    seq![
        (v % 0x100) as u8,
        (v / 0x100 % 0x100) as u8,
        (v / 0x1_0000 % 0x100) as u8,
        (v / 0x100_0000) as u8,
    ]
}

/// The little-endian encoding of an `i32`: that of the `u32` with the same bits.
pub open spec fn i32_le_bytes(v: i32) -> Seq<u8> {
    u32_le_bytes(v as u32)
}

/// The 56 bytes that encode `h`.
pub open spec fn spec_header_bytes(h: TypeStreamHeader) -> Seq<u8> {
    u32_le_bytes(h.version) + u32_le_bytes(h.header_size) + u32_le_bytes(h.type_index_begin.0)
        + u32_le_bytes(h.type_index_end.0) + u32_le_bytes(h.type_record_bytes) + u16_le_bytes(
        h.hash_stream_index.0,
    ) + u16_le_bytes(h.hash_aux_stream_index.0) + u32_le_bytes(h.hash_key_size) + u32_le_bytes(
        h.num_hash_buckets,
    ) + i32_le_bytes(h.hash_value_buffer_offset) + u32_le_bytes(h.hash_value_buffer_length)
        + i32_le_bytes(h.index_offset_buffer_offset) + u32_le_bytes(h.index_offset_buffer_length)
        + i32_le_bytes(h.hash_adj_buffer_offset) + u32_le_bytes(h.hash_adj_buffer_length)
}

/// Decoding the little-endian encoding of a `u32` gives the `u32` back.
pub proof fn lemma_u32_le_roundtrip(s: Seq<u8>, i: int, v: u32)
    requires
        0 <= i,
        i + 4 <= s.len(),
        s.subrange(i, i + 4) == u32_le_bytes(v),
    ensures
        le_u32(s, i) == v,
{
    reveal(u32_le_bytes);
    assert(s[i] == s.subrange(i, i + 4)[0]);
    assert(s[i + 1] == s.subrange(i, i + 4)[1]);
    assert(s[i + 2] == s.subrange(i, i + 4)[2]);
    assert(s[i + 3] == s.subrange(i, i + 4)[3]);
}

/// Decoding the little-endian encoding of a `u16` gives the `u16` back.
pub proof fn lemma_u16_le_roundtrip(s: Seq<u8>, i: int, v: u16)
    requires
        0 <= i,
        i + 2 <= s.len(),
        s.subrange(i, i + 2) == u16_le_bytes(v),
    ensures
        le_u16(s, i) == v,
{
    reveal(u16_le_bytes);
    assert(s[i] == s.subrange(i, i + 2)[0]);
    assert(s[i + 1] == s.subrange(i, i + 2)[1]);
}

/// Decoding the little-endian encoding of an `i32` gives the `i32` back.
pub proof fn lemma_i32_le_roundtrip(s: Seq<u8>, i: int, v: i32)
    requires
        0 <= i,
        i + 4 <= s.len(),
        s.subrange(i, i + 4) == i32_le_bytes(v),
    ensures
        le_u32(s, i) as i32 == v,
{
    lemma_u32_le_roundtrip(s, i, v as u32);
    assert((v as u32) as i32 == v) by (bit_vector);
}

/// The encodings of `u16`, `u32` and `i32` values have 2, 4 and 4 bytes.
pub proof fn lemma_le_bytes_len(a: u16, b: u32, c: i32)
    ensures
        u16_le_bytes(a).len() == 2,
        u32_le_bytes(b).len() == 4,
        i32_le_bytes(c).len() == 4,
{
    reveal(u16_le_bytes);
    reveal(u32_le_bytes);
}

/// The piece `b` of a concatenation `a + b` is found right after `a`.
proof fn lemma_piece(a: Seq<u8>, b: Seq<u8>)
    ensures
        (a + b).subrange(a.len() as int, (a.len() + b.len()) as int) == b,
        (a + b).subrange(0, a.len() as int) == a,
{
    assert((a + b).subrange(a.len() as int, (a.len() + b.len()) as int) =~= b);
    assert((a + b).subrange(0, a.len() as int) =~= a);
}

/// A range within a prefix of `s` is the same range of `s`.
proof fn lemma_sub_of_prefix(s: Seq<u8>, n: int, i: int, j: int)
    requires
        0 <= i <= j <= n <= s.len(),
    ensures
        s.subrange(0, n).subrange(i, j) == s.subrange(i, j),
{
    assert(s.subrange(0, n).subrange(i, j) =~= s.subrange(i, j));
}

/// A 56-byte sequence whose pieces are the encodings of the fields of `h` decodes to `h`.
proof fn lemma_header_decode(s: Seq<u8>, h: TypeStreamHeader)
    requires
        s.len() == 56,
        s.subrange(0, 4) == u32_le_bytes(h.version),
        s.subrange(4, 8) == u32_le_bytes(h.header_size),
        s.subrange(8, 12) == u32_le_bytes(h.type_index_begin.0),
        s.subrange(12, 16) == u32_le_bytes(h.type_index_end.0),
        s.subrange(16, 20) == u32_le_bytes(h.type_record_bytes),
        s.subrange(20, 22) == u16_le_bytes(h.hash_stream_index.0),
        s.subrange(22, 24) == u16_le_bytes(h.hash_aux_stream_index.0),
        s.subrange(24, 28) == u32_le_bytes(h.hash_key_size),
        s.subrange(28, 32) == u32_le_bytes(h.num_hash_buckets),
        s.subrange(32, 36) == i32_le_bytes(h.hash_value_buffer_offset),
        s.subrange(36, 40) == u32_le_bytes(h.hash_value_buffer_length),
        s.subrange(40, 44) == i32_le_bytes(h.index_offset_buffer_offset),
        s.subrange(44, 48) == u32_le_bytes(h.index_offset_buffer_length),
        s.subrange(48, 52) == i32_le_bytes(h.hash_adj_buffer_offset),
        s.subrange(52, 56) == u32_le_bytes(h.hash_adj_buffer_length),
    ensures
        spec_header(s) == Some(h),
{
    lemma_u32_le_roundtrip(s, 0, h.version);
    lemma_u32_le_roundtrip(s, 4, h.header_size);
    lemma_u32_le_roundtrip(s, 8, h.type_index_begin.0);
    lemma_u32_le_roundtrip(s, 12, h.type_index_end.0);
    lemma_u32_le_roundtrip(s, 16, h.type_record_bytes);
    lemma_u16_le_roundtrip(s, 20, h.hash_stream_index.0);
    lemma_u16_le_roundtrip(s, 22, h.hash_aux_stream_index.0);
    lemma_u32_le_roundtrip(s, 24, h.hash_key_size);
    lemma_u32_le_roundtrip(s, 28, h.num_hash_buckets);
    lemma_i32_le_roundtrip(s, 32, h.hash_value_buffer_offset);
    lemma_u32_le_roundtrip(s, 36, h.hash_value_buffer_length);
    lemma_i32_le_roundtrip(s, 40, h.index_offset_buffer_offset);
    lemma_u32_le_roundtrip(s, 44, h.index_offset_buffer_length);
    lemma_i32_le_roundtrip(s, 48, h.hash_adj_buffer_offset);
    lemma_u32_le_roundtrip(s, 52, h.hash_adj_buffer_length);
}

/// Encoding a header and decoding the bytes gives the header back.
#[verifier::rlimit(30)]
pub proof fn lemma_header_roundtrip(h: TypeStreamHeader)
    ensures
        spec_header_bytes(h).len() == 56,
        spec_header(spec_header_bytes(h)) == Some(h),
{
    let p0 = u32_le_bytes(h.version);
    let p1 = p0 + u32_le_bytes(h.header_size);
    let p2 = p1 + u32_le_bytes(h.type_index_begin.0);
    let p3 = p2 + u32_le_bytes(h.type_index_end.0);
    let p4 = p3 + u32_le_bytes(h.type_record_bytes);
    let p5 = p4 + u16_le_bytes(h.hash_stream_index.0);
    let p6 = p5 + u16_le_bytes(h.hash_aux_stream_index.0);
    let p7 = p6 + u32_le_bytes(h.hash_key_size);
    let p8 = p7 + u32_le_bytes(h.num_hash_buckets);
    let p9 = p8 + i32_le_bytes(h.hash_value_buffer_offset);
    let p10 = p9 + u32_le_bytes(h.hash_value_buffer_length);
    let p11 = p10 + i32_le_bytes(h.index_offset_buffer_offset);
    let p12 = p11 + u32_le_bytes(h.index_offset_buffer_length);
    let p13 = p12 + i32_le_bytes(h.hash_adj_buffer_offset);
    let s = p13 + u32_le_bytes(h.hash_adj_buffer_length);
    assert(s == spec_header_bytes(h));
    lemma_le_bytes_len(h.hash_stream_index.0, h.version, h.hash_value_buffer_offset);
    lemma_le_bytes_len(h.hash_aux_stream_index.0, h.header_size, h.index_offset_buffer_offset);
    lemma_le_bytes_len(0, h.type_index_begin.0, h.hash_adj_buffer_offset);
    lemma_le_bytes_len(0, h.type_index_end.0, 0);
    lemma_le_bytes_len(0, h.type_record_bytes, 0);
    lemma_le_bytes_len(0, h.hash_key_size, 0);
    lemma_le_bytes_len(0, h.num_hash_buckets, 0);
    lemma_le_bytes_len(0, h.hash_value_buffer_length, 0);
    lemma_le_bytes_len(0, h.index_offset_buffer_length, 0);
    lemma_le_bytes_len(0, h.hash_adj_buffer_length, 0);
    lemma_piece(p0, u32_le_bytes(h.header_size));
    lemma_piece(p1, u32_le_bytes(h.type_index_begin.0));
    lemma_piece(p2, u32_le_bytes(h.type_index_end.0));
    lemma_piece(p3, u32_le_bytes(h.type_record_bytes));
    lemma_piece(p4, u16_le_bytes(h.hash_stream_index.0));
    lemma_piece(p5, u16_le_bytes(h.hash_aux_stream_index.0));
    lemma_piece(p6, u32_le_bytes(h.hash_key_size));
    lemma_piece(p7, u32_le_bytes(h.num_hash_buckets));
    lemma_piece(p8, i32_le_bytes(h.hash_value_buffer_offset));
    lemma_piece(p9, u32_le_bytes(h.hash_value_buffer_length));
    lemma_piece(p10, i32_le_bytes(h.index_offset_buffer_offset));
    lemma_piece(p11, u32_le_bytes(h.index_offset_buffer_length));
    lemma_piece(p12, i32_le_bytes(h.hash_adj_buffer_offset));
    lemma_piece(p13, u32_le_bytes(h.hash_adj_buffer_length));
    assert(s.len() == 56);
    // Each prefix is the front of the whole encoding.
    assert(s.subrange(0, 52) == p13);
    assert(p13.subrange(0, 48) == p12);
    assert(p12.subrange(0, 44) == p11);
    assert(p11.subrange(0, 40) == p10);
    assert(p10.subrange(0, 36) == p9);
    assert(p9.subrange(0, 32) == p8);
    assert(p8.subrange(0, 28) == p7);
    assert(p7.subrange(0, 24) == p6);
    assert(p6.subrange(0, 22) == p5);
    assert(p5.subrange(0, 20) == p4);
    assert(p4.subrange(0, 16) == p3);
    assert(p3.subrange(0, 12) == p2);
    assert(p2.subrange(0, 8) == p1);
    assert(p1.subrange(0, 4) == p0);
    lemma_sub_of_prefix(s, 52, 48, 52);
    lemma_sub_of_prefix(s, 52, 0, 48);
    assert(s.subrange(0, 48) == p12);
    lemma_sub_of_prefix(s, 48, 44, 48);
    lemma_sub_of_prefix(s, 48, 0, 44);
    assert(s.subrange(0, 44) == p11);
    lemma_sub_of_prefix(s, 44, 40, 44);
    lemma_sub_of_prefix(s, 44, 0, 40);
    assert(s.subrange(0, 40) == p10);
    lemma_sub_of_prefix(s, 40, 36, 40);
    lemma_sub_of_prefix(s, 40, 0, 36);
    assert(s.subrange(0, 36) == p9);
    lemma_sub_of_prefix(s, 36, 32, 36);
    lemma_sub_of_prefix(s, 36, 0, 32);
    assert(s.subrange(0, 32) == p8);
    lemma_sub_of_prefix(s, 32, 28, 32);
    lemma_sub_of_prefix(s, 32, 0, 28);
    assert(s.subrange(0, 28) == p7);
    lemma_sub_of_prefix(s, 28, 24, 28);
    lemma_sub_of_prefix(s, 28, 0, 24);
    assert(s.subrange(0, 24) == p6);
    lemma_sub_of_prefix(s, 24, 22, 24);
    lemma_sub_of_prefix(s, 24, 0, 22);
    assert(s.subrange(0, 22) == p5);
    lemma_sub_of_prefix(s, 22, 20, 22);
    lemma_sub_of_prefix(s, 22, 0, 20);
    assert(s.subrange(0, 20) == p4);
    lemma_sub_of_prefix(s, 20, 16, 20);
    lemma_sub_of_prefix(s, 20, 0, 16);
    assert(s.subrange(0, 16) == p3);
    lemma_sub_of_prefix(s, 16, 12, 16);
    lemma_sub_of_prefix(s, 16, 0, 12);
    assert(s.subrange(0, 12) == p2);
    lemma_sub_of_prefix(s, 12, 8, 12);
    lemma_sub_of_prefix(s, 12, 0, 8);
    assert(s.subrange(0, 8) == p1);
    lemma_sub_of_prefix(s, 8, 4, 8);
    lemma_sub_of_prefix(s, 8, 0, 4);
    lemma_header_decode(s, h);
}

} // verus!

verus! {

/// Appends the little-endian encoding of `x`.
fn push_u32_le(out: &mut Vec<u8>, x: u32)
    ensures
        final(out)@ == old(out)@ + u32_le_bytes(x),
{
    reveal(u32_le_bytes);
    out.push((x % 0x100) as u8);
    out.push((x / 0x100 % 0x100) as u8);
    out.push((x / 0x1_0000 % 0x100) as u8);
    out.push((x / 0x100_0000) as u8);
    assert(out@ =~= old(out)@ + u32_le_bytes(x));
}

/// Appends the little-endian encoding of `x`.
fn push_u16_le(out: &mut Vec<u8>, x: u16)
    ensures
        final(out)@ == old(out)@ + u16_le_bytes(x),
{
    reveal(u16_le_bytes);
    out.push((x % 0x100) as u8);
    out.push((x / 0x100) as u8);
    assert(out@ =~= old(out)@ + u16_le_bytes(x));
}

impl TypeStreamHeader {
    /// A header for a stream with no type records: the current header size, both type indices at
    /// the smallest first index, no hash streams, and every other field zero.
    pub fn empty() -> (h: TypeStreamHeader)
        ensures
            h == (TypeStreamHeader {
                version: 0,
                header_size: 56,
                type_index_begin: TypeIndex(TYPE_INDEX_MIN_BEGIN),
                type_index_end: TypeIndex(TYPE_INDEX_MIN_BEGIN),
                type_record_bytes: 0,
                hash_stream_index: StreamIndexU16(STREAM_INDEX_NIL),
                hash_aux_stream_index: StreamIndexU16(STREAM_INDEX_NIL),
                hash_key_size: 0,
                num_hash_buckets: 0,
                hash_value_buffer_offset: 0,
                hash_value_buffer_length: 0,
                index_offset_buffer_offset: 0,
                index_offset_buffer_length: 0,
                hash_adj_buffer_offset: 0,
                hash_adj_buffer_length: 0,
            }),
    {
        TypeStreamHeader {
            version: 0,
            header_size: TPI_STREAM_HEADER_LEN as u32,
            type_index_begin: TypeIndex(TYPE_INDEX_MIN_BEGIN),
            type_index_end: TypeIndex(TYPE_INDEX_MIN_BEGIN),
            type_record_bytes: 0,
            hash_stream_index: StreamIndexU16(STREAM_INDEX_NIL),
            hash_aux_stream_index: StreamIndexU16(STREAM_INDEX_NIL),
            hash_key_size: 0,
            num_hash_buckets: 0,
            hash_value_buffer_offset: 0,
            hash_value_buffer_length: 0,
            index_offset_buffer_offset: 0,
            index_offset_buffer_length: 0,
            hash_adj_buffer_offset: 0,
            hash_adj_buffer_length: 0,
        }
    }

    /// Decodes the header at the front of `bytes`; `None` when `bytes` is shorter than a header.
    pub fn read_from_prefix(bytes: &[u8]) -> (r: Option<TypeStreamHeader>)
        ensures
            r == spec_header(bytes@),
    {
        if bytes.len() < TPI_STREAM_HEADER_LEN {
            return None;
        }
        Some(
            TypeStreamHeader {
                version: read_u32_le(bytes, 0),
                header_size: read_u32_le(bytes, 4),
                type_index_begin: TypeIndex(read_u32_le(bytes, 8)),
                type_index_end: TypeIndex(read_u32_le(bytes, 12)),
                type_record_bytes: read_u32_le(bytes, 16),
                hash_stream_index: StreamIndexU16(read_u16_le(bytes, 20)),
                hash_aux_stream_index: StreamIndexU16(read_u16_le(bytes, 22)),
                hash_key_size: read_u32_le(bytes, 24),
                num_hash_buckets: read_u32_le(bytes, 28),
                hash_value_buffer_offset: read_u32_le(bytes, 32) as i32,
                hash_value_buffer_length: read_u32_le(bytes, 36),
                index_offset_buffer_offset: read_u32_le(bytes, 40) as i32,
                index_offset_buffer_length: read_u32_le(bytes, 44),
                hash_adj_buffer_offset: read_u32_le(bytes, 48) as i32,
                hash_adj_buffer_length: read_u32_le(bytes, 52),
            },
        )
    }

    /// The 56 bytes that encode this header.
    pub fn as_bytes(&self) -> (r: Vec<u8>)
        ensures
            r@ == spec_header_bytes(*self),
            r@.len() == TPI_STREAM_HEADER_LEN,
    {
        let mut out: Vec<u8> = Vec::new();
        push_u32_le(&mut out, self.version);
        push_u32_le(&mut out, self.header_size);
        push_u32_le(&mut out, self.type_index_begin.0);
        push_u32_le(&mut out, self.type_index_end.0);
        push_u32_le(&mut out, self.type_record_bytes);
        push_u16_le(&mut out, self.hash_stream_index.0);
        push_u16_le(&mut out, self.hash_aux_stream_index.0);
        push_u32_le(&mut out, self.hash_key_size);
        push_u32_le(&mut out, self.num_hash_buckets);
        push_u32_le(&mut out, self.hash_value_buffer_offset as u32);
        push_u32_le(&mut out, self.hash_value_buffer_length);
        push_u32_le(&mut out, self.index_offset_buffer_offset as u32);
        push_u32_le(&mut out, self.index_offset_buffer_length);
        push_u32_le(&mut out, self.hash_adj_buffer_offset as u32);
        push_u32_le(&mut out, self.hash_adj_buffer_length);
        proof {
            assert(out@ =~= spec_header_bytes(*self));
            lemma_header_roundtrip(*self);
        }
        out
    }
}

/// Distinguishes the TPI and IPI streams.
#[derive(Clone, Copy, Debug, PartialEq, Eq, Structural)]
pub enum TypeStreamKind {
    /// The primary type stream
    TPI,
    /// The ID stream
    IPI,
}

impl TypeStreamKind {
    /// The index of the stream; both are fixed.
    pub fn stream(self) -> (s: Stream)
        ensures
            s == (match self {
                TypeStreamKind::TPI => Stream(STREAM_TPI),
                TypeStreamKind::IPI => Stream(STREAM_IPI),
            }),
    {
        match self {
            TypeStreamKind::IPI => Stream(STREAM_IPI),
            TypeStreamKind::TPI => Stream(STREAM_TPI),
        }
    }
}

/// An entry of the type index offset buffer of a hash stream.
#[derive(Clone, Copy, Debug, PartialEq, Eq, Structural)]
pub struct HashIndexPair {
    /// The type index at the start of this range.
    pub type_index: TypeIndex,
    /// The offset within the type record data (not the whole stream) where this record begins.
    pub offset: u32,
}

/// The ways in which reading a type stream, or a record or field list within it, fails.
#[derive(Clone, Copy, Debug, PartialEq, Eq, Structural)]
pub enum TypeStreamError {
    /// The stream is not empty but is shorter than a stream header.
    HeaderTooShort(Stream),
    /// The header's `type_index_begin` is greater than its `type_index_end`.
    TypeIndexRangeReversed(Stream),
    /// The header's `type_index_begin` (given) is less than the smallest first type index.
    TypeIndexBeginTooSmall(TypeIndex),
    /// The header's `header_size` is smaller than the header itself.
    HeaderSizeTooSmall(Stream),
    /// The header's `header_size` and `type_record_bytes` reach past the end of the stream.
    TypeRecordsPastEnd(Stream),
    /// The type index names a primitive type, not a type record.
    PrimitiveTypeIndex(TypeIndex),
    /// The type index is past the last type record.
    TypeIndexOutOfRange(TypeIndex),
    /// The offset of the record lies outside the type record data.
    RecordOffsetOutOfRange(TypeIndex),
    /// The type record cannot be decoded.
    RecordDecodeFailed(TypeIndex),
    /// An item of a field list cannot be decoded.
    FieldDecodeFailed,
    /// An `LF_INDEX` continuation leads back to a field list already visited.
    FieldListCycle(TypeIndex),
    /// An `LF_INDEX` continuation names a record that is not an `LF_FIELDLIST`.
    NotFieldList(TypeIndex),
    /// The PDB has no stream with this index.
    StreamNotFound(u32),
    /// A type index map was asked for the byte range of a primitive type index.
    MapPrimitiveTypeIndex(TypeIndex),
    /// A type index map was asked for the byte range of a type index past its last record.
    MapTypeIndexOutOfRange(TypeIndex),
}

/// The pieces of the descriptions of the errors.
pub const MSG_HEADER_TOO_SHORT: &'static str = "type stream is shorter than its header";
pub const MSG_STREAM_PREFIX: &'static str = "Type stream (stream ";
pub const MSG_RANGE_REVERSED_SUFFIX: &'static str = ") has invalid values in header.  The type_index_begin field is greater than the type_index_end field.";
pub const MSG_BEGIN_TOO_SMALL_PREFIX: &'static str = "The Type Stream has an invalid value for type_index_begin (";
pub const MSG_BEGIN_TOO_SMALL_MIDDLE: &'static str = "). It is less than the minimum required value (";
pub const MSG_CLOSE_SENTENCE: &'static str = ").";
pub const MSG_HEADER_SIZE_SUFFIX: &'static str = ") has invalid values in header.  The header_size field is smaller than the definition of the actual header.";
pub const MSG_PAST_END_SUFFIX: &'static str = ") has invalid values in header.  The header_size and type_record_bytes fields exceed the size of the stream.";
pub const MSG_PRIMITIVE_TYPE_INDEX: &'static str = "The given TypeIndex is a primitive type index, not a type record.";
pub const MSG_OUT_OF_BOUNDS_PREFIX: &'static str = "The given TypeIndex ";
pub const MSG_OUT_OF_BOUNDS_SUFFIX: &'static str = " is out of bounds (exceeds maximum allowed TypeIndex)";
pub const MSG_RECORD_OFFSET_OUT_OF_RANGE: &'static str = "Internal error: record offset is out of range.";
pub const MSG_RECORD_DECODE_FAILED: &'static str = "Failed to decode type record";
pub const MSG_FIELD_DECODE_FAILED: &'static str = "failed to decode a field list item";
pub const MSG_CYCLE_PREFIX: &'static str = "cycle detected in LF_FIELDLIST continuation chain at ";
pub const MSG_NOT_FIELD_LIST_PREFIX: &'static str = "LF_INDEX continuation at ";
pub const MSG_NOT_FIELD_LIST_SUFFIX: &'static str = " does not point to an LF_FIELDLIST";
pub const MSG_STREAM_NOT_FOUND: &'static str = "the stream does not exist";
pub const MSG_MAP_PRIMITIVE: &'static str = "The TypeIndex is a primitive type, not a type record.";
pub const MSG_MAP_OUT_OF_RANGE: &'static str = "The TypeIndex is out of range.";
pub const MSG_TYPE_INDEX_OPEN: &'static str = "TypeIndex(";
pub const MSG_TYPE_INDEX_CLOSE: &'static str = ")";

/// How a type index reads in a description: `TypeIndex(n)`, `n` in decimal.
pub open spec fn spec_type_index_text(ti: TypeIndex) -> Seq<char> {
    MSG_TYPE_INDEX_OPEN@ + spec_decimal(ti.0 as nat) + MSG_TYPE_INDEX_CLOSE@
}

/// The description of error `e`. Stream numbers read in decimal; type indices as
/// `spec_type_index_text` gives them.
pub open spec fn spec_error_message(e: TypeStreamError) -> Seq<char> {
    match e {
        TypeStreamError::HeaderTooShort(_) => MSG_HEADER_TOO_SHORT@,
        TypeStreamError::TypeIndexRangeReversed(s) => MSG_STREAM_PREFIX@ + spec_decimal(s.0 as nat)
            + MSG_RANGE_REVERSED_SUFFIX@,
        TypeStreamError::TypeIndexBeginTooSmall(ti) => MSG_BEGIN_TOO_SMALL_PREFIX@
            + spec_type_index_text(ti) + MSG_BEGIN_TOO_SMALL_MIDDLE@ + spec_decimal(
            TYPE_INDEX_MIN_BEGIN as nat,
        ) + MSG_CLOSE_SENTENCE@,
        TypeStreamError::HeaderSizeTooSmall(s) => MSG_STREAM_PREFIX@ + spec_decimal(s.0 as nat)
            + MSG_HEADER_SIZE_SUFFIX@,
        TypeStreamError::TypeRecordsPastEnd(s) => MSG_STREAM_PREFIX@ + spec_decimal(s.0 as nat)
            + MSG_PAST_END_SUFFIX@,
        TypeStreamError::PrimitiveTypeIndex(_) => MSG_PRIMITIVE_TYPE_INDEX@,
        TypeStreamError::TypeIndexOutOfRange(ti) => MSG_OUT_OF_BOUNDS_PREFIX@ + spec_type_index_text(
            ti,
        ) + MSG_OUT_OF_BOUNDS_SUFFIX@,
        TypeStreamError::RecordOffsetOutOfRange(_) => MSG_RECORD_OFFSET_OUT_OF_RANGE@,
        TypeStreamError::RecordDecodeFailed(_) => MSG_RECORD_DECODE_FAILED@,
        TypeStreamError::FieldDecodeFailed => MSG_FIELD_DECODE_FAILED@,
        TypeStreamError::FieldListCycle(ti) => MSG_CYCLE_PREFIX@ + spec_type_index_text(ti),
        TypeStreamError::NotFieldList(ti) => MSG_NOT_FIELD_LIST_PREFIX@ + spec_type_index_text(ti)
            + MSG_NOT_FIELD_LIST_SUFFIX@,
        TypeStreamError::StreamNotFound(_) => MSG_STREAM_NOT_FOUND@,
        TypeStreamError::MapPrimitiveTypeIndex(_) => MSG_MAP_PRIMITIVE@,
        TypeStreamError::MapTypeIndexOutOfRange(_) => MSG_MAP_OUT_OF_RANGE@,
    }
}

/// Appends how `ti` reads in a description.
fn push_type_index(s: &mut String, ti: TypeIndex)
    ensures
        final(s)@ == old(s)@ + spec_type_index_text(ti),
{
    s.append(MSG_TYPE_INDEX_OPEN);
    push_decimal(s, ti.0);
    s.append(MSG_TYPE_INDEX_CLOSE);
    assert(s@ =~= old(s)@ + spec_type_index_text(ti));
}

impl TypeStreamError {
    /// A description of the error.
    pub fn message(&self) -> (s: String)
        ensures
            s@ == spec_error_message(*self),
    {
        match *self {
            TypeStreamError::HeaderTooShort(_) => MSG_HEADER_TOO_SHORT.to_owned(),
            TypeStreamError::TypeIndexRangeReversed(st) => {
                let mut s = MSG_STREAM_PREFIX.to_owned();
                push_decimal(&mut s, st.0);
                s.append(MSG_RANGE_REVERSED_SUFFIX);
                s
            },
            TypeStreamError::TypeIndexBeginTooSmall(ti) => {
                let mut s = MSG_BEGIN_TOO_SMALL_PREFIX.to_owned();
                push_type_index(&mut s, ti);
                s.append(MSG_BEGIN_TOO_SMALL_MIDDLE);
                push_decimal(&mut s, TYPE_INDEX_MIN_BEGIN);
                s.append(MSG_CLOSE_SENTENCE);
                s
            },
            TypeStreamError::HeaderSizeTooSmall(st) => {
                let mut s = MSG_STREAM_PREFIX.to_owned();
                push_decimal(&mut s, st.0);
                s.append(MSG_HEADER_SIZE_SUFFIX);
                s
            },
            TypeStreamError::TypeRecordsPastEnd(st) => {
                let mut s = MSG_STREAM_PREFIX.to_owned();
                push_decimal(&mut s, st.0);
                s.append(MSG_PAST_END_SUFFIX);
                s
            },
            TypeStreamError::PrimitiveTypeIndex(_) => MSG_PRIMITIVE_TYPE_INDEX.to_owned(),
            TypeStreamError::TypeIndexOutOfRange(ti) => {
                let mut s = MSG_OUT_OF_BOUNDS_PREFIX.to_owned();
                push_type_index(&mut s, ti);
                s.append(MSG_OUT_OF_BOUNDS_SUFFIX);
                s
            },
            TypeStreamError::RecordOffsetOutOfRange(_) => MSG_RECORD_OFFSET_OUT_OF_RANGE.to_owned(),
            TypeStreamError::RecordDecodeFailed(_) => MSG_RECORD_DECODE_FAILED.to_owned(),
            TypeStreamError::FieldDecodeFailed => MSG_FIELD_DECODE_FAILED.to_owned(),
            TypeStreamError::FieldListCycle(ti) => {
                let mut s = MSG_CYCLE_PREFIX.to_owned();
                push_type_index(&mut s, ti);
                s
            },
            TypeStreamError::NotFieldList(ti) => {
                let mut s = MSG_NOT_FIELD_LIST_PREFIX.to_owned();
                push_type_index(&mut s, ti);
                s.append(MSG_NOT_FIELD_LIST_SUFFIX);
                s
            },
            TypeStreamError::StreamNotFound(_) => MSG_STREAM_NOT_FOUND.to_owned(),
            TypeStreamError::MapPrimitiveTypeIndex(_) => MSG_MAP_PRIMITIVE.to_owned(),
            TypeStreamError::MapTypeIndexOutOfRange(_) => MSG_MAP_OUT_OF_RANGE.to_owned(),
        }
    }
}

} // verus!

verus! {

/// Byte storage that a type stream can be read from.
pub trait StreamBytes {
    /// The bytes held.
    spec fn bytes_view(&self) -> Seq<u8>;

    /// The bytes held, as a slice.
    fn stream_bytes(&self) -> (r: &[u8])
        ensures
            r@ == self.bytes_view(),
    ;
}

/// Byte storage that a type stream can be read from and written to.
pub trait StreamBytesMut: StreamBytes {
    /// The bytes held, as a mutable slice.
    fn stream_bytes_mut(&mut self) -> (r: &mut [u8])
        ensures
            r@ == old(self).bytes_view(),
            final(r)@ == final(self).bytes_view(),
    ;
}

impl StreamBytes for Vec<u8> {
    open spec fn bytes_view(&self) -> Seq<u8> {
        self@
    }

    fn stream_bytes(&self) -> (r: &[u8]) {
        self.as_slice()
    }
}

impl StreamBytesMut for Vec<u8> {
    fn stream_bytes_mut(&mut self) -> (r: &mut [u8]) {
        self.as_mut_slice()
    }
}

impl<'s> StreamBytes for &'s [u8] {
    open spec fn bytes_view(&self) -> Seq<u8> {
        (*self)@
    }

    fn stream_bytes(&self) -> (r: &[u8]) {
        *self
    }
}

impl<'s> StreamBytes for &'s mut [u8] {
    open spec fn bytes_view(&self) -> Seq<u8> {
        (**self)@
    }

    fn stream_bytes(&self) -> (r: &[u8]) {
        &**self
    }
}

impl<'s> StreamBytesMut for &'s mut [u8] {
    fn stream_bytes_mut(&mut self) -> (r: &mut [u8]) {
        &mut **self
    }
}

/// The byte range of the type records within stream `data`: after the header, `type_record_bytes`
/// long; empty when there is no header or no record data.
pub open spec fn spec_records_range(data: Seq<u8>) -> (int, int) {
    match spec_header(data) {
        None => (0, 0),
        Some(h) => if h.type_record_bytes == 0 {
            (0, 0)
        } else {
            (h.header_size as int, h.header_size + h.type_record_bytes)
        },
    }
}

/// The type record bytes of stream `data`.
pub open spec fn spec_type_records(data: Seq<u8>) -> Seq<u8> {
    let (start, end) = spec_records_range(data);
    data.subrange(start, end)
}

/// The outcome of checking stream `data` (stream number `stream`) as a type stream: the range of
/// type indices it defines, or the first check that fails. An empty stream defines no types.
pub open spec fn spec_check_type_stream(stream: Stream, data: Seq<u8>) -> Result<
    (TypeIndex, TypeIndex),
    TypeStreamError,
> {
    if data.len() == 0 {
        Ok((TypeIndex(TYPE_INDEX_MIN_BEGIN), TypeIndex(TYPE_INDEX_MIN_BEGIN)))
    } else {
        match spec_header(data) {
            None => Err(TypeStreamError::HeaderTooShort(stream)),
            Some(h) => if h.type_index_end.0 < h.type_index_begin.0 {
                Err(TypeStreamError::TypeIndexRangeReversed(stream))
            } else if h.type_index_begin.0 < TYPE_INDEX_MIN_BEGIN {
                Err(TypeStreamError::TypeIndexBeginTooSmall(h.type_index_begin))
            } else if h.header_size < 56 {
                Err(TypeStreamError::HeaderSizeTooSmall(stream))
            } else if h.header_size + h.type_record_bytes > data.len() {
                Err(TypeStreamError::TypeRecordsPastEnd(stream))
            } else {
                Ok((h.type_index_begin, h.type_index_end))
            },
        }
    }
}

/// A TPI or IPI stream: the stream bytes, checked when the stream was parsed, and the table of
/// record offsets.
pub struct TypeStream<D: StreamBytes> {
    /// The whole stream, header and type records.
    pub stream_data: D,
    type_index_begin: TypeIndex,
    type_index_end: TypeIndex,
    /// The starts table of the type records.
    record_starts: Vec<u32>,
}

impl<D: StreamBytes> TypeStream<D> {
    /// The stream bytes.
    pub closed spec fn data(&self) -> Seq<u8> {
        self.stream_data.bytes_view()
    }

    /// The first type index of the stream.
    pub closed spec fn begin_index(&self) -> TypeIndex {
        self.type_index_begin
    }

    /// The type index after the last record of the stream.
    pub closed spec fn end_index(&self) -> TypeIndex {
        self.type_index_end
    }

    /// The stream bytes pass the checks of `parse` (under any stream number), which gave the
    /// type index range, and the starts table is that of its type records.
    pub closed spec fn wf(&self) -> bool {
        &&& spec_check_type_stream(Stream(0), self.data()) == Ok::<
            (TypeIndex, TypeIndex),
            TypeStreamError,
        >((self.type_index_begin, self.type_index_end))
        &&& self.record_starts@ == spec_types_starts(spec_type_records(self.data()))
    }
}

} // verus!

verus! {

/// A stream that passes the header checks has its type records within it.
proof fn lemma_checked_records_fit(stream: Stream, data: Seq<u8>)
    requires
        spec_check_type_stream(stream, data) is Ok,
    ensures
        0 <= spec_records_range(data).0 <= spec_records_range(data).1 <= data.len(),
        spec_records_range(data).1 - spec_records_range(data).0 <= u32::MAX,
        spec_check_type_stream(Stream(0), data) == spec_check_type_stream(stream, data),
{
}

/// The record bytes of `bytes`, a stream that passed the header checks.
fn records_slice(bytes: &[u8]) -> (r: &[u8])
    requires
        spec_check_type_stream(Stream(0), bytes@) is Ok,
    ensures
        r@ == spec_type_records(bytes@),
{
    proof {
        lemma_checked_records_fit(Stream(0), bytes@);
    }
    match TypeStreamHeader::read_from_prefix(bytes) {
        None => &[],
        Some(h) => {
            if h.type_record_bytes == 0 {
                &[]
            } else {
                let start = h.header_size as usize;
                let total = bytes.len();
                assert(h.header_size + h.type_record_bytes <= total);
                let end = start + h.type_record_bytes as usize;
                let r = &bytes[start..end];
                r
            }
        },
    }
}

/// Checks stream `stream_bytes` (stream number `stream_index`) as a type stream: the range of
/// type indices it defines, or the first check that fails.
fn check_type_stream(stream_index: Stream, stream_bytes: &[u8]) -> (r: Result<
    (TypeIndex, TypeIndex),
    TypeStreamError,
>)
    ensures
        r == spec_check_type_stream(stream_index, stream_bytes@),
{
    if stream_bytes.len() == 0 {
        return Ok((TypeIndex(TYPE_INDEX_MIN_BEGIN), TypeIndex(TYPE_INDEX_MIN_BEGIN)));
    }
    let header = match TypeStreamHeader::read_from_prefix(stream_bytes) {
        Some(h) => h,
        None => return Err(TypeStreamError::HeaderTooShort(stream_index)),
    };
    let type_index_begin = header.type_index_begin;
    let type_index_end = header.type_index_end;
    if type_index_end.0 < type_index_begin.0 {
        return Err(TypeStreamError::TypeIndexRangeReversed(stream_index));
    }
    if type_index_begin.0 < TYPE_INDEX_MIN_BEGIN {
        return Err(TypeStreamError::TypeIndexBeginTooSmall(type_index_begin));
    }
    let type_data_start = header.header_size;
    if type_data_start < TPI_STREAM_HEADER_LEN as u32 {
        return Err(TypeStreamError::HeaderSizeTooSmall(stream_index));
    }
    let type_data_end = type_data_start as u64 + header.type_record_bytes as u64;
    if type_data_end > stream_bytes.len() as u64 {
        return Err(TypeStreamError::TypeRecordsPastEnd(stream_index));
    }
    Ok((type_index_begin, type_index_end))
}

/// The starts table of the type records of `stream_bytes`, a stream that passed the checks with
/// the type index range `begin..end`.
fn starts_of_checked(stream_bytes: &[u8], begin: TypeIndex, end: TypeIndex) -> (starts: Vec<u32>)
    requires
        spec_check_type_stream(Stream(0), stream_bytes@) == Ok::<(TypeIndex, TypeIndex), TypeStreamError>(
            (begin, end),
        ),
    ensures
        starts@ == spec_types_starts(spec_type_records(stream_bytes@)),
{
    let records = records_slice(stream_bytes);
    let num_types = (end.0 - begin.0) as usize;
    build_types_starts(num_types, records)
}

impl<D: StreamBytes> TypeStream<D> {
    /// Parses the header of a type stream and checks it. An empty stream is a valid stream with
    /// no type records. Otherwise the stream must hold a whole header, the header's first type
    /// index must not exceed its end index nor be below the smallest first index, its
    /// `header_size` must be at least the size of the header, and the type records it describes
    /// must lie within the stream; the first check that fails gives the error.
    pub fn parse(stream_index: Stream, stream_data: D) -> (r: Result<TypeStream<D>, TypeStreamError>)
        ensures
            match r {
                Ok(ts) => {
                    &&& spec_check_type_stream(stream_index, stream_data.bytes_view()) == Ok::<
                        (TypeIndex, TypeIndex),
                        TypeStreamError,
                    >((ts.begin_index(), ts.end_index()))
                    &&& ts.wf()
                    &&& ts.data() == stream_data.bytes_view()
                },
                Err(e) => spec_check_type_stream(stream_index, stream_data.bytes_view()) == Err::<
                    (TypeIndex, TypeIndex),
                    TypeStreamError,
                >(e),
            },
    {
        let stream_bytes: &[u8] = stream_data.stream_bytes();
        let (type_index_begin, type_index_end) = match check_type_stream(stream_index, stream_bytes) {
            Ok(range) => range,
            Err(e) => return Err(e),
        };
        proof {
            lemma_checked_records_fit(stream_index, stream_bytes@);
        }
        let record_starts = starts_of_checked(stream_bytes, type_index_begin, type_index_end);
        Ok(TypeStream { stream_data, type_index_begin, type_index_end, record_starts })
    }

    /// Runs the checks of `parse` again on the bytes the stream holds now, as after `set_header`
    /// or a write through `type_records_bytes_mut`. When they pass, the type index range is taken
    /// from the header and the starts table is rebuilt, and the stream is well formed again;
    /// otherwise the stream is left as it is. Returns whether the checks passed.
    pub fn recheck(&mut self) -> (ok: bool)
        ensures
            ok == spec_check_type_stream(Stream(0), old(self).data()) is Ok,
            ok == final(self).wf(),
            final(self).data() == old(self).data(),
            ok ==> spec_check_type_stream(Stream(0), final(self).data()) == Ok::<
                (TypeIndex, TypeIndex),
                TypeStreamError,
            >((final(self).begin_index(), final(self).end_index())),
            !ok ==> final(self).begin_index() == old(self).begin_index() && final(self).end_index()
                == old(self).end_index(),
    {
        let bytes: &[u8] = self.stream_data.stream_bytes();
        match check_type_stream(Stream(0), bytes) {
            Err(_) => false,
            Ok((begin, end)) => {
                let starts = starts_of_checked(bytes, begin, end);
                self.type_index_begin = begin;
                self.type_index_end = end;
                self.record_starts = starts;
                true
            },
        }
    }

    /// The starts table the stream holds.
    pub closed spec fn starts_table(&self) -> Seq<u32> {
        self.record_starts@
    }

    /// A well-formed stream passes the checks of `parse`, under any stream number, with the type
    /// index range it holds, and the starts table it holds is that of its type records.
    pub proof fn lemma_wf(&self, stream: Stream)
        requires
            self.wf(),
        ensures
            spec_check_type_stream(stream, self.data()) == Ok::<(TypeIndex, TypeIndex), TypeStreamError>(
                (self.begin_index(), self.end_index()),
            ),
            self.starts_table() == spec_types_starts(spec_type_records(self.data())),
    {
    }
}

} // verus!

verus! {

/// Looks up type index `ti` in stream `data` whose first type index is `begin`: the kind and data
/// of its record, or why there is none.
pub open spec fn spec_record(data: Seq<u8>, begin: TypeIndex, ti: TypeIndex) -> Result<
    (u16, Seq<u8>),
    TypeStreamError,
> {
    if ti.0 < begin.0 {
        Err(TypeStreamError::PrimitiveTypeIndex(ti))
    } else {
        let rel = ti.0 - begin.0;
        let records = spec_type_records(data);
        let starts = spec_types_starts(records);
        if rel >= starts.len() {
            Err(TypeStreamError::TypeIndexOutOfRange(ti))
        } else if starts[rel] > records.len() {
            Err(TypeStreamError::RecordOffsetOutOfRange(ti))
        } else {
            match spec_type_record(records.skip(starts[rel] as int)) {
                None => Err(TypeStreamError::RecordDecodeFailed(ti)),
                Some((kind, d, _)) => Ok((kind, d)),
            }
        }
    }
}

impl<D: StreamBytes> TypeStream<D> {
    /// The whole stream, header and type records.
    pub fn stream_bytes(&self) -> (r: &[u8])
        ensures
            r@ == self.data(),
    {
        self.stream_data.stream_bytes()
    }

    /// The stream header, or `None` when the stream is shorter than a header.
    pub fn header(&self) -> (r: Option<TypeStreamHeader>)
        ensures
            r == spec_header(self.data()),
    {
        TypeStreamHeader::read_from_prefix(self.stream_data.stream_bytes())
    }

    /// The version in the header, or `TYPE_STREAM_VERSION_2004` for a stream without a header.
    pub fn version(&self) -> (v: u32)
        ensures
            v == (match spec_header(self.data()) {
                Some(h) => h.version,
                None => TYPE_STREAM_VERSION_2004,
            }),
    {
        match self.header() {
            Some(h) => h.version,
            None => TYPE_STREAM_VERSION_2004,
        }
    }

    /// The index of the related hash stream, if the header names one.
    pub fn hash_stream(&self) -> (r: Option<u32>)
        ensures
            r == (match spec_header(self.data()) {
                Some(h) => if h.hash_stream_index.0 == STREAM_INDEX_NIL {
                    None
                } else {
                    Some(h.hash_stream_index.0 as u32)
                },
                None => None,
            }),
    {
        match self.header() {
            Some(h) => h.hash_stream_index.get(),
            None => None,
        }
    }

    /// Whether this is a degenerate empty stream.
    pub fn is_empty(&self) -> (b: bool)
        ensures
            b == (self.data().len() == 0),
    {
        self.stream_data.stream_bytes().len() == 0
    }

    /// The type index of the first type record.
    pub fn type_index_begin(&self) -> (r: TypeIndex)
        ensures
            r == self.begin_index(),
    {
        self.type_index_begin
    }

    /// The type index of the last type record, plus 1.
    pub fn type_index_end(&self) -> (r: TypeIndex)
        ensures
            r == self.end_index(),
    {
        self.type_index_end
    }

    /// The number of types the stream defines.
    pub fn num_types(&self) -> (n: u32)
        requires
            self.wf(),
        ensures
            n == self.end_index().0 - self.begin_index().0,
    {
        self.type_index_end.0 - self.type_index_begin.0
    }

    /// The byte offset within the stream of the record data: the header size, or 0 for a stream
    /// without a header.
    pub fn records_offset(&self) -> (r: usize)
        ensures
            r == (match spec_header(self.data()) {
                Some(h) => h.header_size as usize,
                None => 0,
            }),
    {
        match self.header() {
            Some(h) => h.header_size as usize,
            None => 0,
        }
    }

    /// The byte range of the type records within the stream.
    pub fn type_records_range(&self) -> (r: std::ops::Range<usize>)
        requires
            self.wf(),
        ensures
            r.start == spec_records_range(self.data()).0,
            r.end == spec_records_range(self.data()).1,
    {
        proof {
            lemma_checked_records_fit(Stream(0), self.data());
        }
        let all: &[u8] = self.stream_data.stream_bytes();
        match self.header() {
            Some(h) => {
                let size = h.type_record_bytes;
                let total = all.len();
                assert(h.header_size + h.type_record_bytes <= total);
                if size == 0 {
                    return 0..0;
                }
                let type_records_start = h.header_size as usize;
                let type_records_end = type_records_start + size as usize;
                type_records_start..type_records_end
            },
            None => 0..0,
        }
    }

    /// The encoded type records of the stream.
    pub fn type_records_bytes(&self) -> (r: &[u8])
        requires
            self.wf(),
        ensures
            r@ == spec_type_records(self.data()),
    {
        records_slice(self.stream_data.stream_bytes())
    }

    /// Iterates the type records of the stream.
    pub fn iter_type_records(&self) -> (it: TypesIter<'_>)
        requires
            self.wf(),
        ensures
            it@ == spec_type_records(self.data()),
    {
        TypesIter::new(self.type_records_bytes())
    }

    /// The starts table of the records: the offset of each type record within the record data,
    /// then the offset where the records end.
    pub fn record_starts(&self) -> (r: &[u32])
        requires
            self.wf(),
        ensures
            r@ == spec_types_starts(spec_type_records(self.data())),
    {
        self.record_starts.as_slice()
    }

    /// Builds a table that maps the type indices of the stream to the byte ranges of their
    /// records.
    pub fn build_types_starts(&self) -> (m: TypeIndexMap)
        requires
            self.wf(),
        ensures
            m.type_index_begin == self.begin_index(),
            m.type_index_end == self.end_index(),
            m.starts@ == spec_types_starts(spec_type_records(self.data())),
    {
        let starts = build_types_starts(self.num_types() as usize, self.type_records_bytes());
        TypeIndexMap {
            type_index_begin: self.type_index_begin,
            type_index_end: self.type_index_end,
            starts,
        }
    }

    /// A `TypeStream` over a borrow of this stream's bytes.
    pub fn to_ref(&self) -> (r: TypeStream<&[u8]>)
        requires
            self.wf(),
        ensures
            r.wf(),
            r.data() == self.data(),
            r.begin_index() == self.begin_index(),
            r.end_index() == self.end_index(),
    {
        let bytes: &[u8] = self.stream_data.stream_bytes();
        let records = records_slice(bytes);
        let num_types = (self.type_index_end.0 - self.type_index_begin.0) as usize;
        TypeStream {
            stream_data: bytes,
            type_index_begin: self.type_index_begin,
            type_index_end: self.type_index_end,
            record_starts: build_types_starts(num_types, records),
        }
    }

    /// Whether `type_index` names a primitive type: one below the first index of the stream.
    pub fn is_primitive(&self, type_index: TypeIndex) -> (b: bool)
        ensures
            b == (type_index.0 < self.begin_index().0),
    {
        type_index.0 < self.type_index_begin.0
    }

    /// The type record that `type_index` names. A primitive type index is an error.
    pub fn record(&self, type_index: TypeIndex) -> (r: Result<TypeRecord<'_>, TypeStreamError>)
        requires
            self.wf(),
        ensures
            match spec_record(self.data(), self.begin_index(), type_index) {
                Ok((kind, d)) => r matches Ok(rec) && rec.kind == kind && rec.data@ == d,
                Err(e) => r == Err::<TypeRecord, TypeStreamError>(e),
            },
    {
        if type_index.0 < self.type_index_begin.0 {
            return Err(TypeStreamError::PrimitiveTypeIndex(type_index));
        }
        let relative_type_index = type_index.0 - self.type_index_begin.0;
        let starts = self.record_starts();
        if relative_type_index as usize >= starts.len() {
            return Err(TypeStreamError::TypeIndexOutOfRange(type_index));
        }
        let record_start = starts[relative_type_index as usize] as usize;
        let all_type_records = self.type_records_bytes();
        if record_start > all_type_records.len() {
            return Err(TypeStreamError::RecordOffsetOutOfRange(type_index));
        }
        let this_type_record_slice = &all_type_records[record_start..all_type_records.len()];
        let mut iter = TypesIter::new(this_type_record_slice);
        match iter.next() {
            Some(record) => Ok(record),
            None => Err(TypeStreamError::RecordDecodeFailed(type_index)),
        }
    }
}

impl<D: StreamBytesMut> TypeStream<D> {
    /// Overwrites the stream header with `header`, when the stream is long enough to hold one;
    /// returns whether it was. The type index range and starts table this stream holds are kept;
    /// `recheck` takes them from the new header.
    pub fn set_header(&mut self, header: &TypeStreamHeader) -> (written: bool)
        ensures
            written == (old(self).data().len() >= TPI_STREAM_HEADER_LEN),
            written ==> final(self).data() == spec_header_bytes(*header) + old(self).data().skip(
                TPI_STREAM_HEADER_LEN as int,
            ),
            !written ==> final(self).data() == old(self).data(),
            final(self).begin_index() == old(self).begin_index(),
            final(self).end_index() == old(self).end_index(),
    {
        let encoded = header.as_bytes();
        let bytes = self.stream_data.stream_bytes_mut();
        if bytes.len() < TPI_STREAM_HEADER_LEN {
            return false;
        }
        let ghost prior = bytes@;
        let mut i: usize = 0;
        while i < TPI_STREAM_HEADER_LEN
            invariant
                i <= TPI_STREAM_HEADER_LEN,
                encoded@.len() == TPI_STREAM_HEADER_LEN,
                bytes@.len() == prior.len(),
                prior.len() >= TPI_STREAM_HEADER_LEN,
                forall|j: int| 0 <= j < i ==> bytes@[j] == encoded@[j],
                forall|j: int| i <= j < prior.len() ==> bytes@[j] == prior[j],
            decreases TPI_STREAM_HEADER_LEN - i,
        {
            bytes[i] = encoded[i];
            i = i + 1;
        }
        assert(bytes@ =~= encoded@ + prior.skip(TPI_STREAM_HEADER_LEN as int));
        true
    }

    /// The encoded type records of the stream, for writing. Writes through the slice change those
    /// bytes of the stream and no other; `recheck` rebuilds the starts table from them.
    pub fn type_records_bytes_mut(&mut self) -> (r: &mut [u8])
        requires
            old(self).wf(),
        ensures
            r@ == spec_type_records(old(self).data()),
            final(self).data() == old(self).data().subrange(0, spec_records_range(old(self).data()).0)
                + final(r)@ + old(self).data().subrange(
                spec_records_range(old(self).data()).1,
                old(self).data().len() as int,
            ),
            final(self).begin_index() == old(self).begin_index(),
            final(self).end_index() == old(self).end_index(),
    {
        let range = self.type_records_range();
        proof {
            lemma_checked_records_fit(Stream(0), self.data());
        }
        let bytes = self.stream_data.stream_bytes_mut();
        let (front, tail) = bytes.split_at_mut(range.start);
        let (mid, back) = tail.split_at_mut(range.end - range.start);
        mid
    }
}

/// Maps type indices to the byte ranges of their records within a type stream.
pub struct TypeIndexMap {
    /// Copied from the type stream header.
    pub type_index_begin: TypeIndex,
    /// Copied from the type stream header.
    pub type_index_end: TypeIndex,
    /// The starts table: the offset of each type record, then one more value, the offset where
    /// the records end.
    pub starts: Vec<u32>,
}

} // verus!

verus! {

impl TypeIndexMap {
    /// Whether `ti` names a primitive type: one below the first index of the stream.
    pub fn is_primitive(&self, ti: TypeIndex) -> (b: bool)
        ensures
            b == (ti.0 < self.type_index_begin.0),
    {
        ti.0 < self.type_index_begin.0
    }

    /// The byte range, within the record data, of the record that `ti` names: from its start to
    /// the next entry of the starts table. A primitive type index, or one whose record has no
    /// following entry in the table, is an error.
    pub fn record_range(&self, ti: TypeIndex) -> (r: Result<std::ops::Range<usize>, TypeStreamError>)
        ensures
            ti.0 < self.type_index_begin.0 ==> r == Err::<std::ops::Range<usize>, TypeStreamError>(
                TypeStreamError::MapPrimitiveTypeIndex(ti),
            ),
            ti.0 >= self.type_index_begin.0 ==> {
                let i = ti.0 - self.type_index_begin.0;
                if i + 2 <= self.starts@.len() {
                    r matches Ok(range) && range.start == self.starts@[i] as usize && range.end
                        == self.starts@[i + 1] as usize
                } else {
                    r == Err::<std::ops::Range<usize>, TypeStreamError>(
                        TypeStreamError::MapTypeIndexOutOfRange(ti),
                    )
                }
            },
    {
        if ti.0 < self.type_index_begin.0 {
            return Err(TypeStreamError::MapPrimitiveTypeIndex(ti));
        }
        let i = (ti.0 - self.type_index_begin.0) as usize;
        if self.starts.len() >= 2 && i <= self.starts.len() - 2 {
            Ok(self.starts[i] as usize..self.starts[i + 1] as usize)
        } else {
            Err(TypeStreamError::MapTypeIndexOutOfRange(ti))
        }
    }
}

/// The cached state of a type stream header.
pub struct CachedTypeStreamHeader {
    pub header: Option<TypeStreamHeader>,
}

impl CachedTypeStreamHeader {
    /// The type stream header, if any.
    pub fn header(&self) -> (r: Option<&TypeStreamHeader>)
        ensures
            r == (match self.header {
                Some(h) => Some(&h),
                None => None,
            }),
    {
        match &self.header {
            Some(h) => Some(h),
            None => None,
        }
    }

    /// The beginning of the type index space, or the smallest first index when the type stream
    /// holds no data.
    pub fn type_index_begin(&self) -> (r: TypeIndex)
        ensures
            r == (match self.header {
                Some(h) => h.type_index_begin,
                None => TypeIndex(TYPE_INDEX_MIN_BEGIN),
            }),
    {
        match &self.header {
            Some(h) => h.type_index_begin,
            None => TypeIndex(TYPE_INDEX_MIN_BEGIN),
        }
    }

    /// The end of the type index space, or the smallest first index when the type stream holds
    /// no data.
    pub fn type_index_end(&self) -> (r: TypeIndex)
        ensures
            r == (match self.header {
                Some(h) => h.type_index_end,
                None => TypeIndex(TYPE_INDEX_MIN_BEGIN),
            }),
    {
        match &self.header {
            Some(h) => h.type_index_end,
            None => TypeIndex(TYPE_INDEX_MIN_BEGIN),
        }
    }
}

/// The streams of a PDB file, read into memory; the stream numbered `i` is `streams[i]`.
pub struct Pdb {
    pub streams: Vec<Vec<u8>>,
}

impl Pdb {
    /// The contents of stream `stream`.
    pub fn read_stream_to_vec(&self, stream: u32) -> (r: Result<Vec<u8>, TypeStreamError>)
        ensures
            match r {
                Ok(v) => stream < self.streams@.len() && v@ == self.streams@[stream as int]@,
                Err(e) => stream >= self.streams@.len() && e == TypeStreamError::StreamNotFound(
                    stream,
                ),
            },
    {
        let i = stream as usize;
        if i >= self.streams.len() {
            return Err(TypeStreamError::StreamNotFound(stream));
        }
        let src: &[u8] = self.streams[i].as_slice();
        let mut out: Vec<u8> = Vec::new();
        let mut j: usize = 0;
        while j < src.len()
            invariant
                j <= src@.len(),
                out@ == src@.take(j as int),
            decreases src@.len() - j,
        {
            out.push(src[j]);
            j = j + 1;
            assert(out@ =~= src@.take(j as int));
        }
        assert(src@.take(src@.len() as int) =~= src@);
        Ok(out)
    }

    /// Reads the TPI stream.
    pub fn read_type_stream(&self) -> (r: Result<TypeStream<Vec<u8>>, TypeStreamError>)
        ensures
            spec_read_type_stream(self.streams@, Stream(STREAM_TPI), r),
    {
        self.read_tpi_or_ipi_stream(Stream(STREAM_TPI))
    }

    /// Reads the IPI stream.
    pub fn read_ipi_stream(&self) -> (r: Result<TypeStream<Vec<u8>>, TypeStreamError>)
        ensures
            spec_read_type_stream(self.streams@, Stream(STREAM_IPI), r),
    {
        self.read_tpi_or_ipi_stream(Stream(STREAM_IPI))
    }

    /// Reads stream `stream_index` and parses it as a type stream.
    pub fn read_tpi_or_ipi_stream(&self, stream_index: Stream) -> (r: Result<
        TypeStream<Vec<u8>>,
        TypeStreamError,
    >)
        ensures
            spec_read_type_stream(self.streams@, stream_index, r),
    {
        let stream_data = self.read_stream_to_vec(stream_index.0)?;
        TypeStream::parse(stream_index, stream_data)
    }
}

/// What reading stream `stream` of a PDB with streams `streams` as a type stream gives: the error
/// for a missing stream; otherwise the outcome of checking its bytes, and on success a
/// well-formed stream over those bytes.
pub open spec fn spec_read_type_stream(
    streams: Seq<Vec<u8>>,
    stream: Stream,
    r: Result<TypeStream<Vec<u8>>, TypeStreamError>,
) -> bool {
    if stream.0 >= streams.len() {
        r == Err::<TypeStream<Vec<u8>>, TypeStreamError>(TypeStreamError::StreamNotFound(stream.0))
    } else {
        let data = streams[stream.0 as int]@;
        match r {
            Ok(ts) => {
                &&& spec_check_type_stream(stream, data) == Ok::<
                    (TypeIndex, TypeIndex),
                    TypeStreamError,
                >((ts.begin_index(), ts.end_index()))
                &&& ts.wf()
                &&& ts.data() == data
            },
            Err(e) => spec_check_type_stream(stream, data) == Err::<
                (TypeIndex, TypeIndex),
                TypeStreamError,
            >(e),
        }
    }
}

} // verus!

verus! {

/// Type indices below the first index of the stream are exactly those that `record` rejects as
/// primitive.
pub proof fn lemma_primitive_iff_record_rejects(data: Seq<u8>, begin: TypeIndex, ti: TypeIndex)
    ensures
        (ti.0 < begin.0) <==> spec_record(data, begin, ti) == Err::<(u16, Seq<u8>), TypeStreamError>(
            TypeStreamError::PrimitiveTypeIndex(ti),
        ),
{
}

/// In a stream that passed the header checks, the record that a type index names lies exactly in
/// the byte range that the starts table gives it: when the index is not primitive and its entry
/// has a next entry, `record` succeeds, with the kind and data found at that entry, and the data
/// reaches the next entry.
pub proof fn lemma_record_within_starts_range(data: Seq<u8>, begin: TypeIndex, end: TypeIndex, ti: TypeIndex)
    requires
        spec_check_type_stream(Stream(0), data) == Ok::<(TypeIndex, TypeIndex), TypeStreamError>(
            (begin, end),
        ),
        ti.0 >= begin.0,
        (ti.0 - begin.0) + 1 < spec_types_starts(spec_type_records(data)).len(),
    ensures
        ({
            let records = spec_type_records(data);
            let starts = spec_types_starts(records);
            let i = ti.0 - begin.0;
            spec_record(data, begin, ti) == Ok::<(u16, Seq<u8>), TypeStreamError>(
                (
                    le_u16(records, starts[i] + 2),
                    records.subrange(starts[i] + 4, starts[i + 1] as int),
                ),
            )
        }),
{
    let records = spec_type_records(data);
    let starts = spec_types_starts(records);
    let i = ti.0 - begin.0;
    lemma_checked_records_fit(Stream(0), data);
    crate::types::lemma_starts_delimit_records(records);
    assert(spec_type_record(records.skip(starts[i] as int)) is Some);
    let rest = records.skip(starts[i] as int);
    assert(rest.subrange(4, 2 + le_u16(rest, 0) as int) =~= records.subrange(
        starts[i] + 4,
        starts[i + 1] as int,
    ));
}

} // verus!

verus! {

/// What a stream that passes the header checks is: an empty stream, with both type indices at
/// the smallest first index; or one whose header gives the type index range, which starts at
/// the smallest first index or above and does not run backwards, and whose type records lie
/// within the stream.
pub proof fn lemma_checked_stream(stream: Stream, data: Seq<u8>, begin: TypeIndex, end: TypeIndex)
    requires
        spec_check_type_stream(stream, data) == Ok::<(TypeIndex, TypeIndex), TypeStreamError>(
            (begin, end),
        ),
    ensures
        data.len() == 0 ==> begin == TypeIndex(TYPE_INDEX_MIN_BEGIN) && end == TypeIndex(
            TYPE_INDEX_MIN_BEGIN,
        ),
        data.len() > 0 ==> (spec_header(data) matches Some(h) && h.type_index_begin == begin
            && h.type_index_end == end && h.header_size + h.type_record_bytes <= data.len()),
        TYPE_INDEX_MIN_BEGIN <= begin.0 <= end.0,
        0 <= spec_records_range(data).0 <= spec_records_range(data).1 <= data.len(),
{
}

} // verus!

verus! {

/// In a stream that passes the header checks, `record` gives the record that iterating the type
/// records yields at the same position: when the iteration's step number `ti - begin` decodes a
/// record, `record(ti)` is that record.
pub proof fn lemma_record_is_iterated_record(
    data: Seq<u8>,
    begin: TypeIndex,
    end: TypeIndex,
    ti: TypeIndex,
)
    requires
        spec_check_type_stream(Stream(0), data) == Ok::<(TypeIndex, TypeIndex), TypeStreamError>(
            (begin, end),
        ),
        ti.0 >= begin.0,
        spec_type_record(spec_iter_rest(spec_type_records(data), (ti.0 - begin.0) as nat)) is Some,
    ensures
        ({
            let (kind, d, _) = spec_type_record(
                spec_iter_rest(spec_type_records(data), (ti.0 - begin.0) as nat),
            ).unwrap();
            spec_record(data, begin, ti) == Ok::<(u16, Seq<u8>), TypeStreamError>((kind, d))
        }),
{
    lemma_checked_records_fit(Stream(0), data);
    lemma_iteration_matches_starts(spec_type_records(data), (ti.0 - begin.0) as nat);
}


/// A non-empty stream whose header passes each check is accepted with the header's type index
/// range, whatever its version and hash fields hold: the only size check is that the header and
/// the type records fit in the stream.
pub proof fn lemma_check_accepts(stream: Stream, data: Seq<u8>, h: TypeStreamHeader)
    requires
        data.len() > 0,
        spec_header(data) == Some(h),
        h.type_index_begin.0 <= h.type_index_end.0,
        h.type_index_begin.0 >= 0x1000,
        h.header_size >= 56,
        h.header_size + h.type_record_bytes <= data.len(),
    ensures
        spec_check_type_stream(stream, data) == Ok::<(TypeIndex, TypeIndex), TypeStreamError>(
            (h.type_index_begin, h.type_index_end),
        ),
{
}

/// A stream whose header passes the checks on the type index range and the header size, but whose
/// type records reach past the end of the stream, is refused for that reason.
pub proof fn lemma_check_refuses_records_past_end(stream: Stream, data: Seq<u8>, h: TypeStreamHeader)
    requires
        spec_header(data) == Some(h),
        h.type_index_begin.0 <= h.type_index_end.0,
        h.type_index_begin.0 >= 0x1000,
        h.header_size >= 56,
        h.header_size + h.type_record_bytes > data.len(),
    ensures
        spec_check_type_stream(stream, data) == Err::<(TypeIndex, TypeIndex), TypeStreamError>(
            TypeStreamError::TypeRecordsPastEnd(stream),
        ),
{
}


/// Each check of a type stream, in order, and the error it gives: an empty stream is accepted
/// with no types; a non-empty stream shorter than a header is refused; then a first type index
/// above the end index; then a first type index below `0x1000`, with that index; then a header
/// size below the 56 bytes of a header.
pub proof fn lemma_check_refusals(stream: Stream, data: Seq<u8>)
    ensures
        data.len() == 0 ==> spec_check_type_stream(stream, data) == Ok::<
            (TypeIndex, TypeIndex),
            TypeStreamError,
        >((TypeIndex(0x1000), TypeIndex(0x1000))),
        0 < data.len() < 56 ==> spec_check_type_stream(stream, data) == Err::<
            (TypeIndex, TypeIndex),
            TypeStreamError,
        >(TypeStreamError::HeaderTooShort(stream)),
        spec_header(data) matches Some(h) ==> {
            &&& h.type_index_end.0 < h.type_index_begin.0 ==> spec_check_type_stream(stream, data)
                == Err::<(TypeIndex, TypeIndex), TypeStreamError>(
                TypeStreamError::TypeIndexRangeReversed(stream),
            )
            &&& h.type_index_begin.0 <= h.type_index_end.0 && h.type_index_begin.0 < 0x1000
                ==> spec_check_type_stream(stream, data) == Err::<(TypeIndex, TypeIndex), TypeStreamError>(
                TypeStreamError::TypeIndexBeginTooSmall(h.type_index_begin),
            )
            &&& h.type_index_begin.0 <= h.type_index_end.0 && h.type_index_begin.0 >= 0x1000
                && h.header_size < 56 ==> spec_check_type_stream(stream, data) == Err::<
                (TypeIndex, TypeIndex),
                TypeStreamError,
            >(TypeStreamError::HeaderSizeTooSmall(stream))
        },
        data.len() >= 56 ==> spec_header(data) is Some,
{
}

} // verus!
