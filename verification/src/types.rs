//! Type indices, type records and the iteration of the records of a type stream.

use vstd::prelude::*;
use crate::bytes::{le_u16, read_u16_le};

verus! {

/// Identifies a type: values below the first index of a type stream name primitive types, the
/// others name the records of the stream, in order.
#[derive(Clone, Copy, Debug, PartialEq, Eq, Structural, PartialOrd, Ord, Hash)]
pub struct TypeIndex(pub u32);

/// The smallest type index that a type stream may give its first record; smaller indices are
/// reserved for primitive types.
pub const TYPE_INDEX_MIN_BEGIN: u32 = 0x1000;

/// The leaf kind of a field list record.
pub const LF_FIELDLIST: u16 = 0x1203;

/// One type record: its leaf kind and the bytes that follow the kind.
#[derive(Clone, Copy, Debug)]
pub struct TypeRecord<'a> {
    pub kind: u16,
    pub data: &'a [u8],
}

/// Decodes the type record at the front of `s`: `len: u16` (the number of bytes that follow it,
/// at least 2), `kind: u16`, then `len - 2` bytes of data. Gives the kind, the data, and the
/// number of bytes the record occupies.
pub open spec fn spec_type_record(s: Seq<u8>) -> Option<(u16, Seq<u8>, int)> {
    if s.len() < 4 {
        None
    } else {
        let len = le_u16(s, 0) as int;
        if len < 2 || 2 + len > s.len() {
            None
        } else {
            Some((le_u16(s, 2), s.subrange(4, 2 + len), 2 + len))
        }
    }
}

/// Iterates the type records of a byte sequence. Iteration stops at the end of the bytes or at
/// the first record that cannot be decoded.
pub struct TypesIter<'a> {
    buffer: &'a [u8],
}

impl<'a> View for TypesIter<'a> {
    type V = Seq<u8>;

    /// The bytes not yet iterated.
    closed spec fn view(&self) -> Seq<u8> {
        self.buffer@
    }
}

impl<'a> TypesIter<'a> {
    /// Iterates the records in `buffer`.
    pub fn new(buffer: &'a [u8]) -> (it: TypesIter<'a>)
        ensures
            it@ == buffer@,
    {
        TypesIter { buffer }
    }

    /// The bytes not yet iterated.
    pub fn rest(&self) -> (r: &'a [u8])
        ensures
            r@ == self@,
    {
        self.buffer
    }

    /// Decodes the next record. When the bytes are used up or the next record cannot be decoded,
    /// returns `None` and iterates nothing more.
    pub fn next(&mut self) -> (r: Option<TypeRecord<'a>>)
        ensures
            match spec_type_record(old(self)@) {
                Some((kind, data, n)) => r matches Some(rec) && rec.kind == kind && rec.data@
                    == data && final(self)@ == old(self)@.skip(n),
                None => r is None && final(self)@.len() == 0,
            },
            final(self)@ == spec_iter_rest(old(self)@, 1),
    {
        let b: &'a [u8] = self.buffer;
        assert(spec_iter_rest(b@, 0) == b@);
        if b.len() < 4 {
            self.buffer = &[];
            assert(self.buffer@ =~= spec_iter_rest(b@, 1));
            return None;
        }
        let len = read_u16_le(b, 0) as usize;
        if len < 2 || len > b.len() - 2 {
            self.buffer = &[];
            assert(self.buffer@ =~= spec_iter_rest(b@, 1));
            return None;
        }
        let kind = read_u16_le(b, 2);
        let (head, rest) = b.split_at(2 + len);
        let (_, data) = head.split_at(4);
        self.buffer = rest;
        proof {
            assert(data@ =~= b@.subrange(4, 2 + len));
            assert(rest@ =~= b@.skip(2 + len));
        }
        Some(TypeRecord { kind, data })
    }
}

/// The starts table of the records from position `pos` of `s` on: `pos`, then, while a record
/// decodes there, the starts table from the position after it. The last entry is the end of the
/// bytes, or the position of a record that does not decode.
pub open spec fn starts_from(s: Seq<u8>, pos: int) -> Seq<u32>
    decreases s.len() - pos,
{
    if pos < 0 || pos >= s.len() {
        seq![pos as u32]
    } else {
        match spec_type_record(s.skip(pos)) {
            Some((_, _, n)) => seq![pos as u32] + starts_from(s, pos + n),
            None => seq![pos as u32],
        }
    }
}

/// The "starts" table of a type record sequence: the byte offset of each record, followed by
/// the offset where decoding ended.
pub open spec fn spec_types_starts(records: Seq<u8>) -> Seq<u32> {
    starts_from(records, 0)
}

/// Builds the table that gives the starting offset of each type record in `type_records`, with
/// one more entry at the end: the offset where the records end. `num_records_expected` only
/// hints at the size of the table.
pub fn build_types_starts(num_records_expected: usize, type_records: &[u8]) -> (starts: Vec<u32>)
    ensures
        starts@ == spec_types_starts(type_records@),
{
    let mut starts: Vec<u32> = Vec::new();
    let mut iter = TypesIter::new(type_records);
    let ghost mut pos: int = 0;
    loop
        invariant_except_break
            0 <= pos <= type_records@.len(),
            iter@ == type_records@.skip(pos),
            starts@ + starts_from(type_records@, pos) == spec_types_starts(type_records@),
        ensures
            starts@ == spec_types_starts(type_records@),
        decreases iter@.len(),
    {
        let at = type_records.len() - iter.rest().len();
        assert(at == pos);
        let ghost prev = starts@;
        starts.push(at as u32);
        let ghost before = iter@;
        match iter.next() {
            Some(_) => {
                let ghost n = spec_type_record(before).unwrap().2;
                proof {
                    assert(type_records@.skip(pos).skip(n) =~= type_records@.skip(pos + n));
                    assert(starts_from(type_records@, pos) == seq![pos as u32] + starts_from(
                        type_records@,
                        pos + n,
                    ));
                    assert(starts@ =~= prev.push(pos as u32));
                    assert(starts@ + starts_from(type_records@, pos + n) =~= (prev
                        + starts_from(type_records@, pos)));
                    pos = pos + n;
                }
            },
            None => {
                proof {
                    assert(starts_from(type_records@, pos) == seq![pos as u32]);
                    assert(starts@ =~= prev + starts_from(type_records@, pos));
                }
                assert(starts@ == spec_types_starts(type_records@));
                break;
            },
        }
    }
    starts
}


/// A type record is framed by its first two bytes, the little-endian number of bytes that follow
/// them: the record occupies those bytes and the two before them, its kind is the little-endian
/// value of the next two bytes, and its data is the rest of the record. A record decodes whenever
/// that number is at least 2 (room for the kind) and the record fits in `s`.
pub proof fn lemma_type_record_framing(s: Seq<u8>)
    ensures
        spec_type_record(s) matches Some((k, d, n)) ==> {
            &&& s.len() >= 4
            &&& n == 2 + s[0] as int + 0x100 * s[1] as int
            &&& n <= s.len()
            &&& k as int == s[2] as int + 0x100 * s[3] as int
            &&& d == s.subrange(4, n)
        },
        s.len() >= 4 && s[0] as int + 0x100 * s[1] as int >= 2 && 2 + s[0] as int + 0x100
            * s[1] as int <= s.len() ==> spec_type_record(s) is Some,
{
}

} // verus!

verus! {

/// The entries of the starts table from position `pos` on delimit the records: each entry but the
/// last is followed by the next entry at the end of the record that decodes there, and the last
/// entry is the end of the bytes or a position where no record decodes.
proof fn lemma_starts_from_delimit(s: Seq<u8>, pos: int)
    requires
        0 <= pos <= s.len(),
        s.len() <= u32::MAX,
    ensures
        starts_from(s, pos).len() >= 1,
        starts_from(s, pos)[0] == pos,
        forall|i: int|
            0 <= i < starts_from(s, pos).len() ==> pos <= #[trigger] starts_from(s, pos)[i] <= s.len(),
        forall|i: int|
            0 <= i < starts_from(s, pos).len() - 1 ==> {
                &&& #[trigger] spec_type_record(s.skip(starts_from(s, pos)[i] as int)) is Some
                &&& starts_from(s, pos)[i + 1] == starts_from(s, pos)[i] + spec_type_record(
                    s.skip(starts_from(s, pos)[i] as int),
                ).unwrap().2
            },
        ({
            let last = starts_from(s, pos).last() as int;
            &&& pos <= last <= s.len()
            &&& (last == s.len() || spec_type_record(s.skip(last)) is None)
        }),
    decreases s.len() - pos,
{
    let st = starts_from(s, pos);
    if pos < s.len() {
        if let Some((_, _, n)) = spec_type_record(s.skip(pos)) {
            lemma_starts_from_delimit(s, pos + n);
            let tail = starts_from(s, pos + n);
            assert(st == seq![pos as u32] + tail);
            assert forall|i: int| 0 <= i < st.len() implies pos <= #[trigger] st[i] <= s.len() by {
                if i > 0 {
                    assert(st[i] == tail[i - 1]);
                }
            }
            assert forall|i: int| 0 <= i < st.len() - 1 implies {
                &&& #[trigger] spec_type_record(s.skip(st[i] as int)) is Some
                &&& st[i + 1] == st[i] + spec_type_record(s.skip(st[i] as int)).unwrap().2
            } by {
                if i > 0 {
                    assert(st[i] == tail[i - 1]);
                    assert(st[i + 1] == tail[i]);
                }
            }
        }
    }
}

/// The starts table delimits the type records: it begins at 0; each entry but the last is the
/// start of a record that decodes, and the next entry is where that record ends; the last entry
/// is the end of the bytes, or a position where no record decodes.
pub proof fn lemma_starts_delimit_records(records: Seq<u8>)
    requires
        records.len() <= u32::MAX,
    ensures
        spec_types_starts(records).len() >= 1,
        spec_types_starts(records)[0] == 0,
        forall|i: int|
            0 <= i < spec_types_starts(records).len() ==> #[trigger] spec_types_starts(records)[i]
                <= records.len(),
        forall|i: int|
            0 <= i < spec_types_starts(records).len() - 1 ==> {
                &&& #[trigger] spec_type_record(records.skip(spec_types_starts(records)[i] as int))
                    is Some
                &&& spec_types_starts(records)[i + 1] == spec_types_starts(records)[i]
                    + spec_type_record(records.skip(spec_types_starts(records)[i] as int)).unwrap().2
                &&& spec_types_starts(records)[i] < spec_types_starts(records)[i + 1]
            },
        ({
            let last = spec_types_starts(records).last() as int;
            &&& last <= records.len()
            &&& (last == records.len() || spec_type_record(records.skip(last)) is None)
        }),
{
    lemma_starts_from_delimit(records, 0);
}

} // verus!

verus! {

/// The bytes that remain after `i` steps of record iteration over `s`: each step moves past the
/// record that decodes, and a step where no record decodes leaves nothing.
pub open spec fn spec_iter_rest(s: Seq<u8>, i: nat) -> Seq<u8>
    decreases i,
{
    if i == 0 {
        s
    } else {
        let prev = spec_iter_rest(s, (i - 1) as nat);
        match spec_type_record(prev) {
            Some((_, _, n)) => prev.skip(n),
            None => Seq::empty(),
        }
    }
}

/// Entry `i` of the starts table is where the record iteration stands after `i` steps.
proof fn lemma_starts_are_iteration(s: Seq<u8>, i: nat)
    requires
        s.len() <= u32::MAX,
        i < spec_types_starts(s).len(),
    ensures
        s.skip(spec_types_starts(s)[i as int] as int) == spec_iter_rest(s, i),
    decreases i,
{
    lemma_starts_delimit_records(s);
    let st = spec_types_starts(s);
    if i == 0 {
        assert(s.skip(0) =~= s);
    } else {
        let j = (i - 1) as nat;
        lemma_starts_are_iteration(s, j);
        let prev = s.skip(st[j as int] as int);
        let n = spec_type_record(prev).unwrap().2;
        assert(prev.skip(n) =~= s.skip(st[i as int] as int));
    }
}

/// Past the last entry of the starts table, iteration has nothing left that decodes.
proof fn lemma_iteration_ends(s: Seq<u8>, i: nat)
    requires
        s.len() <= u32::MAX,
        i + 1 >= spec_types_starts(s).len(),
    ensures
        spec_type_record(spec_iter_rest(s, i)) is None,
    decreases i,
{
    lemma_starts_delimit_records(s);
    let st = spec_types_starts(s);
    let last = (st.len() - 1) as nat;
    if i == last {
        lemma_starts_are_iteration(s, i);
        if st[last as int] == s.len() {
            assert(s.skip(s.len() as int).len() == 0);
        }
    } else {
        lemma_iteration_ends(s, (i - 1) as nat);
        assert(spec_iter_rest(s, i).len() == 0);
    }
}

/// The `i`-th record that iteration yields is the record at entry `i` of the starts table: when
/// the `i`-th step decodes a record, entry `i` has a next entry, and the record there is that one.
pub proof fn lemma_iteration_matches_starts(s: Seq<u8>, i: nat)
    requires
        s.len() <= u32::MAX,
        spec_type_record(spec_iter_rest(s, i)) is Some,
    ensures
        i + 1 < spec_types_starts(s).len(),
        spec_types_starts(s)[i as int] <= s.len(),
        spec_type_record(s.skip(spec_types_starts(s)[i as int] as int)) == spec_type_record(
            spec_iter_rest(s, i),
        ),
{
    lemma_starts_delimit_records(s);
    if i + 1 >= spec_types_starts(s).len() {
        lemma_iteration_ends(s, i);
    }
    lemma_starts_are_iteration(s, i);
}

} // verus!
