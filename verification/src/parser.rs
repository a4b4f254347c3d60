//! A cursor over a byte slice that decodes the primitive items of CodeView records:
//! little-endian integers, type indices, numeric leaves and NUL-terminated strings.

use vstd::prelude::*;
use crate::bytes::{le_u16, le_u32, read_u16_le, read_u32_le};
use crate::types::TypeIndex;

verus! {

/// The error of a failed decode: the input ended early or held a value the format does not allow.
#[derive(Clone, Copy, Debug, PartialEq, Eq, Structural)]
pub struct ParserError;

impl ParserError {
    /// Makes a new error.
    pub fn new() -> (r: ParserError)
        ensures
            r == ParserError,
    {
        ParserError
    }
}

/// Decodes items from the front of a byte slice. Each successful read moves past the bytes it
/// used; the view of a parser is the sequence of bytes that have not been read yet.
pub struct Parser<'a> {
    bytes: &'a [u8],
}

impl<'a> View for Parser<'a> {
    type V = Seq<u8>;

    closed spec fn view(&self) -> Seq<u8> {
        self.bytes@
    }
}

/// `s` has at least `n` bytes: a skip of `n` bytes succeeds.
pub open spec fn spec_skip(s: Seq<u8>, n: int) -> Option<int> {
    if 0 <= n <= s.len() { Some(n) } else { None }
}

/// Decodes a little-endian `u16`: the value and the number of bytes used.
pub open spec fn spec_u16(s: Seq<u8>) -> Option<(u16, int)> {
    if s.len() >= 2 { Some((le_u16(s, 0), 2)) } else { None }
}

/// Decodes a little-endian `u32`: the value and the number of bytes used.
pub open spec fn spec_u32(s: Seq<u8>) -> Option<(u32, int)> {
    if s.len() >= 4 { Some((le_u32(s, 0), 4)) } else { None }
}

/// `i` is the position of the first NUL byte of `s`.
pub open spec fn is_first_nul(s: Seq<u8>, i: int) -> bool {
    &&& 0 <= i < s.len()
    &&& s[i] == 0
    &&& forall|j: int| 0 <= j < i ==> s[j] != 0
}

/// Decodes a NUL-terminated string: the bytes before the first NUL, and the number of bytes used
/// (the NUL included). Fails when `s` holds no NUL.
pub open spec fn spec_strz(s: Seq<u8>) -> Option<(Seq<u8>, int)> {
    if exists|i: int| is_first_nul(s, i) {
        let i = choose|i: int| is_first_nul(s, i);
        Some((s.take(i), i + 1))
    } else {
        None
    }
}

/// Two positions that are both the first NUL of `s` are the same.
pub proof fn lemma_first_nul_unique(s: Seq<u8>, i: int, j: int)
    requires
        is_first_nul(s, i),
        is_first_nul(s, j),
    ensures
        i == j,
{
}

/// A decoded string uses at least its NUL and at most all of `s`.
pub proof fn lemma_strz_len(s: Seq<u8>)
    ensures
        spec_strz(s) matches Some((v, n)) ==> 1 <= n <= s.len() && v.len() == n - 1,
{
}

/// The leaf value at and above which a numeric leaf is not an immediate value.
pub const LF_NUMERIC: u16 = 0x8000;
pub const LF_CHAR: u16 = 0x8000;
pub const LF_SHORT: u16 = 0x8001;
pub const LF_USHORT: u16 = 0x8002;
pub const LF_LONG: u16 = 0x8003;
pub const LF_ULONG: u16 = 0x8004;
pub const LF_REAL32: u16 = 0x8005;
pub const LF_REAL64: u16 = 0x8006;
pub const LF_REAL80: u16 = 0x8007;
pub const LF_REAL128: u16 = 0x8008;
pub const LF_QUADWORD: u16 = 0x8009;
pub const LF_UQUADWORD: u16 = 0x800a;
pub const LF_REAL48: u16 = 0x800b;
pub const LF_COMPLEX32: u16 = 0x800c;
pub const LF_COMPLEX64: u16 = 0x800d;
pub const LF_COMPLEX80: u16 = 0x800e;
pub const LF_COMPLEX128: u16 = 0x800f;
pub const LF_VARSTRING: u16 = 0x8010;
pub const LF_OCTWORD: u16 = 0x8017;
pub const LF_UOCTWORD: u16 = 0x8018;
pub const LF_DECIMAL: u16 = 0x8019;
pub const LF_DATE: u16 = 0x801a;
pub const LF_UTF8STRING: u16 = 0x801b;
pub const LF_REAL16: u16 = 0x801c;

/// The number of payload bytes that follow the leaf of a numeric of fixed size, or `None` for a
/// leaf that is not a numeric of fixed size.
pub open spec fn numeric_fixed_len(leaf: u16) -> Option<int> {
    if leaf < LF_NUMERIC {
        Some(0)
    } else if leaf == LF_CHAR {
        Some(1)
    } else if leaf == LF_SHORT || leaf == LF_USHORT || leaf == LF_REAL16 {
        Some(2)
    } else if leaf == LF_LONG || leaf == LF_ULONG || leaf == LF_REAL32 {
        Some(4)
    } else if leaf == LF_REAL48 {
        Some(6)
    } else if leaf == LF_REAL64 || leaf == LF_QUADWORD || leaf == LF_UQUADWORD || leaf
        == LF_COMPLEX32 || leaf == LF_DATE {
        Some(8)
    } else if leaf == LF_REAL80 {
        Some(10)
    } else if leaf == LF_REAL128 || leaf == LF_COMPLEX64 || leaf == LF_OCTWORD || leaf
        == LF_UOCTWORD || leaf == LF_DECIMAL {
        Some(16)
    } else if leaf == LF_COMPLEX80 {
        Some(20)
    } else if leaf == LF_COMPLEX128 {
        Some(32)
    } else {
        None
    }
}

/// The length in bytes of the numeric leaf at the front of `s`: a leaf below `LF_NUMERIC` is the
/// value itself; other leaves are followed by a payload whose size the leaf gives, by a `u16`
/// length and that many bytes (`LF_VARSTRING`), or by a NUL-terminated string (`LF_UTF8STRING`).
pub open spec fn spec_number_len(s: Seq<u8>) -> Option<int> {
    if s.len() < 2 {
        None
    } else {
        let leaf = le_u16(s, 0);
        if leaf == LF_VARSTRING {
            if s.len() < 4 {
                None
            } else {
                let n = le_u16(s, 2) as int;
                if 4 + n <= s.len() { Some(4 + n) } else { None }
            }
        } else if leaf == LF_UTF8STRING {
            match spec_strz(s.skip(2)) {
                Some((_, n)) => Some(2 + n),
                None => None,
            }
        } else {
            match numeric_fixed_len(leaf) {
                Some(n) => if 2 + n <= s.len() { Some(2 + n) } else { None },
                None => None,
            }
        }
    }
}

/// Decodes a numeric leaf: its bytes (leaf included) and their number.
pub open spec fn spec_number(s: Seq<u8>) -> Option<(Seq<u8>, int)> {
    match spec_number_len(s) {
        Some(n) => Some((s.take(n), n)),
        None => None,
    }
}

/// A decoded numeric leaf uses at least its two leaf bytes and at most all of `s`.
pub proof fn lemma_number_len(s: Seq<u8>)
    ensures
        spec_number(s) matches Some((v, n)) ==> 2 <= n <= s.len() && v.len() == n,
{
    if s.len() >= 2 && le_u16(s, 0) == LF_UTF8STRING {
        lemma_strz_len(s.skip(2));
    }
}

/// A numeric leaf, held as its encoded bytes (the leaf value and its payload).
#[derive(Clone, Copy, Debug)]
pub struct Number<'a> {
    pub bytes: &'a [u8],
}

impl<'a> View for Number<'a> {
    type V = Seq<u8>;

    open spec fn view(&self) -> Seq<u8> {
        self.bytes@
    }
}

impl<'a> Parser<'a> {
    /// A parser over all of `bytes`.
    pub fn new(bytes: &'a [u8]) -> (p: Parser<'a>)
        ensures
            p@ == bytes@,
    {
        Parser { bytes }
    }

    /// The number of bytes not read yet.
    pub fn len(&self) -> (n: usize)
        ensures
            n == self@.len(),
    {
        self.bytes.len()
    }

    /// Whether every byte has been read.
    pub fn is_empty(&self) -> (b: bool)
        ensures
            b == (self@.len() == 0),
    {
        self.bytes.len() == 0
    }

    /// The bytes not read yet, leaving the parser where it is.
    pub fn peek_rest(&self) -> (r: &'a [u8])
        ensures
            r@ == self@,
    {
        self.bytes
    }

    /// The bytes not read yet, consuming the parser.
    pub fn into_rest(self) -> (r: &'a [u8])
        ensures
            r@ == self@,
    {
        self.bytes
    }

    /// Reads `n` bytes.
    pub fn bytes(&mut self, n: usize) -> (r: Result<&'a [u8], ParserError>)
        ensures
            match r {
                Ok(b) => n <= old(self)@.len() && b@ == old(self)@.take(n as int) && final(self)@
                    == old(self)@.skip(n as int),
                Err(_) => n > old(self)@.len() && final(self)@ == old(self)@,
            },
    {
        if n <= self.bytes.len() {
            let all: &'a [u8] = self.bytes;
            let (head, tail) = all.split_at(n);
            self.bytes = tail;
            proof {
                assert(head@ =~= old(self)@.take(n as int));
            }
            Ok(head)
        } else {
            Err(ParserError)
        }
    }

    /// Skips `n` bytes.
    pub fn skip(&mut self, n: usize) -> (r: Result<(), ParserError>)
        ensures
            r is Ok <==> spec_skip(old(self)@, n as int) is Some,
            r is Ok ==> final(self)@ == old(self)@.skip(n as int),
            r is Err ==> final(self)@ == old(self)@,
    {
        match self.bytes(n) {
            Ok(_) => Ok(()),
            Err(e) => Err(e),
        }
    }

    /// Reads a little-endian `u16`.
    pub fn u16(&mut self) -> (r: Result<u16, ParserError>)
        ensures
            match spec_u16(old(self)@) {
                Some((v, n)) => r == Ok::<u16, ParserError>(v) && final(self)@ == old(self)@.skip(n),
                None => r is Err && final(self)@ == old(self)@,
            },
    {
        let b = self.bytes(2)?;
        Ok(read_u16_le(b, 0))
    }

    /// Reads a little-endian `u32`.
    pub fn u32(&mut self) -> (r: Result<u32, ParserError>)
        ensures
            match spec_u32(old(self)@) {
                Some((v, n)) => r == Ok::<u32, ParserError>(v) && final(self)@ == old(self)@.skip(n),
                None => r is Err && final(self)@ == old(self)@,
            },
    {
        let b = self.bytes(4)?;
        Ok(read_u32_le(b, 0))
    }

    /// Reads a type index, stored as a little-endian `u32`.
    pub fn type_index(&mut self) -> (r: Result<TypeIndex, ParserError>)
        ensures
            match spec_u32(old(self)@) {
                Some((v, n)) => r == Ok::<TypeIndex, ParserError>(TypeIndex(v)) && final(self)@
                    == old(self)@.skip(n),
                None => r is Err && final(self)@ == old(self)@,
            },
    {
        let v = self.u32()?;
        Ok(TypeIndex(v))
    }

    /// Reads a NUL-terminated string; the NUL is read but not returned.
    pub fn strz(&mut self) -> (r: Result<&'a [u8], ParserError>)
        ensures
            match spec_strz(old(self)@) {
                Some((v, n)) => r matches Ok(b) && b@ == v && final(self)@ == old(self)@.skip(n),
                None => r is Err && final(self)@ == old(self)@,
            },
    {
        let all: &'a [u8] = self.bytes;
        let mut i: usize = 0;
        while i < all.len() && all[i] != 0
            invariant
                i <= all@.len(),
                all@ == self@,
                forall|j: int| 0 <= j < i ==> all@[j] != 0,
            decreases all@.len() - i,
        {
            i = i + 1;
        }
        if i == all.len() {
            proof {
                assert forall|k: int| !is_first_nul(all@, k) by {
                    if 0 <= k < all@.len() {
                        assert(all@[k] != 0);
                    }
                }
            }
            return Err(ParserError);
        }
        proof {
            assert(is_first_nul(all@, i as int));
            let c = choose|k: int| is_first_nul(all@, k);
            lemma_first_nul_unique(all@, i as int, c);
        }
        let (head, tail) = all.split_at(i);
        let (_nul, rest) = tail.split_at(1);
        self.bytes = rest;
        proof {
            assert(head@ =~= all@.take(i as int));
            assert(rest@ =~= all@.skip(i + 1));
        }
        Ok(head)
    }

    /// Reads a numeric leaf.
    pub fn number(&mut self) -> (r: Result<Number<'a>, ParserError>)
        ensures
            match spec_number(old(self)@) {
                Some((v, n)) => r matches Ok(num) && num@ == v && final(self)@ == old(self)@.skip(n),
                None => r is Err && final(self)@.is_suffix_of(old(self)@),
            },
    {
        let start: &'a [u8] = self.bytes;
        let leaf = self.u16()?;
        let more: usize = if leaf < LF_NUMERIC {
            0
        } else if leaf == LF_CHAR {
            1
        } else if leaf == LF_SHORT || leaf == LF_USHORT || leaf == LF_REAL16 {
            2
        } else if leaf == LF_LONG || leaf == LF_ULONG || leaf == LF_REAL32 {
            4
        } else if leaf == LF_REAL48 {
            6
        } else if leaf == LF_REAL64 || leaf == LF_QUADWORD || leaf == LF_UQUADWORD || leaf
            == LF_COMPLEX32 || leaf == LF_DATE {
            8
        } else if leaf == LF_REAL80 {
            10
        } else if leaf == LF_REAL128 || leaf == LF_COMPLEX64 || leaf == LF_OCTWORD || leaf
            == LF_UOCTWORD || leaf == LF_DECIMAL {
            16
        } else if leaf == LF_COMPLEX80 {
            20
        } else if leaf == LF_COMPLEX128 {
            32
        } else if leaf == LF_VARSTRING {
            let n = self.u16()?;
            proof {
                assert(le_u16(start@.skip(2), 0) == le_u16(start@, 2));
            }
            n as usize
        } else if leaf == LF_UTF8STRING {
            proof {
                assert(start@.skip(2) =~= old(self)@.skip(2));
            }
            self.strz()?;
            0
        } else {
            return Err(ParserError);
        };
        let ghost mid = self@;
        self.skip(more)?;
        let used = start.len() - self.bytes.len();
        let (head, _) = start.split_at(used);
        proof {
            if leaf == LF_VARSTRING {
                assert(mid =~= start@.skip(4));
                assert(self@ =~= start@.skip(4 + more));
            } else if leaf == LF_UTF8STRING {
                let n = spec_strz(start@.skip(2)).unwrap().1;
                assert(mid =~= start@.skip(2 + n));
                assert(self@ =~= start@.skip(2 + n));
            } else {
                assert(self@ =~= start@.skip(2 + more));
            }
            assert(head@ =~= start@.take(used as int));
        }
        Ok(Number { bytes: head })
    }
}


/// `Some(2 + w)` when `s` holds two leaf bytes and `w` payload bytes, else `None`.
pub open spec fn leaf_with_payload(s: Seq<u8>, w: int) -> Option<int> {
    if 2 + w <= s.len() { Some(2 + w) } else { None }
}

/// The size of each numeric leaf of fixed size. A leaf below `LF_NUMERIC` is the value itself and
/// has no payload. The signed and unsigned integers of 8, 16, 32, 64 and 128 bits carry 1, 2, 4,
/// 8 and 16 payload bytes, both signs alike; the reals of 16, 32, 48, 64, 80 and 128 bits carry
/// 2, 4, 6, 8, 10 and 16; complex numbers carry both parts: 8, 16, 20 and 32 bytes for 32, 64, 80
/// and 128-bit parts; a date carries 8 bytes and a decimal 16. A payload cut short does not
/// decode.
pub proof fn lemma_numeric_leaf_sizes(s: Seq<u8>)
    requires
        s.len() >= 2,
    ensures
        s[0] as int + 0x100 * s[1] as int == le_u16(s, 0),
        le_u16(s, 0) < 0x8000 ==> spec_number_len(s) == Some(2int),
        le_u16(s, 0) == 0x8000 ==> spec_number_len(s) == leaf_with_payload(s, 1),
        le_u16(s, 0) == 0x8001 ==> spec_number_len(s) == leaf_with_payload(s, 2),
        le_u16(s, 0) == 0x8002 ==> spec_number_len(s) == leaf_with_payload(s, 2),
        le_u16(s, 0) == 0x8003 ==> spec_number_len(s) == leaf_with_payload(s, 4),
        le_u16(s, 0) == 0x8004 ==> spec_number_len(s) == leaf_with_payload(s, 4),
        le_u16(s, 0) == 0x8005 ==> spec_number_len(s) == leaf_with_payload(s, 4),
        le_u16(s, 0) == 0x8006 ==> spec_number_len(s) == leaf_with_payload(s, 8),
        le_u16(s, 0) == 0x8007 ==> spec_number_len(s) == leaf_with_payload(s, 10),
        le_u16(s, 0) == 0x8008 ==> spec_number_len(s) == leaf_with_payload(s, 16),
        le_u16(s, 0) == 0x8009 ==> spec_number_len(s) == leaf_with_payload(s, 8),
        le_u16(s, 0) == 0x800a ==> spec_number_len(s) == leaf_with_payload(s, 8),
        le_u16(s, 0) == 0x800b ==> spec_number_len(s) == leaf_with_payload(s, 6),
        le_u16(s, 0) == 0x800c ==> spec_number_len(s) == leaf_with_payload(s, 8),
        le_u16(s, 0) == 0x800d ==> spec_number_len(s) == leaf_with_payload(s, 16),
        le_u16(s, 0) == 0x800e ==> spec_number_len(s) == leaf_with_payload(s, 20),
        le_u16(s, 0) == 0x800f ==> spec_number_len(s) == leaf_with_payload(s, 32),
        le_u16(s, 0) == 0x8017 ==> spec_number_len(s) == leaf_with_payload(s, 16),
        le_u16(s, 0) == 0x8018 ==> spec_number_len(s) == leaf_with_payload(s, 16),
        le_u16(s, 0) == 0x8019 ==> spec_number_len(s) == leaf_with_payload(s, 16),
        le_u16(s, 0) == 0x801a ==> spec_number_len(s) == leaf_with_payload(s, 8),
        le_u16(s, 0) == 0x801c ==> spec_number_len(s) == leaf_with_payload(s, 2),
{
}

/// The numeric leaves of variable size: `LF_VARSTRING` is followed by a little-endian `u16`
/// length and that many bytes; `LF_UTF8STRING` by a string up to and including its first NUL,
/// and without a NUL it does not decode. Every other leaf from `LF_NUMERIC` up that has no
/// listed size is not a numeric leaf and does not decode.
pub proof fn lemma_numeric_leaf_variable(s: Seq<u8>)
    requires
        s.len() >= 2,
    ensures
        le_u16(s, 0) == 0x8010 && s.len() >= 4 ==> spec_number_len(s) == leaf_with_payload(
            s,
            2 + s[2] as int + 0x100 * s[3] as int,
        ),
        le_u16(s, 0) == 0x8010 && s.len() < 4 ==> spec_number_len(s) is None,
        forall|i: int|
            le_u16(s, 0) == 0x801b && is_first_nul(#[trigger] s.skip(2), i) ==> spec_number_len(s)
                == Some(3 + i),
        le_u16(s, 0) == 0x801b && (forall|j: int| 2 <= j < s.len() ==> s[j] != 0)
            ==> spec_number_len(s) is None,
        (0x8011 <= le_u16(s, 0) <= 0x8016 || le_u16(s, 0) >= 0x801d) ==> spec_number_len(s) is None,
{
    if le_u16(s, 0) == 0x801b {
        let t = s.skip(2);
        if exists|i: int| is_first_nul(t, i) {
            let c = choose|i: int| is_first_nul(t, i);
            assert forall|i: int| is_first_nul(t, i) implies spec_number_len(s) == Some(3 + i) by {
                lemma_first_nul_unique(t, i, c);
            }
        } else {
            assert forall|i: int| is_first_nul(#[trigger] s.skip(2), i) implies spec_number_len(s)
                == Some(3 + i) by {}
        }
        if forall|j: int| 2 <= j < s.len() ==> s[j] != 0 {
            assert forall|i: int| !is_first_nul(t, i) by {
                if 0 <= i < t.len() {
                    assert(t[i] == s[i + 2]);
                }
            }
        }
    }
}

} // verus!
