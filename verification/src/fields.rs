//! Decodes the items of an `LF_FIELDLIST` record: the members, base classes, methods,
//! enumerators and nested types of a class, structure, union or enumeration.

use vstd::prelude::*;
use crate::bytes::{le_u16, le_u32};
use crate::parser::{Number, Parser, ParserError, spec_number, spec_strz, lemma_number_len, lemma_strz_len};
use crate::types::TypeIndex;

verus! {

pub const LF_BCLASS: u16 = 0x1400;
pub const LF_VBCLASS: u16 = 0x1401;
pub const LF_IVBCLASS: u16 = 0x1402;
pub const LF_INDEX: u16 = 0x1404;
pub const LF_VFUNCTAB: u16 = 0x1409;
pub const LF_FRIENDCLS: u16 = 0x140a;
pub const LF_VFUNCOFF: u16 = 0x140c;
pub const LF_ENUMERATE: u16 = 0x1502;
pub const LF_FRIENDFCN: u16 = 0x150c;
pub const LF_MEMBER: u16 = 0x150d;
pub const LF_STMEMBER: u16 = 0x150e;
pub const LF_METHOD: u16 = 0x150f;
pub const LF_NESTEDTYPE: u16 = 0x1510;
pub const LF_ONEMETHOD: u16 = 0x1511;
pub const LF_NESTEDTYPEEX: u16 = 0x1512;

// ---------------------------------------------------------------------------------------------
// The items and their views: a view holds the bytes of each name and numeric as a sequence.
// ---------------------------------------------------------------------------------------------

/// `LF_NESTEDTYPE`: a type declared within the class.
#[derive(Clone, Copy, Debug)]
pub struct NestedType<'a> {
    pub nested_ty: TypeIndex,
    pub name: &'a [u8],
}

/// The view of a nested type.
pub struct NestedTypeView {
    pub nested_ty: TypeIndex,
    pub name: Seq<u8>,
}

impl<'a> View for NestedType<'a> {
    type V = NestedTypeView;

    open spec fn view(&self) -> NestedTypeView {
        NestedTypeView { nested_ty: self.nested_ty, name: self.name@ }
    }
}

/// `LF_BCLASS`: a non-virtual base class.
#[derive(Clone, Copy, Debug)]
pub struct BaseClass<'a> {
    pub attr: u16,
    pub ty: TypeIndex,
    pub offset: Number<'a>,
}

/// The view of a non-virtual base class.
pub struct BaseClassView {
    pub attr: u16,
    pub ty: TypeIndex,
    pub offset: Seq<u8>,
}

impl<'a> View for BaseClass<'a> {
    type V = BaseClassView;

    open spec fn view(&self) -> BaseClassView {
        BaseClassView { attr: self.attr, ty: self.ty, offset: self.offset@ }
    }
}

/// The fixed-size part of `LF_VBCLASS` and `LF_IVBCLASS`.
#[derive(Clone, Copy, Debug, PartialEq, Eq, Structural)]
pub struct VirtualBaseClassFixed {
    pub attr: u16,
    pub btype: TypeIndex,
    pub vbtype: TypeIndex,
}

/// `LF_VBCLASS`: a direct virtual base class.
#[derive(Clone, Copy, Debug)]
pub struct DirectVirtualBaseClass<'a> {
    pub fixed: VirtualBaseClassFixed,
    pub vbpoff: Number<'a>,
    pub vboff: Number<'a>,
}

/// `LF_IVBCLASS`: an indirect virtual base class.
#[derive(Clone, Copy, Debug)]
pub struct IndirectVirtualBaseClass<'a> {
    pub fixed: VirtualBaseClassFixed,
    pub vbpoff: Number<'a>,
    pub vboff: Number<'a>,
}

/// The view of a direct or an indirect virtual base class.
pub struct VirtualBaseClassView {
    pub fixed: VirtualBaseClassFixed,
    pub vbpoff: Seq<u8>,
    pub vboff: Seq<u8>,
}

impl<'a> View for DirectVirtualBaseClass<'a> {
    type V = VirtualBaseClassView;

    open spec fn view(&self) -> VirtualBaseClassView {
        VirtualBaseClassView { fixed: self.fixed, vbpoff: self.vbpoff@, vboff: self.vboff@ }
    }
}

impl<'a> View for IndirectVirtualBaseClass<'a> {
    type V = VirtualBaseClassView;

    open spec fn view(&self) -> VirtualBaseClassView {
        VirtualBaseClassView { fixed: self.fixed, vbpoff: self.vbpoff@, vboff: self.vboff@ }
    }
}

/// `LF_ENUMERATE`: one enumerator of an enumeration.
#[derive(Clone, Copy, Debug)]
pub struct Enumerate<'a> {
    pub attr: u16,
    pub value: Number<'a>,
    pub name: &'a [u8],
}

/// The view of an enumerator.
pub struct EnumerateView {
    pub attr: u16,
    pub value: Seq<u8>,
    pub name: Seq<u8>,
}

impl<'a> View for Enumerate<'a> {
    type V = EnumerateView;

    open spec fn view(&self) -> EnumerateView {
        EnumerateView { attr: self.attr, value: self.value@, name: self.name@ }
    }
}

/// `LF_FRIENDFCN`: a friend function.
#[derive(Clone, Copy, Debug)]
pub struct FriendFn<'a> {
    pub ty: TypeIndex,
    pub name: &'a [u8],
}

/// The view of a friend function.
pub struct FriendFnView {
    pub ty: TypeIndex,
    pub name: Seq<u8>,
}

impl<'a> View for FriendFn<'a> {
    type V = FriendFnView;

    open spec fn view(&self) -> FriendFnView {
        FriendFnView { ty: self.ty, name: self.name@ }
    }
}

/// `LF_ONEMETHOD`: a method that is not overloaded.
#[derive(Clone, Copy, Debug)]
pub struct OneMethod<'a> {
    pub attr: u16,
    pub ty: TypeIndex,
    pub vbaseoff: u32,
    pub name: &'a [u8],
}

/// The view of a method that is not overloaded.
pub struct OneMethodView {
    pub attr: u16,
    pub ty: TypeIndex,
    pub vbaseoff: u32,
    pub name: Seq<u8>,
}

impl<'a> View for OneMethod<'a> {
    type V = OneMethodView;

    open spec fn view(&self) -> OneMethodView {
        OneMethodView { attr: self.attr, ty: self.ty, vbaseoff: self.vbaseoff, name: self.name@ }
    }
}

/// `LF_VFUNCOFF`: the offset of a virtual function table pointer.
#[derive(Clone, Copy, Debug, PartialEq, Eq, Structural)]
pub struct VFuncOffset {
    pub vtable_ty: TypeIndex,
    pub offset: u32,
}

/// `LF_NESTEDTYPEEX`: a nested type with attributes.
#[derive(Clone, Copy, Debug)]
pub struct NestedTypeEx<'a> {
    pub attr: u16,
    pub ty: TypeIndex,
    pub name: &'a [u8],
}

/// The view of a static member, a nested type with attributes, or a method group: a 16-bit
/// value, a type index and a name.
pub struct NamedTypeView {
    pub attr: u16,
    pub ty: TypeIndex,
    pub name: Seq<u8>,
}

impl<'a> View for NestedTypeEx<'a> {
    type V = NamedTypeView;

    open spec fn view(&self) -> NamedTypeView {
        NamedTypeView { attr: self.attr, ty: self.ty, name: self.name@ }
    }
}

/// `LF_MEMBER`: a non-static data member.
#[derive(Clone, Copy, Debug)]
pub struct Member<'a> {
    pub attr: u16,
    pub ty: TypeIndex,
    pub offset: Number<'a>,
    pub name: &'a [u8],
}

/// The view of a data member.
pub struct MemberView {
    pub attr: u16,
    pub ty: TypeIndex,
    pub offset: Seq<u8>,
    pub name: Seq<u8>,
}

impl<'a> View for Member<'a> {
    type V = MemberView;

    open spec fn view(&self) -> MemberView {
        MemberView { attr: self.attr, ty: self.ty, offset: self.offset@, name: self.name@ }
    }
}

/// `LF_STMEMBER`: a static data member.
#[derive(Clone, Copy, Debug)]
pub struct StaticMember<'a> {
    pub attr: u16,
    pub ty: TypeIndex,
    pub name: &'a [u8],
}

impl<'a> View for StaticMember<'a> {
    type V = NamedTypeView;

    open spec fn view(&self) -> NamedTypeView {
        NamedTypeView { attr: self.attr, ty: self.ty, name: self.name@ }
    }
}

/// `LF_METHOD`: a group of overloaded methods, listed in an `LF_METHODLIST` record.
#[derive(Clone, Copy, Debug)]
pub struct Method<'a> {
    pub count: u16,
    pub methods: TypeIndex,
    pub name: &'a [u8],
}

/// The view of a method group: the number of methods, the `LF_METHODLIST` record that lists
/// them, and their name.
pub struct MethodView {
    pub count: u16,
    pub methods: TypeIndex,
    pub name: Seq<u8>,
}

impl<'a> View for Method<'a> {
    type V = MethodView;

    open spec fn view(&self) -> MethodView {
        MethodView { count: self.count, methods: self.methods, name: self.name@ }
    }
}

/// One item of an `LF_FIELDLIST` record.
#[derive(Clone, Copy, Debug)]
pub enum Field<'a> {
    BaseClass(BaseClass<'a>),
    DirectVirtualBaseClass(DirectVirtualBaseClass<'a>),
    IndirectVirtualBaseClass(IndirectVirtualBaseClass<'a>),
    Enumerate(Enumerate<'a>),
    FriendFn(FriendFn<'a>),
    Index(TypeIndex),
    Member(Member<'a>),
    StaticMember(StaticMember<'a>),
    Method(Method<'a>),
    NestedType(NestedType<'a>),
    VFuncTable(TypeIndex),
    FriendClass(TypeIndex),
    OneMethod(OneMethod<'a>),
    VFuncOffset(VFuncOffset),
    NestedTypeEx(NestedTypeEx<'a>),
}

/// The view of a field list item.
pub enum FieldView {
    BaseClass(BaseClassView),
    DirectVirtualBaseClass(VirtualBaseClassView),
    IndirectVirtualBaseClass(VirtualBaseClassView),
    Enumerate(EnumerateView),
    FriendFn(FriendFnView),
    Index(TypeIndex),
    Member(MemberView),
    StaticMember(NamedTypeView),
    Method(MethodView),
    NestedType(NestedTypeView),
    VFuncTable(TypeIndex),
    FriendClass(TypeIndex),
    OneMethod(OneMethodView),
    VFuncOffset(VFuncOffset),
    NestedTypeEx(NamedTypeView),
}

impl<'a> View for Field<'a> {
    type V = FieldView;

    open spec fn view(&self) -> FieldView {
        match *self {
            Field::BaseClass(x) => FieldView::BaseClass(x@),
            Field::DirectVirtualBaseClass(x) => FieldView::DirectVirtualBaseClass(x@),
            Field::IndirectVirtualBaseClass(x) => FieldView::IndirectVirtualBaseClass(x@),
            Field::Enumerate(x) => FieldView::Enumerate(x@),
            Field::FriendFn(x) => FieldView::FriendFn(x@),
            Field::Index(x) => FieldView::Index(x),
            Field::Member(x) => FieldView::Member(x@),
            Field::StaticMember(x) => FieldView::StaticMember(x@),
            Field::Method(x) => FieldView::Method(x@),
            Field::NestedType(x) => FieldView::NestedType(x@),
            Field::VFuncTable(x) => FieldView::VFuncTable(x),
            Field::FriendClass(x) => FieldView::FriendClass(x),
            Field::OneMethod(x) => FieldView::OneMethod(x@),
            Field::VFuncOffset(x) => FieldView::VFuncOffset(x),
            Field::NestedTypeEx(x) => FieldView::NestedTypeEx(x@),
        }
    }
}

} // verus!

verus! {

// ---------------------------------------------------------------------------------------------
// The encodings of the items. Each function decodes the item body at the front of `s` (the bytes
// after the item's leaf kind) and gives its view and the number of bytes it occupies.
// ---------------------------------------------------------------------------------------------

/// `padding: u16, nested_ty: u32, name: strz`
pub open spec fn spec_nested_type(s: Seq<u8>) -> Option<(NestedTypeView, int)> {
    if s.len() < 6 {
        None
    } else {
        match spec_strz(s.skip(6)) {
            Some((name, n)) => Some(
                (NestedTypeView { nested_ty: TypeIndex(le_u32(s, 2)), name }, 6 + n),
            ),
            None => None,
        }
    }
}

/// `attr: u16, ty: u32, offset: numeric`
pub open spec fn spec_base_class(s: Seq<u8>) -> Option<(BaseClassView, int)> {
    if s.len() < 6 {
        None
    } else {
        match spec_number(s.skip(6)) {
            Some((offset, n)) => Some(
                (BaseClassView { attr: le_u16(s, 0), ty: TypeIndex(le_u32(s, 2)), offset }, 6 + n),
            ),
            None => None,
        }
    }
}

/// `attr: u16, btype: u32, vbtype: u32`
pub open spec fn spec_virtual_base_class_fixed(s: Seq<u8>) -> Option<(VirtualBaseClassFixed, int)> {
    if s.len() < 10 {
        None
    } else {
        Some(
            (
                VirtualBaseClassFixed {
                    attr: le_u16(s, 0),
                    btype: TypeIndex(le_u32(s, 2)),
                    vbtype: TypeIndex(le_u32(s, 6)),
                },
                10,
            ),
        )
    }
}

/// `fixed: VirtualBaseClassFixed, vbpoff: numeric, vboff: numeric`
pub open spec fn spec_virtual_base_class(s: Seq<u8>) -> Option<(VirtualBaseClassView, int)> {
    match spec_virtual_base_class_fixed(s) {
        None => None,
        Some((fixed, n0)) => match spec_number(s.skip(n0)) {
            None => None,
            Some((vbpoff, n1)) => match spec_number(s.skip(n0 + n1)) {
                None => None,
                Some((vboff, n2)) => Some(
                    (VirtualBaseClassView { fixed, vbpoff, vboff }, n0 + n1 + n2),
                ),
            },
        },
    }
}

/// `attr: u16, value: numeric, name: strz`
pub open spec fn spec_enumerate(s: Seq<u8>) -> Option<(EnumerateView, int)> {
    if s.len() < 2 {
        None
    } else {
        match spec_number(s.skip(2)) {
            None => None,
            Some((value, n1)) => match spec_strz(s.skip(2 + n1)) {
                None => None,
                Some((name, n2)) => Some(
                    (EnumerateView { attr: le_u16(s, 0), value, name }, 2 + n1 + n2),
                ),
            },
        }
    }
}

/// `padding: u16, ty: u32, name: strz`
pub open spec fn spec_friend_fn(s: Seq<u8>) -> Option<(FriendFnView, int)> {
    if s.len() < 6 {
        None
    } else {
        match spec_strz(s.skip(6)) {
            Some((name, n)) => Some((FriendFnView { ty: TypeIndex(le_u32(s, 2)), name }, 6 + n)),
            None => None,
        }
    }
}

/// Whether the method properties within `attr` (bits 2 to 4) are "introducing virtual" (4) or
/// "pure introducing virtual" (6): such a method carries its offset in the virtual table.
pub open spec fn spec_introduces_virtual(attr: u16) -> bool {
    (attr / 4) % 8 == 4 || (attr / 4) % 8 == 6
}

/// Whether the method properties within `attr` introduce a virtual function.
pub fn introduces_virtual(attr: u16) -> (b: bool)
    ensures
        b == spec_introduces_virtual(attr),
{
    let mprop = (attr / 4) % 8;
    mprop == 4 || mprop == 6
}

/// `attr: u16, ty: u32, vbaseoff: u32 (only when introducing virtual), name: strz`
pub open spec fn spec_one_method(s: Seq<u8>) -> Option<(OneMethodView, int)> {
    if s.len() < 6 {
        None
    } else {
        let attr = le_u16(s, 0);
        let ty = TypeIndex(le_u32(s, 2));
        if spec_introduces_virtual(attr) {
            if s.len() < 10 {
                None
            } else {
                match spec_strz(s.skip(10)) {
                    None => None,
                    Some((name, n)) => Some(
                        (OneMethodView { attr, ty, vbaseoff: le_u32(s, 6), name }, 10 + n),
                    ),
                }
            }
        } else {
            match spec_strz(s.skip(6)) {
                None => None,
                Some((name, n)) => Some((OneMethodView { attr, ty, vbaseoff: 0, name }, 6 + n)),
            }
        }
    }
}

/// `padding: u16, vtable_ty: u32, offset: u32`
pub open spec fn spec_vfunc_offset(s: Seq<u8>) -> Option<(VFuncOffset, int)> {
    if s.len() < 10 {
        None
    } else {
        Some((VFuncOffset { vtable_ty: TypeIndex(le_u32(s, 2)), offset: le_u32(s, 6) }, 10))
    }
}

/// `attr: u16, ty: u32, name: strz` (static members, nested types with attributes, and, read
/// as `count: u16, methods: u32, name: strz`, method groups)
pub open spec fn spec_named_type(s: Seq<u8>) -> Option<(NamedTypeView, int)> {
    if s.len() < 6 {
        None
    } else {
        match spec_strz(s.skip(6)) {
            Some((name, n)) => Some(
                (NamedTypeView { attr: le_u16(s, 0), ty: TypeIndex(le_u32(s, 2)), name }, 6 + n),
            ),
            None => None,
        }
    }
}

/// `count: u16, methods: u32, name: strz`
pub open spec fn spec_method(s: Seq<u8>) -> Option<(MethodView, int)> {
    match spec_named_type(s) {
        Some((v, n)) => Some((MethodView { count: v.attr, methods: v.ty, name: v.name }, n)),
        None => None,
    }
}

/// `attr: u16, ty: u32, offset: numeric, name: strz`
pub open spec fn spec_member(s: Seq<u8>) -> Option<(MemberView, int)> {
    if s.len() < 6 {
        None
    } else {
        match spec_number(s.skip(6)) {
            None => None,
            Some((offset, n1)) => match spec_strz(s.skip(6 + n1)) {
                None => None,
                Some((name, n2)) => Some(
                    (
                        MemberView { attr: le_u16(s, 0), ty: TypeIndex(le_u32(s, 2)), offset, name },
                        6 + n1 + n2,
                    ),
                ),
            },
        }
    }
}

/// `padding: u16, ty: u32` (continuation index, virtual function table, friend class)
pub open spec fn spec_padded_type_index(s: Seq<u8>) -> Option<(TypeIndex, int)> {
    if s.len() < 6 {
        None
    } else {
        Some((TypeIndex(le_u32(s, 2)), 6))
    }
}

} // verus!

verus! {

/// Decodes the body of a field list item of kind `kind` at the front of `r`: the item and the
/// number of bytes of the body; `None` for an unknown kind or a body that does not decode.
pub open spec fn spec_field_body(kind: u16, r: Seq<u8>) -> Option<(FieldView, int)> {
    if kind == LF_BCLASS {
        match spec_base_class(r) {
            Some((v, n)) => Some((FieldView::BaseClass(v), n)),
            None => None,
        }
    } else if kind == LF_VBCLASS {
        match spec_virtual_base_class(r) {
            Some((v, n)) => Some((FieldView::DirectVirtualBaseClass(v), n)),
            None => None,
        }
    } else if kind == LF_IVBCLASS {
        match spec_virtual_base_class(r) {
            Some((v, n)) => Some((FieldView::IndirectVirtualBaseClass(v), n)),
            None => None,
        }
    } else if kind == LF_ENUMERATE {
        match spec_enumerate(r) {
            Some((v, n)) => Some((FieldView::Enumerate(v), n)),
            None => None,
        }
    } else if kind == LF_FRIENDFCN {
        match spec_friend_fn(r) {
            Some((v, n)) => Some((FieldView::FriendFn(v), n)),
            None => None,
        }
    } else if kind == LF_INDEX {
        match spec_padded_type_index(r) {
            Some((v, n)) => Some((FieldView::Index(v), n)),
            None => None,
        }
    } else if kind == LF_MEMBER {
        match spec_member(r) {
            Some((v, n)) => Some((FieldView::Member(v), n)),
            None => None,
        }
    } else if kind == LF_STMEMBER {
        match spec_named_type(r) {
            Some((v, n)) => Some((FieldView::StaticMember(v), n)),
            None => None,
        }
    } else if kind == LF_METHOD {
        match spec_method(r) {
            Some((v, n)) => Some((FieldView::Method(v), n)),
            None => None,
        }
    } else if kind == LF_NESTEDTYPE {
        match spec_nested_type(r) {
            Some((v, n)) => Some((FieldView::NestedType(v), n)),
            None => None,
        }
    } else if kind == LF_VFUNCTAB {
        match spec_padded_type_index(r) {
            Some((v, n)) => Some((FieldView::VFuncTable(v), n)),
            None => None,
        }
    } else if kind == LF_FRIENDCLS {
        match spec_padded_type_index(r) {
            Some((v, n)) => Some((FieldView::FriendClass(v), n)),
            None => None,
        }
    } else if kind == LF_ONEMETHOD {
        match spec_one_method(r) {
            Some((v, n)) => Some((FieldView::OneMethod(v), n)),
            None => None,
        }
    } else if kind == LF_VFUNCOFF {
        match spec_vfunc_offset(r) {
            Some((v, n)) => Some((FieldView::VFuncOffset(v), n)),
            None => None,
        }
    } else if kind == LF_NESTEDTYPEEX {
        match spec_named_type(r) {
            Some((v, n)) => Some((FieldView::NestedTypeEx(v), n)),
            None => None,
        }
    } else {
        None
    }
}

/// Decodes one field list item: `kind: u16`, then the body that the kind selects. Gives the item
/// and the number of bytes it occupies; `None` for an unknown kind or a body that does not decode.
pub open spec fn spec_field(s: Seq<u8>) -> Option<(FieldView, int)> {
    if s.len() < 2 {
        None
    } else {
        match spec_field_body(le_u16(s, 0), s.skip(2)) {
            Some((f, n)) => Some((f, 2 + n)),
            None => None,
        }
    }
}

// ---------------------------------------------------------------------------------------------
// Decoding from a parser. Each function reads one item body and leaves the parser after it.
// ---------------------------------------------------------------------------------------------

impl<'a> NestedType<'a> {
    /// Reads `padding: u16, nested_ty: u32, name: strz`.
    pub fn from_parser(p: &mut Parser<'a>) -> (r: Result<NestedType<'a>, ParserError>)
        ensures
            match spec_nested_type(old(p)@) {
                Some((v, n)) => r matches Ok(x) && x@ == v && final(p)@ == old(p)@.skip(n),
                None => r is Err && final(p)@.is_suffix_of(old(p)@),
            },
    {
        let ghost s = p@;
        p.skip(2)?;
        let nested_ty = p.type_index()?;
        assert(p@ =~= s.skip(6));
        let name = p.strz()?;
        proof {
            lemma_strz_len(s.skip(6));
            assert(p@ =~= s.skip(6 + spec_strz(s.skip(6)).unwrap().1));
        }
        Ok(NestedType { nested_ty, name })
    }
}

impl<'a> BaseClass<'a> {
    /// Reads `attr: u16, ty: u32, offset: numeric`.
    pub fn from_parser(p: &mut Parser<'a>) -> (r: Result<BaseClass<'a>, ParserError>)
        ensures
            match spec_base_class(old(p)@) {
                Some((v, n)) => r matches Ok(x) && x@ == v && final(p)@ == old(p)@.skip(n),
                None => r is Err && final(p)@.is_suffix_of(old(p)@),
            },
    {
        let ghost s = p@;
        let attr = p.u16()?;
        let ty = p.type_index()?;
        assert(p@ =~= s.skip(6));
        let offset = p.number()?;
        proof {
            lemma_number_len(s.skip(6));
            assert(p@ =~= s.skip(6 + spec_number(s.skip(6)).unwrap().1));
        }
        Ok(BaseClass { attr, ty, offset })
    }
}

impl VirtualBaseClassFixed {
    /// Reads `attr: u16, btype: u32, vbtype: u32`.
    pub fn from_parser(p: &mut Parser) -> (r: Result<VirtualBaseClassFixed, ParserError>)
        ensures
            match spec_virtual_base_class_fixed(old(p)@) {
                Some((v, n)) => r == Ok::<VirtualBaseClassFixed, ParserError>(v) && final(p)@
                    == old(p)@.skip(n),
                None => r is Err && final(p)@.is_suffix_of(old(p)@),
            },
    {
        let ghost s = p@;
        let attr = p.u16()?;
        let btype = p.type_index()?;
        let vbtype = p.type_index()?;
        assert(p@ =~= s.skip(10));
        Ok(VirtualBaseClassFixed { attr, btype, vbtype })
    }
}

/// Reads the body of a direct or indirect virtual base class.
fn parse_virtual_base_class<'a>(p: &mut Parser<'a>) -> (r: Result<
    (VirtualBaseClassFixed, Number<'a>, Number<'a>),
    ParserError,
>)
    ensures
        match spec_virtual_base_class(old(p)@) {
            Some((v, n)) => r matches Ok((fixed, vbpoff, vboff)) && fixed == v.fixed && vbpoff@
                == v.vbpoff && vboff@ == v.vboff && final(p)@ == old(p)@.skip(n),
            None => r is Err && final(p)@.is_suffix_of(old(p)@),
        },
{
    let ghost s = p@;
    let fixed = VirtualBaseClassFixed::from_parser(p)?;
    let vbpoff = p.number()?;
    proof {
        lemma_number_len(s.skip(10));
    }
    let ghost n1 = spec_number(s.skip(10)).unwrap().1;
    assert(p@ =~= s.skip(10 + n1));
    let vboff = p.number()?;
    proof {
        lemma_number_len(s.skip(10 + n1));
        assert(p@ =~= s.skip(10 + n1 + spec_number(s.skip(10 + n1)).unwrap().1));
    }
    Ok((fixed, vbpoff, vboff))
}

impl<'a> DirectVirtualBaseClass<'a> {
    /// Reads `fixed: VirtualBaseClassFixed, vbpoff: numeric, vboff: numeric`.
    pub fn from_parser(p: &mut Parser<'a>) -> (r: Result<DirectVirtualBaseClass<'a>, ParserError>)
        ensures
            match spec_virtual_base_class(old(p)@) {
                Some((v, n)) => r matches Ok(x) && x@ == v && final(p)@ == old(p)@.skip(n),
                None => r is Err && final(p)@.is_suffix_of(old(p)@),
            },
    {
        let (fixed, vbpoff, vboff) = parse_virtual_base_class(p)?;
        Ok(DirectVirtualBaseClass { fixed, vbpoff, vboff })
    }
}

impl<'a> IndirectVirtualBaseClass<'a> {
    /// Reads `fixed: VirtualBaseClassFixed, vbpoff: numeric, vboff: numeric`.
    pub fn from_parser(p: &mut Parser<'a>) -> (r: Result<IndirectVirtualBaseClass<'a>, ParserError>)
        ensures
            match spec_virtual_base_class(old(p)@) {
                Some((v, n)) => r matches Ok(x) && x@ == v && final(p)@ == old(p)@.skip(n),
                None => r is Err && final(p)@.is_suffix_of(old(p)@),
            },
    {
        let (fixed, vbpoff, vboff) = parse_virtual_base_class(p)?;
        Ok(IndirectVirtualBaseClass { fixed, vbpoff, vboff })
    }
}

impl<'a> Enumerate<'a> {
    /// Reads `attr: u16, value: numeric, name: strz`.
    pub fn from_parser(p: &mut Parser<'a>) -> (r: Result<Enumerate<'a>, ParserError>)
        ensures
            match spec_enumerate(old(p)@) {
                Some((v, n)) => r matches Ok(x) && x@ == v && final(p)@ == old(p)@.skip(n),
                None => r is Err && final(p)@.is_suffix_of(old(p)@),
            },
    {
        let ghost s = p@;
        let attr = p.u16()?;
        let value = p.number()?;
        proof {
            lemma_number_len(s.skip(2));
        }
        let ghost n1 = spec_number(s.skip(2)).unwrap().1;
        assert(p@ =~= s.skip(2 + n1));
        let name = p.strz()?;
        proof {
            lemma_strz_len(s.skip(2 + n1));
            assert(p@ =~= s.skip(2 + n1 + spec_strz(s.skip(2 + n1)).unwrap().1));
        }
        Ok(Enumerate { attr, value, name })
    }
}

impl<'a> FriendFn<'a> {
    /// Reads `padding: u16, ty: u32, name: strz`.
    pub fn from_parser(p: &mut Parser<'a>) -> (r: Result<FriendFn<'a>, ParserError>)
        ensures
            match spec_friend_fn(old(p)@) {
                Some((v, n)) => r matches Ok(x) && x@ == v && final(p)@ == old(p)@.skip(n),
                None => r is Err && final(p)@.is_suffix_of(old(p)@),
            },
    {
        let ghost s = p@;
        p.skip(2)?;
        let ty = p.type_index()?;
        assert(p@ =~= s.skip(6));
        let name = p.strz()?;
        proof {
            lemma_strz_len(s.skip(6));
            assert(p@ =~= s.skip(6 + spec_strz(s.skip(6)).unwrap().1));
        }
        Ok(FriendFn { ty, name })
    }
}

impl<'a> OneMethod<'a> {
    /// Reads `attr: u16, ty: u32`, then `vbaseoff: u32` when the attributes introduce a virtual
    /// function (otherwise `vbaseoff` is 0), then `name: strz`.
    pub fn from_parser(p: &mut Parser<'a>) -> (r: Result<OneMethod<'a>, ParserError>)
        ensures
            match spec_one_method(old(p)@) {
                Some((v, n)) => r matches Ok(x) && x@ == v && final(p)@ == old(p)@.skip(n),
                None => r is Err && final(p)@.is_suffix_of(old(p)@),
            },
    {
        let ghost s = p@;
        let attr = p.u16()?;
        let ty = p.type_index()?;
        let vbaseoff = if introduces_virtual(attr) {
            assert(p@ =~= s.skip(6));
            p.u32()?
        } else {
            0
        };
        let ghost k: int = if spec_introduces_virtual(attr) { 10 } else { 6 };
        assert(p@ =~= s.skip(k));
        let name = p.strz()?;
        proof {
            lemma_strz_len(s.skip(k));
            assert(p@ =~= s.skip(k + spec_strz(s.skip(k)).unwrap().1));
        }
        Ok(OneMethod { attr, ty, vbaseoff, name })
    }
}

impl VFuncOffset {
    /// Reads `padding: u16, vtable_ty: u32, offset: u32`.
    pub fn from_parser(p: &mut Parser) -> (r: Result<VFuncOffset, ParserError>)
        ensures
            match spec_vfunc_offset(old(p)@) {
                Some((v, n)) => r == Ok::<VFuncOffset, ParserError>(v) && final(p)@ == old(p)@.skip(
                    n,
                ),
                None => r is Err && final(p)@.is_suffix_of(old(p)@),
            },
    {
        let ghost s = p@;
        p.skip(2)?;
        let vtable_ty = p.type_index()?;
        let offset = p.u32()?;
        assert(p@ =~= s.skip(10));
        Ok(VFuncOffset { vtable_ty, offset })
    }
}

/// Reads `attr: u16, ty: u32, name: strz`.
fn parse_named_type<'a>(p: &mut Parser<'a>) -> (r: Result<(u16, TypeIndex, &'a [u8]), ParserError>)
    ensures
        match spec_named_type(old(p)@) {
            Some((v, n)) => r matches Ok((attr, ty, name)) && attr == v.attr && ty == v.ty && name@
                == v.name && final(p)@ == old(p)@.skip(n),
            None => r is Err && final(p)@.is_suffix_of(old(p)@),
        },
{
    let ghost s = p@;
    let attr = p.u16()?;
    let ty = p.type_index()?;
    assert(p@ =~= s.skip(6));
    let name = p.strz()?;
    proof {
        lemma_strz_len(s.skip(6));
        assert(p@ =~= s.skip(6 + spec_strz(s.skip(6)).unwrap().1));
    }
    Ok((attr, ty, name))
}

impl<'a> NestedTypeEx<'a> {
    /// Reads `attr: u16, ty: u32, name: strz`.
    pub fn from_parser(p: &mut Parser<'a>) -> (r: Result<NestedTypeEx<'a>, ParserError>)
        ensures
            match spec_named_type(old(p)@) {
                Some((v, n)) => r matches Ok(x) && x@ == v && final(p)@ == old(p)@.skip(n),
                None => r is Err && final(p)@.is_suffix_of(old(p)@),
            },
    {
        let (attr, ty, name) = parse_named_type(p)?;
        Ok(NestedTypeEx { attr, ty, name })
    }
}

impl<'a> StaticMember<'a> {
    /// Reads `attr: u16, ty: u32, name: strz`.
    pub fn from_parser(p: &mut Parser<'a>) -> (r: Result<StaticMember<'a>, ParserError>)
        ensures
            match spec_named_type(old(p)@) {
                Some((v, n)) => r matches Ok(x) && x@ == v && final(p)@ == old(p)@.skip(n),
                None => r is Err && final(p)@.is_suffix_of(old(p)@),
            },
    {
        let (attr, ty, name) = parse_named_type(p)?;
        Ok(StaticMember { attr, ty, name })
    }
}

impl<'a> Method<'a> {
    /// Reads `count: u16, methods: u32, name: strz`.
    pub fn from_parser(p: &mut Parser<'a>) -> (r: Result<Method<'a>, ParserError>)
        ensures
            match spec_method(old(p)@) {
                Some((v, n)) => r matches Ok(x) && x@ == v && final(p)@ == old(p)@.skip(n),
                None => r is Err && final(p)@.is_suffix_of(old(p)@),
            },
    {
        let (count, methods, name) = parse_named_type(p)?;
        Ok(Method { count, methods, name })
    }
}

impl<'a> Member<'a> {
    /// Reads `attr: u16, ty: u32, offset: numeric, name: strz`.
    pub fn from_parser(p: &mut Parser<'a>) -> (r: Result<Member<'a>, ParserError>)
        ensures
            match spec_member(old(p)@) {
                Some((v, n)) => r matches Ok(x) && x@ == v && final(p)@ == old(p)@.skip(n),
                None => r is Err && final(p)@.is_suffix_of(old(p)@),
            },
    {
        let ghost s = p@;
        let attr = p.u16()?;
        let ty = p.type_index()?;
        assert(p@ =~= s.skip(6));
        let offset = p.number()?;
        proof {
            lemma_number_len(s.skip(6));
        }
        let ghost n1 = spec_number(s.skip(6)).unwrap().1;
        assert(p@ =~= s.skip(6 + n1));
        let name = p.strz()?;
        proof {
            lemma_strz_len(s.skip(6 + n1));
            assert(p@ =~= s.skip(6 + n1 + spec_strz(s.skip(6 + n1)).unwrap().1));
        }
        Ok(Member { attr, ty, offset, name })
    }
}

/// Reads `padding: u16, ty: u32`.
fn parse_padded_type_index(p: &mut Parser) -> (r: Result<TypeIndex, ParserError>)
    ensures
        match spec_padded_type_index(old(p)@) {
            Some((v, n)) => r == Ok::<TypeIndex, ParserError>(v) && final(p)@ == old(p)@.skip(n),
            None => r is Err && final(p)@.is_suffix_of(old(p)@),
        },
{
    let ghost s = p@;
    p.skip(2)?;
    let ty = p.type_index()?;
    assert(p@ =~= s.skip(6));
    Ok(ty)
}

} // verus!

verus! {

/// Each item body uses at least one byte and at most all of `s`.
proof fn lemma_body_lens(s: Seq<u8>)
    ensures
        spec_base_class(s) matches Some((_, n)) ==> 1 <= n <= s.len(),
        spec_virtual_base_class(s) matches Some((_, n)) ==> 1 <= n <= s.len(),
        spec_enumerate(s) matches Some((_, n)) ==> 1 <= n <= s.len(),
        spec_friend_fn(s) matches Some((_, n)) ==> 1 <= n <= s.len(),
        spec_padded_type_index(s) matches Some((_, n)) ==> 1 <= n <= s.len(),
        spec_member(s) matches Some((_, n)) ==> 1 <= n <= s.len(),
        spec_named_type(s) matches Some((_, n)) ==> 1 <= n <= s.len(),
        spec_nested_type(s) matches Some((_, n)) ==> 1 <= n <= s.len(),
        spec_one_method(s) matches Some((_, n)) ==> 1 <= n <= s.len(),
        spec_vfunc_offset(s) matches Some((_, n)) ==> 1 <= n <= s.len(),
{
    if s.len() >= 6 {
        lemma_number_len(s.skip(6));
        lemma_strz_len(s.skip(6));
        if let Some((_, n1)) = spec_number(s.skip(6)) {
            lemma_strz_len(s.skip(6 + n1));
        }
    }
    if s.len() >= 10 {
        lemma_strz_len(s.skip(10));
        lemma_number_len(s.skip(10));
        if let Some((_, n1)) = spec_number(s.skip(10)) {
            lemma_number_len(s.skip(10 + n1));
        }
    }
    if s.len() >= 2 {
        lemma_number_len(s.skip(2));
        if let Some((_, n1)) = spec_number(s.skip(2)) {
            lemma_strz_len(s.skip(2 + n1));
        }
    }
}

/// A decoded item body uses at least one byte and at most all of `r`.
pub proof fn lemma_field_body_len(kind: u16, r: Seq<u8>)
    ensures
        spec_field_body(kind, r) matches Some((_, n)) ==> 1 <= n <= r.len(),
{
    lemma_body_lens(r);
}

/// A decoded item uses at least its two kind bytes and at most all of `s`.
pub proof fn lemma_field_len(s: Seq<u8>)
    ensures
        spec_field(s) matches Some((_, n)) ==> 3 <= n <= s.len(),
{
    if s.len() >= 2 {
        lemma_body_lens(s.skip(2));
    }
}

/// Reads the body of a field list item of kind `kind`.
fn parse_field_body<'a>(kind: u16, p: &mut Parser<'a>) -> (r: Result<Field<'a>, ParserError>)
    ensures
        match spec_field_body(kind, old(p)@) {
            Some((v, n)) => r matches Ok(f) && f@ == v && final(p)@ == old(p)@.skip(n),
            None => r is Err && final(p)@.is_suffix_of(old(p)@),
        },
{
    if kind == LF_BCLASS {
        Ok(Field::BaseClass(BaseClass::from_parser(p)?))
    } else if kind == LF_VBCLASS {
        Ok(Field::DirectVirtualBaseClass(DirectVirtualBaseClass::from_parser(p)?))
    } else if kind == LF_IVBCLASS {
        Ok(Field::IndirectVirtualBaseClass(IndirectVirtualBaseClass::from_parser(p)?))
    } else if kind == LF_ENUMERATE {
        Ok(Field::Enumerate(Enumerate::from_parser(p)?))
    } else if kind == LF_FRIENDFCN {
        Ok(Field::FriendFn(FriendFn::from_parser(p)?))
    } else if kind == LF_INDEX {
        Ok(Field::Index(parse_padded_type_index(p)?))
    } else if kind == LF_MEMBER {
        Ok(Field::Member(Member::from_parser(p)?))
    } else if kind == LF_STMEMBER {
        Ok(Field::StaticMember(StaticMember::from_parser(p)?))
    } else if kind == LF_METHOD {
        Ok(Field::Method(Method::from_parser(p)?))
    } else if kind == LF_NESTEDTYPE {
        Ok(Field::NestedType(NestedType::from_parser(p)?))
    } else if kind == LF_VFUNCTAB {
        Ok(Field::VFuncTable(parse_padded_type_index(p)?))
    } else if kind == LF_FRIENDCLS {
        Ok(Field::FriendClass(parse_padded_type_index(p)?))
    } else if kind == LF_ONEMETHOD {
        Ok(Field::OneMethod(OneMethod::from_parser(p)?))
    } else if kind == LF_VFUNCOFF {
        Ok(Field::VFuncOffset(VFuncOffset::from_parser(p)?))
    } else if kind == LF_NESTEDTYPEEX {
        Ok(Field::NestedTypeEx(NestedTypeEx::from_parser(p)?))
    } else {
        Err(ParserError::new())
    }
}

impl<'a> Field<'a> {
    /// Parses one field list item: its kind, then the body the kind selects. An unknown kind is
    /// an error.
    ///
    /// Field list items carry no length, so decoding an item is what locates the next one: the
    /// parser is left just after the item.
    pub fn parse(p: &mut Parser<'a>) -> (r: Result<Field<'a>, ParserError>)
        ensures
            match spec_field(old(p)@) {
                Some((v, n)) => r matches Ok(f) && f@ == v && final(p)@ == old(p)@.skip(n),
                None => r is Err && final(p)@.is_suffix_of(old(p)@),
            },
    {
        let ghost s = p@;
        let kind = p.u16()?;
        let ghost r = p@;
        proof {
            lemma_field_body_len(kind, r);
            assert(r =~= s.skip(2));
        }
        let f = parse_field_body(kind, p)?;
        proof {
            let n = spec_field_body(kind, r).unwrap().1;
            assert(p@ =~= s.skip(2 + n));
        }
        Ok(f)
    }
}

// ---------------------------------------------------------------------------------------------
// Iteration over the items of a field list.
// ---------------------------------------------------------------------------------------------

/// `k` is the number of alignment bytes (values `0xf0` and above) at the front of `s`.
pub open spec fn is_padding_len(s: Seq<u8>, k: int) -> bool {
    &&& 0 <= k <= s.len()
    &&& forall|j: int| 0 <= j < k ==> s[j] >= 0xf0
    &&& (k == s.len() || s[k] < 0xf0)
}

/// The number of alignment bytes at the front of `s`.
pub open spec fn padding_len(s: Seq<u8>) -> int {
    choose|k: int| is_padding_len(s, k)
}

/// Every byte sequence has exactly one run of alignment bytes at its front.
pub proof fn lemma_padding_len(s: Seq<u8>, k: int)
    requires
        is_padding_len(s, k),
    ensures
        padding_len(s) == k,
{
    let c = choose|k: int| is_padding_len(s, k);
    assert(is_padding_len(s, c));
    if c < k {
        assert(s[c] >= 0xf0);
    } else if k < c {
        assert(s[k] >= 0xf0);
    }
}

/// The effect of one step of field list iteration on the remaining bytes `s`: the bytes that
/// remain after the step, and the item it yields. Alignment bytes are skipped; when nothing but
/// alignment remains the iteration ends without consuming anything; an item that does not decode
/// yields an error and leaves nothing to iterate.
pub open spec fn spec_fields_next(s: Seq<u8>) -> (Seq<u8>, Option<Result<FieldView, ParserError>>) {
    if s.len() == 0 {
        (s, None)
    } else {
        let r = s.skip(padding_len(s));
        if r.len() == 0 {
            (s, None)
        } else {
            match spec_field(r) {
                Some((f, n)) => (r.skip(n), Some(Ok(f))),
                None => (Seq::empty(), Some(Err(ParserError))),
            }
        }
    }
}

/// Each successful step of field list iteration leaves strictly fewer bytes.
pub proof fn lemma_fields_next_shrinks(s: Seq<u8>)
    ensures
        spec_fields_next(s).0.len() <= s.len(),
        spec_fields_next(s).1 matches Some(Ok(_)) ==> spec_fields_next(s).0.len() < s.len(),
{
    if s.len() > 0 {
        lemma_padding_exists(s);
        let r = s.skip(padding_len(s));
        lemma_field_len(r);
    }
}

/// Every byte sequence has a run of alignment bytes (possibly empty) at its front.
pub proof fn lemma_padding_exists(s: Seq<u8>)
    ensures
        is_padding_len(s, padding_len(s)),
        0 <= padding_len(s) <= s.len(),
{
    lemma_padding_from(s, 0);
}

/// If the first `k` bytes of `s` are alignment bytes, the run of alignment bytes is found at `k`
/// or after it.
proof fn lemma_padding_from(s: Seq<u8>, k: int)
    requires
        0 <= k <= s.len(),
        forall|j: int| 0 <= j < k ==> s[j] >= 0xf0,
    ensures
        is_padding_len(s, padding_len(s)),
        0 <= padding_len(s) <= s.len(),
    decreases s.len() - k,
{
    if k < s.len() && s[k] >= 0xf0 {
        lemma_padding_from(s, k + 1);
    } else {
        lemma_padding_len(s, k);
    }
}

/// The items that iterating the field list bytes `s` yields, in order: each decoded item, then,
/// if an item fails to decode, one error, after which iteration ends.
pub open spec fn spec_fields_items(s: Seq<u8>) -> Seq<Result<FieldView, ParserError>>
    decreases s.len(),
{
    let (rest, item) = spec_fields_next(s);
    match item {
        None => Seq::empty(),
        Some(Ok(f)) => {
            proof {
                lemma_fields_next_shrinks(s);
            }
            seq![Ok(f)] + spec_fields_items(rest)
        },
        Some(Err(e)) => seq![Err(e)],
    }
}

/// The view of an item returned by iteration.
pub open spec fn item_view<'a>(r: Option<Result<Field<'a>, ParserError>>) -> Option<
    Result<FieldView, ParserError>,
> {
    match r {
        None => None,
        Some(Ok(f)) => Some(Ok(f@)),
        Some(Err(e)) => Some(Err(e)),
    }
}

/// The sequence of one optional item.
pub open spec fn opt_seq<T>(o: Option<T>) -> Seq<T> {
    match o {
        None => Seq::empty(),
        Some(x) => seq![x],
    }
}

/// The data of an `LF_FIELDLIST` record: a sequence of items, iterated with `iter()`.
#[derive(Clone, Copy, Debug)]
pub struct FieldList<'a> {
    pub bytes: &'a [u8],
}

/// Iterates the items of an `LF_FIELDLIST` record; `bytes` are the bytes not iterated yet.
#[derive(Clone, Copy, Debug)]
pub struct IterFields<'a> {
    pub bytes: &'a [u8],
}

impl<'a> FieldList<'a> {
    /// Iterates the items within the field list.
    ///
    /// Iteration is fail-closed: an item that cannot be decoded (an unrecognized kind, for
    /// instance) yields an error, and iteration then ends.
    pub fn iter(&self) -> (it: IterFields<'a>)
        ensures
            it.bytes@ == self.bytes@,
    {
        IterFields { bytes: self.bytes }
    }
}

impl<'a> IterFields<'a> {
    /// The next item: `None` when the items are used up, `Some(Err(_))` for an item that cannot
    /// be decoded, after which iteration yields nothing more.
    pub fn next(&mut self) -> (r: Option<Result<Field<'a>, ParserError>>)
        ensures
            spec_fields_next(old(self).bytes@) == (final(self).bytes@, item_view(r)),
            spec_fields_items(old(self).bytes@) == opt_seq(item_view(r)) + spec_fields_items(
                final(self).bytes@,
            ),
            r is None ==> spec_fields_items(old(self).bytes@).len() == 0,
            r matches Some(Err(_)) ==> final(self).bytes@.len() == 0,
    {
        let ghost s = self.bytes@;
        if self.bytes.len() == 0 {
            return None;
        }
        let mut p = Parser::new(self.bytes);
        let rest = p.peek_rest();
        let mut pad: usize = 0;
        while pad < rest.len() && rest[pad] >= 0xf0
            invariant
                pad <= rest@.len(),
                rest@ == s,
                forall|j: int| 0 <= j < pad ==> s[j] >= 0xf0,
            decreases rest@.len() - pad,
        {
            pad = pad + 1;
        }
        proof {
            assert(is_padding_len(s, pad as int));
            lemma_padding_len(s, pad as int);
        }
        if pad > 0 {
            let _ = p.skip(pad);
        }
        assert(p@ == s.skip(pad as int));
        if p.is_empty() {
            return None;
        }
        match Field::parse(&mut p) {
            Ok(f) => {
                self.bytes = p.into_rest();
                proof {
                    lemma_fields_next_shrinks(s);
                    assert(spec_fields_items(s) == seq![Ok(f@)] + spec_fields_items(self.bytes@));
                }
                Some(Ok(f))
            },
            Err(e) => {
                self.bytes = &[];
                proof {
                    assert(e == ParserError);
                    assert(self.bytes@ =~= Seq::<u8>::empty());
                }
                Some(Err(e))
            },
        }
    }
}

} // verus!

verus! {

/// Field list iteration is fail-closed: an error is always the last item; every item before it
/// decoded.
pub proof fn lemma_fields_items_fail_closed(s: Seq<u8>)
    ensures
        forall|i: int|
            0 <= i < spec_fields_items(s).len() - 1 ==> #[trigger] spec_fields_items(s)[i] is Ok,
    decreases s.len(),
{
    let (rest, item) = spec_fields_next(s);
    if let Some(Ok(f)) = item {
        lemma_fields_next_shrinks(s);
        lemma_fields_items_fail_closed(rest);
        let tail = spec_fields_items(rest);
        assert forall|i: int| 0 <= i < spec_fields_items(s).len() - 1 implies #[trigger] spec_fields_items(
            s,
        )[i] is Ok by {
            if i > 0 {
                assert(spec_fields_items(s)[i] == tail[i - 1]);
            }
        }
    }
}


/// Alignment bytes (values `0xf0` and above) are skipped before an item is decoded, in runs of
/// any length, one byte included: from bytes `s` that start with a run of `k` alignment bytes,
/// one step decodes the item right after the run; a step from bytes that start with such a run
/// is the step from the bytes after it; and a run that reaches the end yields nothing.
pub proof fn lemma_padding_is_skipped(s: Seq<u8>, k: int)
    requires
        is_padding_len(s, k),
    ensures
        0 < s.len() && k < s.len() ==> spec_fields_next(s) == match spec_field(s.skip(k)) {
            Some((f, n)) => (s.skip(k).skip(n), Some(Ok::<FieldView, ParserError>(f))),
            None => (Seq::<u8>::empty(), Some(Err::<FieldView, ParserError>(ParserError))),
        },
        1 <= k < s.len() ==> spec_fields_next(s) == spec_fields_next(s.skip(k)),
        k == s.len() ==> spec_fields_next(s).1 is None,
{
    lemma_padding_len(s, k);
    if k < s.len() {
        let r = s.skip(k);
        assert(is_padding_len(r, 0));
        lemma_padding_len(r, 0);
        assert(r.skip(0) =~= r);
    }
}

/// Byte by byte: a first byte of `0xf0` or above is an alignment byte, and a step from bytes that
/// start with one yields what the step from the bytes after it yields, leaving the same bytes
/// when it yields an item; a first byte below `0xf0` starts an item, which the step decodes in
/// place.
pub proof fn lemma_alignment_byte(s: Seq<u8>)
    requires
        s.len() > 0,
    ensures
        s[0] >= 0xf0 ==> spec_fields_next(s).1 == spec_fields_next(s.skip(1)).1,
        s[0] >= 0xf0 && spec_fields_next(s).1 is Some ==> spec_fields_next(s).0 == spec_fields_next(
            s.skip(1),
        ).0,
        s[0] < 0xf0 ==> spec_fields_next(s) == match spec_field(s) {
            Some((f, n)) => (s.skip(n), Some(Ok::<FieldView, ParserError>(f))),
            None => (Seq::<u8>::empty(), Some(Err::<FieldView, ParserError>(ParserError))),
        },
{
    lemma_padding_exists(s);
    let k = padding_len(s);
    if s[0] >= 0xf0 {
        let t = s.skip(1);
        assert(k >= 1);
        assert(is_padding_len(t, k - 1));
        lemma_padding_len(t, k - 1);
        assert(t.skip(k - 1) =~= s.skip(k));
        if t.len() == 0 {
            assert(k == 1);
        }
    } else {
        assert(is_padding_len(s, 0));
        lemma_padding_len(s, 0);
        assert(s.skip(0) =~= s);
    }
}

/// A method carries its offset in the virtual table exactly when its method properties (bits 2
/// to 4 of its attributes) are 4, introducing virtual, or 6, pure introducing virtual; vanilla,
/// virtual, static, friend and pure virtual methods (0, 1, 2, 3 and 5) carry none.
pub proof fn lemma_introduces_virtual_bits(attr: u16)
    ensures
        spec_introduces_virtual(attr) <==> ((attr >> 2u16) & 7u16 == 4u16 || (attr >> 2u16) & 7u16
            == 6u16),
{
    assert((attr / 4) % 8 == (attr >> 2u16) & 7u16) by (bit_vector);
}

} // verus!
