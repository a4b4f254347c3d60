//! Iteration of the items of a class, structure, union or enumeration whose field list is split
//! over several `LF_FIELDLIST` records, each continued by an `LF_INDEX` item that names the next.

use vstd::prelude::*;
use vstd::set_lib::lemma_len_subset;
use std::collections::HashSet;
use crate::fields::{Field, FieldList, FieldView, IterFields, spec_fields_next, lemma_fields_next_shrinks, opt_seq};
use crate::tpi::{StreamBytes, TypeStream, TypeStreamError, spec_record, spec_type_records};
use crate::types::{TypeIndex, LF_FIELDLIST, spec_types_starts};

verus! {

/// An item of a chained field list: a decoded item or an error.
pub type ChainItem = Result<FieldView, TypeStreamError>;

/// The type indices from `begin` on that fall within the first `n` records.
pub open spec fn index_window(begin: u32, n: nat) -> Set<u32> {
    Set::new(|v: u32| begin <= v && v - begin < n)
}

/// The window of `n` record indices is finite and has at most `n` members.
pub proof fn lemma_index_window(begin: u32, n: nat)
    ensures
        index_window(begin, n).finite(),
        index_window(begin, n).len() <= n,
    decreases n,
{
    if n == 0 {
        assert(index_window(begin, n) =~= Set::<u32>::empty());
    } else {
        let m = (n - 1) as nat;
        lemma_index_window(begin, m);
        let prev = index_window(begin, m);
        if begin + m <= u32::MAX {
            let top = (begin + m) as u32;
            assert(index_window(begin, n) =~= prev.insert(top));
        } else {
            assert(index_window(begin, n) =~= prev);
        }
    }
}

/// The number of entries of the starts table of stream `data`: a bound on the records a
/// continuation can reach.
pub open spec fn chain_bound(data: Seq<u8>) -> nat {
    spec_types_starts(spec_type_records(data)).len()
}

/// Walks the field list bytes `s`, with `next` the continuation seen so far: the items it yields
/// (continuation items left out), the last continuation it names (or `next` if none), and whether
/// it ended with an item that failed to decode.
pub open spec fn spec_list_walk(s: Seq<u8>, next: Option<TypeIndex>) -> (
    Seq<ChainItem>,
    Option<TypeIndex>,
    bool,
)
    decreases s.len(),
{
    let (rest, item) = spec_fields_next(s);
    match item {
        None => (Seq::empty(), next, false),
        Some(Ok(FieldView::Index(t))) => {
            proof {
                lemma_fields_next_shrinks(s);
            }
            spec_list_walk(rest, Some(t))
        },
        Some(Ok(f)) => {
            proof {
                lemma_fields_next_shrinks(s);
            }
            let (items, cont, failed) = spec_list_walk(rest, next);
            (seq![Ok(f)] + items, cont, failed)
        },
        Some(Err(_)) => (seq![Err(TypeStreamError::FieldDecodeFailed)], None, true),
    }
}

/// The items of the chain of field lists that starts at `next`, in stream `data` whose first type
/// index is `begin`, when the field lists in `visited` were already walked. No continuation
/// yields nothing.
pub open spec fn spec_chain(
    data: Seq<u8>,
    begin: TypeIndex,
    next: Option<TypeIndex>,
    visited: Set<u32>,
) -> Seq<ChainItem> {
    match next {
        None => Seq::empty(),
        Some(x) => spec_chain_from(data, begin, x, visited),
    }
}

/// The items of the chain of field lists that starts at the list `x`. A continuation to a
/// visited list yields a cycle error; one to a missing record, the lookup error; one to a record
/// that is not a field list, an error; all of these end the chain. Otherwise the list's items
/// follow, and then, unless an item failed to decode, the chain from the list's continuation.
pub open spec fn spec_chain_from(
    data: Seq<u8>,
    begin: TypeIndex,
    x: TypeIndex,
    visited: Set<u32>,
) -> Seq<ChainItem>
    decreases chain_bound(data) - visited.len(),
    when visited.finite() && visited.subset_of(index_window(begin.0, chain_bound(data)))
{
    if visited.contains(x.0) {
        seq![Err(TypeStreamError::FieldListCycle(x))]
    } else {
        match spec_record(data, begin, x) {
            Err(e) => seq![Err(e)],
            Ok((kind, d)) => if kind != LF_FIELDLIST {
                seq![Err(TypeStreamError::NotFieldList(x))]
            } else {
                let (items, cont, failed) = spec_list_walk(d, None);
                if failed {
                    items
                } else {
                    proof {
                        lemma_chain_step(data, begin, x, visited);
                    }
                    match cont {
                        None => items,
                        Some(c) => items + spec_chain_from(data, begin, c, visited.insert(x.0)),
                    }
                }
            },
        }
    }
}

/// Following a continuation to a record that exists adds one new member to the visited set and
/// keeps it within the window of record indices.
pub proof fn lemma_chain_step(data: Seq<u8>, begin: TypeIndex, x: TypeIndex, visited: Set<u32>)
    requires
        visited.finite(),
        visited.subset_of(index_window(begin.0, chain_bound(data))),
        !visited.contains(x.0),
        spec_record(data, begin, x) is Ok,
    ensures
        visited.insert(x.0).finite(),
        visited.insert(x.0).subset_of(index_window(begin.0, chain_bound(data))),
        visited.insert(x.0).len() == visited.len() + 1,
        visited.insert(x.0).len() <= chain_bound(data),
{
    let w = index_window(begin.0, chain_bound(data));
    lemma_index_window(begin.0, chain_bound(data));
    assert(w.contains(x.0));
    lemma_len_subset(visited.insert(x.0), w);
}

/// A step that yields nothing leaves the remaining items to the chain from the continuation.
proof fn lemma_remaining_at_list_end(
    data: Seq<u8>,
    begin: TypeIndex,
    fields: Seq<u8>,
    next: Option<TypeIndex>,
    visited: Set<u32>,
)
    requires
        spec_fields_next(fields).1 is None,
    ensures
        spec_chain_remaining(data, begin, fields, next, visited) == spec_chain(
            data,
            begin,
            next,
            visited,
        ),
        spec_chain_remaining(data, begin, fields, None, visited) == spec_chain(
            data,
            begin,
            None,
            visited,
        ),
{
    reveal(spec_chain_remaining);
    assert(Seq::<ChainItem>::empty() + spec_chain(data, begin, next, visited) =~= spec_chain(
        data,
        begin,
        next,
        visited,
    ));
    assert(Seq::<ChainItem>::empty() + spec_chain(data, begin, None, visited) =~= spec_chain(
        data,
        begin,
        None,
        visited,
    ));
}

/// A continuation item changes the continuation and nothing that remains.
proof fn lemma_remaining_after_index(
    data: Seq<u8>,
    begin: TypeIndex,
    fields: Seq<u8>,
    next: Option<TypeIndex>,
    visited: Set<u32>,
    t: TypeIndex,
)
    requires
        spec_fields_next(fields).1 == Some(Ok::<FieldView, crate::parser::ParserError>(FieldView::Index(t))),
    ensures
        spec_chain_remaining(data, begin, fields, next, visited) == spec_chain_remaining(
            data,
            begin,
            spec_fields_next(fields).0,
            Some(t),
            visited,
        ),
{
    reveal(spec_chain_remaining);
}

/// Any other item comes first among the remaining items.
proof fn lemma_remaining_after_item(
    data: Seq<u8>,
    begin: TypeIndex,
    fields: Seq<u8>,
    next: Option<TypeIndex>,
    visited: Set<u32>,
    f: FieldView,
)
    requires
        spec_fields_next(fields).1 == Some(Ok::<FieldView, crate::parser::ParserError>(f)),
        !(f is Index),
    ensures
        spec_chain_remaining(data, begin, fields, next, visited) == seq![Ok::<FieldView, TypeStreamError>(f)]
            + spec_chain_remaining(data, begin, spec_fields_next(fields).0, next, visited),
{
    reveal(spec_chain_remaining);
    let (items, cont, failed) = spec_list_walk(spec_fields_next(fields).0, next);
    assert(seq![Ok::<FieldView, TypeStreamError>(f)] + items + spec_chain(data, begin, cont, visited)
        =~= seq![Ok::<FieldView, TypeStreamError>(f)] + (items + spec_chain(data, begin, cont, visited)));
}

/// An item that fails to decode is the last of the remaining items.
proof fn lemma_remaining_after_error(
    data: Seq<u8>,
    begin: TypeIndex,
    fields: Seq<u8>,
    next: Option<TypeIndex>,
    visited: Set<u32>,
)
    requires
        spec_fields_next(fields).1 matches Some(Err(_)),
    ensures
        spec_chain_remaining(data, begin, fields, next, visited) == seq![Err::<FieldView, TypeStreamError>(TypeStreamError::FieldDecodeFailed)],
        spec_chain_remaining(data, begin, Seq::empty(), None, visited) == Seq::<ChainItem>::empty(),
{
    reveal(spec_chain_remaining);
    assert(spec_fields_next(Seq::<u8>::empty()).1 is None);
    assert(Seq::<ChainItem>::empty() + Seq::<ChainItem>::empty() =~= Seq::<ChainItem>::empty());
}

/// Entering a new field list: the remaining items are those of the chain from its continuation.
proof fn lemma_remaining_enter_list(
    data: Seq<u8>,
    begin: TypeIndex,
    x: TypeIndex,
    d: Seq<u8>,
    visited: Set<u32>,
)
    requires
        visited.finite(),
        visited.subset_of(index_window(begin.0, chain_bound(data))),
        !visited.contains(x.0),
        spec_record(data, begin, x) == Ok::<(u16, Seq<u8>), TypeStreamError>((LF_FIELDLIST, d)),
    ensures
        spec_chain(data, begin, Some(x), visited) == spec_chain_remaining(
            data,
            begin,
            d,
            None,
            visited.insert(x.0),
        ),
{
    reveal(spec_chain_remaining);
    lemma_chain_step(data, begin, x, visited);
    let (items, cont, failed) = spec_list_walk(d, None);
    if !failed && cont is None {
        assert(items + Seq::<ChainItem>::empty() =~= items);
    }
}

/// The items still to come from an iteration whose current field list has bytes `fields` left,
/// with continuation `next` seen so far and the lists in `visited` walked.
#[verifier::opaque]
pub open spec fn spec_chain_remaining(
    data: Seq<u8>,
    begin: TypeIndex,
    fields: Seq<u8>,
    next: Option<TypeIndex>,
    visited: Set<u32>,
) -> Seq<ChainItem> {
    let (items, cont, failed) = spec_list_walk(fields, next);
    if failed {
        items
    } else {
        items + spec_chain(data, begin, cont, visited)
    }
}

/// The items of the field list chain that starts at `field_list` in stream `data` whose first
/// type index is `begin`; type index 0 names no field list.
pub open spec fn spec_iter_fields(data: Seq<u8>, begin: TypeIndex, field_list: TypeIndex) -> Seq<
    ChainItem,
> {
    if field_list.0 != 0 {
        spec_chain(data, begin, Some(field_list), Set::empty())
    } else {
        Seq::empty()
    }
}

} // verus!

verus! {

/// The view of an item returned by chained iteration.
pub open spec fn chain_item_view<'a>(r: Option<Result<Field<'a>, TypeStreamError>>) -> Option<
    ChainItem,
> {
    match r {
        None => None,
        Some(Ok(f)) => Some(Ok(f@)),
        Some(Err(e)) => Some(Err(e)),
    }
}

/// Iterates the items of a field list that may continue over several `LF_FIELDLIST` records.
pub struct IterFieldChain<'a, D: StreamBytes> {
    /// The items of the current `LF_FIELDLIST` record.
    fields: IterFields<'a>,
    /// The stream that holds the `LF_FIELDLIST` records.
    type_stream: &'a TypeStream<D>,
    /// The next `LF_FIELDLIST` to walk.
    next_field_list: Option<TypeIndex>,
    /// The `LF_FIELDLIST` records already walked on this chain. A malformed PDB can hold a cyclic
    /// chain of continuations; without this set, iteration would never end.
    visited: HashSet<u32>,
}

impl<'a, D: StreamBytes> IterFieldChain<'a, D> {
    /// The stream checks out and the visited lists are records of it.
    pub closed spec fn wf(&self) -> bool {
        &&& self.type_stream.wf()
        &&& self.visited@.finite()
        &&& self.visited@.subset_of(
            index_window(self.type_stream.begin_index().0, chain_bound(self.type_stream.data())),
        )
    }

    /// The items that the iteration has yet to yield.
    pub closed spec fn remaining(&self) -> Seq<ChainItem> {
        spec_chain_remaining(
            self.type_stream.data(),
            self.type_stream.begin_index(),
            self.fields.bytes@,
            self.next_field_list,
            self.visited@,
        )
    }

    /// Once the current field list is used up, moves to the list that the last continuation
    /// names. Gives `Some(item)` when iteration ends here with `item` (nothing, or an error), and
    /// `None` when the next list was entered.
    #[verifier::rlimit(30)]
    fn follow_continuation(&mut self) -> (r: Option<Option<Result<Field<'a>, TypeStreamError>>>)
        requires
            old(self).wf(),
            spec_fields_next(old(self).fields.bytes@).1 is None,
        ensures
            final(self).wf(),
            final(self).type_stream == old(self).type_stream,
            match r {
                Some(item) => {
                    &&& old(self).remaining() == opt_seq(chain_item_view(item)) + final(self).remaining()
                    &&& item is None ==> old(self).remaining().len() == 0
                },
                None => {
                    &&& old(self).remaining() == final(self).remaining()
                    &&& final(self).visited@.len() == old(self).visited@.len() + 1
                },
            },
    {
        broadcast use {
            vstd::std_specs::hash::axiom_u32_obeys_hash_table_key_model,
            vstd::std_specs::hash::axiom_random_state_builds_valid_hashers,
            vstd::std_specs::hash::axiom_set_contains_deref_key,
        };

        let ghost data = self.type_stream.data();
        let ghost begin = self.type_stream.begin_index();
        let ghost next = self.next_field_list;
        let ghost visited = self.visited@;
        proof {
            lemma_remaining_at_list_end(data, begin, self.fields.bytes@, next, visited);
        }
        let next_field_list = match self.next_field_list {
            None => {
                assert(opt_seq(chain_item_view(None)) + self.remaining() =~= self.remaining());
                return Some(None);
            },
            Some(x) => x,
        };
        self.next_field_list = None;
        if self.visited.contains(&next_field_list.0) {
            return Some(Some(Err(TypeStreamError::FieldListCycle(next_field_list))));
        }
        let next_record = match self.type_stream.record(next_field_list) {
            Ok(r) => r,
            Err(e) => {
                return Some(Some(Err(e)));
            },
        };
        if next_record.kind != LF_FIELDLIST {
            return Some(Some(Err(TypeStreamError::NotFieldList(next_field_list))));
        }
        proof {
            lemma_chain_step(data, begin, next_field_list, visited);
            lemma_remaining_enter_list(data, begin, next_field_list, next_record.data@, visited);
        }
        self.visited.insert(next_field_list.0);
        self.fields = FieldList { bytes: next_record.data }.iter();
        None
    }

    /// The next item of the chain. Continuation items are followed rather than returned.
    ///
    /// Iteration is fail-closed: an item that cannot be decoded, a continuation that names a
    /// record that cannot be read or that is not an `LF_FIELDLIST`, and a continuation back to a
    /// list already walked each yield an error, after which iteration yields nothing more.
    pub fn next(&mut self) -> (r: Option<Result<Field<'a>, TypeStreamError>>)
        requires
            old(self).wf(),
        ensures
            final(self).wf(),
            old(self).remaining() == opt_seq(chain_item_view(r)) + final(self).remaining(),
            r is None ==> old(self).remaining().len() == 0,
            r matches Some(Err(_)) ==> final(self).remaining().len() == 0,
            old(self).remaining().len() == 0 ==> r is None && final(self).remaining().len() == 0,
            chain_items_well_formed(final(self).remaining()),
    {
        proof {
            lemma_chain_remaining_well_formed(
                self.type_stream.data(),
                self.type_stream.begin_index(),
                self.fields.bytes@,
                self.next_field_list,
                self.visited@,
            );
        }
        let ghost data = self.type_stream.data();
        let ghost begin = self.type_stream.begin_index();
        let ghost bound = chain_bound(data);
        let ghost target = old(self).remaining();
        loop
            invariant
                self.wf(),
                self.type_stream.data() == data,
                self.type_stream.begin_index() == begin,
                self.remaining() == target,
                target == old(self).remaining(),
                chain_items_well_formed(target),
                bound == chain_bound(data),
            decreases bound - self.visited@.len(), self.fields.bytes@.len(),
        {
            proof {
                lemma_index_window(begin.0, bound);
                lemma_len_subset(self.visited@, index_window(begin.0, bound));
            }
            let ghost before = self.fields.bytes@;
            let item = self.fields.next();
            proof {
                lemma_fields_next_shrinks(before);
            }
            let ghost next = self.next_field_list;
            let ghost visited = self.visited@;
            match item {
                Some(Ok(Field::Index(index))) => {
                    proof {
                        lemma_remaining_after_index(data, begin, before, next, visited, index);
                    }
                    self.next_field_list = Some(index);
                    continue;
                },
                Some(Ok(field)) => {
                    proof {
                        lemma_remaining_after_item(data, begin, before, next, visited, field@);
                        lemma_well_formed_tail(target, seq![Ok(field@)], self.remaining());
                    }
                    return Some(Ok(field));
                },
                Some(Err(_)) => {
                    proof {
                        lemma_remaining_after_error(data, begin, before, next, visited);
                    }
                    self.next_field_list = None;
                    proof {
                        lemma_well_formed_tail(
                            target,
                            seq![Err(TypeStreamError::FieldDecodeFailed)],
                            self.remaining(),
                        );
                    }
                    return Some(Err(TypeStreamError::FieldDecodeFailed));
                },
                None => {},
            }
            match self.follow_continuation() {
                Some(r) => {
                    proof {
                        lemma_well_formed_tail(target, opt_seq(chain_item_view(r)), self.remaining());
                    }
                    return r;
                },
                None => {},
            }
            proof {
                lemma_index_window(begin.0, bound);
                lemma_len_subset(self.visited@, index_window(begin.0, bound));
            }
        }
    }
}

impl<D: StreamBytes> TypeStream<D> {
    /// Iterates the items of the `LF_FIELDLIST` chain that starts at `field_list`, following each
    /// `LF_INDEX` continuation to the next `LF_FIELDLIST` record. Type index 0 names no field
    /// list; its iteration is empty.
    pub fn iter_fields(&self, field_list: TypeIndex) -> (it: IterFieldChain<'_, D>)
        requires
            self.wf(),
        ensures
            it.wf(),
            it.remaining() == spec_iter_fields(self.data(), self.begin_index(), field_list),
    {
        let it = IterFieldChain {
            type_stream: self,
            next_field_list: if field_list.0 != 0 {
                Some(field_list)
            } else {
                None
            },
            fields: IterFields { bytes: &[] },
            visited: HashSet::new(),
        };
        proof {
            assert(it.fields.bytes@ =~= Seq::<u8>::empty());
            lemma_remaining_at_list_end(self.data(), self.begin_index(), it.fields.bytes@, it.next_field_list, Set::empty());
            assert(Set::<u32>::empty().subset_of(index_window(self.begin_index().0, chain_bound(self.data()))));
        }
        it
    }
}

} // verus!

verus! {

/// Whether `item` is a continuation (`LF_INDEX`) item.
pub open spec fn is_continuation(item: ChainItem) -> bool {
    match item {
        Ok(FieldView::Index(_)) => true,
        _ => false,
    }
}

/// No item is a continuation, and an error can only be the last item.
pub open spec fn chain_items_well_formed(items: Seq<ChainItem>) -> bool {
    &&& forall|i: int| 0 <= i < items.len() ==> !is_continuation(#[trigger] items[i])
    &&& forall|i: int| 0 <= i < items.len() - 1 ==> #[trigger] items[i] is Ok
}

/// Items that are all decoded non-continuation items, followed by well-formed items, are
/// well-formed.
proof fn lemma_well_formed_concat(a: Seq<ChainItem>, b: Seq<ChainItem>)
    requires
        chain_items_well_formed(a),
        forall|i: int| 0 <= i < a.len() ==> #[trigger] a[i] is Ok,
        chain_items_well_formed(b),
    ensures
        chain_items_well_formed(a + b),
{
    assert forall|i: int| 0 <= i < (a + b).len() implies !is_continuation(#[trigger] (a + b)[i]) by {
        if i >= a.len() {
            assert((a + b)[i] == b[i - a.len()]);
        }
    }
    assert forall|i: int| 0 <= i < (a + b).len() - 1 implies #[trigger] (a + b)[i] is Ok by {
        if i >= a.len() {
            assert((a + b)[i] == b[i - a.len()]);
        }
    }
}

/// The items of one field list walk are well-formed, and all decoded unless the walk failed.
proof fn lemma_list_walk_well_formed(s: Seq<u8>, next: Option<TypeIndex>)
    ensures
        chain_items_well_formed(spec_list_walk(s, next).0),
        !spec_list_walk(s, next).2 ==> forall|i: int|
            0 <= i < spec_list_walk(s, next).0.len() ==> #[trigger] spec_list_walk(s, next).0[i] is Ok,
    decreases s.len(),
{
    let (rest, item) = spec_fields_next(s);
    match item {
        None => {},
        Some(Ok(FieldView::Index(t))) => {
            lemma_fields_next_shrinks(s);
            lemma_list_walk_well_formed(rest, Some(t));
        },
        Some(Ok(f)) => {
            lemma_fields_next_shrinks(s);
            lemma_list_walk_well_formed(rest, next);
            let head = seq![Ok::<FieldView, TypeStreamError>(f)];
            lemma_well_formed_concat(head, spec_list_walk(rest, next).0);
            let items = spec_list_walk(s, next).0;
            assert(items == head + spec_list_walk(rest, next).0);
            if !spec_list_walk(s, next).2 {
                assert forall|i: int| 0 <= i < items.len() implies #[trigger] items[i] is Ok by {
                    if i > 0 {
                        assert(items[i] == spec_list_walk(rest, next).0[i - 1]);
                    }
                }
            }
        },
        Some(Err(_)) => {},
    }
}

/// The items of a chain of field lists are well-formed.
proof fn lemma_chain_from_well_formed(data: Seq<u8>, begin: TypeIndex, x: TypeIndex, visited: Set<u32>)
    requires
        visited.finite(),
        visited.subset_of(index_window(begin.0, chain_bound(data))),
    ensures
        chain_items_well_formed(spec_chain_from(data, begin, x, visited)),
    decreases chain_bound(data) - visited.len(),
{
    if !visited.contains(x.0) {
        if let Ok((kind, d)) = spec_record(data, begin, x) {
            if kind == LF_FIELDLIST {
                let (items, cont, failed) = spec_list_walk(d, None);
                lemma_list_walk_well_formed(d, None);
                if !failed {
                    if let Some(c) = cont {
                        lemma_chain_step(data, begin, x, visited);
                        lemma_chain_from_well_formed(data, begin, c, visited.insert(x.0));
                        lemma_well_formed_concat(
                            items,
                            spec_chain_from(data, begin, c, visited.insert(x.0)),
                        );
                    }
                }
            }
        }
    }
}

/// Iterating a chain of field lists yields no continuation items, and is fail-closed: an error
/// can only be the last item, so iteration ends at the first error.
pub proof fn lemma_iter_fields_well_formed(data: Seq<u8>, begin: TypeIndex, field_list: TypeIndex)
    ensures
        chain_items_well_formed(spec_iter_fields(data, begin, field_list)),
{
    if field_list.0 != 0 {
        assert(Set::<u32>::empty().subset_of(index_window(begin.0, chain_bound(data))));
        lemma_chain_from_well_formed(data, begin, field_list, Set::empty());
    }
}

/// A continuation back to a field list already walked ends the chain with a cycle error.
pub proof fn lemma_chain_cycle(data: Seq<u8>, begin: TypeIndex, x: TypeIndex, visited: Set<u32>)
    requires
        visited.finite(),
        visited.subset_of(index_window(begin.0, chain_bound(data))),
        visited.contains(x.0),
    ensures
        spec_chain_from(data, begin, x, visited) == seq![
            Err::<FieldView, TypeStreamError>(TypeStreamError::FieldListCycle(x)),
        ],
{
}

} // verus!

verus! {

/// A continuation to a list not yet walked whose record cannot be looked up ends the chain with
/// the lookup error.
pub proof fn lemma_chain_lookup_error(
    data: Seq<u8>,
    begin: TypeIndex,
    x: TypeIndex,
    visited: Set<u32>,
    e: TypeStreamError,
)
    requires
        visited.finite(),
        visited.subset_of(index_window(begin.0, chain_bound(data))),
        !visited.contains(x.0),
        spec_record(data, begin, x) == Err::<(u16, Seq<u8>), TypeStreamError>(e),
    ensures
        spec_chain_from(data, begin, x, visited) == seq![Err::<FieldView, TypeStreamError>(e)],
{
}

/// A continuation to a list not yet walked whose record exists but is not an `LF_FIELDLIST`
/// ends the chain with one error that says so.
pub proof fn lemma_chain_not_field_list(
    data: Seq<u8>,
    begin: TypeIndex,
    x: TypeIndex,
    visited: Set<u32>,
    kind: u16,
    d: Seq<u8>,
)
    requires
        visited.finite(),
        visited.subset_of(index_window(begin.0, chain_bound(data))),
        !visited.contains(x.0),
        spec_record(data, begin, x) == Ok::<(u16, Seq<u8>), TypeStreamError>((kind, d)),
        kind != LF_FIELDLIST,
    ensures
        spec_chain_from(data, begin, x, visited) == seq![
            Err::<FieldView, TypeStreamError>(TypeStreamError::NotFieldList(x)),
        ],
{
}

/// A list not yet walked whose items all decode and whose last continuation names `c` yields its
/// items and then the chain from `c`, with the list counted as walked; the walked set stays
/// within the records of the stream, so the step can be taken again.
pub proof fn lemma_chain_continues(
    data: Seq<u8>,
    begin: TypeIndex,
    x: TypeIndex,
    visited: Set<u32>,
    d: Seq<u8>,
    c: TypeIndex,
)
    requires
        visited.finite(),
        visited.subset_of(index_window(begin.0, chain_bound(data))),
        !visited.contains(x.0),
        spec_record(data, begin, x) == Ok::<(u16, Seq<u8>), TypeStreamError>((LF_FIELDLIST, d)),
        !spec_list_walk(d, None).2,
        spec_list_walk(d, None).1 == Some(c),
    ensures
        visited.insert(x.0).finite(),
        visited.insert(x.0).subset_of(index_window(begin.0, chain_bound(data))),
        spec_chain_from(data, begin, x, visited) == spec_list_walk(d, None).0 + spec_chain_from(
            data,
            begin,
            c,
            visited.insert(x.0),
        ),
{
    lemma_chain_step(data, begin, x, visited);
}

/// A field list whose items all decode and whose continuation names a record that exists but is
/// not an `LF_FIELDLIST` yields its items and then one error that says so, and nothing after.
pub proof fn lemma_continuation_to_other_kind(
    data: Seq<u8>,
    begin: TypeIndex,
    x: TypeIndex,
    d: Seq<u8>,
    t: TypeIndex,
    kind: u16,
    e: Seq<u8>,
)
    requires
        x.0 != 0,
        spec_record(data, begin, x) == Ok::<(u16, Seq<u8>), TypeStreamError>((LF_FIELDLIST, d)),
        !spec_list_walk(d, None).2,
        spec_list_walk(d, None).1 == Some(t),
        spec_record(data, begin, t) == Ok::<(u16, Seq<u8>), TypeStreamError>((kind, e)),
        kind != LF_FIELDLIST,
    ensures
        spec_iter_fields(data, begin, x) == spec_list_walk(d, None).0 + seq![
            Err::<FieldView, TypeStreamError>(TypeStreamError::NotFieldList(t)),
        ],
{
    let empty = Set::<u32>::empty();
    assert(empty.subset_of(index_window(begin.0, chain_bound(data))));
    lemma_chain_continues(data, begin, x, empty, d, t);
    assert(t.0 != x.0);
    assert(!empty.insert(x.0).contains(t.0));
    lemma_chain_not_field_list(data, begin, t, empty.insert(x.0), kind, e);
}

/// A field list whose continuation names the list itself yields its items and then a cycle error.
pub proof fn lemma_self_continuation_is_cycle(
    data: Seq<u8>,
    begin: TypeIndex,
    x: TypeIndex,
    d: Seq<u8>,
)
    requires
        x.0 != 0,
        spec_record(data, begin, x) == Ok::<(u16, Seq<u8>), TypeStreamError>((LF_FIELDLIST, d)),
        spec_list_walk(d, None).1 == Some(x),
        !spec_list_walk(d, None).2,
    ensures
        spec_iter_fields(data, begin, x) == spec_list_walk(d, None).0 + seq![
            Err::<FieldView, TypeStreamError>(TypeStreamError::FieldListCycle(x)),
        ],
{
    let empty = Set::<u32>::empty();
    assert(empty.subset_of(index_window(begin.0, chain_bound(data))));
    lemma_chain_step(data, begin, x, empty);
    assert(empty.insert(x.0).contains(x.0));
    assert(spec_chain_from(data, begin, x, empty.insert(x.0)) == seq![
        Err::<FieldView, TypeStreamError>(TypeStreamError::FieldListCycle(x)),
    ]);
    assert(spec_chain_from(data, begin, x, empty) == spec_list_walk(d, None).0 + spec_chain_from(
        data,
        begin,
        x,
        empty.insert(x.0),
    ));
}

} // verus!

verus! {

/// What follows the first of well-formed items is well-formed, and nothing follows an error.
proof fn lemma_well_formed_tail(items: Seq<ChainItem>, first: Seq<ChainItem>, rest: Seq<ChainItem>)
    requires
        chain_items_well_formed(items),
        items == first + rest,
        first.len() <= 1,
    ensures
        chain_items_well_formed(rest),
        first.len() == 1 && first[0] is Err ==> rest.len() == 0,
{
    assert forall|i: int| 0 <= i < rest.len() implies !is_continuation(#[trigger] rest[i]) by {
        assert(rest[i] == items[i + first.len()]);
    }
    assert forall|i: int| 0 <= i < rest.len() - 1 implies #[trigger] rest[i] is Ok by {
        assert(rest[i] == items[i + first.len()]);
    }
    if first.len() == 1 && first[0] is Err && rest.len() > 0 {
        assert(items[0] == first[0]);
    }
}

/// The items still to come from any iteration state whose visited lists are records of the
/// stream are well-formed: no continuation items, and an error only last.
pub proof fn lemma_chain_remaining_well_formed(
    data: Seq<u8>,
    begin: TypeIndex,
    fields: Seq<u8>,
    next: Option<TypeIndex>,
    visited: Set<u32>,
)
    requires
        visited.finite(),
        visited.subset_of(index_window(begin.0, chain_bound(data))),
    ensures
        chain_items_well_formed(spec_chain_remaining(data, begin, fields, next, visited)),
{
    reveal(spec_chain_remaining);
    let (items, cont, failed) = spec_list_walk(fields, next);
    lemma_list_walk_well_formed(fields, next);
    if !failed {
        if let Some(c) = cont {
            lemma_chain_from_well_formed(data, begin, c, visited);
            lemma_well_formed_concat(items, spec_chain_from(data, begin, c, visited));
        } else {
            assert(items + Seq::<ChainItem>::empty() =~= items);
        }
    }
}

} // verus!
