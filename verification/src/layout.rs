//! Declared layouts of container types, the accessor chains that navigate
//! them, and the validity invariant that ties a [`KeyPath`] to the layout it
//! was constructed from.

use crate::key_path::KeyPath;
use vstd::prelude::*;

verus! {

/// The declared layout of a type: a runtime identifier for the type, its size
/// in bytes, and the fields laid out within it, each with the layout of its
/// own type. A scalar type declares no fields.
pub struct TypeLayout {
    /// Identifier of the type this layout describes.
    pub type_id: u64,
    /// Size of the type in bytes.
    pub size: usize,
    /// The type's fields, in declaration order.
    pub fields: Vec<Field>,
}

/// One field of a layout: the byte offset at which it starts within its
/// parent, and the layout of its own type.
pub struct Field {
    /// Byte distance from the parent's first byte to this field's first byte.
    pub offset: usize,
    /// Layout of the field's type.
    pub layout: TypeLayout,
}

/// Well-formedness of a layout: every field lies entirely within its parent,
/// at every nesting level.
pub open spec fn wf(l: TypeLayout) -> bool
    decreases l,
{
    forall|i: int|
        0 <= i < l.fields.len() ==> (#[trigger] l.fields[i]).offset + l.fields[i].layout.size
            <= l.size && wf(l.fields[i].layout)
}

/// Checks that a declared layout is well-formed, so that paths may be
/// constructed from it: returns `true` exactly when every field, at every
/// nesting level, lies entirely within its parent.
pub fn well_formed(l: &TypeLayout) -> (r: bool)
    ensures
        r == wf(*l),
    decreases *l,
{
    let mut i: usize = 0;
    while i < l.fields.len()
        invariant
            i <= l.fields@.len(),
            forall|k: int|
                0 <= k < i ==> (#[trigger] l.fields@[k]).offset + l.fields@[k].layout.size
                    <= l.size && wf(l.fields@[k].layout),
        decreases l.fields@.len() - i,
    {
        let f = &l.fields[i];
        if !(f.layout.size <= l.size && f.offset <= l.size - f.layout.size) {
            return false;
        }
        if !well_formed(&f.layout) {
            return false;
        }
        i = i + 1;
    }
    true
}

/// Whether an accessor chain of field positions navigates the layout: each
/// step picks one of the fields declared at the current level.
pub open spec fn chain_valid(l: TypeLayout, c: Seq<usize>) -> bool
    decreases c.len(),
{
    c.len() == 0 || (c[0] < l.fields.len() && chain_valid(l.fields[c[0] as int].layout, c.drop_first()))
}

/// The cumulative byte offset an accessor chain reaches: the sum of the
/// offsets of the fields it steps through.
pub open spec fn chain_offset(l: TypeLayout, c: Seq<usize>) -> nat
    decreases c.len(),
{
    if c.len() == 0 {
        0
    } else {
        (l.fields[c[0] as int].offset + chain_offset(l.fields[c[0] as int].layout, c.drop_first())) as nat
    }
}

/// The layout of the type an accessor chain terminates at; the layout itself
/// for the empty chain.
pub open spec fn chain_target(l: TypeLayout, c: Seq<usize>) -> TypeLayout
    decreases c.len(),
{
    if c.len() == 0 {
        l
    } else {
        chain_target(l.fields[c[0] as int].layout, c.drop_first())
    }
}

/// Validity of a path with respect to a declared layout: the invariant every
/// properly constructed path enjoys. `locates(p, l, t)` says that some
/// non-empty accessor chain through `l` reaches exactly the byte offset `p`
/// records, terminates at the layout `t`, and that `p`'s identifiers and width
/// agree with `l` and `t`.
pub open spec fn locates(p: KeyPath, l: TypeLayout, t: TypeLayout) -> bool {
    &&& p.source == l.type_id
    &&& p.target == t.type_id
    &&& p.size == t.size
    &&& exists|c: Seq<usize>|
        c.len() > 0 && chain_valid(l, c) && chain_offset(l, c) == p.offset && chain_target(l, c)
            == t
}

/// A well-formed layout keeps every valid accessor chain in bounds: the byte
/// range the chain reaches lies entirely within the layout, and the layout it
/// terminates at is well-formed in turn.
pub proof fn lemma_chain_in_bounds(l: TypeLayout, c: Seq<usize>)
    requires
        wf(l),
        chain_valid(l, c),
    ensures
        chain_offset(l, c) + chain_target(l, c).size <= l.size,
        wf(chain_target(l, c)),
    decreases c.len(),
{
    if c.len() > 0 {
        let f = l.fields[c[0] as int];
        lemma_chain_in_bounds(f.layout, c.drop_first());
    }
}

/// Two accessor chains joined end-to-end navigate a layout exactly when each
/// navigates its own level, the offsets they reach add, and the joined chain
/// terminates where the second one does.
pub proof fn lemma_chain_concat(l: TypeLayout, c1: Seq<usize>, c2: Seq<usize>)
    requires
        chain_valid(l, c1),
        chain_valid(chain_target(l, c1), c2),
    ensures
        chain_valid(l, c1 + c2),
        chain_offset(l, c1 + c2) == chain_offset(l, c1) + chain_offset(chain_target(l, c1), c2),
        chain_target(l, c1 + c2) == chain_target(chain_target(l, c1), c2),
    decreases c1.len(),
{
    if c1.len() == 0 {
        assert(c1 + c2 =~= c2);
    } else {
        let f = l.fields[c1[0] as int];
        assert((c1 + c2).drop_first() =~= c1.drop_first() + c2);
        lemma_chain_concat(f.layout, c1.drop_first(), c2);
    }
}

/// The bytes that direct navigation through an accessor chain reaches: at
/// each step, the sub-bytes of the field picked at the level reached so far.
pub open spec fn chain_bytes(bytes: Seq<u8>, l: TypeLayout, c: Seq<usize>) -> Seq<u8>
    decreases c.len(),
{
    if c.len() == 0 {
        bytes
    } else {
        let f = l.fields[c[0] as int];
        chain_bytes(
            bytes.subrange(f.offset as int, f.offset + f.layout.size),
            f.layout,
            c.drop_first(),
        )
    }
}

/// A path built from an accessor chain resolves to what direct access through
/// that chain yields: within the bytes of an instance of a well-formed
/// layout, the byte range the chain's cumulative offset and terminal width
/// pick out is exactly the terminal field's own bytes.
pub proof fn lemma_constructed_path_resolves(bytes: Seq<u8>, l: TypeLayout, c: Seq<usize>)
    requires
        wf(l),
        chain_valid(l, c),
        bytes.len() == l.size,
    ensures
        chain_offset(l, c) + chain_target(l, c).size <= bytes.len(),
        bytes.subrange(
            chain_offset(l, c) as int,
            chain_offset(l, c) + chain_target(l, c).size,
        ) == chain_bytes(bytes, l, c),
    decreases c.len(),
{
    lemma_chain_in_bounds(l, c);
    if c.len() > 0 {
        let f = l.fields[c[0] as int];
        let sub = bytes.subrange(f.offset as int, f.offset + f.layout.size);
        lemma_constructed_path_resolves(sub, f.layout, c.drop_first());
        let co: nat = chain_offset(f.layout, c.drop_first());
        let ts: usize = chain_target(f.layout, c.drop_first()).size;
        lemma_chain_in_bounds(f.layout, c.drop_first());
        assert(bytes.subrange(f.offset + co, f.offset + co + ts) =~= sub.subrange(
            co as int,
            co + ts,
        ));
    }
}

/// A path that locates a field within a layout lies in bounds: applied to an
/// instance of that layout, its byte range falls entirely within the
/// instance, so resolution is owed success on it.
pub proof fn lemma_locates_in_bounds(p: KeyPath, l: TypeLayout, t: TypeLayout)
    requires
        wf(l),
        locates(p, l, t),
    ensures
        p.offset + p.size <= l.size,
{
    let c = choose|c: Seq<usize>|
        c.len() > 0 && chain_valid(l, c) && chain_offset(l, c) == p.offset && chain_target(l, c)
            == t;
    lemma_chain_in_bounds(l, c);
}

/// Appending preserves the construction-time invariant: a path that locates a
/// field of type `B` within well-formed `A`, appended with a path that
/// locates a field of type `C` within `B`, may be appended without the sum of
/// offsets leaving `A`, and yields a path that locates that field of type `C`
/// within `A`.
pub proof fn lemma_append_locates(d1: KeyPath, d2: KeyPath, la: TypeLayout, lb: TypeLayout, lc: TypeLayout)
    requires
        wf(la),
        locates(d1, la, lb),
        locates(d2, lb, lc),
    ensures
        d1.composable(d2),
        d1.offset + d2.offset + d2.size <= la.size,
        locates(d1.composed(d2), la, lc),
{
    let c1 = choose|c: Seq<usize>|
        c.len() > 0 && chain_valid(la, c) && chain_offset(la, c) == d1.offset && chain_target(la, c) == lb;
    let c2 = choose|c: Seq<usize>|
        c.len() > 0 && chain_valid(lb, c) && chain_offset(lb, c) == d2.offset && chain_target(lb, c) == lc;
    lemma_chain_in_bounds(la, c1);
    lemma_chain_in_bounds(lb, c2);
    lemma_chain_concat(la, c1, c2);
    assert((c1 + c2).len() > 0 && chain_valid(la, c1 + c2) && chain_offset(la, c1 + c2)
        == d1.composed(d2).offset && chain_target(la, c1 + c2) == lc);
}

} // verus!
