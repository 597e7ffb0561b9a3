use crate::layout::chain_offset;
use crate::layout::chain_target;
use crate::layout::chain_valid;
use crate::layout::lemma_chain_in_bounds;
use crate::layout::locates;
use crate::layout::wf;
use crate::layout::TypeLayout;
use vstd::prelude::*;

verus! {

/// A path from a container type to one of its fields.
///
/// The path is pure data: the byte distance from the start of an instance of
/// the container to the start of the field, the byte width of the field, and
/// runtime identifiers for the container type and the field type. A path
/// carries no pointer; validity with respect to a declared layout is stated by
/// [`crate::layout::locates`] and established at construction time.
#[derive(Clone, Copy, Debug, PartialEq, Eq, Structural)]
pub struct KeyPath {
    /// Byte distance from the container's first byte to the field's first byte.
    pub offset: usize,
    /// Byte width of the field.
    pub size: usize,
    /// Identifier of the container type the path starts from.
    pub source: u64,
    /// Identifier of the field type the path resolves to.
    pub target: u64,
}

/// The failure a key-path operation reports when its type identifiers do not
/// line up or its offset does not lie within the instance it is applied to.
#[derive(Clone, Copy, Debug, PartialEq, Eq, Structural)]
pub enum KeyPathError {
    /// Two paths were joined, or a path was applied to an instance, whose type
    /// identifiers disagree at the joint.
    TypeMismatch { expected: u64, found: u64 },
    /// The path's byte range does not lie within the instance it was applied to.
    OutOfBounds,
}

impl KeyPath {
    /// Whether `other` may be appended onto `self`: the field type `self`
    /// resolves to must be the container type `other` starts from.
    pub open spec fn composable(self, other: KeyPath) -> bool {
        self.target == other.source
    }

    /// The path that appending `other` onto `self` yields: offsets add, the
    /// intermediate type is dropped.
    pub open spec fn composed(self, other: KeyPath) -> KeyPath {
        KeyPath {
            offset: (self.offset + other.offset) as usize,
            size: other.size,
            source: self.source,
            target: other.target,
        }
    }

    /// Builds a descriptor directly from a caller-supplied offset, field width
    /// and type identifiers, without consulting any layout. The caller is
    /// responsible for the path's validity: the offset must be the exact byte
    /// distance, within an instance of the source type, to a field whose type
    /// the target identifier names, and a path must not be reused across a
    /// different layout declaration.
    pub fn new(offset: usize, size: usize, source: u64, target: u64) -> (r: KeyPath)
        ensures
            r == (KeyPath { offset, size, source, target }),
    {
        KeyPath { offset, size, source, target }
    }

    /// Appends one path onto another, creating a path towards the field of
    /// type `T` from `V` (skips `F` in `V` -> `F` -> `T`): the offsets add and
    /// all knowledge of `F` is dropped. Joining two paths whose identifiers
    /// disagree at `F` reports which identifier was expected and which found.
    pub fn append(self, other: KeyPath) -> (r: Result<KeyPath, KeyPathError>)
        requires
            self.offset + other.offset <= usize::MAX,
        ensures
            self.composable(other) ==> r == Ok::<KeyPath, KeyPathError>(self.composed(other)),
            !self.composable(other) ==> r == Err::<KeyPath, KeyPathError>(
                (KeyPathError::TypeMismatch { expected: self.target, found: other.source }),
            ),
    {
        if self.target == other.source {
            Ok(KeyPath {
                offset: self.offset + other.offset,
                size: other.size,
                source: self.source,
                target: other.target,
            })
        } else {
            Err(KeyPathError::TypeMismatch { expected: self.target, found: other.source })
        }
    }
}

/// Walks the accessor chain from position `i` on through the layout `l`,
/// returning the byte offset the remaining steps reach together with the
/// layout they terminate at, or `None` if some step names no declared field.
fn walk<'a>(l: &'a TypeLayout, chain: &Vec<usize>, i: usize) -> (r: Option<(usize, &'a TypeLayout)>)
    requires
        wf(*l),
        i <= chain@.len(),
    ensures
        match r {
            Some((off, t)) => chain_valid(*l, chain@.skip(i as int)) && off == chain_offset(
                *l,
                chain@.skip(i as int),
            ) && *t == chain_target(*l, chain@.skip(i as int)),
            None => !chain_valid(*l, chain@.skip(i as int)),
        },
    decreases chain@.len() - i,
{
    if i == chain.len() {
        proof {
            assert(chain@.skip(i as int) =~= Seq::<usize>::empty());
        }
        Some((0, l))
    } else {
        let j: usize = chain[i];
        proof {
            assert(chain@.skip(i as int)[0] == chain@[i as int]);
            assert(chain@.skip(i as int).drop_first() =~= chain@.skip(i as int + 1));
        }
        if j < l.fields.len() {
            let f = &l.fields[j];
            match walk(&f.layout, chain, i + 1) {
                Some((off, t)) => {
                    proof {
                        lemma_chain_in_bounds(f.layout, chain@.skip(i as int + 1));
                    }
                    Some((f.offset + off, t))
                },
                None => None,
            }
        } else {
            None
        }
    }
}

/// Builds the path that a chain of field positions describes: starting from
/// the declared layout of the container, each step of the chain picks one
/// declared field of the level reached so far, and the resulting path carries
/// the cumulative byte offset, the terminal field's width and the two type
/// identifiers. Returns `None` exactly when the chain is empty or some step
/// names no declared field, and never produces a path for such a chain.
pub fn key(layout: &TypeLayout, chain: &Vec<usize>) -> (r: Option<KeyPath>)
    requires
        wf(*layout),
    ensures
        match r {
            Some(p) => chain@.len() > 0 && chain_valid(*layout, chain@) && p == (KeyPath {
                offset: chain_offset(*layout, chain@) as usize,
                size: chain_target(*layout, chain@).size,
                source: layout.type_id,
                target: chain_target(*layout, chain@).type_id,
            }) && locates(p, *layout, chain_target(*layout, chain@)),
            None => !(chain@.len() > 0 && chain_valid(*layout, chain@)),
        },
{
    if chain.len() == 0 {
        return None;
    }
    proof {
        assert(chain@.skip(0) =~= chain@);
    }
    match walk(layout, chain, 0) {
        Some((off, t)) => {
            let p = KeyPath { offset: off, size: t.size, source: layout.type_id, target: t.type_id };
            proof {
                assert(chain@.len() > 0 && chain_valid(*layout, chain@) && chain_offset(
                    *layout,
                    chain@,
                ) == p.offset && chain_target(*layout, chain@) == *t);
            }
            Some(p)
        },
        None => None,
    }
}

/// Composition of paths is associative: appending `d3` onto `d1.append(d2)`
/// and appending `d2.append(d3)` onto `d1` yield the very same path, and in
/// particular the same offset.
pub proof fn lemma_append_associative(d1: KeyPath, d2: KeyPath, d3: KeyPath)
    requires
        d1.composable(d2),
        d2.composable(d3),
        d1.offset + d2.offset + d3.offset <= usize::MAX,
    ensures
        d1.composable(d2.composed(d3)),
        d1.composed(d2).composable(d3),
        d1.composed(d2.composed(d3)) == d1.composed(d2).composed(d3),
{
}

} // verus!
