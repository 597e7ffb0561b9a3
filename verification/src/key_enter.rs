use crate::key_path::KeyPath;
use crate::key_path::KeyPathError;
use crate::layout::chain_bytes;
use crate::layout::chain_offset;
use crate::layout::chain_target;
use crate::layout::chain_valid;
use crate::layout::lemma_chain_in_bounds;
use crate::layout::lemma_constructed_path_resolves;
use crate::layout::wf;
use crate::layout::TypeLayout;
use vstd::prelude::*;

verus! {

/// A trait that provides the functions for entering a value with a
/// [`KeyPath`]: resolving the path against the value to reach the bytes of
/// the field the path describes.
///
/// Resolution performs an explicit type-identity check of the path's source
/// identifier against the value entered, and a bounds check of the path's
/// byte range, as the substitute for a compile-time guarantee: a path whose
/// identifiers or offset do not fit the value is reported, never resolved to
/// the wrong bytes.
pub trait KeyEnter: Sized {
    /// The identifier of the type this value is an instance of.
    spec fn entry_type(&self) -> u64;

    /// The bytes of this value.
    spec fn content(&self) -> Seq<u8>;

    /// Enters `self` with the given [`KeyPath`], yielding the bytes of the
    /// field the path describes: the `size` bytes that start `offset` bytes
    /// from the beginning of `self`. Succeeds exactly when the path starts
    /// from `self`'s type and its byte range lies within `self`.
    fn enter(&self, key_path: &KeyPath) -> (r: Result<Vec<u8>, KeyPathError>)
        ensures
            match r {
                Ok(field) => {
                    &&& key_path.source == self.entry_type()
                    &&& key_path.offset + key_path.size <= self.content().len()
                    &&& field@ == self.content().subrange(
                        key_path.offset as int,
                        key_path.offset + key_path.size,
                    )
                },
                Err(e) => {
                    &&& !(key_path.source == self.entry_type() && key_path.offset + key_path.size
                        <= self.content().len())
                    &&& e == (if key_path.source != self.entry_type() {
                        KeyPathError::TypeMismatch {
                            expected: self.entry_type(),
                            found: key_path.source,
                        }
                    } else {
                        KeyPathError::OutOfBounds
                    })
                },
            },
    ;

    /// Enters `self` with the given [`KeyPath`] for mutation, overwriting the
    /// bytes of the field the path describes with `field`, and leaving every
    /// byte outside the path's range as it was. Succeeds exactly when the
    /// path starts from `self`'s type and its byte range lies within `self`;
    /// on failure `self` is left unchanged.
    fn enter_mut(&mut self, key_path: &KeyPath, field: &Vec<u8>) -> (r: Result<(), KeyPathError>)
        requires
            field@.len() == key_path.size,
        ensures
            final(self).entry_type() == old(self).entry_type(),
            final(self).content().len() == old(self).content().len(),
            match r {
                Ok(_) => {
                    &&& key_path.source == old(self).entry_type()
                    &&& key_path.offset + key_path.size <= old(self).content().len()
                    &&& final(self).content() == old(self).content().subrange(
                        0,
                        key_path.offset as int,
                    ) + field@ + old(self).content().subrange(
                        key_path.offset + key_path.size,
                        old(self).content().len() as int,
                    )
                },
                Err(e) => {
                    &&& !(key_path.source == old(self).entry_type() && key_path.offset
                        + key_path.size <= old(self).content().len())
                    &&& e == (if key_path.source != old(self).entry_type() {
                        KeyPathError::TypeMismatch {
                            expected: old(self).entry_type(),
                            found: key_path.source,
                        }
                    } else {
                        KeyPathError::OutOfBounds
                    })
                    &&& final(self).content() == old(self).content()
                },
            },
    ;
}

/// A live instance of a container type, as resolution sees it: the runtime
/// identifier of its type and its bytes.
pub struct Instance {
    /// Identifier of the type this value is an instance of.
    pub type_id: u64,
    /// The bytes of the value.
    pub data: Vec<u8>,
}

impl KeyEnter for Instance {
    open spec fn entry_type(&self) -> u64 {
        self.type_id
    }

    open spec fn content(&self) -> Seq<u8> {
        self.data@
    }

    fn enter(&self, key_path: &KeyPath) -> (r: Result<Vec<u8>, KeyPathError>) {
        if key_path.source != self.type_id {
            return Err(
                KeyPathError::TypeMismatch { expected: self.type_id, found: key_path.source },
            );
        }
        if key_path.size > self.data.len() || key_path.offset > self.data.len() - key_path.size {
            return Err(KeyPathError::OutOfBounds);
        }
        let mut field: Vec<u8> = Vec::new();
        let mut i: usize = 0;
        while i < key_path.size
            invariant
                i <= key_path.size,
                key_path.offset + key_path.size <= self.data@.len() <= usize::MAX,
                field@ == self.data@.subrange(key_path.offset as int, key_path.offset + i),
            decreases key_path.size - i,
        {
            field.push(self.data[key_path.offset + i]);
            proof {
                assert(field@ =~= self.data@.subrange(
                    key_path.offset as int,
                    key_path.offset + i + 1,
                ));
            }
            i = i + 1;
        }
        Ok(field)
    }

    fn enter_mut(&mut self, key_path: &KeyPath, field: &Vec<u8>) -> (r: Result<(), KeyPathError>) {
        if key_path.source != self.type_id {
            return Err(
                KeyPathError::TypeMismatch { expected: self.type_id, found: key_path.source },
            );
        }
        if key_path.size > self.data.len() || key_path.offset > self.data.len() - key_path.size {
            return Err(KeyPathError::OutOfBounds);
        }
        let mut i: usize = 0;
        while i < key_path.size
            invariant
                i <= key_path.size,
                field@.len() == key_path.size,
                key_path.offset + key_path.size <= self.data@.len() <= usize::MAX,
                self.type_id == old(self).type_id,
                self.data@.len() == old(self).data@.len(),
                forall|k: int|
                    0 <= k < self.data@.len() ==> self.data@[k] == (if key_path.offset <= k
                        < key_path.offset + i {
                        field@[k - key_path.offset]
                    } else {
                        old(self).data@[k]
                    }),
            decreases key_path.size - i,
        {
            self.data.set(key_path.offset + i, field[i]);
            i = i + 1;
        }
        proof {
            assert(self.data@ =~= old(self).data@.subrange(0, key_path.offset as int) + field@
                + old(self).data@.subrange(
                key_path.offset + key_path.size,
                old(self).data@.len() as int,
            ));
        }
        Ok(())
    }
}

/// A path built from an accessor chain resolves against every instance of
/// the layout it was built from: the path [`crate::key`] yields for the chain
/// passes the type-identity check and the bounds check of
/// [`KeyEnter::enter`], and the bytes it resolves to are exactly what direct
/// navigation through the chain yields.
pub proof fn lemma_key_then_enter(l: TypeLayout, c: Seq<usize>, instance: Instance)
    requires
        wf(l),
        c.len() > 0,
        chain_valid(l, c),
        instance.type_id == l.type_id,
        instance.data@.len() == l.size,
    ensures
        ({
            let p = KeyPath {
                offset: chain_offset(l, c) as usize,
                size: chain_target(l, c).size,
                source: l.type_id,
                target: chain_target(l, c).type_id,
            };
            &&& p.source == instance.entry_type()
            &&& p.offset + p.size <= instance.content().len()
            &&& instance.content().subrange(p.offset as int, p.offset + p.size) == chain_bytes(
                instance.content(),
                l,
                c,
            )
        }),
{
    lemma_chain_in_bounds(l, c);
    lemma_constructed_path_resolves(instance.data@, l, c);
}

/// Resolving a composed path reaches the same bytes as resolving in two
/// steps: first the outer path against the instance's bytes, then the inner
/// path against the bytes the outer one yielded. The composed offset is the
/// sum of the two offsets.
pub proof fn lemma_composed_resolution(bytes: Seq<u8>, d1: KeyPath, d2: KeyPath)
    requires
        d1.offset + d1.size <= bytes.len() <= usize::MAX,
        d2.offset + d2.size <= d1.size,
    ensures
        d1.composed(d2).offset == d1.offset + d2.offset,
        d1.composed(d2).offset + d1.composed(d2).size <= bytes.len(),
        bytes.subrange(
            d1.composed(d2).offset as int,
            d1.composed(d2).offset + d1.composed(d2).size,
        ) == bytes.subrange(d1.offset as int, d1.offset + d1.size).subrange(
            d2.offset as int,
            d2.offset + d2.size,
        ),
{
    assert(bytes.subrange(
        d1.composed(d2).offset as int,
        d1.composed(d2).offset + d1.composed(d2).size,
    ) =~= bytes.subrange(d1.offset as int, d1.offset + d1.size).subrange(
        d2.offset as int,
        d2.offset + d2.size,
    ));
}

/// Mutation through a path is observed by a subsequent resolution of the same
/// path: once the field's byte range within an instance's bytes is
/// overwritten, the same range of the new bytes holds exactly what was
/// written.
pub proof fn lemma_write_then_read(content: Seq<u8>, p: KeyPath, field: Seq<u8>)
    requires
        p.offset + p.size <= content.len(),
        field.len() == p.size,
    ensures
        (content.subrange(0, p.offset as int) + field + content.subrange(
            p.offset + p.size,
            content.len() as int,
        )).subrange(p.offset as int, p.offset + p.size) == field,
{
    assert((content.subrange(0, p.offset as int) + field + content.subrange(
        p.offset + p.size,
        content.len() as int,
    )).subrange(p.offset as int, p.offset + p.size) =~= field);
}

/// A descriptor is pure data, so a copy of it resolves identically: two equal
/// paths pick out the same byte range of the same content.
pub proof fn lemma_copy_resolves_identically(content: Seq<u8>, p: KeyPath, copy: KeyPath)
    requires
        copy == p,
    ensures
        content.subrange(copy.offset as int, copy.offset + copy.size) == content.subrange(
            p.offset as int,
            p.offset + p.size,
        ),
{
}

} // verus!
