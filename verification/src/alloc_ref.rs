//! The allocator capability contracts.
//!
//! An allocator is modelled by three spec-level views: its `footprint`, the
//! fixed set of addresses it may ever hand out; its `blocks`, the live blocks
//! it currently backs, each start address mapped to the bytes stored there;
//! and the `can_*` predicates, which say exactly which requests it will
//! satisfy.  Every operation's contract is stated over these views, so a
//! combinator generic over `AllocRef` can be verified against any backing
//! allocator.
use crate::block::{AllocErr, AllocInit, Layout, MemoryBlock, ReallocPlacement};
use crate::block::{is_aligned, zeroed_range};
use vstd::prelude::*;

verus! {

/// The minimal operation set every backing allocator must implement.
pub trait AllocRef: Sized {
    /// The allocator's internal invariant.
    spec fn wf(&self) -> bool;

    /// Every address this allocator could ever hand out.  It is fixed over
    /// the allocator's lifetime; two allocators composed by a combinator are
    /// assumed to have disjoint footprints.
    spec fn footprint(&self) -> Set<usize>;

    /// The live blocks: each block's start address mapped to its bytes.
    spec fn blocks(&self) -> Map<usize, Seq<u8>>;

    /// `other` is observably the same allocator state: same live blocks and
    /// the same answers to every request.  Hook sinks and other bookkeeping
    /// that does not affect allocation may differ.
    spec fn same_alloc_state(&self, other: Self) -> bool;

    /// Exactly when an allocation with this layout will succeed.
    spec fn can_alloc(&self, layout: Layout) -> bool;

    /// Exactly when a grow of the block at `ptr` will succeed.
    spec fn can_grow(
        &self,
        ptr: usize,
        layout: Layout,
        new_size: usize,
        placement: ReallocPlacement,
    ) -> bool;

    /// Exactly when a shrink of the block at `ptr` will succeed.
    spec fn can_shrink(
        &self,
        ptr: usize,
        layout: Layout,
        new_size: usize,
        placement: ReallocPlacement,
    ) -> bool;

    /// Law: live blocks start inside the footprint, and the null address is
    /// never part of it.
    proof fn blocks_in_footprint(&self)
        requires
            self.wf(),
        ensures
            forall|p: usize| self.blocks().contains_key(p) ==> self.footprint().contains(p),
            !self.footprint().contains(0usize),
    ;

    /// Law: `same_alloc_state` is reflexive.
    proof fn same_state_refl(&self)
        ensures
            self.same_alloc_state(*self),
    ;

    /// Law: `same_alloc_state` is transitive.
    proof fn same_state_trans(&self, mid: Self, other: Self)
        requires
            self.same_alloc_state(mid),
            mid.same_alloc_state(other),
        ensures
            self.same_alloc_state(other),
    ;

    /// Law: two observably equal states agree on every view and predicate.
    proof fn same_state_effects(&self, other: Self)
        requires
            self.same_alloc_state(other),
        ensures
            self.wf() == other.wf(),
            self.footprint() == other.footprint(),
            self.blocks() == other.blocks(),
            forall|layout: Layout| #[trigger]
                self.can_alloc(layout) == other.can_alloc(layout),
            forall|p: usize, l: Layout, n: usize, pl: ReallocPlacement| #[trigger]
                self.can_grow(p, l, n, pl) == other.can_grow(p, l, n, pl),
            forall|p: usize, l: Layout, n: usize, pl: ReallocPlacement| #[trigger]
                self.can_shrink(p, l, n, pl) == other.can_shrink(p, l, n, pl),
    ;

    /// Allocate a block for `layout`.  On success the block is fresh, holds
    /// `layout.size` bytes at an address aligned to `layout.align`, and is
    /// zero-filled exactly when `init` demands it.  Success is owed exactly
    /// when `can_alloc` holds; on failure the allocator is unchanged.
    fn allocate(&mut self, layout: Layout, init: AllocInit) -> (r: Result<MemoryBlock, AllocErr>)
        requires
            old(self).wf(),
            layout.wf(),
        ensures
            final(self).wf(),
            final(self).footprint() == old(self).footprint(),
            match r {
                Ok(b) => {
                    &&& old(self).can_alloc(layout)
                    &&& b.size == layout.size
                    &&& is_aligned(b.ptr, layout.align)
                    &&& !old(self).blocks().contains_key(b.ptr)
                    &&& final(self).blocks() == old(self).blocks().insert(
                        b.ptr,
                        final(self).blocks()[b.ptr],
                    )
                    &&& final(self).blocks()[b.ptr].len() == layout.size
                    &&& (init == AllocInit::Zeroed ==> zeroed_range(
                        final(self).blocks()[b.ptr],
                        0,
                        layout.size as int,
                    ))
                },
                Err(_) => {
                    &&& old(self).same_alloc_state(*final(self))
                    &&& !old(self).can_alloc(layout)
                },
            },
            old(self).can_alloc(layout) ==> r is Ok,
    ;

    /// Release the block at `ptr`, which must have been returned by this
    /// allocator for this exact layout.
    fn deallocate(&mut self, ptr: usize, layout: Layout)
        requires
            old(self).wf(),
            layout.wf(),
            old(self).blocks().contains_key(ptr),
            old(self).blocks()[ptr].len() == layout.size,
        ensures
            final(self).wf(),
            final(self).footprint() == old(self).footprint(),
            final(self).blocks() == old(self).blocks().remove(ptr),
    ;

    /// Grow the block at `ptr` from `layout.size` to `new_size` bytes.  On
    /// success the first `layout.size` bytes are preserved, the added tail is
    /// zero-filled exactly when `init` demands it, and under `InPlace` the
    /// address is unchanged.  Success is owed exactly when `can_grow` holds;
    /// on failure the allocator is unchanged.
    fn grow(
        &mut self,
        ptr: usize,
        layout: Layout,
        new_size: usize,
        placement: ReallocPlacement,
        init: AllocInit,
    ) -> (r: Result<MemoryBlock, AllocErr>)
        requires
            old(self).wf(),
            layout.wf(),
            old(self).blocks().contains_key(ptr),
            old(self).blocks()[ptr].len() == layout.size,
            new_size >= layout.size,
        ensures
            final(self).wf(),
            final(self).footprint() == old(self).footprint(),
            match r {
                Ok(b) => {
                    &&& old(self).can_grow(ptr, layout, new_size, placement)
                    &&& b.size == new_size
                    &&& (placement == ReallocPlacement::InPlace ==> b.ptr == ptr)
                    &&& (b.ptr == ptr || !old(self).blocks().contains_key(b.ptr))
                    &&& final(self).blocks() == old(self).blocks().remove(ptr).insert(
                        b.ptr,
                        final(self).blocks()[b.ptr],
                    )
                    &&& final(self).blocks()[b.ptr].len() == new_size
                    &&& final(self).blocks()[b.ptr].subrange(0, layout.size as int)
                        == old(self).blocks()[ptr]
                    &&& (init == AllocInit::Zeroed ==> zeroed_range(
                        final(self).blocks()[b.ptr],
                        layout.size as int,
                        new_size as int,
                    ))
                },
                Err(_) => {
                    &&& old(self).same_alloc_state(*final(self))
                    &&& !old(self).can_grow(ptr, layout, new_size, placement)
                },
            },
            old(self).can_grow(ptr, layout, new_size, placement) ==> r is Ok,
    ;

    /// Shrink the block at `ptr` from `layout.size` to `new_size` bytes.  On
    /// success the first `new_size` bytes are preserved and under `InPlace`
    /// the address is unchanged.  Success is owed exactly when `can_shrink`
    /// holds; on failure the allocator is unchanged.
    fn shrink(
        &mut self,
        ptr: usize,
        layout: Layout,
        new_size: usize,
        placement: ReallocPlacement,
    ) -> (r: Result<MemoryBlock, AllocErr>)
        requires
            old(self).wf(),
            layout.wf(),
            old(self).blocks().contains_key(ptr),
            old(self).blocks()[ptr].len() == layout.size,
            new_size <= layout.size,
        ensures
            final(self).wf(),
            final(self).footprint() == old(self).footprint(),
            match r {
                Ok(b) => {
                    &&& old(self).can_shrink(ptr, layout, new_size, placement)
                    &&& b.size == new_size
                    &&& (placement == ReallocPlacement::InPlace ==> b.ptr == ptr)
                    &&& (b.ptr == ptr || !old(self).blocks().contains_key(b.ptr))
                    &&& final(self).blocks() == old(self).blocks().remove(ptr).insert(
                        b.ptr,
                        final(self).blocks()[b.ptr],
                    )
                    &&& final(self).blocks()[b.ptr]
                        == old(self).blocks()[ptr].subrange(0, new_size as int)
                },
                Err(_) => {
                    &&& old(self).same_alloc_state(*final(self))
                    &&& !old(self).can_shrink(ptr, layout, new_size, placement)
                },
            },
            old(self).can_shrink(ptr, layout, new_size, placement) ==> r is Ok,
    ;

    /// Read the bytes of the block at `ptr`.  In this model a block's bytes
    /// live inside the allocator that backs it, so reading them is part of
    /// the allocator capability.  The allocator's observable state is left
    /// as it was.
    fn read(&mut self, ptr: usize, layout: Layout) -> (r: Vec<u8>)
        requires
            old(self).wf(),
            old(self).blocks().contains_key(ptr),
            old(self).blocks()[ptr].len() == layout.size,
        ensures
            final(self).wf(),
            final(self).footprint() == old(self).footprint(),
            old(self).same_alloc_state(*final(self)),
            r@ == old(self).blocks()[ptr],
    ;

    /// Overwrite the leading `buf.len()` bytes of the block at `ptr`; the
    /// rest of the block and every other block keep their bytes.
    fn write(&mut self, ptr: usize, buf: &Vec<u8>)
        requires
            old(self).wf(),
            old(self).blocks().contains_key(ptr),
            buf@.len() <= old(self).blocks()[ptr].len(),
        ensures
            final(self).wf(),
            final(self).footprint() == old(self).footprint(),
            final(self).blocks() == old(self).blocks().insert(
                ptr,
                buf@ + old(self).blocks()[ptr].skip(buf@.len() as int),
            ),
    ;
}

/// The ownership capability: an allocator can be asked whether it produced a
/// given block, so composites never keep pointer-to-owner bookkeeping.
pub trait Owns: AllocRef {
    /// True exactly when this allocator currently backs a live block starting
    /// at the queried address.  The query leaves the allocator's observable
    /// state as it was; it takes exclusive access only so that an observing
    /// combinator may drive its hooks around the question.
    fn owns(&mut self, memory: MemoryBlock) -> (r: bool)
        requires
            old(self).wf(),
        ensures
            final(self).wf(),
            final(self).footprint() == old(self).footprint(),
            old(self).same_alloc_state(*final(self)),
            r == old(self).blocks().contains_key(memory.ptr),
    ;
}

/// The bulk capability of arena-like allocators with a fixed backing region.
pub trait AllocAll: AllocRef {
    /// The total size in bytes of the backing region.
    spec fn spec_capacity(&self) -> int;

    /// The bytes of the backing region not yet consumed.
    spec fn spec_capacity_left(&self) -> int;

    /// Exactly when `alloc_all` will succeed.
    spec fn can_alloc_all(&self, layout: Layout) -> bool;

    /// Law: two observably equal states agree on the bulk views as well.
    proof fn same_state_bulk_effects(&self, other: Self)
        requires
            self.same_alloc_state(other),
        ensures
            self.spec_capacity() == other.spec_capacity(),
            self.spec_capacity_left() == other.spec_capacity_left(),
            forall|layout: Layout| #[trigger]
                self.can_alloc_all(layout) == other.can_alloc_all(layout),
    ;

    /// Allocate everything the allocator has left, in a single block placed
    /// for `layout`.  On success the block holds at least `layout.size`
    /// bytes and no capacity remains.
    fn allocate_all(&mut self, layout: Layout, init: AllocInit) -> (r: Result<MemoryBlock, AllocErr>)
        requires
            old(self).wf(),
            layout.wf(),
        ensures
            final(self).wf(),
            final(self).footprint() == old(self).footprint(),
            final(self).spec_capacity() == old(self).spec_capacity(),
            match r {
                Ok(b) => {
                    &&& old(self).can_alloc_all(layout)
                    &&& b.size >= layout.size
                    &&& is_aligned(b.ptr, layout.align)
                    &&& !old(self).blocks().contains_key(b.ptr)
                    &&& final(self).blocks() == old(self).blocks().insert(
                        b.ptr,
                        final(self).blocks()[b.ptr],
                    )
                    &&& final(self).blocks()[b.ptr].len() == b.size
                    &&& (init == AllocInit::Zeroed ==> zeroed_range(
                        final(self).blocks()[b.ptr],
                        0,
                        b.size as int,
                    ))
                    &&& final(self).spec_capacity_left() == 0
                },
                Err(_) => {
                    &&& old(self).same_alloc_state(*final(self))
                    &&& !old(self).can_alloc_all(layout)
                },
            },
            old(self).can_alloc_all(layout) ==> r is Ok,
    ;

    /// Release every live block and recover the whole region.
    fn deallocate_all(&mut self)
        requires
            old(self).wf(),
        ensures
            final(self).wf(),
            final(self).footprint() == old(self).footprint(),
            final(self).spec_capacity() == old(self).spec_capacity(),
            final(self).blocks() == Map::<usize, Seq<u8>>::empty(),
            final(self).spec_capacity_left() == final(self).spec_capacity(),
    ;

    /// The total size of the backing region.
    fn capacity(&self) -> (r: usize)
        requires
            self.wf(),
        ensures
            r == self.spec_capacity(),
    ;

    /// The bytes of the backing region not yet consumed.
    fn capacity_left(&self) -> (r: usize)
        requires
            self.wf(),
        ensures
            r == self.spec_capacity_left(),
    ;

    /// No live block is outstanding.
    fn is_empty(&self) -> (r: bool)
        requires
            self.wf(),
        ensures
            r == (self.blocks() == Map::<usize, Seq<u8>>::empty()),
    ;

    /// No capacity is left.
    fn is_full(&self) -> (r: bool)
        requires
            self.wf(),
        ensures
            r == (self.spec_capacity_left() == 0),
    ;
}

/// Law: releasing a block right after allocating it leaves no dangling
/// ownership.  `allocate` hands out a fresh address and records its bytes;
/// `deallocate` with the same layout removes exactly that entry; so the
/// address is no longer owned afterwards and the allocator's block map is
/// back to what it was before the allocation.
pub proof fn law_alloc_release_no_dangling<A: AllocRef>(
    pre: A,
    mid: A,
    post: A,
    b: MemoryBlock,
    bytes: Seq<u8>,
)
    requires
        !pre.blocks().contains_key(b.ptr),
        mid.blocks() == pre.blocks().insert(b.ptr, bytes),
        post.blocks() == mid.blocks().remove(b.ptr),
    ensures
        !post.blocks().contains_key(b.ptr),
        post.blocks() == pre.blocks(),
{
    assert(post.blocks() =~= pre.blocks());
}

} // verus!
