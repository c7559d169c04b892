//! The instrumentation combinator: observe every allocator operation
//! without changing its outcome.
//!
//! `Proxy` performs each operation on its wrapped allocator unchanged and
//! invokes the paired before/after hooks around it, in strict
//! before-operation-after order.  Its allocator contract delegates every
//! view to the wrapped allocator, so the result returned to the caller is
//! exactly what the wrapped allocator alone would have returned; on top of
//! that each operation states precisely which two events it appends to the
//! callback sink's history.  The capacity queries are pure forwards without
//! hooks, as is reading or writing a block's bytes.
use crate::alloc_ref::{AllocAll, AllocRef, Owns};
use crate::block::{AllocErr, AllocInit, Layout, MemoryBlock, ReallocPlacement};
use crate::callback_ref::{AllocEvent, CallbackRef};
use vstd::prelude::*;

verus! {

/// Calls the provided callbacks when invoking allocator operations.
#[derive(Debug, Copy, Clone)]
pub struct Proxy<A, C> {
    /// The wrapped allocator.
    pub allocator: A,
    /// The callback sink whose hooks observe every operation.
    pub callbacks: C,
}

impl<A: AllocRef, C: CallbackRef> AllocRef for Proxy<A, C> {
    open spec fn wf(&self) -> bool {
        self.allocator.wf()
    }

    open spec fn footprint(&self) -> Set<usize> {
        self.allocator.footprint()
    }

    open spec fn blocks(&self) -> Map<usize, Seq<u8>> {
        self.allocator.blocks()
    }

    open spec fn same_alloc_state(&self, other: Self) -> bool {
        self.allocator.same_alloc_state(other.allocator)
    }

    open spec fn can_alloc(&self, layout: Layout) -> bool {
        self.allocator.can_alloc(layout)
    }

    open spec fn can_grow(
        &self,
        ptr: usize,
        layout: Layout,
        new_size: usize,
        placement: ReallocPlacement,
    ) -> bool {
        self.allocator.can_grow(ptr, layout, new_size, placement)
    }

    open spec fn can_shrink(
        &self,
        ptr: usize,
        layout: Layout,
        new_size: usize,
        placement: ReallocPlacement,
    ) -> bool {
        self.allocator.can_shrink(ptr, layout, new_size, placement)
    }

    proof fn blocks_in_footprint(&self) {
        self.allocator.blocks_in_footprint();
    }

    proof fn same_state_refl(&self) {
        self.allocator.same_state_refl();
    }

    proof fn same_state_trans(&self, mid: Self, other: Self) {
        self.allocator.same_state_trans(mid.allocator, other.allocator);
    }

    proof fn same_state_effects(&self, other: Self) {
        self.allocator.same_state_effects(other.allocator);
        assert forall|layout: Layout| #[trigger]
            self.can_alloc(layout) == other.can_alloc(layout) by {
            assert(self.allocator.can_alloc(layout) == other.allocator.can_alloc(layout));
        }
        assert forall|p: usize, l: Layout, n: usize, pl: ReallocPlacement| #[trigger]
            self.can_grow(p, l, n, pl) == other.can_grow(p, l, n, pl) by {
            assert(self.allocator.can_grow(p, l, n, pl) == other.allocator.can_grow(p, l, n, pl));
        }
        assert forall|p: usize, l: Layout, n: usize, pl: ReallocPlacement| #[trigger]
            self.can_shrink(p, l, n, pl) == other.can_shrink(p, l, n, pl) by {
            assert(self.allocator.can_shrink(p, l, n, pl) == other.allocator.can_shrink(
                p,
                l,
                n,
                pl,
            ));
        }
    }

    /// Before-hook, the wrapped allocator's own `allocate`, after-hook: the
    /// hooks run exactly once each, in order, with the call's arguments and
    /// its result.
    fn allocate(&mut self, layout: Layout, init: AllocInit) -> (r: Result<MemoryBlock, AllocErr>)
        ensures
            final(self).callbacks.history() == old(self).callbacks.history().push(
                AllocEvent::BeforeAlloc { layout, init },
            ).push(AllocEvent::AfterAlloc { layout, init, result: r }),
    {
        self.callbacks.before_alloc(layout, init);
        let result = self.allocator.allocate(layout, init);
        self.callbacks.after_alloc(layout, init, result);
        result
    }

    /// Before-hook, the wrapped allocator's own `deallocate`, after-hook.
    fn deallocate(&mut self, ptr: usize, layout: Layout)
        ensures
            final(self).callbacks.history() == old(self).callbacks.history().push(
                AllocEvent::BeforeDealloc { ptr, layout },
            ).push(AllocEvent::AfterDealloc { ptr, layout }),
    {
        self.callbacks.before_dealloc(ptr, layout);
        self.allocator.deallocate(ptr, layout);
        self.callbacks.after_dealloc(ptr, layout);
    }

    /// Before-hook, the wrapped allocator's own `grow`, after-hook.
    fn grow(
        &mut self,
        ptr: usize,
        layout: Layout,
        new_size: usize,
        placement: ReallocPlacement,
        init: AllocInit,
    ) -> (r: Result<MemoryBlock, AllocErr>)
        ensures
            final(self).callbacks.history() == old(self).callbacks.history().push(
                AllocEvent::BeforeGrow { ptr, layout, new_size, placement, init },
            ).push(AllocEvent::AfterGrow { ptr, layout, new_size, placement, init, result: r }),
    {
        self.callbacks.before_grow(ptr, layout, new_size, placement, init);
        let result = self.allocator.grow(ptr, layout, new_size, placement, init);
        self.callbacks.after_grow(ptr, layout, new_size, placement, init, result);
        result
    }

    /// Before-hook, the wrapped allocator's own `shrink`, after-hook.
    fn shrink(
        &mut self,
        ptr: usize,
        layout: Layout,
        new_size: usize,
        placement: ReallocPlacement,
    ) -> (r: Result<MemoryBlock, AllocErr>)
        ensures
            final(self).callbacks.history() == old(self).callbacks.history().push(
                AllocEvent::BeforeShrink { ptr, layout, new_size, placement },
            ).push(AllocEvent::AfterShrink { ptr, layout, new_size, placement, result: r }),
    {
        self.callbacks.before_shrink(ptr, layout, new_size, placement);
        let result = self.allocator.shrink(ptr, layout, new_size, placement);
        self.callbacks.after_shrink(ptr, layout, new_size, placement, result);
        result
    }

    /// A pure forward: reading bytes is not an allocator operation, so no
    /// hooks run and the sink's history is unchanged.
    fn read(&mut self, ptr: usize, layout: Layout) -> (r: Vec<u8>)
        ensures
            final(self).callbacks.history() == old(self).callbacks.history(),
    {
        self.allocator.read(ptr, layout)
    }

    /// A pure forward, like `read`.
    fn write(&mut self, ptr: usize, buf: &Vec<u8>)
        ensures
            final(self).callbacks.history() == old(self).callbacks.history(),
    {
        self.allocator.write(ptr, buf)
    }
}

impl<A: AllocRef + AllocAll, C: CallbackRef> AllocAll for Proxy<A, C> {
    open spec fn spec_capacity(&self) -> int {
        self.allocator.spec_capacity()
    }

    open spec fn spec_capacity_left(&self) -> int {
        self.allocator.spec_capacity_left()
    }

    open spec fn can_alloc_all(&self, layout: Layout) -> bool {
        self.allocator.can_alloc_all(layout)
    }

    proof fn same_state_bulk_effects(&self, other: Self) {
        self.allocator.same_state_bulk_effects(other.allocator);
        assert forall|layout: Layout| #[trigger]
            self.can_alloc_all(layout) == other.can_alloc_all(layout) by {
            assert(self.allocator.can_alloc_all(layout) == other.allocator.can_alloc_all(layout));
        }
    }

    /// Before-hook, the wrapped allocator's own `allocate_all`, after-hook.
    fn allocate_all(&mut self, layout: Layout, init: AllocInit) -> (r: Result<
        MemoryBlock,
        AllocErr,
    >)
        ensures
            final(self).callbacks.history() == old(self).callbacks.history().push(
                AllocEvent::BeforeAllocAll { layout, init },
            ).push(AllocEvent::AfterAllocAll { layout, init, result: r }),
    {
        self.callbacks.before_alloc_all(layout, init);
        let result = self.allocator.allocate_all(layout, init);
        self.callbacks.after_alloc_all(layout, init, result);
        result
    }

    /// Before-hook, the wrapped allocator's own `deallocate_all`, after-hook.
    fn deallocate_all(&mut self)
        ensures
            final(self).callbacks.history() == old(self).callbacks.history().push(
                AllocEvent::BeforeDeallocAll,
            ).push(AllocEvent::AfterDeallocAll),
    {
        self.callbacks.before_dealloc_all();
        self.allocator.deallocate_all();
        self.callbacks.after_dealloc_all();
    }

    /// A pure forward without hooks: the query mutates nothing worth
    /// instrumenting.
    fn capacity(&self) -> (r: usize) {
        self.allocator.capacity()
    }

    /// A pure forward without hooks.
    fn capacity_left(&self) -> (r: usize) {
        self.allocator.capacity_left()
    }

    /// A pure forward without hooks.
    fn is_empty(&self) -> (r: bool) {
        self.allocator.is_empty()
    }

    /// A pure forward without hooks.
    fn is_full(&self) -> (r: bool) {
        self.allocator.is_full()
    }
}

impl<A: AllocRef + Owns, C: CallbackRef> Owns for Proxy<A, C> {
    /// Before-hook, the wrapped allocator's own `owns`, after-hook given
    /// the answer.
    fn owns(&mut self, memory: MemoryBlock) -> (r: bool)
        ensures
            final(self).callbacks.history() == old(self).callbacks.history().push(
                AllocEvent::BeforeOwns,
            ).push(AllocEvent::AfterOwns { success: r }),
    {
        self.callbacks.before_owns();
        let result = self.allocator.owns(memory);
        self.callbacks.after_owns(result);
        result
    }
}

} // verus!
