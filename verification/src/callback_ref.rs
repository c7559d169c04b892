//! The callback capability: a pluggable pair of before/after hooks for every
//! allocator operation, used by `Proxy` to observe behaviour without
//! altering it.
//!
//! A callback sink carries a spec-level `history`: the sequence of hook
//! invocations it has received, each with the parameters (and, for "after"
//! hooks, the result) that were passed.  Every hook appends exactly its own
//! event, so a caller can prove how many times, in which order and with which
//! arguments its hooks ran.
use crate::block::{AllocErr, AllocInit, Layout, MemoryBlock, ReallocPlacement};
use vstd::prelude::*;

verus! {

/// One hook invocation, with the arguments it received.
#[derive(Clone, Copy, Debug)]
pub enum AllocEvent {
    BeforeAlloc { layout: Layout, init: AllocInit },
    AfterAlloc { layout: Layout, init: AllocInit, result: Result<MemoryBlock, AllocErr> },
    BeforeDealloc { ptr: usize, layout: Layout },
    AfterDealloc { ptr: usize, layout: Layout },
    BeforeGrow {
        ptr: usize,
        layout: Layout,
        new_size: usize,
        placement: ReallocPlacement,
        init: AllocInit,
    },
    AfterGrow {
        ptr: usize,
        layout: Layout,
        new_size: usize,
        placement: ReallocPlacement,
        init: AllocInit,
        result: Result<MemoryBlock, AllocErr>,
    },
    BeforeShrink { ptr: usize, layout: Layout, new_size: usize, placement: ReallocPlacement },
    AfterShrink {
        ptr: usize,
        layout: Layout,
        new_size: usize,
        placement: ReallocPlacement,
        result: Result<MemoryBlock, AllocErr>,
    },
    BeforeAllocAll { layout: Layout, init: AllocInit },
    AfterAllocAll { layout: Layout, init: AllocInit, result: Result<MemoryBlock, AllocErr> },
    BeforeDeallocAll,
    AfterDeallocAll,
    BeforeOwns,
    AfterOwns { success: bool },
}

/// A callback sink.  Each hook appends exactly one event to the history and
/// does nothing that an allocator could observe.
pub trait CallbackRef: Sized {
    /// Every hook invocation this sink has received, oldest first.
    spec fn history(&self) -> Seq<AllocEvent>;

    fn before_alloc(&mut self, layout: Layout, init: AllocInit)
        ensures
            final(self).history() == old(self).history().push(
                AllocEvent::BeforeAlloc { layout, init },
            ),
    ;

    fn after_alloc(
        &mut self,
        layout: Layout,
        init: AllocInit,
        result: Result<MemoryBlock, AllocErr>,
    )
        ensures
            final(self).history() == old(self).history().push(
                AllocEvent::AfterAlloc { layout, init, result },
            ),
    ;

    fn before_dealloc(&mut self, ptr: usize, layout: Layout)
        ensures
            final(self).history() == old(self).history().push(
                AllocEvent::BeforeDealloc { ptr, layout },
            ),
    ;

    fn after_dealloc(&mut self, ptr: usize, layout: Layout)
        ensures
            final(self).history() == old(self).history().push(
                AllocEvent::AfterDealloc { ptr, layout },
            ),
    ;

    fn before_grow(
        &mut self,
        ptr: usize,
        layout: Layout,
        new_size: usize,
        placement: ReallocPlacement,
        init: AllocInit,
    )
        ensures
            final(self).history() == old(self).history().push(
                AllocEvent::BeforeGrow { ptr, layout, new_size, placement, init },
            ),
    ;

    fn after_grow(
        &mut self,
        ptr: usize,
        layout: Layout,
        new_size: usize,
        placement: ReallocPlacement,
        init: AllocInit,
        result: Result<MemoryBlock, AllocErr>,
    )
        ensures
            final(self).history() == old(self).history().push(
                AllocEvent::AfterGrow { ptr, layout, new_size, placement, init, result },
            ),
    ;

    fn before_shrink(
        &mut self,
        ptr: usize,
        layout: Layout,
        new_size: usize,
        placement: ReallocPlacement,
    )
        ensures
            final(self).history() == old(self).history().push(
                AllocEvent::BeforeShrink { ptr, layout, new_size, placement },
            ),
    ;

    fn after_shrink(
        &mut self,
        ptr: usize,
        layout: Layout,
        new_size: usize,
        placement: ReallocPlacement,
        result: Result<MemoryBlock, AllocErr>,
    )
        ensures
            final(self).history() == old(self).history().push(
                AllocEvent::AfterShrink { ptr, layout, new_size, placement, result },
            ),
    ;

    fn before_alloc_all(&mut self, layout: Layout, init: AllocInit)
        ensures
            final(self).history() == old(self).history().push(
                AllocEvent::BeforeAllocAll { layout, init },
            ),
    ;

    fn after_alloc_all(
        &mut self,
        layout: Layout,
        init: AllocInit,
        result: Result<MemoryBlock, AllocErr>,
    )
        ensures
            final(self).history() == old(self).history().push(
                AllocEvent::AfterAllocAll { layout, init, result },
            ),
    ;

    fn before_dealloc_all(&mut self)
        ensures
            final(self).history() == old(self).history().push(AllocEvent::BeforeDeallocAll),
    ;

    fn after_dealloc_all(&mut self)
        ensures
            final(self).history() == old(self).history().push(AllocEvent::AfterDeallocAll),
    ;

    fn before_owns(&mut self)
        ensures
            final(self).history() == old(self).history().push(AllocEvent::BeforeOwns),
    ;

    fn after_owns(&mut self, success: bool)
        ensures
            final(self).history() == old(self).history().push(AllocEvent::AfterOwns { success }),
    ;
}

} // verus!
