//! A callback sink that records every hook invocation.
//!
//! The `Recorder` keeps the events it receives in order, so a caller (or a
//! test) can inspect exactly which hooks an observed allocator drove, how
//! often, and with which arguments and results.
use crate::block::{AllocErr, AllocInit, Layout, MemoryBlock, ReallocPlacement};
use crate::callback_ref::{AllocEvent, CallbackRef};
use vstd::prelude::*;

verus! {

/// Records each hook invocation, oldest first.
pub struct Recorder {
    /// The recorded events, in the order the hooks ran.
    pub log: Vec<AllocEvent>,
}

impl Recorder {
    /// A recorder with an empty log.
    pub fn new() -> (r: Recorder)
        ensures
            r.log@ == Seq::<AllocEvent>::empty(),
    {
        Recorder { log: Vec::new() }
    }
}

impl CallbackRef for Recorder {
    open spec fn history(&self) -> Seq<AllocEvent> {
        self.log@
    }

    fn before_alloc(&mut self, layout: Layout, init: AllocInit) {
        self.log.push(AllocEvent::BeforeAlloc { layout, init });
    }

    fn after_alloc(
        &mut self,
        layout: Layout,
        init: AllocInit,
        result: Result<MemoryBlock, AllocErr>,
    ) {
        self.log.push(AllocEvent::AfterAlloc { layout, init, result });
    }

    fn before_dealloc(&mut self, ptr: usize, layout: Layout) {
        self.log.push(AllocEvent::BeforeDealloc { ptr, layout });
    }

    fn after_dealloc(&mut self, ptr: usize, layout: Layout) {
        self.log.push(AllocEvent::AfterDealloc { ptr, layout });
    }

    fn before_grow(
        &mut self,
        ptr: usize,
        layout: Layout,
        new_size: usize,
        placement: ReallocPlacement,
        init: AllocInit,
    ) {
        self.log.push(AllocEvent::BeforeGrow { ptr, layout, new_size, placement, init });
    }

    fn after_grow(
        &mut self,
        ptr: usize,
        layout: Layout,
        new_size: usize,
        placement: ReallocPlacement,
        init: AllocInit,
        result: Result<MemoryBlock, AllocErr>,
    ) {
        self.log.push(AllocEvent::AfterGrow { ptr, layout, new_size, placement, init, result });
    }

    fn before_shrink(
        &mut self,
        ptr: usize,
        layout: Layout,
        new_size: usize,
        placement: ReallocPlacement,
    ) {
        self.log.push(AllocEvent::BeforeShrink { ptr, layout, new_size, placement });
    }

    fn after_shrink(
        &mut self,
        ptr: usize,
        layout: Layout,
        new_size: usize,
        placement: ReallocPlacement,
        result: Result<MemoryBlock, AllocErr>,
    ) {
        self.log.push(AllocEvent::AfterShrink { ptr, layout, new_size, placement, result });
    }

    fn before_alloc_all(&mut self, layout: Layout, init: AllocInit) {
        self.log.push(AllocEvent::BeforeAllocAll { layout, init });
    }

    fn after_alloc_all(
        &mut self,
        layout: Layout,
        init: AllocInit,
        result: Result<MemoryBlock, AllocErr>,
    ) {
        self.log.push(AllocEvent::AfterAllocAll { layout, init, result });
    }

    fn before_dealloc_all(&mut self) {
        self.log.push(AllocEvent::BeforeDeallocAll);
    }

    fn after_dealloc_all(&mut self) {
        self.log.push(AllocEvent::AfterDeallocAll);
    }

    fn before_owns(&mut self) {
        self.log.push(AllocEvent::BeforeOwns);
    }

    fn after_owns(&mut self, success: bool) {
        self.log.push(AllocEvent::AfterOwns { success });
    }
}

} // verus!
