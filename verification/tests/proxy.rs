use alloc_compose::{
    AllocAll, AllocEvent, AllocInit, AllocRef, Layout, Owns, Proxy, ReallocPlacement, Recorder,
    Region,
};

#[test]
fn proxy_records_hooks_in_order() {
    let mut proxy = Proxy {
        allocator: Region::new(0x2000, 64),
        callbacks: Recorder::new(),
    };
    let layout = Layout { size: 16, align: 1 };

    let memory = proxy
        .allocate(layout, AllocInit::Uninitialized)
        .expect("Could not allocate 16 bytes");
    proxy.deallocate(memory.ptr, layout);

    assert_eq!(proxy.callbacks.log.len(), 4);
    assert!(matches!(proxy.callbacks.log[0], AllocEvent::BeforeAlloc { .. }));
    assert!(matches!(
        proxy.callbacks.log[1],
        AllocEvent::AfterAlloc { result: Ok(_), .. }
    ));
    assert!(matches!(proxy.callbacks.log[2], AllocEvent::BeforeDealloc { .. }));
    assert!(matches!(proxy.callbacks.log[3], AllocEvent::AfterDealloc { .. }));
}

#[test]
fn proxy_hooks_run_once_per_call() {
    let mut proxy = Proxy {
        allocator: Region::new(0x2000, 256),
        callbacks: Recorder::new(),
    };
    let layout = Layout { size: 8, align: 1 };

    let mut blocks = Vec::new();
    for _ in 0..3 {
        let memory = proxy
            .allocate(layout, AllocInit::Uninitialized)
            .expect("Could not allocate 8 bytes");
        blocks.push(memory);
    }
    for memory in &blocks {
        proxy.deallocate(memory.ptr, layout);
    }

    let before_allocs = proxy
        .callbacks
        .log
        .iter()
        .filter(|e| matches!(e, AllocEvent::BeforeAlloc { .. }))
        .count();
    let after_allocs = proxy
        .callbacks
        .log
        .iter()
        .filter(|e| matches!(e, AllocEvent::AfterAlloc { .. }))
        .count();
    let before_deallocs = proxy
        .callbacks
        .log
        .iter()
        .filter(|e| matches!(e, AllocEvent::BeforeDealloc { .. }))
        .count();
    let after_deallocs = proxy
        .callbacks
        .log
        .iter()
        .filter(|e| matches!(e, AllocEvent::AfterDealloc { .. }))
        .count();
    assert_eq!(before_allocs, 3);
    assert_eq!(after_allocs, 3);
    assert_eq!(before_deallocs, 3);
    assert_eq!(after_deallocs, 3);
    assert_eq!(proxy.callbacks.log.len(), 12);
}

#[test]
fn proxy_returns_what_the_wrapped_allocator_returns() {
    let layout = Layout { size: 8, align: 4 };
    let mut plain = Region::new(0x3000, 64);
    let mut proxy = Proxy {
        allocator: Region::new(0x3000, 64),
        callbacks: Recorder::new(),
    };

    let from_plain = plain
        .allocate(layout, AllocInit::Uninitialized)
        .expect("Could not allocate 8 bytes");
    let from_proxy = proxy
        .allocate(layout, AllocInit::Uninitialized)
        .expect("Could not allocate 8 bytes");
    assert_eq!(from_plain, from_proxy);

    let grown_plain = plain
        .grow(
            from_plain.ptr,
            layout,
            16,
            ReallocPlacement::InPlace,
            AllocInit::Uninitialized,
        )
        .expect("Could not grow to 16 bytes");
    let grown_proxy = proxy
        .grow(
            from_proxy.ptr,
            layout,
            16,
            ReallocPlacement::InPlace,
            AllocInit::Uninitialized,
        )
        .expect("Could not grow to 16 bytes");
    assert_eq!(grown_plain, grown_proxy);

    let shrunk_plain = plain
        .shrink(
            grown_plain.ptr,
            Layout { size: 16, align: 4 },
            4,
            ReallocPlacement::InPlace,
        )
        .expect("Could not shrink to 4 bytes");
    let shrunk_proxy = proxy
        .shrink(
            grown_proxy.ptr,
            Layout { size: 16, align: 4 },
            4,
            ReallocPlacement::InPlace,
        )
        .expect("Could not shrink to 4 bytes");
    assert_eq!(shrunk_plain, shrunk_proxy);
}

#[test]
fn proxy_grow_and_shrink_hooks_carry_the_result() {
    let mut proxy = Proxy {
        allocator: Region::new(0x4000, 32),
        callbacks: Recorder::new(),
    };
    let layout = Layout { size: 8, align: 1 };

    let memory = proxy
        .allocate(layout, AllocInit::Uninitialized)
        .expect("Could not allocate 8 bytes");
    let grown = proxy
        .grow(
            memory.ptr,
            layout,
            16,
            ReallocPlacement::InPlace,
            AllocInit::Uninitialized,
        )
        .expect("Could not grow to 16 bytes");
    let failed = proxy.grow(
        grown.ptr,
        Layout { size: 16, align: 1 },
        64,
        ReallocPlacement::InPlace,
        AllocInit::Uninitialized,
    );
    assert!(failed.is_err());

    assert_eq!(proxy.callbacks.log.len(), 6);
    assert!(matches!(proxy.callbacks.log[2], AllocEvent::BeforeGrow { .. }));
    assert!(matches!(
        proxy.callbacks.log[3],
        AllocEvent::AfterGrow { result: Ok(_), new_size: 16, .. }
    ));
    assert!(matches!(proxy.callbacks.log[4], AllocEvent::BeforeGrow { new_size: 64, .. }));
    assert!(matches!(
        proxy.callbacks.log[5],
        AllocEvent::AfterGrow { result: Err(_), .. }
    ));
}

#[test]
fn proxy_bulk_queries_have_no_hooks() {
    let mut proxy = Proxy {
        allocator: Region::new(0x5000, 32),
        callbacks: Recorder::new(),
    };

    assert_eq!(proxy.capacity(), 32);
    assert_eq!(proxy.capacity_left(), 32);
    assert!(proxy.is_empty());
    assert!(!proxy.is_full());
    assert_eq!(proxy.callbacks.log.len(), 0);

    let layout = Layout { size: 8, align: 1 };
    let memory = proxy
        .allocate_all(layout, AllocInit::Uninitialized)
        .expect("Could not allocate the whole region");
    assert_eq!(memory.size, 32);
    assert!(proxy.is_full());
    proxy.deallocate_all();
    assert!(proxy.is_empty());
    assert_eq!(proxy.capacity_left(), 32);

    assert_eq!(proxy.callbacks.log.len(), 4);
    assert!(matches!(proxy.callbacks.log[0], AllocEvent::BeforeAllocAll { .. }));
    assert!(matches!(
        proxy.callbacks.log[1],
        AllocEvent::AfterAllocAll { result: Ok(_), .. }
    ));
    assert!(matches!(proxy.callbacks.log[2], AllocEvent::BeforeDeallocAll));
    assert!(matches!(proxy.callbacks.log[3], AllocEvent::AfterDeallocAll));
}

#[test]
fn proxy_owns_hooks_carry_the_answer() {
    let mut proxy = Proxy {
        allocator: Region::new(0x6000, 32),
        callbacks: Recorder::new(),
    };
    let layout = Layout { size: 8, align: 1 };
    let memory = proxy
        .allocate(layout, AllocInit::Uninitialized)
        .expect("Could not allocate 8 bytes");

    assert!(proxy.owns(memory));
    assert!(!proxy.owns(alloc_compose::MemoryBlock { ptr: 1, size: 8 }));

    assert_eq!(proxy.callbacks.log.len(), 6);
    assert!(matches!(proxy.callbacks.log[2], AllocEvent::BeforeOwns));
    assert!(matches!(proxy.callbacks.log[3], AllocEvent::AfterOwns { success: true }));
    assert!(matches!(proxy.callbacks.log[4], AllocEvent::BeforeOwns));
    assert!(matches!(proxy.callbacks.log[5], AllocEvent::AfterOwns { success: false }));
}
