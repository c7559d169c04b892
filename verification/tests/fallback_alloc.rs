use alloc_compose::{
    AllocInit, AllocRef, FallbackAlloc, Layout, Owns, ReallocPlacement, Region,
};

#[test]
fn allocate() {
    let mut composed = FallbackAlloc {
        primary: Region::new(0x1000, 32),
        fallback: Region::new(0x100000, 65536),
    };

    let small_memory = composed
        .allocate(Layout { size: 4, align: 4 }, AllocInit::Uninitialized)
        .expect("Could not allocate 4 bytes");
    let big_memory = composed
        .allocate(Layout { size: 64, align: 1 }, AllocInit::Uninitialized)
        .expect("Could not allocate 64 bytes");

    assert!(composed.primary.owns(small_memory));
    assert!(!composed.primary.owns(big_memory));

    composed.deallocate(small_memory.ptr, Layout { size: 4, align: 4 });
    composed.deallocate(big_memory.ptr, Layout { size: 64, align: 1 });
}

#[test]
fn grow() {
    let mut composed = FallbackAlloc {
        primary: Region::new(0x1000, 80),
        fallback: Region::new(0x100000, 65536),
    };

    let memory = composed
        .allocate(Layout { size: 32, align: 1 }, AllocInit::Uninitialized)
        .expect("Could not allocate 32 bytes");
    assert!(composed.primary.owns(memory));

    let memory = composed
        .grow(
            memory.ptr,
            Layout { size: 32, align: 1 },
            64,
            ReallocPlacement::InPlace,
            AllocInit::Uninitialized,
        )
        .expect("Could not grow to 64 bytes");
    assert!(composed.primary.owns(memory));

    let memory = composed
        .grow(
            memory.ptr,
            Layout { size: 64, align: 1 },
            80,
            ReallocPlacement::InPlace,
            AllocInit::Uninitialized,
        )
        .expect("Could not grow to 80 bytes");
    assert!(composed.primary.owns(memory));

    assert!(composed
        .grow(
            memory.ptr,
            Layout { size: 80, align: 1 },
            96,
            ReallocPlacement::InPlace,
            AllocInit::Uninitialized,
        )
        .is_err());

    let memory = composed
        .grow(
            memory.ptr,
            Layout { size: 80, align: 1 },
            96,
            ReallocPlacement::MayMove,
            AllocInit::Uninitialized,
        )
        .expect("Could not grow to 96 bytes");
    assert!(!composed.primary.owns(memory));

    let memory = composed
        .grow(
            memory.ptr,
            Layout { size: 96, align: 1 },
            128,
            ReallocPlacement::MayMove,
            AllocInit::Uninitialized,
        )
        .expect("Could not grow to 128 bytes");
    assert!(!composed.primary.owns(memory));

    composed.deallocate(memory.ptr, Layout { size: 128, align: 1 });
}

#[test]
fn shrink() {
    let mut composed = FallbackAlloc {
        primary: Region::new(0x1000, 80),
        fallback: Region::new(0x100000, 65536),
    };

    let memory = composed
        .allocate(Layout { size: 64, align: 1 }, AllocInit::Uninitialized)
        .expect("Could not allocate 64 bytes");
    assert!(composed.primary.owns(memory));

    let memory = composed
        .shrink(
            memory.ptr,
            Layout { size: 64, align: 1 },
            32,
            ReallocPlacement::MayMove,
        )
        .expect("Could not shrink to 32 bytes");
    assert!(composed.primary.owns(memory));

    let memory = composed
        .grow(
            memory.ptr,
            Layout { size: 32, align: 1 },
            128,
            ReallocPlacement::MayMove,
            AllocInit::Uninitialized,
        )
        .expect("Could not grow to 128 bytes");
    assert!(!composed.primary.owns(memory));

    let memory = composed
        .shrink(
            memory.ptr,
            Layout { size: 128, align: 1 },
            96,
            ReallocPlacement::MayMove,
        )
        .expect("Could not shrink to 96 bytes");
    assert!(!composed.primary.owns(memory));

    composed.deallocate(memory.ptr, Layout { size: 96, align: 1 });
}

#[test]
fn owns() {
    let mut composed = FallbackAlloc {
        primary: Region::new(0x1000, 32),
        fallback: Region::new(0x2000, 64),
    };

    let memory = composed
        .allocate(Layout { size: 32, align: 1 }, AllocInit::Uninitialized)
        .expect("Could not allocate 32 bytes");
    assert!(composed.primary.owns(memory));
    assert!(composed.owns(memory));

    let memory = composed
        .allocate(Layout { size: 64, align: 1 }, AllocInit::Uninitialized)
        .expect("Could not allocate 64 bytes");
    assert!(composed.fallback.owns(memory));
    assert!(composed.owns(memory));
}
