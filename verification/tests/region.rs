use alloc_compose::{
    AllocAll, AllocInit, AllocRef, FallbackAlloc, Layout, Owns, ReallocPlacement, Region,
};

#[test]
fn zeroed_allocation_reads_back_zero() {
    let mut region = Region::new(0x1000, 64);
    let layout = Layout { size: 16, align: 1 };
    let memory = region
        .allocate(layout, AllocInit::Zeroed)
        .expect("Could not allocate 16 bytes");
    let bytes = region.read(memory.ptr, layout);
    assert_eq!(bytes, vec![0u8; 16]);
}

#[test]
fn written_bytes_read_back() {
    let mut region = Region::new(0x1000, 64);
    let layout = Layout { size: 4, align: 1 };
    let memory = region
        .allocate(layout, AllocInit::Zeroed)
        .expect("Could not allocate 4 bytes");
    region.write(memory.ptr, &vec![7u8, 8, 9, 10]);
    let bytes = region.read(memory.ptr, layout);
    assert_eq!(bytes, vec![7u8, 8, 9, 10]);
}

#[test]
fn migration_preserves_bytes_and_zeroes_the_tail() {
    let mut composed = FallbackAlloc {
        primary: Region::new(0x1000, 16),
        fallback: Region::new(0x100000, 1024),
    };
    let layout = Layout { size: 8, align: 1 };
    let memory = composed
        .allocate(layout, AllocInit::Uninitialized)
        .expect("Could not allocate 8 bytes");
    assert!(composed.primary.owns(memory));
    composed.write(memory.ptr, &vec![1u8, 2, 3, 4, 5, 6, 7, 8]);

    let moved = composed
        .grow(
            memory.ptr,
            layout,
            32,
            ReallocPlacement::MayMove,
            AllocInit::Zeroed,
        )
        .expect("Could not grow to 32 bytes");
    assert!(!composed.primary.owns(moved));
    assert!(composed.fallback.owns(moved));

    let bytes = composed.read(moved.ptr, Layout { size: 32, align: 1 });
    assert_eq!(&bytes[..8], &[1u8, 2, 3, 4, 5, 6, 7, 8]);
    assert_eq!(&bytes[8..], &[0u8; 24]);
}

#[test]
fn fallback_allocation_leaves_the_primary_untouched() {
    let mut composed = FallbackAlloc {
        primary: Region::new(0x1000, 32),
        fallback: Region::new(0x2000, 128),
    };
    let big = composed
        .allocate(Layout { size: 64, align: 1 }, AllocInit::Uninitialized)
        .expect("Could not allocate 64 bytes");
    assert!(composed.fallback.owns(big));
    assert_eq!(composed.primary.capacity_left(), 32);

    let small = composed
        .allocate(Layout { size: 32, align: 1 }, AllocInit::Uninitialized)
        .expect("Could not allocate 32 bytes");
    assert!(composed.primary.owns(small));
}

#[test]
fn in_place_grow_keeps_address_and_bytes() {
    let mut composed = FallbackAlloc {
        primary: Region::new(0x1000, 64),
        fallback: Region::new(0x2000, 128),
    };
    let layout = Layout { size: 4, align: 1 };
    let memory = composed
        .allocate(layout, AllocInit::Uninitialized)
        .expect("Could not allocate 4 bytes");
    composed.write(memory.ptr, &vec![9u8, 8, 7, 6]);

    let grown = composed
        .grow(
            memory.ptr,
            layout,
            16,
            ReallocPlacement::InPlace,
            AllocInit::Uninitialized,
        )
        .expect("Could not grow to 16 bytes");
    assert_eq!(grown.ptr, memory.ptr);
    assert!(composed.primary.owns(grown));
    let bytes = composed.read(grown.ptr, Layout { size: 16, align: 1 });
    assert_eq!(&bytes[..4], &[9u8, 8, 7, 6]);
}

#[test]
fn exhausted_allocators_report_an_error() {
    let mut composed = FallbackAlloc {
        primary: Region::new(0x1000, 8),
        fallback: Region::new(0x2000, 8),
    };
    let layout = Layout { size: 16, align: 1 };
    let result = composed.allocate(layout, AllocInit::Uninitialized);
    assert!(result.is_err());
}

#[test]
fn released_blocks_leave_no_dangling_ownership() {
    let mut composed = FallbackAlloc {
        primary: Region::new(0x1000, 32),
        fallback: Region::new(0x2000, 128),
    };
    let layout = Layout { size: 8, align: 1 };
    let memory = composed
        .allocate(layout, AllocInit::Uninitialized)
        .expect("Could not allocate 8 bytes");
    assert!(composed.owns(memory));
    composed.deallocate(memory.ptr, layout);
    assert!(!composed.owns(memory));

    let next_memory = composed
        .allocate(layout, AllocInit::Uninitialized)
        .expect("Could not allocate 8 bytes");
    assert!(composed.owns(next_memory));
    assert_ne!(next_memory.ptr, memory.ptr);
}

#[test]
fn alignment_is_respected() {
    let mut region = Region::new(0x1001, 64);
    let odd = region
        .allocate(Layout { size: 1, align: 1 }, AllocInit::Uninitialized)
        .expect("Could not allocate 1 byte");
    assert_eq!(odd.ptr % 1, 0);
    let aligned = region
        .allocate(Layout { size: 4, align: 8 }, AllocInit::Uninitialized)
        .expect("Could not allocate 4 bytes");
    assert_eq!(aligned.ptr % 8, 0);
    assert!(aligned.ptr > odd.ptr);
}

#[test]
fn bulk_operations_track_capacity() {
    let mut region = Region::new(0x1000, 32);
    assert_eq!(region.capacity(), 32);
    assert_eq!(region.capacity_left(), 32);
    assert!(region.is_empty());

    let layout = Layout { size: 8, align: 1 };
    let memory = region
        .allocate(layout, AllocInit::Uninitialized)
        .expect("Could not allocate 8 bytes");
    assert_eq!(region.capacity_left(), 24);
    assert!(!region.is_empty());

    let rest = region
        .allocate_all(layout, AllocInit::Uninitialized)
        .expect("Could not allocate the rest of the region");
    assert_eq!(rest.size, 24);
    assert!(region.is_full());
    assert!(region
        .allocate_all(layout, AllocInit::Uninitialized)
        .is_err());

    region.deallocate_all();
    assert!(region.is_empty());
    assert!(!region.owns(memory));
    assert_eq!(region.capacity_left(), 32);
}
