use boot_core::allocator::Allocator;
use boot_core::frame_allocator::FrameAllocator;
use boot_core::memory_map::{count_descriptors, get_free_memory, read_memory_map, MemoryDescriptor,
    MemoryKind};

fn desc(kind: MemoryKind, base: u64, pages: u64, att: u64) -> MemoryDescriptor {
    MemoryDescriptor { kind, phys_start: base, virt_start: 0, page_count: pages, att }
}

#[test]
fn merge_contiguous_same_attributes() {
    let input = vec![
        desc(MemoryKind::Conventional, 0x1000, 1, 0xA),
        desc(MemoryKind::Conventional, 0x2000, 1, 0xA),
    ];
    let out = get_free_memory(input);
    assert_eq!(out.len(), 1);
    assert_eq!(out[0].phys_start, 0x1000);
    assert_eq!(out[0].page_count, 2);
    assert_eq!(out[0].att, 0xA);
    assert_eq!(out[0].kind, MemoryKind::Conventional);
}

#[test]
fn no_merge_on_differing_attributes() {
    let input = vec![
        desc(MemoryKind::Conventional, 0x1000, 1, 0xA),
        desc(MemoryKind::Conventional, 0x2000, 1, 0xB),
    ];
    let out = get_free_memory(input);
    assert_eq!(out.len(), 2);
    assert_eq!(out[0].page_count, 1);
    assert_eq!(out[1].phys_start, 0x2000);
}

#[test]
fn no_merge_on_gap() {
    let input = vec![
        desc(MemoryKind::Conventional, 0x1000, 1, 0),
        desc(MemoryKind::Conventional, 0x3000, 1, 0),
    ];
    let out = get_free_memory(input);
    assert_eq!(out.len(), 2);
    assert_eq!(out[0].phys_start, 0x1000);
    assert_eq!(out[1].phys_start, 0x3000);
}

#[test]
fn boot_services_memory_is_reclaimed_as_conventional() {
    let input = vec![
        desc(MemoryKind::BootServicesCode, 0x1000, 2, 0),
        desc(MemoryKind::BootServicesData, 0x3000, 1, 0),
    ];
    let out = get_free_memory(input);
    assert_eq!(out.len(), 1);
    assert_eq!(out[0].kind, MemoryKind::Conventional);
    assert_eq!(out[0].page_count, 3);
}

#[test]
fn non_reusable_descriptors_are_dropped() {
    let input = vec![
        desc(MemoryKind::Reserved, 0x1000, 4, 0),
        desc(MemoryKind::Conventional, 0x5000, 1, 0),
        desc(MemoryKind::Mmio, 0x6000, 2, 0),
        desc(MemoryKind::Unusable, 0x8000, 1, 0),
    ];
    let out = get_free_memory(input);
    assert_eq!(out.len(), 1);
    assert_eq!(out[0].phys_start, 0x5000);
    assert_eq!(out[0].page_count, 1);
}

#[test]
fn empty_map_gives_no_extents() {
    let out = get_free_memory(Vec::new());
    assert!(out.is_empty());
}

#[test]
fn reconcile_is_idempotent_on_example() {
    let input = vec![
        desc(MemoryKind::Conventional, 0x1000, 1, 0),
        desc(MemoryKind::Conventional, 0x2000, 2, 0),
        desc(MemoryKind::Reserved, 0x4000, 1, 0),
        desc(MemoryKind::BootServicesData, 0x9000, 1, 7),
    ];
    let once = get_free_memory(input);
    let twice = get_free_memory(once.clone());
    assert_eq!(once.len(), twice.len());
    for (a, b) in once.iter().zip(twice.iter()) {
        assert_eq!(a, b);
    }
}

#[test]
fn reconcile_conserves_reusable_pages() {
    let input = vec![
        desc(MemoryKind::Conventional, 0x1000, 3, 0),
        desc(MemoryKind::Reserved, 0x4000, 9, 0),
        desc(MemoryKind::BootServicesCode, 0x10000, 5, 0),
        desc(MemoryKind::Conventional, 0x15000, 2, 0),
    ];
    let out = get_free_memory(input);
    let total: u64 = out.iter().map(|d| d.page_count).sum();
    assert_eq!(total, 10);
}

#[test]
fn descriptor_counts_by_kind() {
    let input = vec![
        desc(MemoryKind::Reserved, 0x1000, 1, 0),
        desc(MemoryKind::Conventional, 0x2000, 1, 0),
        desc(MemoryKind::Conventional, 0x9000, 1, 0),
        desc(MemoryKind::Mmio, 0x20000, 1, 0),
    ];
    let counts = count_descriptors(&input);
    assert_eq!(counts.len(), 15);
    assert_eq!(counts[0], 1); // reserved
    assert_eq!(counts[7], 2); // conventional
    assert_eq!(counts[11], 1); // memory-mapped device space
    assert_eq!(counts[8], 0); // unusable
    let again = read_memory_map(&input);
    assert_eq!(counts, again);
}

#[test]
fn first_reclaimed_frame_bootstraps_the_allocator() {
    let mut fa = FrameAllocator::new();
    fa.reclaim(&desc(MemoryKind::Conventional, 0x4000, 3, 0));
    // The first page went to the allocator's own storage, two remain.
    assert_eq!(fa.allocate_frame(), Some(0x5000));
    assert_eq!(fa.allocate_frame(), Some(0x6000));
    assert_eq!(fa.allocate_frame(), None);
}

#[test]
fn frame_exhaustion_counts_exactly() {
    let mut fa = FrameAllocator::new();
    fa.reclaim(&desc(MemoryKind::Conventional, 0x10000, 5, 0));
    // Five pages reclaimed, one consumed by bootstrap: four servable.
    for _ in 0..4 {
        assert!(fa.allocate_frame().is_some());
    }
    assert_eq!(fa.allocate_frame(), None);
    assert_eq!(fa.allocate_frame(), None);
}

#[test]
fn later_reclaims_add_every_page() {
    let mut fa = FrameAllocator::new();
    fa.reclaim(&desc(MemoryKind::Conventional, 0x1000, 2, 0));
    fa.reclaim(&desc(MemoryKind::Conventional, 0x8000, 2, 0));
    // 1 + 2 frames servable: page two of the first region, both of the second.
    assert_eq!(fa.allocate_frame(), Some(0x2000));
    assert_eq!(fa.allocate_frame(), Some(0x8000));
    assert_eq!(fa.allocate_frame(), Some(0x9000));
    assert_eq!(fa.allocate_frame(), None);
}

#[test]
fn init_reclaims_only_conventional_memory() {
    let map = vec![
        desc(MemoryKind::Reserved, 0x1000, 8, 0),
        desc(MemoryKind::Conventional, 0x10000, 2, 0),
        desc(MemoryKind::Mmio, 0x20000, 4, 0),
    ];
    let mut fa = FrameAllocator::new();
    fa.init(&map);
    assert_eq!(fa.allocate_frame(), Some(0x11000));
    assert_eq!(fa.allocate_frame(), None);
}

#[test]
fn reclaim_type_filters_by_kind() {
    let map = vec![
        desc(MemoryKind::BootServicesData, 0x10000, 2, 0),
        desc(MemoryKind::Conventional, 0x30000, 1, 0),
    ];
    let mut fa = FrameAllocator::new();
    fa.reclaim_type(&map, MemoryKind::BootServicesData);
    assert_eq!(fa.allocate_frame(), Some(0x11000));
    assert_eq!(fa.allocate_frame(), None);
}

#[test]
fn alloc_prefers_exact_size_match() {
    let mut a = Allocator::new();
    let mut fa = FrameAllocator::new();
    fa.reclaim(&desc(MemoryKind::Conventional, 0x100000, 3, 0));
    // Nothing is pooled yet: the first request carves a fresh frame.
    let first = a.allocate(&mut fa, 64).unwrap();
    assert_eq!(first, 0x101000);
    // 32 bytes is served by splitting the first frame's remainder.
    let second = a.allocate(&mut fa, 32).unwrap();
    assert_eq!(second, 0x101000 + 64);
    // An exact-size region is preferred over splitting: hand the
    // 32-byte carve back and ask again.
    assert!(a.dealloc(second, 32));
    assert_eq!(a.allocate(&mut fa, 32), Some(second));
}

#[test]
fn alloc_splits_smallest_fitting_region() {
    let mut a = Allocator::new();
    let mut fa = FrameAllocator::new();
    fa.reclaim(&desc(MemoryKind::Conventional, 0x200000, 2, 0));
    let base = a.allocate(&mut fa, 4096).unwrap();
    assert_eq!(base, 0x201000);
    // The frame was handed out whole: no remainder region serves this.
    assert_eq!(a.allocate(&mut fa, 16), None);
}

#[test]
fn alloc_fails_when_no_frames_remain() {
    let mut a = Allocator::new();
    let mut fa = FrameAllocator::new();
    assert_eq!(a.allocate(&mut fa, 100), None);
}

#[test]
fn dealloc_recycles_exact_match_only() {
    let mut a = Allocator::new();
    let mut fa = FrameAllocator::new();
    fa.reclaim(&desc(MemoryKind::Conventional, 0x300000, 3, 0));
    let p = a.allocate(&mut fa, 64).unwrap();
    // A frame carve is never recorded as an allocation, so handing it
    // back is swallowed and counted: a known gap of this design.
    assert!(!a.dealloc(p, 64));
    assert_eq!(a.missed_free_events(), 1);
    // A split of a free region is recorded and can be recycled.
    let q = a.allocate(&mut fa, 32).unwrap();
    assert_eq!(q, p + 64);
    assert!(a.dealloc(q, 32));
    assert_eq!(a.missed_free_events(), 1);
    assert_eq!(a.allocate(&mut fa, 32), Some(q));
}

#[test]
fn dealloc_of_unknown_region_is_counted() {
    let mut a = Allocator::new();
    assert!(!a.dealloc(0xdead000, 16));
    assert!(!a.dealloc(0xdead000, 16));
    assert_eq!(a.missed_free_events(), 2);
}
