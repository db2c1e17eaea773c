use mxrox::heap::{memcpy, memset, FreeBlock, FreeListAllocator};

fn block(addr: usize, size: usize) -> FreeBlock {
    FreeBlock { addr, size }
}

#[test]
fn new_allocator_is_empty_and_refuses() {
    let mut a = FreeListAllocator::new();
    assert_eq!(a.blocks(), vec![]);
    assert_eq!(a.heap_start(), 0);
    assert_eq!(a.heap_end(), 0);
    assert_eq!(a.allocate(8, 8), None);
}

#[test]
fn init_makes_one_block() {
    let mut a = FreeListAllocator::new();
    a.init(0x1000, 0x100);
    assert_eq!(a.blocks(), vec![block(0x1000, 0x100)]);
    assert_eq!(a.heap_start(), 0x1000);
    assert_eq!(a.heap_end(), 0x1100);
}

#[test]
fn allocation_starts_past_header_and_splits_block() {
    let mut a = FreeListAllocator::new();
    a.init(0x1000, 0x100);
    assert_eq!(a.allocate(16, 8), Some(0x1010));
    assert_eq!(a.blocks(), vec![block(0x1020, 0xE0)]);
}

#[test]
fn allocation_that_uses_block_to_end_removes_it() {
    let mut a = FreeListAllocator::new();
    a.init(0x1000, 0x100);
    assert_eq!(a.allocate(16, 8), Some(0x1010));
    assert_eq!(a.allocate(0xD0, 8), Some(0x1030));
    assert_eq!(a.blocks(), vec![]);
    assert_eq!(a.allocate(1, 1), None);
}

#[test]
fn allocation_is_aligned() {
    let mut a = FreeListAllocator::new();
    a.init(0x1000, 0x1000);
    let p = a.allocate(16, 64).unwrap();
    assert_eq!(p, 0x1040);
    assert_eq!(p % 64, 0);
    assert_eq!(a.blocks(), vec![block(0x1050, 0xFB0)]);
}

#[test]
fn remainder_of_header_size_is_dropped() {
    let mut a = FreeListAllocator::new();
    a.init(0x1000, 0x30);
    assert_eq!(a.allocate(16, 8), Some(0x1010));
    assert_eq!(a.blocks(), vec![]);
}

#[test]
fn remainder_larger_than_header_is_kept() {
    let mut a = FreeListAllocator::new();
    a.init(0x1000, 0x40);
    assert_eq!(a.allocate(16, 8), Some(0x1010));
    assert_eq!(a.blocks(), vec![block(0x1020, 0x20)]);
}

#[test]
fn allocation_too_large_fails_and_keeps_list() {
    let mut a = FreeListAllocator::new();
    a.init(0x1000, 0x20);
    assert_eq!(a.allocate(32, 8), None);
    assert_eq!(a.blocks(), vec![block(0x1000, 0x20)]);
}

#[test]
fn dealloc_pushes_block_at_head() {
    let mut a = FreeListAllocator::new();
    a.init(0x1000, 0x100);
    let p = a.allocate(16, 8).unwrap();
    a.dealloc(p, 16, 8);
    assert_eq!(a.blocks(), vec![block(0x1010, 16), block(0x1020, 0xE0)]);
}

#[test]
fn first_fit_skips_blocks_too_small_for_header() {
    let mut a = FreeListAllocator::new();
    a.init(0x1000, 0x100);
    let p = a.allocate(16, 8).unwrap();
    a.dealloc(p, 16, 8);
    assert_eq!(a.allocate(16, 8), Some(0x1030));
    assert_eq!(a.blocks(), vec![block(0x1010, 16), block(0x1040, 0xC0)]);
}

#[test]
fn first_fit_takes_head_block_when_it_fits() {
    let mut a = FreeListAllocator::new();
    a.init(0x1000, 0x200);
    let p = a.allocate(64, 8).unwrap();
    assert_eq!(p, 0x1010);
    a.dealloc(p, 64, 8);
    assert_eq!(a.blocks(), vec![block(0x1010, 64), block(0x1050, 0x1B0)]);
    assert_eq!(a.allocate(16, 8), Some(0x1020));
    assert_eq!(a.blocks(), vec![block(0x1030, 0x20), block(0x1050, 0x1B0)]);
}

#[test]
fn can_allocate_reports_address_overflow() {
    let mut a = FreeListAllocator::new();
    a.init(usize::MAX - 0x20, 0x20);
    assert!(a.can_allocate(8, 8));
    assert!(!a.can_allocate(8, 1usize << 63));
    assert_eq!(a.allocate(8, 8), Some(usize::MAX - 15));
    assert_eq!(a.blocks(), vec![]);
}

#[test]
fn memcpy_copies_prefix() {
    let mut dest = [0u8; 5];
    memcpy(&mut dest, &[1, 2, 3, 4], 3);
    assert_eq!(dest, [1, 2, 3, 0, 0]);
}

#[test]
fn memset_uses_low_byte() {
    let mut dest = [9u8; 4];
    memset(&mut dest, 0x1FF, 2);
    assert_eq!(dest, [0xFF, 0xFF, 9, 9]);
    memset(&mut dest, -2, 4);
    assert_eq!(dest, [0xFE, 0xFE, 0xFE, 0xFE]);
}

fn free_bytes(a: &FreeListAllocator) -> usize {
    a.blocks().iter().map(|b| b.size).sum()
}

#[test]
fn allocation_takes_at_least_its_size_and_free_gives_it_back() {
    let mut a = FreeListAllocator::new();
    a.init(0x1000, 0x400);
    let before = free_bytes(&a);
    let p = a.allocate(40, 32).unwrap();
    let after = free_bytes(&a);
    assert!(after + 40 <= before);
    assert_eq!(after, 0x1400 - (p + 40));
    a.dealloc(p, 40, 32);
    assert_eq!(free_bytes(&a), after + 40);
    assert!(free_bytes(&a) <= before);
}

#[test]
fn allocations_lie_in_heap_and_do_not_overlap_free_blocks() {
    let mut a = FreeListAllocator::new();
    a.init(0x4000, 0x300);
    let mut taken = vec![];
    for (size, align) in [(10usize, 1usize), (33, 16), (64, 64), (7, 4)] {
        let p = a.allocate(size, align).unwrap();
        assert_eq!(p % align, 0);
        assert!(p >= 0x4000 + 16 && p + size <= 0x4300);
        for b in a.blocks() {
            assert!(p + size <= b.addr || b.addr + b.size <= p);
        }
        for &(q, n) in &taken {
            assert!(p + size <= q || q + n <= p);
        }
        taken.push((p, size));
    }
}
