use kazuos::heap::{alloc_request, align_up, grow_size, Heap, ARENA_SIZE, MAX_ARENAS};

#[test]
fn align_up_rounds_to_multiples() {
    assert_eq!(align_up(0, 8), 0);
    assert_eq!(align_up(1, 8), 8);
    assert_eq!(align_up(16, 8), 16);
    assert_eq!(align_up(4097, 4096), 8192);
}

#[test]
fn request_sizes() {
    // header 16 + size 10 + align 8 = 34, rounded to 40
    assert_eq!(alloc_request(10, 1), (40, 8));
    assert_eq!(alloc_request(10, 64), (96, 64));
    assert_eq!(grow_size(10), ARENA_SIZE);
    assert_eq!(grow_size(ARENA_SIZE + 1), ARENA_SIZE + 4096);
}

#[test]
fn free_blocks_coalesce() {
    let mut h = Heap::new();
    h.insert(0x1000, 0x100);
    h.insert(0x1200, 0x100);
    assert_eq!(h.free_blocks().clone(), vec![(0x1000, 0x100), (0x1200, 0x100)]);
    // fills the gap: all three merge
    h.insert(0x1100, 0x100);
    assert_eq!(h.free_blocks().clone(), vec![(0x1000, 0x300)]);
    // in front, touching: merges with the next block
    h.insert(0x0f00, 0x100);
    assert_eq!(h.free_blocks().clone(), vec![(0x0f00, 0x400)]);
}

#[test]
fn take_is_first_fit_and_splits() {
    let mut h = Heap::new();
    h.insert(0x1000, 0x20);
    h.insert(0x2000, 0x1000);
    let g = h.take(0x40, 16, 8).unwrap();
    assert_eq!((g.block_addr, g.block_size, g.user), (0x2000, 0x40, 0x2010));
    assert_eq!(h.free_blocks().clone(), vec![(0x1000, 0x20), (0x2040, 0xfc0)]);
    // a remainder smaller than a list node goes with the block
    let g = h.take(0x18, 16, 8).unwrap();
    assert_eq!((g.block_addr, g.block_size), (0x1000, 0x20));
    assert_eq!(h.free_blocks().clone(), vec![(0x2040, 0xfc0)]);
    assert!(h.take(0x2000, 16, 8).is_none());
}

#[test]
fn aligned_user_address() {
    let mut h = Heap::new();
    h.insert(0x1008, 0x200);
    let g = h.take(0x80, 16, 64).unwrap();
    assert_eq!(g.user, 0x1040);
    assert!(g.user >= g.block_addr + 16);
}

#[test]
fn empty_arenas_are_handed_back() {
    let mut h = Heap::new();
    h.add_arena(0x10000, ARENA_SIZE);
    let g = h.take(0x100, 16, 8).unwrap();
    assert!(h.release_empty_arenas().is_empty());
    let back = h.dealloc(g.block_addr, g.block_size);
    assert_eq!(back, vec![0x10000]);
    assert!(h.free_blocks().is_empty());
    // the slot is free again; a whole free arena goes back at the next free
    h.add_arena(0x40000, 0x1000);
    let back = h.dealloc(0x50000, 0x10);
    assert_eq!(back, vec![0x40000]);
    assert_eq!(h.free_blocks().clone(), vec![(0x50000, 0x10)]);
    assert_eq!(MAX_ARENAS, 1024);
}
