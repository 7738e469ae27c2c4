use agentenv::store::{align_up, check_file_len, BouncePool, Mmap, UbArena, ALLOC_ALIGN};

fn arena(size: usize) -> (UbArena, Vec<u8>) {
    (UbArena::new(Mmap { base: 0x10_0000, len: size }), vec![0u8; size])
}

fn pool(block_size: u64, blocks: u32) -> BouncePool {
    let total = BouncePool::total_len(block_size, blocks).expect("pool");
    BouncePool::new(Mmap { base: 0x20_0000, len: total as usize }, block_size, blocks)
}

#[test]
fn arena_bump_allocates_aligned_and_fails_when_full() {
    let (mut arena, _) = arena(16 * 1024);
    let first = arena.allocate(100).expect("first alloc");
    assert_eq!(first % ALLOC_ALIGN, 0);
    let second = arena.allocate(4096).expect("second alloc");
    assert_eq!(second, 4096);
    // 16 KiB arena: 4 KiB + 4 KiB used, another 16 KiB must fail.
    assert!(arena.allocate(16 * 1024).is_none());
}

#[test]
fn arena_write_then_read_back() {
    let (mut arena, mut memory) = arena(64 * 1024);
    let offset = arena.allocate(10).expect("alloc");
    arena.write(offset, b"hello-ub!!", &mut memory);
    assert_eq!(arena.map().read_at(offset, 10, &memory), b"hello-ub!!");
    arena.free(offset);
}

#[test]
fn bounce_pool_recycles_blocks() {
    let mut pool = pool(4096, 2);
    let a = pool.allocate().expect("block a");
    let b = pool.allocate().expect("block b");
    assert!(pool.allocate().is_none(), "pool of 2 must be exhausted");
    pool.free(a);
    let c = pool.allocate().expect("block c after free");
    assert_eq!(c, a);
    pool.free(b);
    pool.free(c);
}

#[test]
fn arena_fills_to_the_last_byte_and_no_further() {
    let (mut arena, _) = arena(3 * 4096);
    assert_eq!(arena.allocate(4097), Some(0));
    assert_eq!(arena.allocate(1), Some(2 * 4096));
    assert_eq!(arena.allocate(1), None);
    // An empty allocation takes no space and always fits.
    assert_eq!(arena.allocate(0), Some(3 * 4096));
}

#[test]
fn freeing_gives_no_arena_space_back() {
    let (mut arena, _) = arena(2 * 4096);
    let first = arena.allocate(4096).expect("first");
    let _second = arena.allocate(4096).expect("second");
    arena.free(first);
    assert_eq!(arena.allocate(1), None);
}

#[test]
fn arena_writes_leave_neighbours_alone() {
    let (mut arena, mut memory) = arena(8 * 4096);
    let first = arena.allocate(6).expect("first");
    arena.write(first, b"abcdef", &mut memory);
    let second = arena.allocate(3).expect("second");
    arena.write(second, b"xyz", &mut memory);
    assert_eq!(arena.map().read_at(first, 6, &memory), b"abcdef");
    assert_eq!(arena.map().read_at(second, 4, &memory), b"xyz\0");
}

#[test]
fn align_up_rounds_to_multiples() {
    assert_eq!(align_up(0, 4096), 0);
    assert_eq!(align_up(1, 4096), 4096);
    assert_eq!(align_up(4096, 4096), 4096);
    assert_eq!(align_up(4097, 4096), 8192);
    assert_eq!(align_up(10, 3), 12);
}

#[test]
fn bounce_blocks_come_lowest_first() {
    let mut pool = pool(4096, 3);
    assert_eq!(pool.allocate(), Some(0));
    assert_eq!(pool.allocate(), Some(4096));
    assert_eq!(pool.allocate(), Some(8192));
    assert_eq!(pool.allocate(), None);
    assert_eq!(pool.block_addr(8192), 0x20_0000 + 8192);
    assert_eq!(pool.map().len(), 3 * 4096);
}

#[test]
fn bounce_pool_size_overflow_is_noticed() {
    assert_eq!(BouncePool::total_len(u64::MAX, 2), None);
    assert_eq!(BouncePool::total_len(1 << 60, 15), Some(15 << 60));
    assert_eq!(BouncePool::total_len(1 << 60, 16), None);
}

#[test]
fn bounce_block_reads_its_own_bytes() {
    let pool = pool(4, 2);
    let memory = [1u8, 2, 3, 4, 5, 6, 7, 8];
    assert_eq!(pool.read_block(4, 3, &memory), vec![5, 6, 7]);
}

#[test]
fn lengths_beyond_any_page_exhaust_the_arena() {
    let mut arena = UbArena::new(Mmap { base: 0, len: 16 * 1024 });
    assert_eq!(arena.allocate(u64::MAX), None);
    assert_eq!(arena.allocate(u64::MAX - 4095), None);
    assert_eq!(arena.allocate(4096), Some(0));
}

#[test]
fn empty_files_are_not_mapped() {
    assert_eq!(check_file_len(b"/data/x", 0), Err("cannot map empty file /data/x".to_string()));
    assert_eq!(check_file_len(b"/data/x", 1), Ok(()));
    let (map, len) = Mmap::file_read_only(0x7000, 5);
    assert_eq!((map.base_addr(), map.len(), len), (0x7000, 5, 5));
    assert_eq!(map.read_at(0, 5, b"bytes"), b"bytes");
}
