use agentenv::buffer_pool::{FixedBufferPool, SlabSlice};

#[test]
fn recycles_buffers_across_acquire_drop_cycles() {
    let mut pool = FixedBufferPool::new(4096, 2);
    assert_eq!(pool.size(), 4096);
    for round in 0u8..10 {
        let mut buffer = FixedBufferPool::acquire(&mut pool);
        buffer.as_mut().fill(round);
        assert_eq!(buffer.as_ref().len(), 4096);
        FixedBufferPool::release(&mut pool, buffer);
    }
    assert_eq!(pool.allocations(), 1);
}

#[test]
fn retains_at_most_cap_idle_buffers() {
    let mut pool = FixedBufferPool::new(64, 2);
    let a = FixedBufferPool::acquire(&mut pool);
    let b = FixedBufferPool::acquire(&mut pool);
    let c = FixedBufferPool::acquire(&mut pool);
    assert_eq!(pool.allocations(), 3);
    FixedBufferPool::release(&mut pool, a);
    FixedBufferPool::release(&mut pool, b);
    FixedBufferPool::release(&mut pool, c);
    // Two recycled, the third released: the first two acquires hit and only
    // the third misses.
    let _first = FixedBufferPool::acquire(&mut pool);
    let _second = FixedBufferPool::acquire(&mut pool);
    assert_eq!(pool.allocations(), 3);
    let _third = FixedBufferPool::acquire(&mut pool);
    assert_eq!(pool.allocations(), 4);
}

#[test]
fn slices_share_bytes_and_recycle_on_last_drop() {
    let mut pool = FixedBufferPool::new(4096, 1);
    let mut buffer = FixedBufferPool::acquire(&mut pool);
    buffer
        .as_mut()
        .copy_from_slice(&(0..=255u8).cycle().take(4096).collect::<Vec<_>>());

    let whole = buffer.into_slice(&mut pool);
    let head = whole.slice(&mut pool, 0..2048);
    let tail = whole.slice(&mut pool, 2048..4096);
    let sub = tail.slice(&mut pool, 0..4);
    assert_eq!(&head.bytes(&pool)[..4], &[0, 1, 2, 3]);
    // tail starts at byte 2048, which is 0 modulo 256.
    assert_eq!(sub.bytes(&pool), &[0, 1, 2, 3]);
    whole.release(&mut pool);

    // Slice handles dropped but references keep the memory alive: the pool
    // stays empty and a fresh acquire allocates.
    let _next = FixedBufferPool::acquire(&mut pool);
    assert_eq!(pool.allocations(), 2);

    head.release(&mut pool);
    tail.release(&mut pool);
    sub.release(&mut pool);
    let _reused = FixedBufferPool::acquire(&mut pool);
    assert_eq!(pool.allocations(), 2, "last reference drop must recycle");
}

#[test]
fn from_vec_does_not_recycle_into_any_pool() {
    let mut pool = FixedBufferPool::new(16, 2);
    let slice = SlabSlice::from_vec(&mut pool, vec![7u8; 16]);
    assert_eq!(slice.bytes(&pool), &[7u8; 16]);
    assert_eq!(slice.len(), 16);
    slice.release(&mut pool);
    let _miss = FixedBufferPool::acquire(&mut pool);
    assert_eq!(pool.allocations(), 1);
}

#[test]
fn recycled_buffer_keeps_its_old_bytes() {
    let mut pool = FixedBufferPool::new(4, 1);
    let mut buffer = FixedBufferPool::acquire(&mut pool);
    assert_eq!(buffer.as_ref(), &[0, 0, 0, 0]);
    buffer.as_mut().copy_from_slice(&[1, 2, 3, 4]);
    FixedBufferPool::release(&mut pool, buffer);
    let again = FixedBufferPool::acquire(&mut pool);
    assert_eq!(again.as_ref(), &[1, 2, 3, 4]);
}

#[test]
fn empty_slices_are_empty() {
    let mut pool = FixedBufferPool::new(8, 1);
    let whole = FixedBufferPool::acquire(&mut pool).into_slice(&mut pool);
    let none = whole.slice(&mut pool, 3..3);
    assert!(none.is_empty());
    assert!(!whole.is_empty());
    assert_eq!(none.bytes(&pool), &[] as &[u8]);
    whole.release(&mut pool);
    none.release(&mut pool);
    let _back = FixedBufferPool::acquire(&mut pool);
    assert_eq!(pool.allocations(), 1);
}

#[test]
fn zero_cap_pool_never_recycles() {
    let mut pool = FixedBufferPool::new(8, 0);
    for _ in 0..3 {
        let buffer = FixedBufferPool::acquire(&mut pool);
        FixedBufferPool::release(&mut pool, buffer);
    }
    assert_eq!(pool.allocations(), 3);
}

#[test]
fn slices_of_two_slabs_do_not_mix() {
    let mut pool = FixedBufferPool::new(4, 2);
    let mut first = FixedBufferPool::acquire(&mut pool);
    first.as_mut().fill(1);
    let mut second = FixedBufferPool::acquire(&mut pool);
    second.as_mut().fill(2);
    let first = first.into_slice(&mut pool);
    let second = second.into_slice(&mut pool);
    let kept = second.slice(&mut pool, 1..3);
    first.release(&mut pool);
    second.release(&mut pool);
    assert_eq!(kept.bytes(&pool), &[2, 2]);
}

#[test]
fn sliced_buffers_are_not_idle_even_when_empty() {
    let mut pool = FixedBufferPool::new(0, 1);
    let slice = FixedBufferPool::acquire(&mut pool).into_slice(&mut pool);
    assert_eq!(pool.allocations(), 1);
    let _miss = FixedBufferPool::acquire(&mut pool);
    assert_eq!(pool.allocations(), 2);
    slice.release(&mut pool);
    let _hit = FixedBufferPool::acquire(&mut pool);
    assert_eq!(pool.allocations(), 2);
}

#[test]
fn memory_of_another_size_is_let_go() {
    let mut pool = FixedBufferPool::new(4, 2);
    pool.push(vec![1u8; 5]);
    let _miss = FixedBufferPool::acquire(&mut pool);
    assert_eq!(pool.allocations(), 1);
    pool.push(vec![7u8; 4]);
    assert_eq!(FixedBufferPool::acquire(&mut pool).as_ref(), &[7u8; 4]);
    assert_eq!(pool.allocations(), 1);
}

#[test]
fn sub_slices_compose() {
    let mut pool = FixedBufferPool::new(8, 1);
    let whole = SlabSlice::from_vec(&mut pool, (0u8..8).collect());
    let outer = whole.slice(&mut pool, 2..7);
    let inner = outer.slice(&mut pool, 1..4);
    let direct = whole.slice(&mut pool, 3..6);
    let all = whole.slice(&mut pool, 0..8);
    assert_eq!(inner.bytes(&pool), &[3, 4, 5]);
    assert_eq!(inner.bytes(&pool), direct.bytes(&pool));
    assert_eq!(all.bytes(&pool), whole.bytes(&pool));
}
