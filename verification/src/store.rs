//! Registered-memory arenas backing published artifacts and read bounce
//! buffers.
//!
//! Both sides of a one-sided read must live inside registered regions, so the
//! transport keeps two page-aligned mappings registered once at startup:
//!
//! - [`UbArena`] is a bump arena holding published artifacts that arrived as
//!   bytes. Bump allocation never reclaims space; capacity exhaustion fails
//!   the publish, and the arena is reset by process restarts.
//! - [`BouncePool`] is a fixed-size block pool of short-lived destination
//!   buffers for remote reads. Blocks are exactly one slice, so free and
//!   reuse are trivial.
//!
//! A mapping is known here by its address and length; the operations that
//! move bytes take the mapping's memory as a slice.
use crate::paths::with_path;
use std::collections::HashMap;
use vstd::prelude::*;

verus! {

broadcast use {vstd::std_specs::hash::group_hash_axioms, vstd::slice::group_slice_axioms};

/// Page-alignment applied to arena allocations so every published region
/// starts on a page boundary inside the registered arena.
pub const ALLOC_ALIGN: u64 = 4096;

/// A memory mapping.
#[derive(Debug, Clone, Copy)]
pub struct Mmap {
    /// Address of the first byte.
    pub base: u64,
    /// Length in bytes.
    pub len: usize,
}

/// Why a file of the given length cannot be mapped, apart from what the
/// system finds.
pub open spec fn map_refusal(path: Seq<u8>, len: u64) -> Option<Seq<char>> {
    if len == 0 {
        Some("cannot map empty file "@ + crate::text::utf8_lossy(path))
    } else {
        None
    }
}

/// Check the length of a file that is to be mapped: an empty one cannot be.
pub fn check_file_len(path: &[u8], len: u64) -> (checked: Result<(), String>)
    ensures
        match checked {
            Ok(()) => map_refusal(path@, len) is None && len > 0,
            Err(text) => len == 0 && map_refusal(path@, len) == Some(text@),
        },
{
    if len == 0 {
        return Err(with_path("cannot map empty file ", path));
    }
    Ok(())
}

impl Mmap {
    /// The read-only mapping of a whole file of `len` bytes that the system
    /// placed at `base`, and its length.
    pub fn file_read_only(base: u64, len: u64) -> (mapped: (Self, u64))
        requires
            len <= usize::MAX,
        ensures
            mapped.0 == (Mmap { base, len: len as usize }),
            mapped.0.len == len,
            mapped.1 == len,
    {
        (Mmap { base, len: len as usize }, len)
    }

    /// Address of the first byte.
    pub fn base_addr(&self) -> (addr: u64)
        ensures
            addr == self.base,
    {
        self.base
    }

    /// Length in bytes.
    pub fn len(&self) -> (len: usize)
        ensures
            len == self.len,
    {
        self.len
    }

    /// Copy `len` bytes out of the mapping starting at `offset`. `memory` is
    /// the mapping's memory.
    pub fn read_at(&self, offset: u64, len: usize, memory: &[u8]) -> (data: Vec<u8>)
        requires
            memory@.len() == self.len,
            offset + len <= self.len,
        ensures
            data@ == memory@.subrange(offset as int, offset + len),
    {
        let start: usize = offset as usize;
        let mut data: Vec<u8> = Vec::with_capacity(len);
        let mut i: usize = 0;
        while i < len
            invariant
                i <= len,
                start == offset,
                start + len <= memory@.len(),
                memory@.len() <= usize::MAX,
                data@ == memory@.subrange(start as int, start + i),
            decreases len - i,
        {
            data.push(memory[start + i]);
            assert(data@ =~= memory@.subrange(start as int, start + i + 1));
            i = i + 1;
        }
        data
    }

    /// Copy `data` into the mapping starting at `offset`. `memory` is the
    /// mapping's memory.
    pub fn write_at(&self, offset: u64, data: &[u8], memory: &mut [u8])
        requires
            old(memory)@.len() == self.len,
            offset + data@.len() <= self.len,
        ensures
            final(memory)@ == old(memory)@.take(offset as int) + data@ + old(memory)@.skip(
                offset + data@.len(),
            ),
    {
        let start: usize = offset as usize;
        let ghost before = memory@;
        let mut i: usize = 0;
        while i < data.len()
            invariant
                i <= data@.len(),
                start == offset,
                memory@.len() == before.len() == self.len,
                start + data@.len() <= before.len(),
                memory@ == before.take(start as int) + data@.take(i as int) + before.skip(
                    start + i,
                ),
            decreases data@.len() - i,
        {
            memory[start + i] = data[i];
            assert(memory@ =~= before.take(start as int) + data@.take(i + 1) + before.skip(
                start + i + 1,
            ));
            i = i + 1;
        }
        assert(data@.take(data@.len() as int) =~= data@);
    }
}

/// The smallest multiple of `align` that is at least `value`.
pub open spec fn aligned(value: int, align: int) -> int {
    ((value + align - 1) / align) * align
}

/// Round `value` up to a multiple of `align`.
pub fn align_up(value: u64, align: u64) -> (rounded: u64)
    requires
        align > 0,
        aligned(value as int, align as int) <= u64::MAX,
    ensures
        rounded == aligned(value as int, align as int),
        rounded % align == 0,
        value <= rounded < value + align,
{
    let quotient: u64 = value / align;
    let remainder: u64 = value % align;
    proof {
        lemma_aligned(value as int, align as int);
    }
    if remainder == 0 {
        value
    } else {
        value + (align - remainder)
    }
}

/// Rounding up in terms of the remainder: the least multiple that is not
/// smaller.
pub proof fn lemma_aligned(value: int, align: int)
    requires
        value >= 0,
        align > 0,
    ensures
        aligned(value, align) == (if value % align == 0 {
            value
        } else {
            value + align - value % align
        }),
        aligned(value, align) % align == 0,
        value <= aligned(value, align) < value + align,
{
    let quotient = value / align;
    let remainder = value % align;
    vstd::arithmetic::div_mod::lemma_fundamental_div_mod(value, align);
    vstd::arithmetic::div_mod::lemma_mod_bound(value, align);
    if remainder == 0 {
        vstd::arithmetic::div_mod::lemma_fundamental_div_mod_converse(
            value + align - 1,
            align,
            quotient,
            align - 1,
        );
    } else {
        assert(value + align - 1 == align * (quotient + 1) + (remainder - 1)) by (nonlinear_arith)
            requires
                value == align * quotient + remainder,
        ;
        vstd::arithmetic::div_mod::lemma_fundamental_div_mod_converse(
            value + align - 1,
            align,
            quotient + 1,
            remainder - 1,
        );
        assert((quotient + 1) * align == align * quotient + align) by (nonlinear_arith);
    }
    let count = (value + align - 1) / align;
    vstd::arithmetic::div_mod::lemma_mod_multiples_basic(count, align);
    assert(quotient * align == align * quotient) by (nonlinear_arith);
}

/// Bump allocator over the registered publish arena.
#[derive(Debug)]
pub struct UbArena {
    map: Mmap,
    cursor: u64,
    /// Live allocations (offset to size), retained for unpublish bookkeeping.
    live: HashMap<u64, u64>,
}

/// The arena, as the model sees it.
#[verifier::ext_equal]
pub ghost struct ArenaView {
    pub map: Mmap,
    /// Where the next allocation starts.
    pub cursor: nat,
    /// Live allocations: offset to size.
    pub live: Map<u64, u64>,
}

impl View for UbArena {
    type V = ArenaView;

    closed spec fn view(&self) -> ArenaView {
        ArenaView { map: self.map, cursor: self.cursor as nat, live: self.live@ }
    }
}

impl ArenaView {
    /// Live allocations start at page boundaries, lie below the cursor and do
    /// not overlap; the cursor lies within the mapping, at a page boundary.
    pub open spec fn inv(self) -> bool {
        &&& self.cursor <= self.map.len
        &&& self.cursor % (ALLOC_ALIGN as nat) == 0
        &&& forall|offset: u64| #[trigger]
            self.live.contains_key(offset) ==> {
                &&& offset % ALLOC_ALIGN == 0
                &&& offset + self.live[offset] <= self.cursor
            }
        &&& forall|a: u64, b: u64|
            #![trigger self.live.contains_key(a), self.live.contains_key(b)]
            self.live.contains_key(a) && self.live.contains_key(b) && a < b ==> a + self.live[a]
                <= b
    }

    /// Whether `len` more bytes fit.
    pub open spec fn fits(self, len: u64) -> bool {
        self.cursor + aligned(len as int, ALLOC_ALIGN as int) <= self.map.len
    }

    /// The arena after `len` bytes have been allocated at the cursor.
    pub open spec fn allocated(self, len: u64) -> ArenaView {
        let size = aligned(len as int, ALLOC_ALIGN as int);
        ArenaView {
            cursor: (self.cursor + size) as nat,
            live: self.live.insert(self.cursor as u64, size as u64),
            ..self
        }
    }
}

impl UbArena {
    /// An empty arena over a mapping.
    pub fn new(map: Mmap) -> (arena: Self)
        ensures
            arena@ == (ArenaView { map, cursor: 0, live: Map::empty() }),
            arena@.inv(),
    {
        let arena = UbArena { map, cursor: 0, live: HashMap::new() };
        assert(arena@.live =~= Map::empty());
        arena
    }

    /// The mapping that the arena hands out.
    pub fn map(&self) -> (map: &Mmap)
        ensures
            *map == self@.map,
    {
        &self.map
    }

    /// Allocate `len` bytes, returning the arena offset (page-aligned). `None`
    /// when the arena is exhausted, which a length that cannot be rounded up
    /// to a page always finds.
    pub fn allocate(&mut self, len: u64) -> (offset: Option<u64>)
        requires
            old(self)@.inv(),
        ensures
            match offset {
                Some(offset) => {
                    &&& old(self)@.fits(len)
                    &&& offset == old(self)@.cursor
                    &&& offset % ALLOC_ALIGN == 0
                    &&& offset + len <= old(self)@.map.len
                    &&& final(self)@ == old(self)@.allocated(len)
                },
                None => !old(self)@.fits(len) && final(self)@ == old(self)@,
            },
            final(self)@.inv(),
    {
        let ghost before = self@;
        proof {
            lemma_aligned(len as int, ALLOC_ALIGN as int);
        }
        if len > u64::MAX - (ALLOC_ALIGN - 1) {
            return None;
        }
        let size: u64 = align_up(len, ALLOC_ALIGN);
        let offset: u64 = self.cursor;
        let end: u64 = match offset.checked_add(size) {
            Some(end) => end,
            None => {
                return None;
            },
        };
        if end > self.map.len() as u64 {
            return None;
        }
        self.cursor = end;
        self.live.insert(offset, size);
        proof {
            assert(self@ =~= before.allocated(len));
            let after = self@;
            assert forall|a: u64, b: u64|
                #![trigger after.live.contains_key(a), after.live.contains_key(b)]
                after.live.contains_key(a) && after.live.contains_key(b) && a < b implies a
                + after.live[a] <= b by {
                if b == offset {
                    assert(before.live.contains_key(a));
                } else {
                    assert(before.live.contains_key(b));
                }
            }
        }
        Some(offset)
    }

    /// Release a previous allocation. The bump arena does not reclaim the
    /// space; this only updates bookkeeping.
    pub fn free(&mut self, offset: u64)
        requires
            old(self)@.inv(),
        ensures
            final(self)@ == (ArenaView { live: old(self)@.live.remove(offset), ..old(self)@ }),
            final(self)@.inv(),
    {
        let ghost before = self@;
        self.live.remove(&offset);
        assert(self@.live =~= before.live.remove(offset));
    }

    /// Copy `data` into the arena at `offset`. `memory` is the mapping's
    /// memory.
    pub fn write(&self, offset: u64, data: &[u8], memory: &mut [u8])
        requires
            old(memory)@.len() == self@.map.len,
            offset + data@.len() <= self@.map.len,
        ensures
            final(memory)@ == old(memory)@.take(offset as int) + data@ + old(memory)@.skip(
                offset + data@.len(),
            ),
    {
        self.map.write_at(offset, data, memory);
    }
}

/// What is written at an offset is what a read of the same range gives back,
/// and every read that does not touch the range is unchanged.
pub proof fn law_write_then_read(memory: Seq<u8>, offset: int, data: Seq<u8>, at: int, len: int)
    requires
        0 <= offset,
        offset + data.len() <= memory.len(),
        0 <= at,
        0 <= len,
        at + len <= memory.len(),
    ensures
        ({
            let written = memory.take(offset) + data + memory.skip(offset + data.len());
            &&& written.len() == memory.len()
            &&& at == offset && len == data.len() ==> written.subrange(at, at + len) == data
            &&& at + len <= offset || offset + data.len() <= at ==> written.subrange(at, at + len)
                == memory.subrange(at, at + len)
        }),
{
    let written = memory.take(offset) + data + memory.skip(offset + data.len());
    if at == offset && len == data.len() {
        assert(written.subrange(at, at + len) =~= data);
    }
    if at + len <= offset || offset + data.len() <= at {
        assert(written.subrange(at, at + len) =~= memory.subrange(at, at + len));
    }
}

/// A fresh allocation lies behind everything that is live, so writing it
/// leaves every live allocation's bytes alone; freeing gives no space back.
pub proof fn law_allocations_never_overlap(arena: ArenaView, len: u64, other: u64)
    requires
        arena.inv(),
        arena.fits(len),
        arena.live.contains_key(other),
        other != arena.cursor,
    ensures
        other + arena.live[other] <= arena.cursor,
        arena.allocated(len).live[other] == arena.live[other],
        (ArenaView { live: arena.live.remove(other), ..arena }).cursor == arena.cursor,
        forall|more: u64|
            (ArenaView { live: arena.live.remove(other), ..arena }).fits(more) == arena.fits(more),
{
}

/// Fixed-size block pool of registered read-destination buffers.
#[derive(Debug)]
pub struct BouncePool {
    map: Mmap,
    block_size: u64,
    free_blocks: Vec<u64>,
}

/// The block pool, as the model sees it.
#[verifier::ext_equal]
pub ghost struct BounceView {
    pub map: Mmap,
    pub block_size: u64,
    /// Free blocks by their offset, the next one to be handed out last.
    pub free: Seq<u64>,
}

impl View for BouncePool {
    type V = BounceView;

    closed spec fn view(&self) -> BounceView {
        BounceView { map: self.map, block_size: self.block_size, free: self.free_blocks@ }
    }
}

impl BounceView {
    /// `offset` is the start of one of the pool's blocks.
    pub open spec fn is_block(self, offset: u64) -> bool {
        &&& self.block_size > 0
        &&& offset % self.block_size == 0
        &&& offset + self.block_size <= self.map.len
    }

    /// Free blocks are blocks of the pool, each free once.
    pub open spec fn inv(self) -> bool {
        &&& forall|i: int| 0 <= i < self.free.len() ==> self.is_block(#[trigger] self.free[i])
        &&& self.free.no_duplicates()
    }
}

impl BouncePool {
    /// Memory that a pool needs, unless the size overflows.
    pub fn total_len(block_size: u64, blocks: u32) -> (total: Option<u64>)
        ensures
            match total {
                Some(total) => total == block_size * blocks,
                None => block_size * blocks > u64::MAX,
            },
    {
        block_size.checked_mul(blocks as u64)
    }

    /// A pool of `blocks` free blocks over a mapping made for it.
    pub fn new(map: Mmap, block_size: u64, blocks: u32) -> (pool: Self)
        requires
            block_size * blocks == map.len,
        ensures
            pool@ == (BounceView {
                map,
                block_size,
                free: Seq::new(
                    blocks as nat,
                    |i: int| ((blocks - 1 - i) * block_size) as u64,
                ),
            }),
            block_size > 0 ==> pool@.inv(),
    {
        let ghost list = Seq::new(blocks as nat, |i: int| ((blocks - 1 - i) * block_size) as u64);
        let mut free_blocks: Vec<u64> = Vec::with_capacity(blocks as usize);
        let mut left: u32 = blocks;
        while left > 0
            invariant
                left <= blocks,
                block_size * blocks == map.len,
                list == Seq::new(
                    blocks as nat,
                    |i: int| ((blocks - 1 - i) * block_size) as u64,
                ),
                free_blocks@ == list.take(blocks - left),
            decreases left,
        {
            left = left - 1;
            assert(left * block_size <= blocks * block_size) by (nonlinear_arith)
                requires
                    left <= blocks,
            ;
            assert(block_size * blocks == blocks * block_size) by (nonlinear_arith);
            free_blocks.push(left as u64 * block_size);
            assert(free_blocks@ =~= list.take(blocks - left));
        }
        assert(free_blocks@ =~= list);
        let pool = BouncePool { map, block_size, free_blocks };
        proof {
            if block_size > 0 {
                assert(block_size * blocks == blocks * block_size) by (nonlinear_arith);
                assert forall|i: int| 0 <= i < list.len() implies pool@.is_block(
                    #[trigger] list[i],
                ) && list[i] == (blocks - 1 - i) * block_size by {
                    let k = blocks - 1 - i;
                    assert(k * block_size + block_size <= blocks * block_size && 0 <= k * block_size)
                        by (nonlinear_arith)
                        requires
                            0 <= k,
                            k + 1 <= blocks,
                    ;
                    vstd::arithmetic::div_mod::lemma_mod_multiples_basic(k, block_size as int);
                }
                assert forall|i: int, j: int| 0 <= i < j < list.len() implies list[i] != list[j] by {
                    assert((blocks - 1 - i) * block_size > (blocks - 1 - j) * block_size)
                        by (nonlinear_arith)
                        requires
                            i < j,
                            block_size > 0,
                    ;
                }
            }
        }
        pool
    }

    /// The mapping that the blocks lie in.
    pub fn map(&self) -> (map: &Mmap)
        ensures
            *map == self@.map,
    {
        &self.map
    }

    /// Take one block, returning its pool offset.
    pub fn allocate(&mut self) -> (block: Option<u64>)
        ensures
            match block {
                Some(block) => {
                    &&& old(self)@.free.len() > 0
                    &&& block == old(self)@.free.last()
                    &&& final(self)@ == (BounceView { free: old(self)@.free.drop_last(), ..old(self)@ })
                    &&& old(self)@.inv() ==> final(self)@.inv() && final(self)@.is_block(block)
                        && !final(self)@.free.contains(block)
                },
                None => old(self)@.free.len() == 0 && final(self)@ == old(self)@,
            },
    {
        let ghost before = self@;
        let block = self.free_blocks.pop();
        assert(self.free_blocks@ =~= before.free || self.free_blocks@ =~= before.free.drop_last());
        block
    }

    /// Give a block back.
    pub fn free(&mut self, offset: u64)
        requires
            old(self)@.block_size > 0,
            offset % old(self)@.block_size == 0,
        ensures
            final(self)@ == (BounceView { free: old(self)@.free.push(offset), ..old(self)@ }),
            old(self)@.inv() && old(self)@.is_block(offset) && !old(self)@.free.contains(offset)
                ==> final(self)@.inv(),
    {
        self.free_blocks.push(offset);
    }

    /// Address of the block at `offset`.
    pub fn block_addr(&self, offset: u64) -> (addr: u64)
        requires
            self@.map.base + offset <= u64::MAX,
        ensures
            addr == self@.map.base + offset,
    {
        self.map.base_addr() + offset
    }

    /// Copy `len` bytes out of a block into a fresh vector. `memory` is the
    /// mapping's memory.
    pub fn read_block(&self, offset: u64, len: usize, memory: &[u8]) -> (data: Vec<u8>)
        requires
            memory@.len() == self@.map.len,
            offset + len <= self@.map.len,
        ensures
            data@ == memory@.subrange(offset as int, offset + len),
    {
        self.map.read_at(offset, len, memory)
    }
}

/// A block given back is the next one handed out, and then the pool is as it
/// was.
pub proof fn law_freed_block_is_reused(pool: BounceView, block: u64)
    ensures
        ({
            let freed = BounceView { free: pool.free.push(block), ..pool };
            &&& freed.free.last() == block
            &&& (BounceView { free: freed.free.drop_last(), ..freed }) == pool
        }),
{
    assert(pool.free.push(block).drop_last() =~= pool.free);
}

/// Two distinct blocks share no byte.
pub proof fn law_blocks_are_disjoint(pool: BounceView, a: u64, b: u64)
    requires
        pool.is_block(a),
        pool.is_block(b),
        a < b,
    ensures
        a + pool.block_size <= b,
{
    let size = pool.block_size as int;
    vstd::arithmetic::div_mod::lemma_fundamental_div_mod(a as int, size);
    vstd::arithmetic::div_mod::lemma_fundamental_div_mod(b as int, size);
    let (qa, qb) = (a as int / size, b as int / size);
    assert(qa < qb) by (nonlinear_arith)
        requires
            size * qa < size * qb,
            size > 0,
    ;
    assert(size * qa + size <= size * qb) by (nonlinear_arith)
        requires
            qa + 1 <= qb,
            size > 0,
    ;
}

/// Rounding up gives the least multiple that is not smaller.
pub proof fn law_rounding_up(value: u64, align: u64, rounded: u64)
    requires
        align > 0,
        call_ensures(align_up, (value, align), rounded),
    ensures
        rounded % align == 0,
        value <= rounded,
        rounded - value < align,
        value % align == 0 ==> rounded == value,
{
    lemma_aligned(value as int, align as int);
}

/// An allocation succeeds exactly when its length, rounded up to whole pages,
/// fits behind what was allocated so far. It starts on a page boundary, right
/// there, and within the mapping; the next one starts behind it, and so on: no
/// two allocations of an arena share a byte.
pub proof fn law_arenas_hand_out_fresh_pages(
    arena: &mut UbArena,
    len: u64,
    size: u64,
    given: Option<u64>,
    again: &mut UbArena,
    next_len: u64,
    next: Option<u64>,
)
    requires
        old(arena)@.inv(),
        call_ensures(UbArena::allocate, (arena, len), given),
        size % 4096 == 0,
        len <= size < len + 4096,
        old(again)@ == final(arena)@,
        call_ensures(UbArena::allocate, (again, next_len), next),
    ensures
        given is Some <==> old(arena)@.cursor + size <= old(arena)@.map.len,
        given matches Some(offset) ==> {
            &&& offset == old(arena)@.cursor
            &&& offset % 4096 == 0
            &&& offset + len <= old(arena)@.map.len
            &&& final(arena)@.cursor == offset + size
            &&& final(arena)@.live.contains_key(offset)
            &&& final(arena)@.live[offset] == size
            &&& next matches Some(behind) ==> behind == offset + size && offset + len <= behind
        },
        given is None ==> final(arena)@ == old(arena)@,
        final(arena)@.map == old(arena)@.map,
        forall|other: u64|
            other != old(arena)@.cursor ==> #[trigger] final(arena)@.live.contains_key(other)
                == old(arena)@.live.contains_key(other),
{
    lemma_aligned(len as int, ALLOC_ALIGN as int);
    let rounded = aligned(len as int, ALLOC_ALIGN as int);
    assert(rounded % 4096 == 0);
    assert(size == rounded);
}

/// A new arena is empty and hands out its first byte first; releasing an
/// allocation forgets that one alone, and gives no space back.
pub proof fn law_released_space_is_not_reused(
    map: Mmap,
    made: UbArena,
    arena: &mut UbArena,
    offset: u64,
    done: (),
    other: u64,
)
    requires
        call_ensures(UbArena::new, (map,), made),
        call_ensures(UbArena::free, (arena, offset), done),
    ensures
        made@.map == map,
        made@.cursor == 0,
        !made@.live.contains_key(other),
        final(arena)@.cursor == old(arena)@.cursor,
        final(arena)@.map == old(arena)@.map,
        !final(arena)@.live.contains_key(offset),
        other != offset ==> final(arena)@.live.contains_key(other)
            == old(arena)@.live.contains_key(other),
        other != offset && final(arena)@.live.contains_key(other) ==> final(arena)@.live[other]
            == old(arena)@.live[other],
{
}

/// What is written into a mapping is read back from it, byte for byte, and
/// nothing beside it changes.
pub proof fn law_mappings_keep_what_is_written(
    map: Mmap,
    arena: UbArena,
    offset: u64,
    data: &[u8],
    memory: &mut [u8],
    arena_memory: &mut [u8],
    done: (),
    read: Vec<u8>,
    len: usize,
    after: &[u8],
    at: int,
)
    requires
        offset + data@.len() <= old(memory)@.len(),
        call_ensures(Mmap::write_at, (&map, offset, data, memory), done),
        after@ == final(memory)@,
        len == data@.len(),
        call_ensures(Mmap::read_at, (&map, offset, len, after), read),
        old(arena_memory)@ == old(memory)@,
        call_ensures(UbArena::write, (&arena, offset, data, arena_memory), done),
        0 <= at < old(memory)@.len(),
    ensures
        read@ == data@,
        final(memory)@.len() == old(memory)@.len(),
        offset <= at < offset + data@.len() ==> final(memory)@[at] == data@[at - offset],
        !(offset <= at < offset + data@.len()) ==> final(memory)@[at] == old(memory)@[at],
        final(arena_memory)@ == final(memory)@,
{
    assert(read@ =~= data@);
}

/// A mapping has the address and the length that it was made with; a file can
/// be mapped exactly if it holds something.
pub proof fn law_file_mappings(
    base: u64,
    len: u64,
    mapped: (Mmap, u64),
    path: &[u8],
    checked: Result<(), String>,
    addr: u64,
    size: usize,
)
    requires
        len <= usize::MAX,
        call_ensures(Mmap::file_read_only, (base, len), mapped),
        call_ensures(check_file_len, (path, len), checked),
        call_ensures(Mmap::base_addr, (&mapped.0,), addr),
        call_ensures(Mmap::len, (&mapped.0,), size),
    ensures
        addr == base,
        size == len,
        mapped.1 == len,
        checked is Ok <==> len > 0,
{
}

/// A new pool has as many free blocks as it was made for: one at each multiple
/// of the block size, the first one to be handed out first. It needs the memory
/// of all of them.
pub proof fn law_new_pools_are_free(
    map: Mmap,
    block_size: u64,
    blocks: u32,
    pool: BouncePool,
    total: Option<u64>,
    k: int,
)
    requires
        0 < block_size,
        block_size * blocks == map.len,
        call_ensures(BouncePool::new, (map, block_size, blocks), pool),
        call_ensures(BouncePool::total_len, (block_size, blocks), total),
        0 <= k < blocks,
    ensures
        total == Some(map.len as u64),
        pool@.map == map,
        pool@.block_size == block_size,
        pool@.free.len() == blocks,
        pool@.free.no_duplicates(),
        pool@.free[blocks - 1 - k] == k * block_size,
        pool@.free.last() == 0,
{
    assert(k * block_size <= blocks * block_size && 0 <= k * block_size) by (nonlinear_arith)
        requires
            0 <= k <= blocks,
    ;
    assert(block_size * blocks == blocks * block_size) by (nonlinear_arith);
    assert(0 * block_size == 0) by (nonlinear_arith);
}

/// A pool hands out a block exactly while one is free, takes it from the free
/// ones and keeps the others; a block given back is free, and the next to go.
/// Its address is that of the pool plus the block's offset, and its bytes are
/// those that lie there.
pub proof fn law_blocks_come_and_go(
    pool: &mut BouncePool,
    taken: Option<u64>,
    again: &mut BouncePool,
    block: u64,
    done: (),
    after: &mut BouncePool,
    next: Option<u64>,
    addr: u64,
    len: usize,
    memory: &[u8],
    data: Vec<u8>,
    other: u64,
)
    requires
        old(pool)@.inv(),
        call_ensures(BouncePool::allocate, (pool,), taken),
        taken matches Some(given) ==> block == given,
        old(again)@ == final(pool)@,
        call_ensures(BouncePool::free, (again, block), done),
        old(after)@ == final(again)@,
        call_ensures(BouncePool::allocate, (after,), next),
        call_ensures(BouncePool::block_addr, (&*old(pool), block), addr),
        call_ensures(BouncePool::read_block, (&*old(pool), block, len, memory), data),
    ensures
        taken is Some <==> old(pool)@.free.len() > 0,
        taken is Some ==> {
            &&& old(pool)@.free.contains(block)
            &&& !final(pool)@.free.contains(block)
            &&& final(pool)@.free.len() == old(pool)@.free.len() - 1
            &&& block % old(pool)@.block_size == 0
            &&& block + old(pool)@.block_size <= old(pool)@.map.len
            &&& final(again)@ == old(pool)@
        },
        other != block && old(pool)@.free.contains(other) ==> final(pool)@.free.contains(other),
        final(pool)@.free.contains(other) ==> old(pool)@.free.contains(other),
        next == Some(block),
        final(after)@ == final(pool)@,
        addr == old(pool)@.map.base + block,
        data@ == memory@.subrange(block as int, block + len),
{
    let before = old(pool)@.free;
    let left = final(pool)@.free;
    if other != block && before.contains(other) {
        let i = choose|i: int| 0 <= i < before.len() && before[i] == other;
        assert(left[i] == other);
    }
    if left.contains(other) {
        let i = choose|i: int| 0 <= i < left.len() && left[i] == other;
        assert(before[i] == other);
    }
    if taken is Some {
        assert(before[before.len() - 1] == block);
        assert(before.drop_last().push(before.last()) =~= before);
        assert(final(again)@ =~= old(pool)@);
    }
    assert(left.push(block).drop_last() =~= left);
    assert(final(after)@ =~= final(pool)@);
}

/// An arena and a pool hand out the mapping that they were made over.
pub proof fn law_mappings_stay(
    map: Mmap,
    arena: UbArena,
    arena_map: &Mmap,
    block_size: u64,
    blocks: u32,
    pool: BouncePool,
    pool_map: &Mmap,
)
    requires
        block_size * blocks == map.len,
        call_ensures(UbArena::new, (map,), arena),
        call_ensures(UbArena::map, (&arena,), arena_map),
        call_ensures(BouncePool::new, (map, block_size, blocks), pool),
        call_ensures(BouncePool::map, (&pool,), pool_map),
    ensures
        arena_map.base == map.base,
        arena_map.len == map.len,
        pool_map.base == map.base,
        pool_map.len == map.len,
{
}

} // verus!
