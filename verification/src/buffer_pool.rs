//! Fixed-size buffer recycling for compact writers.
//!
//! A compact or commit pass needs one buffer per data chunk. Handing out a
//! fresh large allocation each time forces every page of every chunk through
//! first-touch faults and keeps the allocator churning. The pool recycles one
//! small set of fixed-size buffers for the whole pass instead: the
//! steady-state allocation count drops to the number of in-flight chunks.
//!
//! [`PooledBuffer`] is the exclusive, mutable fill-side handle; releasing it
//! recycles its memory. [`PooledBuffer::into_slice`] turns a filled buffer
//! into the shared, read-only [`SlabSlice`] that consume-side workers hold:
//! slices are zero-copy windows into one slab, and the slab's memory recycles
//! only when the last slice on it is released.
//!
//! The pool keeps the slabs and counts the slices on each of them, so every
//! operation that makes or releases a slice takes the pool.
use std::ops::Range;
use vstd::prelude::*;

verus! {

/// Shared memory behind slices, as the model sees it.
pub ghost struct SlabView {
    /// The bytes of the slab.
    pub data: Seq<u8>,
    /// Whether the memory came from the pool and returns to it.
    pub pooled: bool,
    /// Number of slices that share the slab.
    pub refs: nat,
}

/// The pool, as the model sees it.
#[verifier::ext_equal]
pub ghost struct PoolView {
    /// Size of the buffers handed out.
    pub size: nat,
    /// Largest number of idle buffers retained.
    pub cap: nat,
    /// Idle buffers, the next one to be handed out last.
    pub idle: Seq<Seq<u8>>,
    /// Fresh allocations served.
    pub allocations: nat,
    /// Live slabs by their number.
    pub slabs: Map<nat, SlabView>,
}

impl PoolView {
    /// Idle buffers have the pool's size and number at most `cap`, every live
    /// slab is held by a slice, and slabs of pooled memory have the pool's
    /// size.
    pub open spec fn inv(self) -> bool {
        &&& self.idle.len() <= self.cap
        &&& forall|i: int| 0 <= i < self.idle.len() ==> (#[trigger] self.idle[i]).len() == self.size
        &&& forall|id: nat| #[trigger]
            self.slabs.contains_key(id) ==> {
                &&& self.slabs[id].refs >= 1
                &&& self.slabs[id].pooled ==> self.slabs[id].data.len() == self.size
            }
    }

    /// The pool after memory has been handed back to it: retained when it has
    /// the pool's size and an idle place is left, otherwise let go.
    pub open spec fn recycled(self, data: Seq<u8>) -> PoolView {
        if data.len() == self.size && self.idle.len() < self.cap {
            PoolView { idle: self.idle.push(data), ..self }
        } else {
            self
        }
    }

    /// The bytes that the next acquired buffer holds.
    pub open spec fn next_buffer(self) -> Seq<u8> {
        if self.idle.len() > 0 {
            self.idle.last()
        } else {
            Seq::new(self.size, |i: int| 0u8)
        }
    }

    /// The pool after a buffer has been acquired. The allocation counter
    /// wraps around at the machine word.
    pub open spec fn acquired(self) -> PoolView {
        if self.idle.len() > 0 {
            PoolView { idle: self.idle.drop_last(), ..self }
        } else if self.allocations < usize::MAX {
            PoolView { allocations: self.allocations + 1, ..self }
        } else {
            PoolView { allocations: 0, ..self }
        }
    }

    /// The pool with one more slice on slab `id`.
    pub open spec fn shared(self, id: nat) -> PoolView {
        let slab = self.slabs[id];
        PoolView {
            slabs: self.slabs.insert(id, SlabView { refs: slab.refs + 1, ..slab }),
            ..self
        }
    }

    /// The pool after one slice on slab `id` has been released: the last one
    /// dissolves the slab and recycles its memory if it came from the pool.
    pub open spec fn unshared(self, id: nat) -> PoolView {
        let slab = self.slabs[id];
        if slab.refs > 1 {
            PoolView {
                slabs: self.slabs.insert(id, SlabView { refs: (slab.refs - 1) as nat, ..slab }),
                ..self
            }
        } else {
            let dissolved = PoolView { slabs: self.slabs.remove(id), ..self };
            if slab.pooled {
                dissolved.recycled(slab.data)
            } else {
                dissolved
            }
        }
    }
}

/// Memory shared by slices.
struct SlabInner {
    data: Vec<u8>,
    /// `false` for one-off slices built from caller-owned vectors
    /// ([`SlabSlice::from_vec`]); those free normally.
    pooled: bool,
    refs: usize,
}

impl SlabInner {
    spec fn view(&self) -> SlabView {
        SlabView { data: self.data@, pooled: self.pooled, refs: self.refs as nat }
    }
}

/// A pool of buffers of one size.
pub struct FixedBufferPool {
    size: usize,
    cap: usize,
    idle: Vec<Vec<u8>>,
    allocations: usize,
    slabs: Vec<Option<SlabInner>>,
}

impl View for FixedBufferPool {
    type V = PoolView;

    closed spec fn view(&self) -> PoolView {
        PoolView {
            size: self.size as nat,
            cap: self.cap as nat,
            idle: self.idle@.map_values(|b: Vec<u8>| b@),
            allocations: self.allocations as nat,
            slabs: Map::new(
                |id: nat| id < self.slabs@.len() && self.slabs@[id as int] is Some,
                |id: nat| self.slabs@[id as int]->0.view(),
            ),
        }
    }
}

impl FixedBufferPool {
    /// Create a pool recycling buffers of exactly `size` bytes and retaining
    /// at most `cap` idle buffers.
    pub fn new(size: usize, cap: usize) -> (pool: Self)
        ensures
            pool@ == (PoolView {
                size: size as nat,
                cap: cap as nat,
                idle: Seq::empty(),
                allocations: 0,
                slabs: Map::empty(),
            }),
            pool@.inv(),
    {
        let pool = FixedBufferPool {
            size,
            cap,
            idle: Vec::new(),
            allocations: 0,
            slabs: Vec::new(),
        };
        assert(pool@.idle =~= Seq::empty());
        assert(pool@.slabs =~= Map::empty());
        pool
    }

    /// Buffer size handed out by this pool.
    pub fn size(&self) -> (size: usize)
        ensures
            size == self@.size,
    {
        self.size
    }

    /// Fresh allocations served since pool creation. Steady state should
    /// hold this at the number of in-flight buffers.
    pub fn allocations(&self) -> (count: usize)
        ensures
            count == self@.allocations,
    {
        self.allocations
    }

    /// Take a buffer out of the pool, allocating a fresh one when none is
    /// idle. A recycled buffer keeps the bytes it was released with.
    pub fn acquire(pool: &mut Self) -> (buffer: PooledBuffer)
        requires
            old(pool)@.inv(),
        ensures
            final(pool)@ == old(pool)@.acquired(),
            final(pool)@.inv(),
            buffer@ == old(pool)@.next_buffer(),
            buffer.suits(final(pool)@),
    {
        let ghost before = pool@;
        match pool.pop() {
            Some(data) => {
                assert(data@ == before.idle.last());
                PooledBuffer { data }
            },
            None => {
                pool.allocations = pool.allocations.wrapping_add(1);
                let data: Vec<u8> = vec![0u8; pool.size];
                assert(data@ =~= Seq::new(before.size, |i: int| 0u8));
                assert(pool@ =~= before.acquired());
                PooledBuffer { data }
            },
        }
    }

    /// Give a fill-side buffer back, without publishing it, to the pool that
    /// it came from.
    pub fn release(pool: &mut Self, buffer: PooledBuffer)
        requires
            old(pool)@.inv(),
            buffer.suits(old(pool)@),
        ensures
            final(pool)@ == old(pool)@.recycled(buffer@),
            final(pool)@.inv(),
    {
        pool.push(buffer.data);
    }

    fn pop(&mut self) -> (data: Option<Vec<u8>>)
        requires
            old(self)@.inv(),
        ensures
            match data {
                Some(data) => old(self)@.idle.len() > 0 && data@ == old(self)@.idle.last()
                    && final(self)@ == old(self)@.acquired(),
                None => old(self)@.idle.len() == 0 && final(self)@ == old(self)@,
            },
            final(self)@.inv(),
    {
        let ghost before = self@;
        let data = self.idle.pop();
        proof {
            if data is Some {
                assert(before.idle.last() == data->0@);
                assert(self@.idle =~= before.idle.drop_last());
                assert(self@.slabs =~= before.slabs);
                assert(self@ =~= before.acquired());
            } else {
                assert(self@.idle =~= before.idle);
            }
        }
        data
    }

    /// Hand memory back: retained as an idle buffer when it has the pool's
    /// size and an idle place is left, otherwise let go.
    pub fn push(&mut self, data: Vec<u8>)
        requires
            old(self)@.inv(),
        ensures
            final(self)@ == old(self)@.recycled(data@),
            final(self)@.inv(),
    {
        let ghost before = self@;
        if data.len() != self.size {
            // Foreign buffer: let it drop through to the allocator.
            return;
        }
        if self.idle.len() < self.cap {
            let ghost bytes = data@;
            self.idle.push(data);
            assert(self@.idle =~= before.idle.push(bytes));
            assert(self@.slabs =~= before.slabs);
            assert(self@ =~= before.recycled(bytes));
        }
        // Over cap: release back to the allocator instead of retaining.
    }
}

/// Exclusive fill-side handle for one pooled buffer.
pub struct PooledBuffer {
    data: Vec<u8>,
}

impl View for PooledBuffer {
    type V = Seq<u8>;

    closed spec fn view(&self) -> Seq<u8> {
        self.data@
    }
}

impl PooledBuffer {
    /// The buffer has the size of the pool's buffers, as every buffer that
    /// came from the pool does.
    pub open spec fn suits(self, pool: PoolView) -> bool {
        self@.len() == pool.size
    }

    /// The bytes of the buffer.
    pub fn as_ref(&self) -> (bytes: &[u8])
        ensures
            bytes@ == self@,
    {
        self.data.as_slice()
    }

    /// The bytes of the buffer, for filling.
    pub fn as_mut(&mut self) -> (bytes: &mut [u8])
        ensures
            bytes@ == old(self)@,
            final(self)@ == final(bytes)@,
    {
        self.data.as_mut_slice()
    }

    /// Convert the filled buffer into a shared read-only slice covering all
    /// its bytes. The underlying bytes are untouched; only ownership
    /// changes, and the memory recycles when the last slice is released. The
    /// pool is the one that the buffer came from.
    pub fn into_slice(self, pool: &mut FixedBufferPool) -> (slice: SlabSlice)
        requires
            old(pool)@.inv(),
            self.suits(old(pool)@),
        ensures
            !old(pool)@.slabs.contains_key(slice.slab()),
            final(pool)@ == (PoolView {
                slabs: old(pool)@.slabs.insert(
                    slice.slab(),
                    SlabView { data: self@, pooled: true, refs: 1 },
                ),
                ..old(pool)@
            }),
            final(pool)@.inv(),
            slice.start() == 0,
            slice.spec_len() == self@.len(),
            slice.live_in(final(pool)@),
    {
        let len = self.data.len();
        let slab = pool.add_slab(self.data, true);
        SlabSlice { slab, off: 0, len }
    }
}

/// Zero-copy window into a slab: pooled memory, or a caller-owned vector via
/// [`SlabSlice::from_vec`]. The slab's memory recycles when the last slice on
/// it is released.
pub struct SlabSlice {
    slab: usize,
    off: usize,
    len: usize,
}

impl SlabSlice {
    /// Number of the slab that the slice looks into.
    pub closed spec fn slab(self) -> nat {
        self.slab as nat
    }

    /// Where the window starts in the slab.
    pub closed spec fn start(self) -> nat {
        self.off as nat
    }

    /// Number of bytes in the window.
    pub closed spec fn spec_len(self) -> nat {
        self.len as nat
    }

    /// The slice looks into a live slab of the pool, within its bounds.
    pub open spec fn live_in(self, pool: PoolView) -> bool {
        &&& pool.slabs.contains_key(self.slab())
        &&& self.start() + self.spec_len() <= pool.slabs[self.slab()].data.len()
    }

    /// The slice is the window `[from, to)` of `whole`, over the same memory.
    pub open spec fn is_window(self, whole: SlabSlice, from: nat, to: nat) -> bool {
        &&& self.slab() == whole.slab()
        &&& self.start() == whole.start() + from
        &&& self.spec_len() == to - from
    }

    /// The bytes that the slice shows.
    pub open spec fn content(self, pool: PoolView) -> Seq<u8> {
        pool.slabs[self.slab()].data.subrange(
            self.start() as int,
            (self.start() + self.spec_len()) as int,
        )
    }

    /// Wrap a caller-owned vector; releasing the last slice on it frees the
    /// vector instead of recycling it.
    pub fn from_vec(pool: &mut FixedBufferPool, data: Vec<u8>) -> (slice: Self)
        requires
            old(pool)@.inv(),
        ensures
            !old(pool)@.slabs.contains_key(slice.slab()),
            final(pool)@ == (PoolView {
                slabs: old(pool)@.slabs.insert(
                    slice.slab(),
                    SlabView { data: data@, pooled: false, refs: 1 },
                ),
                ..old(pool)@
            }),
            final(pool)@.inv(),
            slice.start() == 0,
            slice.spec_len() == data@.len(),
            slice.live_in(final(pool)@),
    {
        let len = data.len();
        let slab = pool.add_slab(data, false);
        SlabSlice { slab, off: 0, len }
    }

    /// Sub-slice sharing the same backing memory.
    pub fn slice(&self, pool: &mut FixedBufferPool, range: Range<usize>) -> (sub: Self)
        requires
            old(pool)@.inv(),
            self.live_in(old(pool)@),
            range.start <= range.end <= self.spec_len(),
            old(pool)@.slabs[self.slab()].refs < usize::MAX,
        ensures
            final(pool)@ == old(pool)@.shared(self.slab()),
            final(pool)@.inv(),
            sub.is_window(*self, range.start as nat, range.end as nat),
            sub.live_in(final(pool)@),
            self.live_in(final(pool)@),
            sub.content(final(pool)@) == self.content(old(pool)@).subrange(
                range.start as int,
                range.end as int,
            ),
    {
        let ghost before = pool@;
        pool.add_reference(self.slab);
        let sub = SlabSlice {
            slab: self.slab,
            off: self.off + range.start,
            len: range.end - range.start,
        };
        assert(sub.content(pool@) =~= self.content(before).subrange(
            range.start as int,
            range.end as int,
        ));
        sub
    }

    /// Number of bytes in the slice.
    pub fn len(&self) -> (len: usize)
        ensures
            len == self.spec_len(),
    {
        self.len
    }

    /// Whether the slice holds no byte.
    pub fn is_empty(&self) -> (empty: bool)
        ensures
            empty == (self.spec_len() == 0),
    {
        self.len == 0
    }

    /// The bytes of the slice.
    pub fn bytes<'a>(&self, pool: &'a FixedBufferPool) -> (bytes: &'a [u8])
        requires
            self.live_in(pool@),
        ensures
            bytes@ == self.content(pool@),
    {
        let slab = pool.slab(self.slab);
        assert(slab.len() == slab@.len());
        vstd::slice::slice_subrange(slab, self.off, self.off + self.len)
    }

    /// Give the slice up. The last slice on a slab dissolves it.
    pub fn release(self, pool: &mut FixedBufferPool)
        requires
            old(pool)@.inv(),
            self.live_in(old(pool)@),
        ensures
            final(pool)@ == old(pool)@.unshared(self.slab()),
            final(pool)@.inv(),
    {
        pool.drop_reference(self.slab);
    }
}

impl FixedBufferPool {
    /// Keep `data` as a new slab with one slice on it, and return its number.
    fn add_slab(&mut self, data: Vec<u8>, pooled: bool) -> (id: usize)
        requires
            old(self)@.inv(),
            pooled ==> data@.len() == old(self)@.size,
        ensures
            !old(self)@.slabs.contains_key(id as nat),
            final(self)@ == (PoolView {
                slabs: old(self)@.slabs.insert(
                    id as nat,
                    SlabView { data: data@, pooled, refs: 1 },
                ),
                ..old(self)@
            }),
            final(self)@.inv(),
    {
        let ghost before = self@;
        let ghost slab_view = SlabView { data: data@, pooled, refs: 1 };
        let slab = SlabInner { data, pooled, refs: 1 };
        let mut id: usize = 0;
        while id < self.slabs.len() && self.slabs[id].is_some()
            invariant
                id <= self.slabs@.len(),
            decreases self.slabs@.len() - id,
        {
            id = id + 1;
        }
        if id < self.slabs.len() {
            self.slabs.set(id, Some(slab));
        } else {
            self.slabs.push(Some(slab));
        }
        assert(self@.slabs =~= before.slabs.insert(id as nat, slab_view));
        assert(self@.idle =~= before.idle);
        id
    }

    fn add_reference(&mut self, id: usize)
        requires
            old(self)@.inv(),
            old(self)@.slabs.contains_key(id as nat),
            old(self)@.slabs[id as nat].refs < usize::MAX,
        ensures
            final(self)@ == old(self)@.shared(id as nat),
            final(self)@.inv(),
            final(self)@.slabs[id as nat].data.len() <= usize::MAX,
    {
        let ghost before = self@;
        let _len: usize = self.slab(id).len();
        if let Some(slab) = &mut self.slabs[id] {
            slab.refs = slab.refs + 1;
        }
        assert(self@.slabs =~= before.shared(id as nat).slabs);
        assert(self@.idle =~= before.idle);
    }

    fn drop_reference(&mut self, id: usize)
        requires
            old(self)@.inv(),
            old(self)@.slabs.contains_key(id as nat),
        ensures
            final(self)@ == old(self)@.unshared(id as nat),
            final(self)@.inv(),
    {
        let ghost before = self@;
        let mut last: Option<SlabInner> = None;
        core::mem::swap(&mut self.slabs[id], &mut last);
        if let Some(mut slab) = last {
            if slab.refs > 1 {
                slab.refs = slab.refs - 1;
                self.slabs.set(id, Some(slab));
                assert(self@.slabs =~= before.unshared(id as nat).slabs);
                assert(self@.idle =~= before.idle);
            } else {
                assert(self@.slabs =~= before.slabs.remove(id as nat));
                assert(self@.idle =~= before.idle);
                if slab.pooled {
                    self.push(slab.data);
                }
            }
        }
    }

    fn slab(&self, id: usize) -> (data: &[u8])
        requires
            self@.slabs.contains_key(id as nat),
        ensures
            data@ == self@.slabs[id as nat].data,
    {
        self.slabs[id].as_ref().unwrap().data.as_slice()
    }
}

/// A released buffer of the pool's size is what the next acquire hands out,
/// with its bytes as they were released and without a fresh allocation, as
/// long as an idle place was left.
pub proof fn law_released_buffer_is_reused(pool: PoolView, data: Seq<u8>)
    requires
        pool.inv(),
        data.len() == pool.size,
        pool.idle.len() < pool.cap,
    ensures
        pool.recycled(data).next_buffer() == data,
        pool.recycled(data).acquired() == pool,
{
    assert(pool.idle.push(data).drop_last() =~= pool.idle);
}

/// The pool after `rounds` rounds of acquiring a buffer and releasing it with
/// the bytes that `fill` gives for the round.
pub open spec fn after_rounds(
    pool: PoolView,
    rounds: nat,
    fill: spec_fn(nat) -> Seq<u8>,
) -> PoolView
    decreases rounds,
{
    if rounds == 0 {
        pool
    } else {
        let round = (rounds - 1) as nat;
        after_rounds(pool, round, fill).acquired().recycled(fill(round))
    }
}

/// However many rounds of acquire and release a pool serves, one buffer in
/// flight costs at most one fresh allocation: none when a buffer was idle at
/// the start, one when the pool started empty and retains buffers.
pub proof fn law_rounds_reuse_one_buffer(
    pool: PoolView,
    rounds: nat,
    fill: spec_fn(nat) -> Seq<u8>,
)
    requires
        pool.inv(),
        pool.cap >= 1,
        pool.allocations < usize::MAX,
        forall|round: nat| (#[trigger] fill(round)).len() == pool.size,
    ensures
        after_rounds(pool, rounds, fill).inv(),
        after_rounds(pool, rounds, fill).allocations == pool.allocations + (if rounds > 0
            && pool.idle.len() == 0 {
            1int
        } else {
            0
        }),
        rounds > 0 ==> after_rounds(pool, rounds, fill).idle.len() >= 1,
        after_rounds(pool, rounds, fill).idle.len() == (if rounds > 0 && pool.idle.len() == 0 {
            1
        } else {
            pool.idle.len()
        }),
        after_rounds(pool, rounds, fill).size == pool.size,
        after_rounds(pool, rounds, fill).cap == pool.cap,
    decreases rounds,
{
    if rounds > 0 {
        law_rounds_reuse_one_buffer(pool, (rounds - 1) as nat, fill);
        assert(fill((rounds - 1) as nat).len() == pool.size);
    }
}

/// Whatever is handed back, a pool never retains more than `cap` idle
/// buffers, and never one of another size: the memory becomes idle, on top of
/// all that was idle before, exactly when it has the pool's size and fewer
/// than `cap` were idle. Nothing else changes.
pub proof fn law_idle_is_bounded(pool: PoolView, data: Seq<u8>)
    requires
        pool.inv(),
    ensures
        pool.recycled(data).inv(),
        pool.recycled(data).idle.len() <= pool.cap,
        pool.recycled(data).idle == (if data.len() == pool.size && pool.idle.len() < pool.cap {
            pool.idle.push(data)
        } else {
            pool.idle
        }),
        pool.recycled(data).allocations == pool.allocations,
        pool.recycled(data).slabs == pool.slabs,
        pool.recycled(data).size == pool.size,
        pool.recycled(data).cap == pool.cap,
{
}

/// A buffer that is turned into a slice is not idle while the slice lives,
/// whatever its size: nothing has been recycled, so what the next acquire
/// hands out is what it would have handed out before.
pub proof fn law_sliced_buffer_is_not_idle(pool: PoolView, id: nat, data: Seq<u8>)
    requires
        pool.inv(),
        data.len() == pool.size,
        !pool.slabs.contains_key(id),
    ensures
        ({
            let sliced = PoolView {
                slabs: pool.slabs.insert(id, SlabView { data, pooled: true, refs: 1 }),
                ..pool
            };
            &&& sliced.inv()
            &&& sliced.idle == pool.idle
            &&& sliced.next_buffer() == pool.next_buffer()
            &&& sliced.acquired().allocations == pool.acquired().allocations
            &&& sliced.unshared(id) == pool.recycled(data)
        }),
{
    let slab = SlabView { data, pooled: true, refs: 1 };
    assert(pool.slabs.insert(id, slab).remove(id) =~= pool.slabs);
}

/// A sub-slice of a sub-slice is the sub-slice at the sum of the offsets, and
/// the sub-slice over everything shows what the slice shows, before and after
/// all of them have been made.
pub proof fn law_sub_slices_compose(
    pool: PoolView,
    whole: SlabSlice,
    outer: SlabSlice,
    inner: SlabSlice,
    direct: SlabSlice,
    all: SlabSlice,
    a: nat,
    b: nat,
    c: nat,
    d: nat,
)
    requires
        whole.live_in(pool),
        a <= b <= whole.spec_len(),
        c <= d <= b - a,
        outer.is_window(whole, a, b),
        inner.is_window(outer, c, d),
        direct.is_window(whole, a + c, a + d),
        all.is_window(whole, 0, whole.spec_len()),
    ensures
        inner.live_in(pool),
        inner.content(pool) == direct.content(pool),
        direct.content(pool) == whole.content(pool).subrange((a + c) as int, (a + d) as int),
        all.content(pool) == whole.content(pool),
        ({
            let id = whole.slab();
            let made = pool.shared(id).shared(id).shared(id).shared(id);
            &&& whole.live_in(made)
            &&& whole.content(made) == whole.content(pool)
            &&& inner.content(made) == direct.content(made)
            &&& direct.content(made) == whole.content(pool).subrange(
                (a + c) as int,
                (a + d) as int,
            )
            &&& all.content(made) == whole.content(pool)
        }),
{
    assert(direct.content(pool) =~= whole.content(pool).subrange(
        (a + c) as int,
        (a + d) as int,
    ));
}

/// While another slice is on a slab, releasing one keeps the memory out of
/// the pool: nothing becomes idle and the slab keeps its bytes.
pub proof fn law_shared_memory_stays_alive(pool: PoolView, id: nat)
    requires
        pool.inv(),
        pool.slabs.contains_key(id),
        pool.slabs[id].refs > 1,
    ensures
        pool.unshared(id).idle == pool.idle,
        pool.unshared(id).slabs.contains_key(id),
        pool.unshared(id).slabs[id].data == pool.slabs[id].data,
        pool.unshared(id).slabs[id].refs == pool.slabs[id].refs - 1,
{
}

/// Releasing the last slice on pooled memory makes it idle: the next acquire
/// hands out that very memory without a fresh allocation.
pub proof fn law_last_release_recycles(pool: PoolView, id: nat)
    requires
        pool.inv(),
        pool.slabs.contains_key(id),
        pool.slabs[id].refs == 1,
        pool.slabs[id].pooled,
        pool.idle.len() < pool.cap,
    ensures
        !pool.unshared(id).slabs.contains_key(id),
        pool.unshared(id).next_buffer() == pool.slabs[id].data,
        pool.unshared(id).acquired().allocations == pool.allocations,
{
}

/// Memory of a caller-owned vector never becomes idle, whatever its size.
pub proof fn law_unpooled_memory_never_recycles(pool: PoolView, id: nat)
    requires
        pool.inv(),
        pool.slabs.contains_key(id),
        !pool.slabs[id].pooled,
    ensures
        pool.unshared(id).idle == pool.idle,
{
}

/// The pool after `count` slices on slab `id` have been released.
pub open spec fn after_releases(pool: PoolView, id: nat, count: nat) -> PoolView
    decreases count,
{
    if count == 0 {
        pool
    } else {
        after_releases(pool, id, (count - 1) as nat).unshared(id)
    }
}

/// A slab with `n` slices survives the release of any `n - 1` of them
/// unchanged, and the release of all of them returns its memory exactly once.
pub proof fn law_only_the_last_of_many_recycles(pool: PoolView, id: nat, count: nat)
    requires
        pool.inv(),
        pool.slabs.contains_key(id),
        count <= pool.slabs[id].refs,
    ensures
        count < pool.slabs[id].refs ==> {
            let after = after_releases(pool, id, count);
            &&& after.idle == pool.idle
            &&& after.slabs.contains_key(id)
            &&& after.slabs[id].data == pool.slabs[id].data
            &&& after.slabs[id].pooled == pool.slabs[id].pooled
            &&& after.slabs[id].refs == pool.slabs[id].refs - count
            &&& after.size == pool.size
            &&& after.cap == pool.cap
        },
        count == pool.slabs[id].refs ==> {
            let after = after_releases(pool, id, count);
            &&& !after.slabs.contains_key(id)
            &&& after.idle == (if pool.slabs[id].pooled {
                pool.recycled(pool.slabs[id].data).idle
            } else {
                pool.idle
            })
        },
    decreases count,
{
    if count > 0 {
        law_only_the_last_of_many_recycles(pool, id, (count - 1) as nat);
    }
}

/// Operations on one slab leave the bytes of slices on every other slab as
/// they were.
pub proof fn law_other_slices_keep_their_bytes(pool: PoolView, id: nat, other: SlabSlice)
    requires
        pool.inv(),
        pool.slabs.contains_key(id),
        other.live_in(pool),
        other.slab() != id,
    ensures
        other.live_in(pool.unshared(id)),
        other.content(pool.unshared(id)) == other.content(pool),
        other.live_in(pool.shared(id)),
        other.content(pool.shared(id)) == other.content(pool),
        other.live_in(pool.acquired()),
        other.content(pool.acquired()) == other.content(pool),
{
}

/// A new pool holds nothing and hands out fresh buffers of its size, filled
/// with zeros; each costs an allocation.
pub proof fn law_new_pools_allocate(
    size: usize,
    cap: usize,
    made: FixedBufferPool,
    pool: &mut FixedBufferPool,
    buffer: PooledBuffer,
    told_size: usize,
    before: usize,
    after: usize,
    i: int,
)
    requires
        call_ensures(FixedBufferPool::new, (size, cap), made),
        call_ensures(FixedBufferPool::size, (&made,), told_size),
        call_ensures(FixedBufferPool::allocations, (&made,), before),
        old(pool)@ == made@,
        call_ensures(FixedBufferPool::acquire, (pool,), buffer),
        call_ensures(FixedBufferPool::allocations, (&*final(pool),), after),
        0 <= i < size,
    ensures
        told_size == size,
        before == 0,
        after == 1,
        made@.cap == cap,
        buffer@.len() == size,
        buffer@[i] == 0,
        final(pool)@.idle.len() == 0,
{
}

/// A buffer that is given back while there is room for it is the one that is
/// handed out next, with its bytes, and costs no allocation. One for which
/// there is no room, or that is of another size, is let go. Nothing else
/// changes either way.
pub proof fn law_buffers_are_recycled(
    pool: &mut FixedBufferPool,
    buffer: PooledBuffer,
    data: Vec<u8>,
    done: (),
    pushed: &mut FixedBufferPool,
    again: &mut FixedBufferPool,
    next: PooledBuffer,
    before: usize,
    after: usize,
)
    requires
        old(pool)@.inv(),
        buffer.suits(old(pool)@),
        call_ensures(FixedBufferPool::allocations, (&*old(pool),), before),
        call_ensures(FixedBufferPool::release, (pool, buffer), done),
        old(again)@ == final(pool)@,
        call_ensures(FixedBufferPool::acquire, (again,), next),
        call_ensures(FixedBufferPool::allocations, (&*final(again),), after),
        old(pushed)@ == old(pool)@,
        call_ensures(FixedBufferPool::push, (pushed, data), done),
    ensures
        old(pool)@.idle.len() < old(pool)@.cap ==> {
            &&& next@ == buffer@
            &&& after == before
            &&& final(pool)@.idle.len() == old(pool)@.idle.len() + 1
            &&& final(again)@ == old(pool)@
        },
        old(pool)@.idle.len() == old(pool)@.cap ==> final(pool)@ == old(pool)@,
        final(pool)@.slabs == old(pool)@.slabs,
        final(pool)@.allocations == old(pool)@.allocations,
        data@.len() != old(pool)@.size ==> final(pushed)@ == old(pool)@,
        data@ == buffer@ ==> final(pushed)@ == final(pool)@,
{
    assert(old(pool)@.idle.push(buffer@).drop_last() =~= old(pool)@.idle);
    if old(pool)@.idle.len() < old(pool)@.cap {
        assert(final(again)@ =~= old(pool)@);
    }
}

/// A filled buffer shows its bytes, and as a slice it still does; a window of
/// the slice shows that stretch of them. While either is held, the memory is
/// not handed out; once both are released, it is what is handed out next, as
/// long as there is room for it.
pub proof fn law_slices_show_the_buffer(
    buffer: PooledBuffer,
    shown: &[u8],
    slicing: &mut FixedBufferPool,
    whole: SlabSlice,
    all: &[u8],
    len: usize,
    empty: bool,
    cutting: &mut FixedBufferPool,
    range: Range<usize>,
    part: SlabSlice,
    some: &[u8],
    dropping: &mut FixedBufferPool,
    left: &[u8],
    ending: &mut FixedBufferPool,
    done: (),
    acquiring: &mut FixedBufferPool,
    next: PooledBuffer,
)
    requires
        old(slicing)@.inv(),
        buffer.suits(old(slicing)@),
        call_ensures(PooledBuffer::as_ref, (&buffer,), shown),
        call_ensures(PooledBuffer::into_slice, (buffer, slicing), whole),
        call_ensures(SlabSlice::bytes, (&whole, &*final(slicing)), all),
        call_ensures(SlabSlice::len, (&whole,), len),
        call_ensures(SlabSlice::is_empty, (&whole,), empty),
        old(cutting)@ == final(slicing)@,
        range.start <= range.end <= buffer@.len(),
        call_ensures(SlabSlice::slice, (&whole, cutting, range), part),
        call_ensures(SlabSlice::bytes, (&part, &*final(cutting)), some),
        old(dropping)@ == final(cutting)@,
        call_ensures(SlabSlice::release, (whole, dropping), done),
        call_ensures(SlabSlice::bytes, (&part, &*final(dropping)), left),
        old(ending)@ == final(dropping)@,
        call_ensures(SlabSlice::release, (part, ending), done),
        old(acquiring)@ == final(ending)@,
        call_ensures(FixedBufferPool::acquire, (acquiring,), next),
    ensures
        shown@ == buffer@,
        all@ == buffer@,
        len == buffer@.len(),
        empty <==> buffer@.len() == 0,
        some@ == buffer@.subrange(range.start as int, range.end as int),
        left@ == some@,
        final(slicing)@.idle == old(slicing)@.idle,
        final(cutting)@.idle == old(slicing)@.idle,
        final(dropping)@.idle == old(slicing)@.idle,
        old(slicing)@.idle.len() < old(slicing)@.cap ==> final(ending)@.idle.len()
            == old(slicing)@.idle.len() + 1 && next@ == buffer@,
        old(slicing)@.idle.len() == old(slicing)@.cap ==> final(ending)@.idle
            == old(slicing)@.idle,
        final(acquiring)@.allocations == old(slicing)@.allocations || old(slicing)@.idle.len()
            == old(slicing)@.cap,
{
    assert(all@ =~= buffer@);
    assert(some@ =~= buffer@.subrange(range.start as int, range.end as int));
}

/// A vector that a caller owns is shown as it is, and never becomes a buffer of
/// the pool.
pub proof fn law_owned_vectors_stay_apart(
    pool: &mut FixedBufferPool,
    data: Vec<u8>,
    slice: SlabSlice,
    shown: &[u8],
    ending: &mut FixedBufferPool,
    done: (),
)
    requires
        old(pool)@.inv(),
        call_ensures(SlabSlice::from_vec, (pool, data), slice),
        call_ensures(SlabSlice::bytes, (&slice, &*final(pool)), shown),
        old(ending)@ == final(pool)@,
        call_ensures(SlabSlice::release, (slice, ending), done),
    ensures
        shown@ == data@,
        final(pool)@.idle == old(pool)@.idle,
        final(ending)@.idle == old(pool)@.idle,
        final(ending)@.slabs == old(pool)@.slabs,
        final(ending)@.allocations == old(pool)@.allocations,
{
    assert(shown@ =~= data@);
    assert(final(ending)@.slabs =~= old(pool)@.slabs);
}

/// What is written through the handle of a buffer is what the buffer then
/// holds, and the handle starts out with what it held.
pub proof fn law_buffers_hold_what_is_filled_in(buffer: &mut PooledBuffer, bytes: &mut [u8])
    requires
        call_ensures(PooledBuffer::as_mut, (buffer,), bytes),
    ensures
        old(bytes)@ == old(buffer)@,
        final(buffer)@ == final(bytes)@,
{
}

/// A buffer is recycled whenever one is idle, the last one that became so, and
/// is otherwise fresh: of the pool's size, filled with zeros, and counted.
pub proof fn law_buffers_are_recycled_before_they_are_made(
    pool: &mut FixedBufferPool,
    buffer: PooledBuffer,
    i: int,
)
    requires
        old(pool)@.inv(),
        call_ensures(FixedBufferPool::acquire, (pool,), buffer),
        0 <= i < buffer@.len(),
    ensures
        buffer@.len() == old(pool)@.size,
        old(pool)@.idle.len() > 0 ==> {
            &&& buffer@ == old(pool)@.idle.last()
            &&& final(pool)@.idle == old(pool)@.idle.drop_last()
            &&& final(pool)@.allocations == old(pool)@.allocations
        },
        old(pool)@.idle.len() == 0 ==> {
            &&& buffer@[i] == 0
            &&& final(pool)@.idle.len() == 0
            &&& old(pool)@.allocations < usize::MAX ==> final(pool)@.allocations
                == old(pool)@.allocations + 1
        },
        final(pool)@.slabs == old(pool)@.slabs,
        final(pool)@.size == old(pool)@.size,
        final(pool)@.cap == old(pool)@.cap,
{
}

} // verus!
