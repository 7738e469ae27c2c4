//! Fetching artifacts: chunk by chunk, from local memory or by one-sided
//! reads.
use crate::driver::UrmaReadOp;
use crate::error::{Error, ErrorView};
use crate::text::{push_decimal, push_prefixed_hex};
use crate::transport::locator::{ResolvedFetch, UbLocator};
use crate::transport::{
    PublishedRegion, TransportView, UrmaP2pTransport, LOCAL_COPY_CHUNK, MAX_READ_LEN,
};
use crate::worker::{IoView, UrmaIo};
use vstd::prelude::*;

verus! {

broadcast use vstd::std_specs::hash::group_hash_axioms;

/// Bytes that remain to be fetched: `remaining` of them from `offset` on, in
/// chunks of at most `chunk`.
#[derive(Debug, Clone, Copy)]
pub struct FetchCursor {
    pub offset: u64,
    pub remaining: u64,
    pub chunk: u64,
}

/// Length of the next chunk.
pub open spec fn chunk_len(remaining: nat, chunk: nat) -> nat {
    if remaining < chunk {
        remaining
    } else {
        chunk
    }
}

/// The chunks that a fetch moves, in order: offset and length of each.
pub open spec fn chunks(offset: nat, remaining: nat, chunk: nat) -> Seq<(nat, nat)>
    decreases remaining,
{
    if remaining == 0 || chunk == 0 {
        Seq::empty()
    } else {
        let len = chunk_len(remaining, chunk);
        seq![(offset, len)] + chunks(offset + len, (remaining - len) as nat, chunk)
    }
}

/// What the chunks of `data` add up to.
pub open spec fn concatenated(data: Seq<u8>, parts: Seq<(nat, nat)>) -> Seq<u8>
    decreases parts.len(),
{
    if parts.len() == 0 {
        Seq::empty()
    } else {
        data.subrange(parts[0].0 as int, (parts[0].0 + parts[0].1) as int) + concatenated(
            data,
            parts.drop_first(),
        )
    }
}

/// End of a range; one past the address space counts as its end.
pub open spec fn range_end(offset: u64, len: usize) -> int {
    if offset + len > u64::MAX {
        u64::MAX as int
    } else {
        offset + len
    }
}

/// Why a range of an artifact of `total` bytes cannot be fetched.
pub open spec fn range_error(offset: u64, len: usize, total: u64) -> Option<Seq<char>> {
    let end = range_end(offset, len);
    if end > total || offset > total {
        Some(
            "ub range ["@ + crate::text::decimal(offset as nat) + ", "@ + crate::text::decimal(
                end as nat,
            ) + ") exceeds artifact size "@ + crate::text::decimal(total as nat),
        )
    } else {
        None
    }
}

/// The size of an artifact that is to be fetched.
pub open spec fn fetch_size(resolved: ResolvedFetch) -> u64 {
    match resolved {
        ResolvedFetch::Local { size, .. } => size,
        ResolvedFetch::Remote { locator, .. } => locator.size,
    }
}

impl ResolvedFetch {
    /// The size of the artifact: the number of bytes that fetching all of it
    /// moves.
    pub fn size(&self) -> (size: u64)
        ensures
            size == fetch_size(*self),
    {
        match self {
            ResolvedFetch::Local { size, .. } => *size,
            ResolvedFetch::Remote { locator, .. } => locator.size,
        }
    }
}

/// The most that one remote read moves: a slice, as far as the length of a
/// read can express it.
pub open spec fn remote_chunk(slice_size: u64) -> u64 {
    if slice_size < MAX_READ_LEN {
        slice_size
    } else {
        MAX_READ_LEN
    }
}

/// Local memory is copied in large chunks, remote memory read slice by slice.
pub open spec fn fetch_chunk(resolved: ResolvedFetch, slice_size: u64) -> u64 {
    match resolved {
        ResolvedFetch::Local { .. } => LOCAL_COPY_CHUNK,
        ResolvedFetch::Remote { .. } => remote_chunk(slice_size),
    }
}

impl FetchCursor {
    /// The chunks still to be moved.
    pub open spec fn plan(self) -> Seq<(nat, nat)> {
        chunks(self.offset as nat, self.remaining as nat, self.chunk as nat)
    }

    /// The next chunk: its offset and length. `None` when nothing remains.
    pub fn next(&self) -> (part: Option<(u64, u64)>)
        ensures
            match part {
                Some((offset, len)) => {
                    &&& self.remaining > 0
                    &&& offset == self.offset
                    &&& len == chunk_len(self.remaining as nat, self.chunk as nat)
                    &&& self.chunk > 0 ==> self.plan()[0] == (offset as nat, len as nat)
                },
                None => self.remaining == 0 && self.plan() == Seq::<(nat, nat)>::empty(),
            },
    {
        if self.remaining == 0 {
            return None;
        }
        let len: u64 = if self.remaining < self.chunk {
            self.remaining
        } else {
            self.chunk
        };
        Some((self.offset, len))
    }

    /// Go on after the next chunk has been moved.
    pub fn advance(&mut self)
        requires
            old(self).offset + chunk_len(old(self).remaining as nat, old(self).chunk as nat)
                <= u64::MAX,
        ensures
            final(self).chunk == old(self).chunk,
            final(self).offset == old(self).offset + chunk_len(
                old(self).remaining as nat,
                old(self).chunk as nat,
            ),
            final(self).remaining == old(self).remaining - chunk_len(
                old(self).remaining as nat,
                old(self).chunk as nat,
            ),
            old(self).remaining > 0 && old(self).chunk > 0 ==> final(self).plan() == old(
                self,
            ).plan().drop_first(),
    {
        let ghost before = *self;
        if let Some((_, len)) = self.next() {
            self.offset = self.offset + len;
            self.remaining = self.remaining - len;
            assert(before.chunk > 0 ==> before.plan().drop_first() =~= self.plan());
        }
    }

    /// Give up after a chunk could not be moved: nothing follows it.
    pub fn fail(&mut self)
        ensures
            final(self).remaining == 0,
            final(self).offset == old(self).offset,
            final(self).chunk == old(self).chunk,
            final(self).plan() == Seq::<(nat, nat)>::empty(),
    {
        self.remaining = 0;
    }
}

impl UrmaP2pTransport {
    fn chunk_for(&self, resolved: &ResolvedFetch) -> (chunk: u64)
        ensures
            chunk == fetch_chunk(*resolved, self@.slice_size),
    {
        match resolved {
            ResolvedFetch::Local { .. } => LOCAL_COPY_CHUNK,
            ResolvedFetch::Remote { .. } => if self.slice_size < MAX_READ_LEN {
                self.slice_size
            } else {
                MAX_READ_LEN
            },
        }
    }

    /// Start fetching a whole artifact.
    pub fn fetch_to_writer(&self, resolved: &ResolvedFetch) -> (cursor: FetchCursor)
        ensures
            cursor == (FetchCursor {
                offset: 0,
                remaining: fetch_size(*resolved),
                chunk: fetch_chunk(*resolved, self@.slice_size),
            }),
    {
        FetchCursor { offset: 0, remaining: resolved.size(), chunk: self.chunk_for(resolved) }
    }

    /// Start fetching `len` bytes of an artifact from `offset` on.
    pub fn fetch_byte_range(&self, resolved: &ResolvedFetch, offset: u64, len: usize) -> (cursor:
        Result<FetchCursor, Error>)
        ensures
            match cursor {
                Ok(cursor) => {
                    &&& range_error(offset, len, fetch_size(*resolved)) is None
                    &&& cursor == (FetchCursor {
                        offset,
                        remaining: len as u64,
                        chunk: fetch_chunk(*resolved, self@.slice_size),
                    })
                },
                Err(error) => range_error(offset, len, fetch_size(*resolved)) matches Some(reason)
                    && error@ == (ErrorView::InvalidDescriptor { reason }),
            },
    {
        let total: u64 = resolved.size();
        let end: u64 = match offset.checked_add(len as u64) {
            Some(end) => end,
            None => u64::MAX,
        };
        if end > total || offset > total {
            let mut reason = "ub range [".to_string();
            push_decimal(&mut reason, offset);
            reason.append(", ");
            push_decimal(&mut reason, end);
            reason.append(") exceeds artifact size ");
            push_decimal(&mut reason, total);
            return Err(Error::InvalidDescriptor { reason });
        }
        Ok(FetchCursor { offset, remaining: len as u64, chunk: self.chunk_for(resolved) })
    }
}

// Local memory.

impl TransportView {
    /// Where in its mapping a range of a published region starts.
    pub open spec fn local_start(self, base_va: u64, offset: u64) -> int {
        match self.regions[base_va] {
            PublishedRegion::Arena { .. } => base_va + offset - self.arena.map.base,
            PublishedRegion::File(_) => offset as int,
        }
    }

    /// Length of the mapping that a published region lies in.
    pub open spec fn local_len(self, base_va: u64) -> usize {
        match self.regions[base_va] {
            PublishedRegion::Arena { .. } => self.arena.map.len,
            PublishedRegion::File(map) => map.len,
        }
    }

    /// What a local fetch of the given chunks delivers; `memory` is the memory
    /// of the mapping that the region lies in.
    pub open spec fn delivered(
        self,
        memory: Seq<u8>,
        base_va: u64,
        parts: Seq<(nat, nat)>,
    ) -> Seq<u8>
        decreases parts.len(),
    {
        if parts.len() == 0 {
            Seq::empty()
        } else {
            let start = self.local_start(base_va, parts[0].0 as u64);
            memory.subrange(start, start + parts[0].1) + self.delivered(
                memory,
                base_va,
                parts.drop_first(),
            )
        }
    }
}

/// Why there is nothing to read locally.
pub open spec fn no_region(base_va: u64) -> ErrorView {
    ErrorView::InvalidDescriptor {
        reason: "no published region at base "@ + crate::text::prefixed_hex(base_va as nat),
    }
}

impl UrmaP2pTransport {
    /// The region published at `base_va`.
    pub fn region_at(&self, base_va: u64) -> (region: Result<PublishedRegion, Error>)
        ensures
            match region {
                Ok(region) => self@.regions.contains_key(base_va) && region
                    == self@.regions[base_va],
                Err(error) => !self@.regions.contains_key(base_va) && error@ == no_region(base_va),
            },
    {
        match self.regions.get(&base_va) {
            Some(region) => Ok(*region),
            None => {
                let mut reason = "no published region at base ".to_string();
                push_prefixed_hex(&mut reason, base_va);
                Err(Error::InvalidDescriptor { reason })
            },
        }
    }

    /// Copy a range out of locally published memory. `memory` is the memory
    /// of the mapping that the region lies in.
    pub fn read_local(&self, base_va: u64, offset: u64, len: usize, memory: &[u8]) -> (data: Result<
        Vec<u8>,
        Error,
    >)
        requires
            self@.inv(),
            self@.regions.contains_key(base_va) ==> {
                &&& memory@.len() == self@.local_len(base_va)
                &&& self@.local_start(base_va, offset) + len <= memory@.len()
            },
        ensures
            match data {
                Ok(data) => {
                    let start = self@.local_start(base_va, offset);
                    &&& self@.regions.contains_key(base_va)
                    &&& data@ == memory@.subrange(start, start + len)
                },
                Err(error) => !self@.regions.contains_key(base_va) && error@ == no_region(base_va),
            },
    {
        match self.region_at(base_va) {
            Ok(PublishedRegion::Arena { .. }) => {
                let va: u64 = base_va + offset;
                let start: u64 = va - self.arena.map().base_addr();
                Ok(self.arena.map().read_at(start, len, memory))
            },
            Ok(PublishedRegion::File(map)) => Ok(map.read_at(offset, len, memory)),
            Err(error) => Err(error),
        }
    }
}

// Remote memory.

/// A remote read under way: its bounce block, its completion token and its
/// length.
#[derive(Debug, Clone, Copy)]
pub struct RemoteRead {
    pub block: u64,
    pub user_ctx: u64,
    pub len: u32,
}

/// What waiting for a posted read came to.
#[derive(Debug)]
pub enum ReadOutcome {
    /// The completion arrived.
    Completed(Result<(), String>),
    /// The worker dropped the completion slot.
    Dropped,
    /// The completion did not arrive in time. The read may still land in the
    /// block later; only one who observes the completion may recycle it, with
    /// [`UrmaP2pTransport::reap`].
    TimedOut,
}

/// The length of a read of a chunk.
pub fn remote_len(len: u64) -> (short: u32)
    requires
        len <= MAX_READ_LEN,
    ensures
        short == len,
{
    len as u32
}

/// The step `context` of the transport failed.
pub open spec fn is_internal(error: Error, context: Seq<char>, cause: Seq<char>) -> bool {
    error@ == (ErrorView::Internal { context, cause })
}

/// What a read asks of the peer.
pub open spec fn is_read_op(
    before: TransportView,
    remote_addr: int,
    peer_eid: [u8; 16],
    peer_jetty_id: u32,
    wire: Seq<u8>,
    read: RemoteRead,
    op: UrmaReadOp,
) -> bool {
    &&& op.remote_wire@ == wire
    &&& op.remote_addr == remote_addr
    &&& op.len == read.len
    &&& op.local_addr == before.bounce.map.base + read.block
    &&& op.peer_eid == peer_eid
    &&& op.peer_jetty_id == peer_jetty_id
    &&& op.user_ctx == read.user_ctx
}

/// How a remote read starts: it takes a bounce block and reserves a
/// completion slot. A segment handle that cannot be decoded is noticed only
/// then, and both are given back.
pub open spec fn read_starts<S>(
    before: TransportView,
    decoded: Result<Seq<u8>, Seq<char>>,
    remote_addr: int,
    peer_eid: [u8; 16],
    peer_jetty_id: u32,
    len: u32,
    slot: S,
    io: IoView<S>,
    after: TransportView,
    io_after: IoView<S>,
    started: Result<(RemoteRead, UrmaReadOp), Error>,
) -> bool {
    if before.bounce.free.len() == 0 {
        &&& after == before
        &&& io_after == io
        &&& started matches Err(error) && is_internal(
            error,
            "ub read"@,
            "bounce pool exhausted (timed-out blocks are recycled lazily)"@,
        )
    } else {
        match (decoded, started) {
            (Ok(wire), Ok((read, op))) => {
                &&& after == (TransportView {
                    bounce: crate::store::BounceView {
                        free: before.bounce.free.drop_last(),
                        ..before.bounce
                    },
                    ..before
                })
                &&& io_after == io.reserved(slot)
                &&& read == (RemoteRead {
                    block: before.bounce.free.last(),
                    user_ctx: io.next_ctx,
                    len,
                })
                &&& is_read_op(before, remote_addr, peer_eid, peer_jetty_id, wire, read, op)
            },
            (Err(detail), Err(error)) => {
                &&& after == before
                &&& io_after == io.reserved(slot).released(io.next_ctx)
                &&& crate::transport::locator::is_invalid(
                    error,
                    "invalid ub locator wire encoding: "@ + detail,
                )
            },
            _ => false,
        }
    }
}

/// How a remote read ends: the data of its block, or an error; the block is
/// free again, unless the read timed out.
pub open spec fn read_ends(
    before: TransportView,
    read: RemoteRead,
    outcome: ReadOutcome,
    memory: Seq<u8>,
    after: TransportView,
    ended: Result<Vec<u8>, Error>,
) -> bool {
    &&& after == match outcome {
        ReadOutcome::TimedOut => before,
        _ => before.freed(read.block),
    }
    &&& match (outcome, ended) {
        (ReadOutcome::Completed(Ok(())), Ok(data)) => data@ == memory.subrange(
            read.block as int,
            read.block + read.len,
        ),
        (ReadOutcome::Completed(Err(detail)), Err(error)) => is_internal(
            error,
            "ub read completion"@,
            detail@,
        ),
        (ReadOutcome::Dropped, Err(error)) => is_internal(
            error,
            "ub read"@,
            "driver worker stopped"@,
        ),
        (ReadOutcome::TimedOut, Err(error)) => error@ == (ErrorView::Timeout {
            operation: "ub read completion"@,
        }),
        _ => false,
    }
}

impl TransportView {
    /// With a bounce block given back.
    pub open spec fn freed(self, block: u64) -> TransportView {
        TransportView {
            bounce: crate::store::BounceView {
                free: self.bounce.free.push(block),
                ..self.bounce
            },
            ..self
        }
    }
}

/// Reads need a permit each; none is granted once the transport is down.
pub fn check_permit(granted: bool) -> (checked: Result<(), Error>)
    ensures
        match checked {
            Ok(()) => granted,
            Err(error) => !granted && is_internal(
                error,
                "ub read permit"@,
                "transport shut down"@,
            ),
        },
{
    if granted {
        Ok(())
    } else {
        Err(Error::internal_message("ub read permit", "transport shut down"))
    }
}

impl UrmaP2pTransport {
    /// Start reading `len` bytes of a remote artifact from `offset` on; `len`
    /// must not exceed the slice size. The operation handed back is to be
    /// posted.
    pub fn read_remote_chunk<S>(
        &mut self,
        io: &mut UrmaIo<S>,
        locator: &UbLocator,
        peer_eid: [u8; 16],
        peer_jetty_id: u32,
        offset: u64,
        len: u32,
        slot: S,
    ) -> (started: Result<(RemoteRead, UrmaReadOp), Error>)
        requires
            old(self)@.inv(),
            locator.base_va + offset <= u64::MAX,
        ensures
            read_starts(
                old(self)@,
                crate::codec::base64_decoded(locator.wire@),
                locator.base_va + offset,
                peer_eid,
                peer_jetty_id,
                len,
                slot,
                old(io)@,
                final(self)@,
                final(io)@,
                started,
            ),
            final(self)@.inv(),
            started matches Ok((read, _)) ==> final(self)@.lent(read.block),
    {
        self.start_read(
            io,
            crate::codec::decode(locator.wire.as_str()),
            locator.base_va + offset,
            peer_eid,
            peer_jetty_id,
            len,
            slot,
        )
    }

    /// Start a remote read at `remote_addr`, where `decoded` is what decoding
    /// the segment handle came to.
    pub fn start_read<S>(
        &mut self,
        io: &mut UrmaIo<S>,
        decoded: Result<Vec<u8>, String>,
        remote_addr: u64,
        peer_eid: [u8; 16],
        peer_jetty_id: u32,
        len: u32,
        slot: S,
    ) -> (started: Result<(RemoteRead, UrmaReadOp), Error>)
        requires
            old(self)@.inv(),
        ensures
            read_starts(
                old(self)@,
                crate::transport::locator::decoded_view(decoded),
                remote_addr as int,
                peer_eid,
                peer_jetty_id,
                len,
                slot,
                old(io)@,
                final(self)@,
                final(io)@,
                started,
            ),
            final(self)@.inv(),
            started matches Ok((read, _)) ==> final(self)@.lent(read.block),
    {
        let ghost before = self@;
        let block: u64 = match self.bounce.allocate() {
            Some(block) => block,
            None => {
                return Err(
                    Error::internal_message(
                        "ub read",
                        "bounce pool exhausted (timed-out blocks are recycled lazily)",
                    ),
                );
            },
        };
        let user_ctx: u64 = io.alloc_completion(slot);
        let remote_wire = match UbLocator::wire_of(decoded) {
            Ok(wire) => wire,
            Err(error) => {
                io.cancel_completion(user_ctx);
                self.bounce.free(block);
                assert(self@.bounce.free =~= before.bounce.free);
                return Err(error);
            },
        };
        let op = UrmaReadOp {
            remote_wire,
            remote_addr,
            len,
            local_addr: self.bounce.block_addr(block),
            peer_eid,
            peer_jetty_id,
            user_ctx,
        };
        Ok((RemoteRead { block, user_ctx, len }, op))
    }

    /// Go on after posting a read came to `posted`: a read that could not be
    /// posted gives up its slot and its block.
    pub fn finish_post<S>(
        &mut self,
        io: &mut UrmaIo<S>,
        read: RemoteRead,
        posted: Result<(), String>,
    ) -> (checked: Result<(), Error>)
        requires
            old(self)@.inv(),
            old(self)@.lent(read.block),
        ensures
            match (posted, checked) {
                (Ok(()), Ok(())) => final(self)@ == old(self)@ && final(io)@ == old(io)@,
                (Err(detail), Err(error)) => {
                    &&& is_internal(error, "post ub read"@, detail@)
                    &&& final(self)@ == old(self)@.freed(read.block)
                    &&& final(io)@ == old(io)@.released(read.user_ctx)
                },
                _ => false,
            },
            final(self)@.inv(),
    {
        match posted {
            Ok(()) => Ok(()),
            Err(detail) => {
                io.cancel_completion(read.user_ctx);
                self.bounce.free(read.block);
                Err(Error::Internal { context: "post ub read".to_string(), cause: detail })
            },
        }
    }

    /// End a posted read with what waiting for it came to. `memory` is the
    /// bounce pool's memory.
    pub fn finish_read(
        &mut self,
        read: RemoteRead,
        outcome: ReadOutcome,
        memory: &[u8],
    ) -> (ended: Result<Vec<u8>, Error>)
        requires
            old(self)@.inv(),
            old(self)@.lent(read.block),
            outcome matches ReadOutcome::Completed(Ok(())) ==> {
                &&& memory@.len() == old(self)@.bounce.map.len
                &&& read.block + read.len <= memory@.len()
            },
        ensures
            read_ends(old(self)@, read, outcome, memory@, final(self)@, ended),
            final(self)@.inv(),
    {
        match outcome {
            ReadOutcome::Completed(Ok(())) => {
                let data = self.bounce.read_block(read.block, read.len as usize, memory);
                self.bounce.free(read.block);
                Ok(data)
            },
            ReadOutcome::Completed(Err(detail)) => {
                self.bounce.free(read.block);
                Err(Error::Internal { context: "ub read completion".to_string(), cause: detail })
            },
            ReadOutcome::Dropped => {
                self.bounce.free(read.block);
                Err(Error::internal_message("ub read", "driver worker stopped"))
            },
            ReadOutcome::TimedOut => Err(Error::Timeout { operation: "ub read completion" }),
        }
    }

    /// Recycle the block of a read that timed out, once its completion has
    /// been observed.
    pub fn reap(&mut self, block: u64)
        requires
            old(self)@.inv(),
            old(self)@.lent(block),
        ensures
            final(self)@ == old(self)@.freed(block),
            final(self)@.inv(),
    {
        self.bounce.free(block);
    }
}

/// Every chunk of a fetch is nonempty, no longer than the chunk size, and
/// starts where the one before it ends; the first starts at the beginning of
/// the range and the last ends at its end.
pub proof fn law_chunks_are_contiguous(offset: nat, len: nat, chunk: nat, i: int)
    requires
        chunk > 0,
        0 <= i < chunks(offset, len, chunk).len(),
    ensures
        ({
            let parts = chunks(offset, len, chunk);
            &&& 0 < parts[i].1 <= chunk
            &&& i == 0 ==> parts[i].0 == offset
            &&& i + 1 < parts.len() ==> parts[i].0 + parts[i].1 == parts[i + 1].0
            &&& i + 1 == parts.len() ==> parts[i].0 + parts[i].1 == offset + len
        }),
    decreases len,
{
    let step = chunk_len(len, chunk);
    let rest = chunks(offset + step, (len - step) as nat, chunk);
    let parts = chunks(offset, len, chunk);
    assert forall|j: int| 0 <= j < rest.len() implies parts[j + 1] == #[trigger] rest[j] by {}
    if i > 0 {
        law_chunks_are_contiguous(offset + step, (len - step) as nat, chunk, i - 1);
        if i + 1 < parts.len() {
            assert(rest[i] == parts[i + 1]);
        }
    } else if parts.len() > 1 {
        law_chunks_are_contiguous(offset + step, (len - step) as nat, chunk, 0);
        assert(rest[0] == parts[1]);
    } else {
        if len > step {
            assert(chunk_len((len - step) as nat, chunk) > 0);
            assert(rest.len() > 0);
        }
    }
}

/// The chunks of a fetch add up to exactly the requested window.
pub proof fn law_chunks_add_up_to_range(data: Seq<u8>, offset: nat, len: nat, chunk: nat)
    requires
        chunk > 0,
        offset + len <= data.len(),
    ensures
        concatenated(data, chunks(offset, len, chunk)) == data.subrange(
            offset as int,
            (offset + len) as int,
        ),
    decreases len,
{
    let parts = chunks(offset, len, chunk);
    if len == 0 {
        assert(data.subrange(offset as int, offset as int) =~= Seq::empty());
    } else {
        let step = chunk_len(len, chunk);
        law_chunks_add_up_to_range(data, offset + step, (len - step) as nat, chunk);
        assert(parts.drop_first() =~= chunks(offset + step, (len - step) as nat, chunk));
        assert(data.subrange(offset as int, (offset + len) as int) =~= data.subrange(
            offset as int,
            (offset + step) as int,
        ) + data.subrange((offset + step) as int, (offset + len) as int));
    }
}

/// Every chunk lies within the range.
pub proof fn lemma_chunks_within(offset: nat, len: nat, chunk: nat, i: int)
    requires
        chunk > 0,
        0 <= i < chunks(offset, len, chunk).len(),
    ensures
        offset <= chunks(offset, len, chunk)[i].0,
        chunks(offset, len, chunk)[i].0 + chunks(offset, len, chunk)[i].1 <= offset + len,
    decreases len,
{
    let step = chunk_len(len, chunk);
    if i > 0 {
        let rest = chunks(offset + step, (len - step) as nat, chunk);
        assert(chunks(offset, len, chunk)[i] == rest[i - 1]);
        lemma_chunks_within(offset + step, (len - step) as nat, chunk, i - 1);
    }
}

/// A local fetch of a range of a published region delivers the bytes of that
/// range, whatever the chunk size.
pub proof fn law_local_fetch_delivers_range(
    transport: TransportView,
    memory: Seq<u8>,
    base_va: u64,
    offset: nat,
    len: nat,
    chunk: nat,
)
    requires
        chunk > 0,
        offset + len <= u64::MAX,
        0 <= transport.local_start(base_va, 0),
        transport.local_start(base_va, 0) + offset + len <= memory.len(),
    ensures
        ({
            let start = transport.local_start(base_va, 0) + offset;
            transport.delivered(memory, base_va, chunks(offset, len, chunk)) == memory.subrange(
                start,
                start + len,
            )
        }),
    decreases len,
{
    let start = transport.local_start(base_va, 0) + offset;
    let parts = chunks(offset, len, chunk);
    if len == 0 {
        assert(memory.subrange(start, start) =~= Seq::empty());
    } else {
        let step = chunk_len(len, chunk);
        law_local_fetch_delivers_range(
            transport,
            memory,
            base_va,
            offset + step,
            (len - step) as nat,
            chunk,
        );
        assert(parts.drop_first() =~= chunks(offset + step, (len - step) as nat, chunk));
        assert(memory.subrange(start, start + len) =~= memory.subrange(start, start + step)
            + memory.subrange(start + step, start + len));
    }
}

/// A range is refused exactly when it does not lie within the artifact, as
/// far as its end is an address.
pub proof fn law_ranges_within_artifact_are_fetched(offset: u64, len: usize, total: u64)
    requires
        offset + len <= u64::MAX,
    ensures
        range_error(offset, len, total) is None <==> offset + len <= total,
{
}

/// A read that is posted and ends, in data or in an error, leaves the bounce
/// pool as it found it; one that times out keeps its block until it is
/// reaped.
pub proof fn law_ended_reads_give_their_block_back<S>(
    before: TransportView,
    decoded: Result<Seq<u8>, Seq<char>>,
    remote_addr: int,
    peer_eid: [u8; 16],
    peer_jetty_id: u32,
    len: u32,
    slot: S,
    io: IoView<S>,
    reading: TransportView,
    io_reading: IoView<S>,
    started: Result<(RemoteRead, UrmaReadOp), Error>,
    outcome: ReadOutcome,
    memory: Seq<u8>,
    after: TransportView,
    ended: Result<Vec<u8>, Error>,
)
    requires
        read_starts(
            before,
            decoded,
            remote_addr,
            peer_eid,
            peer_jetty_id,
            len,
            slot,
            io,
            reading,
            io_reading,
            started,
        ),
        started is Ok,
        read_ends(reading, started->Ok_0.0, outcome, memory, after, ended),
    ensures
        outcome !is TimedOut ==> after.bounce == before.bounce,
        outcome is TimedOut ==> after.bounce == reading.bounce && after.freed(
            started->Ok_0.0.block,
        ).bounce == before.bounce,
{
    assert(before.bounce.free.drop_last().push(before.bounce.free.last())
        =~= before.bounce.free);
}

/// A read that does not start leaves every bounce block and every completion
/// slot as it was: only a completion token may have been used up.
pub proof fn law_refused_reads_hold_nothing<S>(
    before: TransportView,
    decoded: Result<Seq<u8>, Seq<char>>,
    remote_addr: int,
    peer_eid: [u8; 16],
    peer_jetty_id: u32,
    len: u32,
    slot: S,
    io: IoView<S>,
    after: TransportView,
    io_after: IoView<S>,
    started: Result<(RemoteRead, UrmaReadOp), Error>,
)
    requires
        !io.pending.contains_key(io.next_ctx),
        read_starts(
            before,
            decoded,
            remote_addr,
            peer_eid,
            peer_jetty_id,
            len,
            slot,
            io,
            after,
            io_after,
            started,
        ),
        started is Err,
    ensures
        after == before,
        io_after.pending == io.pending,
{
    assert(io.pending.insert(io.next_ctx, slot).remove(io.next_ctx) =~= io.pending);
}

/// Every chunk of a remote fetch fits one read and one bounce block, whatever
/// the slice size.
pub proof fn law_remote_chunks_fit_a_read(slice_size: u64, offset: nat, len: nat, i: int)
    requires
        slice_size > 0,
        0 <= i < chunks(offset, len, remote_chunk(slice_size) as nat).len(),
    ensures
        ({
            let part = chunks(offset, len, remote_chunk(slice_size) as nat)[i];
            0 < part.1 && part.1 <= MAX_READ_LEN && part.1 <= slice_size
        }),
{
    law_chunks_are_contiguous(offset, len, remote_chunk(slice_size) as nat, i);
}

/// Two reads in flight at a time never share a byte of their destinations.
pub proof fn law_reads_in_flight_are_disjoint(before: TransportView, held: u64)
    requires
        before.inv(),
        before.lent(held),
        before.bounce.free.len() > 0,
    ensures
        ({
            let next = before.bounce.free.last();
            held + before.slice_size <= next || next + before.slice_size <= held
        }),
{
    let next = before.bounce.free.last();
    assert(before.bounce.free.contains(next));
    if held < next {
        crate::store::law_blocks_are_disjoint(before.bounce, held, next);
    } else {
        crate::store::law_blocks_are_disjoint(before.bounce, next, held);
    }
}

/// A remote read starts exactly when a bounce block is free and the segment
/// handle can be decoded. The operation that is then to be posted asks for
/// `len` bytes at the provider's address of the artifact plus the offset, out
/// of the segment that the locator names, through the given jetty of the given
/// peer; it lands in a block that was free and is taken from now on, and its
/// completion finds the given slot.
pub proof fn law_remote_reads_address_the_provider<S>(
    transport: &mut UrmaP2pTransport,
    io: &mut UrmaIo<S>,
    locator: UbLocator,
    peer_eid: [u8; 16],
    peer_jetty_id: u32,
    offset: u64,
    len: u32,
    slot: S,
    started: Result<(RemoteRead, UrmaReadOp), Error>,
)
    requires
        old(transport)@.inv(),
        locator.base_va + offset <= u64::MAX,
        call_ensures(
            UrmaP2pTransport::read_remote_chunk::<S>,
            (transport, io, &locator, peer_eid, peer_jetty_id, offset, len, slot),
            started,
        ),
    ensures
        started is Ok <==> old(transport)@.bounce.free.len() > 0 && crate::codec::base64_decoded(
            locator.wire@,
        ) is Ok,
        started matches Ok((read, op)) ==> {
            &&& op.remote_addr == locator.base_va + offset
            &&& op.len == len
            &&& read.len == len
            &&& crate::codec::base64_decoded(locator.wire@) == Ok::<Seq<u8>, Seq<char>>(
                op.remote_wire@,
            )
            &&& op.peer_eid == peer_eid
            &&& op.peer_jetty_id == peer_jetty_id
            &&& op.user_ctx == read.user_ctx
            &&& final(io)@.pending.contains_key(read.user_ctx)
            &&& final(io)@.pending[read.user_ctx] == slot
            &&& op.local_addr == old(transport)@.bounce.map.base + read.block
            &&& read.block + old(transport)@.slice_size <= old(transport)@.bounce.map.len
            &&& old(transport)@.bounce.free.contains(read.block)
            &&& !final(transport)@.bounce.free.contains(read.block)
            &&& forall|block: u64|
                block != read.block ==> #[trigger] final(transport)@.bounce.free.contains(block)
                    == old(transport)@.bounce.free.contains(block)
        },
        started is Err ==> final(transport)@ == old(transport)@,
        final(transport)@.regions == old(transport)@.regions,
        final(transport)@.catalog == old(transport)@.catalog,
        final(transport)@.arena == old(transport)@.arena,
{
    let before = old(transport)@.bounce.free;
    if let Ok((read, _)) = started {
        let after = final(transport)@.bounce.free;
        assert(before[before.len() - 1] == read.block);
        assert forall|block: u64| block != read.block implies #[trigger] after.contains(block)
            == before.contains(block) by {
            if before.contains(block) {
                let i = choose|i: int| 0 <= i < before.len() && before[i] == block;
                assert(after[i] == block);
            }
            if after.contains(block) {
                let i = choose|i: int| 0 <= i < after.len() && after[i] == block;
                assert(before[i] == block);
            }
        }
    }
}

/// A posted read comes to data exactly when its completion reports success,
/// and the data is what then lies in its block. Its block is free again
/// however the read ends, except when it timed out: then it stays taken until
/// it is reaped.
pub proof fn law_reads_end_with_their_completion(
    transport: &mut UrmaP2pTransport,
    read: RemoteRead,
    outcome: ReadOutcome,
    memory: &[u8],
    ended: Result<Vec<u8>, Error>,
    late: &mut UrmaP2pTransport,
    reaped: (),
)
    requires
        old(transport)@.lent(read.block),
        call_ensures(
            UrmaP2pTransport::finish_read,
            (transport, read, outcome, memory),
            ended,
        ),
        old(late)@ == final(transport)@,
        call_ensures(UrmaP2pTransport::reap, (late, read.block), reaped),
    ensures
        ended is Ok <==> (outcome matches ReadOutcome::Completed(Ok(_))),
        ended matches Ok(data) ==> data@ == memory@.subrange(
            read.block as int,
            read.block + read.len,
        ),
        final(transport)@.bounce.free.contains(read.block) <==> !(outcome is TimedOut),
        final(late)@.bounce.free.contains(read.block),
        outcome matches ReadOutcome::Completed(Err(detail)) ==> (ended matches Err(
            Error::Internal { cause, .. },
        ) && cause@ == detail@),
        outcome is TimedOut ==> (ended matches Err(Error::Timeout { .. })),
        final(transport)@.regions == old(transport)@.regions,
        final(transport)@.catalog == old(transport)@.catalog,
        final(transport)@.arena == old(transport)@.arena,
{
    let free = old(transport)@.bounce.free;
    assert(free.push(read.block)[free.len() as int] == read.block);
    let after = final(transport)@.bounce.free;
    assert(after.push(read.block)[after.len() as int] == read.block);
}

/// A read that cannot be posted gives back its block and its slot; one that
/// is posted keeps both.
pub proof fn law_unposted_reads_hold_nothing<S>(
    transport: &mut UrmaP2pTransport,
    io: &mut UrmaIo<S>,
    read: RemoteRead,
    posted: Result<(), String>,
    checked: Result<(), Error>,
)
    requires
        old(transport)@.lent(read.block),
        call_ensures(
            UrmaP2pTransport::finish_post::<S>,
            (transport, io, read, posted),
            checked,
        ),
    ensures
        checked is Ok <==> posted is Ok,
        posted is Ok ==> final(transport)@ == old(transport)@ && final(io)@ == old(io)@,
        posted matches Err(detail) ==> {
            &&& final(transport)@.bounce.free.contains(read.block)
            &&& !final(io)@.pending.contains_key(read.user_ctx)
            &&& checked matches Err(Error::Internal { cause, .. }) && cause@ == detail@
        },
{
    let free = old(transport)@.bounce.free;
    assert(free.push(read.block)[free.len() as int] == read.block);
}

/// A fetch moves the range that was asked for: each part starts where the one
/// before it ended, none is empty or longer than the chunk size, and the fetch
/// ends exactly when nothing remains.
pub proof fn law_cursors_move_the_range(
    cursor: FetchCursor,
    part: Option<(u64, u64)>,
    moved: &mut FetchCursor,
    done: (),
    failed: &mut FetchCursor,
    given_up: (),
    after: Option<(u64, u64)>,
)
    requires
        cursor.chunk > 0,
        cursor.offset + cursor.remaining <= u64::MAX,
        call_ensures(FetchCursor::next, (&cursor,), part),
        *old(moved) == cursor,
        call_ensures(FetchCursor::advance, (moved,), done),
        call_ensures(FetchCursor::fail, (failed,), given_up),
        call_ensures(FetchCursor::next, (&*final(failed),), after),
    ensures
        part is None <==> cursor.remaining == 0,
        part matches Some((offset, len)) ==> {
            &&& offset == cursor.offset
            &&& 0 < len <= cursor.chunk
            &&& len == cursor.remaining || len == cursor.chunk
            &&& len <= cursor.remaining
            &&& final(moved).offset == offset + len
            &&& final(moved).remaining == cursor.remaining - len
            &&& final(moved).chunk == cursor.chunk
        },
        final(moved).offset + final(moved).remaining == cursor.offset + cursor.remaining,
        after is None,
{
}

/// A whole artifact is fetched from its first byte to its last; a range of it
/// exactly when it lies within the artifact, and then that range. Local memory
/// is moved in chunks of eight mebibytes, remote memory in chunks of a slice
/// that a read can express.
pub proof fn law_fetches_cover_what_is_asked(
    transport: UrmaP2pTransport,
    resolved: ResolvedFetch,
    whole: FetchCursor,
    offset: u64,
    len: usize,
    range: Result<FetchCursor, Error>,
)
    requires
        offset + len <= u64::MAX,
        call_ensures(UrmaP2pTransport::fetch_to_writer, (&transport, &resolved), whole),
        call_ensures(
            UrmaP2pTransport::fetch_byte_range,
            (&transport, &resolved, offset, len),
            range,
        ),
    ensures
        whole.offset == 0,
        ({
            let size = match resolved {
                ResolvedFetch::Local { size, .. } => size,
                ResolvedFetch::Remote { locator, .. } => locator.size,
            };
            &&& whole.remaining == size
            &&& range is Ok <==> offset + len <= size
        }),
        range matches Ok(cursor) ==> cursor.offset == offset && cursor.remaining == len
            && cursor.chunk == whole.chunk,
        range matches Err(error) ==> error is InvalidDescriptor,
        resolved is Local ==> whole.chunk == 8 * 1024 * 1024,
        resolved is Remote && transport@.slice_size <= u32::MAX ==> whole.chunk
            == transport@.slice_size,
        resolved is Remote && transport@.slice_size > u32::MAX ==> whole.chunk == u32::MAX,
{
}

/// Local memory is read where the artifact lies: an arena artifact at its
/// address within the arena, a file from the start of its mapping on. An
/// address where nothing is published is refused.
pub proof fn law_local_reads_start_at_the_artifact(
    transport: UrmaP2pTransport,
    base_va: u64,
    offset: u64,
    len: usize,
    memory: &[u8],
    data: Result<Vec<u8>, Error>,
)
    requires
        transport@.inv(),
        call_ensures(
            UrmaP2pTransport::read_local,
            (&transport, base_va, offset, len, memory),
            data,
        ),
    ensures
        data is Ok <==> transport@.regions.contains_key(base_va),
        data matches Ok(data) ==> ({
            let start = match transport@.regions[base_va] {
                PublishedRegion::Arena { offset: place } => place + offset,
                PublishedRegion::File(_) => offset as int,
            };
            data@ == memory@.subrange(start, start + len)
        }),
        data matches Err(error) ==> error is InvalidDescriptor,
{
}

/// A read that is started at an address asks for that address, in the segment
/// whose handle was decoded; without a handle there is no read.
pub proof fn law_started_reads_ask_for_their_address<S>(
    transport: &mut UrmaP2pTransport,
    io: &mut UrmaIo<S>,
    decoded: Result<Vec<u8>, String>,
    remote_addr: u64,
    peer_eid: [u8; 16],
    peer_jetty_id: u32,
    len: u32,
    slot: S,
    started: Result<(RemoteRead, UrmaReadOp), Error>,
    other: u64,
)
    requires
        old(transport)@.inv(),
        call_ensures(
            UrmaP2pTransport::start_read::<S>,
            (transport, io, decoded, remote_addr, peer_eid, peer_jetty_id, len, slot),
            started,
        ),
    ensures
        started is Ok <==> old(transport)@.bounce.free.len() > 0 && decoded is Ok,
        started matches Ok((read, op)) ==> {
            &&& op.remote_addr == remote_addr
            &&& op.remote_wire@ == decoded->Ok_0@
            &&& op.len == len
            &&& op.peer_eid@ == peer_eid@
            &&& op.peer_jetty_id == peer_jetty_id
            &&& op.user_ctx == read.user_ctx
            &&& read.len == len
            &&& final(io)@.pending.contains_key(read.user_ctx)
            &&& other != read.user_ctx ==> final(io)@.pending.contains_key(other) == old(io)@.pending.contains_key(other)
        },
        old(transport)@.bounce.free.len() > 0 ==> (decoded matches Err(detail) ==> (started matches
            Err(Error::InvalidDescriptor { reason }) && crate::text::ends_with(
            reason@,
            detail@,
        ))),
        old(transport)@.bounce.free.len() == 0 ==> final(io)@ == old(io)@,
{
    if let Err(detail) = decoded {
        crate::text::lemma_ends_with("invalid ub locator wire encoding: "@, detail@);
    }
}

/// A permit is needed for a read, the length of a chunk is that of its read,
/// the size of a fetch is that of the artifact, and a range that runs past the
/// address space is refused.
pub proof fn law_fetch_limits(
    transport: UrmaP2pTransport,
    granted: bool,
    checked: Result<(), Error>,
    len: u64,
    short: u32,
    resolved: ResolvedFetch,
    size: u64,
    offset: u64,
    count: usize,
    range: Result<FetchCursor, Error>,
)
    requires
        call_ensures(check_permit, (granted,), checked),
        len <= 0xffff_ffff,
        call_ensures(remote_len, (len,), short),
        call_ensures(ResolvedFetch::size, (&resolved,), size),
        call_ensures(
            UrmaP2pTransport::fetch_byte_range,
            (&transport, &resolved, offset, count),
            range,
        ),
    ensures
        checked is Ok <==> granted,
        checked matches Err(error) ==> error is Internal,
        short == len,
        resolved matches ResolvedFetch::Local { size: held, .. } ==> size == held,
        resolved matches ResolvedFetch::Remote { locator, .. } ==> size == locator.size,
        offset + count > u64::MAX && size < u64::MAX ==> range is Err,
        offset > size ==> range is Err,
{
}

/// The region at an address is the one published there, if there is one.
pub proof fn law_regions_are_found(
    transport: UrmaP2pTransport,
    base_va: u64,
    region: Result<PublishedRegion, Error>,
)
    requires
        call_ensures(UrmaP2pTransport::region_at, (&transport, base_va), region),
    ensures
        region is Ok <==> transport@.regions.contains_key(base_va),
        region matches Ok(found) ==> found == transport@.regions[base_va],
        region matches Err(error) ==> error is InvalidDescriptor,
{
}

/// A refused range is named with its bounds and the size of the artifact, and
/// an address where nothing is published with the address.
pub proof fn law_refusals_name_the_numbers(
    transport: UrmaP2pTransport,
    resolved: ResolvedFetch,
    offset: u64,
    len: usize,
    range: Result<FetchCursor, Error>,
    size: u64,
    base_va: u64,
    region: Result<PublishedRegion, Error>,
)
    requires
        offset + len <= u64::MAX,
        call_ensures(
            UrmaP2pTransport::fetch_byte_range,
            (&transport, &resolved, offset, len),
            range,
        ),
        call_ensures(ResolvedFetch::size, (&resolved,), size),
        call_ensures(UrmaP2pTransport::region_at, (&transport, base_va), region),
    ensures
        range matches Err(Error::InvalidDescriptor { reason }) ==> reason@ == "ub range ["@
            + crate::text::decimal(offset as nat) + ", "@ + crate::text::decimal(
            (offset + len) as nat,
        ) + ") exceeds artifact size "@ + crate::text::decimal(size as nat),
        region matches Err(Error::InvalidDescriptor { reason }) ==> reason@
            == "no published region at base "@ + crate::text::prefixed_hex(base_va as nat),
{
}

} // verus!
