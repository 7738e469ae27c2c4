//! Driver seam between the `ub` transport logic and the concrete URMA
//! implementation, and the in-process loopback driver.
//!
//! The loopback driver backs tests and `p2p.ub.driver = "loopback"` setups:
//! its segment handles carry the base address and length of the region
//! directly, and a read is a copy made at post time whose completion queues
//! up inside the driver.
use crate::text::push_prefixed_hex;
use crate::urma_sys::{eid_from_hex, eid_to_hex};
use vstd::prelude::*;

pub mod lib_urma;

verus! {

broadcast use {vstd::array::group_array_axioms, vstd::slice::group_slice_axioms};

/// Security token required on both sides of segment and jetty imports. It
/// carries no secrecy.
pub const UB_TOKEN: u32 = 0xACFE;

/// Identity of a node's URMA endpoint, advertised inside artifact descriptors
/// so peers can import its segments and bind its jetties.
#[derive(Debug, Clone)]
pub struct UbLocalHandle {
    /// URMA device name (e.g. `urma0`).
    pub device: String,
    /// 32 lowercase hex chars encoding the 16-byte EID.
    pub eid: String,
    /// IDs of the jetties peers may bind to.
    pub jetty_ids: Vec<u32>,
}

/// An endpoint identity, as the model sees it.
pub ghost struct HandleView {
    pub device: Seq<char>,
    pub eid: Seq<char>,
    pub jetty_ids: Seq<u32>,
}

impl View for UbLocalHandle {
    type V = HandleView;

    open spec fn view(&self) -> HandleView {
        HandleView { device: self.device@, eid: self.eid@, jetty_ids: self.jetty_ids@ }
    }
}

impl UbLocalHandle {
    /// A copy of the handle.
    pub fn duplicate(&self) -> (copy: Self)
        ensures
            copy@ == self@,
    {
        let mut jetty_ids: Vec<u32> = Vec::with_capacity(self.jetty_ids.len());
        let mut i: usize = 0;
        while i < self.jetty_ids.len()
            invariant
                i <= self.jetty_ids@.len(),
                jetty_ids@ == self.jetty_ids@.take(i as int),
            decreases self.jetty_ids@.len() - i,
        {
            jetty_ids.push(self.jetty_ids[i]);
            assert(jetty_ids@ =~= self.jetty_ids@.take(i + 1));
            i = i + 1;
        }
        assert(jetty_ids@ =~= self.jetty_ids@);
        UbLocalHandle { device: self.device.clone(), eid: self.eid.clone(), jetty_ids }
    }
}

/// Access granted to a registered region.
#[derive(Debug, Clone, Copy, PartialEq, Eq, Structural)]
pub enum RegionAccess {
    /// Remote peers may one-sided-read this region (published artifacts).
    RemoteRead,
    /// Region is a local scratch buffer (bounce pool); no remote access.
    LocalOnly,
}

/// Result of registering a local memory region for remote reads.
#[derive(Debug, Clone)]
pub struct RegionWire {
    /// Serialized remote-segment handle. Opaque to callers.
    pub wire: Vec<u8>,
    /// Base virtual address of the region; remote reads are addressed as
    /// `base_va + offset`.
    pub base_va: u64,
}

/// One posted one-sided READ.
#[derive(Debug, Clone)]
pub struct UrmaReadOp {
    /// Wire handle of the remote segment to read from.
    pub remote_wire: Vec<u8>,
    /// Absolute virtual address inside the remote segment.
    pub remote_addr: u64,
    /// Number of bytes to transfer.
    pub len: u32,
    /// Local destination address (inside a region previously registered with
    /// the same driver).
    pub local_addr: u64,
    /// 16-byte EID of the serving peer, for jetty binding; the loopback
    /// driver ignores it.
    pub peer_eid: [u8; 16],
    /// Remote jetty id to bind for this peer; the loopback driver ignores it.
    pub peer_jetty_id: u32,
    /// Opaque completion token returned through [`UrmaCompletion`].
    pub user_ctx: u64,
}

/// Outcome of one posted read.
#[derive(Debug, Clone, Copy)]
pub struct UrmaCompletion {
    pub user_ctx: u64,
    /// `0` on success, an `URMA_CR_*` status otherwise.
    pub status: i32,
}

/// Segment handle of the loopback driver.
#[derive(Debug, Clone, Copy)]
pub struct LoopbackWire {
    pub base_va: u64,
    pub len: u64,
}

/// Encode 16 bytes as 32 lowercase hex chars, the form in which handles
/// carry EIDs.
pub fn hex32(raw: &[u8; 16]) -> (text: String)
    ensures
        text@ == crate::urma_sys::hex_text(raw@),
{
    eid_to_hex(raw)
}

/// Parse 32 hex chars back into 16 bytes.
pub fn eid_from_hex32(value: &str) -> (raw: Option<[u8; 16]>)
    ensures
        match raw {
            Some(raw) => crate::urma_sys::eid_of_hex(vstd::utf8::encode_utf8(value@)) == Some(raw@),
            None => crate::urma_sys::eid_of_hex(vstd::utf8::encode_utf8(value@)) is None,
        },
{
    eid_from_hex(value)
}

/// EID that a loopback driver derives from its name: the letters `lb`, then
/// the first 14 bytes of the name, padded with zeros.
pub open spec fn loopback_eid(name: Seq<u8>) -> Seq<u8> {
    Seq::new(
        16,
        |i: int|
            if i == 0 {
                0x6cu8
            } else if i == 1 {
                0x62u8
            } else if i - 2 < name.len() {
                name[i - 2]
            } else {
                0u8
            },
    )
}

/// In-process stand-in for the URMA device.
#[derive(Debug)]
pub struct LoopbackUrmaDriver {
    handle: UbLocalHandle,
    regions: Vec<(usize, u64)>,
    completions: Vec<UrmaCompletion>,
}

/// The loopback driver, as the model sees it.
#[verifier::ext_equal]
pub ghost struct LoopbackView {
    pub handle: HandleView,
    /// Registered regions: address and length, in registration order.
    pub regions: Seq<(usize, u64)>,
    /// Completions not yet polled, oldest first.
    pub completions: Seq<UrmaCompletion>,
}

impl View for LoopbackUrmaDriver {
    type V = LoopbackView;

    closed spec fn view(&self) -> LoopbackView {
        LoopbackView {
            handle: self.handle@,
            regions: self.regions@,
            completions: self.completions@,
        }
    }
}

/// Why a read cannot be posted, as the model sees it.
pub open spec fn read_refusal(
    op: UrmaReadOp,
    wire: Result<LoopbackWire, String>,
) -> Option<Seq<char>> {
    match wire {
        Err(detail) => Some("invalid loopback wire handle: "@ + detail@),
        Ok(wire) => {
            let end = op.remote_addr + op.len;
            if end > u64::MAX {
                Some("loopback read end overflow"@)
            } else if op.remote_addr < wire.base_va || end > wire.base_va + wire.len {
                Some(
                    "loopback read ["@ + crate::text::prefixed_hex(op.remote_addr as nat) + ", "@
                        + crate::text::prefixed_hex(end as nat) + ") outside segment ["@
                        + crate::text::prefixed_hex(wire.base_va as nat) + ", "@
                        + crate::text::prefixed_hex((wire.base_va + wire.len) as nat) + ")"@,
                )
            } else {
                None
            }
        },
    }
}

/// The segment's end is an address, or the question does not come up because
/// the handle did not parse or the read's own end overflows.
pub open spec fn segment_end_fits(op: UrmaReadOp, wire: Result<LoopbackWire, String>) -> bool {
    wire matches Ok(wire) ==> op.remote_addr + op.len <= u64::MAX ==> wire.base_va + wire.len
        <= u64::MAX
}

impl LoopbackUrmaDriver {
    /// Create a driver whose advertised identity is derived from `name`:
    /// distinct but deterministic, so peer identity can be recognised without
    /// coordination.
    pub fn new(name: &str) -> (driver: Self)
        ensures
            driver@ == (LoopbackView {
                handle: HandleView {
                    device: "loopback-"@ + name@,
                    eid: crate::urma_sys::hex_text(
                        loopback_eid(vstd::utf8::encode_utf8(name@)),
                    ),
                    jetty_ids: seq![1u32, 2u32],
                },
                regions: Seq::empty(),
                completions: Seq::empty(),
            }),
    {
        let mut eid: [u8; 16] = [0u8; 16];
        eid[0] = 0x6c;
        eid[1] = 0x62;
        let bytes = name.as_bytes();
        let mut i: usize = 0;
        while i < 14 && i < bytes.len()
            invariant
                i <= 14,
                i <= bytes@.len(),
                eid@.len() == 16,
                eid@[0] == 0x6c,
                eid@[1] == 0x62,
                forall|j: int| 2 <= j < i + 2 ==> #[trigger] eid@[j] == bytes@[j - 2],
                forall|j: int| i + 2 <= j < 16 ==> #[trigger] eid@[j] == 0,
            decreases 14 - i,
        {
            eid[i + 2] = bytes[i];
            i = i + 1;
        }
        assert(eid@ =~= loopback_eid(bytes@));
        let mut device = "loopback-".to_string();
        device.append(name);
        let jetty_ids: Vec<u32> = vec![1, 2];
        assert(jetty_ids@ =~= seq![1u32, 2u32]);
        LoopbackUrmaDriver {
            handle: UbLocalHandle { device, eid: hex32(&eid), jetty_ids },
            regions: Vec::new(),
            completions: Vec::new(),
        }
    }

    /// The identity that the driver advertises.
    pub fn local_handle(&self) -> (handle: UbLocalHandle)
        ensures
            handle@ == self@.handle,
    {
        self.handle.duplicate()
    }

    /// Register `[addr, addr + len)`. Any access is granted. The handle of
    /// the region holds its address and length.
    pub fn register_region(
        &mut self,
        addr: usize,
        len: u64,
        _access: RegionAccess,
    ) -> (wire: LoopbackWire)
        ensures
            wire == (LoopbackWire { base_va: addr as u64, len }),
            final(self)@ == (LoopbackView {
                regions: old(self)@.regions.push((addr, len)),
                ..old(self)@
            }),
    {
        self.regions.push((addr, len));
        LoopbackWire { base_va: addr as u64, len }
    }

    /// Release every region registered at `addr`.
    pub fn unregister_region(&mut self, addr: usize)
        ensures
            final(self)@ == (LoopbackView {
                regions: old(self)@.regions.filter(|region: (usize, u64)| region.0 != addr),
                ..old(self)@
            }),
    {
        let ghost keep = |region: (usize, u64)| region.0 != addr;
        let ghost before = self.regions@;
        let mut kept: Vec<(usize, u64)> = Vec::new();
        let mut i: usize = 0;
        assert(before.take(0).filter(keep) =~= Seq::empty()) by {
            reveal(Seq::filter);
        }
        while i < self.regions.len()
            invariant
                i <= self.regions@.len(),
                self.regions@ == before,
                keep == (|region: (usize, u64)| region.0 != addr),
                kept@ == before.take(i as int).filter(keep),
            decreases self.regions@.len() - i,
        {
            let region: (usize, u64) = self.regions[i];
            proof {
                reveal(Seq::filter);
                assert(before.take(i + 1).drop_last() =~= before.take(i as int));
                assert(before.take(i + 1).last() == region);
            }
            if region.0 != addr {
                kept.push(region);
            }
            i = i + 1;
        }
        assert(before.take(before.len() as int) =~= before);
        self.regions = kept;
    }

    /// Check that a read stays inside its segment; `wire` is the decoded
    /// handle of the segment, or why it could not be decoded.
    pub fn validate_read(op: &UrmaReadOp, wire: &Result<LoopbackWire, String>) -> (checked: Result<
        (),
        String,
    >)
        requires
            segment_end_fits(*op, *wire),
        ensures
            match checked {
                Ok(()) => read_refusal(*op, *wire) is None,
                Err(text) => read_refusal(*op, *wire) == Some(text@),
            },
    {
        match wire {
            Err(detail) => {
                let mut text = "invalid loopback wire handle: ".to_string();
                text.append(detail.as_str());
                Err(text)
            },
            Ok(wire) => {
                let end: u64 = match op.remote_addr.checked_add(op.len as u64) {
                    Some(end) => end,
                    None => {
                        return Err("loopback read end overflow".to_string());
                    },
                };
                let segment_end: u64 = wire.base_va + wire.len;
                if op.remote_addr >= wire.base_va && end <= segment_end {
                    return Ok(());
                }
                let mut text = "loopback read [".to_string();
                push_prefixed_hex(&mut text, op.remote_addr);
                text.append(", ");
                push_prefixed_hex(&mut text, end);
                text.append(") outside segment [");
                push_prefixed_hex(&mut text, wire.base_va);
                text.append(", ");
                push_prefixed_hex(&mut text, segment_end);
                text.append(")");
                Err(text)
            },
        }
    }

    /// Post one READ: copy the requested range of the segment's memory to the
    /// destination and queue a successful completion. A refused read touches
    /// neither the destination nor the driver.
    pub fn post_read(
        &mut self,
        op: &UrmaReadOp,
        wire: &Result<LoopbackWire, String>,
        segment: &[u8],
        destination: &mut [u8],
    ) -> (posted: Result<(), String>)
        requires
            segment_end_fits(*op, *wire),
            read_refusal(*op, *wire) is None ==> segment@.len() == wire->Ok_0.len,
            read_refusal(*op, *wire) is None ==> op.len <= old(destination)@.len(),
        ensures
            match posted {
                Ok(()) => {
                    let at = op.remote_addr - wire->Ok_0.base_va;
                    &&& read_refusal(*op, *wire) is None
                    &&& final(destination)@ == segment@.subrange(at, at + op.len) + old(
                        destination,
                    )@.skip(op.len as int)
                    &&& final(self)@ == (LoopbackView {
                        completions: old(self)@.completions.push(
                            UrmaCompletion { user_ctx: op.user_ctx, status: 0 },
                        ),
                        ..old(self)@
                    })
                },
                Err(text) => {
                    &&& read_refusal(*op, *wire) == Some(text@)
                    &&& final(destination)@ == old(destination)@
                    &&& final(self)@ == old(self)@
                },
            },
    {
        match Self::validate_read(op, wire) {
            Ok(()) => {},
            Err(text) => {
                return Err(text);
            },
        }
        if let Ok(wire) = wire {
            let at: usize = (op.remote_addr - wire.base_va) as usize;
            let len: usize = op.len as usize;
            let ghost before = destination@;
            assert(segment.len() == segment@.len());
            let mut i: usize = 0;
            while i < len
                invariant
                    i <= len,
                    len == op.len,
                    destination@.len() == before.len(),
                    len <= before.len(),
                    at + len <= segment@.len(),
                    segment@.len() <= usize::MAX,
                    destination@ == segment@.subrange(at as int, at + i) + before.skip(i as int),
                decreases len - i,
            {
                destination[i] = segment[at + i];
                assert(destination@ =~= segment@.subrange(at as int, at + i + 1) + before.skip(
                    i + 1,
                ));
                i = i + 1;
            }
        }
        self.completions.push(UrmaCompletion { user_ctx: op.user_ctx, status: 0 });
        Ok(())
    }

    /// Drain up to `limit` completions, the room that the caller has in `out`,
    /// appending them to it in the order in which they were queued and
    /// returning how many were appended. The rest stay queued.
    pub fn poll_completions(&mut self, limit: usize, out: &mut Vec<UrmaCompletion>) -> (drained:
        usize)
        ensures
            drained == (if limit < old(self)@.completions.len() {
                limit as int
            } else {
                old(self)@.completions.len() as int
            }),
            final(out)@ == old(out)@ + old(self)@.completions.take(drained as int),
            final(self)@ == (LoopbackView {
                completions: old(self)@.completions.skip(drained as int),
                ..old(self)@
            }),
    {
        let ghost queued = self@.completions;
        if limit < self.completions.len() {
            let rest = self.completions.split_off(limit);
            out.append(&mut self.completions);
            self.completions = rest;
            assert(self@.completions =~= queued.skip(limit as int));
            return limit;
        }
        let drained: usize = self.completions.len();
        out.append(&mut self.completions);
        assert(queued.take(queued.len() as int) =~= queued);
        assert(self@.completions =~= queued.skip(queued.len() as int));
        drained
    }

    /// Release all driver resources. Idempotent.
    pub fn shutdown(&mut self)
        ensures
            final(self)@ == (LoopbackView {
                regions: Seq::empty(),
                completions: Seq::empty(),
                ..old(self)@
            }),
    {
        self.regions.clear();
        self.completions.clear();
    }
}

/// A read of a registered region is accepted exactly when it lies inside the
/// region.
pub proof fn law_registered_reads(addr: usize, len: u64, op: UrmaReadOp)
    requires
        addr + len <= u64::MAX,
    ensures
        read_refusal(op, Ok(LoopbackWire { base_va: addr as u64, len })) is None <==> addr
            <= op.remote_addr && op.remote_addr + op.len <= addr + len,
{
}

/// Polling reports every completion once and in order: what two polls hand
/// out, and what is left after them, is what was queued.
pub proof fn law_completions_are_reported_once(queued: Seq<UrmaCompletion>, first: int, second: int)
    requires
        0 <= first,
        0 <= second,
        first + second <= queued.len(),
    ensures
        queued.take(first) + queued.skip(first).take(second) + queued.skip(first).skip(second)
            == queued,
{
    assert(queued.take(first) + queued.skip(first).take(second) + queued.skip(first).skip(second)
        =~= queued);
}

/// Drivers whose names differ within their first 14 bytes, counting a shorter
/// name as padded with zeros, advertise distinct EIDs.
pub proof fn law_eids_follow_names(a: Seq<u8>, b: Seq<u8>, i: int)
    requires
        0 <= i < 14,
        (if i < a.len() { a[i] } else { 0u8 }) != (if i < b.len() { b[i] } else { 0u8 }),
    ensures
        crate::urma_sys::hex_text(loopback_eid(a)) != crate::urma_sys::hex_text(loopback_eid(b)),
{
    assert(loopback_eid(a)[i + 2] != loopback_eid(b)[i + 2]);
    if crate::urma_sys::hex_text(loopback_eid(a)) == crate::urma_sys::hex_text(loopback_eid(b)) {
        crate::urma_sys::law_eid_hex_is_injective(loopback_eid(a), loopback_eid(b));
    }
}

/// The EID in the handle of a loopback driver parses back to the EID derived
/// from the name.
pub proof fn law_advertised_eid_parses(name: Seq<u8>)
    ensures
        crate::urma_sys::eid_of_hex(
            vstd::utf8::encode_utf8(crate::urma_sys::hex_text(loopback_eid(name))),
        ) == Some(loopback_eid(name)),
{
    crate::urma_sys::law_eid_hex_round_trip(loopback_eid(name));
}

/// The handle of a registered region tells where it is, and a read through it
/// is accepted exactly if it stays inside the region. An accepted read lands
/// byte for byte at the front of its destination and completes with success,
/// behind all that was queued before; a refused one changes nothing.
pub proof fn law_registered_regions_are_read(
    registering: &mut LoopbackUrmaDriver,
    addr: usize,
    len: u64,
    access: RegionAccess,
    wire: LoopbackWire,
    driver: &mut LoopbackUrmaDriver,
    op: UrmaReadOp,
    segment: &[u8],
    destination: &mut [u8],
    posted: Result<(), String>,
    checked: Result<(), String>,
    i: int,
)
    requires
        addr + len <= u64::MAX,
        call_ensures(
            LoopbackUrmaDriver::register_region,
            (registering, addr, len, access),
            wire,
        ),
        segment@.len() == len,
        op.len <= old(destination)@.len(),
        call_ensures(
            LoopbackUrmaDriver::post_read,
            (driver, &op, &Ok::<LoopbackWire, String>(wire), segment, destination),
            posted,
        ),
        call_ensures(
            LoopbackUrmaDriver::validate_read,
            (&op, &Ok::<LoopbackWire, String>(wire)),
            checked,
        ),
        0 <= i < old(destination)@.len(),
    ensures
        wire.base_va == addr,
        wire.len == len,
        final(registering)@.regions.len() == old(registering)@.regions.len() + 1,
        final(registering)@.regions.last() == (addr, len),
        posted is Ok <==> addr <= op.remote_addr && op.remote_addr + op.len <= addr + len,
        checked is Ok <==> posted is Ok,
        final(destination)@.len() == old(destination)@.len(),
        final(destination)@[i] == (if posted is Ok && i < op.len {
            segment@[op.remote_addr - addr + i]
        } else {
            old(destination)@[i]
        }),
        posted is Ok ==> {
            &&& final(driver)@.completions.len() == old(driver)@.completions.len() + 1
            &&& final(driver)@.completions.drop_last() == old(driver)@.completions
            &&& final(driver)@.completions.last().user_ctx == op.user_ctx
            &&& final(driver)@.completions.last().status == 0
        },
        posted is Err ==> final(driver)@.completions == old(driver)@.completions,
        final(driver)@.regions == old(driver)@.regions,
{
    assert(old(driver)@.completions.push(
        UrmaCompletion { user_ctx: op.user_ctx, status: 0 },
    ).drop_last() =~= old(driver)@.completions);
}

/// A read through a handle that could not be decoded is refused, with the
/// reason at the end, and changes nothing.
pub proof fn law_undecoded_handles_are_refused(
    driver: &mut LoopbackUrmaDriver,
    op: UrmaReadOp,
    detail: String,
    segment: &[u8],
    destination: &mut [u8],
    posted: Result<(), String>,
)
    requires
        call_ensures(
            LoopbackUrmaDriver::post_read,
            (driver, &op, &Err::<LoopbackWire, String>(detail), segment, destination),
            posted,
        ),
    ensures
        posted matches Err(text) && crate::text::ends_with(text@, detail@),
        final(destination)@ == old(destination)@,
        final(driver)@ == old(driver)@,
{
    crate::text::lemma_ends_with("invalid loopback wire handle: "@, detail@);
}

proof fn lemma_kept_regions(
    before: Seq<(usize, u64)>,
    keep: spec_fn((usize, u64)) -> bool,
    region: (usize, u64),
)
    requires
        before.filter(keep).contains(region),
    ensures
        before.contains(region),
    decreases before.len(),
{
    reveal(Seq::filter);
    if before.len() > 0 {
        let front = before.drop_last();
        let kept = front.filter(keep);
        let i = choose|i: int| 0 <= i < before.filter(keep).len() && before.filter(keep)[i] == region;
        if i < kept.len() {
            assert(kept[i] == region);
            lemma_kept_regions(front, keep, region);
            let j = choose|j: int| 0 <= j < front.len() && front[j] == region;
            assert(before[j] == region);
        } else {
            assert(before[before.len() - 1] == region);
        }
    }
}

/// Releasing an address drops the regions registered there, and those alone.
pub proof fn law_released_regions_are_gone(
    driver: &mut LoopbackUrmaDriver,
    addr: usize,
    done: (),
    region: (usize, u64),
)
    requires
        call_ensures(LoopbackUrmaDriver::unregister_region, (driver, addr), done),
    ensures
        final(driver)@.regions.contains(region) <==> old(driver)@.regions.contains(region)
            && region.0 != addr,
        final(driver)@.completions == old(driver)@.completions,
        final(driver)@.handle == old(driver)@.handle,
{
    let keep = |region: (usize, u64)| region.0 != addr;
    let before = old(driver)@.regions;
    let after = before.filter(keep);
    assert(final(driver)@.regions == after);
    before.filter_lemma(keep);
    if after.contains(region) {
        let i = choose|i: int| 0 <= i < after.len() && after[i] == region;
        assert(keep(after[i]));
        lemma_kept_regions(before, keep, region);
    }
    if before.contains(region) && region.0 != addr {
        let i = choose|i: int| 0 <= i < before.len() && before[i] == region;
        assert(keep(before[i]));
        assert(after.contains(before[i]));
    }
}

/// A poll appends the oldest completions, as many as there is room for, in
/// their order, and leaves the others queued in theirs.
pub proof fn law_polls_report_the_oldest(
    driver: &mut LoopbackUrmaDriver,
    limit: usize,
    out: &mut Vec<UrmaCompletion>,
    drained: usize,
)
    requires
        call_ensures(LoopbackUrmaDriver::poll_completions, (driver, limit, out), drained),
    ensures
        drained <= limit,
        final(driver)@.completions.len() > 0 ==> drained == limit,
        final(out)@.len() == old(out)@.len() + drained,
        final(out)@.take(old(out)@.len() as int) == old(out)@,
        final(out)@.skip(old(out)@.len() as int) + final(driver)@.completions
            == old(driver)@.completions,
        final(driver)@.regions == old(driver)@.regions,
        final(driver)@.handle == old(driver)@.handle,
{
    let queued = old(driver)@.completions;
    assert(final(out)@.take(old(out)@.len() as int) =~= old(out)@);
    assert(final(out)@.skip(old(out)@.len() as int) + final(driver)@.completions =~= queued);
}

/// A driver that was shut down holds no region and reports nothing, and is
/// still known by its name.
pub proof fn law_shut_down_drivers_are_empty(driver: &mut LoopbackUrmaDriver, done: ())
    requires
        call_ensures(LoopbackUrmaDriver::shutdown, (driver,), done),
    ensures
        final(driver)@.regions.len() == 0,
        final(driver)@.completions.len() == 0,
        final(driver)@.handle == old(driver)@.handle,
{
}

/// A new driver is empty. The identity that it advertises ends with its name,
/// offers jetties to bind, and its EID parses to sixteen bytes: `lb`, then the
/// front of the name, then zeros.
pub proof fn law_drivers_are_known_by_their_names(
    name: &str,
    driver: LoopbackUrmaDriver,
    handle: UbLocalHandle,
    eid: &str,
    parsed: Option<[u8; 16]>,
    i: int,
)
    requires
        call_ensures(LoopbackUrmaDriver::new, (name,), driver),
        call_ensures(LoopbackUrmaDriver::local_handle, (&driver,), handle),
        eid@ == handle.eid@,
        call_ensures(eid_from_hex32, (eid,), parsed),
        0 <= i < 14,
    ensures
        driver@.regions.len() == 0,
        driver@.completions.len() == 0,
        crate::text::ends_with(handle.device@, name@),
        handle.jetty_ids@.len() == 2,
        handle.jetty_ids@[0] == 1,
        handle.jetty_ids@[1] == 2,
        handle.eid@.len() == 32,
        parsed matches Some(raw) && raw@[0] == 108 && raw@[1] == 98 && raw@[i + 2] == (if i
            < vstd::utf8::encode_utf8(name@).len() {
            vstd::utf8::encode_utf8(name@)[i]
        } else {
            0
        }),
{
    let bytes = vstd::utf8::encode_utf8(name@);
    crate::urma_sys::law_eid_hex_round_trip(loopback_eid(bytes));
    crate::text::lemma_ends_with("loopback-"@, name@);
}

/// An EID survives the trip through its text form, and a copied identity is
/// the same.
pub proof fn law_identities_survive(
    raw: [u8; 16],
    text: String,
    value: &str,
    parsed: Option<[u8; 16]>,
    handle: UbLocalHandle,
    copy: UbLocalHandle,
)
    requires
        call_ensures(hex32, (&raw,), text),
        value@ == text@,
        call_ensures(eid_from_hex32, (value,), parsed),
        call_ensures(UbLocalHandle::duplicate, (&handle,), copy),
    ensures
        parsed matches Some(found) && found@ == raw@,
        copy.device@ == handle.device@,
        copy.eid@ == handle.eid@,
        copy.jetty_ids@ == handle.jetty_ids@,
{
    crate::urma_sys::law_eid_hex_round_trip(raw@);
}

/// A read outside of its segment is refused with the bounds of both.
pub proof fn law_refused_reads_name_the_bounds(
    op: UrmaReadOp,
    wire: LoopbackWire,
    checked: Result<(), String>,
)
    requires
        op.remote_addr + op.len <= u64::MAX,
        wire.base_va + wire.len <= u64::MAX,
        call_ensures(
            LoopbackUrmaDriver::validate_read,
            (&op, &Ok::<LoopbackWire, String>(wire)),
            checked,
        ),
    ensures
        checked is Ok <==> wire.base_va <= op.remote_addr && op.remote_addr + op.len
            <= wire.base_va + wire.len,
        checked matches Err(text) ==> text@ == "loopback read ["@ + crate::text::prefixed_hex(
            op.remote_addr as nat,
        ) + ", "@ + crate::text::prefixed_hex((op.remote_addr + op.len) as nat)
            + ") outside segment ["@ + crate::text::prefixed_hex(wire.base_va as nat) + ", "@
            + crate::text::prefixed_hex((wire.base_va + wire.len) as nat) + ")"@,
{
}

} // verus!
