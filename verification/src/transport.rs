//! Artifact transport over URMA one-sided reads.
//!
//! Metadata flows over a small catalog protocol (artifact key to descriptor
//! carrying the provider's segment handle, EID and jetty ids); bytes flow
//! out-of-band as one-sided reads from the provider's registered memory into
//! local bounce buffers. There is no per-transfer message to the provider: it
//! only ever publishes (map and register) and unpublishes (unregister).
//!
//! Publishing sources:
//! - a file by reference is mapped read-only and registered directly
//!   (zero-copy serving);
//! - a copied file or bytes go into the shared publish arena, which is
//!   registered once at startup.
use crate::catalog::PublishedArtifactCatalog;
use crate::driver::{RegionWire, UbLocalHandle};
use crate::store::{BouncePool, Mmap, UbArena};
use crate::types::P2pEndpoint;
use std::collections::HashMap;
use vstd::prelude::*;

pub mod fetch;
pub mod locator;
pub mod lookup;
pub mod publications;
pub mod publish;
pub mod startup;

verus! {

/// Identifier of the `ub` backend.
pub const UB_BACKEND_ID: &'static str = "ub";

/// Version of the locator form.
pub const LOCATOR_VERSION: u32 = 1;

/// Local fast-path copies move memory in chunks of this size.
pub const LOCAL_COPY_CHUNK: u64 = 8 * 1024 * 1024;

/// Longest one-sided read: its length is a 32-bit number.
pub const MAX_READ_LEN: u64 = 0xffff_ffff;

/// Backing memory of one published artifact.
#[derive(Debug, Clone, Copy)]
pub enum PublishedRegion {
    /// Sub-allocation of the shared publish arena (already registered).
    Arena { offset: u64 },
    /// Individually mapped and registered file (reference-mode publishes).
    File(Mmap),
}

/// URMA-backed artifact transport.
#[derive(Debug)]
pub struct UrmaP2pTransport {
    node_id: String,
    catalog: PublishedArtifactCatalog,
    handle: UbLocalHandle,
    arena: UbArena,
    arena_wire: RegionWire,
    bounce: BouncePool,
    /// Backing memory by base address, used by the local fast path and by
    /// unpublishing.
    regions: HashMap<u64, PublishedRegion>,
    local_endpoint: P2pEndpoint,
    lookup_timeout: u64,
    fetch_timeout: u64,
    slice_size: u64,
    max_inflight_reads: u32,
}

/// The transport, as the model sees it.
#[verifier::ext_equal]
pub ghost struct TransportView {
    pub node_id: Seq<char>,
    pub catalog: crate::catalog::CatalogView,
    pub handle: crate::driver::HandleView,
    pub arena: crate::store::ArenaView,
    /// Segment handle of the arena, and the address that the segment starts
    /// at.
    pub arena_wire: Seq<u8>,
    pub arena_va: u64,
    pub bounce: crate::store::BounceView,
    pub regions: Map<u64, PublishedRegion>,
    pub endpoint: crate::types::EndpointView,
    pub lookup_timeout: u64,
    pub fetch_timeout: u64,
    pub slice_size: u64,
    pub max_inflight_reads: u32,
}

impl View for UrmaP2pTransport {
    type V = TransportView;

    closed spec fn view(&self) -> TransportView {
        TransportView {
            node_id: self.node_id@,
            catalog: self.catalog@,
            handle: self.handle@,
            arena: self.arena@,
            arena_wire: self.arena_wire.wire@,
            arena_va: self.arena_wire.base_va,
            bounce: self.bounce@,
            regions: self.regions@,
            endpoint: self.local_endpoint@,
            lookup_timeout: self.lookup_timeout,
            fetch_timeout: self.fetch_timeout,
            slice_size: self.slice_size,
            max_inflight_reads: self.max_inflight_reads,
        }
    }
}

impl TransportView {
    /// Bounce blocks are one slice each, the mappings lie within the address
    /// space, the arena's segment starts where the arena does, and every
    /// arena region is known by its address.
    pub open spec fn inv(self) -> bool {
        &&& self.arena.inv()
        &&& self.bounce.inv()
        &&& self.bounce.block_size == self.slice_size
        &&& self.slice_size > 0
        &&& self.arena_va == self.arena.map.base
        &&& self.arena.map.base + self.arena.map.len <= u64::MAX
        &&& self.bounce.map.base + self.bounce.map.len <= u64::MAX
        &&& self.arena_wire.len() / 3 * 4 + 4 <= isize::MAX
        &&& forall|base: u64| #[trigger]
            self.regions.contains_key(base) ==> match self.regions[base] {
                PublishedRegion::Arena { offset } => base == self.arena.map.base + offset,
                PublishedRegion::File(_) => true,
            }
    }

    /// A bounce block that is in use.
    pub open spec fn lent(self, block: u64) -> bool {
        self.bounce.is_block(block) && !self.bounce.free.contains(block)
    }
}

impl UrmaP2pTransport {
    /// Where this node answers catalog lookups.
    pub fn local_endpoint(&self) -> (endpoint: Option<P2pEndpoint>)
        ensures
            endpoint matches Some(endpoint) && endpoint@ == self@.endpoint,
    {
        Some(self.local_endpoint.duplicate())
    }

    /// The catalog that is served to peers.
    pub fn catalog(&self) -> (catalog: &PublishedArtifactCatalog)
        ensures
            catalog@ == self@.catalog,
    {
        &self.catalog
    }

    /// The publish arena's mapping.
    pub fn arena_map(&self) -> (map: Mmap)
        ensures
            map == self@.arena.map,
    {
        *self.arena.map()
    }

    /// The bounce pool's mapping.
    pub fn bounce_map(&self) -> (map: Mmap)
        ensures
            map == self@.bounce.map,
    {
        *self.bounce.map()
    }

    /// How long a peer may take to answer a lookup, in milliseconds.
    pub fn lookup_timeout(&self) -> (millis: u64)
        ensures
            millis == self@.lookup_timeout,
    {
        self.lookup_timeout
    }

    /// How long a remote read may take, in milliseconds.
    pub fn fetch_timeout(&self) -> (millis: u64)
        ensures
            millis == self@.fetch_timeout,
    {
        self.fetch_timeout
    }

    /// How many remote reads may be in flight at a time.
    pub fn max_inflight_reads(&self) -> (count: u32)
        ensures
            count == self@.max_inflight_reads,
    {
        self.max_inflight_reads
    }
}

/// A transport tells its settings, its memory and its endpoint as they are.
pub proof fn law_transports_tell_what_they_have(
    transport: UrmaP2pTransport,
    endpoint: Option<P2pEndpoint>,
    arena: Mmap,
    bounce: Mmap,
    lookup: u64,
    fetch: u64,
    reads: u32,
)
    requires
        call_ensures(UrmaP2pTransport::local_endpoint, (&transport,), endpoint),
        call_ensures(UrmaP2pTransport::arena_map, (&transport,), arena),
        call_ensures(UrmaP2pTransport::bounce_map, (&transport,), bounce),
        call_ensures(UrmaP2pTransport::lookup_timeout, (&transport,), lookup),
        call_ensures(UrmaP2pTransport::fetch_timeout, (&transport,), fetch),
        call_ensures(UrmaP2pTransport::max_inflight_reads, (&transport,), reads),
    ensures
        endpoint matches Some(endpoint) && endpoint.backend@ == transport@.endpoint.backend
            && endpoint.address@ == transport@.endpoint.address,
        arena.base == transport@.arena.map.base,
        arena.len == transport@.arena.map.len,
        bounce.base == transport@.bounce.map.base,
        bounce.len == transport@.bounce.map.len,
        lookup == transport@.lookup_timeout,
        fetch == transport@.fetch_timeout,
        reads == transport@.max_inflight_reads,
{
}

/// The catalog that peers are served from is the transport's.
pub proof fn law_peers_see_the_catalog(
    transport: UrmaP2pTransport,
    catalog: &PublishedArtifactCatalog,
    key: String,
    held: Option<crate::types::P2pArtifactDescriptor>,
)
    requires
        call_ensures(UrmaP2pTransport::catalog, (&transport,), catalog),
        call_ensures(PublishedArtifactCatalog::descriptor_for, (catalog, &key), held),
    ensures
        held is Some <==> transport@.catalog.entries.contains_key(key@),
        held matches Some(held) ==> held@ == transport@.catalog.entries[key@],
{
}

} // verus!
