//! Bringing the transport up.
use crate::catalog::{CatalogReset, PublishedArtifactCatalog, StoreScan};
use crate::config::{raised, ResolvedP2pConfig, ResolvedUbP2pConfig};
use crate::driver::lib_urma::LibUrmaDriverConfig;
use crate::driver::{RegionAccess, RegionWire, UbLocalHandle};
use crate::error::Error;
use crate::paths::{join, with_path};
use crate::store::{BouncePool, Mmap, UbArena};
use crate::text::debug_quoted;
use crate::transport::fetch::is_internal;
use crate::transport::{TransportView, UrmaP2pTransport, UB_BACKEND_ID};
use crate::types::P2pEndpoint;
use std::collections::HashMap;
use vstd::prelude::*;

verus! {

broadcast use {vstd::array::group_array_axioms, vstd::std_specs::hash::group_hash_axioms};

/// An IP address.
#[derive(Debug, Clone, Copy)]
pub enum IpAddress {
    V4([u8; 4]),
    V6([u8; 16]),
}

/// A socket address.
#[derive(Debug, Clone, Copy)]
pub struct SocketAddress {
    pub ip: IpAddress,
    pub port: u16,
    /// Only of version 6 addresses.
    pub flowinfo: u32,
    /// Only of version 6 addresses.
    pub scope_id: u32,
}

impl IpAddress {
    /// The octets of the address.
    pub open spec fn octets(self) -> Seq<u8> {
        match self {
            IpAddress::V4(octets) => octets@,
            IpAddress::V6(octets) => octets@,
        }
    }

    /// The address that stands for every address of the host.
    pub open spec fn unspecified(self) -> bool {
        forall|i: int| 0 <= i < self.octets().len() ==> self.octets()[i] == 0
    }

    /// Whether the address stands for every address of the host.
    pub fn is_unspecified(&self) -> (found: bool)
        ensures
            found == self.unspecified(),
    {
        match self {
            IpAddress::V4(octets) => {
                let mut i: usize = 0;
                while i < 4
                    invariant
                        i <= 4,
                        octets@.len() == 4,
                        self.octets() == octets@,
                        forall|j: int| 0 <= j < i ==> octets@[j] == 0,
                    decreases 4 - i,
                {
                    if octets[i] != 0 {
                        return false;
                    }
                    i = i + 1;
                }
                true
            },
            IpAddress::V6(octets) => {
                let mut i: usize = 0;
                while i < 16
                    invariant
                        i <= 16,
                        octets@.len() == 16,
                        self.octets() == octets@,
                        forall|j: int| 0 <= j < i ==> octets@[j] == 0,
                    decreases 16 - i,
                {
                    if octets[i] != 0 {
                        return false;
                    }
                    i = i + 1;
                }
                true
            },
        }
    }
}

/// The address under which a bound listener is advertised: an unspecified one
/// is replaced by the host's primary outbound address, if that is known.
pub open spec fn advertised(
    bound: SocketAddress,
    probed: Option<SocketAddress>,
) -> SocketAddress {
    match probed {
        Some(local) => if bound.ip.unspecified() {
            SocketAddress { ip: local.ip, port: bound.port, flowinfo: 0, scope_id: 0 }
        } else {
            bound
        },
        None => bound,
    }
}

/// Replace an unspecified bound address with the host's primary outbound
/// address, where `probed` is what finding that out came to.
pub fn advertise_addr(bound: SocketAddress, probed: Option<SocketAddress>) -> (advertise:
    SocketAddress)
    ensures
        advertise == advertised(bound, probed),
{
    if !bound.ip.is_unspecified() {
        return bound;
    }
    match probed {
        Some(local) => SocketAddress {
            ip: local.ip,
            port: bound.port,
            flowinfo: 0,
            scope_id: 0,
        },
        None => bound,
    }
}

/// Settings of the FFI driver: at least one jetty, one work request and 64
/// completions.
pub open spec fn is_driver_config(ub: ResolvedUbP2pConfig, config: LibUrmaDriverConfig) -> bool {
    &&& config.device@ == ub.device@
    &&& config.jetty_count == crate::config::at_least(ub.jetty_count as int, 1)
    &&& config.max_wr == crate::config::at_least(ub.max_wr as int, 1)
    &&& config.jfc_depth == crate::config::at_least(ub.jfc_depth as int, 64)
}

/// Settings of the FFI driver.
pub fn ffi_driver(ub: &ResolvedUbP2pConfig) -> (config: LibUrmaDriverConfig)
    ensures
        is_driver_config(*ub, config),
{
    LibUrmaDriverConfig {
        device: ub.device.clone(),
        jetty_count: raised(ub.jetty_count, 1),
        max_wr: raised(ub.max_wr, 1),
        jfc_depth: raised(ub.jfc_depth, 64),
    }
}

/// Memory and identity that the transport has acquired.
#[derive(Debug)]
pub struct Resources {
    pub handle: UbLocalHandle,
    pub arena: Mmap,
    pub arena_wire: RegionWire,
    pub bounce: Mmap,
}

/// What starting the transport does next.
#[derive(Debug)]
pub enum StartupStep {
    /// Start a loopback driver of that name, and its worker.
    StartLoopback { name: String },
    /// Start a driver over `liburma`, and its worker.
    StartFfi { config: LibUrmaDriverConfig },
    /// Map the publish arena.
    MapArena { handle: UbLocalHandle, len: u64 },
    /// Register the publish arena for remote reads.
    RegisterArena { handle: UbLocalHandle, arena: Mmap },
    /// Map the bounce pool.
    MapBounce { handle: UbLocalHandle, arena: Mmap, arena_wire: RegionWire, len: u64 },
    /// Register the bounce pool for local use.
    RegisterBounce { resources: Resources },
    /// Parse the listen address.
    ParseListen { resources: Resources, address: String },
    /// Bind the catalog listener to the address just parsed.
    Bind { resources: Resources },
    /// Read the address that the listener is bound to.
    BoundAddress { resources: Resources },
    /// Find out the host's primary outbound address.
    ProbeRoute { resources: Resources, bound: SocketAddress },
    /// Render the advertised address.
    RenderAddress { resources: Resources, address: SocketAddress },
    /// Create the store directory.
    CreateDir { resources: Resources, endpoint: P2pEndpoint, dir: Vec<u8> },
    /// Read the persisted catalog.
    LoadCatalog { resources: Resources, endpoint: P2pEndpoint, path: Vec<u8> },
    /// Delete an entry of a previous run from the store.
    ResetCatalog {
        resources: Resources,
        endpoint: P2pEndpoint,
        catalog: PublishedArtifactCatalog,
        reset: CatalogReset,
    },
    /// Serve the catalog on the listener.
    Serve { resources: Resources, endpoint: P2pEndpoint, catalog: PublishedArtifactCatalog },
    Ready(UrmaP2pTransport),
    Failed(Error),
}

impl StartupStep {
    /// The memory that the step registers, and who may read it.
    pub open spec fn registers(self) -> Option<(Mmap, RegionAccess)> {
        match self {
            StartupStep::RegisterArena { arena, .. } => Some((arena, RegionAccess::RemoteRead)),
            StartupStep::RegisterBounce { resources } => Some(
                (resources.bounce, RegionAccess::LocalOnly),
            ),
            _ => None,
        }
    }

    /// The memory that the step registers, and who may read it: peers read
    /// the publish arena, and nobody else's reads reach the bounce pool.
    /// `None` of a step that registers nothing.
    pub fn registration(&self) -> (registration: Option<(Mmap, RegionAccess)>)
        ensures
            registration == self.registers(),
    {
        match self {
            StartupStep::RegisterArena { arena, .. } => Some((*arena, RegionAccess::RemoteRead)),
            StartupStep::RegisterBounce { resources } => Some(
                (resources.bounce, RegionAccess::LocalOnly),
            ),
            _ => None,
        }
    }
}

/// Why a driver did not start.
#[derive(Debug)]
pub enum DriverFailure {
    /// The program was built without the driver.
    Unavailable,
    Failed(String),
}

/// What a step of starting the transport came to.
#[derive(Debug)]
pub enum StartupEvent {
    Driver(Result<UbLocalHandle, DriverFailure>),
    Mapped(Result<Mmap, String>),
    Registered(Result<RegionWire, String>),
    Done(Result<(), String>),
    Bound(Result<SocketAddress, String>),
    Probed(Option<SocketAddress>),
    Rendered(String),
    Scanned(StoreScan),
    Deleted(Result<(), String>),
}

/// A mapping of the given length that lies within the address space.
pub open spec fn is_mapping(map: Mmap, len: int) -> bool {
    map.len == len && map.base + map.len <= u64::MAX
}

/// A region handle that starts at the region and is of manageable length.
pub open spec fn is_handle_of(map: Mmap, region: RegionWire) -> bool {
    region.base_va == map.base && region.wire@.len() / 3 * 4 + 4 <= isize::MAX
}

/// Whether `event` can come of `now`.
pub open spec fn startup_expects(now: StartupStep, event: StartupEvent) -> bool {
    match now {
        StartupStep::StartLoopback { .. } => event matches StartupEvent::Driver(started) && started
            is Ok,
        StartupStep::StartFfi { .. } => event is Driver,
        StartupStep::MapArena { len, .. } | StartupStep::MapBounce { len, .. } => event matches
            StartupEvent::Mapped(mapped) && (mapped matches Ok(map) ==> is_mapping(
            map,
            len as int,
        )),
        StartupStep::RegisterArena { arena, .. } => event matches StartupEvent::Registered(
            registered,
        ) && (registered matches Ok(region) ==> is_handle_of(arena, region)),
        StartupStep::RegisterBounce { .. } => event is Registered,
        StartupStep::ParseListen { .. } | StartupStep::Bind { .. } | StartupStep::CreateDir {
            ..
        } | StartupStep::Serve { .. } => event is Done,
        StartupStep::BoundAddress { .. } => event is Bound,
        StartupStep::ProbeRoute { .. } => event is Probed,
        StartupStep::RenderAddress { .. } => event is Rendered,
        StartupStep::LoadCatalog { .. } => event is Scanned,
        StartupStep::ResetCatalog { .. } => event is Deleted,
        StartupStep::Ready(_) | StartupStep::Failed(_) => false,
    }
}

/// The startup failed: the step `context` of it, for the given cause.
pub open spec fn startup_failed(step: StartupStep, context: Seq<char>, cause: Seq<char>) -> bool {
    step matches StartupStep::Failed(error) && is_internal(error, context, cause)
}

/// How starting the transport begins: the settings are checked, and the
/// driver that they name is started.
pub open spec fn startup_begins(
    config: ResolvedP2pConfig,
    node_id: Seq<char>,
    next: StartupStep,
) -> bool {
    let ub = config.ub;
    if ub.slice_size == 0 || ub.slice_size % 4096 != 0 {
        startup_failed(
            next,
            "validate p2p.ub.slice_size_bytes"@,
            "must be a positive multiple of 4096"@,
        )
    } else if ub.arena_size < ub.slice_size {
        startup_failed(
            next,
            "validate p2p.ub.arena_size_bytes"@,
            "must be at least p2p.ub.slice_size_bytes"@,
        )
    } else if ub.driver@ == "loopback"@ {
        next matches StartupStep::StartLoopback { name } && name@ == node_id
    } else if ub.driver@ == "ffi"@ {
        next matches StartupStep::StartFfi { config } && is_driver_config(ub, config)
    } else {
        startup_failed(
            next,
            "validate p2p.ub.driver"@,
            "unknown driver "@ + crate::text::debug_text(ub.driver@)
                + "; expected \"ffi\" or \"loopback\""@,
        )
    }
}

/// The address that the catalog listens on: its own setting, or that of the
/// transport, or any address and port.
pub open spec fn listen_address(config: ResolvedP2pConfig) -> Seq<char> {
    match config.ub.catalog_listen_addr {
        Some(address) => address@,
        None => match config.listen_addr {
            Some(address) => address@,
            None => "0.0.0.0:0"@,
        },
    }
}

/// Where the transport keeps its files.
pub open spec fn store_dir(config: ResolvedP2pConfig) -> Seq<u8> {
    crate::paths::joined(config.store_dir@, vstd::utf8::encode_utf8(UB_BACKEND_ID@))
}

/// Where the catalog is persisted.
pub open spec fn catalog_path(config: ResolvedP2pConfig) -> Seq<u8> {
    crate::paths::joined(store_dir(config), vstd::utf8::encode_utf8("catalog.db"@))
}

/// What loading the persisted catalog comes to.
pub open spec fn catalog_loads(
    node_id: Seq<char>,
    endpoint: crate::types::EndpointView,
    scan: StoreScan,
    catalog: crate::catalog::CatalogView,
) -> bool {
    scan matches StoreScan::Records(records) && {
        &&& forall|i: int| 0 <= i < records@.len() ==> (#[trigger] records@[i]).descriptor is Ok
        &&& catalog == (crate::catalog::CatalogView {
            entries: crate::catalog::loaded(records@),
            local: crate::types::PeerView { node_id, endpoint },
        })
    }
}

/// Why the persisted catalog cannot be loaded.
pub open spec fn is_load_error(db_path: Seq<u8>, scan: StoreScan, error: Error) -> bool {
    match scan {
        StoreScan::OpenFailed(detail) => is_internal(
            error,
            "open P2P catalog "@ + crate::text::utf8_lossy(db_path),
            detail@,
        ),
        StoreScan::ScanFailed(detail) => is_internal(
            error,
            "scan P2P catalog "@ + crate::text::utf8_lossy(db_path),
            detail@,
        ),
        StoreScan::Records(records) => exists|at: int| #[trigger]
            crate::catalog::first_unparsed(records@, at) && error@
                == crate::catalog::unparsed_error(db_path, records@[at]),
    }
}

/// Where the startup goes with a loaded catalog: entries of a previous run
/// are deleted one by one, then the catalog is served.
pub open spec fn resets(
    held: Resources,
    at: P2pEndpoint,
    loaded: crate::catalog::CatalogView,
    keys: Seq<Seq<char>>,
    next: StartupStep,
) -> bool {
    if keys.len() == 0 {
        next matches StartupStep::Serve { resources, endpoint, catalog } && resources == held
            && endpoint == at && catalog@ == loaded
    } else {
        next matches StartupStep::ResetCatalog { resources, endpoint, catalog, reset } && resources
            == held && endpoint == at && catalog@ == loaded && reset@ == keys
    }
}

/// A transport that has just come up.
pub open spec fn fresh_transport(
    config: ResolvedP2pConfig,
    node_id: Seq<char>,
    resources: Resources,
    endpoint: crate::types::EndpointView,
    catalog: crate::catalog::CatalogView,
) -> TransportView {
    let blocks = config.ub.max_inflight_reads;
    let size = config.ub.slice_size;
    TransportView {
        node_id,
        catalog,
        handle: resources.handle@,
        arena: crate::store::ArenaView { map: resources.arena, cursor: 0, live: Map::empty() },
        arena_wire: resources.arena_wire.wire@,
        arena_va: resources.arena_wire.base_va,
        bounce: crate::store::BounceView {
            map: resources.bounce,
            block_size: size,
            free: Seq::new(blocks as nat, |i: int| ((blocks - 1 - i) * size) as u64),
        },
        regions: Map::empty(),
        endpoint,
        lookup_timeout: config.lookup_timeout,
        fetch_timeout: config.fetch_timeout,
        slice_size: size,
        max_inflight_reads: blocks,
    }
}

/// How starting the transport goes on.
pub open spec fn startup_goes_on(
    config: ResolvedP2pConfig,
    node_id: Seq<char>,
    now: StartupStep,
    event: StartupEvent,
    next: StartupStep,
) -> bool {
    match (now, event) {
        (
            StartupStep::StartLoopback { .. } | StartupStep::StartFfi { .. },
            StartupEvent::Driver(started),
        ) => match started {
            Ok(identity) => next matches StartupStep::MapArena { handle, len } && handle
                == identity && len == config.ub.arena_size,
            Err(DriverFailure::Unavailable) => startup_failed(
                next,
                "initialize ub P2P transport"@,
                "p2p.ub.driver = \"ffi\" requires building with the `p2p-urma` cargo feature"@,
            ),
            Err(DriverFailure::Failed(detail)) => startup_failed(
                next,
                "initialize liburma driver"@,
                detail@,
            ),
        },
        (StartupStep::MapArena { handle: identity, .. }, StartupEvent::Mapped(mapped)) => {
            match mapped {
                Ok(map) => next matches StartupStep::RegisterArena { handle, arena } && handle
                    == identity && arena == map,
                Err(detail) => startup_failed(next, "create ub publish arena"@, detail@),
            }
        },
        (
            StartupStep::RegisterArena { handle: identity, arena: map },
            StartupEvent::Registered(registered),
        ) => match registered {
            Ok(region) => {
                let total = config.ub.slice_size * config.ub.max_inflight_reads;
                if total > u64::MAX {
                    startup_failed(next, "create ub bounce pool"@, "bounce pool overflow"@)
                } else {
                    next matches StartupStep::MapBounce { handle, arena, arena_wire, len }
                        && handle == identity && arena == map && arena_wire == region && len
                        == total
                }
            },
            Err(detail) => startup_failed(next, "register ub publish arena"@, detail@),
        },
        (
            StartupStep::MapBounce { handle, arena, arena_wire, .. },
            StartupEvent::Mapped(mapped),
        ) => match mapped {
            Ok(map) => next == (StartupStep::RegisterBounce {
                resources: Resources { handle, arena, arena_wire, bounce: map },
            }),
            Err(detail) => startup_failed(next, "create ub bounce pool"@, detail@),
        },
        (StartupStep::RegisterBounce { resources: held }, StartupEvent::Registered(registered)) => {
            match registered {
                Ok(_) => next matches StartupStep::ParseListen { resources, address } && resources
                    == held && address@ == listen_address(config),
                Err(detail) => startup_failed(next, "register ub bounce pool"@, detail@),
            }
        },
        (StartupStep::ParseListen { resources, .. }, StartupEvent::Done(done)) => match done {
            Ok(()) => next == (StartupStep::Bind { resources }),
            Err(detail) => startup_failed(next, "parse ub catalog listen address"@, detail@),
        },
        (StartupStep::Bind { resources }, StartupEvent::Done(done)) => match done {
            Ok(()) => next == (StartupStep::BoundAddress { resources }),
            Err(detail) => startup_failed(next, "bind ub P2P catalog listener"@, detail@),
        },
        (StartupStep::BoundAddress { resources }, StartupEvent::Bound(bound)) => match bound {
            Ok(bound) => if bound.ip.unspecified() {
                next == (StartupStep::ProbeRoute { resources, bound })
            } else {
                next == (StartupStep::RenderAddress { resources, address: bound })
            },
            Err(detail) => startup_failed(next, "read ub catalog listener address"@, detail@),
        },
        (StartupStep::ProbeRoute { resources, bound }, StartupEvent::Probed(probed)) => next == (
        StartupStep::RenderAddress { resources, address: advertised(bound, probed) }),
        (StartupStep::RenderAddress { resources: held, .. }, StartupEvent::Rendered(text)) => {
            next matches StartupStep::CreateDir { resources, endpoint, dir } && resources == held
                && endpoint.backend@ == UB_BACKEND_ID@ && endpoint.address@ == text@ && dir@
                == store_dir(config)
        },
        (StartupStep::CreateDir { resources: held, endpoint: at, .. }, StartupEvent::Done(done)) => {
            match done {
                Ok(()) => next matches StartupStep::LoadCatalog { resources, endpoint, path }
                    && resources == held && endpoint == at && path@ == catalog_path(config),
                Err(detail) => startup_failed(
                    next,
                    "create ub P2P store dir "@ + crate::text::utf8_lossy(store_dir(config)),
                    detail@,
                ),
            }
        },
        (StartupStep::LoadCatalog { resources, endpoint, .. }, StartupEvent::Scanned(scan)) => {
            ||| exists|catalog: crate::catalog::CatalogView, keys: Seq<Seq<char>>|
                {
                    &&& catalog_loads(node_id, endpoint@, scan, catalog)
                    &&& keys.no_duplicates()
                    &&& keys.to_set() == catalog.entries.dom()
                    &&& #[trigger] resets(resources, endpoint, catalog, keys, next)
                }
            ||| next matches StartupStep::Failed(error) && is_load_error(
                catalog_path(config),
                scan,
                error,
            )
        },
        (
            StartupStep::ResetCatalog { resources, endpoint, catalog, reset },
            StartupEvent::Deleted(deleted),
        ) => match deleted {
            Ok(()) => resets(
                resources,
                endpoint,
                catalog@.without(reset@[0]),
                reset@.drop_first(),
                next,
            ),
            Err(detail) => startup_failed(
                next,
                "delete P2P catalog entry "@ + reset@[0],
                detail@,
            ),
        },
        (StartupStep::Serve { resources, endpoint, catalog }, StartupEvent::Done(done)) => {
            match done {
                Ok(()) => next matches StartupStep::Ready(transport) && transport@
                    == fresh_transport(config, node_id, resources, endpoint@, catalog@),
                Err(detail) => startup_failed(
                    next,
                    "read ub P2P catalog listener address"@,
                    detail@,
                ),
            }
        },
        (_, _) => false,
    }
}

/// The acquired memory suits the settings.
pub open spec fn resources_sound(config: ResolvedP2pConfig, resources: Resources) -> bool {
    &&& is_mapping(resources.arena, config.ub.arena_size as int)
    &&& is_handle_of(resources.arena, resources.arena_wire)
    &&& is_mapping(resources.bounce, config.ub.slice_size * config.ub.max_inflight_reads)
}

/// What holds at every point of a startup: the settings are valid, the memory
/// suits them, the endpoint is one of this backend, and a catalog that is
/// served holds nothing of a previous run.
pub open spec fn startup_sound(
    config: ResolvedP2pConfig,
    node_id: Seq<char>,
    now: StartupStep,
) -> bool {
    &&& now !is Failed ==> {
        &&& config.ub.slice_size > 0
        &&& config.ub.slice_size % 4096 == 0
        &&& config.ub.arena_size >= config.ub.slice_size
    }
    &&& match now {
        StartupStep::MapArena { len, .. } => len == config.ub.arena_size,
        StartupStep::RegisterArena { arena, .. } => is_mapping(arena, config.ub.arena_size as int),
        StartupStep::MapBounce { arena, arena_wire, len, .. } => {
            &&& is_mapping(arena, config.ub.arena_size as int)
            &&& is_handle_of(arena, arena_wire)
            &&& len == config.ub.slice_size * config.ub.max_inflight_reads
        },
        StartupStep::RegisterBounce { resources } | StartupStep::ParseListen { resources, .. }
        | StartupStep::Bind { resources } | StartupStep::BoundAddress { resources }
        | StartupStep::ProbeRoute { resources, .. } | StartupStep::RenderAddress {
            resources,
            ..
        } => resources_sound(config, resources),
        StartupStep::CreateDir { resources, endpoint, .. } | StartupStep::LoadCatalog {
            resources,
            endpoint,
            ..
        } => resources_sound(config, resources) && endpoint.backend@ == UB_BACKEND_ID@,
        StartupStep::ResetCatalog { resources, endpoint, catalog, reset } => {
            &&& resources_sound(config, resources)
            &&& endpoint.backend@ == UB_BACKEND_ID@
            &&& catalog@.local == (crate::types::PeerView { node_id, endpoint: endpoint@ })
            &&& reset@.len() > 0
            &&& reset@.no_duplicates()
            &&& reset@.to_set() == catalog@.entries.dom()
        },
        StartupStep::Serve { resources, endpoint, catalog } => {
            &&& resources_sound(config, resources)
            &&& endpoint.backend@ == UB_BACKEND_ID@
            &&& catalog@.local == (crate::types::PeerView { node_id, endpoint: endpoint@ })
            &&& catalog@.entries == Map::<Seq<char>, crate::types::DescriptorView>::empty()
        },
        StartupStep::Ready(transport) => {
            &&& transport@.inv()
            &&& transport@.endpoint.backend == UB_BACKEND_ID@
            &&& transport@.catalog.local == (crate::types::PeerView {
                node_id,
                endpoint: transport@.endpoint,
            })
            &&& transport@.catalog.entries == Map::<
                Seq<char>,
                crate::types::DescriptorView,
            >::empty()
        },
        _ => true,
    }
}

fn internal(context: &str, cause: String) -> (step: StartupStep)
    ensures
        startup_failed(step, context@, cause@),
{
    StartupStep::Failed(Error::Internal { context: context.to_string(), cause })
}

fn reset_or_serve(
    resources: Resources,
    endpoint: P2pEndpoint,
    catalog: PublishedArtifactCatalog,
    reset: CatalogReset,
) -> (next: StartupStep)
    ensures
        resets(resources, endpoint, catalog@, reset@, next),
{
    if reset.next_key().is_some() {
        StartupStep::ResetCatalog { resources, endpoint, catalog, reset }
    } else {
        StartupStep::Serve { resources, endpoint, catalog }
    }
}

/// Dropping the first of the keys that make up a catalog leaves the rest of
/// them.
proof fn lemma_rest_of_keys(catalog: crate::catalog::CatalogView, keys: Seq<Seq<char>>)
    requires
        keys.len() > 0,
        keys.no_duplicates(),
        keys.to_set() == catalog.entries.dom(),
    ensures
        keys.drop_first().no_duplicates(),
        keys.drop_first().to_set() == catalog.without(keys[0]).entries.dom(),
{
    let rest = keys.drop_first();
    assert forall|key: Seq<char>| rest.to_set().contains(key) == catalog.without(
        keys[0],
    ).entries.dom().contains(key) by {
        if rest.contains(key) {
            let i = choose|i: int| 0 <= i < rest.len() && rest[i] == key;
            assert(keys[i + 1] == key);
            assert(keys.to_set().contains(key));
        }
        if catalog.without(keys[0]).entries.dom().contains(key) {
            assert(keys.to_set().contains(key));
            let i = choose|i: int| 0 <= i < keys.len() && keys[i] == key;
            assert(rest[i - 1] == key);
        }
    }
    assert(rest.to_set() =~= catalog.without(keys[0]).entries.dom());
}

/// No keys make up the empty catalog.
proof fn lemma_no_keys(catalog: crate::catalog::CatalogView, keys: Seq<Seq<char>>)
    requires
        keys.len() == 0,
        keys.to_set() == catalog.entries.dom(),
    ensures
        catalog.entries == Map::<Seq<char>, crate::types::DescriptorView>::empty(),
{
    assert forall|key: Seq<char>| !catalog.entries.dom().contains(key) by {
        assert(!keys.to_set().contains(key));
    }
    assert(catalog.entries =~= Map::empty());
}

impl UrmaP2pTransport {
    /// Start a transport: check the settings and choose the driver.
    pub fn new(config: &ResolvedP2pConfig, node_id: &str) -> (next: StartupStep)
        ensures
            startup_begins(*config, node_id@, next),
            startup_sound(*config, node_id@, next),
    {
        let ub = &config.ub;
        if ub.slice_size == 0 || ub.slice_size % 4096 != 0 {
            return internal(
                "validate p2p.ub.slice_size_bytes",
                "must be a positive multiple of 4096".to_string(),
            );
        }
        if ub.arena_size < ub.slice_size {
            return internal(
                "validate p2p.ub.arena_size_bytes",
                "must be at least p2p.ub.slice_size_bytes".to_string(),
            );
        }
        if *ub.driver.as_str() == *"loopback" {
            StartupStep::StartLoopback { name: node_id.to_string() }
        } else if *ub.driver.as_str() == *"ffi" {
            StartupStep::StartFfi { config: ffi_driver(ub) }
        } else {
            let mut cause = "unknown driver ".to_string();
            cause.append(debug_quoted(ub.driver.as_str()).as_str());
            cause.append("; expected \"ffi\" or \"loopback\"");
            internal("validate p2p.ub.driver", cause)
        }
    }

    /// Go on starting a transport with what the current step came to.
    pub fn advance_startup(
        config: &ResolvedP2pConfig,
        node_id: &str,
        now: StartupStep,
        event: StartupEvent,
    ) -> (next: StartupStep)
        requires
            startup_expects(now, event),
            startup_sound(*config, node_id@, now),
        ensures
            startup_goes_on(*config, node_id@, now, event, next),
            startup_sound(*config, node_id@, next),
    {
        match (now, event) {
            (
                StartupStep::StartLoopback { .. } | StartupStep::StartFfi { .. },
                StartupEvent::Driver(started),
            ) => match started {
                Ok(handle) => StartupStep::MapArena { handle, len: config.ub.arena_size },
                Err(DriverFailure::Unavailable) => internal(
                    "initialize ub P2P transport",
                    "p2p.ub.driver = \"ffi\" requires building with the `p2p-urma` cargo feature".to_string(),
                ),
                Err(DriverFailure::Failed(detail)) => internal("initialize liburma driver", detail),
            },
            (StartupStep::MapArena { handle, .. }, StartupEvent::Mapped(mapped)) => match mapped {
                Ok(arena) => StartupStep::RegisterArena { handle, arena },
                Err(detail) => internal("create ub publish arena", detail),
            },
            (
                StartupStep::RegisterArena { handle, arena },
                StartupEvent::Registered(registered),
            ) => match registered {
                Ok(arena_wire) => match BouncePool::total_len(
                    config.ub.slice_size,
                    config.ub.max_inflight_reads,
                ) {
                    Some(len) => StartupStep::MapBounce { handle, arena, arena_wire, len },
                    None => internal("create ub bounce pool", "bounce pool overflow".to_string()),
                },
                Err(detail) => internal("register ub publish arena", detail),
            },
            (
                StartupStep::MapBounce { handle, arena, arena_wire, .. },
                StartupEvent::Mapped(mapped),
            ) => match mapped {
                Ok(bounce) => StartupStep::RegisterBounce {
                    resources: Resources { handle, arena, arena_wire, bounce },
                },
                Err(detail) => internal("create ub bounce pool", detail),
            },
            (
                StartupStep::RegisterBounce { resources },
                StartupEvent::Registered(registered),
            ) => match registered {
                Ok(_) => {
                    let address = match (&config.ub.catalog_listen_addr, &config.listen_addr) {
                        (Some(address), _) => address.clone(),
                        (None, Some(address)) => address.clone(),
                        (None, None) => "0.0.0.0:0".to_string(),
                    };
                    StartupStep::ParseListen { resources, address }
                },
                Err(detail) => internal("register ub bounce pool", detail),
            },
            (StartupStep::ParseListen { resources, .. }, StartupEvent::Done(done)) => match done {
                Ok(()) => StartupStep::Bind { resources },
                Err(detail) => internal("parse ub catalog listen address", detail),
            },
            (StartupStep::Bind { resources }, StartupEvent::Done(done)) => match done {
                Ok(()) => StartupStep::BoundAddress { resources },
                Err(detail) => internal("bind ub P2P catalog listener", detail),
            },
            (StartupStep::BoundAddress { resources }, StartupEvent::Bound(bound)) => match bound {
                Ok(bound) => if bound.ip.is_unspecified() {
                    StartupStep::ProbeRoute { resources, bound }
                } else {
                    StartupStep::RenderAddress { resources, address: bound }
                },
                Err(detail) => internal("read ub catalog listener address", detail),
            },
            (
                StartupStep::ProbeRoute { resources, bound },
                StartupEvent::Probed(probed),
            ) => StartupStep::RenderAddress { resources, address: advertise_addr(bound, probed) },
            (StartupStep::RenderAddress { resources, .. }, StartupEvent::Rendered(address)) => {
                let endpoint = P2pEndpoint { backend: UB_BACKEND_ID.to_string(), address };
                let dir = join(config.store_dir.as_slice(), UB_BACKEND_ID.as_bytes());
                StartupStep::CreateDir { resources, endpoint, dir }
            },
            (
                StartupStep::CreateDir { resources, endpoint, .. },
                StartupEvent::Done(done),
            ) => {
                let dir = join(config.store_dir.as_slice(), UB_BACKEND_ID.as_bytes());
                match done {
                    Ok(()) => StartupStep::LoadCatalog {
                        resources,
                        endpoint,
                        path: join(dir.as_slice(), "catalog.db".as_bytes()),
                    },
                    Err(detail) => {
                        let context = with_path("create ub P2P store dir ", dir.as_slice());
                        internal(context.as_str(), detail)
                    },
                }
            },
            (
                StartupStep::LoadCatalog { resources, endpoint, .. },
                StartupEvent::Scanned(scan),
            ) => {
                let dir = join(config.store_dir.as_slice(), UB_BACKEND_ID.as_bytes());
                let path = join(dir.as_slice(), "catalog.db".as_bytes());
                match PublishedArtifactCatalog::load(scan, path.as_slice(), node_id, &endpoint) {
                    Ok(catalog) => {
                        let reset = catalog.reset();
                        let ghost keys = reset@;
                        let ghost loaded = catalog@;
                        proof {
                            if keys.len() == 0 {
                                lemma_no_keys(loaded, keys);
                            }
                        }
                        let next = reset_or_serve(resources, endpoint, catalog, reset);
                        assert(resets(resources, endpoint, loaded, keys, next));
                        next
                    },
                    Err(error) => StartupStep::Failed(error),
                }
            },
            (
                StartupStep::ResetCatalog { resources, endpoint, catalog, reset },
                StartupEvent::Deleted(deleted),
            ) => {
                let mut catalog = catalog;
                let ghost keys = reset@;
                let ghost before = catalog@;
                match reset.advance(&mut catalog, deleted) {
                    Ok(reset) => {
                        proof {
                            lemma_rest_of_keys(before, keys);
                            if reset@.len() == 0 {
                                lemma_no_keys(catalog@, reset@);
                            }
                        }
                        reset_or_serve(resources, endpoint, catalog, reset)
                    },
                    Err(error) => StartupStep::Failed(error),
                }
            },
            (
                StartupStep::Serve { resources, endpoint, catalog },
                StartupEvent::Done(done),
            ) => match done {
                Ok(()) => {
                    let ub = &config.ub;
                    let transport = UrmaP2pTransport {
                        node_id: node_id.to_string(),
                        catalog,
                        handle: resources.handle,
                        arena: UbArena::new(resources.arena),
                        arena_wire: resources.arena_wire,
                        bounce: BouncePool::new(
                            resources.bounce,
                            ub.slice_size,
                            ub.max_inflight_reads,
                        ),
                        regions: HashMap::new(),
                        local_endpoint: endpoint,
                        lookup_timeout: config.lookup_timeout,
                        fetch_timeout: config.fetch_timeout,
                        slice_size: ub.slice_size,
                        max_inflight_reads: ub.max_inflight_reads,
                    };
                    StartupStep::Ready(transport)
                },
                Err(detail) => internal("read ub P2P catalog listener address", detail),
            },
            (now, _) => now,
        }
    }
}

/// Of the memory that a startup acquires, peers may read the publish arena and
/// nothing else: each mapping is registered as soon as it is there, the arena
/// for remote reads, the bounce pool for local use.
pub proof fn law_only_the_arena_is_open_to_peers(
    config: ResolvedP2pConfig,
    node_id: Seq<char>,
    now: StartupStep,
    map: Mmap,
    next: StartupStep,
)
    requires
        now is MapArena || now is MapBounce,
        startup_goes_on(config, node_id, now, StartupEvent::Mapped(Ok(map)), next),
    ensures
        now is MapArena ==> next.registers() == Some((map, RegionAccess::RemoteRead)),
        now is MapBounce ==> next.registers() == Some((map, RegionAccess::LocalOnly)),
        next.registers() matches Some((_, access)) && (access == RegionAccess::RemoteRead
            <==> next is RegisterArena),
{
}

/// A transport that comes up has published nothing and answers no lookup: what
/// a previous run persisted refers to memory that is gone, and has been
/// dropped. It is known by its own node and endpoint, the arena is empty, and
/// every bounce block is free.
pub proof fn law_started_transport_is_fresh(
    config: ResolvedP2pConfig,
    node_id: Seq<char>,
    now: StartupStep,
    event: StartupEvent,
    next: StartupStep,
    key: Seq<char>,
)
    requires
        startup_sound(config, node_id, now),
        startup_goes_on(config, node_id, now, event, next),
        next is Ready,
    ensures
        ({
            let transport = next->Ready_0@;
            &&& transport.catalog.entry(key) is None
            &&& transport.catalog.served(key) is None
            &&& transport.catalog.local == (crate::types::PeerView {
                node_id,
                endpoint: transport.endpoint,
            })
            &&& transport.regions == Map::<u64, crate::transport::PublishedRegion>::empty()
            &&& transport.arena.cursor == 0
            &&& transport.bounce.free.len() == config.ub.max_inflight_reads
        }),
{
}

/// A listener that is bound to one address is advertised under it. One that is
/// bound to every address keeps its port and is advertised under the address
/// that was found out, if one was.
pub proof fn law_listeners_are_advertised(
    bound: SocketAddress,
    probed: Option<SocketAddress>,
    advertise: SocketAddress,
    everywhere: bool,
)
    requires
        call_ensures(advertise_addr, (bound, probed), advertise),
        call_ensures(IpAddress::is_unspecified, (&bound.ip,), everywhere),
    ensures
        everywhere <==> (match bound.ip {
            IpAddress::V4(octets) => forall|i: int| 0 <= i < 4 ==> #[trigger] octets@[i] == 0,
            IpAddress::V6(octets) => forall|i: int| 0 <= i < 16 ==> #[trigger] octets@[i] == 0,
        }),
        advertise.port == bound.port,
        !everywhere || probed is None ==> advertise == bound,
        everywhere && probed is Some ==> advertise.ip == probed->0.ip && advertise.flowinfo == 0
            && advertise.scope_id == 0,
{
    match bound.ip {
        IpAddress::V4(octets) => {
            assert(bound.ip.octets() == octets@);
            assert(octets@.len() == 4);
            if everywhere {
                assert forall|i: int| 0 <= i < 4 implies #[trigger] octets@[i] == 0 by {
                    assert(bound.ip.octets()[i] == 0);
                }
            }
        },
        IpAddress::V6(octets) => {
            assert(bound.ip.octets() == octets@);
            assert(octets@.len() == 16);
            if everywhere {
                assert forall|i: int| 0 <= i < 16 implies #[trigger] octets@[i] == 0 by {
                    assert(bound.ip.octets()[i] == 0);
                }
            }
        },
    }
}

/// A startup begins exactly with settings that can work: a slice of whole
/// pages, an arena that holds a slice, and a driver that there is. The loopback
/// driver is named after the node; the other one gets the settings of the
/// device, raised to the least that works.
pub proof fn law_startups_begin(
    config: ResolvedP2pConfig,
    node_id: &str,
    next: StartupStep,
)
    requires
        call_ensures(UrmaP2pTransport::new, (&config, node_id), next),
    ensures
        next is Failed <==> config.ub.slice_size == 0 || config.ub.slice_size % 4096 != 0
            || config.ub.arena_size < config.ub.slice_size || (config.ub.driver@ != "loopback"@
            && config.ub.driver@ != "ffi"@),
        !(next is Failed) ==> {
            &&& config.ub.driver@ == "loopback"@ ==> (next matches StartupStep::StartLoopback {
                name,
            } && name@ == node_id@)
            &&& config.ub.driver@ == "ffi"@ ==> (next matches StartupStep::StartFfi {
                config: driver,
            } && driver.device@ == config.ub.device@ && (config.ub.jetty_count >= 1
                ==> driver.jetty_count == config.ub.jetty_count) && driver.jetty_count >= 1 && (
            config.ub.max_wr >= 1 ==> driver.max_wr == config.ub.max_wr) && driver.max_wr >= 1 && (
            config.ub.jfc_depth >= 64 ==> driver.jfc_depth == config.ub.jfc_depth)
                && driver.jfc_depth >= 64)
        },
        next matches StartupStep::Failed(error) ==> error is Internal,
{
    reveal_strlit("loopback");
    reveal_strlit("ffi");
    assert("loopback"@.len() != "ffi"@.len());
}

/// Whatever step fails, the startup fails, and says what the step failed with.
pub proof fn law_failed_steps_fail_the_startup(
    config: ResolvedP2pConfig,
    node_id: &str,
    now: StartupStep,
    event: StartupEvent,
    next: StartupStep,
    detail: String,
)
    requires
        startup_expects(now, event),
        call_ensures(UrmaP2pTransport::advance_startup, (&config, node_id, now, event), next),
        match event {
            StartupEvent::Driver(Err(DriverFailure::Failed(found))) => found@ == detail@,
            StartupEvent::Mapped(Err(found)) => found@ == detail@,
            StartupEvent::Registered(Err(found)) => found@ == detail@,
            StartupEvent::Done(Err(found)) => found@ == detail@,
            StartupEvent::Bound(Err(found)) => found@ == detail@,
            StartupEvent::Deleted(Err(found)) => found@ == detail@,
            StartupEvent::Scanned(StoreScan::OpenFailed(found)) => found@ == detail@,
            StartupEvent::Scanned(StoreScan::ScanFailed(found)) => found@ == detail@,
            _ => false,
        },
    ensures
        next matches StartupStep::Failed(Error::Internal { context, cause }) && cause@ == detail@
            && (match now {
            StartupStep::StartLoopback { .. } | StartupStep::StartFfi { .. } => context@
                == "initialize liburma driver"@,
            StartupStep::MapArena { .. } => context@ == "create ub publish arena"@,
            StartupStep::RegisterArena { .. } => context@ == "register ub publish arena"@,
            StartupStep::MapBounce { .. } => context@ == "create ub bounce pool"@,
            StartupStep::RegisterBounce { .. } => context@ == "register ub bounce pool"@,
            StartupStep::ParseListen { .. } => context@ == "parse ub catalog listen address"@,
            StartupStep::Bind { .. } => context@ == "bind ub P2P catalog listener"@,
            StartupStep::BoundAddress { .. } => context@ == "read ub catalog listener address"@,
            StartupStep::CreateDir { .. } => crate::text::begins_with(
                context@,
                "create ub P2P store dir "@,
            ),
            StartupStep::ResetCatalog { reset, .. } => crate::text::ends_with(
                context@,
                reset@[0],
            ),
            StartupStep::Serve { .. } => context@ == "read ub P2P catalog listener address"@,
            _ => true,
        }),
{
    crate::text::lemma_ends_with(
        "create ub P2P store dir "@,
        crate::text::utf8_lossy(store_dir(config)),
    );
    if let StartupStep::ResetCatalog { reset, .. } = now {
        crate::text::lemma_ends_with("delete P2P catalog entry "@, reset@[0]);
    }
}

/// Memory is mapped as the settings say, the arena whole and the bounce pool
/// with a slice for each read that may be in flight, and registered as soon as
/// it is mapped: the arena for peers to read, the bounce pool for local use.
pub proof fn law_startups_map_and_register(
    config: ResolvedP2pConfig,
    node_id: &str,
    now: StartupStep,
    event: StartupEvent,
    next: StartupStep,
    registration: Option<(Mmap, RegionAccess)>,
)
    requires
        startup_expects(now, event),
        call_ensures(UrmaP2pTransport::advance_startup, (&config, node_id, now, event), next),
        call_ensures(StartupStep::registration, (&next,), registration),
    ensures
        event matches StartupEvent::Driver(Ok(identity)) ==> (next matches StartupStep::MapArena {
            handle,
            len,
        } && handle == identity && len == config.ub.arena_size),
        event matches StartupEvent::Driver(Err(_)) ==> next is Failed,
        event matches StartupEvent::Mapped(Ok(map)) ==> {
            &&& now is MapArena ==> registration == Some((map, RegionAccess::RemoteRead))
            &&& now is MapBounce ==> registration == Some((map, RegionAccess::LocalOnly))
        },
        now matches StartupStep::MapArena { handle, .. } ==> (event matches StartupEvent::Mapped(
            Ok(map),
        ) ==> (next matches StartupStep::RegisterArena { handle: kept, arena } && kept == handle
            && arena == map)),
        now matches StartupStep::RegisterArena { handle, arena } ==> (event matches
            StartupEvent::Registered(Ok(region)) ==> {
            let total = config.ub.slice_size * config.ub.max_inflight_reads;
            &&& total > u64::MAX ==> next is Failed
            &&& total <= u64::MAX ==> (next matches StartupStep::MapBounce {
                handle: kept,
                arena: held,
                arena_wire,
                len,
            } && kept == handle && held == arena && arena_wire == region && len == total)
        }),
        now matches StartupStep::MapBounce { handle, arena, arena_wire, .. } ==> (event matches
            StartupEvent::Mapped(Ok(map)) ==> (next matches StartupStep::RegisterBounce {
            resources,
        } && resources.handle == handle && resources.arena == arena && resources.arena_wire
            == arena_wire && resources.bounce == map)),
{
}

/// The catalog listens on the address of its own setting, or else on that of
/// the transport, or else anywhere. The address that it is bound to is looked
/// up only if it stands for every address, and what is advertised is this
/// backend at the rendered address.
pub proof fn law_startups_listen(
    config: ResolvedP2pConfig,
    node_id: &str,
    now: StartupStep,
    held: Resources,
    event: StartupEvent,
    next: StartupStep,
    everywhere: bool,
    bound: SocketAddress,
    probed: Option<SocketAddress>,
    advertise: SocketAddress,
)
    requires
        startup_expects(now, event),
        call_ensures(UrmaP2pTransport::advance_startup, (&config, node_id, now, event), next),
        match now {
            StartupStep::RegisterBounce { resources } => held == resources,
            StartupStep::ParseListen { resources, .. } => held == resources,
            StartupStep::Bind { resources } => held == resources,
            StartupStep::BoundAddress { resources } => held == resources,
            StartupStep::ProbeRoute { resources, bound: at } => held == resources && bound == at,
            StartupStep::RenderAddress { resources, .. } => held == resources,
            _ => false,
        },
        event matches StartupEvent::Bound(Ok(at)) ==> bound == at,
        event matches StartupEvent::Probed(found) ==> probed == found,
        call_ensures(IpAddress::is_unspecified, (&bound.ip,), everywhere),
        call_ensures(advertise_addr, (bound, probed), advertise),
    ensures
        event matches StartupEvent::Registered(Ok(_)) ==> (next matches StartupStep::ParseListen {
            resources,
            address,
        } && resources == held && (match (config.ub.catalog_listen_addr, config.listen_addr) {
            (Some(own), _) => address@ == own@,
            (None, Some(shared)) => address@ == shared@,
            (None, None) => address@ == "0.0.0.0:0"@,
        })),
        now is ParseListen && (event matches StartupEvent::Done(Ok(_))) ==> (next matches
            StartupStep::Bind { resources } && resources == held),
        now is Bind && (event matches StartupEvent::Done(Ok(_))) ==> (next matches
            StartupStep::BoundAddress { resources } && resources == held),
        event matches StartupEvent::Bound(Ok(_)) ==> {
            &&& everywhere ==> (next matches StartupStep::ProbeRoute { resources, bound: at }
                && resources == held && at == bound)
            &&& !everywhere ==> (next matches StartupStep::RenderAddress { resources, address }
                && resources == held && address == bound)
        },
        event is Probed ==> (next matches StartupStep::RenderAddress { resources, address }
            && resources == held && address == advertise),
        event matches StartupEvent::Rendered(text) ==> (next matches StartupStep::CreateDir {
            resources,
            endpoint,
            ..
        } && resources == held && endpoint.backend@ == "ub"@ && endpoint.address@ == text@),
{
}

/// The transport keeps its files in a directory of its own within the store
/// directory, and its catalog there. What the catalog held of an earlier run is
/// deleted key by key before it is served: as long as an entry is left, it is
/// not served.
pub proof fn law_startups_clear_the_catalog(
    config: ResolvedP2pConfig,
    node_id: &str,
    now: StartupStep,
    event: StartupEvent,
    next: StartupStep,
    store: &[u8],
    backend: &[u8],
    dir: Vec<u8>,
    within: &[u8],
    name: &[u8],
    path: Vec<u8>,
    key: Seq<char>,
)
    requires
        startup_expects(now, event),
        startup_sound(config, node_id@, now),
        call_ensures(UrmaP2pTransport::advance_startup, (&config, node_id, now, event), next),
        store@ == config.store_dir@,
        backend@ == vstd::utf8::encode_utf8("ub"@),
        call_ensures(join, (store, backend), dir),
        within@ == dir@,
        name@ == vstd::utf8::encode_utf8("catalog.db"@),
        call_ensures(join, (within, name), path),
    ensures
        next matches StartupStep::CreateDir { dir: made, .. } ==> now is RenderAddress ==> made@
            == dir@,
        now matches StartupStep::CreateDir { resources, endpoint, .. } ==> (event matches
            StartupEvent::Done(Ok(_)) ==> (next matches StartupStep::LoadCatalog {
            resources: held,
            endpoint: at,
            path: read,
        } && held == resources && at == endpoint && read@ == path@)),
        next matches StartupStep::Serve { catalog, .. } ==> (now is LoadCatalog
            || now is ResetCatalog) ==> !catalog@.entries.contains_key(key) && catalog@.local.node_id
            == node_id@,
        now matches StartupStep::LoadCatalog { resources, endpoint, .. } ==> (event matches
            StartupEvent::Scanned(StoreScan::Records(records)) ==> {
            &&& next is Failed <==> exists|i: int|
                0 <= i < records@.len() && (#[trigger] records@[i]).descriptor is Err
            &&& next matches StartupStep::Serve { resources: held, endpoint: at, .. } ==> held
                == resources && at == endpoint
            &&& next matches StartupStep::ResetCatalog {
                resources: held,
                endpoint: at,
                catalog,
                reset,
            } ==> held == resources && at == endpoint && reset@.len() > 0 && (reset@.contains(key)
                <==> catalog@.entries.contains_key(key))
            &&& !(next is Failed) ==> next is Serve || next is ResetCatalog
        }),
        now matches StartupStep::ResetCatalog { resources, endpoint, catalog, reset } ==> (event
            matches StartupEvent::Deleted(Ok(_)) ==> {
            &&& reset@.len() == 1 ==> (next matches StartupStep::Serve {
                resources: held,
                endpoint: at,
                ..
            } && held == resources && at == endpoint)
            &&& reset@.len() > 1 ==> (next matches StartupStep::ResetCatalog {
                resources: held,
                endpoint: at,
                catalog: left,
                reset: rest,
            } && held == resources && at == endpoint && rest@.len() == reset@.len() - 1
                && !left@.entries.contains_key(reset@[0]) && (key != reset@[0]
                ==> left@.entries.contains_key(key) == catalog@.entries.contains_key(key)))
        }),
{
    if let (StartupStep::LoadCatalog { resources, endpoint, .. }, StartupEvent::Scanned(scan)) = (
        now,
        event,
    ) {
        if let StoreScan::Records(records) = scan {
            if !(next is Failed) {
                let (catalog, keys) = choose|
                    catalog: crate::catalog::CatalogView,
                    keys: Seq<Seq<char>>,
                |
                    {
                        &&& catalog_loads(node_id@, endpoint@, scan, catalog)
                        &&& keys.no_duplicates()
                        &&& keys.to_set() == catalog.entries.dom()
                        &&& #[trigger] resets(resources, endpoint, catalog, keys, next)
                    };
                assert(resets(resources, endpoint, catalog, keys, next));
                assert(keys.to_set().contains(key) == keys.contains(key));
                assert forall|i: int| 0 <= i < records@.len() implies !((
                #[trigger] records@[i]).descriptor is Err) by {}
            } else {
                let error = next->Failed_0;
                if exists|catalog: crate::catalog::CatalogView, keys: Seq<Seq<char>>|
                    {
                        &&& catalog_loads(node_id@, endpoint@, scan, catalog)
                        &&& keys.no_duplicates()
                        &&& keys.to_set() == catalog.entries.dom()
                        &&& #[trigger] resets(resources, endpoint, catalog, keys, next)
                    } {
                    assert(false);
                }
                let at = choose|at: int| #[trigger]
                    crate::catalog::first_unparsed(records@, at) && error@
                        == crate::catalog::unparsed_error(catalog_path(config), records@[at]);
                assert(crate::catalog::first_unparsed(records@, at));
                assert(records@[at].descriptor is Err);
            }
        }
    }
}

/// A transport that comes up has the times, the sizes and the memory that it
/// was started with: its arena is empty, every bounce block is free, it is known
/// by the identity of its driver and by its endpoint, and it has published
/// nothing.
pub proof fn law_started_transports_have_their_settings(
    config: ResolvedP2pConfig,
    node_id: &str,
    held: Resources,
    at: P2pEndpoint,
    catalog: PublishedArtifactCatalog,
    next: StartupStep,
    endpoint: Option<P2pEndpoint>,
    arena: Mmap,
    bounce: Mmap,
    lookup: u64,
    fetch: u64,
    reads: u32,
    base_va: u64,
)
    requires
        startup_sound(
            config,
            node_id@,
            StartupStep::Serve { resources: held, endpoint: at, catalog },
        ),
        call_ensures(
            UrmaP2pTransport::advance_startup,
            (
                &config,
                node_id,
                StartupStep::Serve { resources: held, endpoint: at, catalog },
                StartupEvent::Done(Ok(())),
            ),
            next,
        ),
        call_ensures(UrmaP2pTransport::local_endpoint, (&next->Ready_0,), endpoint),
        call_ensures(UrmaP2pTransport::arena_map, (&next->Ready_0,), arena),
        call_ensures(UrmaP2pTransport::bounce_map, (&next->Ready_0,), bounce),
        call_ensures(UrmaP2pTransport::lookup_timeout, (&next->Ready_0,), lookup),
        call_ensures(UrmaP2pTransport::fetch_timeout, (&next->Ready_0,), fetch),
        call_ensures(UrmaP2pTransport::max_inflight_reads, (&next->Ready_0,), reads),
    ensures
        next is Ready,
        endpoint matches Some(endpoint) && endpoint.backend@ == "ub"@ && endpoint.address@
            == at.address@,
        arena == held.arena,
        bounce == held.bounce,
        lookup == config.lookup_timeout,
        fetch == config.fetch_timeout,
        reads == config.ub.max_inflight_reads,
        ({
            let transport = next->Ready_0@;
            &&& transport.node_id == node_id@
            &&& transport.handle.device == held.handle.device@
            &&& transport.handle.eid == held.handle.eid@
            &&& transport.handle.jetty_ids == held.handle.jetty_ids@
            &&& transport.arena_wire == held.arena_wire.wire@
            &&& transport.arena_va == held.arena_wire.base_va
            &&& transport.arena.cursor == 0
            &&& transport.slice_size == config.ub.slice_size
            &&& transport.bounce.block_size == config.ub.slice_size
            &&& transport.bounce.free.len() == config.ub.max_inflight_reads
            &&& transport.bounce.free.no_duplicates()
            &&& !transport.regions.contains_key(base_va)
            &&& transport.catalog.entries.dom().len() == 0
            &&& transport.catalog.local.node_id == node_id@
            &&& transport.catalog.local.endpoint.address == at.address@
        }),
{
    let entries = catalog@.entries;
    assert(entries.dom() =~= Set::empty());
}

/// The driver over the device gets the device's settings, raised to the least
/// that works.
pub proof fn law_driver_settings(ub: ResolvedUbP2pConfig, config: LibUrmaDriverConfig)
    requires
        call_ensures(ffi_driver, (&ub,), config),
    ensures
        config.device@ == ub.device@,
        config.jetty_count >= 1,
        config.jetty_count == ub.jetty_count || ub.jetty_count == 0 && config.jetty_count == 1,
        config.max_wr >= 1,
        config.max_wr == ub.max_wr || ub.max_wr == 0 && config.max_wr == 1,
        config.jfc_depth >= 64,
        config.jfc_depth == ub.jfc_depth || ub.jfc_depth < 64 && config.jfc_depth == 64,
{
}

} // verus!
