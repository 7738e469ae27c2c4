//! Settings of the peer-to-peer artifact transport.
use crate::bytes::copy_bytes;
use crate::iroh::IROH_BACKEND_ID;
use crate::text::trim;
use crate::transport::UB_BACKEND_ID;
use vstd::prelude::*;

verus! {

/// Which transport moves artifacts between nodes.
#[derive(Debug, Clone, Copy, PartialEq, Eq, Structural)]
pub enum P2pTransportKind {
    Disabled,
    Iroh,
    Ub,
}

impl P2pTransportKind {
    /// Identifier of the transport's backend, if there is one.
    pub fn backend_id(self) -> (id: Option<&'static str>)
        ensures
            match self {
                P2pTransportKind::Disabled => id is None,
                P2pTransportKind::Iroh => id matches Some(id) && id@ == "iroh"@,
                P2pTransportKind::Ub => id matches Some(id) && id@ == "ub"@,
            },
    {
        match self {
            P2pTransportKind::Disabled => None,
            P2pTransportKind::Iroh => Some(IROH_BACKEND_ID),
            P2pTransportKind::Ub => Some(UB_BACKEND_ID),
        }
    }
}

/// The `[p2p.ub]` section as configured.
#[derive(Debug, Clone)]
pub struct UbP2pConfig {
    pub device: String,
    pub driver: String,
    pub jetty_count: u32,
    pub max_wr: u32,
    pub jfc_depth: u32,
    pub slice_size_bytes: u64,
    pub max_inflight_reads: u32,
    pub arena_size_bytes: u64,
    pub catalog_listen_addr: String,
}

/// The `[p2p]` section as configured.
#[derive(Debug, Clone)]
pub struct P2pConfig {
    pub enabled: bool,
    pub transport: P2pTransportKind,
    pub store_dir: Vec<u8>,
    pub listen_addr: String,
    pub lookup_timeout_ms: u64,
    pub fetch_timeout_ms: u64,
    pub peer_discovery_refresh_interval_secs: u64,
    pub ub: UbP2pConfig,
}

/// Resolved `[p2p.ub]` settings for the URMA-backed transport.
#[derive(Debug, Clone)]
pub struct ResolvedUbP2pConfig {
    /// URMA device name (e.g. `urma0`); empty picks the first listed device.
    pub device: String,
    /// `ffi` (real liburma) or `loopback` (in-process test driver).
    pub driver: String,
    pub jetty_count: u32,
    pub max_wr: u32,
    pub jfc_depth: u32,
    pub slice_size: u64,
    pub max_inflight_reads: u32,
    pub arena_size: u64,
    /// Catalog listen address; `None` falls back to the transport's.
    pub catalog_listen_addr: Option<String>,
}

/// Resolved `[p2p]` settings.
#[derive(Debug, Clone)]
pub struct ResolvedP2pConfig {
    pub transport: P2pTransportKind,
    pub store_dir: Vec<u8>,
    pub listen_addr: Option<String>,
    /// In milliseconds.
    pub lookup_timeout: u64,
    /// In milliseconds.
    pub fetch_timeout: u64,
    /// In seconds.
    pub peer_discovery_refresh_interval: u64,
    pub ub: ResolvedUbP2pConfig,
}

/// `value`, or `least` if that is more.
pub open spec fn at_least(value: int, least: int) -> int {
    if value < least {
        least
    } else {
        value
    }
}

/// Whether `resolved` is a text without the white space around it, where one
/// that holds nothing else counts as absent.
pub open spec fn is_present_text(text: Seq<char>, resolved: Option<String>) -> bool {
    match resolved {
        Some(part) => part@.len() > 0 && crate::text::is_trimmed(text, part@),
        None => crate::text::is_trimmed(text, Seq::empty()),
    }
}

fn present_text(text: &str) -> (resolved: Option<String>)
    ensures
        is_present_text(text@, resolved),
{
    let part = trim(text);
    if part.as_str().unicode_len() == 0 {
        assert(part@ =~= Seq::empty());
        None
    } else {
        Some(part)
    }
}

impl ResolvedUbP2pConfig {
    /// Resolve the `[p2p.ub]` section: texts are trimmed, and counts and
    /// depths raised to what the transport needs.
    pub fn from_config(ub: &UbP2pConfig) -> (resolved: Self)
        ensures
            resolved.device@ == ub.device@,
            crate::text::is_trimmed(ub.driver@, resolved.driver@),
            resolved.jetty_count == at_least(ub.jetty_count as int, 1),
            resolved.max_wr == at_least(ub.max_wr as int, 1),
            resolved.jfc_depth == at_least(ub.jfc_depth as int, 64),
            resolved.slice_size == ub.slice_size_bytes,
            resolved.max_inflight_reads == at_least(ub.max_inflight_reads as int, 1),
            resolved.arena_size == ub.arena_size_bytes,
            is_present_text(ub.catalog_listen_addr@, resolved.catalog_listen_addr),
    {
        ResolvedUbP2pConfig {
            device: ub.device.clone(),
            driver: trim(ub.driver.as_str()),
            jetty_count: raised(ub.jetty_count, 1),
            max_wr: raised(ub.max_wr, 1),
            jfc_depth: raised(ub.jfc_depth, 64),
            slice_size: ub.slice_size_bytes,
            max_inflight_reads: raised(ub.max_inflight_reads, 1),
            arena_size: ub.arena_size_bytes,
            catalog_listen_addr: present_text(ub.catalog_listen_addr.as_str()),
        }
    }
}

/// `value`, or `least` if that is more.
pub fn raised(value: u32, least: u32) -> (result: u32)
    ensures
        result == at_least(value as int, least as int),
{
    if value < least {
        least
    } else {
        value
    }
}

impl ResolvedP2pConfig {
    /// Resolve the `[p2p]` section. The transport is disabled unless the
    /// section is enabled; discovery is refreshed at most once a second.
    pub fn from_config(p2p: &P2pConfig) -> (resolved: Self)
        ensures
            resolved.transport == (if p2p.enabled {
                p2p.transport
            } else {
                P2pTransportKind::Disabled
            }),
            resolved.store_dir@ == p2p.store_dir@,
            is_present_text(p2p.listen_addr@, resolved.listen_addr),
            resolved.lookup_timeout == p2p.lookup_timeout_ms,
            resolved.fetch_timeout == p2p.fetch_timeout_ms,
            resolved.peer_discovery_refresh_interval == at_least(
                p2p.peer_discovery_refresh_interval_secs as int,
                1,
            ),
            resolved.ub.device@ == p2p.ub.device@,
            crate::text::is_trimmed(p2p.ub.driver@, resolved.ub.driver@),
            resolved.ub.jetty_count == at_least(p2p.ub.jetty_count as int, 1),
            resolved.ub.max_wr == at_least(p2p.ub.max_wr as int, 1),
            resolved.ub.jfc_depth == at_least(p2p.ub.jfc_depth as int, 64),
            resolved.ub.slice_size == p2p.ub.slice_size_bytes,
            resolved.ub.max_inflight_reads == at_least(p2p.ub.max_inflight_reads as int, 1),
            resolved.ub.arena_size == p2p.ub.arena_size_bytes,
            is_present_text(p2p.ub.catalog_listen_addr@, resolved.ub.catalog_listen_addr),
    {
        let transport = if p2p.enabled {
            p2p.transport
        } else {
            P2pTransportKind::Disabled
        };
        let interval: u64 = p2p.peer_discovery_refresh_interval_secs;
        ResolvedP2pConfig {
            transport,
            store_dir: copy_bytes(p2p.store_dir.as_slice()),
            listen_addr: present_text(p2p.listen_addr.as_str()),
            lookup_timeout: p2p.lookup_timeout_ms,
            fetch_timeout: p2p.fetch_timeout_ms,
            peer_discovery_refresh_interval: if interval < 1 {
                1
            } else {
                interval
            },
            ub: ResolvedUbP2pConfig::from_config(&p2p.ub),
        }
    }
}

/// A transport that is not enabled is disabled, whatever else is set; one that
/// is enabled is the one that was asked for. Times, sizes and the store
/// directory are taken over; counts are taken over where they are enough and
/// raised where they are not. A listen address of white space alone is none.
pub proof fn law_settings_resolve(p2p: P2pConfig, resolved: ResolvedP2pConfig)
    requires
        call_ensures(ResolvedP2pConfig::from_config, (&p2p,), resolved),
    ensures
        p2p.enabled ==> resolved.transport == p2p.transport,
        !p2p.enabled ==> resolved.transport is Disabled,
        resolved.store_dir@ == p2p.store_dir@,
        resolved.lookup_timeout == p2p.lookup_timeout_ms,
        resolved.fetch_timeout == p2p.fetch_timeout_ms,
        resolved.peer_discovery_refresh_interval >= 1,
        p2p.peer_discovery_refresh_interval_secs >= 1 ==> resolved.peer_discovery_refresh_interval
            == p2p.peer_discovery_refresh_interval_secs,
        p2p.peer_discovery_refresh_interval_secs < 1 ==> resolved.peer_discovery_refresh_interval
            == 1,
        resolved.listen_addr matches Some(part) ==> part@.len() > 0 && crate::text::is_trimmed(
            p2p.listen_addr@,
            part@,
        ),
        resolved.listen_addr is None <==> forall|i: int|
            0 <= i < p2p.listen_addr@.len() ==> crate::text::white_codes().contains(
                #[trigger] p2p.listen_addr@[i] as int,
            ),
        resolved.ub.catalog_listen_addr matches Some(part) ==> part@.len() > 0
            && crate::text::is_trimmed(p2p.ub.catalog_listen_addr@, part@),
        resolved.ub.catalog_listen_addr is None <==> forall|i: int|
            0 <= i < p2p.ub.catalog_listen_addr@.len() ==> crate::text::white_codes().contains(
                #[trigger] p2p.ub.catalog_listen_addr@[i] as int,
            ),
        crate::text::is_trimmed(p2p.ub.driver@, resolved.ub.driver@),
        resolved.ub.device@ == p2p.ub.device@,
        resolved.ub.slice_size == p2p.ub.slice_size_bytes,
        resolved.ub.arena_size == p2p.ub.arena_size_bytes,
        p2p.ub.jetty_count >= 1 ==> resolved.ub.jetty_count == p2p.ub.jetty_count,
        p2p.ub.jetty_count < 1 ==> resolved.ub.jetty_count == 1,
        p2p.ub.max_wr >= 1 ==> resolved.ub.max_wr == p2p.ub.max_wr,
        p2p.ub.max_wr < 1 ==> resolved.ub.max_wr == 1,
        p2p.ub.max_inflight_reads >= 1 ==> resolved.ub.max_inflight_reads
            == p2p.ub.max_inflight_reads,
        p2p.ub.max_inflight_reads < 1 ==> resolved.ub.max_inflight_reads == 1,
        p2p.ub.jfc_depth >= 64 ==> resolved.ub.jfc_depth == p2p.ub.jfc_depth,
        p2p.ub.jfc_depth < 64 ==> resolved.ub.jfc_depth == 64,
{
    lemma_present(p2p.listen_addr@, resolved.listen_addr);
    lemma_present(p2p.ub.catalog_listen_addr@, resolved.ub.catalog_listen_addr);
}

/// The `[p2p.ub]` section resolves by itself as it does within its parent.
pub proof fn law_sections_resolve_alike(
    p2p: P2pConfig,
    resolved: ResolvedP2pConfig,
    ub: ResolvedUbP2pConfig,
)
    requires
        call_ensures(ResolvedP2pConfig::from_config, (&p2p,), resolved),
        call_ensures(ResolvedUbP2pConfig::from_config, (&p2p.ub,), ub),
    ensures
        ub.device@ == resolved.ub.device@,
        ub.driver@ == resolved.ub.driver@,
        ub.jetty_count == resolved.ub.jetty_count,
        ub.max_wr == resolved.ub.max_wr,
        ub.jfc_depth == resolved.ub.jfc_depth,
        ub.slice_size == resolved.ub.slice_size,
        ub.max_inflight_reads == resolved.ub.max_inflight_reads,
        ub.arena_size == resolved.ub.arena_size,
        ub.catalog_listen_addr is Some == resolved.ub.catalog_listen_addr is Some,
        ub.catalog_listen_addr is Some ==> ub.catalog_listen_addr->0@
            == resolved.ub.catalog_listen_addr->0@,
{
    crate::text::law_trimmed_form_is_unique(p2p.ub.driver@, ub.driver@, resolved.ub.driver@);
    let text = p2p.ub.catalog_listen_addr@;
    let a = match ub.catalog_listen_addr {
        Some(part) => part@,
        None => Seq::empty(),
    };
    let b = match resolved.ub.catalog_listen_addr {
        Some(part) => part@,
        None => Seq::empty(),
    };
    crate::text::law_trimmed_form_is_unique(text, a, b);
}

proof fn lemma_present(text: Seq<char>, resolved: Option<String>)
    requires
        is_present_text(text, resolved),
    ensures
        resolved is None <==> forall|i: int|
            0 <= i < text.len() ==> crate::text::white_codes().contains(#[trigger] text[i] as int),
{
    assert forall|c: char| #[trigger]
        crate::text::is_white_space(c) == crate::text::white_codes().contains(c as int) by {}
    let part = match resolved {
        Some(part) => part@,
        None => Seq::empty(),
    };
    let (start, end) = choose|start: int, end: int|
        {
            &&& 0 <= start <= end <= text.len()
            &&& part == #[trigger] text.subrange(start, end)
            &&& forall|i: int|
                0 <= i < start || end <= i < text.len() ==> crate::text::is_white_space(
                    #[trigger] text[i],
                )
            &&& part.len() > 0 ==> !crate::text::is_white_space(part[0])
                && !crate::text::is_white_space(part.last())
        };
    assert forall|i: int| 0 <= i < start || end <= i < text.len() implies
        crate::text::white_codes().contains(#[trigger] text[i] as int) by {
        assert(crate::text::is_white_space(text[i]));
    }
    if resolved is Some {
        assert(part[0] == text[start]);
        assert(!crate::text::is_white_space(text[start]));
    }
}

/// Every transport but the disabled one has a backend, and no two share one.
pub proof fn law_backends_differ(
    a: P2pTransportKind,
    b: P2pTransportKind,
    a_id: Option<&'static str>,
    b_id: Option<&'static str>,
)
    requires
        call_ensures(P2pTransportKind::backend_id, (a,), a_id),
        call_ensures(P2pTransportKind::backend_id, (b,), b_id),
    ensures
        a_id is None <==> a is Disabled,
        a_id is Some && b_id is Some ==> (a_id->0@ == b_id->0@ <==> a == b),
{
    reveal_strlit("iroh");
    reveal_strlit("ub");
    assert("iroh"@.len() != "ub"@.len());
}

/// A value is raised to the least one that works, and kept if it works.
pub proof fn law_values_are_raised(value: u32, least: u32, result: u32)
    requires
        call_ensures(raised, (value, least), result),
    ensures
        result >= value,
        result >= least,
        result == value || result == least,
{
}

} // verus!
