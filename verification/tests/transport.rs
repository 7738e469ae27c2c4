use std::collections::HashMap;

use agentenv::catalog::{CatalogRecord, StorePut, StoreScan};
use agentenv::config::{P2pTransportKind, ResolvedP2pConfig, ResolvedUbP2pConfig};
use agentenv::driver::{
    LoopbackUrmaDriver, LoopbackWire, RegionAccess, RegionWire, UbLocalHandle, UrmaReadOp,
};
use agentenv::error::Error;
use agentenv::store::Mmap;
use agentenv::transport::fetch::{check_permit, remote_len, FetchCursor, ReadOutcome};
use agentenv::transport::locator::{resolve_fetch, ResolvedFetch, UbLocator};
use agentenv::transport::lookup::{check_peer, lookup_peer, LookupEvent, LookupStep};
use agentenv::transport::publish::{PublishEvent, PublishStep, UnpublishEvent, UnpublishStep};
use agentenv::transport::startup::{
    advertise_addr, ffi_driver, DriverFailure, IpAddress, SocketAddress, StartupEvent, StartupStep,
};
use agentenv::transport::{PublishedRegion, UrmaP2pTransport, MAX_READ_LEN};
use agentenv::types::{
    P2pArtifactDescriptor, P2pArtifactProvider, P2pEndpoint, P2pPeer, P2pPublishMode,
    P2pPublishRequest, P2pPublishSource,
};
use agentenv::worker::UrmaIo;

fn test_config() -> ResolvedP2pConfig {
    ResolvedP2pConfig {
        transport: P2pTransportKind::Ub,
        store_dir: b"/var/lib/p2p".to_vec(),
        listen_addr: Some("127.0.0.1:0".to_string()),
        lookup_timeout: 5000,
        fetch_timeout: 5000,
        peer_discovery_refresh_interval: 5,
        ub: ResolvedUbP2pConfig {
            device: "loopback".to_string(),
            driver: "loopback".to_string(),
            jetty_count: 1,
            max_wr: 16,
            jfc_depth: 64,
            slice_size: 4096,
            max_inflight_reads: 4,
            arena_size: 4 * 1024 * 1024,
            catalog_listen_addr: None,
        },
    }
}

/// Serialized form of loopback segment handles in these tests.
fn wire_bytes(wire: LoopbackWire) -> Vec<u8> {
    let mut bytes = wire.base_va.to_le_bytes().to_vec();
    bytes.extend_from_slice(&wire.len.to_le_bytes());
    bytes
}

fn parse_wire(bytes: &[u8]) -> Result<LoopbackWire, String> {
    if bytes.len() != 16 {
        return Err("not a loopback handle".to_string());
    }
    Ok(LoopbackWire {
        base_va: u64::from_le_bytes(bytes[..8].try_into().unwrap()),
        len: u64::from_le_bytes(bytes[8..].try_into().unwrap()),
    })
}

/// Serialized form of locators in these tests.
fn locator_text(locator: &UbLocator) -> String {
    let ids: Vec<String> = locator.handle.jetty_ids.iter().map(|id| id.to_string()).collect();
    format!(
        "{}|{}|{}|{}|{}|{}|{}",
        locator.v,
        locator.wire,
        locator.base_va,
        locator.size,
        locator.handle.device,
        locator.handle.eid,
        ids.join(",")
    )
}

fn parse_locator(descriptor: &P2pArtifactDescriptor) -> Result<UbLocator, String> {
    let text = descriptor.backend_locator.clone().unwrap_or_default();
    let parts: Vec<&str> = text.split('|').collect();
    if parts.len() != 7 {
        return Err(format!("{} parts", parts.len()));
    }
    Ok(UbLocator {
        v: parts[0].parse().unwrap(),
        wire: parts[1].to_string(),
        base_va: parts[2].parse().unwrap(),
        size: parts[3].parse().unwrap(),
        handle: UbLocalHandle {
            device: parts[4].to_string(),
            eid: parts[5].to_string(),
            jetty_ids: parts[6]
                .split(',')
                .filter(|id| !id.is_empty())
                .map(|id| id.parse().unwrap())
                .collect(),
        },
    })
}

struct TestNode {
    transport: UrmaP2pTransport,
    driver: LoopbackUrmaDriver,
    io: UrmaIo<()>,
    arena: Vec<u8>,
    bounce: Vec<u8>,
    files: HashMap<u64, Vec<u8>>,
    next_file: u64,
}

fn start_transport(
    config: &ResolvedP2pConfig,
    node_id: &str,
    base: u64,
) -> (UrmaP2pTransport, LoopbackUrmaDriver) {
    let mut driver = LoopbackUrmaDriver::new("");
    let mut mapped = base;
    let mut step = UrmaP2pTransport::new(config, node_id);
    loop {
        let event = match &step {
            StartupStep::StartLoopback { name } => {
                driver = LoopbackUrmaDriver::new(name);
                StartupEvent::Driver(Ok(driver.local_handle()))
            }
            StartupStep::MapArena { len, .. } | StartupStep::MapBounce { len, .. } => {
                let map = Mmap { base: mapped, len: *len as usize };
                mapped += len;
                StartupEvent::Mapped(Ok(map))
            }
            StartupStep::RegisterArena { .. } | StartupStep::RegisterBounce { .. } => {
                let (map, access) = step.registration().expect("registration");
                let expected = if matches!(step, StartupStep::RegisterArena { .. }) {
                    RegionAccess::RemoteRead
                } else {
                    RegionAccess::LocalOnly
                };
                assert_eq!(access, expected);
                let wire = driver.register_region(map.base as usize, map.len as u64, access);
                StartupEvent::Registered(Ok(RegionWire {
                    wire: wire_bytes(wire),
                    base_va: wire.base_va,
                }))
            }
            StartupStep::ParseListen { address, .. } => {
                assert_eq!(address, "127.0.0.1:0");
                StartupEvent::Done(Ok(()))
            }
            StartupStep::BoundAddress { .. } => StartupEvent::Bound(Ok(SocketAddress {
                ip: IpAddress::V4([127, 0, 0, 1]),
                port: (base % 60_000) as u16,
                flowinfo: 0,
                scope_id: 0,
            })),
            StartupStep::RenderAddress { address, .. } => {
                StartupEvent::Rendered(format!("127.0.0.1:{}", address.port))
            }
            StartupStep::CreateDir { dir, .. } => {
                assert_eq!(dir, b"/var/lib/p2p/ub");
                StartupEvent::Done(Ok(()))
            }
            StartupStep::LoadCatalog { path, .. } => {
                assert_eq!(path, b"/var/lib/p2p/ub/catalog.db");
                StartupEvent::Scanned(StoreScan::Records(Vec::new()))
            }
            StartupStep::Bind { .. } | StartupStep::Serve { .. } => StartupEvent::Done(Ok(())),
            _ => break,
        };
        step = UrmaP2pTransport::advance_startup(config, node_id, step, event);
    }
    match step {
        StartupStep::Ready(transport) => (transport, driver),
        other => panic!("startup stopped at {other:?}"),
    }
}

fn start_node(node_id: &str, base: u64) -> TestNode {
    let (transport, driver) = start_transport(&test_config(), node_id, base);
    let arena = vec![0u8; transport.arena_map().len()];
    let bounce = vec![0u8; transport.bounce_map().len()];
    TestNode {
        transport,
        driver,
        io: UrmaIo::start(),
        arena,
        bounce,
        files: HashMap::new(),
        next_file: base + 0x4000_0000,
    }
}

impl TestNode {
    fn peer(&self, node_id: &str) -> P2pPeer {
        P2pPeer {
            node_id: node_id.to_string(),
            endpoint: self.transport.local_endpoint().expect("endpoint"),
        }
    }

    fn publish(&mut self, request: &P2pPublishRequest, file: &[u8]) -> Result<(), Error> {
        let mut step = UrmaP2pTransport::publish(request);
        loop {
            let event = match &step {
                PublishStep::OpenFile { .. } => PublishEvent::Opened(Ok(file.len() as u64)),
                PublishStep::MapFile { len, .. } => {
                    assert_eq!(*len, file.len() as u64);
                    let base = self.next_file;
                    self.files.insert(base, file.to_vec());
                    self.next_file += 0x100_0000;
                    PublishEvent::Mapped(Ok(base))
                }
                PublishStep::RegisterFile { .. } => {
                    let (map, len, access) = step.registration().expect("registration");
                    assert_eq!(access, RegionAccess::RemoteRead);
                    assert_eq!((map.len(), len), (file.len(), file.len() as u64));
                    let wire = self.driver.register_region(map.base as usize, len, access);
                    PublishEvent::Registered(Ok(RegionWire {
                        wire: wire_bytes(wire),
                        base_va: wire.base_va,
                    }))
                }
                PublishStep::ReadFile { .. } => PublishEvent::Read(Ok(file.to_vec())),
                PublishStep::CopyBytes { .. } => PublishEvent::Ready,
                PublishStep::SerializeLocator { locator, .. } => {
                    PublishEvent::Serialized(Ok(locator_text(locator)))
                }
                PublishStep::Persist { .. } => PublishEvent::Persisted(StorePut::Stored),
                PublishStep::Record => PublishEvent::Recorded,
                PublishStep::Published => return Ok(()),
                PublishStep::Failed(_) => break,
            };
            step = self.transport.advance_publish(request, step, event, &mut self.arena);
        }
        match step {
            PublishStep::Failed(error) => Err(error),
            other => panic!("publication stopped at {other:?}"),
        }
    }

    fn unpublish(&mut self, key: &str) -> bool {
        let key = key.to_string();
        let mut step = UnpublishStep::Delete;
        loop {
            let event = match &step {
                UnpublishStep::Delete => UnpublishEvent::Deleted(Ok(())),
                UnpublishStep::ParseLocator { descriptor } => {
                    UnpublishEvent::Parsed(parse_locator(descriptor))
                }
                UnpublishStep::Unregister { addr } => {
                    self.driver.unregister_region(*addr as usize);
                    UnpublishEvent::Unregistered
                }
                UnpublishStep::Forget => UnpublishEvent::Forgotten,
                UnpublishStep::Done(found) => return *found,
                UnpublishStep::Failed(error) => panic!("{}", error.message()),
            };
            step = self.transport.unpublish(&key, step, event);
        }
    }

    fn lookup(&self, key: &str, peers: &[(&P2pPeer, &TestNode)]) -> Option<P2pArtifactDescriptor> {
        let key = key.to_string();
        let mut step = self.transport.lookup_with_hints(&key);
        loop {
            let event = match &step {
                LookupStep::PeersForKey => LookupEvent::Peers(Err("no scheduler".to_string())),
                LookupStep::PeersWithHints => {
                    LookupEvent::Peers(Ok(peers.iter().map(|(peer, _)| (*peer).clone()).collect()))
                }
                LookupStep::AskPeer { at, .. } => LookupEvent::Answer(Ok(peers[*at]
                    .1
                    .transport
                    .catalog()
                    .serving_descriptor(&key))),
                LookupStep::Done(found) => return found.clone(),
            };
            step = self.transport.advance_lookup(&key, step, event);
        }
    }

    /// Read one chunk from the provider's memory through the loopback driver.
    fn read_chunk(
        &mut self,
        provider: Option<&TestNode>,
        resolved: &ResolvedFetch,
        offset: u64,
        len: u64,
    ) -> Vec<u8> {
        match resolved {
            ResolvedFetch::Local { base_va, .. } => {
                let memory = match self.transport.region_at(*base_va).expect("region") {
                    PublishedRegion::Arena { .. } => &self.arena,
                    PublishedRegion::File(map) => &self.files[&map.base],
                };
                self.transport
                    .read_local(*base_va, offset, len as usize, memory)
                    .expect("local read")
            }
            ResolvedFetch::Remote { locator, peer_eid, peer_jetty_id } => {
                let provider = provider.expect("provider");
                let (read, op) = self
                    .transport
                    .read_remote_chunk(
                        &mut self.io,
                        locator,
                        *peer_eid,
                        *peer_jetty_id,
                        offset,
                        remote_len(len),
                        (),
                    )
                    .expect("read starts");
                let wire = parse_wire(&op.remote_wire);
                let segment = provider.memory_at(wire.as_ref().expect("handle").base_va);
                let start = (op.local_addr - self.transport.bounce_map().base) as usize;
                let posted =
                    self.driver.post_read(&op, &wire, segment, &mut self.bounce[start..]);
                self.transport.finish_post(&mut self.io, read, posted).expect("posted");
                let mut completions = Vec::new();
                self.driver.poll_completions(64, &mut completions);
                let answers = self.io.dispatch(&completions);
                assert_eq!(answers, vec![((), Ok(()))]);
                self.transport
                    .finish_read(read, ReadOutcome::Completed(Ok(())), &self.bounce)
                    .expect("read ends")
            }
        }
    }

    fn memory_at(&self, base: u64) -> &[u8] {
        if base == self.transport.arena_map().base {
            &self.arena
        } else {
            &self.files[&base]
        }
    }

    fn fetch(
        &mut self,
        provider: Option<&TestNode>,
        descriptor: &P2pArtifactDescriptor,
        range: Option<(u64, usize)>,
    ) -> Result<(Vec<u8>, usize), Error> {
        let resolved = resolve_fetch(descriptor, parse_locator(descriptor))?;
        let mut cursor = match range {
            None => self.transport.fetch_to_writer(&resolved),
            Some((offset, len)) => self.transport.fetch_byte_range(&resolved, offset, len)?,
        };
        let mut collected = Vec::new();
        let mut count = 0;
        while let Some((offset, len)) = cursor.next() {
            let data = self.read_chunk(provider, &resolved, offset, len);
            collected.extend_from_slice(&data);
            cursor.advance();
            count += 1;
        }
        Ok((collected, count))
    }
}

/// Patterned payload spanning many 4 KiB slices.
fn payload(len: usize) -> Vec<u8> {
    (0..len).map(|i| (i * 31 + 7) as u8).collect()
}

fn bytes_request(key: &str, bytes: Vec<u8>) -> P2pPublishRequest {
    P2pPublishRequest {
        key: key.to_string(),
        source: P2pPublishSource::Bytes(bytes),
        publish_mode: P2pPublishMode::Copy,
        metadata: "null".to_string(),
    }
}

fn file_request(key: &str, mode: P2pPublishMode) -> P2pPublishRequest {
    P2pPublishRequest {
        key: key.to_string(),
        source: P2pPublishSource::Path(b"/data/layer.commit".to_vec()),
        publish_mode: mode,
        metadata: "null".to_string(),
    }
}

#[test]
fn ub_publish_lookup_fetch_round_trip() {
    let mut provider = start_node("provider", 0x1000_0000);
    let mut fetcher = start_node("fetcher", 0x2000_0000);
    let provider_peer = provider.peer("provider");

    let data = payload(300 * 1024);
    let key = "overlaybd-layer/v1/sha256:deadbeef";
    provider.publish(&bytes_request(key, data.clone()), &[]).expect("publish");

    let descriptor =
        fetcher.lookup(key, &[(&provider_peer, &provider)]).expect("descriptor found");
    assert_eq!(descriptor.providers.len(), 1);

    let (fetched, chunks) = fetcher.fetch(Some(&provider), &descriptor, None).expect("fetch");
    assert_eq!(fetched, data);
    assert_eq!(chunks, 75);
    let resolved = resolve_fetch(&descriptor, parse_locator(&descriptor)).expect("resolved");
    assert_eq!(resolved.size(), data.len() as u64);

    // Byte-range reads must return exactly the requested window.
    let (range, _) = fetcher
        .fetch(Some(&provider), &descriptor, Some((100_001, 77_777)))
        .expect("range");
    assert_eq!(range, data[100_001..100_001 + 77_777]);
}

#[test]
fn ub_publish_path_by_reference_round_trip() {
    let mut provider = start_node("provider", 0x1000_0000);
    let mut fetcher = start_node("fetcher", 0x2000_0000);
    let provider_peer = provider.peer("provider");
    let data = payload(150_000);
    let key = "overlaybd-layer/v1/sha256:cafe";
    provider.publish(&file_request(key, P2pPublishMode::Reference), &data).expect("publish");

    let descriptor =
        fetcher.lookup(key, &[(&provider_peer, &provider)]).expect("descriptor found");
    let (fetched, _) = fetcher.fetch(Some(&provider), &descriptor, None).expect("fetch");
    assert_eq!(fetched, data);

    // Local-provider fetch (the provider fetches its own descriptor).
    let own = provider.lookup(key, &[]).expect("local descriptor");
    let (own_bytes, chunks) = provider.fetch(None, &own, None).expect("fetch");
    assert_eq!(own_bytes, data);
    assert_eq!(chunks, 1);

    // Unpublish removes the catalog entry and the registration.
    assert!(provider.unpublish(key));
    assert!(!provider.unpublish(key));
    assert!(fetcher.lookup(key, &[(&provider_peer, &provider)]).is_none());
}

#[test]
fn other_artifacts_survive_an_unpublish() {
    let mut node = start_node("solo", 0x1000_0000);
    let kept = payload(10_000);
    node.publish(&bytes_request("first", vec![1u8; 5000]), &[]).expect("publish");
    node.publish(&bytes_request("kept", kept.clone()), &[]).expect("publish");
    let file = payload(6000);
    node.publish(&file_request("file", P2pPublishMode::Reference), &file).expect("publish");

    assert!(node.unpublish("first"));
    assert!(!node.unpublish("first"));
    assert!(node.lookup("first", &[]).is_none());
    let descriptor = node.lookup("kept", &[]).expect("kept");
    assert_eq!(node.fetch(None, &descriptor, None).expect("fetch").0, kept);
    assert!(node.unpublish("kept"));
    let descriptor = node.lookup("file", &[]).expect("file");
    assert_eq!(node.fetch(None, &descriptor, None).expect("fetch").0, file);
}

#[test]
fn ub_range_fetch_rejects_out_of_bounds() {
    let mut node = start_node("solo", 0x1000_0000);
    let key = "test/range";
    node.publish(&bytes_request(key, vec![7u8; 100]), &[]).expect("publish");
    let descriptor = node.lookup(key, &[]).expect("descriptor");
    match node.fetch(None, &descriptor, Some((50, 100))) {
        Err(err) => {
            assert!(err.message().contains("exceeds artifact size"));
            assert_eq!(err.message(), "ub range [50, 150) exceeds artifact size 100");
        }
        Ok(_) => panic!("range past end must fail"),
    }
    match node.fetch(None, &descriptor, Some((101, usize::MAX))) {
        Err(err) => assert_eq!(
            err.message(),
            "ub range [101, 18446744073709551615) exceeds artifact size 100"
        ),
        Ok(_) => panic!("range past end must fail"),
    }
    assert_eq!(node.fetch(None, &descriptor, Some((100, 0))).expect("empty range").0, vec![]);
}

#[test]
fn copied_files_go_through_the_arena() {
    let mut node = start_node("solo", 0x1000_0000);
    let data = payload(5000);
    node.publish(&file_request("file", P2pPublishMode::Copy), &data).expect("publish");
    let other = payload(777);
    node.publish(&bytes_request("bytes", other.clone()), &[]).expect("publish");
    let first = node.lookup("file", &[]).expect("first");
    let second = node.lookup("bytes", &[]).expect("second");
    assert_eq!(node.fetch(None, &first, None).expect("fetch").0, data);
    assert_eq!(node.fetch(None, &second, None).expect("fetch").0, other);
    assert!(node.unpublish("file"));
    assert_eq!(node.fetch(None, &second, None).expect("fetch").0, other);
    let gone = node.transport.region_at(parse_locator(&first).unwrap().base_va);
    assert_eq!(gone.unwrap_err().message(), "no published region at base 0x10000000");
}

#[test]
fn exhausted_arena_fails_the_publication() {
    let mut node = start_node("solo", 0x1000_0000);
    let err = node
        .publish(&bytes_request("big", vec![0u8; 4 * 1024 * 1024 + 1]), &[])
        .unwrap_err();
    assert_eq!(
        err.message(),
        "publish ub artifact: publish arena exhausted (4194305 bytes requested)"
    );
    assert!(node.lookup("big", &[]).is_none());
}

#[test]
fn unpersisted_publication_is_rolled_back() {
    let mut node = start_node("solo", 0x1000_0000);
    let request = bytes_request("k", vec![1, 2, 3]);
    let mut step = UrmaP2pTransport::publish(&request);
    step = node.transport.advance_publish(&request, step, PublishEvent::Ready, &mut node.arena);
    let text = match &step {
        PublishStep::SerializeLocator { locator, .. } => {
            assert_eq!(locator.size, 3);
            // Base64 of the sixteen-byte handle of the arena.
            assert_eq!(locator.wire, "AAAAEAAAAAAAAEAAAAAAAA==");
            assert_eq!(locator.wire_bytes().expect("wire").len(), 16);
            locator_text(locator)
        }
        other => panic!("unexpected {other:?}"),
    };
    step = node.transport.advance_publish(
        &request,
        step,
        PublishEvent::Serialized(Ok(text)),
        &mut node.arena,
    );
    assert!(node.transport.region_at(0x1000_0000).is_ok());
    let put = StorePut::PutFailed("disk full".to_string());
    step = node.transport.advance_publish(
        &request,
        step,
        PublishEvent::Persisted(put),
        &mut node.arena,
    );
    match step {
        PublishStep::Failed(error) => {
            assert_eq!(error.message(), "persist P2P catalog entry k: disk full")
        }
        other => panic!("unexpected {other:?}"),
    }
    assert!(node.transport.region_at(0x1000_0000).is_err());
    assert!(node.lookup("k", &[]).is_none());
}

#[test]
fn publish_failures_are_named() {
    let mut node = start_node("solo", 0x1000_0000);
    let mut fail = |request: &P2pPublishRequest, step: PublishStep, event: PublishEvent| {
        match node.transport.advance_publish(request, step, event, &mut node.arena) {
            PublishStep::Failed(error) => error.message(),
            other => panic!("unexpected {other:?}"),
        }
    };
    let request = file_request("k", P2pPublishMode::Reference);
    assert_eq!(
        fail(
            &request,
            UrmaP2pTransport::publish(&request),
            PublishEvent::Opened(Err("denied".to_string()))
        ),
        "map published artifact /data/layer.commit: denied"
    );
    assert_eq!(
        fail(&request, UrmaP2pTransport::publish(&request), PublishEvent::Opened(Ok(0))),
        "map published artifact /data/layer.commit: cannot map empty file /data/layer.commit"
    );
    assert_eq!(
        fail(
            &request,
            PublishStep::MapFile { path: b"/data/layer.commit".to_vec(), len: 5 },
            PublishEvent::Mapped(Err("no memory".to_string()))
        ),
        "map published artifact /data/layer.commit: no memory"
    );
    assert_eq!(
        fail(
            &request,
            PublishStep::RegisterFile { map: Mmap { base: 1, len: 1 }, len: 1 },
            PublishEvent::Registered(Err("full".to_string()))
        ),
        "register published artifact region: full"
    );
    let request = file_request("k", P2pPublishMode::Copy);
    assert_eq!(
        fail(
            &request,
            UrmaP2pTransport::publish(&request),
            PublishEvent::Read(Err("denied".to_string()))
        ),
        "read published artifact /data/layer.commit: denied"
    );
}

fn locator(v: u32, wire: &str, eid: &str, ids: Vec<u32>) -> UbLocator {
    UbLocator {
        v,
        wire: wire.to_string(),
        base_va: 0x7000,
        size: 10,
        handle: UbLocalHandle {
            device: "urma0".to_string(),
            eid: eid.to_string(),
            jetty_ids: ids,
        },
    }
}

fn remote_descriptor(backend_locator: Option<&str>) -> P2pArtifactDescriptor {
    P2pArtifactDescriptor {
        key: "k".to_string(),
        providers: vec![P2pArtifactProvider::Peer(P2pPeer {
            node_id: "peer".to_string(),
            endpoint: P2pEndpoint { backend: "ub".to_string(), address: "a".to_string() },
        })],
        backend_locator: backend_locator.map(|text| text.to_string()),
        metadata: "null".to_string(),
    }
}

const EID: &str = "000102030405060708090a0b0c0d0e0f";

#[test]
fn unusable_descriptors_are_refused() {
    let reason = |descriptor: &P2pArtifactDescriptor, parsed| {
        resolve_fetch(descriptor, parsed).unwrap_err().message()
    };
    let plain = remote_descriptor(Some("text"));
    assert_eq!(
        reason(&remote_descriptor(None), Ok(locator(1, "", EID, vec![1]))),
        "ub descriptor is missing backend_locator"
    );
    assert_eq!(reason(&plain, Err("eof".to_string())), "invalid ub locator: eof");
    assert_eq!(
        reason(&plain, Ok(locator(2, "", EID, vec![1]))),
        "unsupported ub locator version 2"
    );
    assert_eq!(
        reason(&plain, Ok(locator(1, "", "z\"z", vec![1]))),
        "invalid ub provider EID \"z\\\"z\""
    );
    assert_eq!(
        reason(&plain, Ok(locator(1, "", EID, vec![]))),
        "ub provider advertises no jetties"
    );
    let mut orphan = remote_descriptor(Some("text"));
    orphan.providers.clear();
    assert_eq!(
        reason(&orphan, Ok(locator(1, "", EID, vec![1]))),
        "ub descriptor has no providers"
    );
}

#[test]
fn fetches_resolve_to_the_nearest_provider() {
    let mut descriptor = remote_descriptor(Some("text"));
    match resolve_fetch(&descriptor, Ok(locator(1, "", EID, vec![4, 5]))).expect("remote") {
        ResolvedFetch::Remote { peer_eid, peer_jetty_id, .. } => {
            assert_eq!(peer_eid, [0, 1, 2, 3, 4, 5, 6, 7, 8, 9, 10, 11, 12, 13, 14, 15]);
            assert_eq!(peer_jetty_id, 4);
        }
        other => panic!("unexpected {other:?}"),
    }
    descriptor.providers.push(P2pArtifactProvider::Local);
    assert!(matches!(
        resolve_fetch(&descriptor, Ok(locator(1, "", "not an eid", vec![]))),
        Ok(ResolvedFetch::Local { base_va: 0x7000, size: 10 })
    ));
    assert_eq!(
        UbLocator::descriptor_size(&descriptor, Ok(locator(1, "", EID, vec![]))).expect("size"),
        10
    );
}

#[test]
fn locator_wire_is_base64() {
    let good = locator(1, "AQID/w==", EID, vec![1]);
    assert_eq!(good.wire_bytes().expect("decodes"), vec![1, 2, 3, 255]);
    let bad = locator(1, "AQI*", EID, vec![1]);
    assert_eq!(
        bad.wire_bytes().unwrap_err().message(),
        "invalid ub locator wire encoding: Invalid symbol 42, offset 3."
    );
    assert_eq!(
        UbLocator::wire_of(Err("why".to_string())).unwrap_err().message(),
        "invalid ub locator wire encoding: why"
    );
    let handle = UbLocalHandle { device: "d".to_string(), eid: EID.to_string(), jetty_ids: vec![] };
    let made = UbLocator::new(&[0xde, 0xad, 0xbe, 0xef], 1, 2, &handle);
    assert_eq!((made.v, made.wire.as_str()), (1, "3q2+7w=="));
    assert_eq!(made.wire_bytes().expect("round trip"), vec![0xde, 0xad, 0xbe, 0xef]);
    assert_eq!(
        UbLocator::encode(Err("deep".to_string())).unwrap_err().message(),
        "serialize ub locator: deep"
    );
}

#[test]
fn bounce_blocks_come_back_except_after_timeouts() {
    let mut node = start_node("solo", 0x1000_0000);
    let start = |node: &mut TestNode| -> Result<_, Error> {
        node.transport.start_read(&mut node.io, Ok(vec![1]), 0x5000, [0; 16], 1, 8, ())
    };
    let mut reads = Vec::new();
    for _ in 0..4 {
        reads.push(start(&mut node).expect("block").0);
    }
    let exhausted = start(&mut node).map(|_| ()).unwrap_err();
    assert_eq!(
        exhausted.message(),
        "ub read: bounce pool exhausted (timed-out blocks are recycled lazily)"
    );

    let timed_out = node.transport.finish_read(reads[0], ReadOutcome::TimedOut, &node.bounce);
    assert_eq!(timed_out.unwrap_err().message(), "ub read completion timed out");
    assert!(start(&mut node).is_err());
    node.transport.reap(reads[0].block);
    let again = start(&mut node).expect("reaped").0;
    assert_eq!(again.block, reads[0].block);

    let failed = node.transport.finish_read(
        reads[1],
        ReadOutcome::Completed(Err("status 12".to_string())),
        &node.bounce,
    );
    assert_eq!(failed.unwrap_err().message(), "ub read completion: status 12");
    let dropped = node.transport.finish_read(reads[2], ReadOutcome::Dropped, &node.bounce);
    assert_eq!(dropped.unwrap_err().message(), "ub read: driver worker stopped");
    let refused =
        node.transport.finish_post(&mut node.io, reads[3], Err("queue full".to_string()));
    assert_eq!(refused.unwrap_err().message(), "post ub read: queue full");
    assert!(!node.io.cancel_completion(reads[3].user_ctx));
    for _ in 0..3 {
        start(&mut node).expect("block is back");
    }
    assert!(start(&mut node).is_err());
}

#[test]
fn undecodable_handles_hold_nothing() {
    let mut node = start_node("solo", 0x1000_0000);
    for token in 0..8 {
        let err = node
            .transport
            .start_read(&mut node.io, Err("bad".to_string()), 0, [0; 16], 1, 8, ())
            .map(|_| ())
            .unwrap_err();
        assert_eq!(err.message(), "invalid ub locator wire encoding: bad");
        assert!(!node.io.cancel_completion(token));
    }
    let (first, _) = node
        .transport
        .start_read(&mut node.io, Ok(vec![]), 0, [0; 16], 1, 8, ())
        .expect("block is free");
    assert!(node.io.cancel_completion(first.user_ctx));
    for _ in 0..3 {
        node.transport
            .start_read(&mut node.io, Ok(vec![]), 0, [0; 16], 1, 8, ())
            .expect("block is free");
    }
    let err = node
        .transport
        .start_read(&mut node.io, Err("bad".to_string()), 0, [0; 16], 1, 8, ())
        .map(|_| ())
        .unwrap_err();
    assert!(err.message().contains("bounce pool exhausted"));
}

#[test]
fn registrations_say_who_may_read() {
    let handle = LoopbackUrmaDriver::new("n").local_handle();
    let arena = Mmap { base: 0x1000, len: 4096 };
    let step = StartupStep::RegisterArena { handle: handle.clone(), arena };
    let (map, access) = step.registration().expect("arena");
    assert_eq!((map.base, map.len, access), (0x1000, 4096, RegionAccess::RemoteRead));
    assert!(StartupStep::MapArena { handle, len: 4096 }.registration().is_none());
    let file = PublishStep::RegisterFile { map: Mmap { base: 0x9000, len: 7 }, len: 7 };
    let (map, len, access) = file.registration().expect("file");
    assert_eq!((map.base, map.len, len, access), (0x9000, 7, 7, RegionAccess::RemoteRead));
    assert!(PublishStep::Record.registration().is_none());
}

#[test]
fn slices_beyond_a_read_are_cut() {
    let mut config = test_config();
    config.ub.slice_size = 1 << 33;
    config.ub.arena_size = 1 << 33;
    config.ub.max_inflight_reads = 2;
    let (transport, _) = start_transport(&config, "solo", 0x1000_0000);
    let mut source = locator(1, "AQID", EID, vec![1]);
    source.size = (1 << 33) + 5;
    let resolved =
        ResolvedFetch::Remote { locator: source, peer_eid: [7; 16], peer_jetty_id: 1 };
    let mut cursor = transport.fetch_to_writer(&resolved);
    let mut parts = Vec::new();
    while let Some((offset, len)) = cursor.next() {
        assert!(len <= MAX_READ_LEN);
        parts.push((offset, remote_len(len)));
        cursor.advance();
    }
    assert_eq!(
        parts,
        vec![(0, u32::MAX), (0xffff_ffff, u32::MAX), (0x1_ffff_fffe, 7)]
    );
}

#[test]
fn artifacts_survive_interleaved_publications() {
    let mut node = start_node("solo", 0x1000_0000);
    node.publish(&bytes_request("first", vec![1; 5000]), &[]).expect("publish");
    node.publish(&file_request("file", P2pPublishMode::Reference), &[9; 300]).expect("publish");
    // A publication under way while others come and go.
    let slow = bytes_request("slow", vec![2; 100]);
    let located = node.transport.advance_publish(
        &slow,
        UrmaP2pTransport::publish(&slow),
        PublishEvent::Ready,
        &mut node.arena,
    );
    node.publish(&bytes_request("third", vec![3; 4096]), &[]).expect("publish");
    assert!(node.unpublish("third"));
    let text = match &located {
        PublishStep::SerializeLocator { locator, .. } => locator_text(locator),
        other => panic!("unexpected {other:?}"),
    };
    let event = PublishEvent::Serialized(Ok(text));
    let persisting = node.transport.advance_publish(&slow, located, event, &mut node.arena);
    node.publish(&bytes_request("fourth", vec![4; 1]), &[]).expect("publish");
    let event = PublishEvent::Persisted(StorePut::Stored);
    node.transport.advance_publish(&slow, persisting, event, &mut node.arena);
    assert!(node.unpublish("file"));
    assert!(node.unpublish("fourth"));
    for (key, bytes) in [("first", vec![1; 5000]), ("slow", vec![2; 100])] {
        let descriptor = node.lookup(key, &[]).expect("listed");
        assert_eq!(node.fetch(None, &descriptor, None).expect("fetch").0, bytes);
    }
    for key in ["third", "file", "fourth"] {
        assert!(node.lookup(key, &[]).is_none());
    }
}

#[test]
fn read_operations_carry_their_target() {
    let mut node = start_node("solo", 0x1000_0000);
    let source = locator(1, "AQID", EID, vec![1]);
    let (read, op): (_, UrmaReadOp) = node
        .transport
        .read_remote_chunk(&mut node.io, &source, [7; 16], 3, 0x100, 64, ())
        .expect("starts");
    assert_eq!(op.remote_wire, vec![1, 2, 3]);
    assert_eq!(op.remote_addr, 0x7100);
    assert_eq!(op.len, 64);
    assert_eq!(op.local_addr, node.transport.bounce_map().base + read.block);
    assert_eq!((op.peer_eid, op.peer_jetty_id, op.user_ctx), ([7; 16], 3, read.user_ctx));
    assert!(check_permit(true).is_ok());
    assert_eq!(
        check_permit(false).unwrap_err().message(),
        "ub read permit: transport shut down"
    );
}

#[test]
fn cursors_cut_ranges_into_chunks() {
    let mut cursor = FetchCursor { offset: 10, remaining: 25, chunk: 10 };
    let mut parts = Vec::new();
    while let Some(part) = cursor.next() {
        parts.push(part);
        cursor.advance();
    }
    assert_eq!(parts, vec![(10, 10), (20, 10), (30, 5)]);
    let mut cursor = FetchCursor { offset: 0, remaining: 25, chunk: 10 };
    cursor.advance();
    cursor.fail();
    assert_eq!(cursor.next(), None);
    assert_eq!(remote_len(4096), 4096);
    assert_eq!(remote_len(MAX_READ_LEN), u32::MAX);
}

#[test]
fn lookups_skip_this_node_and_failing_peers() {
    let mut provider = start_node("provider", 0x1000_0000);
    let fetcher = start_node("fetcher", 0x2000_0000);
    let empty = start_node("empty", 0x3000_0000);
    provider.publish(&bytes_request("k", vec![1]), &[]).expect("publish");
    let own = fetcher.peer("fetcher");
    let provider_peer = provider.peer("provider");
    let empty_peer = empty.peer("empty");
    let found = fetcher
        .lookup("k", &[(&own, &fetcher), (&empty_peer, &empty), (&provider_peer, &provider)])
        .expect("found");
    assert!(matches!(
        found.providers.as_slice(),
        [P2pArtifactProvider::Peer(peer)] if peer.node_id == "provider"
    ));
    assert!(fetcher.lookup("absent", &[(&provider_peer, &provider)]).is_none());

    let key = "k".to_string();
    let step = LookupStep::AskPeer { peers: vec![empty_peer, own], at: 0 };
    let failed = LookupEvent::Answer(Err(Error::invalid_descriptor("bad peer")));
    assert!(matches!(
        fetcher.transport.advance_lookup(&key, step, failed),
        LookupStep::Done(None)
    ));
}

#[test]
fn local_entries_are_found_without_asking() {
    let mut node = start_node("solo", 0x1000_0000);
    node.publish(&bytes_request("k", vec![1]), &[]).expect("publish");
    assert!(matches!(
        node.transport.lookup_with_hints(&"k".to_string()),
        LookupStep::Done(Some(_))
    ));
    assert!(matches!(
        node.transport.lookup_with_hints(&"other".to_string()),
        LookupStep::PeersForKey
    ));
    // Peers named by the key make hints unnecessary.
    let peer = P2pPeer {
        node_id: "other".to_string(),
        endpoint: P2pEndpoint { backend: "ub".to_string(), address: "x".to_string() },
    };
    assert!(matches!(
        node.transport.advance_lookup(
            &"other".to_string(),
            LookupStep::PeersForKey,
            LookupEvent::Peers(Ok(vec![peer]))
        ),
        LookupStep::AskPeer { at: 0, .. }
    ));
}

#[test]
fn unsuitable_peers_are_refused() {
    let mut peer = P2pPeer {
        node_id: "n1".to_string(),
        endpoint: P2pEndpoint { backend: "iroh".to_string(), address: "x".to_string() },
    };
    assert_eq!(
        check_peer(&peer, Ok(())).unwrap_err().message(),
        "peer n1 endpoint backend iroh is not ub"
    );
    peer.endpoint.backend = "ub".to_string();
    assert!(check_peer(&peer, Ok(())).is_ok());
    assert_eq!(
        check_peer(&peer, Err("invalid socket address syntax".to_string())).unwrap_err().message(),
        "invalid ub peer address \"x\": invalid socket address syntax"
    );
    assert_eq!(
        lookup_peer(None).unwrap_err().message(),
        "lookup ub artifact from peer timed out"
    );
    assert!(lookup_peer(Some(Ok(None))).expect("answer").is_none());
}

fn startup_error(config: &ResolvedP2pConfig, node_id: &str) -> String {
    match UrmaP2pTransport::new(config, node_id) {
        StartupStep::Failed(error) => error.message(),
        other => panic!("unexpected {other:?}"),
    }
}

#[test]
fn startup_validates_its_settings() {
    let mut config = test_config();
    config.ub.slice_size = 0;
    let slice = "validate p2p.ub.slice_size_bytes: must be a positive multiple of 4096";
    assert_eq!(startup_error(&config, "n"), slice);
    config.ub.slice_size = 4097;
    assert_eq!(startup_error(&config, "n"), slice);
    config.ub.slice_size = 8192;
    config.ub.arena_size = 4096;
    assert_eq!(
        startup_error(&config, "n"),
        "validate p2p.ub.arena_size_bytes: must be at least p2p.ub.slice_size_bytes"
    );
    config.ub.arena_size = 8192;
    config.ub.driver = "rdma".to_string();
    assert_eq!(
        startup_error(&config, "n"),
        "validate p2p.ub.driver: unknown driver \"rdma\"; expected \"ffi\" or \"loopback\""
    );
    config.ub.driver = "ffi".to_string();
    config.ub.jetty_count = 0;
    config.ub.jfc_depth = 1;
    let step = UrmaP2pTransport::new(&config, "n");
    match &step {
        StartupStep::StartFfi { config } => {
            assert_eq!((config.jetty_count, config.max_wr, config.jfc_depth), (1, 16, 64))
        }
        other => panic!("unexpected {other:?}"),
    }
    let event = StartupEvent::Driver(Err(DriverFailure::Unavailable));
    match UrmaP2pTransport::advance_startup(&config, "n", step, event) {
        StartupStep::Failed(error) => assert_eq!(
            error.message(),
            "initialize ub P2P transport: p2p.ub.driver = \"ffi\" requires building with the `p2p-urma` cargo feature"
        ),
        other => panic!("unexpected {other:?}"),
    }
    assert_eq!(ffi_driver(&config.ub).device, "loopback");
}

#[test]
fn startup_failures_are_named() {
    let config = test_config();
    let handle = LoopbackUrmaDriver::new("n").local_handle();
    let fail = |step: StartupStep, event: StartupEvent| {
        match UrmaP2pTransport::advance_startup(&config, "n", step, event) {
            StartupStep::Failed(error) => error.message(),
            other => panic!("unexpected {other:?}"),
        }
    };
    let size = config.ub.arena_size;
    assert_eq!(
        fail(
            StartupStep::MapArena { handle: handle.clone(), len: size },
            StartupEvent::Mapped(Err("no memory".to_string()))
        ),
        "create ub publish arena: no memory"
    );
    let arena = Mmap { base: 0x1000, len: size as usize };
    assert_eq!(
        fail(
            StartupStep::RegisterArena { handle: handle.clone(), arena },
            StartupEvent::Registered(Err("no slots".to_string()))
        ),
        "register ub publish arena: no slots"
    );
    assert_eq!(
        fail(
            StartupStep::MapBounce {
                handle,
                arena,
                arena_wire: RegionWire { wire: vec![], base_va: 0x1000 },
                len: 4 * 4096
            },
            StartupEvent::Mapped(Err("no memory".to_string()))
        ),
        "create ub bounce pool: no memory"
    );
}

#[test]
fn oversized_bounce_pool_is_refused() {
    let mut config = test_config();
    config.ub.slice_size = 1 << 62;
    config.ub.arena_size = 1 << 62;
    let arena = Mmap { base: 0x1000, len: 1 << 62 };
    let step = StartupStep::RegisterArena {
        handle: LoopbackUrmaDriver::new("n").local_handle(),
        arena,
    };
    let event =
        StartupEvent::Registered(Ok(RegionWire { wire: vec![], base_va: arena.base }));
    match UrmaP2pTransport::advance_startup(&config, "n", step, event) {
        StartupStep::Failed(error) => {
            assert_eq!(error.message(), "create ub bounce pool: bounce pool overflow")
        }
        other => panic!("unexpected {other:?}"),
    }
}

#[test]
fn unspecified_addresses_are_replaced() {
    let any = SocketAddress {
        ip: IpAddress::V4([0; 4]),
        port: 7000,
        flowinfo: 0,
        scope_id: 0,
    };
    let probed = SocketAddress {
        ip: IpAddress::V4([10, 1, 2, 3]),
        port: 55_555,
        flowinfo: 0,
        scope_id: 0,
    };
    let advertised = advertise_addr(any, Some(probed));
    assert!(matches!(advertised.ip, IpAddress::V4([10, 1, 2, 3])));
    assert_eq!(advertised.port, 7000);
    assert!(matches!(advertise_addr(any, None).ip, IpAddress::V4([0, 0, 0, 0])));
    assert!(matches!(advertise_addr(probed, Some(any)).ip, IpAddress::V4([10, 1, 2, 3])));
    let mut v6 = [0u8; 16];
    assert!(IpAddress::V6(v6).is_unspecified());
    v6[15] = 1;
    assert!(!IpAddress::V6(v6).is_unspecified());
}

#[test]
fn previous_entries_are_deleted_before_serving() {
    let config = test_config();
    let resources = agentenv::transport::startup::Resources {
        handle: LoopbackUrmaDriver::new("n").local_handle(),
        arena: Mmap { base: 0x1000_0000, len: config.ub.arena_size as usize },
        arena_wire: RegionWire { wire: vec![], base_va: 0x1000_0000 },
        bounce: Mmap { base: 0x2000_0000, len: 4 * 4096 },
    };
    let endpoint = P2pEndpoint { backend: "ub".to_string(), address: "a".to_string() };
    let records = ["old-a", "old-b"]
        .iter()
        .map(|key| {
            let mut descriptor = remote_descriptor(None);
            descriptor.key = key.to_string();
            CatalogRecord { key: key.as_bytes().to_vec(), descriptor: Ok(descriptor) }
        })
        .collect();
    let mut step = UrmaP2pTransport::advance_startup(
        &config,
        "n",
        StartupStep::LoadCatalog { resources, endpoint, path: b"p".to_vec() },
        StartupEvent::Scanned(StoreScan::Records(records)),
    );
    let mut deleted = Vec::new();
    while let StartupStep::ResetCatalog { reset, .. } = &step {
        deleted.push(reset.next_key().expect("key"));
        step = UrmaP2pTransport::advance_startup(
            &config,
            "n",
            step,
            StartupEvent::Deleted(Ok(())),
        );
    }
    deleted.sort();
    assert_eq!(deleted, vec!["old-a", "old-b"]);
    match step {
        StartupStep::Serve { catalog, .. } => {
            assert!(catalog.descriptor_for(&"old-a".to_string()).is_none());
            assert!(catalog.descriptor_for(&"old-b".to_string()).is_none());
        }
        other => panic!("unexpected {other:?}"),
    }
}
