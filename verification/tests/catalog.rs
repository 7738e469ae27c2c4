use agentenv::catalog::{
    CatalogRecord, CatalogRequest, PublishedArtifactCatalog, StorePut, StoreScan,
};
use agentenv::iroh::CatalogProtocol;
use agentenv::types::{P2pArtifactDescriptor, P2pArtifactProvider, P2pEndpoint, P2pPeer};
use std::collections::BTreeMap;

fn endpoint(backend: &str, address: &str) -> P2pEndpoint {
    P2pEndpoint { backend: backend.to_string(), address: address.to_string() }
}

fn descriptor(key: &str, locator: &str) -> P2pArtifactDescriptor {
    P2pArtifactDescriptor {
        key: key.to_string(),
        providers: vec![P2pArtifactProvider::Local],
        backend_locator: Some(locator.to_string()),
        metadata: "{\"kind\":\"round-trip\"}".to_string(),
    }
}

/// Stand-in for the persisted store.
#[derive(Default)]
struct Disk {
    entries: BTreeMap<String, P2pArtifactDescriptor>,
}

impl Disk {
    fn scan(&self) -> StoreScan {
        StoreScan::Records(
            self.entries
                .iter()
                .map(|(key, descriptor)| CatalogRecord {
                    key: key.as_bytes().to_vec(),
                    descriptor: Ok(descriptor.clone()),
                })
                .collect(),
        )
    }

    fn put(&mut self, descriptor: &P2pArtifactDescriptor) -> StorePut {
        self.entries.insert(descriptor.key.clone(), descriptor.clone());
        StorePut::Stored
    }
}

fn load(scan: StoreScan) -> PublishedArtifactCatalog {
    PublishedArtifactCatalog::load(scan, b"/x/catalog.db", "node-a", &endpoint("ub", "127.0.0.1:9000"))
        .expect("load catalog")
}

#[test]
fn persisted_entries_round_trip_and_remove() {
    let mut disk = Disk::default();
    let mut catalog = load(disk.scan());
    let key = "test/p2p/catalog/round-trip".to_string();
    let entry = descriptor(&key, "locator");
    let put = disk.put(&entry);
    catalog.upsert(entry, put).expect("upsert");

    // Reopened, the entry is there.
    let found = load(disk.scan()).descriptor_for(&key).expect("persisted");
    assert_eq!(found.backend_locator, Some("locator".to_string()));

    disk.entries.remove(&key);
    let removed = catalog.remove(&key, Ok(())).expect("remove");
    assert!(removed.is_some());
    assert!(catalog.descriptor_for(&key).is_none());

    // Reopened, the removal persists.
    assert!(load(disk.scan()).descriptor_for(&key).is_none());
}

#[test]
fn response_descriptor_uses_current_local_provider() {
    let mut catalog = PublishedArtifactCatalog::load(
        StoreScan::Records(Vec::new()),
        b"catalog.db",
        "current-node",
        &endpoint("iroh", "fresh-local-endpoint"),
    )
    .expect("load catalog");
    let key = "test/p2p/catalog/accept-provider".to_string();
    let stale = P2pPeer {
        node_id: "stale-node".to_string(),
        endpoint: endpoint("iroh", "stale-endpoint"),
    };
    catalog
        .upsert(
            P2pArtifactDescriptor {
                key: key.clone(),
                providers: vec![P2pArtifactProvider::Local, P2pArtifactProvider::Peer(stale)],
                backend_locator: Some("blob-hash".to_string()),
                metadata: "{\"kind\":\"catalog-accept-test\"}".to_string(),
            },
            StorePut::Stored,
        )
        .expect("upsert descriptor");
    let protocol = CatalogProtocol::new(catalog);

    let descriptor = protocol
        .descriptor_for_response(&key)
        .expect("descriptor should be present");
    assert_eq!(descriptor.backend_locator, Some("blob-hash".to_string()));
    assert_eq!(descriptor.metadata, "{\"kind\":\"catalog-accept-test\"}");
    assert_eq!(descriptor.providers.len(), 1);
    match &descriptor.providers[0] {
        P2pArtifactProvider::Peer(peer) => {
            assert_eq!(peer.node_id, "current-node");
            assert_eq!(peer.endpoint.backend, "iroh");
            assert_eq!(peer.endpoint.address, "fresh-local-endpoint");
        }
        P2pArtifactProvider::Local => panic!("peers must be told the node"),
    }
    let answer = protocol.accept(&CatalogRequest { key });
    assert!(answer.descriptor.is_some());
    let answer = protocol.accept(&CatalogRequest { key: "other".to_string() });
    assert!(answer.descriptor.is_none());
}

#[test]
fn load_failures_are_told_apart() {
    let at = endpoint("ub", "a");
    let open = PublishedArtifactCatalog::load(
        StoreScan::OpenFailed("locked".to_string()),
        b"/d/catalog.db",
        "n",
        &at,
    );
    assert_eq!(open.unwrap_err().message(), "open P2P catalog /d/catalog.db: locked");
    let scan = PublishedArtifactCatalog::load(
        StoreScan::ScanFailed("io".to_string()),
        b"/d/catalog.db",
        "n",
        &at,
    );
    assert_eq!(scan.unwrap_err().message(), "scan P2P catalog /d/catalog.db: io");
    let records = vec![
        CatalogRecord { key: b"good".to_vec(), descriptor: Ok(descriptor("good", "l")) },
        CatalogRecord { key: vec![b'b', 0xff, b'd'], descriptor: Err("eof".to_string()) },
        CatalogRecord { key: b"worse".to_vec(), descriptor: Err("later".to_string()) },
    ];
    let parse =
        PublishedArtifactCatalog::load(StoreScan::Records(records), b"/d/catalog.db", "n", &at);
    assert_eq!(
        parse.unwrap_err().message(),
        "scan P2P catalog /d/catalog.db: parse P2P catalog entry b\u{fffd}d: eof"
    );
}

#[test]
fn loaded_entries_go_by_their_own_key() {
    let records = vec![
        CatalogRecord { key: b"stored-as".to_vec(), descriptor: Ok(descriptor("named", "first")) },
        CatalogRecord { key: b"again".to_vec(), descriptor: Ok(descriptor("named", "second")) },
    ];
    let catalog = load(StoreScan::Records(records));
    assert!(catalog.descriptor_for(&"stored-as".to_string()).is_none());
    let found = catalog.descriptor_for(&"named".to_string()).expect("by own key");
    assert_eq!(found.backend_locator, Some("second".to_string()));
}

#[test]
fn failed_store_operations_change_nothing() {
    let mut catalog = load(StoreScan::Records(Vec::new()));
    let key = "k".to_string();
    let err = catalog
        .upsert(descriptor("k", "l"), StorePut::PutFailed("full".to_string()))
        .unwrap_err();
    assert_eq!(err.message(), "persist P2P catalog entry k: full");
    let err = catalog
        .upsert(descriptor("k", "l"), StorePut::SerializeFailed("nan".to_string()))
        .unwrap_err();
    assert_eq!(err.message(), "serialize P2P catalog entry: nan");
    assert!(catalog.descriptor_for(&key).is_none());
    catalog.upsert(descriptor("k", "l"), StorePut::Stored).expect("upsert");
    let err = catalog.remove(&key, Err("busy".to_string())).unwrap_err();
    assert_eq!(err.message(), "delete P2P catalog entry k: busy");
    assert!(catalog.descriptor_for(&key).is_some());
    assert!(catalog.remove(&"absent".to_string(), Ok(())).expect("remove").is_none());
}

#[test]
fn reset_drops_every_entry() {
    let mut catalog = load(StoreScan::Records(Vec::new()));
    for key in ["a", "b", "c"] {
        catalog.upsert(descriptor(key, "l"), StorePut::Stored).expect("upsert");
    }
    let mut reset = catalog.reset();
    let mut deleted = Vec::new();
    while let Some(key) = reset.next_key() {
        deleted.push(key);
        reset = reset.advance(&mut catalog, Ok(())).expect("advance");
    }
    deleted.sort();
    assert_eq!(deleted, vec!["a", "b", "c"]);
    for key in ["a", "b", "c"] {
        assert!(catalog.descriptor_for(&key.to_string()).is_none());
    }
}

#[test]
fn failed_reset_stops_at_the_failure() {
    let mut catalog = load(StoreScan::Records(Vec::new()));
    catalog.upsert(descriptor("only", "l"), StorePut::Stored).expect("upsert");
    let reset = catalog.reset();
    let err = reset.advance(&mut catalog, Err("gone".to_string())).unwrap_err();
    assert_eq!(err.message(), "delete P2P catalog entry only: gone");
    assert!(catalog.descriptor_for(&"only".to_string()).is_some());
}
