use agentenv::config::{
    P2pConfig, P2pTransportKind, ResolvedP2pConfig, ResolvedUbP2pConfig, UbP2pConfig,
};

fn ub() -> UbP2pConfig {
    UbP2pConfig {
        device: " urma0".to_string(),
        driver: "\tloopback \n".to_string(),
        jetty_count: 0,
        max_wr: 0,
        jfc_depth: 63,
        slice_size_bytes: 4096,
        max_inflight_reads: 0,
        arena_size_bytes: 8192,
        catalog_listen_addr: "   ".to_string(),
    }
}

fn p2p() -> P2pConfig {
    P2pConfig {
        enabled: true,
        transport: P2pTransportKind::Ub,
        store_dir: b"/var/p2p".to_vec(),
        listen_addr: " 0.0.0.0:7 ".to_string(),
        lookup_timeout_ms: 250,
        fetch_timeout_ms: 9000,
        peer_discovery_refresh_interval_secs: 0,
        ub: ub(),
    }
}

#[test]
fn backends_have_identifiers() {
    assert_eq!(P2pTransportKind::Disabled.backend_id(), None);
    assert_eq!(P2pTransportKind::Iroh.backend_id(), Some("iroh"));
    assert_eq!(P2pTransportKind::Ub.backend_id(), Some("ub"));
}

#[test]
fn ub_settings_are_trimmed_and_raised() {
    let resolved = ResolvedUbP2pConfig::from_config(&ub());
    assert_eq!(resolved.device, " urma0");
    assert_eq!(resolved.driver, "loopback");
    assert_eq!(resolved.jetty_count, 1);
    assert_eq!(resolved.max_wr, 1);
    assert_eq!(resolved.jfc_depth, 64);
    assert_eq!(resolved.max_inflight_reads, 1);
    assert_eq!((resolved.slice_size, resolved.arena_size), (4096, 8192));
    assert_eq!(resolved.catalog_listen_addr, None);
    let mut given = ub();
    given.catalog_listen_addr = "\u{3000}127.0.0.1:9\u{a0}".to_string();
    given.jfc_depth = 65;
    let resolved = ResolvedUbP2pConfig::from_config(&given);
    assert_eq!(resolved.catalog_listen_addr, Some("127.0.0.1:9".to_string()));
    assert_eq!(resolved.jfc_depth, 65);
}

#[test]
fn transport_settings_are_resolved() {
    let resolved = ResolvedP2pConfig::from_config(&p2p());
    assert_eq!(resolved.transport, P2pTransportKind::Ub);
    assert_eq!(resolved.store_dir, b"/var/p2p");
    assert_eq!(resolved.listen_addr, Some("0.0.0.0:7".to_string()));
    assert_eq!((resolved.lookup_timeout, resolved.fetch_timeout), (250, 9000));
    assert_eq!(resolved.peer_discovery_refresh_interval, 1);
    let mut off = p2p();
    off.enabled = false;
    off.listen_addr = String::new();
    off.peer_discovery_refresh_interval_secs = 30;
    let resolved = ResolvedP2pConfig::from_config(&off);
    assert_eq!(resolved.transport, P2pTransportKind::Disabled);
    assert_eq!(resolved.listen_addr, None);
    assert_eq!(resolved.peer_discovery_refresh_interval, 30);
}
