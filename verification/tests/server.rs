use agentenv::catalog::{
    CatalogRequest, CatalogResponse, PublishedArtifactCatalog, StorePut, StoreScan,
    MAX_CATALOG_REQUEST_BYTES, MAX_CATALOG_RESPONSE_BYTES,
};
use agentenv::server::{
    request_descriptor, serve_connection, AskEvent, AskStep, ServeEvent, ServeStep,
};
use agentenv::types::{P2pArtifactDescriptor, P2pArtifactProvider, P2pEndpoint};

fn catalog_with(key: &str) -> PublishedArtifactCatalog {
    let endpoint =
        P2pEndpoint { backend: "ub".to_string(), address: "127.0.0.1:1".to_string() };
    let mut catalog = PublishedArtifactCatalog::load(
        StoreScan::Records(Vec::new()),
        b"catalog.db",
        "node-a",
        &endpoint,
    )
    .expect("load");
    catalog
        .upsert(
            P2pArtifactDescriptor {
                key: key.to_string(),
                providers: vec![P2pArtifactProvider::Local],
                backend_locator: Some("wire-locator".to_string()),
                metadata: "{\"protocol\":\"agentenv-overlaybd-layer-v1\"}".to_string(),
            },
            StorePut::Stored,
        )
        .expect("upsert");
    catalog
}

fn prefix_of(bytes: &[u8]) -> u32 {
    u32::from_le_bytes([bytes[0], bytes[1], bytes[2], bytes[3]])
}

/// Ask the catalog over an in-memory stream. Requests travel as the bare key.
fn ask(catalog: &PublishedArtifactCatalog, key: &str) -> Option<P2pArtifactDescriptor> {
    let key = key.to_string();
    let addr = "127.0.0.1:1";
    let mut to_server: Vec<u8> = Vec::new();
    let mut answer: Option<CatalogResponse> = None;
    let mut to_client: Vec<u8> = Vec::new();
    let mut step = AskStep::Connect;
    loop {
        let event = match &step {
            AskStep::Connect => AskEvent::Done,
            AskStep::Serialize { request } => {
                AskEvent::Serialized(request.key.as_bytes().to_vec())
            }
            AskStep::WriteLength { prefix, .. } => {
                to_server.extend_from_slice(prefix);
                AskEvent::Done
            }
            AskStep::WriteBody { body } => {
                to_server.extend_from_slice(body);
                AskEvent::Done
            }
            AskStep::ReadLength => {
                let (response, frame) = serve(catalog, &to_server);
                answer = Some(response);
                to_client = frame;
                AskEvent::Length(prefix_of(&to_client))
            }
            AskStep::ReadBody { len } => {
                assert_eq!(to_client.len() - 4, *len);
                AskEvent::Done
            }
            AskStep::Parse => AskEvent::Parsed(answer.take().expect("answered")),
            AskStep::Answered(found) => return found.clone(),
            AskStep::Failed(error) => panic!("{}", error.message()),
        };
        step = request_descriptor(step, addr, &key, event);
    }
}

fn serve(catalog: &PublishedArtifactCatalog, input: &[u8]) -> (CatalogResponse, Vec<u8>) {
    let mut step = ServeStep::ReadLength;
    let mut response = None;
    let mut output = Vec::new();
    loop {
        let event = match &step {
            ServeStep::ReadLength => ServeEvent::Length(prefix_of(input)),
            ServeStep::ReadRequest { len } => {
                let body = &input[4..4 + len];
                let key = String::from_utf8(body.to_vec()).expect("key");
                ServeEvent::Request(Ok(CatalogRequest { key }))
            }
            ServeStep::Serialize { response: answer } => {
                response = Some(answer.clone());
                ServeEvent::Serialized(Ok(b"serialized".to_vec()))
            }
            ServeStep::Write { prefix, body } => {
                output.extend_from_slice(prefix);
                output.extend_from_slice(body);
                ServeEvent::Written
            }
            ServeStep::Served => return (response.expect("response"), output),
            ServeStep::Failed(text) => panic!("{text}"),
        };
        step = serve_connection(step, catalog, event);
    }
}

#[test]
fn catalog_round_trip_over_tcp() {
    let key = "overlaybd-layer/v1/sha256:abc";
    let catalog = catalog_with(key);
    let descriptor = ask(&catalog, key).expect("descriptor found");
    assert_eq!(descriptor.key, key);
    assert_eq!(descriptor.backend_locator.as_deref(), Some("wire-locator"));
    // The server must advertise itself, not the stored placeholder.
    assert!(matches!(
        descriptor.providers.as_slice(),
        [P2pArtifactProvider::Peer(peer)] if peer.node_id == "node-a"
    ));
    assert!(ask(&catalog, "nope").is_none());
}

#[test]
fn oversized_requests_are_refused_unread() {
    let catalog = catalog_with("k");
    let limit = MAX_CATALOG_REQUEST_BYTES as u32;
    assert!(matches!(
        serve_connection(ServeStep::ReadLength, &catalog, ServeEvent::Length(limit)),
        ServeStep::ReadRequest { len: 1048576 }
    ));
    match serve_connection(ServeStep::ReadLength, &catalog, ServeEvent::Length(limit + 1)) {
        ServeStep::Failed(text) => assert_eq!(text, "catalog request too large: 1048577 bytes"),
        other => panic!("unexpected {other:?}"),
    }
}

#[test]
fn oversized_responses_are_not_sent() {
    let catalog = catalog_with("k");
    let now = ServeStep::Serialize { response: CatalogResponse { descriptor: None } };
    let bytes = vec![0u8; MAX_CATALOG_RESPONSE_BYTES + 1];
    match serve_connection(now, &catalog, ServeEvent::Serialized(Ok(bytes))) {
        ServeStep::Failed(text) => assert_eq!(text, "catalog response too large: 8388609 bytes"),
        other => panic!("unexpected {other:?}"),
    }
}

#[test]
fn response_frames_carry_their_length() {
    let catalog = catalog_with("k");
    let now = ServeStep::Serialize { response: CatalogResponse { descriptor: None } };
    match serve_connection(now, &catalog, ServeEvent::Serialized(Ok(vec![7u8; 300]))) {
        ServeStep::Write { prefix, body } => {
            assert_eq!(prefix, vec![44, 1, 0, 0]);
            assert_eq!(body, vec![7u8; 300]);
        }
        other => panic!("unexpected {other:?}"),
    }
}

#[test]
fn serving_failures_are_named() {
    let catalog = catalog_with("k");
    let text = |step| match step {
        ServeStep::Failed(text) => text,
        other => panic!("unexpected {other:?}"),
    };
    assert_eq!(
        text(serve_connection(
            ServeStep::ReadRequest { len: 1 },
            &catalog,
            ServeEvent::Request(Err("eof".to_string()))
        )),
        "parse ub P2P catalog request: eof"
    );
    assert_eq!(
        text(serve_connection(
            ServeStep::Serialize { response: CatalogResponse { descriptor: None } },
            &catalog,
            ServeEvent::Serialized(Err("odd".to_string()))
        )),
        "serialize catalog response: odd"
    );
    assert_eq!(
        text(serve_connection(
            ServeStep::ReadLength,
            &catalog,
            ServeEvent::StreamFailed("reset by peer".to_string())
        )),
        "reset by peer"
    );
}

#[test]
fn asking_failures_are_named() {
    let key = "k".to_string();
    let failed = |step| {
        match request_descriptor(step, "10.0.0.1:7", &key, AskEvent::Failed("down".to_string())) {
            AskStep::Failed(error) => error.message(),
            other => panic!("unexpected {other:?}"),
        }
    };
    assert_eq!(failed(AskStep::Connect), "connect to ub P2P catalog peer 10.0.0.1:7: down");
    assert_eq!(
        failed(AskStep::Serialize { request: CatalogRequest { key: "k".to_string() } }),
        "serialize catalog request: down"
    );
    assert_eq!(
        failed(AskStep::WriteLength { prefix: Vec::new(), body: Vec::new() }),
        "write catalog request length: down"
    );
    assert_eq!(failed(AskStep::WriteBody { body: Vec::new() }), "write catalog request: down");
    assert_eq!(failed(AskStep::ReadLength), "read catalog response length: down");
    assert_eq!(failed(AskStep::ReadBody { len: 1 }), "read catalog response: down");
    assert_eq!(failed(AskStep::Parse), "parse catalog response: down");
}

#[test]
fn oversized_answers_are_refused() {
    let key = "k".to_string();
    let limit = MAX_CATALOG_RESPONSE_BYTES as u32;
    assert!(matches!(
        request_descriptor(AskStep::ReadLength, "a", &key, AskEvent::Length(limit)),
        AskStep::ReadBody { len: 8388608 }
    ));
    match request_descriptor(AskStep::ReadLength, "a", &key, AskEvent::Length(limit + 1)) {
        AskStep::Failed(error) => {
            assert_eq!(error.message(), "catalog response too large: 8388609 bytes")
        }
        other => panic!("unexpected {other:?}"),
    }
}
