use agentenv::driver::lib_urma::{
    check_status, flag_value_import, flag_value_reg, DriverSetup, LibUrmaDriver,
    LibUrmaDriverConfig, ReadCall, ReadPost, ReadReply, ReadStep, SetupCall, SetupReply, SetupStep,
    TeardownCall,
};
use agentenv::driver::{RegionAccess, UrmaReadOp, UB_TOKEN};
use agentenv::urma_sys;
use agentenv::urma_sys::{
    urma_cr_t, urma_eid_info_t, urma_eid_t, urma_seg_t, URMA_EEXIST, URMA_FAIL, URMA_SUCCESS,
};

fn config(device: &str, jetty_count: u32) -> LibUrmaDriverConfig {
    LibUrmaDriverConfig { device: device.to_string(), jetty_count, max_wr: 16, jfc_depth: 128 }
}

/// A library that hands out objects with rising addresses.
fn reply_to(call: &SetupCall, next: &mut u64) -> SetupReply {
    *next += 0x10;
    match call {
        SetupCall::Init | SetupCall::DeleteContext { .. } => SetupReply::Status(URMA_SUCCESS),
        SetupCall::DeviceList => SetupReply::List { list: *next, count: 1 },
        SetupCall::EidList { .. } => SetupReply::List { list: *next, count: 2 },
        SetupCall::FirstEid { .. } => SetupReply::Eid(urma_eid_info_t {
            eid: urma_eid_t { raw: [0xab; 16] },
            eid_index: 3,
        }),
        SetupCall::JettyId { jetty } => SetupReply::JettyId(*jetty as u32 + 1),
        _ => SetupReply::Object(*next),
    }
}

fn driver(jetty_count: u32) -> LibUrmaDriver {
    let mut setup = DriverSetup::new(config("urma0", jetty_count));
    let mut next = 0x1000;
    while let Some(call) = setup.call() {
        let reply = reply_to(&call, &mut next);
        setup = setup.advance(reply);
    }
    match setup.step {
        SetupStep::Ready(driver) => driver,
        SetupStep::Failed(text) => panic!("{text}"),
        _ => panic!("setup has not ended"),
    }
}

fn op(local_addr: u64, wire: Vec<u8>, peer: u8) -> UrmaReadOp {
    UrmaReadOp {
        remote_wire: wire,
        remote_addr: 0x7000_0000,
        len: 64,
        local_addr,
        peer_eid: [peer; 16],
        peer_jetty_id: 9,
        user_ctx: 77,
    }
}

fn wire() -> Vec<u8> {
    let mut seg = urma_seg_t::default();
    seg.ubva.va = 0x7000_0000;
    seg.len = 4096;
    seg.to_wire()
}

fn failed(post: &ReadPost) -> String {
    match &post.step {
        ReadStep::Failed(text) => text.clone(),
        _ => panic!("read has not failed"),
    }
}

#[test]
fn status_codes_are_judged() {
    assert_eq!(check_status("urma_init", URMA_SUCCESS), Ok(()));
    assert_eq!(check_status("urma_init", URMA_EEXIST), Ok(()));
    assert_eq!(
        check_status("urma_init", URMA_FAIL),
        Err("urma_init failed with urma status 4096".to_string())
    );
    assert_eq!(
        check_status("x", -3),
        Err("x failed with urma status -3".to_string())
    );
}

#[test]
fn flag_words_are_exact() {
    assert_eq!(flag_value_reg(RegionAccess::RemoteRead), 0x40);
    assert_eq!(flag_value_reg(RegionAccess::LocalOnly), 0x20);
    assert_eq!(flag_value_import(), 0x1c);
}

#[test]
fn setup_brings_up_configured_jetties() {
    let driver = driver(3);
    assert_eq!(driver.jetty_count(), 3);
    assert_eq!(driver.max_wr(), 16);
    let handle = driver.local_handle();
    assert_eq!(handle.device, "urma0");
    assert_eq!(handle.eid, "abababababababababababababababab");
    assert_eq!(handle.jetty_ids.len(), 3);
}

#[test]
fn setup_calls_are_configured() {
    let mut setup = DriverSetup::new(config("", 1));
    let mut next = 0x1000;
    let mut names = Vec::new();
    while let Some(call) = setup.call() {
        match &call {
            SetupCall::Init => names.push("init"),
            SetupCall::DeviceByName { .. } => names.push("by name"),
            SetupCall::DeviceList => names.push("list"),
            SetupCall::FirstDevice { .. } => names.push("first"),
            SetupCall::EidList { .. } => names.push("eids"),
            SetupCall::FirstEid { .. } => names.push("eid"),
            SetupCall::CreateContext { eid_index, .. } => {
                assert_eq!(*eid_index, 3);
                names.push("context");
            }
            SetupCall::CreateJfc { cfg, .. } => {
                assert_eq!(cfg.depth, 128);
                names.push("jfc");
            }
            SetupCall::DeleteContext { .. } => names.push("delete"),
            SetupCall::CreateJetty { cfg, .. } => {
                assert_eq!(cfg.jfs_cfg.depth, 16);
                assert_eq!(cfg.jfs_cfg.trans_mode, urma_sys::URMA_TM_RC);
                assert_eq!(cfg.jfs_cfg.max_sge, 1);
                assert_eq!(cfg.jfs_cfg.rnr_retry, 7);
                assert_eq!(cfg.jfs_cfg.err_timeout, 17);
                assert_ne!(cfg.jfs_cfg.jfc, 0);
                names.push("jetty");
            }
            SetupCall::JettyId { .. } => names.push("id"),
        }
        let reply = reply_to(&call, &mut next);
        setup = setup.advance(reply);
    }
    assert_eq!(
        names,
        vec!["init", "list", "first", "eids", "eid", "context", "jfc", "jetty", "id"]
    );
}

fn setup_failure(device: &str, at: &str) -> (String, bool) {
    let mut setup = DriverSetup::new(config(device, 2));
    let mut next = 0x1000;
    let mut dropped = false;
    while let Some(call) = setup.call() {
        let reply = match (&call, at) {
            (SetupCall::Init, "init") => SetupReply::Status(22),
            (SetupCall::DeviceByName { .. }, "device") => SetupReply::Object(0),
            (SetupCall::DeviceList, "list") => SetupReply::List { list: 0x9, count: 0 },
            (SetupCall::EidList { .. }, "eids") => SetupReply::List { list: 0, count: 4 },
            (SetupCall::CreateContext { .. }, "context") => SetupReply::Object(0),
            (SetupCall::CreateJfc { .. }, "jfc") => SetupReply::Object(0),
            (SetupCall::CreateJetty { .. }, "jetty") => SetupReply::Object(0),
            _ => reply_to(&call, &mut next),
        };
        if matches!(call, SetupCall::DeleteContext { .. }) {
            dropped = true;
        }
        setup = setup.advance(reply);
    }
    match setup.step {
        SetupStep::Failed(text) => (text, dropped),
        _ => panic!("setup must fail"),
    }
}

#[test]
fn setup_failures_are_named() {
    let text = |device: &str, at: &str| setup_failure(device, at).0;
    assert_eq!(text("urma0", "init"), "urma_init failed with urma status 22");
    assert_eq!(text("urma0", "device"), "urma device urma0 not found");
    assert_eq!(text("", "list"), "no urma devices found");
    assert_eq!(text("urma0", "eids"), "urma device has no EIDs");
    assert_eq!(text("urma0", "context"), "urma_create_context failed for device urma0");
    assert_eq!(setup_failure("urma0", "jfc"), ("urma_create_jfc failed (depth 128)".to_string(), true));
    assert_eq!(setup_failure("urma0", "jetty"), ("urma_create_jetty failed".to_string(), false));
    assert_eq!(text("ur\0ma", "none"), "device name contains NUL");
}

#[test]
fn registered_regions_cover_their_addresses() {
    let mut driver = driver(1);
    let (ctx, cfg) = driver.register_call(0x4000, 4096, RegionAccess::RemoteRead).expect("live");
    assert_ne!(ctx, 0);
    assert_eq!((cfg.va, cfg.len, cfg.token_value.token), (0x4000, 4096, UB_TOKEN));
    assert_eq!(cfg.flag.value, 0x40);
    let seg = urma_seg_t::default();
    let region = driver.register_region(0x4000, 4096, Some((0x55, seg))).expect("registered");
    assert_eq!(region.base_va, 0x4000);
    assert_eq!(region.wire, seg.to_wire());
    assert_eq!(driver.local_tseg_for(0x3fff), None);
    assert_eq!(driver.local_tseg_for(0x4000), Some(0x55));
    assert_eq!(driver.local_tseg_for(0x4fff), Some(0x55));
    assert_eq!(driver.local_tseg_for(0x5000), None);
    assert_eq!(driver.unregister_region(0x4000), Some(0x55));
    assert_eq!(driver.unregister_region(0x4000), None);
    assert_eq!(driver.local_tseg_for(0x4000), None);
    assert_eq!(
        driver.register_region(0x4000, 7, None).unwrap_err(),
        "urma_register_seg failed for 0x4000 len 7"
    );
}

#[test]
fn first_read_imports_and_binds_then_later_ones_only_post() {
    let mut driver = driver(2);
    driver.register_region(0x4000, 4096, Some((0x55, urma_seg_t::default()))).expect("register");

    let mut post = driver.post_read(op(0x4100, wire(), 1));
    match driver.read_call(&post) {
        Some(ReadCall::ImportJetty { rjetty, token, .. }) => {
            assert_eq!(rjetty.jetty_id.id, 9);
            assert_eq!(rjetty.jetty_id.eid.raw, [1; 16]);
            assert_eq!(rjetty.type_, urma_sys::URMA_JETTY);
            assert_eq!(rjetty.tp_type, urma_sys::URMA_CTP);
            assert_eq!(token.token, UB_TOKEN);
        }
        _ => panic!("jetty import expected"),
    }
    post = driver.advance_read(post, ReadReply::Object(0x61));
    assert!(matches!(
        driver.read_call(&post),
        Some(ReadCall::BindJetty { tjetty: 0x61, .. })
    ));
    post = driver.advance_read(post, ReadReply::Status(URMA_SUCCESS));
    match driver.read_call(&post) {
        Some(ReadCall::ImportSeg { seg, flag, addr, .. }) => {
            assert_eq!(seg.base_va(), 0x7000_0000);
            assert_eq!(flag.value, 0x1c);
            assert_eq!(addr, 0);
        }
        _ => panic!("segment import expected"),
    }
    post = driver.advance_read(post, ReadReply::Object(0x62));
    match driver.read_call(&post) {
        Some(ReadCall::PostSend { wr, .. }) => {
            assert_eq!(wr.opcode, urma_sys::URMA_OPC_READ);
            assert_eq!(wr.flag.value, urma_sys::URMA_JFS_WR_COMPLETE_ENABLE);
            assert_eq!(wr.tjetty, 0x61);
            assert_eq!(wr.user_ctx, 77);
            assert_eq!(wr.rw.src.sge.len(), 1);
            assert_eq!((wr.rw.src.sge[0].addr, wr.rw.src.sge[0].tseg), (0x7000_0000, 0x62));
            assert_eq!((wr.rw.dst.sge[0].addr, wr.rw.dst.sge[0].tseg), (0x4100, 0x55));
            assert_eq!((wr.rw.src.sge[0].len, wr.rw.dst.sge[0].len), (64, 64));
        }
        _ => panic!("post expected"),
    }
    post = driver.advance_read(post, ReadReply::Status(URMA_SUCCESS));
    assert!(matches!(post.step, ReadStep::Posted));
    assert!(driver.read_call(&post).is_none());

    let again = driver.post_read(op(0x4200, wire(), 1));
    assert!(matches!(
        again.step,
        ReadStep::PostSend { remote_tseg: 0x62, local_tseg: 0x55, .. }
    ));
}

#[test]
fn new_peers_take_jetties_in_turn() {
    let mut driver = driver(2);
    let mut picked = Vec::new();
    for peer in 0..4 {
        match driver.post_read(op(0x4000, wire(), peer)).step {
            ReadStep::ImportJetty { jetty } => picked.push(jetty),
            _ => panic!("jetty import expected"),
        }
    }
    assert_ne!(picked[0], picked[1]);
    assert_eq!(picked[0], picked[2]);
    assert_eq!(picked[1], picked[3]);
}

#[test]
fn read_failures_are_named() {
    let mut driver = driver(1);
    let post = driver.post_read(op(0x4100, wire(), 1));
    let post = driver.advance_read(post, ReadReply::Object(0));
    assert_eq!(failed(&post), "urma_import_jetty failed for jetty 9");

    let post = driver.post_read(op(0x4100, wire(), 1));
    let post = driver.advance_read(post, ReadReply::Object(0x61));
    let post = driver.advance_read(post, ReadReply::Status(URMA_FAIL));
    assert_eq!(failed(&post), "urma_bind_jetty failed with urma status 4096");

    let post = driver.post_read(op(0x4100, vec![1, 2, 3], 1));
    let post = driver.advance_read(post, ReadReply::Object(0x61));
    let post = driver.advance_read(post, ReadReply::Status(URMA_EEXIST));
    assert_eq!(failed(&post), "invalid remote segment handle (3 bytes)");

    let post = driver.post_read(op(0x4100, wire(), 1));
    let post = driver.advance_read(post, ReadReply::Object(0));
    assert_eq!(failed(&post), "urma_import_seg failed");

    let post = driver.post_read(op(0x4100, wire(), 1));
    let post = driver.advance_read(post, ReadReply::Object(0x62));
    assert_eq!(failed(&post), "local address 0x4100 not registered");

    driver.register_region(0x4000, 4096, Some((0x55, urma_seg_t::default()))).expect("register");
    let post = driver.post_read(op(0x4100, wire(), 1));
    let post = driver.advance_read(post, ReadReply::Status(11));
    assert_eq!(failed(&post), "urma_post_jetty_send_wr failed with urma status 11");
}

#[test]
fn polled_records_become_completions() {
    let mut records = [urma_cr_t::default(); 3];
    records[0].user_ctx = 5;
    records[1].user_ctx = 6;
    records[1].status = 12;
    let mut out = Vec::new();
    assert_eq!(LibUrmaDriver::poll_completions(2, &records, &mut out), 2);
    assert_eq!((out[0].user_ctx, out[0].status), (5, 0));
    assert_eq!((out[1].user_ctx, out[1].status), (6, 12));
    assert_eq!(LibUrmaDriver::poll_completions(0, &records, &mut out), 0);
    assert_eq!(LibUrmaDriver::poll_completions(-1, &records, &mut out), 0);
    assert_eq!(out.len(), 2);
    assert_eq!(LibUrmaDriver::poll_request(5), 5);
    assert_eq!(LibUrmaDriver::poll_request(500), 64);
}

#[test]
fn teardown_releases_everything_once() {
    let mut driver = driver(2);
    driver.register_region(0x4000, 4096, Some((0x55, urma_seg_t::default()))).expect("register");
    let post = driver.post_read(op(0x4100, wire(), 1));
    let post = driver.advance_read(post, ReadReply::Object(0x61));
    let post = driver.advance_read(post, ReadReply::Status(URMA_SUCCESS));
    let _post = driver.advance_read(post, ReadReply::Object(0x62));

    let calls = driver.shutdown();
    assert_eq!(calls.len(), 9);
    assert!(matches!(calls[0], TeardownCall::UnregisterSeg { tseg: 0x55 }));
    assert!(matches!(calls[1], TeardownCall::UnimportSeg { tseg: 0x62 }));
    assert!(matches!(calls[2], TeardownCall::UnbindJetty { .. }));
    assert!(matches!(calls[3], TeardownCall::UnimportJetty { tjetty: 0x61 }));
    assert!(matches!(calls[4], TeardownCall::DeleteJetty { .. }));
    assert!(matches!(calls[5], TeardownCall::DeleteJetty { .. }));
    assert!(matches!(calls[6], TeardownCall::DeleteJfc { .. }));
    assert!(matches!(calls[7], TeardownCall::DeleteContext { .. }));
    assert!(matches!(calls[8], TeardownCall::Uninit));
    assert!(driver.shutdown().is_empty());

    let post = driver.post_read(op(0x4100, wire(), 1));
    assert_eq!(failed(&post), "urma driver is shut down");
    assert_eq!(
        driver.register_call(0x4000, 1, RegionAccess::LocalOnly).err(),
        Some("urma driver is shut down".to_string())
    );
}
