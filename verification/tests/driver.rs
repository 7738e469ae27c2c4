use agentenv::driver::{
    eid_from_hex32, hex32, LoopbackUrmaDriver, LoopbackWire, RegionAccess, UrmaReadOp,
};

fn read(remote_addr: u64, len: u32, user_ctx: u64) -> UrmaReadOp {
    UrmaReadOp {
        remote_wire: Vec::new(),
        remote_addr,
        len,
        local_addr: 0x9000,
        peer_eid: [0; 16],
        peer_jetty_id: 1,
        user_ctx,
    }
}

#[test]
fn loopback_read_copies_registered_range() {
    let mut driver = LoopbackUrmaDriver::new("test");
    let source = [1u8, 2, 3, 4, 5, 6, 7, 8];
    let mut dest = [0u8; 8];
    let region = driver.register_region(
        source.as_ptr() as usize,
        source.len() as u64,
        RegionAccess::RemoteRead,
    );

    driver
        .post_read(&read(region.base_va + 2, 4, 42), &Ok(region), &source, &mut dest)
        .expect("post read");

    let mut completions = Vec::new();
    assert_eq!(driver.poll_completions(1, &mut completions), 1);
    assert_eq!(completions[0].user_ctx, 42);
    assert_eq!(completions[0].status, 0);
    assert_eq!(&dest[..4], &source[2..6]);
}

#[test]
fn loopback_read_rejects_out_of_range() {
    let mut driver = LoopbackUrmaDriver::new("test");
    let source = [0u8; 4];
    let mut dest = [0u8; 4];
    let region = driver.register_region(
        source.as_ptr() as usize,
        source.len() as u64,
        RegionAccess::RemoteRead,
    );

    let err = driver
        .post_read(&read(region.base_va + 2, 8, 1), &Ok(region), &source, &mut dest)
        .expect_err("read must be rejected");
    assert!(err.contains("outside segment"));
    assert_eq!(driver.poll_completions(8, &mut Vec::new()), 0);
}

#[test]
fn loopback_polls_report_at_most_the_limit() {
    let mut driver = LoopbackUrmaDriver::new("test");
    let segment = Ok(LoopbackWire { base_va: 0, len: 4 });
    let mut dest = [0u8; 4];
    for user_ctx in [5, 6, 7] {
        driver
            .post_read(&read(0, 1, user_ctx), &segment, &[1, 2, 3, 4], &mut dest)
            .expect("post");
    }
    let mut out = Vec::new();
    assert_eq!(driver.poll_completions(0, &mut out), 0);
    assert_eq!(driver.poll_completions(2, &mut out), 2);
    assert_eq!(out.iter().map(|c| c.user_ctx).collect::<Vec<_>>(), vec![5, 6]);
    assert_eq!(driver.poll_completions(2, &mut out), 1);
    assert_eq!(out.iter().map(|c| c.user_ctx).collect::<Vec<_>>(), vec![5, 6, 7]);
}

#[test]
fn local_handle_eids_are_derived_from_name() {
    let a = LoopbackUrmaDriver::new("a").local_handle();
    let b = LoopbackUrmaDriver::new("b").local_handle();
    assert_ne!(a.eid, b.eid);
    assert!(a.device.contains("loopback-a"));
    assert_eq!(a.jetty_ids, vec![1, 2]);
}

#[test]
fn loopback_eid_spells_the_name() {
    let handle = LoopbackUrmaDriver::new("ab").local_handle();
    assert_eq!(handle.eid, "6c626162000000000000000000000000");
    // Only the first fourteen bytes of the name count.
    let long = LoopbackUrmaDriver::new("abcdefghijklmnXYZ").local_handle();
    assert_eq!(long.eid, LoopbackUrmaDriver::new("abcdefghijklmn").local_handle().eid);
    assert_eq!(long.device, "loopback-abcdefghijklmnXYZ");
    assert_eq!(
        eid_from_hex32(&handle.eid),
        Some([0x6c, 0x62, 0x61, 0x62, 0, 0, 0, 0, 0, 0, 0, 0, 0, 0, 0, 0])
    );
}

#[test]
fn loopback_refusals_are_exact() {
    let segment = Ok(LoopbackWire { base_va: 0x1000, len: 0x10 });
    assert_eq!(
        LoopbackUrmaDriver::validate_read(&read(0x1008, 9, 1), &segment),
        Err("loopback read [0x1008, 0x1011) outside segment [0x1000, 0x1010)".to_string())
    );
    assert_eq!(
        LoopbackUrmaDriver::validate_read(&read(0xfff, 1, 1), &segment),
        Err("loopback read [0xfff, 0x1000) outside segment [0x1000, 0x1010)".to_string())
    );
    assert_eq!(
        LoopbackUrmaDriver::validate_read(&read(u64::MAX, 1, 1), &segment),
        Err("loopback read end overflow".to_string())
    );
    assert_eq!(
        LoopbackUrmaDriver::validate_read(&read(0x1000, 1, 1), &Err("bad json".to_string())),
        Err("invalid loopback wire handle: bad json".to_string())
    );
    assert_eq!(LoopbackUrmaDriver::validate_read(&read(0x1000, 16, 1), &segment), Ok(()));
    assert_eq!(LoopbackUrmaDriver::validate_read(&read(0x1010, 0, 1), &segment), Ok(()));
}

#[test]
fn refused_loopback_read_touches_nothing() {
    let mut driver = LoopbackUrmaDriver::new("test");
    let segment = Ok(LoopbackWire { base_va: 0x1000, len: 4 });
    let mut dest = [9u8; 4];
    assert!(driver.post_read(&read(0x0fff, 2, 1), &segment, &[1, 2, 3, 4], &mut dest).is_err());
    assert_eq!(dest, [9u8; 4]);
    assert_eq!(driver.poll_completions(8, &mut Vec::new()), 0);
}

#[test]
fn loopback_completions_queue_in_order_until_shutdown() {
    let mut driver = LoopbackUrmaDriver::new("test");
    let segment = Ok(LoopbackWire { base_va: 0, len: 4 });
    let mut dest = [0u8; 4];
    for user_ctx in [5, 6, 7] {
        driver
            .post_read(&read(0, 1, user_ctx), &segment, &[1, 2, 3, 4], &mut dest)
            .expect("post");
    }
    let mut out = Vec::new();
    assert_eq!(driver.poll_completions(8, &mut out), 3);
    assert_eq!(out.iter().map(|c| c.user_ctx).collect::<Vec<_>>(), vec![5, 6, 7]);
    assert_eq!(driver.poll_completions(8, &mut out), 0);
    driver.post_read(&read(0, 1, 8), &segment, &[1, 2, 3, 4], &mut dest).expect("post");
    driver.shutdown();
    driver.shutdown();
    assert_eq!(driver.poll_completions(8, &mut out), 0);
    assert_eq!(out.len(), 3);
}

#[test]
fn hex32_matches_the_shared_form() {
    let raw = [0xde, 0xad, 0xbe, 0xef, 0, 1, 2, 3, 4, 5, 6, 7, 8, 9, 10, 11];
    assert_eq!(hex32(&raw), "deadbeef000102030405060708090a0b");
    assert_eq!(eid_from_hex32("deadbeef000102030405060708090a0b"), Some(raw));
    assert_eq!(eid_from_hex32("deadbeef"), None);
}

#[test]
fn unregistering_a_region_keeps_others() {
    let mut driver = LoopbackUrmaDriver::new("test");
    driver.register_region(0x1000, 16, RegionAccess::RemoteRead);
    driver.register_region(0x2000, 16, RegionAccess::LocalOnly);
    driver.unregister_region(0x1000);
    driver.unregister_region(0x3000);
    let again = driver.register_region(0x1000, 8, RegionAccess::RemoteRead);
    assert_eq!((again.base_va, again.len), (0x1000, 8));
}
