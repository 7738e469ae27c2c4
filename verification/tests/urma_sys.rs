use agentenv::urma_sys::{
    eid_from_hex, eid_to_hex, urma_cr_t, urma_eid_t, urma_jfs_cfg_t, urma_jfs_wr_t, urma_seg_attr_t,
    urma_seg_cfg_t, urma_seg_t, URMA_CR_SUCCESS, URMA_SEG_WIRE_SIZE,
};

#[test]
fn seg_wire_round_trip_preserves_fields() {
    let mut seg = urma_seg_t::default();
    seg.ubva.va = 0x1234_5678_9abc_def0;
    seg.ubva.uasid = 7;
    seg.len = 1 << 30;
    seg.token_id = 0xACFE;

    let wire = seg.to_wire();
    assert_eq!(wire.len(), URMA_SEG_WIRE_SIZE);
    let parsed = urma_seg_t::from_wire(&wire).expect("wire parses");
    assert_eq!(parsed.base_va(), 0x1234_5678_9abc_def0);
    assert_eq!(parsed.seg_len(), 1 << 30);
    assert_eq!(parsed.ubva.uasid, 7);
    assert_eq!(parsed.token_id, 0xACFE);
}

#[test]
fn seg_wire_rejects_wrong_length() {
    assert!(urma_seg_t::from_wire(&[0u8; 4]).is_none());
}

#[test]
fn seg_wire_rejects_neighbouring_lengths() {
    assert!(urma_seg_t::from_wire(&[0u8; 47]).is_none());
    assert!(urma_seg_t::from_wire(&[0u8; 49]).is_none());
    assert!(urma_seg_t::from_wire(&[]).is_none());
    assert!(urma_seg_t::from_wire(&[0u8; 48]).is_some());
}

#[test]
fn seg_wire_has_documented_layout() {
    let mut seg = urma_seg_t::default();
    for i in 0..16 {
        seg.ubva.eid[i] = i as u8 + 1;
    }
    seg.ubva.uasid = 0x2423_2221;
    seg.ubva.va = 0x3837_3635_3433_3231;
    seg.len = 0x4847_4645_4443_4241;
    seg.attr = urma_seg_attr_t { value: 0x5453_5251 };
    seg.token_id = 0x6463_6261;
    let wire = seg.to_wire();
    assert_eq!(&wire[0..16], &[1, 2, 3, 4, 5, 6, 7, 8, 9, 10, 11, 12, 13, 14, 15, 16]);
    assert_eq!(&wire[16..20], &[0x21, 0x22, 0x23, 0x24]);
    assert_eq!(&wire[20..28], &[0x31, 0x32, 0x33, 0x34, 0x35, 0x36, 0x37, 0x38]);
    assert_eq!(&wire[28..32], &[0, 0, 0, 0]);
    assert_eq!(&wire[32..40], &[0x41, 0x42, 0x43, 0x44, 0x45, 0x46, 0x47, 0x48]);
    assert_eq!(&wire[40..44], &[0x51, 0x52, 0x53, 0x54]);
    assert_eq!(&wire[44..48], &[0x61, 0x62, 0x63, 0x64]);
    assert_eq!(urma_seg_t::from_wire(&wire).expect("parses").to_wire(), wire);
}

#[test]
fn eid_hex_round_trip() {
    let raw = [
        0x01, 0x02, 0x03, 0x04, 0x05, 0x06, 0x07, 0x08, 0x09, 0x0a, 0x0b, 0x0c, 0x0d, 0x0e, 0x0f,
        0x10,
    ];
    let hex = eid_to_hex(&raw);
    assert_eq!(hex.len(), 32);
    assert_eq!(eid_from_hex(&hex), Some(raw));
    assert_eq!(eid_from_hex("zz"), None);
}

#[test]
fn eid_hex_is_lowercase_and_accepts_either_case() {
    let raw = [
        0x00, 0x01, 0x02, 0x03, 0x04, 0x05, 0x06, 0x07, 0x08, 0x09, 0xab, 0xcd, 0xef, 0xff, 0x10,
        0xa0,
    ];
    assert_eq!(eid_to_hex(&raw), "00010203040506070809abcdefff10a0");
    assert_eq!(eid_from_hex("00010203040506070809ABCDEFFF10A0"), Some(raw));
    assert_eq!(eid_from_hex("00010203040506070809abcdefff10ag"), None);
    assert_eq!(eid_from_hex("00010203040506070809abcdefff10a"), None);
    // Thirty-two bytes, but not all of them digits.
    assert_eq!(eid_from_hex("0001020304050607080\u{e9}abcdefff10a0"), None);
}

#[test]
fn eid_debug_form_names_the_type() {
    let eid = urma_eid_t { raw: [0x0f; 16] };
    assert_eq!(eid.debug_text(), "urma_eid_t(0f0f0f0f0f0f0f0f0f0f0f0f0f0f0f0f)");
}

#[test]
fn wire_format_example_values() {
    let mut seg = urma_seg_t::default();
    seg.ubva.va = 0x0000_7f4a_1000_0000;
    seg.len = 64 * 1024;
    let wire = seg.to_wire();
    let parsed = urma_seg_t::from_wire(&wire).expect("valid wire form");
    assert_eq!(parsed.base_va(), 0x0000_7f4a_1000_0000);
    assert_eq!(parsed.seg_len(), 64 * 1024);
    assert!(urma_seg_t::from_wire(&wire[..wire.len() - 1]).is_none());
}

#[test]
fn records_start_out_blank() {
    assert_eq!(urma_cr_t::default().status, URMA_CR_SUCCESS);
    assert_eq!(urma_seg_cfg_t::default().token_id, 0);
    assert_eq!(urma_jfs_cfg_t::default().jfc, 0);
    let wr = urma_jfs_wr_t::default();
    assert_eq!(wr.opcode, 0);
    assert!(wr.rw.src.sge.is_empty());
    assert!(wr.rw.dst.sge.is_empty());
}
