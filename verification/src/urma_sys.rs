//! URMA (openEuler UMDK `liburma`) constants, configuration records and the
//! byte forms that nodes exchange.
//!
//! Records mirror the C structures field by field; where C has a pointer, a
//! record holds the object's address as a `u64`, with `0` for a null pointer.
//! Objects behind addresses belong to the library and are only ever passed
//! back to it.
#![allow(non_camel_case_types)]

use crate::endian::{push_u32_le, push_u64_le, read_u32_le, read_u64_le};
use crate::text::hex_digit;
use vstd::prelude::*;

verus! {

broadcast use vstd::array::group_array_axioms;

pub const URMA_EID_SIZE: usize = 16;

pub const URMA_MAX_NAME: usize = 64;

pub const URMA_MAX_PATH: usize = 4096;

// Opcodes, flags and constants (urma_opcode.h).

pub const URMA_TOKEN_NONE: u32 = 0;

pub const URMA_ACCESS_LOCAL_ONLY: u32 = 0x1;

pub const URMA_ACCESS_READ: u32 = 0x2;

pub const URMA_ACCESS_WRITE: u32 = 0x4;

pub const URMA_ACCESS_ATOMIC: u32 = 0x8;

pub const URMA_NON_CACHEABLE: u32 = 0;

pub const URMA_CACHEABLE: u32 = 1;

pub const URMA_SEG_NOMAP: u32 = 0;

pub const URMA_SEG_MAPPED: u32 = 1;

/// `urma_transport_mode_t`
pub const URMA_TM_RM: u32 = 0x1;

pub const URMA_TM_RC: u32 = 0x2;

pub const URMA_TM_UM: u32 = 0x4;

/// `urma_transport_type_t`
pub const URMA_TRANSPORT_INVALID: i32 = -1;

pub const URMA_TRANSPORT_UB: i32 = 0;

pub const URMA_TRANSPORT_IB: i32 = 1;

pub const URMA_TRANSPORT_IP: i32 = 2;

pub const URMA_TRANSPORT_SOFTUB: i32 = 3;

pub const URMA_TRANSPORT_HNS_UB: i32 = 5;

/// `urma_tp_type_t`
pub const URMA_RTP: u32 = 0;

pub const URMA_CTP: u32 = 1;

pub const URMA_UTP: u32 = 2;

/// `urma_target_type_t`
pub const URMA_JFR: u32 = 0;

pub const URMA_JETTY: u32 = 1;

pub const URMA_JETTY_GROUP: u32 = 2;

/// `urma_jetty_grp_policy_t`
pub const URMA_JETTY_GRP_POLICY_RR: u32 = 0;

/// `urma_place_order_t` / `urma_jfs_wr_flag_t.bs`
pub const URMA_JFS_WR_COMPLETE_ENABLE: u32 = 0x20;

/// `urma_opcode_t`
pub const URMA_OPC_WRITE: u32 = 0x00;

pub const URMA_OPC_READ: u32 = 0x10;

pub const URMA_OPC_SEND: u32 = 0x40;

/// `urma_status_t`
pub const URMA_SUCCESS: i32 = 0;

pub const URMA_EAGAIN: i32 = 11;

pub const URMA_ENOMEM: i32 = 12;

pub const URMA_ETIMEOUT: i32 = 110;

pub const URMA_EINVAL: i32 = 22;

pub const URMA_EEXIST: i32 = 17;

pub const URMA_EINPROGRESS: i32 = 115;

pub const URMA_FAIL: i32 = 0x1000;

/// `urma_cr_status_t`
pub const URMA_CR_SUCCESS: i32 = 0;

pub const URMA_CR_WR_FLUSH_ERR: i32 = 12;

/// `urma_jetty_attr_mask_t`
pub const JETTY_RX_THRESHOLD: u32 = 0x1;

pub const JETTY_STATE: u32 = 0x2;

/// `urma_jetty_state_t`
pub const URMA_JETTY_STATE_RESET: u32 = 0;

pub const URMA_JETTY_STATE_READY: u32 = 1;

pub const URMA_TYPICAL_RNR_RETRY: u8 = 7;

pub const URMA_TYPICAL_ERR_TIMEOUT: u8 = 17;

/// Size of the serialized segment wire form shared between nodes.
pub const URMA_SEG_WIRE_SIZE: usize = 48;

// Types (urma_types.h).

/// C: `union urma_eid`, over its raw bytes.
#[derive(Clone, Copy, PartialEq, Eq)]
pub struct urma_eid_t {
    pub raw: [u8; URMA_EID_SIZE],
}

impl urma_eid_t {
    /// Every field at its initial value.
    pub open spec fn is_initial(self) -> bool {
        &&& self.raw@ == Seq::new(URMA_EID_SIZE as nat, |i: int| 0u8)
    }
}

impl Default for urma_eid_t {
    fn default() -> (value: Self)
        ensures
            value.is_initial(),
    {
        let raw: [u8; URMA_EID_SIZE] = [0u8; URMA_EID_SIZE];
        assert(raw@ =~= Seq::new(URMA_EID_SIZE as nat, |i: int| 0u8));
        urma_eid_t {
            raw,
        }
    }
}

/// C: `urma_init_attr_t`.
#[derive(Clone, Copy)]
pub struct urma_init_attr_t {
    pub token: u64,
    pub uasid: u32,
}

impl urma_init_attr_t {
    /// Every field at its initial value.
    pub open spec fn is_initial(self) -> bool {
        &&& self.token == 0
        &&& self.uasid == 0
    }
}

impl Default for urma_init_attr_t {
    fn default() -> (value: Self)
        ensures
            value.is_initial(),
    {
        urma_init_attr_t {
            token: 0,
            uasid: 0,
        }
    }
}

/// C: `union urma_reg_seg_flag_t`, accessed through the `value` word.
#[derive(Clone, Copy)]
pub struct urma_reg_seg_flag_t {
    pub value: u32,
}

impl urma_reg_seg_flag_t {
    /// Every field at its initial value.
    pub open spec fn is_initial(self) -> bool {
        &&& self.value == 0
    }
}

impl Default for urma_reg_seg_flag_t {
    fn default() -> (value: Self)
        ensures
            value.is_initial(),
    {
        urma_reg_seg_flag_t {
            value: 0,
        }
    }
}

/// C: `urma_token_t`.
#[derive(Clone, Copy)]
pub struct urma_token_t {
    pub token: u32,
}

impl urma_token_t {
    /// Every field at its initial value.
    pub open spec fn is_initial(self) -> bool {
        &&& self.token == 0
    }
}

impl Default for urma_token_t {
    fn default() -> (value: Self)
        ensures
            value.is_initial(),
    {
        urma_token_t {
            token: 0,
        }
    }
}

/// C: `urma_ubva_t`, packed: 16 bytes of EID, then `uasid`, then `va`.
#[derive(Clone, Copy)]
pub struct urma_ubva_t {
    pub eid: [u8; URMA_EID_SIZE],
    pub uasid: u32,
    pub va: u64,
}

impl urma_ubva_t {
    /// Every field at its initial value.
    pub open spec fn is_initial(self) -> bool {
        &&& self.eid@ == Seq::new(URMA_EID_SIZE as nat, |i: int| 0u8)
        &&& self.uasid == 0
        &&& self.va == 0
    }
}

impl Default for urma_ubva_t {
    fn default() -> (value: Self)
        ensures
            value.is_initial(),
    {
        let eid: [u8; URMA_EID_SIZE] = [0u8; URMA_EID_SIZE];
        assert(eid@ =~= Seq::new(URMA_EID_SIZE as nat, |i: int| 0u8));
        urma_ubva_t {
            eid,
            uasid: 0,
            va: 0,
        }
    }
}

/// C: `union urma_seg_attr_t`.
#[derive(Clone, Copy)]
pub struct urma_seg_attr_t {
    pub value: u32,
}

impl urma_seg_attr_t {
    /// Every field at its initial value.
    pub open spec fn is_initial(self) -> bool {
        &&& self.value == 0
    }
}

impl Default for urma_seg_attr_t {
    fn default() -> (value: Self)
        ensures
            value.is_initial(),
    {
        urma_seg_attr_t {
            value: 0,
        }
    }
}

/// A registered memory segment as peers see it. This is exactly what gets
/// serialized into artifact descriptors.
#[derive(Clone, Copy)]
pub struct urma_seg_t {
    pub ubva: urma_ubva_t,
    pub len: u64,
    pub attr: urma_seg_attr_t,
    pub token_id: u32,
}

impl urma_seg_t {
    /// Every field at its initial value.
    pub open spec fn is_initial(self) -> bool {
        &&& self.ubva.is_initial()
        &&& self.len == 0
        &&& self.attr.is_initial()
        &&& self.token_id == 0
    }
}

impl Default for urma_seg_t {
    fn default() -> (value: Self)
        ensures
            value.is_initial(),
    {
        urma_seg_t {
            ubva: urma_ubva_t::default(),
            len: 0,
            attr: urma_seg_attr_t::default(),
            token_id: 0,
        }
    }
}

/// C: `union urma_import_seg_flag_t`.
#[derive(Clone, Copy)]
pub struct urma_import_seg_flag_t {
    pub value: u32,
}

impl urma_import_seg_flag_t {
    /// Every field at its initial value.
    pub open spec fn is_initial(self) -> bool {
        &&& self.value == 0
    }
}

impl Default for urma_import_seg_flag_t {
    fn default() -> (value: Self)
        ensures
            value.is_initial(),
    {
        urma_import_seg_flag_t {
            value: 0,
        }
    }
}

/// C: `urma_seg_cfg_t`, the request to register a segment.
#[derive(Clone, Copy)]
pub struct urma_seg_cfg_t {
    pub va: u64,
    pub len: u64,
    pub token_id: u64,
    pub token_value: urma_token_t,
    pub flag: urma_reg_seg_flag_t,
    pub user_ctx: u64,
    pub iova: u64,
}

impl urma_seg_cfg_t {
    /// Every field at its initial value.
    pub open spec fn is_initial(self) -> bool {
        &&& self.va == 0
        &&& self.len == 0
        &&& self.token_id == 0
        &&& self.token_value.is_initial()
        &&& self.flag.is_initial()
        &&& self.user_ctx == 0
        &&& self.iova == 0
    }
}

impl Default for urma_seg_cfg_t {
    fn default() -> (value: Self)
        ensures
            value.is_initial(),
    {
        urma_seg_cfg_t {
            va: 0,
            len: 0,
            token_id: 0,
            token_value: urma_token_t::default(),
            flag: urma_reg_seg_flag_t::default(),
            user_ctx: 0,
            iova: 0,
        }
    }
}

/// C: `urma_eid_info_t`.
#[derive(Clone, Copy)]
pub struct urma_eid_info_t {
    pub eid: urma_eid_t,
    pub eid_index: u32,
}

impl urma_eid_info_t {
    /// Every field at its initial value.
    pub open spec fn is_initial(self) -> bool {
        &&& self.eid.is_initial()
        &&& self.eid_index == 0
    }
}

impl Default for urma_eid_info_t {
    fn default() -> (value: Self)
        ensures
            value.is_initial(),
    {
        urma_eid_info_t {
            eid: urma_eid_t::default(),
            eid_index: 0,
        }
    }
}

/// C: `urma_jfc_cfg_t`, the request to create a completion queue.
#[derive(Clone, Copy)]
pub struct urma_jfc_cfg_t {
    pub depth: u32,
    pub flag: u32,
    pub ceqn: u32,
    pub jfce: u64,
    pub user_ctx: u64,
}

impl urma_jfc_cfg_t {
    /// Every field at its initial value.
    pub open spec fn is_initial(self) -> bool {
        &&& self.depth == 0
        &&& self.flag == 0
        &&& self.ceqn == 0
        &&& self.jfce == 0
        &&& self.user_ctx == 0
    }
}

impl Default for urma_jfc_cfg_t {
    fn default() -> (value: Self)
        ensures
            value.is_initial(),
    {
        urma_jfc_cfg_t {
            depth: 0,
            flag: 0,
            ceqn: 0,
            jfce: 0,
            user_ctx: 0,
        }
    }
}

/// C: `union urma_jfs_flag_t`.
#[derive(Clone, Copy)]
pub struct urma_jfs_flag_t {
    pub value: u32,
}

impl urma_jfs_flag_t {
    /// Every field at its initial value.
    pub open spec fn is_initial(self) -> bool {
        &&& self.value == 0
    }
}

impl Default for urma_jfs_flag_t {
    fn default() -> (value: Self)
        ensures
            value.is_initial(),
    {
        urma_jfs_flag_t {
            value: 0,
        }
    }
}

/// C: `urma_jfs_cfg_t`, the send half of a jetty.
#[derive(Clone, Copy)]
pub struct urma_jfs_cfg_t {
    pub depth: u32,
    pub flag: urma_jfs_flag_t,
    pub trans_mode: u32,
    pub priority: u8,
    pub max_sge: u8,
    pub max_rsge: u8,
    pub max_inline_data: u32,
    pub rnr_retry: u8,
    pub err_timeout: u8,
    pub jfc: u64,
    pub user_ctx: u64,
}

impl urma_jfs_cfg_t {
    /// Every field at its initial value.
    pub open spec fn is_initial(self) -> bool {
        &&& self.depth == 0
        &&& self.flag.is_initial()
        &&& self.trans_mode == 0
        &&& self.priority == 0
        &&& self.max_sge == 0
        &&& self.max_rsge == 0
        &&& self.max_inline_data == 0
        &&& self.rnr_retry == 0
        &&& self.err_timeout == 0
        &&& self.jfc == 0
        &&& self.user_ctx == 0
    }
}

impl Default for urma_jfs_cfg_t {
    fn default() -> (value: Self)
        ensures
            value.is_initial(),
    {
        urma_jfs_cfg_t {
            depth: 0,
            flag: urma_jfs_flag_t::default(),
            trans_mode: 0,
            priority: 0,
            max_sge: 0,
            max_rsge: 0,
            max_inline_data: 0,
            rnr_retry: 0,
            err_timeout: 0,
            jfc: 0,
            user_ctx: 0,
        }
    }
}

/// C: the receive half of `urma_jetty_cfg_t`, in its `shared` form.
#[derive(Clone, Copy)]
pub struct urma_jetty_recv_cfg_t {
    pub jfr: u64,
    pub jfc: u64,
}

impl urma_jetty_recv_cfg_t {
    /// Every field at its initial value.
    pub open spec fn is_initial(self) -> bool {
        &&& self.jfr == 0
        &&& self.jfc == 0
    }
}

impl Default for urma_jetty_recv_cfg_t {
    fn default() -> (value: Self)
        ensures
            value.is_initial(),
    {
        urma_jetty_recv_cfg_t {
            jfr: 0,
            jfc: 0,
        }
    }
}

/// C: `urma_jetty_cfg_t`, the request to create a jetty.
#[derive(Clone, Copy)]
pub struct urma_jetty_cfg_t {
    pub id: u32,
    pub flag: u32,
    pub jfs_cfg: urma_jfs_cfg_t,
    pub recv: urma_jetty_recv_cfg_t,
    pub jetty_grp: u64,
    pub user_ctx: u64,
}

impl urma_jetty_cfg_t {
    /// Every field at its initial value.
    pub open spec fn is_initial(self) -> bool {
        &&& self.id == 0
        &&& self.flag == 0
        &&& self.jfs_cfg.is_initial()
        &&& self.recv.is_initial()
        &&& self.jetty_grp == 0
        &&& self.user_ctx == 0
    }
}

impl Default for urma_jetty_cfg_t {
    fn default() -> (value: Self)
        ensures
            value.is_initial(),
    {
        urma_jetty_cfg_t {
            id: 0,
            flag: 0,
            jfs_cfg: urma_jfs_cfg_t::default(),
            recv: urma_jetty_recv_cfg_t::default(),
            jetty_grp: 0,
            user_ctx: 0,
        }
    }
}

/// C: `urma_jetty_id_t`.
#[derive(Clone, Copy)]
pub struct urma_jetty_id_t {
    pub eid: urma_eid_t,
    pub uasid: u32,
    pub id: u32,
}

impl urma_jetty_id_t {
    /// Every field at its initial value.
    pub open spec fn is_initial(self) -> bool {
        &&& self.eid.is_initial()
        &&& self.uasid == 0
        &&& self.id == 0
    }
}

impl Default for urma_jetty_id_t {
    fn default() -> (value: Self)
        ensures
            value.is_initial(),
    {
        urma_jetty_id_t {
            eid: urma_eid_t::default(),
            uasid: 0,
            id: 0,
        }
    }
}

/// C: `union urma_import_jetty_flag_t`.
#[derive(Clone, Copy)]
pub struct urma_import_jetty_flag_t {
    pub value: u32,
}

impl urma_import_jetty_flag_t {
    /// Every field at its initial value.
    pub open spec fn is_initial(self) -> bool {
        &&& self.value == 0
    }
}

impl Default for urma_import_jetty_flag_t {
    fn default() -> (value: Self)
        ensures
            value.is_initial(),
    {
        urma_import_jetty_flag_t {
            value: 0,
        }
    }
}

/// C: `urma_rjetty_t`, the request to import a peer jetty.
#[derive(Clone, Copy)]
pub struct urma_rjetty_t {
    pub jetty_id: urma_jetty_id_t,
    pub trans_mode: u32,
    pub policy: u32,
    pub type_: u32,
    pub flag: urma_import_jetty_flag_t,
    pub tp_type: u32,
}

impl urma_rjetty_t {
    /// Every field at its initial value.
    pub open spec fn is_initial(self) -> bool {
        &&& self.jetty_id.is_initial()
        &&& self.trans_mode == 0
        &&& self.policy == 0
        &&& self.type_ == 0
        &&& self.flag.is_initial()
        &&& self.tp_type == 0
    }
}

impl Default for urma_rjetty_t {
    fn default() -> (value: Self)
        ensures
            value.is_initial(),
    {
        urma_rjetty_t {
            jetty_id: urma_jetty_id_t::default(),
            trans_mode: 0,
            policy: 0,
            type_: 0,
            flag: urma_import_jetty_flag_t::default(),
            tp_type: 0,
        }
    }
}

/// C: `urma_jetty_attr_t`.
#[derive(Clone, Copy)]
pub struct urma_jetty_attr_t {
    pub mask: u32,
    pub rx_threshold: u32,
    pub state: u32,
}

impl urma_jetty_attr_t {
    /// Every field at its initial value.
    pub open spec fn is_initial(self) -> bool {
        &&& self.mask == 0
        &&& self.rx_threshold == 0
        &&& self.state == 0
    }
}

impl Default for urma_jetty_attr_t {
    fn default() -> (value: Self)
        ensures
            value.is_initial(),
    {
        urma_jetty_attr_t {
            mask: 0,
            rx_threshold: 0,
            state: 0,
        }
    }
}

/// C: `urma_sge_t`, one scatter/gather element.
#[derive(Clone, Copy)]
pub struct urma_sge_t {
    pub addr: u64,
    pub len: u32,
    pub tseg: u64,
    pub user_tseg: u64,
}

impl urma_sge_t {
    /// Every field at its initial value.
    pub open spec fn is_initial(self) -> bool {
        &&& self.addr == 0
        &&& self.len == 0
        &&& self.tseg == 0
        &&& self.user_tseg == 0
    }
}

impl Default for urma_sge_t {
    fn default() -> (value: Self)
        ensures
            value.is_initial(),
    {
        urma_sge_t {
            addr: 0,
            len: 0,
            tseg: 0,
            user_tseg: 0,
        }
    }
}

/// C: `union urma_jfs_wr_flag_t`.
#[derive(Clone, Copy)]
pub struct urma_jfs_wr_flag_t {
    pub value: u32,
}

impl urma_jfs_wr_flag_t {
    /// Every field at its initial value.
    pub open spec fn is_initial(self) -> bool {
        &&& self.value == 0
    }
}

impl Default for urma_jfs_wr_flag_t {
    fn default() -> (value: Self)
        ensures
            value.is_initial(),
    {
        urma_jfs_wr_flag_t {
            value: 0,
        }
    }
}

/// C: `urma_cr_t`, one completion record.
#[derive(Clone, Copy)]
pub struct urma_cr_t {
    pub status: i32,
    pub user_ctx: u64,
    pub opcode: i32,
    pub flag: u8,
    pub completion_len: u32,
    pub local_id: u32,
    pub remote_id: urma_jetty_id_t,
    pub imm_data: u64,
    pub tpn: u32,
    pub user_data: u64,
}

impl urma_cr_t {
    /// Every field at its initial value.
    pub open spec fn is_initial(self) -> bool {
        &&& self.status == URMA_CR_SUCCESS
        &&& self.user_ctx == 0
        &&& self.opcode == 0
        &&& self.flag == 0
        &&& self.completion_len == 0
        &&& self.local_id == 0
        &&& self.remote_id.is_initial()
        &&& self.imm_data == 0
        &&& self.tpn == 0
        &&& self.user_data == 0
    }
}

impl Default for urma_cr_t {
    fn default() -> (value: Self)
        ensures
            value.is_initial(),
    {
        urma_cr_t {
            status: URMA_CR_SUCCESS,
            user_ctx: 0,
            opcode: 0,
            flag: 0,
            completion_len: 0,
            local_id: 0,
            remote_id: urma_jetty_id_t::default(),
            imm_data: 0,
            tpn: 0,
            user_data: 0,
        }
    }
}

/// C: `urma_target_seg_t`, a segment known to the library.
#[derive(Clone, Copy)]
pub struct urma_target_seg_t {
    pub seg: urma_seg_t,
    pub user_ctx: u64,
    pub mva: u64,
    pub urma_ctx: u64,
    pub token_id: u64,
    pub handle: u64,
}

/// C: `urma_sg_t`, a scatter/gather list. C carries a pointer and a count.
#[derive(Clone)]
pub struct urma_sg_t {
    pub sge: Vec<urma_sge_t>,
}

impl urma_sg_t {
    /// The list holds no element.
    pub open spec fn is_initial(self) -> bool {
        self.sge@ == Seq::<urma_sge_t>::empty()
    }
}

impl Default for urma_sg_t {
    fn default() -> (value: Self)
        ensures
            value.is_initial(),
    {
        urma_sg_t { sge: Vec::new() }
    }
}

/// C: `urma_rw_wr_t`, the read/write payload of a work request.
#[derive(Clone)]
pub struct urma_rw_wr_t {
    pub src: urma_sg_t,
    pub dst: urma_sg_t,
    pub target_hint: u8,
    pub notify_data: u64,
}

impl urma_rw_wr_t {
    /// Every field at its initial value.
    pub open spec fn is_initial(self) -> bool {
        &&& self.src.is_initial()
        &&& self.dst.is_initial()
        &&& self.target_hint == 0
        &&& self.notify_data == 0
    }
}

impl Default for urma_rw_wr_t {
    fn default() -> (value: Self)
        ensures
            value.is_initial(),
    {
        urma_rw_wr_t {
            src: urma_sg_t::default(),
            dst: urma_sg_t::default(),
            target_hint: 0,
            notify_data: 0,
        }
    }
}

/// C: `urma_jfs_wr_t`, a work request with its read/write payload.
#[derive(Clone)]
pub struct urma_jfs_wr_t {
    pub opcode: u32,
    pub flag: urma_jfs_wr_flag_t,
    pub tjetty: u64,
    pub user_ctx: u64,
    pub rw: urma_rw_wr_t,
    pub next: u64,
}

impl urma_jfs_wr_t {
    /// Every field at its initial value.
    pub open spec fn is_initial(self) -> bool {
        &&& self.opcode == 0
        &&& self.flag.is_initial()
        &&& self.tjetty == 0
        &&& self.user_ctx == 0
        &&& self.rw.is_initial()
        &&& self.next == 0
    }
}

impl Default for urma_jfs_wr_t {
    fn default() -> (value: Self)
        ensures
            value.is_initial(),
    {
        urma_jfs_wr_t {
            opcode: 0,
            flag: urma_jfs_wr_flag_t::default(),
            tjetty: 0,
            user_ctx: 0,
            rw: urma_rw_wr_t::default(),
            next: 0,
        }
    }
}

// EID text form.

/// Two lower-case hexadecimal digits per byte, high half first.
pub open spec fn hex_text(raw: Seq<u8>) -> Seq<char> {
    Seq::new(
        2 * raw.len(),
        |i: int|
            crate::text::digit_char(
                if i % 2 == 0 {
                    raw[i / 2] as int / 16
                } else {
                    raw[i / 2] as int % 16
                },
            ),
    )
}

/// The value of a hexadecimal digit given as an ASCII byte, in either case.
pub open spec fn hex_value(byte: u8) -> Option<u8> {
    if 0x30 <= byte <= 0x39 {
        Some((byte - 0x30) as u8)
    } else if 0x61 <= byte <= 0x66 {
        Some((byte - 0x61 + 10) as u8)
    } else if 0x41 <= byte <= 0x46 {
        Some((byte - 0x41 + 10) as u8)
    } else {
        None
    }
}

/// The EID that 32 hexadecimal digits spell, if the bytes are that.
pub open spec fn eid_of_hex(bytes: Seq<u8>) -> Option<Seq<u8>> {
    if bytes.len() == 32 && forall|i: int| 0 <= i < 32 ==> hex_value(#[trigger] bytes[i]) is Some {
        Some(
            Seq::new(
                16,
                |i: int| (hex_value(bytes[2 * i])->0 * 16 + hex_value(bytes[2 * i + 1])->0) as u8,
            ),
        )
    } else {
        None
    }
}

/// Format 16 raw EID bytes as 32 lowercase hex characters.
pub fn eid_to_hex(raw: &[u8; URMA_EID_SIZE]) -> (text: String)
    ensures
        text@ == hex_text(raw@),
{
    let mut out = String::new();
    let mut i: usize = 0;
    while i < URMA_EID_SIZE
        invariant
            i <= URMA_EID_SIZE,
            raw@.len() == URMA_EID_SIZE,
            out@ == hex_text(raw@).take(2 * i as int),
        decreases URMA_EID_SIZE - i,
    {
        let byte: u8 = raw[i];
        out.push(hex_digit(byte / 16));
        out.push(hex_digit(byte % 16));
        assert(hex_text(raw@)[2 * i] == crate::text::digit_char(raw@[i as int] as int / 16));
        assert(hex_text(raw@)[2 * i + 1] == crate::text::digit_char(raw@[i as int] as int % 16));
        assert(out@ =~= hex_text(raw@).take(2 * (i + 1) as int));
        i = i + 1;
    }
    assert(hex_text(raw@).take(32) =~= hex_text(raw@));
    out
}

fn hex_digit_value(byte: u8) -> (value: Option<u8>)
    ensures
        value == hex_value(byte),
        value matches Some(v) ==> v < 16,
{
    if 0x30 <= byte && byte <= 0x39 {
        Some(byte - 0x30)
    } else if 0x61 <= byte && byte <= 0x66 {
        Some(byte - 0x61 + 10)
    } else if 0x41 <= byte && byte <= 0x46 {
        Some(byte - 0x41 + 10)
    } else {
        None
    }
}

/// Parse 32 hex characters into raw EID bytes.
pub fn eid_from_hex(value: &str) -> (raw: Option<[u8; URMA_EID_SIZE]>)
    ensures
        match raw {
            Some(raw) => eid_of_hex(vstd::utf8::encode_utf8(value@)) == Some(raw@),
            None => eid_of_hex(vstd::utf8::encode_utf8(value@)) is None,
        },
{
    let bytes = value.as_bytes();
    if bytes.len() != URMA_EID_SIZE * 2 {
        return None;
    }
    let mut raw: [u8; URMA_EID_SIZE] = [0u8; URMA_EID_SIZE];
    let mut i: usize = 0;
    while i < URMA_EID_SIZE
        invariant
            i <= URMA_EID_SIZE,
            bytes@.len() == 32,
            raw@.len() == URMA_EID_SIZE,
            bytes@ == vstd::utf8::encode_utf8(value@),
            forall|j: int| 0 <= j < 2 * i ==> hex_value(#[trigger] bytes@[j]) is Some,
            forall|j: int|
                0 <= j < i ==> #[trigger] raw@[j] == (hex_value(bytes@[2 * j])->0 * 16 + hex_value(
                    bytes@[2 * j + 1],
                )->0) as u8,
        decreases URMA_EID_SIZE - i,
    {
        let high: u8 = match hex_digit_value(bytes[i * 2]) {
            Some(high) => high,
            None => {
                assert(hex_value(bytes@[2 * i]) is None);
                return None;
            },
        };
        let low: u8 = match hex_digit_value(bytes[i * 2 + 1]) {
            Some(low) => low,
            None => {
                assert(hex_value(bytes@[2 * i + 1]) is None);
                return None;
            },
        };
        raw[i] = high * 16 + low;
        i = i + 1;
    }
    assert(raw@ =~= eid_of_hex(bytes@)->0);
    Some(raw)
}

/// Hexadecimal text is ASCII: its byte form is its characters.
pub proof fn lemma_hex_text_bytes(raw: Seq<u8>)
    ensures
        vstd::utf8::is_ascii_chars(hex_text(raw)),
        vstd::utf8::encode_utf8(hex_text(raw)) =~= Seq::new(
            2 * raw.len(),
            |i: int| hex_text(raw)[i] as u8,
        ),
{
    vstd::utf8::is_ascii_chars_encode_utf8(hex_text(raw));
}

/// Formatting an EID and parsing the text gives the EID back.
pub proof fn law_eid_hex_round_trip(raw: Seq<u8>)
    requires
        raw.len() == URMA_EID_SIZE,
    ensures
        hex_text(raw).len() == 32,
        eid_of_hex(vstd::utf8::encode_utf8(hex_text(raw))) == Some(raw),
{
    lemma_hex_text_bytes(raw);
    let bytes = vstd::utf8::encode_utf8(hex_text(raw));
    assert forall|i: int| 0 <= i < 32 implies hex_value(#[trigger] bytes[i]) == Some(
        (if i % 2 == 0 {
            raw[i / 2] as int / 16
        } else {
            raw[i / 2] as int % 16
        }) as u8,
    ) by {}
    assert forall|i: int| 0 <= i < 16 implies (hex_value(bytes[2 * i])->0 * 16 + hex_value(
        bytes[2 * i + 1],
    )->0) as u8 == #[trigger] raw[i] by {
        assert((2 * i) / 2 == i && (2 * i) % 2 == 0);
        assert((2 * i + 1) / 2 == i && (2 * i + 1) % 2 == 1);
        assert(hex_value(bytes[2 * i]) == Some((raw[i] as int / 16) as u8));
        assert(hex_value(bytes[2 * i + 1]) == Some((raw[i] as int % 16) as u8));
    }
    assert(eid_of_hex(bytes)->0 =~= raw);
}

/// Distinct EIDs have distinct text forms.
pub proof fn law_eid_hex_is_injective(a: Seq<u8>, b: Seq<u8>)
    requires
        a.len() == URMA_EID_SIZE,
        b.len() == URMA_EID_SIZE,
        hex_text(a) == hex_text(b),
    ensures
        a == b,
{
    law_eid_hex_round_trip(a);
    law_eid_hex_round_trip(b);
}

/// Only texts of exactly 32 hexadecimal digits parse, and what parses is the
/// text form of the result up to the case of the digits.
pub proof fn law_eid_text_is_canonical_up_to_case(bytes: Seq<u8>)
    ensures
        eid_of_hex(bytes) matches Some(raw) ==> {
            &&& bytes.len() == 32
            &&& raw.len() == URMA_EID_SIZE
            &&& forall|i: int|
                0 <= i < 32 ==> hex_value(#[trigger] bytes[i]) == hex_value(hex_text(raw)[i] as u8)
        },
{
    if eid_of_hex(bytes) is Some {
        let raw = eid_of_hex(bytes)->0;
        assert forall|i: int| 0 <= i < 32 implies hex_value(#[trigger] bytes[i]) == hex_value(
            hex_text(raw)[i] as u8,
        ) by {
            let k = i / 2;
            assert(hex_value(bytes[2 * k]) is Some && hex_value(bytes[2 * k + 1]) is Some);
            let high = hex_value(bytes[2 * k])->0;
            let low = hex_value(bytes[2 * k + 1])->0;
            assert(raw[k] == (high * 16 + low) as u8);
            if i % 2 == 0 {
                assert(i == 2 * k);
            } else {
                assert(i == 2 * k + 1);
            }
        }
    }
}

impl urma_eid_t {
    /// Diagnostic rendering: the type's name around the hex form.
    pub fn debug_text(&self) -> (text: String)
        ensures
            text@ == "urma_eid_t("@ + hex_text(self.raw@) + ")"@,
    {
        let mut out = "urma_eid_t(".to_string();
        out.append(eid_to_hex(&self.raw).as_str());
        out.append(")");
        out
    }
}

// Segment wire form.

/// The fields of a segment, as the model sees them.
pub ghost struct SegView {
    pub eid: Seq<u8>,
    pub uasid: u32,
    pub va: u64,
    pub len: u64,
    pub attr: u32,
    pub token_id: u32,
}

impl View for urma_seg_t {
    type V = SegView;

    open spec fn view(&self) -> SegView {
        SegView {
            eid: self.ubva.eid@,
            uasid: self.ubva.uasid,
            va: self.ubva.va,
            len: self.len,
            attr: self.attr.value,
            token_id: self.token_id,
        }
    }
}

/// Layout of the wire form: the packed address (EID, `uasid`, `va`), four
/// bytes of zero padding, then `len`, `attr` and `token_id`; integers are
/// little-endian.
pub open spec fn seg_wire(seg: SegView) -> Seq<u8> {
    seg.eid + crate::endian::u32_le(seg.uasid) + crate::endian::u64_le(seg.va) + seq![
        0u8,
        0u8,
        0u8,
        0u8,
    ] + crate::endian::u64_le(seg.len) + crate::endian::u32_le(seg.attr) + crate::endian::u32_le(
        seg.token_id,
    )
}

/// The segment that a wire form of the right length carries. The padding is
/// not looked at.
pub open spec fn seg_of_wire(wire: Seq<u8>) -> SegView {
    SegView {
        eid: wire.subrange(0, 16),
        uasid: crate::endian::u32_of_le(wire.subrange(16, 20)),
        va: crate::endian::u64_of_le(wire.subrange(20, 28)),
        len: crate::endian::u64_of_le(wire.subrange(32, 40)),
        attr: crate::endian::u32_of_le(wire.subrange(40, 44)),
        token_id: crate::endian::u32_of_le(wire.subrange(44, 48)),
    }
}

impl urma_seg_t {
    /// Serialize the segment into the byte form shared with peers.
    ///
    /// The wire form is coupled to the exact `liburma` version; all nodes in
    /// a cluster must run the same version.
    pub fn to_wire(&self) -> (wire: Vec<u8>)
        ensures
            wire@ == seg_wire(self@),
            wire@.len() == URMA_SEG_WIRE_SIZE,
    {
        let mut wire: Vec<u8> = Vec::with_capacity(URMA_SEG_WIRE_SIZE);
        let mut i: usize = 0;
        while i < URMA_EID_SIZE
            invariant
                i <= URMA_EID_SIZE,
                wire@ == self.ubva.eid@.take(i as int),
            decreases URMA_EID_SIZE - i,
        {
            wire.push(self.ubva.eid[i]);
            assert(wire@ =~= self.ubva.eid@.take(i + 1));
            i = i + 1;
        }
        assert(wire@ =~= self.ubva.eid@);
        push_u32_le(&mut wire, self.ubva.uasid);
        push_u64_le(&mut wire, self.ubva.va);
        let ghost packed = wire@;
        wire.push(0);
        wire.push(0);
        wire.push(0);
        wire.push(0);
        assert(wire@ =~= packed + seq![0u8, 0u8, 0u8, 0u8]);
        push_u64_le(&mut wire, self.len);
        push_u32_le(&mut wire, self.attr.value);
        push_u32_le(&mut wire, self.token_id);
        proof {
            crate::endian::law_u32_round_trip(self.ubva.uasid);
            crate::endian::law_u64_round_trip(self.ubva.va);
            crate::endian::law_u64_round_trip(self.len);
        }
        wire
    }

    /// Parse the wire form produced by [`urma_seg_t::to_wire`].
    pub fn from_wire(wire: &[u8]) -> (seg: Option<Self>)
        ensures
            match seg {
                Some(seg) => wire@.len() == URMA_SEG_WIRE_SIZE && seg@ == seg_of_wire(wire@),
                None => wire@.len() != URMA_SEG_WIRE_SIZE,
            },
    {
        if wire.len() != URMA_SEG_WIRE_SIZE {
            return None;
        }
        let mut eid: [u8; URMA_EID_SIZE] = [0u8; URMA_EID_SIZE];
        let mut i: usize = 0;
        while i < URMA_EID_SIZE
            invariant
                i <= URMA_EID_SIZE,
                wire@.len() == URMA_SEG_WIRE_SIZE,
                eid@.len() == URMA_EID_SIZE,
                forall|j: int| 0 <= j < i ==> #[trigger] eid@[j] == wire@[j],
            decreases URMA_EID_SIZE - i,
        {
            eid[i] = wire[i];
            i = i + 1;
        }
        assert(eid@ =~= wire@.subrange(0, 16));
        Some(
            urma_seg_t {
                ubva: urma_ubva_t {
                    eid,
                    uasid: read_u32_le(wire, 16),
                    va: read_u64_le(wire, 20),
                },
                len: read_u64_le(wire, 32),
                attr: urma_seg_attr_t { value: read_u32_le(wire, 40) },
                token_id: read_u32_le(wire, 44),
            },
        )
    }

    /// Base virtual address of the segment.
    pub fn base_va(&self) -> (va: u64)
        ensures
            va == self@.va,
    {
        self.ubva.va
    }

    /// Segment length in bytes.
    pub fn seg_len(&self) -> (len: u64)
        ensures
            len == self@.len,
    {
        self.len
    }
}

/// Serializing a segment and parsing the bytes gives every field back.
pub proof fn law_seg_wire_round_trip(seg: SegView)
    requires
        seg.eid.len() == URMA_EID_SIZE,
    ensures
        seg_wire(seg).len() == URMA_SEG_WIRE_SIZE,
        seg_of_wire(seg_wire(seg)) == seg,
{
    crate::endian::law_u32_round_trip(seg.uasid);
    crate::endian::law_u64_round_trip(seg.va);
    crate::endian::law_u64_round_trip(seg.len);
    crate::endian::law_u32_round_trip(seg.attr);
    crate::endian::law_u32_round_trip(seg.token_id);
    let wire = seg_wire(seg);
    assert(wire.subrange(0, 16) =~= seg.eid);
    assert(wire.subrange(16, 20) =~= crate::endian::u32_le(seg.uasid));
    assert(wire.subrange(20, 28) =~= crate::endian::u64_le(seg.va));
    assert(wire.subrange(32, 40) =~= crate::endian::u64_le(seg.len));
    assert(wire.subrange(40, 44) =~= crate::endian::u32_le(seg.attr));
    assert(wire.subrange(44, 48) =~= crate::endian::u32_le(seg.token_id));
}

/// Parsing bytes and serializing the segment gives the bytes back, but for
/// the padding, which comes out as zeros.
pub proof fn law_seg_bytes_round_trip(wire: Seq<u8>)
    requires
        wire.len() == URMA_SEG_WIRE_SIZE,
    ensures
        seg_wire(seg_of_wire(wire)) == wire.subrange(0, 28) + seq![0u8, 0u8, 0u8, 0u8]
            + wire.subrange(32, 48),
{
    crate::endian::law_u32_bytes_round_trip(wire.subrange(16, 20));
    crate::endian::law_u64_bytes_round_trip(wire.subrange(20, 28));
    crate::endian::law_u64_bytes_round_trip(wire.subrange(32, 40));
    crate::endian::law_u32_bytes_round_trip(wire.subrange(40, 44));
    crate::endian::law_u32_bytes_round_trip(wire.subrange(44, 48));
    assert(seg_wire(seg_of_wire(wire)) =~= wire.subrange(0, 28) + seq![0u8, 0u8, 0u8, 0u8]
        + wire.subrange(32, 48));
}

/// An EID is written as two lower-case hexadecimal digits for each byte, in
/// order, the high half first.
pub proof fn law_eid_texts_spell_the_bytes(raw: [u8; 16], text: String, shown: String, i: int)
    requires
        call_ensures(eid_to_hex, (&raw,), text),
        call_ensures(urma_eid_t::debug_text, (&urma_eid_t { raw },), shown),
        0 <= i < 16,
    ensures
        text@.len() == 32,
        crate::text::digit_value(text@[2 * i]) * 16 + crate::text::digit_value(text@[2 * i + 1])
            == raw@[i],
        48 <= text@[2 * i] as int <= 57 || 97 <= text@[2 * i] as int <= 102,
        48 <= text@[2 * i + 1] as int <= 57 || 97 <= text@[2 * i + 1] as int <= 102,
        shown@ == "urma_eid_t("@ + text@ + ")"@,
{
    assert((2 * i) / 2 == i && (2 * i) % 2 == 0);
    assert((2 * i + 1) / 2 == i && (2 * i + 1) % 2 == 1);
}

/// Whether a byte is a hexadecimal digit, in either case.
pub open spec fn is_hex_digit(byte: u8) -> bool {
    48 <= byte <= 57 || 97 <= byte <= 102 || 65 <= byte <= 70
}

/// Exactly the texts of 32 hexadecimal digits are EIDs, and what is written
/// for an EID reads back as it.
pub proof fn law_eids_parse(
    value: &str,
    parsed: Option<[u8; 16]>,
    raw: [u8; 16],
    text: String,
)
    requires
        call_ensures(eid_from_hex, (value,), parsed),
        call_ensures(eid_to_hex, (&raw,), text),
    ensures
        ({
            let bytes = vstd::utf8::encode_utf8(value@);
            parsed is Some <==> bytes.len() == 32 && forall|i: int|
                0 <= i < 32 ==> is_hex_digit(#[trigger] bytes[i])
        }),
        value@ == text@ ==> (parsed matches Some(found) && found@ == raw@),
{
    let bytes = vstd::utf8::encode_utf8(value@);
    assert forall|byte: u8| #[trigger] hex_value(byte) is Some == is_hex_digit(byte) by {}
    if bytes.len() == 32 && forall|i: int| 0 <= i < 32 ==> is_hex_digit(#[trigger] bytes[i]) {
        assert forall|i: int| 0 <= i < 32 implies hex_value(#[trigger] bytes[i]) is Some by {
            assert(is_hex_digit(bytes[i]));
        }
    }
    if parsed is Some {
        assert forall|i: int| 0 <= i < 32 implies is_hex_digit(#[trigger] bytes[i]) by {
            assert(hex_value(bytes[i]) is Some);
        }
    }
    law_eid_hex_round_trip(raw@);
}

/// The wire form of a segment is 48 bytes long: the EID, then the address
/// space, the address, four zeros, the length, the attributes and the token,
/// each least significant byte first.
pub proof fn law_segments_are_laid_out(seg: urma_seg_t, wire: Vec<u8>, va: u64, len: u64)
    requires
        call_ensures(urma_seg_t::to_wire, (&seg,), wire),
        call_ensures(urma_seg_t::base_va, (&seg,), va),
        call_ensures(urma_seg_t::seg_len, (&seg,), len),
    ensures
        wire@.len() == 48,
        wire@.subrange(0, 16) == seg.ubva.eid@,
        crate::endian::number_of_four(wire@.subrange(16, 20)) == seg.ubva.uasid,
        crate::endian::number_of_four(wire@.subrange(20, 24)) + 0x1_0000_0000
            * crate::endian::number_of_four(wire@.subrange(24, 28)) == seg.ubva.va,
        crate::endian::number_of_four(wire@.subrange(28, 32)) == 0,
        crate::endian::number_of_four(wire@.subrange(32, 36)) + 0x1_0000_0000
            * crate::endian::number_of_four(wire@.subrange(36, 40)) == seg.len,
        crate::endian::number_of_four(wire@.subrange(40, 44)) == seg.attr.value,
        crate::endian::number_of_four(wire@.subrange(44, 48)) == seg.token_id,
        va == seg.ubva.va,
        len == seg.len,
{
    let bytes = wire@;
    law_seg_wire_round_trip(seg@);
    assert(seg_of_wire(bytes) == seg@);
    crate::endian::lemma_number_of_four(bytes.subrange(16, 20));
    crate::endian::lemma_number_of_eight(bytes.subrange(20, 28));
    crate::endian::lemma_number_of_eight(bytes.subrange(32, 40));
    crate::endian::lemma_number_of_four(bytes.subrange(40, 44));
    crate::endian::lemma_number_of_four(bytes.subrange(44, 48));
    assert(bytes.subrange(20, 28).subrange(0, 4) =~= bytes.subrange(20, 24));
    assert(bytes.subrange(20, 28).subrange(4, 8) =~= bytes.subrange(24, 28));
    assert(bytes.subrange(32, 40).subrange(0, 4) =~= bytes.subrange(32, 36));
    assert(bytes.subrange(32, 40).subrange(4, 8) =~= bytes.subrange(36, 40));
    crate::endian::law_u32_round_trip(seg.ubva.uasid);
    crate::endian::law_u64_round_trip(seg.ubva.va);
    assert(bytes.subrange(28, 32) =~= seq![0u8, 0u8, 0u8, 0u8]);
}

/// Exactly 48 bytes are the wire form of a segment, and a segment that went
/// through its wire form is what it was, field by field.
pub proof fn law_segments_travel(
    seg: urma_seg_t,
    wire: Vec<u8>,
    bytes: &[u8],
    read: Option<urma_seg_t>,
    other: &[u8],
    other_read: Option<urma_seg_t>,
)
    requires
        call_ensures(urma_seg_t::to_wire, (&seg,), wire),
        bytes@ == wire@,
        call_ensures(urma_seg_t::from_wire, (bytes,), read),
        call_ensures(urma_seg_t::from_wire, (other,), other_read),
    ensures
        other_read is Some <==> other@.len() == 48,
        read matches Some(read) && read.ubva.eid@ == seg.ubva.eid@ && read.ubva.uasid
            == seg.ubva.uasid && read.ubva.va == seg.ubva.va && read.len == seg.len
            && read.attr.value == seg.attr.value && read.token_id == seg.token_id,
{
    law_seg_wire_round_trip(seg@);
}

/// Records that are handed to the library start out all zero.
pub proof fn law_new_records_are_zero(
    seg: urma_seg_t,
    seg_cfg: urma_seg_cfg_t,
    jfc: urma_jfc_cfg_t,
    jetty: urma_jetty_cfg_t,
    rjetty: urma_rjetty_t,
    wr: urma_jfs_wr_t,
    cr: urma_cr_t,
    i: int,
)
    requires
        call_ensures(<urma_seg_t as Default>::default, (), seg),
        call_ensures(<urma_seg_cfg_t as Default>::default, (), seg_cfg),
        call_ensures(<urma_jfc_cfg_t as Default>::default, (), jfc),
        call_ensures(<urma_jetty_cfg_t as Default>::default, (), jetty),
        call_ensures(<urma_rjetty_t as Default>::default, (), rjetty),
        call_ensures(<urma_jfs_wr_t as Default>::default, (), wr),
        call_ensures(<urma_cr_t as Default>::default, (), cr),
        0 <= i < 16,
    ensures
        seg.ubva.eid@[i] == 0 && seg.ubva.uasid == 0 && seg.ubva.va == 0 && seg.len == 0
            && seg.attr.value == 0 && seg.token_id == 0,
        seg_cfg.va == 0 && seg_cfg.len == 0 && seg_cfg.token_id == 0 && seg_cfg.token_value.token
            == 0 && seg_cfg.flag.value == 0 && seg_cfg.user_ctx == 0 && seg_cfg.iova == 0,
        jfc.depth == 0 && jfc.flag == 0 && jfc.ceqn == 0 && jfc.jfce == 0 && jfc.user_ctx == 0,
        jetty.id == 0 && jetty.flag == 0 && jetty.jetty_grp == 0 && jetty.user_ctx == 0
            && jetty.recv.jfr == 0 && jetty.recv.jfc == 0 && jetty.jfs_cfg.depth == 0
            && jetty.jfs_cfg.flag.value == 0 && jetty.jfs_cfg.trans_mode == 0
            && jetty.jfs_cfg.priority == 0 && jetty.jfs_cfg.max_sge == 0 && jetty.jfs_cfg.max_rsge
            == 0 && jetty.jfs_cfg.max_inline_data == 0 && jetty.jfs_cfg.rnr_retry == 0
            && jetty.jfs_cfg.err_timeout == 0 && jetty.jfs_cfg.jfc == 0 && jetty.jfs_cfg.user_ctx
            == 0,
        rjetty.jetty_id.eid.raw@[i] == 0 && rjetty.jetty_id.uasid == 0 && rjetty.jetty_id.id == 0
            && rjetty.trans_mode == 0 && rjetty.policy == 0 && rjetty.type_ == 0
            && rjetty.flag.value == 0 && rjetty.tp_type == 0,
        wr.opcode == 0 && wr.flag.value == 0 && wr.tjetty == 0 && wr.user_ctx == 0
            && wr.rw.src.sge@.len() == 0 && wr.rw.dst.sge@.len() == 0 && wr.rw.target_hint == 0
            && wr.rw.notify_data == 0 && wr.next == 0,
        cr.status == 0 && cr.user_ctx == 0 && cr.opcode == 0 && cr.flag == 0 && cr.completion_len
            == 0 && cr.local_id == 0 && cr.remote_id.eid.raw@[i] == 0 && cr.remote_id.uasid == 0
            && cr.remote_id.id == 0 && cr.imm_data == 0 && cr.tpn == 0 && cr.user_data == 0,
{
    let zeros = Seq::new(URMA_EID_SIZE as nat, |k: int| 0u8);
    assert(zeros[i] == 0);
}

} // verus!
