//! URMA driver over `liburma`.
//!
//! The driver manages one device context, one polling JFC, a small set of
//! pre-created jetties that peers bind to, and caches of imported remote
//! segments and bound peer jetties. Only one-sided READ work requests are
//! posted; completions are drained with `urma_poll_jfc`.
//!
//! This module decides what is called, with which arguments and in which
//! order, and what each result means. The embedding program performs the
//! calls; library objects are known here by their address, zero being null.
use crate::bytes::copy_bytes;
use crate::driver::{RegionAccess, RegionWire, UbLocalHandle, UrmaCompletion, UrmaReadOp, UB_TOKEN};
use crate::table::Table;
use crate::text::{push_decimal, push_prefixed_hex, push_signed_decimal};
use crate::urma_sys;
use crate::urma_sys::{
    urma_cr_t, urma_eid_info_t, urma_eid_t, urma_import_seg_flag_t, urma_jetty_cfg_t,
    urma_jfc_cfg_t, urma_jfs_cfg_t, urma_jfs_wr_flag_t, urma_jfs_wr_t, urma_reg_seg_flag_t,
    urma_rjetty_t, urma_seg_cfg_t, urma_seg_t, urma_sge_t, urma_token_t,
};
use std::collections::HashMap;
use vstd::prelude::*;

verus! {

broadcast use {
    vstd::array::group_array_axioms,
    vstd::slice::group_slice_axioms,
    vstd::std_specs::hash::group_hash_axioms,
};

/// Completions drained per poll.
pub const BATCH: usize = 64;

/// Settings of a [`LibUrmaDriver`].
#[derive(Debug, Clone)]
pub struct LibUrmaDriverConfig {
    /// URMA device name, e.g. `urma0`. Empty picks the first listed device.
    pub device: String,
    /// Number of jetties peers may bind to.
    pub jetty_count: u32,
    /// Per-jetty send queue depth (max outstanding WRs).
    pub max_wr: u32,
    /// Completion queue depth.
    pub jfc_depth: u32,
}

/// A local jetty bound to a peer's jetty.
#[derive(Debug, Clone, Copy)]
pub struct BoundJetty {
    pub jetty: u64,
    pub tjetty: u64,
}

/// A registered local region.
#[derive(Debug, Clone, Copy)]
pub struct Registration {
    pub tseg: u64,
    pub len: u64,
}

/// Why `status`, returned by the call `op`, is a failure. An object that
/// already exists is as good as a fresh one.
pub open spec fn status_error(op: Seq<char>, status: i32) -> Option<Seq<char>> {
    if status == urma_sys::URMA_SUCCESS || status == urma_sys::URMA_EEXIST {
        None
    } else {
        Some(op + " failed with urma status "@ + crate::text::signed_decimal(status as int))
    }
}

/// Turn the status of the call `op` into a result.
pub fn check_status(op: &str, status: i32) -> (checked: Result<(), String>)
    ensures
        match checked {
            Ok(()) => status_error(op@, status) is None,
            Err(text) => status_error(op@, status) == Some(text@),
        },
{
    if status == urma_sys::URMA_SUCCESS || status == urma_sys::URMA_EEXIST {
        return Ok(());
    }
    let mut text = op.to_string();
    text.append(" failed with urma status ");
    push_signed_decimal(&mut text, status);
    Err(text)
}

/// Access bits that a registration asks for. External peers may read;
/// local access always has full permissions.
pub open spec fn access_bits(access: RegionAccess) -> u32 {
    match access {
        RegionAccess::RemoteRead => urma_sys::URMA_ACCESS_READ,
        RegionAccess::LocalOnly => urma_sys::URMA_ACCESS_LOCAL_ONLY,
    }
}

/// Registration flags: the `urma_reg_seg_flag_t` bit field holds, from the
/// lowest bit on, `token_policy:3`, `cacheable:1`, `dsva:1`, `access:6`, and
/// bits that stay zero.
pub open spec fn is_registration_flag(access: RegionAccess, value: u32) -> bool {
    &&& value % 8 == urma_sys::URMA_TOKEN_NONE
    &&& value / 8 % 2 == urma_sys::URMA_NON_CACHEABLE
    &&& value / 16 % 2 == 0
    &&& value / 32 % 64 == access_bits(access)
    &&& value / 2048 == 0
}

/// Import flags: the `urma_import_seg_flag_t` bit field holds, from the
/// lowest bit on, `cacheable:1`, `access:6`, `mapping:1`, and bits that stay
/// zero. An import asks for read, write and atomic access.
pub open spec fn is_import_flag(value: u32) -> bool {
    &&& value % 2 == urma_sys::URMA_NON_CACHEABLE
    &&& value / 2 % 64 == urma_sys::URMA_ACCESS_READ + urma_sys::URMA_ACCESS_WRITE
        + urma_sys::URMA_ACCESS_ATOMIC
    &&& value / 128 == urma_sys::URMA_SEG_NOMAP
}

/// The flags of a registration.
pub fn flag_value_reg(access: RegionAccess) -> (value: u32)
    ensures
        is_registration_flag(access, value),
{
    let bits: u32 = match access {
        RegionAccess::RemoteRead => urma_sys::URMA_ACCESS_READ,
        RegionAccess::LocalOnly => urma_sys::URMA_ACCESS_LOCAL_ONLY,
    };
    let value: u32 = (urma_sys::URMA_TOKEN_NONE & 0x7) | (urma_sys::URMA_NON_CACHEABLE << 3u32)
        | (bits << 5u32);
    assert(bits == 1 || bits == 2);
    assert((0u32 & 0x7) | (0u32 << 3u32) | (1u32 << 5u32) == 32) by (bit_vector);
    assert((0u32 & 0x7) | (0u32 << 3u32) | (2u32 << 5u32) == 64) by (bit_vector);
    value
}

/// The flags of a segment import.
pub fn flag_value_import() -> (value: u32)
    ensures
        is_import_flag(value),
{
    assert((0u32 & 0x1) | ((0x2u32 | 0x4 | 0x8) << 1u32) | (0u32 << 7u32) == 28) by (bit_vector);
    (urma_sys::URMA_NON_CACHEABLE & 0x1) | ((urma_sys::URMA_ACCESS_READ
        | urma_sys::URMA_ACCESS_WRITE | urma_sys::URMA_ACCESS_ATOMIC) << 1u32) | (
    urma_sys::URMA_SEG_NOMAP << 7u32)
}

/// Driver over `liburma`.
#[derive(Debug)]
pub struct LibUrmaDriver {
    ctx: u64,
    jfc: u64,
    /// Jetties peers bind to; their ids are advertised in the local handle.
    jettys: Vec<u64>,
    local: UbLocalHandle,
    max_wr: u32,
    /// Registered local regions by their base address.
    registered: HashMap<usize, Registration>,
    /// Imported remote segments by their wire form.
    imported_segs: Table<Vec<u8>, u64>,
    /// Bound peer jetties by EID hex and jetty id, with the local jetty
    /// picked round-robin.
    bound: Table<(String, u32), BoundJetty>,
    next_jetty: usize,
    shutdown: bool,
}

/// The driver, as the model sees it.
#[verifier::ext_equal]
pub ghost struct DriverView {
    pub ctx: u64,
    pub jfc: u64,
    pub jettys: Seq<u64>,
    pub local: crate::driver::HandleView,
    pub max_wr: u32,
    pub registered: Map<usize, Registration>,
    pub imported: Map<Seq<u8>, u64>,
    pub bound: Map<(Seq<char>, u32), BoundJetty>,
    pub next_jetty: usize,
    pub shutdown: bool,
}

impl View for LibUrmaDriver {
    type V = DriverView;

    closed spec fn view(&self) -> DriverView {
        DriverView {
            ctx: self.ctx,
            jfc: self.jfc,
            jettys: self.jettys@,
            local: self.local@,
            max_wr: self.max_wr,
            registered: self.registered@,
            imported: self.imported_segs@,
            bound: self.bound@,
            next_jetty: self.next_jetty,
            shutdown: self.shutdown,
        }
    }
}

// Bringing the driver up.

/// A call that setting up the driver makes.
pub enum SetupCall {
    /// `urma_init`
    Init,
    /// `urma_get_device_by_name`
    DeviceByName { name: String },
    /// `urma_get_device_list`
    DeviceList,
    /// Read the first element of a device list, then `urma_free_device_list`.
    FirstDevice { list: u64 },
    /// `urma_get_eid_list`
    EidList { device: u64 },
    /// Read the first element of an EID list, then `urma_free_eid_list`.
    FirstEid { list: u64 },
    /// `urma_create_context`
    CreateContext { device: u64, eid_index: u32 },
    /// `urma_create_jfc`
    CreateJfc { ctx: u64, cfg: urma_jfc_cfg_t },
    /// `urma_delete_context`
    DeleteContext { ctx: u64 },
    /// `urma_create_jetty`
    CreateJetty { ctx: u64, cfg: urma_jetty_cfg_t },
    /// Read the id of a jetty.
    JettyId { jetty: u64 },
}

/// What a call of the setup came back with.
#[derive(Clone, Copy)]
pub enum SetupReply {
    Status(i32),
    /// An object, or null.
    Object(u64),
    /// A list, or null, and the number of its elements.
    List { list: u64, count: i64 },
    Eid(urma_eid_info_t),
    JettyId(u32),
}

/// How far the setup has come.
#[derive(Debug)]
pub enum SetupStep {
    Init,
    NamedDevice,
    ListedDevice,
    FirstDevice { list: u64 },
    EidList { device: u64 },
    FirstEid { device: u64, list: u64 },
    Context { device: u64, eid: String, eid_index: u32 },
    Jfc { ctx: u64, eid: String },
    DropContext { ctx: u64 },
    Jetty { ctx: u64, jfc: u64, eid: String, jettys: Vec<u64>, jetty_ids: Vec<u32> },
    JettyId {
        ctx: u64,
        jfc: u64,
        eid: String,
        jettys: Vec<u64>,
        jetty_ids: Vec<u32>,
        jetty: u64,
    },
    Ready(LibUrmaDriver),
    Failed(String),
}

/// How far the setup has come, as the model sees it.
#[verifier::ext_equal]
pub ghost enum SetupView {
    Init,
    NamedDevice,
    ListedDevice,
    FirstDevice { list: u64 },
    EidList { device: u64 },
    FirstEid { device: u64, list: u64 },
    Context { device: u64, eid: Seq<char>, eid_index: u32 },
    Jfc { ctx: u64, eid: Seq<char> },
    DropContext { ctx: u64 },
    Jetty { ctx: u64, jfc: u64, eid: Seq<char>, jettys: Seq<u64>, jetty_ids: Seq<u32> },
    JettyId {
        ctx: u64,
        jfc: u64,
        eid: Seq<char>,
        jettys: Seq<u64>,
        jetty_ids: Seq<u32>,
        jetty: u64,
    },
    Ready(DriverView),
    Failed(Seq<char>),
}

impl View for SetupStep {
    type V = SetupView;

    open spec fn view(&self) -> SetupView {
        match self {
            SetupStep::Init => SetupView::Init,
            SetupStep::NamedDevice => SetupView::NamedDevice,
            SetupStep::ListedDevice => SetupView::ListedDevice,
            SetupStep::FirstDevice { list } => SetupView::FirstDevice { list: *list },
            SetupStep::EidList { device } => SetupView::EidList { device: *device },
            SetupStep::FirstEid { device, list } => SetupView::FirstEid {
                device: *device,
                list: *list,
            },
            SetupStep::Context { device, eid, eid_index } => SetupView::Context {
                device: *device,
                eid: eid@,
                eid_index: *eid_index,
            },
            SetupStep::Jfc { ctx, eid } => SetupView::Jfc { ctx: *ctx, eid: eid@ },
            SetupStep::DropContext { ctx } => SetupView::DropContext { ctx: *ctx },
            SetupStep::Jetty { ctx, jfc, eid, jettys, jetty_ids } => SetupView::Jetty {
                ctx: *ctx,
                jfc: *jfc,
                eid: eid@,
                jettys: jettys@,
                jetty_ids: jetty_ids@,
            },
            SetupStep::JettyId { ctx, jfc, eid, jettys, jetty_ids, jetty } => SetupView::JettyId {
                ctx: *ctx,
                jfc: *jfc,
                eid: eid@,
                jettys: jettys@,
                jetty_ids: jetty_ids@,
                jetty: *jetty,
            },
            SetupStep::Ready(driver) => SetupView::Ready(driver@),
            SetupStep::Failed(text) => SetupView::Failed(text@),
        }
    }
}

/// A driver that has just come up.
pub open spec fn fresh_driver(
    config: LibUrmaDriverConfig,
    ctx: u64,
    jfc: u64,
    eid: Seq<char>,
    jettys: Seq<u64>,
    jetty_ids: Seq<u32>,
) -> DriverView {
    DriverView {
        ctx,
        jfc,
        jettys,
        local: crate::driver::HandleView { device: config.device@, eid, jetty_ids },
        max_wr: config.max_wr,
        registered: Map::empty(),
        imported: Map::empty(),
        bound: Map::empty(),
        next_jetty: 0,
        shutdown: false,
    }
}

/// Where the setup goes once the JFC and some jetties exist: it creates
/// jetties until there are as many as configured.
pub open spec fn setup_jetties(
    config: LibUrmaDriverConfig,
    ctx: u64,
    jfc: u64,
    eid: Seq<char>,
    jettys: Seq<u64>,
    jetty_ids: Seq<u32>,
) -> SetupView {
    if jettys.len() < config.jetty_count {
        SetupView::Jetty { ctx, jfc, eid, jettys, jetty_ids }
    } else {
        SetupView::Ready(fresh_driver(config, ctx, jfc, eid, jettys, jetty_ids))
    }
}

/// Where the setup goes when its current call comes back with `reply`.
pub open spec fn setup_next(
    config: LibUrmaDriverConfig,
    now: SetupView,
    reply: SetupReply,
) -> SetupView {
    match (now, reply) {
        (SetupView::Init, SetupReply::Status(status)) => {
            if status_error("urma_init"@, status) is Some {
                SetupView::Failed(status_error("urma_init"@, status)->0)
            } else if config.device@.len() == 0 {
                SetupView::ListedDevice
            } else if config.device@.contains('\0') {
                SetupView::Failed("device name contains NUL"@)
            } else {
                SetupView::NamedDevice
            }
        },
        (SetupView::NamedDevice, SetupReply::Object(device)) => {
            if device == 0 {
                SetupView::Failed("urma device "@ + config.device@ + " not found"@)
            } else {
                SetupView::EidList { device }
            }
        },
        (SetupView::ListedDevice, SetupReply::List { list, count }) => {
            if list == 0 || count <= 0 {
                SetupView::Failed("no urma devices found"@)
            } else {
                SetupView::FirstDevice { list }
            }
        },
        (SetupView::FirstDevice { .. }, SetupReply::Object(device)) => SetupView::EidList {
            device,
        },
        (SetupView::EidList { device }, SetupReply::List { list, count }) => {
            if list == 0 || count == 0 {
                SetupView::Failed("urma device has no EIDs"@)
            } else {
                SetupView::FirstEid { device, list }
            }
        },
        (SetupView::FirstEid { device, .. }, SetupReply::Eid(info)) => SetupView::Context {
            device,
            eid: urma_sys::hex_text(info.eid.raw@),
            eid_index: info.eid_index,
        },
        (SetupView::Context { eid, .. }, SetupReply::Object(ctx)) => {
            if ctx == 0 {
                SetupView::Failed("urma_create_context failed for device "@ + config.device@)
            } else {
                SetupView::Jfc { ctx, eid }
            }
        },
        (SetupView::Jfc { ctx, eid }, SetupReply::Object(jfc)) => {
            if jfc == 0 {
                SetupView::DropContext { ctx }
            } else {
                setup_jetties(config, ctx, jfc, eid, Seq::empty(), Seq::empty())
            }
        },
        (SetupView::DropContext { .. }, SetupReply::Status(_)) => SetupView::Failed(
            "urma_create_jfc failed (depth "@ + crate::text::decimal(config.jfc_depth as nat)
                + ")"@,
        ),
        (SetupView::Jetty { ctx, jfc, eid, jettys, jetty_ids }, SetupReply::Object(jetty)) => {
            if jetty == 0 {
                SetupView::Failed("urma_create_jetty failed"@)
            } else {
                SetupView::JettyId { ctx, jfc, eid, jettys, jetty_ids, jetty }
            }
        },
        (
            SetupView::JettyId { ctx, jfc, eid, jettys, jetty_ids, jetty },
            SetupReply::JettyId(id),
        ) => setup_jetties(config, ctx, jfc, eid, jettys.push(jetty), jetty_ids.push(id)),
        (_, _) => now,
    }
}

/// Whether `reply` is of the form that the current call comes back with.
pub open spec fn setup_expects(now: SetupView, reply: SetupReply) -> bool {
    match now {
        SetupView::Init | SetupView::DropContext { .. } => reply is Status,
        SetupView::NamedDevice | SetupView::FirstDevice { .. } | SetupView::Context { .. }
        | SetupView::Jfc { .. } | SetupView::Jetty { .. } => reply is Object,
        SetupView::ListedDevice | SetupView::EidList { .. } => reply is List,
        SetupView::FirstEid { .. } => reply is Eid,
        SetupView::JettyId { .. } => reply is JettyId,
        SetupView::Ready(_) | SetupView::Failed(_) => false,
    }
}

/// JFC settings: the configured depth, everything else at its initial value.
pub open spec fn is_jfc_cfg(config: LibUrmaDriverConfig, cfg: urma_jfc_cfg_t) -> bool {
    &&& cfg.depth == config.jfc_depth
    &&& (urma_jfc_cfg_t { depth: 0, ..cfg }).is_initial()
}

/// Jetty settings: reliable connections over the JFC, one element per
/// scatter/gather list, everything else at its initial value.
pub open spec fn is_jetty_cfg(
    config: LibUrmaDriverConfig,
    jfc: u64,
    cfg: urma_jetty_cfg_t,
) -> bool {
    &&& cfg.jfs_cfg.depth == config.max_wr
    &&& cfg.jfs_cfg.trans_mode == urma_sys::URMA_TM_RC
    &&& cfg.jfs_cfg.max_sge == 1
    &&& cfg.jfs_cfg.max_rsge == 1
    &&& cfg.jfs_cfg.rnr_retry == urma_sys::URMA_TYPICAL_RNR_RETRY
    &&& cfg.jfs_cfg.err_timeout == urma_sys::URMA_TYPICAL_ERR_TIMEOUT
    &&& cfg.jfs_cfg.jfc == jfc
    &&& (urma_jetty_cfg_t {
        jfs_cfg: urma_jfs_cfg_t {
            depth: 0,
            trans_mode: 0,
            max_sge: 0,
            max_rsge: 0,
            rnr_retry: 0,
            err_timeout: 0,
            jfc: 0,
            ..cfg.jfs_cfg
        },
        ..cfg
    }).is_initial()
}

/// Whether `call` is what the setup does at `now`.
pub open spec fn is_setup_call(
    config: LibUrmaDriverConfig,
    now: SetupView,
    call: Option<SetupCall>,
) -> bool {
    match now {
        SetupView::Init => call == Some(SetupCall::Init),
        SetupView::NamedDevice => call matches Some(SetupCall::DeviceByName { name }) && name@
            == config.device@,
        SetupView::ListedDevice => call == Some(SetupCall::DeviceList),
        SetupView::FirstDevice { list } => call == Some(SetupCall::FirstDevice { list }),
        SetupView::EidList { device } => call == Some(SetupCall::EidList { device }),
        SetupView::FirstEid { list, .. } => call == Some(SetupCall::FirstEid { list }),
        SetupView::Context { device, eid_index, .. } => call == Some(
            SetupCall::CreateContext { device, eid_index },
        ),
        SetupView::Jfc { ctx: on, .. } => call matches Some(SetupCall::CreateJfc { ctx, cfg })
            && ctx == on && is_jfc_cfg(config, cfg),
        SetupView::DropContext { ctx } => call == Some(SetupCall::DeleteContext { ctx }),
        SetupView::Jetty { ctx: on, jfc, .. } => call matches Some(
            SetupCall::CreateJetty { ctx, cfg },
        ) && ctx == on && is_jetty_cfg(config, jfc, cfg),
        SetupView::JettyId { jetty, .. } => call == Some(SetupCall::JettyId { jetty }),
        SetupView::Ready(_) | SetupView::Failed(_) => call is None,
    }
}

/// Setup of a driver: a sequence of library calls, each decided by what the
/// ones before came back with.
#[derive(Debug)]
pub struct DriverSetup {
    pub config: LibUrmaDriverConfig,
    pub step: SetupStep,
}

/// Whether a text contains the NUL character.
fn contains_nul(text: &str) -> (found: bool)
    ensures
        found == text@.contains('\0'),
{
    let len: usize = text.unicode_len();
    let mut i: usize = 0;
    while i < len
        invariant
            i <= len,
            len == text@.len(),
            forall|j: int| 0 <= j < i ==> text@[j] != '\0',
        decreases len - i,
    {
        if text.get_char(i) == '\0' {
            return true;
        }
        i = i + 1;
    }
    false
}

impl DriverSetup {
    /// The setup of a driver with the given settings, at its start.
    pub fn new(config: LibUrmaDriverConfig) -> (setup: Self)
        ensures
            setup.config == config,
            setup.step@ == SetupView::Init,
    {
        DriverSetup { config, step: SetupStep::Init }
    }

    /// The next call to make; `None` when the setup has ended.
    pub fn call(&self) -> (call: Option<SetupCall>)
        ensures
            is_setup_call(self.config, self.step@, call),
    {
        match &self.step {
            SetupStep::Init => Some(SetupCall::Init),
            SetupStep::NamedDevice => Some(
                SetupCall::DeviceByName { name: self.config.device.clone() },
            ),
            SetupStep::ListedDevice => Some(SetupCall::DeviceList),
            SetupStep::FirstDevice { list } => Some(SetupCall::FirstDevice { list: *list }),
            SetupStep::EidList { device } => Some(SetupCall::EidList { device: *device }),
            SetupStep::FirstEid { list, .. } => Some(SetupCall::FirstEid { list: *list }),
            SetupStep::Context { device, eid_index, .. } => Some(
                SetupCall::CreateContext { device: *device, eid_index: *eid_index },
            ),
            SetupStep::Jfc { ctx, .. } => {
                let mut cfg = urma_jfc_cfg_t::default();
                cfg.depth = self.config.jfc_depth;
                Some(SetupCall::CreateJfc { ctx: *ctx, cfg })
            },
            SetupStep::DropContext { ctx } => Some(SetupCall::DeleteContext { ctx: *ctx }),
            SetupStep::Jetty { ctx, jfc, .. } => {
                let mut cfg = urma_jetty_cfg_t::default();
                cfg.jfs_cfg.depth = self.config.max_wr;
                cfg.jfs_cfg.trans_mode = urma_sys::URMA_TM_RC;
                cfg.jfs_cfg.max_sge = 1;
                cfg.jfs_cfg.max_rsge = 1;
                cfg.jfs_cfg.rnr_retry = urma_sys::URMA_TYPICAL_RNR_RETRY;
                cfg.jfs_cfg.err_timeout = urma_sys::URMA_TYPICAL_ERR_TIMEOUT;
                cfg.jfs_cfg.jfc = *jfc;
                Some(SetupCall::CreateJetty { ctx: *ctx, cfg })
            },
            SetupStep::JettyId { jetty, .. } => Some(SetupCall::JettyId { jetty: *jetty }),
            SetupStep::Ready(_) => None,
            SetupStep::Failed(_) => None,
        }
    }

    fn jetties(
        config: &LibUrmaDriverConfig,
        ctx: u64,
        jfc: u64,
        eid: String,
        jettys: Vec<u64>,
        jetty_ids: Vec<u32>,
    ) -> (step: SetupStep)
        ensures
            step@ == setup_jetties(*config, ctx, jfc, eid@, jettys@, jetty_ids@),
    {
        if (jettys.len() as u64) < config.jetty_count as u64 {
            SetupStep::Jetty { ctx, jfc, eid, jettys, jetty_ids }
        } else {
            SetupStep::Ready(
                LibUrmaDriver {
                    ctx,
                    jfc,
                    jettys,
                    local: UbLocalHandle { device: config.device.clone(), eid, jetty_ids },
                    max_wr: config.max_wr,
                    registered: HashMap::new(),
                    imported_segs: Table::new(),
                    bound: Table::new(),
                    next_jetty: 0,
                    shutdown: false,
                },
            )
        }
    }

    /// Go on with what the call came back with.
    pub fn advance(self, reply: SetupReply) -> (next: Self)
        requires
            setup_expects(self.step@, reply),
        ensures
            next.config == self.config,
            next.step@ == setup_next(self.config, self.step@, reply),
    {
        let config = self.config;
        let step = match (self.step, reply) {
            (SetupStep::Init, SetupReply::Status(status)) => {
                match check_status("urma_init", status) {
                    Err(text) => SetupStep::Failed(text),
                    Ok(()) => {
                        if config.device.as_str().unicode_len() == 0 {
                            SetupStep::ListedDevice
                        } else if contains_nul(config.device.as_str()) {
                            SetupStep::Failed("device name contains NUL".to_string())
                        } else {
                            SetupStep::NamedDevice
                        }
                    },
                }
            },
            (SetupStep::NamedDevice, SetupReply::Object(device)) => {
                if device == 0 {
                    let mut text = "urma device ".to_string();
                    text.append(config.device.as_str());
                    text.append(" not found");
                    SetupStep::Failed(text)
                } else {
                    SetupStep::EidList { device }
                }
            },
            (SetupStep::ListedDevice, SetupReply::List { list, count }) => {
                if list == 0 || count <= 0 {
                    SetupStep::Failed("no urma devices found".to_string())
                } else {
                    SetupStep::FirstDevice { list }
                }
            },
            (SetupStep::FirstDevice { .. }, SetupReply::Object(device)) => SetupStep::EidList {
                device,
            },
            (SetupStep::EidList { device }, SetupReply::List { list, count }) => {
                if list == 0 || count == 0 {
                    SetupStep::Failed("urma device has no EIDs".to_string())
                } else {
                    SetupStep::FirstEid { device, list }
                }
            },
            (SetupStep::FirstEid { device, .. }, SetupReply::Eid(info)) => SetupStep::Context {
                device,
                eid: urma_sys::eid_to_hex(&info.eid.raw),
                eid_index: info.eid_index,
            },
            (SetupStep::Context { eid, .. }, SetupReply::Object(ctx)) => {
                if ctx == 0 {
                    let mut text = "urma_create_context failed for device ".to_string();
                    text.append(config.device.as_str());
                    SetupStep::Failed(text)
                } else {
                    SetupStep::Jfc { ctx, eid }
                }
            },
            (SetupStep::Jfc { ctx, eid }, SetupReply::Object(jfc)) => {
                if jfc == 0 {
                    SetupStep::DropContext { ctx }
                } else {
                    Self::jetties(&config, ctx, jfc, eid, Vec::new(), Vec::new())
                }
            },
            (SetupStep::DropContext { .. }, SetupReply::Status(_)) => {
                let mut text = "urma_create_jfc failed (depth ".to_string();
                push_decimal(&mut text, config.jfc_depth as u64);
                text.append(")");
                SetupStep::Failed(text)
            },
            (
                SetupStep::Jetty { ctx, jfc, eid, jettys, jetty_ids },
                SetupReply::Object(jetty),
            ) => {
                if jetty == 0 {
                    SetupStep::Failed("urma_create_jetty failed".to_string())
                } else {
                    SetupStep::JettyId { ctx, jfc, eid, jettys, jetty_ids, jetty }
                }
            },
            (
                SetupStep::JettyId { ctx, jfc, eid, mut jettys, mut jetty_ids, jetty },
                SetupReply::JettyId(id),
            ) => {
                jettys.push(jetty);
                jetty_ids.push(id);
                Self::jetties(&config, ctx, jfc, eid, jettys, jetty_ids)
            },
            (step, _) => step,
        };
        DriverSetup { config, step }
    }
}

/// The setup after a sequence of replies.
pub open spec fn setup_run(
    config: LibUrmaDriverConfig,
    now: SetupView,
    replies: Seq<SetupReply>,
) -> SetupView
    decreases replies.len(),
{
    if replies.len() == 0 {
        now
    } else {
        setup_run(config, setup_next(config, now, replies[0]), replies.skip(1))
    }
}

/// What holds at every point of a setup: the objects created so far exist,
/// and there is one id for each jetty.
pub open spec fn setup_sound(config: LibUrmaDriverConfig, now: SetupView) -> bool {
    match now {
        SetupView::Jfc { ctx, .. } | SetupView::DropContext { ctx } => ctx != 0,
        SetupView::Jetty { ctx, jfc, jettys, jetty_ids, .. } => {
            &&& ctx != 0
            &&& jfc != 0
            &&& jetty_ids.len() == jettys.len() < config.jetty_count
            &&& !jettys.contains(0)
        },
        SetupView::JettyId { ctx, jfc, jettys, jetty_ids, jetty, .. } => {
            &&& ctx != 0
            &&& jfc != 0
            &&& jetty_ids.len() == jettys.len() < config.jetty_count
            &&& !jettys.contains(0)
            &&& jetty != 0
        },
        SetupView::Ready(driver) => {
            &&& driver.ctx != 0
            &&& driver.jfc != 0
            &&& driver.jettys.len() == config.jetty_count
            &&& driver.local.jetty_ids.len() == config.jetty_count
            &&& !driver.jettys.contains(0)
            &&& driver.local.device == config.device@
            &&& driver.max_wr == config.max_wr
            &&& !driver.shutdown
        },
        _ => true,
    }
}

/// Whatever the library answers, a driver that comes up has a context, a JFC
/// and exactly the configured number of jetties, none of them null, advertises
/// one id for each of them under the configured device name, and is live.
pub proof fn law_setup_yields_configured_driver(
    config: LibUrmaDriverConfig,
    now: SetupView,
    replies: Seq<SetupReply>,
)
    requires
        setup_sound(config, now),
    ensures
        setup_sound(config, setup_run(config, now, replies)),
    decreases replies.len(),
{
    if replies.len() > 0 {
        law_setup_yields_configured_driver(
            config,
            setup_next(config, now, replies[0]),
            replies.skip(1),
        );
    }
}

/// The setup deletes its context exactly when the JFC could not be created.
pub proof fn law_context_is_dropped_without_jfc(
    config: LibUrmaDriverConfig,
    now: SetupView,
    reply: SetupReply,
)
    requires
        setup_expects(now, reply),
    ensures
        setup_next(config, now, reply) is DropContext <==> now is Jfc && reply
            == SetupReply::Object(0),
{
}

// Registering regions.

impl DriverView {
    /// Why the driver takes no more work.
    pub open spec fn refusal(self) -> Option<Seq<char>> {
        if self.shutdown {
            Some("urma driver is shut down"@)
        } else {
            None
        }
    }

    /// Whether the region registered at `base` contains the address.
    pub open spec fn covers(self, base: usize, addr: u64) -> bool {
        &&& self.registered.contains_key(base)
        &&& base <= addr < base + self.registered[base].len
    }

    /// Whether no registered region contains the address.
    pub open spec fn lacks(self, addr: u64) -> bool {
        forall|base: usize| !#[trigger] self.covers(base, addr)
    }
}

/// Segment settings of a registration: the region, the shared token, the
/// flags of its access, everything else at its initial value.
pub open spec fn is_seg_cfg(
    addr: usize,
    len: u64,
    access: RegionAccess,
    cfg: urma_seg_cfg_t,
) -> bool {
    &&& cfg.va == addr
    &&& cfg.len == len
    &&& cfg.token_value.token == UB_TOKEN
    &&& is_registration_flag(access, cfg.flag.value)
    &&& cfg.token_id == 0
    &&& cfg.user_ctx == 0
    &&& cfg.iova == 0
}

impl LibUrmaDriver {
    /// The identity that the driver advertises.
    pub fn local_handle(&self) -> (handle: UbLocalHandle)
        ensures
            handle@ == self@.local,
    {
        self.local.duplicate()
    }

    /// Number of jetties advertised to peers.
    pub fn jetty_count(&self) -> (count: usize)
        ensures
            count == self@.jettys.len(),
    {
        self.jettys.len()
    }

    /// Configured per-jetty send depth.
    pub fn max_wr(&self) -> (depth: u32)
        ensures
            depth == self@.max_wr,
    {
        self.max_wr
    }

    /// The completion queue that [`LibUrmaDriver::poll_completions`] drains.
    pub fn jfc(&self) -> (jfc: u64)
        ensures
            jfc == self@.jfc,
    {
        self.jfc
    }

    /// Refuse work once the driver has been shut down.
    pub fn ensure_live(&self) -> (live: Result<(), String>)
        ensures
            match live {
                Ok(()) => self@.refusal() is None,
                Err(text) => self@.refusal() == Some(text@),
            },
    {
        if self.shutdown {
            return Err("urma driver is shut down".to_string());
        }
        Ok(())
    }

    /// The `urma_register_seg` call that registers `[addr, addr + len)`: the
    /// context and the segment settings.
    pub fn register_call(&self, addr: usize, len: u64, access: RegionAccess) -> (call: Result<
        (u64, urma_seg_cfg_t),
        String,
    >)
        ensures
            match call {
                Ok((ctx, cfg)) => {
                    &&& self@.refusal() is None
                    &&& ctx == self@.ctx
                    &&& is_seg_cfg(addr, len, access, cfg)
                },
                Err(text) => self@.refusal() == Some(text@),
            },
    {
        match self.ensure_live() {
            Ok(()) => {},
            Err(text) => {
                return Err(text);
            },
        }
        let mut cfg = urma_seg_cfg_t::default();
        cfg.va = addr as u64;
        cfg.len = len;
        cfg.token_value = urma_token_t { token: UB_TOKEN };
        cfg.flag = urma_reg_seg_flag_t { value: flag_value_reg(access) };
        Ok((self.ctx, cfg))
    }

    /// Record the outcome of registering `[addr, addr + len)`: the target
    /// segment with its public form, or `None` if the library refused. A
    /// region already registered at the address is replaced.
    pub fn register_region(
        &mut self,
        addr: usize,
        len: u64,
        tseg: Option<(u64, urma_seg_t)>,
    ) -> (region: Result<RegionWire, String>)
        ensures
            match (tseg, region) {
                (Some((tseg, seg)), Ok(region)) => {
                    &&& region.wire@ == urma_sys::seg_wire(seg@)
                    &&& region.base_va == addr
                    &&& final(self)@ == (DriverView {
                        registered: old(self)@.registered.insert(addr, Registration { tseg, len }),
                        ..old(self)@
                    })
                },
                (None, Err(text)) => {
                    &&& text@ == "urma_register_seg failed for "@ + crate::text::prefixed_hex(
                        addr as nat,
                    ) + " len "@ + crate::text::decimal(len as nat)
                    &&& final(self)@ == old(self)@
                },
                _ => false,
            },
    {
        match tseg {
            Some((tseg, seg)) => {
                let wire = seg.to_wire();
                self.registered.insert(addr, Registration { tseg, len });
                Ok(RegionWire { wire, base_va: addr as u64 })
            },
            None => {
                let mut text = "urma_register_seg failed for ".to_string();
                push_prefixed_hex(&mut text, addr as u64);
                text.append(" len ");
                push_decimal(&mut text, len);
                Err(text)
            },
        }
    }

    /// Forget the region registered at `addr`, returning the target segment
    /// to hand to `urma_unregister_seg`, if there is one. Its status goes
    /// through [`check_status`].
    pub fn unregister_region(&mut self, addr: usize) -> (tseg: Option<u64>)
        ensures
            tseg == (if old(self)@.registered.contains_key(addr) {
                Some(old(self)@.registered[addr].tseg)
            } else {
                None
            }),
            final(self)@ == (DriverView {
                registered: old(self)@.registered.remove(addr),
                ..old(self)@
            }),
    {
        match self.registered.remove(&addr) {
            Some(registration) => Some(registration.tseg),
            None => None,
        }
    }

    /// The registered regions, in no particular order.
    fn registrations(&self) -> (entries: Vec<(usize, Registration)>)
        ensures
            crate::table::distinct_keys(entries@),
            crate::table::mapping(entries@) == self@.registered,
    {
        let mut entries: Vec<(usize, Registration)> = Vec::new();
        for entry in iter: self.registered.iter()
            invariant
                entries@.len() == iter.index(),
                forall|j: int|
                    0 <= j < entries@.len() ==> (#[trigger] entries@[j]).0 == *iter.seq()[j].0
                        && entries@[j].1 == *iter.seq()[j].1,
        {
            entries.push((*entry.0, *entry.1));
        }
        proof {
            let held = self.registered@;
            let walked = vstd::std_specs::iter::IteratorSpec::remaining(
                &vstd::std_specs::hash::spec_hash_map_iter(&self.registered),
            );
            assert forall|i: int, j: int| 0 <= i < j < entries@.len() implies
                #[trigger] crate::table::Key::id(&entries@[i].0) != #[trigger] crate::table::Key::id(
                &entries@[j].0,
            ) by {
                assert(held.contains_key(*walked[i].0));
                assert(held.contains_key(*walked[j].0));
                assert(walked[i] != walked[j]);
            }
            assert forall|base: usize| #[trigger]
                crate::table::mapping(entries@).contains_key(base) == held.contains_key(base) && (
            held.contains_key(base) ==> crate::table::mapping(entries@)[base] == held[base]) by {
                if held.contains_key(base) {
                    assert(walked.contains((&base, &held[base])));
                    let j = choose|j: int| 0 <= j < walked.len() && walked[j] == (&base, &held[base]);
                    assert(crate::table::Key::id(&entries@[j].0) == base);
                    crate::table::lemma_mapping_at(entries@, j);
                }
                if crate::table::mapping(entries@).contains_key(base) {
                    let j = choose|j: int|
                        0 <= j < entries@.len() && #[trigger] crate::table::Key::id(&entries@[j].0)
                            == base;
                    assert(held.contains_key(*walked[j].0));
                }
            }
            assert(crate::table::mapping(entries@) =~= held);
        }
        entries
    }

    /// The target segment of a registered region that contains the address.
    pub fn local_tseg_for(&self, addr: u64) -> (tseg: Option<u64>)
        ensures
            match tseg {
                Some(tseg) => exists|base: usize| #[trigger]
                    self@.covers(base, addr) && self@.registered[base].tseg == tseg,
                None => forall|base: usize| !#[trigger] self@.covers(base, addr),
            },
            tseg is None ==> self@.lacks(addr),
    {
        let entries = self.registrations();
        let mut i: usize = 0;
        while i < entries.len()
            invariant
                i <= entries@.len(),
                crate::table::distinct_keys(entries@),
                crate::table::mapping(entries@) == self@.registered,
                forall|j: int|
                    0 <= j < i ==> !self@.covers((#[trigger] entries@[j]).0, addr),
            decreases entries@.len() - i,
        {
            let base: u64 = entries[i].0 as u64;
            let registration: Registration = entries[i].1;
            proof {
                crate::table::lemma_mapping_at(entries@, i as int);
            }
            if addr >= base && addr - base < registration.len {
                assert(self@.covers(entries@[i as int].0, addr));
                return Some(registration.tseg);
            }
            i = i + 1;
        }
        assert forall|base: usize| !#[trigger] self@.covers(base, addr) by {
            if self@.registered.contains_key(base) {
                let j = choose|j: int|
                    0 <= j < entries@.len() && #[trigger] crate::table::Key::id(&entries@[j].0) == base;
                assert(entries@[j].0 == base);
            }
        }
        None
    }
}

// Posting reads.

/// A call that posting a read makes.
pub enum ReadCall {
    /// `urma_import_jetty`
    ImportJetty { ctx: u64, rjetty: urma_rjetty_t, token: urma_token_t },
    /// `urma_bind_jetty`
    BindJetty { jetty: u64, tjetty: u64 },
    /// `urma_import_seg`
    ImportSeg {
        ctx: u64,
        seg: urma_seg_t,
        token: urma_token_t,
        addr: u64,
        flag: urma_import_seg_flag_t,
    },
    /// `urma_post_jetty_send_wr`
    PostSend { jetty: u64, wr: urma_jfs_wr_t },
}

/// What a call of a read came back with.
#[derive(Debug, Clone, Copy)]
pub enum ReadReply {
    /// An object, or null.
    Object(u64),
    Status(i32),
}

/// How far posting a read has come.
pub enum ReadStep {
    /// The peer's jetty is being imported, to be bound to `jetty`.
    ImportJetty { jetty: u64 },
    /// `jetty` is being bound to the peer's jetty.
    BindJetty { jetty: u64, tjetty: u64 },
    /// The peer's segment is being imported.
    ImportSeg { bound: BoundJetty, seg: urma_seg_t },
    /// The work request is being posted.
    PostSend { bound: BoundJetty, remote_tseg: u64, local_tseg: u64 },
    Posted,
    Failed(String),
}

impl ReadStep {
    /// The read has failed with the given text.
    pub open spec fn failed_with(self, text: Seq<char>) -> bool {
        self matches ReadStep::Failed(found) && found@ == text
    }
}

/// The cache key of a peer's jetty.
pub open spec fn peer_key(op: UrmaReadOp) -> (Seq<char>, u32) {
    (urma_sys::hex_text(op.peer_eid@), op.peer_jetty_id)
}

/// Where a read goes once both jetty and remote segment are at hand: the
/// request is posted, unless the destination is in no registered region.
pub open spec fn read_with_segment(
    driver: DriverView,
    op: UrmaReadOp,
    with: BoundJetty,
    segment: u64,
    next: ReadStep,
) -> bool {
    match next {
        ReadStep::PostSend { bound, remote_tseg, local_tseg } => {
            &&& bound == with
            &&& remote_tseg == segment
            &&& exists|base: usize| #[trigger]
                driver.covers(base, op.local_addr) && driver.registered[base].tseg == local_tseg
        },
        ReadStep::Failed(text) => {
            &&& forall|base: usize| !#[trigger] driver.covers(base, op.local_addr)
            &&& text@ == "local address "@ + crate::text::prefixed_hex(op.local_addr as nat)
                + " not registered"@
        },
        _ => false,
    }
}

/// Where a read goes once it has a bound jetty: the remote segment comes from
/// the cache, or is imported.
pub open spec fn read_with_jetty(
    driver: DriverView,
    op: UrmaReadOp,
    with: BoundJetty,
    next: ReadStep,
) -> bool {
    let wire = op.remote_wire@;
    if driver.imported.contains_key(wire) {
        read_with_segment(driver, op, with, driver.imported[wire], next)
    } else if wire.len() != urma_sys::URMA_SEG_WIRE_SIZE {
        next.failed_with(
            "invalid remote segment handle ("@ + crate::text::decimal(wire.len()) + " bytes)"@,
        )
    } else {
        next matches ReadStep::ImportSeg { bound, seg } && bound == with && seg@
            == urma_sys::seg_of_wire(wire)
    }
}

/// How a read starts: a driver that is shut down refuses; a peer jetty that
/// is bound is reused; otherwise the next local jetty in turn is to be bound.
pub open spec fn read_begins(
    before: DriverView,
    op: UrmaReadOp,
    after: DriverView,
    next: ReadStep,
) -> bool {
    if before.shutdown {
        after == before && next.failed_with("urma driver is shut down"@)
    } else if before.bound.contains_key(peer_key(op)) {
        after == before && read_with_jetty(before, op, before.bound[peer_key(op)], next)
    } else {
        &&& next == (ReadStep::ImportJetty {
            jetty: before.jettys[before.next_jetty as int % before.jettys.len() as int],
        })
        &&& after == (DriverView {
            next_jetty: if before.next_jetty == usize::MAX {
                0
            } else {
                (before.next_jetty + 1) as usize
            },
            ..before
        })
    }
}

/// Whether `reply` is of the form that the current call comes back with.
pub open spec fn read_expects(now: ReadStep, reply: ReadReply) -> bool {
    match now {
        ReadStep::ImportJetty { .. } | ReadStep::ImportSeg { .. } => reply is Object,
        ReadStep::BindJetty { .. } | ReadStep::PostSend { .. } => reply is Status,
        ReadStep::Posted | ReadStep::Failed(_) => false,
    }
}

/// How a read goes on with what its current call came back with.
pub open spec fn read_goes_on(
    before: DriverView,
    op: UrmaReadOp,
    now: ReadStep,
    reply: ReadReply,
    after: DriverView,
    next: ReadStep,
) -> bool {
    match (now, reply) {
        (ReadStep::ImportJetty { jetty }, ReadReply::Object(tjetty)) => {
            &&& after == before
            &&& if tjetty == 0 {
                next.failed_with(
                    "urma_import_jetty failed for jetty "@ + crate::text::decimal(
                        op.peer_jetty_id as nat,
                    ),
                )
            } else {
                next == (ReadStep::BindJetty { jetty, tjetty })
            }
        },
        (ReadStep::BindJetty { jetty, tjetty }, ReadReply::Status(status)) => {
            match status_error("urma_bind_jetty"@, status) {
                Some(text) => after == before && next.failed_with(text),
                None => {
                    let bound = BoundJetty { jetty, tjetty };
                    &&& after == (DriverView {
                        bound: before.bound.insert(peer_key(op), bound),
                        ..before
                    })
                    &&& read_with_jetty(after, op, bound, next)
                },
            }
        },
        (ReadStep::ImportSeg { bound, .. }, ReadReply::Object(tseg)) => {
            if tseg == 0 {
                after == before && next.failed_with("urma_import_seg failed"@)
            } else {
                &&& after == (DriverView {
                    imported: before.imported.insert(op.remote_wire@, tseg),
                    ..before
                })
                &&& read_with_segment(after, op, bound, tseg, next)
            }
        },
        (ReadStep::PostSend { .. }, ReadReply::Status(status)) => {
            &&& after == before
            &&& match status_error("urma_post_jetty_send_wr"@, status) {
                Some(text) => next.failed_with(text),
                None => next == ReadStep::Posted,
            }
        },
        (_, _) => false,
    }
}

/// The peer's jetty, as an import names it: a reliable connection over the
/// compact transport, the given jetty of the given EID, everything else at
/// its initial value.
pub open spec fn is_rjetty(op: UrmaReadOp, rjetty: urma_rjetty_t) -> bool {
    &&& rjetty.jetty_id.eid.raw == op.peer_eid
    &&& rjetty.jetty_id.id == op.peer_jetty_id
    &&& rjetty.jetty_id.uasid == 0
    &&& rjetty.trans_mode == urma_sys::URMA_TM_RC
    &&& rjetty.policy == urma_sys::URMA_JETTY_GRP_POLICY_RR
    &&& rjetty.type_ == urma_sys::URMA_JETTY
    &&& rjetty.tp_type == urma_sys::URMA_CTP
    &&& rjetty.flag.value == 0
}

/// One element of a scatter/gather list.
pub open spec fn sge(addr: u64, len: u32, tseg: u64) -> urma_sge_t {
    urma_sge_t { addr, len, tseg, user_tseg: 0 }
}

/// The work request of a read: one element of the remote segment as source,
/// one of the local region as destination, completion reported under the
/// read's token.
pub open spec fn is_read_request(
    op: UrmaReadOp,
    bound: BoundJetty,
    remote_tseg: u64,
    local_tseg: u64,
    wr: urma_jfs_wr_t,
) -> bool {
    &&& wr.opcode == urma_sys::URMA_OPC_READ
    &&& wr.flag.value == urma_sys::URMA_JFS_WR_COMPLETE_ENABLE
    &&& wr.tjetty == bound.tjetty
    &&& wr.user_ctx == op.user_ctx
    &&& wr.rw.src.sge@ == seq![sge(op.remote_addr, op.len, remote_tseg)]
    &&& wr.rw.dst.sge@ == seq![sge(op.local_addr, op.len, local_tseg)]
    &&& wr.rw.target_hint == 0
    &&& wr.rw.notify_data == 0
    &&& wr.next == 0
}

/// Whether `call` is what a read does at `now`.
pub open spec fn is_read_call(
    driver: DriverView,
    op: UrmaReadOp,
    now: ReadStep,
    call: Option<ReadCall>,
) -> bool {
    match now {
        ReadStep::ImportJetty { .. } => call matches Some(
            ReadCall::ImportJetty { ctx, rjetty, token },
        ) && ctx == driver.ctx && is_rjetty(op, rjetty) && token.token == UB_TOKEN,
        ReadStep::BindJetty { jetty, tjetty } => call == Some(
            ReadCall::BindJetty { jetty, tjetty },
        ),
        ReadStep::ImportSeg { seg: imported, .. } => call matches Some(
            ReadCall::ImportSeg { ctx, seg, token, addr, flag },
        ) && ctx == driver.ctx && seg == imported && token.token == UB_TOKEN && addr == 0
            && is_import_flag(flag.value),
        ReadStep::PostSend { bound, remote_tseg, local_tseg } => call matches Some(
            ReadCall::PostSend { jetty, wr },
        ) && jetty == bound.jetty && is_read_request(op, bound, remote_tseg, local_tseg, wr),
        ReadStep::Posted | ReadStep::Failed(_) => call is None,
    }
}

/// Posting of one read: library calls, each decided by the caches and by what
/// the calls before came back with.
pub struct ReadPost {
    pub op: UrmaReadOp,
    pub step: ReadStep,
}

impl LibUrmaDriver {
    fn with_segment(&self, op: &UrmaReadOp, bound: BoundJetty, remote_tseg: u64) -> (step: ReadStep)
        ensures
            read_with_segment(self@, *op, bound, remote_tseg, step),
    {
        match self.local_tseg_for(op.local_addr) {
            Some(local_tseg) => ReadStep::PostSend { bound, remote_tseg, local_tseg },
            None => {
                let mut text = "local address ".to_string();
                push_prefixed_hex(&mut text, op.local_addr);
                text.append(" not registered");
                ReadStep::Failed(text)
            },
        }
    }

    fn import_segment(&self, op: &UrmaReadOp, bound: BoundJetty) -> (step: ReadStep)
        ensures
            read_with_jetty(self@, *op, bound, step),
    {
        if let Some(tseg) = self.imported_segs.get(&op.remote_wire) {
            return self.with_segment(op, bound, *tseg);
        }
        match urma_seg_t::from_wire(op.remote_wire.as_slice()) {
            Some(seg) => ReadStep::ImportSeg { bound, seg },
            None => {
                let mut text = "invalid remote segment handle (".to_string();
                push_decimal(&mut text, op.remote_wire.len() as u64);
                text.append(" bytes)");
                ReadStep::Failed(text)
            },
        }
    }

    fn bound_jetty(&mut self, op: &UrmaReadOp) -> (step: ReadStep)
        requires
            old(self)@.jettys.len() > 0,
            !old(self)@.shutdown,
        ensures
            read_begins(old(self)@, *op, final(self)@, step),
    {
        let key = (urma_sys::eid_to_hex(&op.peer_eid), op.peer_jetty_id);
        if let Some(bound) = self.bound.get(&key) {
            let bound: BoundJetty = *bound;
            return self.import_segment(op, bound);
        }
        let index: usize = self.next_jetty % self.jettys.len();
        let jetty: u64 = self.jettys[index];
        self.next_jetty = self.next_jetty.wrapping_add(1);
        ReadStep::ImportJetty { jetty }
    }

    /// Start posting a read.
    pub fn post_read(&mut self, op: UrmaReadOp) -> (post: ReadPost)
        requires
            old(self)@.jettys.len() > 0,
        ensures
            post.op == op,
            read_begins(old(self)@, op, final(self)@, post.step),
    {
        match self.ensure_live() {
            Ok(()) => {},
            Err(text) => {
                return ReadPost { op, step: ReadStep::Failed(text) };
            },
        }
        let step = self.bound_jetty(&op);
        ReadPost { op, step }
    }

    /// The next call of a read; `None` when it has ended.
    pub fn read_call(&self, post: &ReadPost) -> (call: Option<ReadCall>)
        ensures
            is_read_call(self@, post.op, post.step, call),
    {
        match &post.step {
            ReadStep::ImportJetty { .. } => {
                let mut rjetty = urma_rjetty_t::default();
                rjetty.trans_mode = urma_sys::URMA_TM_RC;
                rjetty.policy = urma_sys::URMA_JETTY_GRP_POLICY_RR;
                rjetty.type_ = urma_sys::URMA_JETTY;
                rjetty.tp_type = urma_sys::URMA_CTP;
                rjetty.jetty_id.eid = urma_eid_t { raw: post.op.peer_eid };
                rjetty.jetty_id.id = post.op.peer_jetty_id;
                Some(
                    ReadCall::ImportJetty {
                        ctx: self.ctx,
                        rjetty,
                        token: urma_token_t { token: UB_TOKEN },
                    },
                )
            },
            ReadStep::BindJetty { jetty, tjetty } => Some(
                ReadCall::BindJetty { jetty: *jetty, tjetty: *tjetty },
            ),
            ReadStep::ImportSeg { seg, .. } => Some(
                ReadCall::ImportSeg {
                    ctx: self.ctx,
                    seg: *seg,
                    token: urma_token_t { token: UB_TOKEN },
                    addr: 0,
                    flag: urma_import_seg_flag_t { value: flag_value_import() },
                },
            ),
            ReadStep::PostSend { bound, remote_tseg, local_tseg } => {
                let op = &post.op;
                let mut wr = urma_jfs_wr_t::default();
                wr.opcode = urma_sys::URMA_OPC_READ;
                wr.flag = urma_jfs_wr_flag_t { value: urma_sys::URMA_JFS_WR_COMPLETE_ENABLE };
                wr.tjetty = bound.tjetty;
                wr.user_ctx = op.user_ctx;
                wr.rw.src.sge.push(
                    urma_sge_t {
                        addr: op.remote_addr,
                        len: op.len,
                        tseg: *remote_tseg,
                        user_tseg: 0,
                    },
                );
                wr.rw.dst.sge.push(
                    urma_sge_t {
                        addr: op.local_addr,
                        len: op.len,
                        tseg: *local_tseg,
                        user_tseg: 0,
                    },
                );
                assert(wr.rw.src.sge@ =~= seq![sge(op.remote_addr, op.len, *remote_tseg)]);
                assert(wr.rw.dst.sge@ =~= seq![sge(op.local_addr, op.len, *local_tseg)]);
                Some(ReadCall::PostSend { jetty: bound.jetty, wr })
            },
            ReadStep::Posted => None,
            ReadStep::Failed(_) => None,
        }
    }

    /// Go on with what the call of a read came back with.
    pub fn advance_read(&mut self, post: ReadPost, reply: ReadReply) -> (next: ReadPost)
        requires
            read_expects(post.step, reply),
        ensures
            next.op == post.op,
            read_goes_on(old(self)@, post.op, post.step, reply, final(self)@, next.step),
    {
        let ReadPost { op, step } = post;
        let next = match (step, reply) {
            (ReadStep::ImportJetty { jetty }, ReadReply::Object(tjetty)) => {
                if tjetty == 0 {
                    let mut text = "urma_import_jetty failed for jetty ".to_string();
                    push_decimal(&mut text, op.peer_jetty_id as u64);
                    ReadStep::Failed(text)
                } else {
                    ReadStep::BindJetty { jetty, tjetty }
                }
            },
            (ReadStep::BindJetty { jetty, tjetty }, ReadReply::Status(status)) => {
                match check_status("urma_bind_jetty", status) {
                    Err(text) => ReadStep::Failed(text),
                    Ok(()) => {
                        let key = (urma_sys::eid_to_hex(&op.peer_eid), op.peer_jetty_id);
                        let bound = BoundJetty { jetty, tjetty };
                        self.bound.insert(key, bound);
                        self.import_segment(&op, bound)
                    },
                }
            },
            (ReadStep::ImportSeg { bound, .. }, ReadReply::Object(tseg)) => {
                if tseg == 0 {
                    ReadStep::Failed("urma_import_seg failed".to_string())
                } else {
                    let wire = copy_bytes(op.remote_wire.as_slice());
                    self.imported_segs.insert(wire, tseg);
                    self.with_segment(&op, bound, tseg)
                }
            },
            (ReadStep::PostSend { .. }, ReadReply::Status(status)) => {
                match check_status("urma_post_jetty_send_wr", status) {
                    Err(text) => ReadStep::Failed(text),
                    Ok(()) => ReadStep::Posted,
                }
            },
            (step, _) => step,
        };
        ReadPost { op, step: next }
    }

    /// How many completions to ask `urma_poll_jfc` for when the caller has room
    /// for `limit` of them.
    pub fn poll_request(limit: usize) -> (count: usize)
        ensures
            count == (if limit < BATCH {
                limit
            } else {
                BATCH
            }),
    {
        if limit < BATCH {
            limit
        } else {
            BATCH
        }
    }

    /// Turn what `urma_poll_jfc` returned, and the completion records that it
    /// filled in, into completions appended to `out`.
    pub fn poll_completions(
        polled: i32,
        records: &[urma_cr_t],
        out: &mut Vec<UrmaCompletion>,
    ) -> (count: usize)
        requires
            polled <= records@.len(),
        ensures
            count == (if polled <= 0 { 0 } else { polled as int }),
            final(out)@ == old(out)@ + records@.take(count as int).map_values(
                |record: urma_cr_t|
                    UrmaCompletion { user_ctx: record.user_ctx, status: record.status },
            ),
    {
        let ghost completion = |record: urma_cr_t|
            UrmaCompletion { user_ctx: record.user_ctx, status: record.status };
        let ghost before = out@;
        if polled <= 0 {
            assert(out@ =~= before + records@.take(0).map_values(completion));
            return 0;
        }
        let count: usize = polled as usize;
        let mut i: usize = 0;
        assert(out@ =~= before + records@.take(0).map_values(completion));
        while i < count
            invariant
                i <= count <= records@.len(),
                completion == (|record: urma_cr_t|
                    UrmaCompletion { user_ctx: record.user_ctx, status: record.status }),
                out@ == before + records@.take(i as int).map_values(completion),
            decreases count - i,
        {
            let record = &records[i];
            out.push(UrmaCompletion { user_ctx: record.user_ctx, status: record.status });
            assert(out@ =~= before + records@.take(i + 1).map_values(completion));
            i = i + 1;
        }
        count
    }
}

// Taking the driver down.

/// A call that taking the driver down makes.
#[derive(Debug, Clone, Copy)]
pub enum TeardownCall {
    /// `urma_unregister_seg`
    UnregisterSeg { tseg: u64 },
    /// `urma_unimport_seg`
    UnimportSeg { tseg: u64 },
    /// `urma_unbind_jetty`
    UnbindJetty { jetty: u64 },
    /// `urma_unimport_jetty`
    UnimportJetty { tjetty: u64 },
    /// `urma_delete_jetty`
    DeleteJetty { jetty: u64 },
    /// `urma_delete_jfc`
    DeleteJfc { jfc: u64 },
    /// `urma_delete_context`
    DeleteContext { ctx: u64 },
    /// `urma_uninit`
    Uninit,
}

/// Calls that release the registered regions.
pub open spec fn unregister_calls(entries: Seq<(usize, Registration)>) -> Seq<TeardownCall> {
    entries.map_values(
        |entry: (usize, Registration)| TeardownCall::UnregisterSeg { tseg: entry.1.tseg },
    )
}

/// Calls that release the imported segments.
pub open spec fn unimport_calls(entries: Seq<(Vec<u8>, u64)>) -> Seq<TeardownCall> {
    entries.map_values(|entry: (Vec<u8>, u64)| TeardownCall::UnimportSeg { tseg: entry.1 })
}

/// Calls that release the bound jetties: each is unbound, then unimported.
pub open spec fn unbind_calls(entries: Seq<((String, u32), BoundJetty)>) -> Seq<TeardownCall>
    decreases entries.len(),
{
    if entries.len() == 0 {
        Seq::empty()
    } else {
        unbind_calls(entries.drop_last()).push(
            TeardownCall::UnbindJetty { jetty: entries.last().1.jetty },
        ).push(TeardownCall::UnimportJetty { tjetty: entries.last().1.tjetty })
    }
}

/// Calls that delete the driver's own jetties.
pub open spec fn delete_calls(jettys: Seq<u64>) -> Seq<TeardownCall> {
    jettys.map_values(|jetty: u64| TeardownCall::DeleteJetty { jetty })
}

/// Whether `calls` releases everything that the driver holds, each object
/// once: regions, imported segments, bound jetties, its own jetties, and at
/// last the JFC, the context and the library. Within the first three groups
/// the order is open.
pub open spec fn is_teardown(driver: DriverView, calls: Seq<TeardownCall>) -> bool {
    exists|
        registered: Seq<(usize, Registration)>,
        imported: Seq<(Vec<u8>, u64)>,
        bound: Seq<((String, u32), BoundJetty)>,
    |
        {
            &&& #[trigger] crate::table::distinct_keys(registered)
            &&& #[trigger] crate::table::distinct_keys(imported)
            &&& #[trigger] crate::table::distinct_keys(bound)
            &&& crate::table::mapping(registered) == driver.registered
            &&& crate::table::mapping(imported) == driver.imported
            &&& crate::table::mapping(bound) == driver.bound
            &&& calls == unregister_calls(registered) + unimport_calls(imported) + unbind_calls(
                bound,
            ) + delete_calls(driver.jettys) + seq![
                TeardownCall::DeleteJfc { jfc: driver.jfc },
                TeardownCall::DeleteContext { ctx: driver.ctx },
                TeardownCall::Uninit,
            ]
        }
}

impl LibUrmaDriver {
    /// Take the driver down, returning the calls that release its resources,
    /// in order. Idempotent: a driver that is down has nothing to release.
    pub fn shutdown(&mut self) -> (calls: Vec<TeardownCall>)
        ensures
            old(self)@.shutdown ==> calls@ == Seq::<TeardownCall>::empty() && final(self)@ == old(
                self,
            )@,
            !old(self)@.shutdown ==> is_teardown(old(self)@, calls@),
            final(self)@ == (DriverView {
                shutdown: true,
                registered: if old(self)@.shutdown {
                    old(self)@.registered
                } else {
                    Map::empty()
                },
                imported: if old(self)@.shutdown {
                    old(self)@.imported
                } else {
                    Map::empty()
                },
                bound: if old(self)@.shutdown {
                    old(self)@.bound
                } else {
                    Map::empty()
                },
                ..old(self)@
            }),
    {
        let mut calls: Vec<TeardownCall> = Vec::new();
        if self.shutdown {
            return calls;
        }
        let ghost before = self@;
        self.shutdown = true;
        let registered = self.registrations();
        self.registered.clear();
        let imported = self.imported_segs.drain();
        let bound = self.bound.drain();

        let mut i: usize = 0;
        assert(calls@ =~= unregister_calls(registered@.take(0)));
        while i < registered.len()
            invariant
                i <= registered@.len(),
                calls@ == unregister_calls(registered@.take(i as int)),
            decreases registered@.len() - i,
        {
            calls.push(TeardownCall::UnregisterSeg { tseg: registered[i].1.tseg });
            assert(calls@ =~= unregister_calls(registered@.take(i + 1)));
            i = i + 1;
        }
        assert(registered@.take(registered@.len() as int) =~= registered@);

        let ghost first = calls@;
        i = 0;
        assert(calls@ =~= first + unimport_calls(imported@.take(0)));
        while i < imported.len()
            invariant
                i <= imported@.len(),
                calls@ == first + unimport_calls(imported@.take(i as int)),
            decreases imported@.len() - i,
        {
            calls.push(TeardownCall::UnimportSeg { tseg: imported[i].1 });
            assert(calls@ =~= first + unimport_calls(imported@.take(i + 1)));
            i = i + 1;
        }
        assert(imported@.take(imported@.len() as int) =~= imported@);

        let ghost second = calls@;
        i = 0;
        assert(calls@ =~= second + unbind_calls(bound@.take(0)));
        while i < bound.len()
            invariant
                i <= bound@.len(),
                calls@ == second + unbind_calls(bound@.take(i as int)),
            decreases bound@.len() - i,
        {
            calls.push(TeardownCall::UnbindJetty { jetty: bound[i].1.jetty });
            calls.push(TeardownCall::UnimportJetty { tjetty: bound[i].1.tjetty });
            assert(bound@.take(i + 1).drop_last() =~= bound@.take(i as int));
            assert(calls@ =~= second + unbind_calls(bound@.take(i + 1)));
            i = i + 1;
        }
        assert(bound@.take(bound@.len() as int) =~= bound@);

        let ghost third = calls@;
        i = 0;
        assert(calls@ =~= third + delete_calls(self.jettys@.take(0)));
        while i < self.jettys.len()
            invariant
                i <= self.jettys@.len(),
                calls@ == third + delete_calls(self.jettys@.take(i as int)),
            decreases self.jettys@.len() - i,
        {
            calls.push(TeardownCall::DeleteJetty { jetty: self.jettys[i] });
            assert(calls@ =~= third + delete_calls(self.jettys@.take(i + 1)));
            i = i + 1;
        }
        assert(self.jettys@.take(self.jettys@.len() as int) =~= self.jettys@);

        let ghost fourth = calls@;
        calls.push(TeardownCall::DeleteJfc { jfc: self.jfc });
        calls.push(TeardownCall::DeleteContext { ctx: self.ctx });
        calls.push(TeardownCall::Uninit);
        proof {
            assert(calls@ =~= fourth + seq![
                TeardownCall::DeleteJfc { jfc: before.jfc },
                TeardownCall::DeleteContext { ctx: before.ctx },
                TeardownCall::Uninit,
            ]);
            assert(crate::table::distinct_keys(registered@));
            assert(crate::table::distinct_keys(imported@));
            assert(crate::table::distinct_keys(bound@));
        }
        calls
    }
}

/// A driver that has been shut down refuses every read at once, without a
/// library call and without changing.
pub proof fn law_shut_down_driver_refuses_reads(
    before: DriverView,
    op: UrmaReadOp,
    after: DriverView,
    next: ReadStep,
)
    requires
        before.shutdown,
        read_begins(before, op, after, next),
    ensures
        next.failed_with("urma driver is shut down"@),
        after == before,
{
}

/// Once a read has bound a peer's jetty and imported its segment, every later
/// read from the same segment of the same peer goes straight to posting its
/// work request, provided its destination is registered.
pub proof fn law_second_read_only_posts(
    bound_before: DriverView,
    first: UrmaReadOp,
    jetty: u64,
    tjetty: u64,
    status: i32,
    bound_after: DriverView,
    import: ReadStep,
    tseg: u64,
    imported: DriverView,
    posting: ReadStep,
    second: UrmaReadOp,
    after: DriverView,
    next: ReadStep,
    base: usize,
)
    requires
        !bound_before.shutdown,
        read_goes_on(
            bound_before,
            first,
            ReadStep::BindJetty { jetty, tjetty },
            ReadReply::Status(status),
            bound_after,
            import,
        ),
        import is ImportSeg,
        read_goes_on(
            bound_after,
            first,
            import,
            ReadReply::Object(tseg),
            imported,
            posting,
        ),
        posting is PostSend,
        second.peer_eid == first.peer_eid,
        second.peer_jetty_id == first.peer_jetty_id,
        second.remote_wire@ == first.remote_wire@,
        imported.covers(base, second.local_addr),
        read_begins(imported, second, after, next),
    ensures
        after == imported,
        next matches ReadStep::PostSend { bound, remote_tseg, .. } && bound == (BoundJetty {
            jetty,
            tjetty,
        }) && remote_tseg == tseg,
{
}

/// Peers that are not bound yet take the local jetties in turn: of as many
/// consecutive bindings as there are jetties, each starts from a jetty of
/// its own, unless the counter wraps in between.
pub proof fn law_jetties_take_turns(jettys: Seq<u64>, start: usize, i: int, j: int)
    requires
        jettys.len() > 0,
        0 <= i < j < jettys.len(),
        start + j <= usize::MAX,
    ensures
        (start + i) % jettys.len() as int != (start + j) % jettys.len() as int,
{
    let n = jettys.len() as int;
    let (a, b) = (start + i, start + j);
    if a % n == b % n {
        vstd::arithmetic::div_mod::lemma_fundamental_div_mod(a, n);
        vstd::arithmetic::div_mod::lemma_fundamental_div_mod(b, n);
        let (qa, qb) = (a / n, b / n);
        assert(b - a == n * (qb - qa)) by (nonlinear_arith)
            requires
                a == n * qa + a % n,
                b == n * qb + b % n,
                a % n == b % n,
        ;
        assert(n * (qb - qa) >= n) by (nonlinear_arith)
            requires
                n * (qb - qa) > 0,
                n > 0,
        ;
    }
}

/// A region that has been registered is found for every address in it, and
/// one that has been unregistered is not found through its base any more;
/// other regions are found as before.
pub proof fn law_registrations_cover_their_region(
    driver: DriverView,
    addr: usize,
    registration: Registration,
    at: u64,
    other: usize,
)
    requires
        other != addr,
    ensures
        ({
            let registered = DriverView {
                registered: driver.registered.insert(addr, registration),
                ..driver
            };
            let unregistered = DriverView {
                registered: registered.registered.remove(addr),
                ..registered
            };
            &&& registered.covers(addr, at) <==> addr <= at < addr + registration.len
            &&& registered.covers(other, at) == driver.covers(other, at)
            &&& !unregistered.covers(addr, at)
            &&& unregistered.covers(other, at) == driver.covers(other, at)
        }),
{
}

/// A call succeeded exactly when its status is zero or says that the object
/// exists already; a failure names the call and ends with the status.
pub proof fn law_statuses(op: &str, status: i32, checked: Result<(), String>)
    requires
        call_ensures(check_status, (op, status), checked),
    ensures
        checked is Ok <==> status == 0 || status == 17,
        checked matches Err(text) ==> crate::text::begins_with(text@, op@)
            && crate::text::ends_with(text@, crate::text::signed_decimal(status as int)),
{
    let middle = op@ + " failed with urma status "@;
    crate::text::lemma_ends_with(middle, crate::text::signed_decimal(status as int));
    if let Err(text) = checked {
        assert(text@.take(op@.len() as int) =~= op@);
    }
}

/// What peers may read is registered for reading and nothing else, what is
/// local for nobody else, and an import asks for all that a peer can grant:
/// in the bits that the library has for it.
pub proof fn law_access_flags(
    read: u32,
    local: u32,
    import: u32,
)
    requires
        call_ensures(flag_value_reg, (RegionAccess::RemoteRead,), read),
        call_ensures(flag_value_reg, (RegionAccess::LocalOnly,), local),
        call_ensures(flag_value_import, (), import),
    ensures
        read == 0x2 * 32,
        local == 0x1 * 32,
        import == (0x2 + 0x4 + 0x8) * 2,
{
}

/// A registration is asked for exactly while the driver is live, for the
/// region and the access that are wanted. Once the library has granted it, the
/// region's handle starts at the region and its bytes read back as the segment
/// that the library gave, and every address of the region is found registered;
/// forgetting the region hands its segment back.
pub proof fn law_regions_are_registered(
    driver: LibUrmaDriver,
    addr: usize,
    len: u64,
    access: RegionAccess,
    call: Result<(u64, urma_seg_cfg_t), String>,
    live: Result<(), String>,
    flag: u32,
    registering: &mut LibUrmaDriver,
    granted: Option<(u64, urma_seg_t)>,
    region: Result<RegionWire, String>,
    wire: &[u8],
    read: Option<urma_seg_t>,
    at: u64,
    found: Option<u64>,
    forgetting: &mut LibUrmaDriver,
    tseg: Option<u64>,
    other: usize,
)
    requires
        call_ensures(LibUrmaDriver::ensure_live, (&driver,), live),
        call_ensures(LibUrmaDriver::register_call, (&driver, addr, len, access), call),
        call_ensures(flag_value_reg, (access,), flag),
        call_ensures(
            LibUrmaDriver::register_region,
            (registering, addr, len, granted),
            region,
        ),
        region matches Ok(region) ==> wire@ == region.wire@,
        call_ensures(urma_seg_t::from_wire, (wire,), read),
        addr <= at < addr + len,
        call_ensures(LibUrmaDriver::local_tseg_for, (&*final(registering), at), found),
        old(forgetting)@ == final(registering)@,
        call_ensures(LibUrmaDriver::unregister_region, (forgetting, addr), tseg),
        other != addr,
    ensures
        live is Ok <==> !driver@.shutdown,
        call is Ok <==> !driver@.shutdown,
        call matches Ok((ctx, cfg)) ==> {
            &&& ctx == driver@.ctx
            &&& cfg.va == addr
            &&& cfg.len == len
            &&& cfg.token_value.token == 0xACFE
            &&& cfg.flag.value == flag
            &&& cfg.token_id == 0
            &&& cfg.user_ctx == 0
            &&& cfg.iova == 0
        },
        region is Ok <==> granted is Some,
        granted matches Some((object, seg)) ==> {
            &&& region->Ok_0.base_va == addr
            &&& read matches Some(read) && read.ubva.eid@ == seg.ubva.eid@ && read.ubva.uasid
                == seg.ubva.uasid && read.ubva.va == seg.ubva.va && read.len == seg.len
                && read.attr.value == seg.attr.value && read.token_id == seg.token_id
            &&& found is Some
            &&& tseg == Some(object)
        },
        granted is None ==> final(registering)@ == old(registering)@,
        !final(forgetting)@.registered.contains_key(addr),
        final(forgetting)@.registered.contains_key(other) == old(registering)@.registered.contains_key(other),
        final(forgetting)@.registered.contains_key(other) ==> final(forgetting)@.registered[other] == old(registering)@.registered[other],
{
    if let Some((object, seg)) = granted {
        urma_sys::law_seg_wire_round_trip(seg@);
        assert(final(registering)@.covers(addr, at));
    }
}

/// The segment that is found for an address is that of a registered region
/// that holds it, and one is found whenever there is such a region.
pub proof fn law_addresses_find_their_region(
    driver: LibUrmaDriver,
    addr: u64,
    found: Option<u64>,
    base: usize,
)
    requires
        call_ensures(LibUrmaDriver::local_tseg_for, (&driver, addr), found),
    ensures
        driver@.registered.contains_key(base) && base <= addr && addr < base
            + driver@.registered[base].len ==> found is Some,
        found matches Some(tseg) ==> exists|at: usize|
            {
                &&& #[trigger] driver@.registered.contains_key(at)
                &&& at <= addr
                &&& addr < at + driver@.registered[at].len
                &&& driver@.registered[at].tseg == tseg
            },
{
    if driver@.registered.contains_key(base) && base <= addr && addr < base
        + driver@.registered[base].len {
        assert(driver@.covers(base, addr));
    }
    if let Some(tseg) = found {
        let at = choose|at: usize| #[trigger]
            driver@.covers(at, addr) && driver@.registered[at].tseg == tseg;
        assert(driver@.registered.contains_key(at));
    }
}

/// A driver that is down refuses a read. One that is up reuses what it has
/// bound for the peer's jetty, and otherwise imports it for its own next jetty
/// in turn.
pub proof fn law_reads_begin(
    driver: &mut LibUrmaDriver,
    op: UrmaReadOp,
    post: ReadPost,
    key: String,
)
    requires
        old(driver)@.jettys.len() > 0,
        call_ensures(urma_sys::eid_to_hex, (&op.peer_eid,), key),
        call_ensures(LibUrmaDriver::post_read, (driver, op), post),
    ensures
        post.op == op,
        old(driver)@.shutdown ==> post.step is Failed && final(driver)@ == old(driver)@,
        !old(driver)@.shutdown ==> {
            let peer = (key@, op.peer_jetty_id);
            let count = old(driver)@.jettys.len() as int;
            &&& !old(driver)@.bound.contains_key(peer) ==> (post.step matches
                ReadStep::ImportJetty { jetty } && jetty == old(driver)@.jettys[old(driver)@.next_jetty as int % count]) && (old(driver)@.next_jetty < usize::MAX ==> final(driver)@.next_jetty == old(driver)@.next_jetty + 1)
            &&& old(driver)@.bound.contains_key(peer) ==> final(driver)@ == old(driver)@ && (
            match post.step {
                ReadStep::ImportSeg { bound, .. } => bound == old(driver)@.bound[peer],
                ReadStep::PostSend { bound, .. } => bound == old(driver)@.bound[peer],
                _ => post.step is Failed,
            })
        },
        final(driver)@.registered == old(driver)@.registered,
        final(driver)@.imported == old(driver)@.imported,
        final(driver)@.bound == old(driver)@.bound,
        final(driver)@.jettys == old(driver)@.jettys,
{
}

/// With a jetty bound, a read posts at once if the segment is imported already,
/// and otherwise imports the segment that its handle spells, unless the handle
/// is none. It can be posted exactly if its destination is registered, into the
/// region that holds it.
pub proof fn law_bound_reads_go_on(
    driver: &mut LibUrmaDriver,
    op: UrmaReadOp,
    post: ReadPost,
    key: String,
    wire: &[u8],
    read: Option<urma_seg_t>,
    local: Option<u64>,
)
    requires
        old(driver)@.jettys.len() > 0,
        !old(driver)@.shutdown,
        call_ensures(urma_sys::eid_to_hex, (&op.peer_eid,), key),
        old(driver)@.bound.contains_key((key@, op.peer_jetty_id)),
        wire@ == op.remote_wire@,
        call_ensures(urma_seg_t::from_wire, (wire,), read),
        call_ensures(LibUrmaDriver::local_tseg_for, (&*old(driver), op.local_addr), local),
        call_ensures(LibUrmaDriver::post_read, (driver, op), post),
    ensures
        !old(driver)@.imported.contains_key(wire@) ==> {
            &&& read is None ==> post.step is Failed
            &&& read matches Some(read) ==> (post.step matches ReadStep::ImportSeg { seg, .. }
                && seg@ == read@)
        },
        old(driver)@.imported.contains_key(wire@) ==> {
            &&& local is None ==> post.step is Failed
            &&& local is Some ==> (post.step matches ReadStep::PostSend { remote_tseg, .. }
                && remote_tseg == old(driver)@.imported[wire@])
        },
        post.step matches ReadStep::PostSend { local_tseg, .. } ==> exists|base: usize|
            {
                &&& #[trigger] old(driver)@.registered.contains_key(base)
                &&& base <= op.local_addr
                &&& op.local_addr < base + old(driver)@.registered[base].len
                &&& old(driver)@.registered[base].tseg == local_tseg
            },
{
    if let ReadStep::PostSend { local_tseg, .. } = post.step {
        let base = choose|base: usize| #[trigger]
            old(driver)@.covers(base, op.local_addr) && old(driver)@.registered[base].tseg
                == local_tseg;
        assert(old(driver)@.registered.contains_key(base));
    }
}

/// A reply takes a read to its next call: an imported jetty is bound, a bound
/// one is remembered for the peer, an imported segment is remembered for its
/// handle, and a read is posted exactly when the library took its work request.
/// A null object and a failed status end it, and then nothing is remembered.
pub proof fn law_read_replies(
    driver: &mut LibUrmaDriver,
    post: ReadPost,
    reply: ReadReply,
    next: ReadPost,
    key: String,
)
    requires
        read_expects(post.step, reply),
        call_ensures(LibUrmaDriver::advance_read, (driver, post, reply), next),
        call_ensures(urma_sys::eid_to_hex, (&post.op.peer_eid,), key),
    ensures
        next.op == post.op,
        post.step matches ReadStep::ImportJetty { jetty } ==> (reply matches ReadReply::Object(
            object,
        ) ==> {
            &&& object == 0 ==> next.step is Failed
            &&& object != 0 ==> (next.step matches ReadStep::BindJetty { jetty: own, tjetty }
                && own == jetty && tjetty == object)
            &&& final(driver)@ == old(driver)@
        }),
        post.step matches ReadStep::BindJetty { jetty, tjetty } ==> (reply matches
            ReadReply::Status(status) ==> {
            let peer = (key@, post.op.peer_jetty_id);
            &&& status != 0 && status != 17 ==> next.step is Failed && final(driver)@ == old(driver)@
            &&& status == 0 || status == 17 ==> {
                &&& final(driver)@.bound.contains_key(peer)
                &&& final(driver)@.bound[peer].jetty == jetty
                &&& final(driver)@.bound[peer].tjetty == tjetty
                &&& final(driver)@.imported == old(driver)@.imported
                &&& forall|other: (Seq<char>, u32)|
                    other != peer ==> #[trigger] final(driver)@.bound.contains_key(other) == old(driver)@.bound.contains_key(other)
            }
        }),
        post.step matches ReadStep::ImportSeg { bound, .. } ==> (reply matches ReadReply::Object(
            object,
        ) ==> {
            let wire = post.op.remote_wire@;
            &&& object == 0 ==> next.step is Failed && final(driver)@ == old(driver)@
            &&& object != 0 ==> {
                &&& final(driver)@.imported.contains_key(wire)
                &&& final(driver)@.imported[wire] == object
                &&& final(driver)@.bound == old(driver)@.bound
                &&& next.step matches ReadStep::PostSend { bound: with, remote_tseg, .. } ==> with
                    == bound && remote_tseg == object
                &&& next.step is PostSend || next.step is Failed
            }
        }),
        post.step is PostSend ==> (reply matches ReadReply::Status(status) ==> {
            &&& next.step is Posted <==> status == 0 || status == 17
            &&& next.step is Posted || next.step is Failed
            &&& final(driver)@ == old(driver)@
        }),
        final(driver)@.registered == old(driver)@.registered,
        final(driver)@.jettys == old(driver)@.jettys,
        final(driver)@.shutdown == old(driver)@.shutdown,
{
}

/// The work request of a read reads the bytes that the operation names from the
/// remote segment to the place that it names in the local one, and asks to be
/// told under the operation's token when it is done; it goes through the bound
/// jetties. Imports name the peer's jetty and the peer's segment.
pub proof fn law_work_requests_read_what_is_asked(
    driver: LibUrmaDriver,
    post: ReadPost,
    call: Option<ReadCall>,
    import: u32,
)
    requires
        call_ensures(LibUrmaDriver::read_call, (&driver, &post), call),
        call_ensures(flag_value_import, (), import),
    ensures
        call is None <==> post.step is Posted || post.step is Failed,
        post.step matches ReadStep::PostSend { bound, remote_tseg, local_tseg } ==> (call matches
            Some(ReadCall::PostSend { jetty, wr }) && jetty == bound.jetty && wr.tjetty
            == bound.tjetty && wr.opcode == 0x10 && wr.flag.value == 0x20 && wr.user_ctx
            == post.op.user_ctx && wr.rw.src.sge@.len() == 1 && wr.rw.src.sge@[0].addr
            == post.op.remote_addr && wr.rw.src.sge@[0].len == post.op.len
            && wr.rw.src.sge@[0].tseg == remote_tseg && wr.rw.dst.sge@.len() == 1
            && wr.rw.dst.sge@[0].addr == post.op.local_addr && wr.rw.dst.sge@[0].len
            == post.op.len && wr.rw.dst.sge@[0].tseg == local_tseg && wr.next == 0),
        post.step is ImportJetty ==> (call matches Some(
            ReadCall::ImportJetty { ctx, rjetty, token },
        ) && ctx == driver@.ctx && rjetty.jetty_id.eid.raw@ == post.op.peer_eid@
            && rjetty.jetty_id.id == post.op.peer_jetty_id && rjetty.trans_mode == 2
            && rjetty.type_ == 1 && rjetty.tp_type == 1 && rjetty.policy == 0 && token.token
            == 0xACFE),
        post.step matches ReadStep::BindJetty { jetty, tjetty } ==> (call matches Some(
            ReadCall::BindJetty { jetty: own, tjetty: peer },
        ) && own == jetty && peer == tjetty),
        post.step matches ReadStep::ImportSeg { seg, .. } ==> (call matches Some(
            ReadCall::ImportSeg { ctx, seg: named, token, addr, flag },
        ) && ctx == driver@.ctx && named == seg && token.token == 0xACFE && addr == 0
            && flag.value == import),
{
}

/// A second read of the same segment of the same peer needs one library call
/// only: the post.
pub proof fn law_later_reads_only_post(
    importing: &mut LibUrmaDriver,
    first: ReadPost,
    tseg: u64,
    ready: ReadPost,
    driver: &mut LibUrmaDriver,
    second: UrmaReadOp,
    post: ReadPost,
    key: String,
)
    requires
        !old(importing)@.shutdown,
        first.step is ImportSeg,
        tseg != 0,
        call_ensures(urma_sys::eid_to_hex, (&first.op.peer_eid,), key),
        old(importing)@.bound.contains_key((key@, first.op.peer_jetty_id)),
        call_ensures(
            LibUrmaDriver::advance_read,
            (importing, first, ReadReply::Object(tseg)),
            ready,
        ),
        ready.step is PostSend,
        old(driver)@ == final(importing)@,
        old(driver)@.jettys.len() > 0,
        second.peer_eid@ == first.op.peer_eid@,
        second.peer_jetty_id == first.op.peer_jetty_id,
        second.remote_wire@ == first.op.remote_wire@,
        second.local_addr == first.op.local_addr,
        call_ensures(LibUrmaDriver::post_read, (driver, second), post),
    ensures
        post.step matches ReadStep::PostSend { remote_tseg, bound, .. } && remote_tseg == tseg
            && bound == old(importing)@.bound[(key@, first.op.peer_jetty_id)],
        final(driver)@ == old(driver)@,
{
    if let ReadStep::PostSend { local_tseg, .. } = ready.step {
        let base = choose|base: usize| #[trigger]
            final(importing)@.covers(base, first.op.local_addr) && final(importing)@.registered[base].tseg == local_tseg;
        assert(old(driver)@.covers(base, second.local_addr));
    }
    assert(peer_key(second) == (key@, first.op.peer_jetty_id));
}

/// A poll asks for as many completions as there is room for, but at most 64,
/// and reports those that the library filled in, in their order, with their
/// tokens and statuses; a negative count reports none.
pub proof fn law_polls_report_what_was_filled_in(
    limit: usize,
    asked: usize,
    polled: i32,
    records: &[urma_cr_t],
    out: &mut Vec<UrmaCompletion>,
    count: usize,
    i: int,
)
    requires
        polled <= records@.len(),
        call_ensures(LibUrmaDriver::poll_request, (limit,), asked),
        call_ensures(LibUrmaDriver::poll_completions, (polled, records, out), count),
        0 <= i < count,
    ensures
        asked <= limit,
        asked <= 64,
        asked == limit || asked == 64,
        polled >= 0 ==> count == polled,
        final(out)@.len() == old(out)@.len() + count,
        final(out)@.take(old(out)@.len() as int) == old(out)@,
        final(out)@[old(out)@.len() + i].user_ctx == records@[i].user_ctx,
        final(out)@[old(out)@.len() + i].status == records@[i].status,
{
    assert(final(out)@.take(old(out)@.len() as int) =~= old(out)@);
    let filled = records@.take(count as int);
    assert(filled[i] == records@[i]);
}

/// A poll that comes back with nothing, or with a failure, reports nothing.
pub proof fn law_empty_polls_report_nothing(
    polled: i32,
    records: &[urma_cr_t],
    out: &mut Vec<UrmaCompletion>,
    count: usize,
)
    requires
        polled <= 0,
        call_ensures(LibUrmaDriver::poll_completions, (polled, records, out), count),
    ensures
        count == 0,
        final(out)@ == old(out)@,
{
    assert(final(out)@ =~= old(out)@);
}

/// A setup starts by initializing the library. It takes the device that is
/// named, or the first of those there are; the device's first EID; then a
/// context for the two, a completion queue of the configured depth and, one by
/// one, the configured number of jetties. Whatever is missing ends it, and a
/// context without a completion queue is deleted first.
pub proof fn law_setups_go_on(
    made: DriverSetup,
    config: LibUrmaDriverConfig,
    first: Option<SetupCall>,
    setup: DriverSetup,
    reply: SetupReply,
    next: DriverSetup,
    call: Option<SetupCall>,
)
    requires
        call_ensures(DriverSetup::new, (config,), made),
        call_ensures(DriverSetup::call, (&made,), first),
        setup_expects(setup.step@, reply),
        call_ensures(DriverSetup::advance, (setup, reply), next),
        call_ensures(DriverSetup::call, (&next,), call),
    ensures
        made.config == config,
        first matches Some(SetupCall::Init),
        next.config == setup.config,
        call is None <==> next.step is Ready || next.step is Failed,
        setup.step is Init ==> (reply matches SetupReply::Status(status) ==> {
            &&& status != 0 && status != 17 ==> next.step is Failed
            &&& status == 0 || status == 17 ==> {
                &&& setup.config.device@.len() == 0 ==> (call matches Some(SetupCall::DeviceList))
                &&& setup.config.device@.len() > 0 && !setup.config.device@.contains('\0') ==> (
                call matches Some(SetupCall::DeviceByName { name }) && name@
                    == setup.config.device@)
                &&& setup.config.device@.contains('\0') ==> next.step is Failed
            }
        }),
        setup.step is NamedDevice ==> (reply matches SetupReply::Object(device) ==> {
            &&& device == 0 ==> next.step is Failed
            &&& device != 0 ==> (call matches Some(SetupCall::EidList { device: on }) && on
                == device)
        }),
        setup.step is ListedDevice ==> (reply matches SetupReply::List { list, count } ==> {
            &&& list == 0 || count <= 0 ==> next.step is Failed
            &&& list != 0 && count > 0 ==> (call matches Some(SetupCall::FirstDevice { list: of })
                && of == list)
        }),
        setup.step is FirstDevice ==> (reply matches SetupReply::Object(device) ==> (call matches
            Some(SetupCall::EidList { device: on }) && on == device)),
        setup.step matches SetupStep::EidList { device } ==> (reply matches SetupReply::List {
            list,
            count,
        } ==> {
            &&& list == 0 || count == 0 ==> next.step is Failed
            &&& list != 0 && count != 0 ==> (call matches Some(SetupCall::FirstEid { list: of })
                && of == list) && (next.step matches SetupStep::FirstEid { device: on, .. } && on
                == device)
        }),
        setup.step matches SetupStep::FirstEid { device, .. } ==> (reply matches SetupReply::Eid(
            info,
        ) ==> (call matches Some(SetupCall::CreateContext { device: on, eid_index }) && on == device
            && eid_index == info.eid_index) && (next.step matches SetupStep::Context { eid, .. }
            && eid@ == urma_sys::hex_text(info.eid.raw@))),
        setup.step matches SetupStep::Context { eid, .. } ==> (reply matches SetupReply::Object(
            ctx,
        ) ==> {
            &&& ctx == 0 ==> next.step is Failed
            &&& ctx != 0 ==> (call matches Some(SetupCall::CreateJfc { ctx: on, cfg }) && on == ctx
                && cfg.depth == setup.config.jfc_depth && cfg.flag == 0 && cfg.ceqn == 0 && cfg.jfce
                == 0 && cfg.user_ctx == 0) && (next.step matches SetupStep::Jfc { eid: kept, .. }
                && kept@ == eid@)
        }),
        setup.step matches SetupStep::Jfc { ctx, eid } ==> (reply matches SetupReply::Object(jfc)
            ==> {
            &&& jfc == 0 ==> (call matches Some(SetupCall::DeleteContext { ctx: on }) && on == ctx)
            &&& jfc != 0 && setup.config.jetty_count > 0 ==> is_jetty_creation(
                setup.config,
                ctx,
                jfc,
                call,
            ) && (next.step matches SetupStep::Jetty { eid: kept, jettys, jetty_ids, .. } && kept@
                == eid@ && jettys@.len() == 0 && jetty_ids@.len() == 0)
            &&& jfc != 0 && setup.config.jetty_count == 0 ==> (next.step matches SetupStep::Ready(
                driver,
            ) && driver@.ctx == ctx && driver@.jfc == jfc && driver@.jettys.len() == 0
                && driver@.local.eid == eid@ && driver@.local.device == setup.config.device@)
        }),
        setup.step is DropContext ==> next.step is Failed,
        setup.step matches SetupStep::Jetty { jettys, jetty_ids, .. } ==> (reply matches
            SetupReply::Object(jetty) ==> {
            &&& jetty == 0 ==> next.step is Failed
            &&& jetty != 0 ==> (call matches Some(SetupCall::JettyId { jetty: of }) && of == jetty)
                && (next.step matches SetupStep::JettyId { jettys: kept, jetty_ids: ids, .. }
                && kept@ == jettys@ && ids@ == jetty_ids@)
        }),
        setup.step matches SetupStep::JettyId { ctx, jfc, eid, jettys, jetty_ids, jetty } ==> (
        reply matches SetupReply::JettyId(id) ==> {
            &&& jettys@.len() + 1 < setup.config.jetty_count ==> is_jetty_creation(
                setup.config,
                ctx,
                jfc,
                call,
            ) && (next.step matches SetupStep::Jetty { jettys: grown, jetty_ids: ids, .. }
                && grown@ == jettys@.push(jetty) && ids@ == jetty_ids@.push(id))
            &&& jettys@.len() + 1 >= setup.config.jetty_count ==> (next.step matches
                SetupStep::Ready(driver) && driver@.ctx == ctx && driver@.jfc == jfc
                && driver@.jettys == jettys@.push(jetty) && driver@.local.jetty_ids
                == jetty_ids@.push(id) && driver@.local.eid == eid@ && driver@.local.device
                == setup.config.device@ && driver@.max_wr == setup.config.max_wr
                && !driver@.shutdown)
        }),
{
    assert(setup.config.device@.contains('\0') ==> setup.config.device@.len() > 0);
}

/// Whether a call creates a jetty over the completion queue: a reliable
/// connection of the configured depth that moves one element at a time.
pub open spec fn is_jetty_creation(
    config: LibUrmaDriverConfig,
    ctx: u64,
    jfc: u64,
    call: Option<SetupCall>,
) -> bool {
    call matches Some(SetupCall::CreateJetty { ctx: on, cfg }) && on == ctx && cfg.jfs_cfg.jfc
        == jfc && cfg.jfs_cfg.depth == config.max_wr && cfg.jfs_cfg.trans_mode == 2
        && cfg.jfs_cfg.max_sge == 1 && cfg.jfs_cfg.max_rsge == 1 && cfg.jfs_cfg.rnr_retry == 7
        && cfg.jfs_cfg.err_timeout == 17 && cfg.id == 0 && cfg.flag == 0 && cfg.recv.jfr == 0
        && cfg.recv.jfc == 0 && cfg.jetty_grp == 0
}

proof fn lemma_unbind_calls(entries: Seq<((String, u32), BoundJetty)>, i: int)
    requires
        0 <= i < entries.len(),
    ensures
        unbind_calls(entries).len() == 2 * entries.len(),
        unbind_calls(entries)[2 * i] == (TeardownCall::UnbindJetty { jetty: entries[i].1.jetty }),
        unbind_calls(entries)[2 * i + 1] == (TeardownCall::UnimportJetty {
            tjetty: entries[i].1.tjetty,
        }),
    decreases entries.len(),
{
    let front = entries.drop_last();
    if front.len() == 0 {
        assert(unbind_calls(front).len() == 0);
    } else if i < front.len() {
        lemma_unbind_calls(front, i);
        assert(front[i] == entries[i]);
    } else {
        lemma_unbind_calls(front, 0);
    }
}

/// Taking a driver down releases each thing that it holds, once: every
/// registered region, every imported segment, every bound jetty, which is
/// unbound right before the peer's is let go, and its own jetties; then the
/// completion queue, the context and the library, in this order. There is no
/// call for anything else. A driver that is down holds nothing and releases
/// nothing.
pub proof fn law_shutdown_releases_everything(
    driver: &mut LibUrmaDriver,
    calls: Vec<TeardownCall>,
    again: &mut LibUrmaDriver,
    second: Vec<TeardownCall>,
    base: usize,
    wire: Seq<u8>,
    peer: (Seq<char>, u32),
    i: int,
)
    requires
        !old(driver)@.shutdown,
        call_ensures(LibUrmaDriver::shutdown, (driver,), calls),
        old(again)@ == final(driver)@,
        call_ensures(LibUrmaDriver::shutdown, (again,), second),
    ensures
        second@.len() == 0,
        final(driver)@.shutdown,
        final(driver)@.registered.dom().len() == 0,
        final(driver)@.imported.dom().len() == 0,
        final(driver)@.bound.dom().len() == 0,
        old(driver)@.registered.contains_key(base) ==> calls@.contains(
            TeardownCall::UnregisterSeg { tseg: old(driver)@.registered[base].tseg },
        ),
        old(driver)@.imported.contains_key(wire) ==> calls@.contains(
            TeardownCall::UnimportSeg { tseg: old(driver)@.imported[wire] },
        ),
        old(driver)@.bound.contains_key(peer) ==> exists|at: int|
            {
                &&& 0 <= at < calls@.len() - 1
                &&& #[trigger] calls@[at] == (TeardownCall::UnbindJetty {
                    jetty: old(driver)@.bound[peer].jetty,
                })
                &&& calls@[at + 1] == (TeardownCall::UnimportJetty {
                    tjetty: old(driver)@.bound[peer].tjetty,
                })
            },
        0 <= i < old(driver)@.jettys.len() ==> calls@.contains(
            TeardownCall::DeleteJetty { jetty: old(driver)@.jettys[i] },
        ),
        calls@.len() == old(driver)@.registered.dom().len() + old(driver)@.imported.dom().len() + 2
            * old(driver)@.bound.dom().len() + old(driver)@.jettys.len() + 3,
        calls@[calls@.len() - 3] == (TeardownCall::DeleteJfc { jfc: old(driver)@.jfc }),
        calls@[calls@.len() - 2] == (TeardownCall::DeleteContext { ctx: old(driver)@.ctx }),
        calls@[calls@.len() - 1] == TeardownCall::Uninit,
{
    let before = old(driver)@;
    let (registered, imported, bound) = choose|
        registered: Seq<(usize, Registration)>,
        imported: Seq<(Vec<u8>, u64)>,
        bound: Seq<((String, u32), BoundJetty)>,
    |
        {
            &&& #[trigger] crate::table::distinct_keys(registered)
            &&& #[trigger] crate::table::distinct_keys(imported)
            &&& #[trigger] crate::table::distinct_keys(bound)
            &&& crate::table::mapping(registered) == before.registered
            &&& crate::table::mapping(imported) == before.imported
            &&& crate::table::mapping(bound) == before.bound
            &&& calls@ == unregister_calls(registered) + unimport_calls(imported) + unbind_calls(
                bound,
            ) + delete_calls(before.jettys) + seq![
                TeardownCall::DeleteJfc { jfc: before.jfc },
                TeardownCall::DeleteContext { ctx: before.ctx },
                TeardownCall::Uninit,
            ]
        };
    crate::table::lemma_mapping_len(registered);
    crate::table::lemma_mapping_len(imported);
    crate::table::lemma_mapping_len(bound);
    let (a, b) = (registered.len() as int, imported.len() as int);
    assert(unregister_calls(registered).len() == a);
    assert(unimport_calls(imported).len() == b);
    if bound.len() > 0 {
        lemma_unbind_calls(bound, 0);
    } else {
        assert(unbind_calls(bound).len() == 0);
    }
    assert(delete_calls(before.jettys).len() == before.jettys.len());
    if before.registered.contains_key(base) {
        let j = choose|j: int|
            0 <= j < registered.len() && #[trigger] crate::table::Key::id(&registered[j].0) == base;
        crate::table::lemma_mapping_at(registered, j);
        assert(calls@[j] == unregister_calls(registered)[j]);
    }
    if before.imported.contains_key(wire) {
        let j = choose|j: int|
            0 <= j < imported.len() && #[trigger] crate::table::Key::id(&imported[j].0) == wire;
        crate::table::lemma_mapping_at(imported, j);
        assert(calls@[a + j] == unimport_calls(imported)[j]);
    }
    if before.bound.contains_key(peer) {
        let j = choose|j: int|
            0 <= j < bound.len() && #[trigger] crate::table::Key::id(&bound[j].0) == peer;
        crate::table::lemma_mapping_at(bound, j);
        lemma_unbind_calls(bound, j);
        let at = a + b + 2 * j;
        assert(calls@[at] == unbind_calls(bound)[2 * j]);
        assert(calls@[at + 1] == unbind_calls(bound)[2 * j + 1]);
    }
    if 0 <= i < before.jettys.len() {
        let at = a + b + 2 * bound.len() + i;
        assert(calls@[at] == delete_calls(before.jettys)[i]);
    }
    assert(final(driver)@.registered.dom() =~= Set::empty());
    assert(final(driver)@.imported.dom() =~= Set::empty());
    assert(final(driver)@.bound.dom() =~= Set::empty());
}

/// A driver tells its identity, its jetties and its queue as they are.
pub proof fn law_drivers_tell_what_they_have(
    driver: LibUrmaDriver,
    handle: UbLocalHandle,
    count: usize,
    depth: u32,
    jfc: u64,
)
    requires
        call_ensures(LibUrmaDriver::local_handle, (&driver,), handle),
        call_ensures(LibUrmaDriver::jetty_count, (&driver,), count),
        call_ensures(LibUrmaDriver::max_wr, (&driver,), depth),
        call_ensures(LibUrmaDriver::jfc, (&driver,), jfc),
    ensures
        handle.device@ == driver@.local.device,
        handle.eid@ == driver@.local.eid,
        handle.jetty_ids@ == driver@.local.jetty_ids,
        count == driver@.jettys.len(),
        depth == driver@.max_wr,
        jfc == driver@.jfc,
{
}

/// Failures name what could not be done: the region that could not be
/// registered, the jetty that could not be imported, the length of a handle
/// that is none, the address that is not registered.
pub proof fn law_failures_name_their_objects(
    registering: &mut LibUrmaDriver,
    addr: usize,
    len: u64,
    region: Result<RegionWire, String>,
    importing: &mut LibUrmaDriver,
    post: ReadPost,
    next: ReadPost,
    driver: &mut LibUrmaDriver,
    op: UrmaReadOp,
    begun: ReadPost,
)
    requires
        call_ensures(LibUrmaDriver::register_region, (registering, addr, len, None), region),
        post.step is ImportJetty,
        call_ensures(
            LibUrmaDriver::advance_read,
            (importing, post, ReadReply::Object(0)),
            next,
        ),
        !old(driver)@.shutdown,
        old(driver)@.bound.contains_key(peer_key(op)),
        call_ensures(LibUrmaDriver::post_read, (driver, op), begun),
    ensures
        region matches Err(text) && text@ == "urma_register_seg failed for "@
            + crate::text::prefixed_hex(addr as nat) + " len "@ + crate::text::decimal(len as nat),
        next.step matches ReadStep::Failed(text) && text@ == "urma_import_jetty failed for jetty "@
            + crate::text::decimal(post.op.peer_jetty_id as nat),
        begun.step matches ReadStep::Failed(text) ==> text@ == (if old(driver)@.imported.contains_key(op.remote_wire@) {
            "local address "@ + crate::text::prefixed_hex(op.local_addr as nat)
                + " not registered"@
        } else {
            "invalid remote segment handle ("@ + crate::text::decimal(op.remote_wire@.len())
                + " bytes)"@
        }),
{
}

} // verus!
