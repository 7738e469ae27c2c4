//! Core logic of the AgentENV node runtime.
//!
//! The crate holds the decisions of the node: the URMA peer-to-peer artifact
//! transport (segment handles, registered memory, driver bookkeeping, the
//! completion worker, catalog and transfer planning), the fixed-size buffer
//! pool of the compact writers, the privilege-scoped process launcher, and
//! the runtime diagnostics settings. Everything that touches the operating
//! system, the network or an executor is performed by the embedding program,
//! which hands plain values in and carries out the actions handed back.
#![allow(unused_imports)]

pub mod buffer_pool;
pub mod bytes;
pub mod catalog;
pub mod codec;
pub mod config;
pub mod diagnostics;
pub mod driver;
pub mod endian;
pub mod error;
pub mod iroh;
pub mod paths;
pub mod privileges;
pub mod server;
pub mod store;
pub mod table;
pub mod text;
pub mod transport;
pub mod types;
pub mod urma_sys;
pub mod worker;
