//! Core of a cross-chain packet relayer: block-height cursor management,
//! event filtering, packet payload decoding, timeout computation and
//! "receive packet" message construction, with machine-checked contracts.
//!
//! The surrounding process (RPC polling, QUIC transport, logging) lives in
//! the unverified application shell; it feeds plain values into this crate
//! and performs the actions the poller state machine decides on.

pub mod config;
pub mod crypto;
pub mod hexcodec;
pub mod ibc;
pub mod msg;
pub mod payload;
pub mod strutil;
pub mod zk;

pub use config::Config;
pub use ibc::IbcPoller;
pub use zk::generate_packet_proof;
