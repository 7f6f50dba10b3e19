//! Relay configuration: the channel pairs to monitor.
//!
//! Loading from disk and TOML parsing stay in the application shell, which
//! converts into these plain records; validation of a pair is decided
//! here. A malformed pair is fatal at startup for that pair alone — other
//! pairs proceed.

use vstd::prelude::*;
use std::collections::HashMap;

verus! {

/// One configured relay pair: the source chain to watch and the
/// destination to relay to, immutable for the lifetime of its poller.
#[derive(Debug, Clone)]
pub struct RelayPair {
    pub name: String,
    pub src_chain: String,
    pub src_rpc: String,
    pub src_channel: String,
    pub src_port: String,
    pub dst_chain: String,
    pub dst_rpc: String,
    pub dst_channel: String,
    pub dst_port: String,
    pub private_key_src: Option<String>,
    pub private_key_dst: Option<String>,
}

impl RelayPair {
    /// A pair a poller may be started for: every identifier the poller and
    /// the transport need is present.
    pub open spec fn spec_is_valid(&self) -> bool {
        &&& self.name@.len() > 0
        &&& self.src_rpc@.len() > 0
        &&& self.src_channel@.len() > 0
        &&& self.src_port@.len() > 0
        &&& self.dst_rpc@.len() > 0
        &&& self.dst_channel@.len() > 0
        &&& self.dst_port@.len() > 0
    }

    /// Decides [`RelayPair::spec_is_valid`].
    pub fn is_valid(&self) -> (r: bool)
        ensures
            r == self.spec_is_valid(),
    {
        !self.name.as_str().is_empty() && !self.src_rpc.as_str().is_empty()
            && !self.src_channel.as_str().is_empty() && !self.src_port.as_str().is_empty()
            && !self.dst_rpc.as_str().is_empty() && !self.dst_channel.as_str().is_empty()
            && !self.dst_port.as_str().is_empty()
    }
}

/// The full configuration: the pairs to run, plus named presets.
#[derive(Debug, Clone)]
pub struct Config {
    pub relays: Vec<RelayPair>,
    pub presets: HashMap<String, RelayPair>,
}

} // verus!
