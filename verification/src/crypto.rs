//! Framing of packet bytes for the transport.
//!
//! Encryption over the point-to-point stream is planned; today the frame
//! is the payload itself, and the contract pins that down so the
//! transport's input is exactly the message bytes.

use vstd::prelude::*;

verus! {

/// Prepares packet bytes for the transport.
pub struct PacketEncrypter;

impl PacketEncrypter {
    /// Frames packet bytes for sending: currently the identity on bytes,
    /// stated as such.
    pub fn prepare_for_send(data: &[u8]) -> (r: Vec<u8>)
        ensures
            r@ == data@,
    {
        vstd::slice::slice_to_vec(data)
    }
}

} // verus!
