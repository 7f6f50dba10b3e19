//! Proof generation for packet commitments.
//!
//! Proofs are a capability with two providers, chosen at construction from
//! configuration: a no-proof provider for chains that do not verify
//! commitments, and a commitment prover. The witness preparation — hex
//! validation and the BLAKE3 commitment — is verified here; the proving
//! system itself (an outside circuit driven by randomness) runs in the
//! application shell on the witness this module hands it.

use vstd::prelude::*;
use crate::hexcodec::hex_bytes;
use crate::hexcodec::hex_decode;
use crate::hexcodec::is_hex_seq;

verus! {

/// Why proof preparation failed for a packet. The failure is permanent for
/// that packet and reported; no message is built from it.
#[derive(Debug, Clone, Copy, PartialEq, Eq, Structural)]
pub enum ProofError {
    /// The packet's data attribute is not well-formed hex.
    InvalidHex,
    /// The proving system could not produce a proof for this packet.
    ProvingFailed,
}

/// How proofs are produced: not at all — an empty proof, for chains that do
/// not verify commitments — or through the packet-commitment prover. Chosen
/// at construction from configuration, never at compile time.
#[derive(Debug, Clone, Copy, PartialEq, Eq, Structural)]
pub enum ProofMode {
    Disabled,
    Commitment,
}

/// The BLAKE3 digest of a byte string.
pub uninterp spec fn blake3_of(bytes: Seq<u8>) -> Seq<u8>;

/// Relies on `blake3::hash` (blake3 1.8): a 32-byte digest that is a
/// function of the input bytes alone.
#[verifier::external_body]
fn blake3_hash(data: &[u8]) -> (r: Vec<u8>)
    ensures
        r@ == blake3_of(data@),
        r@.len() == 32,
{
    blake3::hash(data).as_bytes().to_vec()
}

/// The no-proof provider: an empty proof, unconditionally, for chains that
/// accept relays without commitment verification.
pub fn generate_packet_proof(_packet_data_hex: &str) -> (r: Result<Vec<u8>, ProofError>)
    ensures
        r matches Ok(p) && p@ == Seq::<u8>::empty(),
{
    let empty: Vec<u8> = Vec::new();
    Ok(empty)
}

/// Prepares the witness for a packet-commitment proof: the hex-decoded
/// payload bytes and their BLAKE3 commitment. Fails exactly when the data
/// attribute is not well-formed hex.
pub fn prepare_commitment(packet_data_hex: &str) -> (r: Result<(Vec<u8>, Vec<u8>), ProofError>)
    ensures
        r is Ok <==> is_hex_seq(packet_data_hex@),
        r matches Ok(p) ==> p.0@ == hex_bytes(packet_data_hex@) && p.1@ == blake3_of(
            hex_bytes(packet_data_hex@),
        ) && p.1@.len() == 32,
        r matches Err(e) ==> e == ProofError::InvalidHex,
{
    match hex_decode(packet_data_hex) {
        None => Err(ProofError::InvalidHex),
        Some(bytes) => {
            let commitment = blake3_hash(bytes.as_slice());
            Ok((bytes, commitment))
        },
    }
}

} // verus!
