//! Construction of the destination-chain "receive packet" message:
//! timeout-height parsing and the assembly of the wire message from a
//! decoded packet, a proof and the height of the block that carried the
//! event.

use vstd::prelude::*;
use crate::ibc::ParsedPacket;
use crate::payload::FungibleTokenPacketData;
use crate::strutil::is_digit_char;
use crate::strutil::parse_u64;
use crate::strutil::spec_parse_u64;
use crate::zk::ProofError;

verus! {

/// A chain height qualified by a revision number, as timeout and proof
/// heights carry it.
#[derive(Debug, Clone, Copy, PartialEq, Eq, Structural)]
pub struct RevisionHeight {
    pub revision_number: u64,
    pub revision_height: u64,
}

/// The index of the first `-` in `s`, if any.
pub open spec fn dash_index(s: Seq<char>) -> Option<int>
    decreases s.len(),
{
    if s.len() == 0 {
        None
    } else if s.first() == '-' {
        Some(0)
    } else {
        match dash_index(s.drop_first()) {
            Some(k) => Some(k + 1),
            None => None,
        }
    }
}

proof fn lemma_dash_index_props(s: Seq<char>)
    ensures
        match dash_index(s) {
            Some(k) => 0 <= k < s.len() && s[k] == '-' && forall|j: int| 0 <= j < k ==> s[j] != '-',
            None => forall|j: int| 0 <= j < s.len() ==> s[j] != '-',
        },
    decreases s.len(),
{
    if s.len() > 0 && s.first() != '-' {
        lemma_dash_index_props(s.drop_first());
        let t = s.drop_first();
        assert(forall|j: int| 0 <= j < t.len() ==> #[trigger] t[j] == s[j + 1]);
        match dash_index(t) {
            Some(k) => {
                assert(s[k + 1] == t[k]);
                assert forall|j: int| 0 <= j < k + 1 implies s[j] != '-' by {
                    if j == 0 {
                        assert(s[j] == s.first());
                    } else {
                        assert(s[j] == t[j - 1]);
                    }
                }
            },
            None => {
                assert forall|j: int| 0 <= j < s.len() implies s[j] != '-' by {
                    if j == 0 {
                        assert(s[j] == s.first());
                    } else {
                        assert(s[j] == t[j - 1]);
                    }
                }
            },
        }
    }
}

proof fn lemma_dash_index_of(s: Seq<char>, k: int)
    requires
        0 <= k < s.len(),
        s[k] == '-',
        forall|j: int| 0 <= j < k ==> s[j] != '-',
    ensures
        dash_index(s) == Some(k),
    decreases s.len(),
{
    if k == 0 {
        assert(s.first() == '-');
    } else {
        assert(s.first() != '-');
        assert(forall|j: int| 0 <= j < s.drop_first().len() ==> s.drop_first()[j] == s[j + 1]);
        lemma_dash_index_of(s.drop_first(), k - 1);
    }
}

/// What the timeout-height attribute denotes: a height when the attribute
/// is `"{revision_number}-{revision_height}"` with both components decimal
/// `u64` and the height positive; no timeout otherwise — in particular for
/// the empty string and for a zero or absent height segment, and for any
/// malformed component, which is never replaced by an invented number.
pub open spec fn spec_parse_timeout_height(s: Seq<char>) -> Option<RevisionHeight> {
    match dash_index(s) {
        None => None,
        Some(k) => match (spec_parse_u64(s.take(k)), spec_parse_u64(s.skip(k + 1))) {
            (Some(rn), Some(rh)) => if rh > 0 {
                Some(RevisionHeight { revision_number: rn, revision_height: rh })
            } else {
                None
            },
            _ => None,
        },
    }
}

/// Parses the timeout-height attribute, exactly as
/// [`spec_parse_timeout_height`] says. Both components are carried through
/// verbatim; the revision number is never hardcoded.
pub fn parse_timeout_height(s: &str) -> (r: Option<RevisionHeight>)
    ensures
        r == spec_parse_timeout_height(s@),
{
    proof {
        lemma_dash_index_props(s@);
    }
    if !s.is_ascii() {
        proof {
            let m = choose|m: int|
                !(0 <= m < s@.len() ==> '\0' <= #[trigger] s@[m] <= '\u{7f}');
            assert(0 <= m < s@.len() && !('\0' <= s@[m] <= '\u{7f}'));
            assert(!is_digit_char(s@[m]));
            match dash_index(s@) {
                None => {},
                Some(k) => {
                    assert(s@[m] != '-');
                    assert(m != k);
                    if m < k {
                        assert(s@.take(k)[m] == s@[m]);
                        assert(spec_parse_u64(s@.take(k)) is None);
                    } else {
                        assert(s@.skip(k + 1)[m - (k + 1)] == s@[m]);
                        assert(spec_parse_u64(s@.skip(k + 1)) is None);
                    }
                },
            }
        }
        return None;
    }
    proof {
        broadcast use vstd::string::is_ascii_spec_bytes;
    }
    let bytes: &[u8] = s.as_bytes();
    let n: usize = bytes.len();
    proof {
        assert(bytes@ =~= Seq::new(s@.len(), |i: int| s@[i] as u8));
    }
    let mut k: usize = 0;
    while k < n && bytes[k] != 0x2d
        invariant
            n == bytes@.len() && n == s@.len(),
            bytes@ =~= Seq::new(s@.len(), |j: int| s@[j] as u8),
            vstd::utf8::is_ascii_chars(s@),
            0 <= k <= n,
            forall|j: int| 0 <= j < k ==> s@[j] != '-',
        decreases n - k,
    {
        proof {
            assert(s@[k as int] as u8 != 0x2d);
            assert('\0' <= s@[k as int] <= '\u{7f}');
            assert(s@[k as int] != '-');
        }
        k += 1;
    }
    if k >= n {
        proof {
            assert(dash_index(s@) is None) by {
                match dash_index(s@) {
                    Some(dd) => {
                        assert(s@[dd] == '-');
                    },
                    None => {},
                }
            }
        }
        None
    } else {
        let d: usize = k;
        proof {
            assert(s@[d as int] as u8 == 0x2d);
            assert('\0' <= s@[d as int] <= '\u{7f}');
            assert(s@[d as int] == '-');
            lemma_dash_index_of(s@, d as int);
        }
        let rev_part: &str = s.substring_ascii(0, d);
        let height_part: &str = s.substring_ascii(d + 1, n);
        proof {
            assert(rev_part@ =~= s@.take(d as int));
            assert(height_part@ =~= s@.skip(d as int + 1));
        }
        let rn = match parse_u64(rev_part) {
            None => {
                return None;
            },
            Some(v) => v,
        };
        let rh = match parse_u64(height_part) {
            None => {
                return None;
            },
            Some(v) => v,
        };
        if rh > 0 {
            Some(RevisionHeight { revision_number: rn, revision_height: rh })
        } else {
            None
        }
    }
}

/// The wire packet of a receive message: identifiers and sequence copied
/// verbatim from the decoded packet, the payload in its protobuf encoding,
/// and the parsed timeout.
#[derive(Debug)]
pub struct WirePacket {
    pub sequence: u64,
    pub source_port: String,
    pub source_channel: String,
    pub destination_port: String,
    pub destination_channel: String,
    pub data: Vec<u8>,
    pub timeout_height: Option<RevisionHeight>,
    pub timeout_timestamp: u64,
}

/// The finished "receive packet" message, handed downstream once and never
/// mutated after construction.
#[derive(Debug)]
pub struct ReceiveMessage {
    pub packet: WirePacket,
    pub proof_commitment: Vec<u8>,
    pub proof_height: RevisionHeight,
    pub signer: String,
}

/// The protobuf encoding of a transfer payload with the given five string
/// fields.
pub uninterp spec fn ftpd_proto_bytes(
    denom: Seq<char>,
    amount: Seq<char>,
    sender: Seq<char>,
    receiver: Seq<char>,
    memo: Seq<char>,
) -> Seq<u8>;

/// Relies on `prost::Message::encode_to_vec` (prost 0.13) for
/// `ibc_proto::ibc::applications::transfer::v2::FungibleTokenPacketData`:
/// the protobuf encoding is a function of the five string fields alone.
#[verifier::external_body]
fn encode_transfer_data(data: &FungibleTokenPacketData, memo: &str) -> (r: Vec<u8>)
    ensures
        r@ == ftpd_proto_bytes(data.denom@, data.amount@, data.sender@, data.receiver@, memo@),
{
    let msg = ibc_proto::ibc::applications::transfer::v2::FungibleTokenPacketData {
        denom: data.denom.clone(),
        amount: data.amount.clone(),
        sender: data.sender.clone(),
        receiver: data.receiver.clone(),
        memo: memo.to_string(),
    };
    prost::Message::encode_to_vec(&msg)
}

/// Assembles the receive message for a packet proved at `event_height`.
///
/// Identifiers and the sequence are copied unchanged; the payload is
/// protobuf-encoded with an empty memo; the timeout carries both parsed
/// components verbatim; the proof height is the height of the block that
/// contained the event — not the poller's cursor — with the revision
/// number of the proof height left at zero; the signer comes from
/// configuration and is never invented here.
pub fn build_receive_message(
    parsed: &ParsedPacket,
    proof_commitment: Vec<u8>,
    event_height: u64,
    signer: String,
) -> (r: ReceiveMessage)
    ensures
        r.packet.sequence == parsed.sequence,
        r.packet.source_port@ == parsed.src_port@,
        r.packet.source_channel@ == parsed.src_channel@,
        r.packet.destination_port@ == parsed.dst_port@,
        r.packet.destination_channel@ == parsed.dst_channel@,
        r.packet.data@ == ftpd_proto_bytes(
            parsed.data.denom@,
            parsed.data.amount@,
            parsed.data.sender@,
            parsed.data.receiver@,
            Seq::<char>::empty(),
        ),
        r.packet.timeout_height == spec_parse_timeout_height(parsed.timeout_height@),
        r.packet.timeout_timestamp == parsed.timeout_timestamp,
        r.proof_commitment@ == proof_commitment@,
        r.proof_height == (RevisionHeight { revision_number: 0, revision_height: event_height }),
        r.signer@ == signer@,
{
    let data_bytes = encode_transfer_data(&parsed.data, "");
    proof {
        reveal_strlit("");
        assert(""@ =~= Seq::<char>::empty());
    }
    let timeout_height = parse_timeout_height(parsed.timeout_height.as_str());
    ReceiveMessage {
        packet: WirePacket {
            sequence: parsed.sequence,
            source_port: parsed.src_port.clone(),
            source_channel: parsed.src_channel.clone(),
            destination_port: parsed.dst_port.clone(),
            destination_channel: parsed.dst_channel.clone(),
            data: data_bytes,
            timeout_height,
            timeout_timestamp: parsed.timeout_timestamp,
        },
        proof_commitment,
        proof_height: RevisionHeight { revision_number: 0, revision_height: event_height },
        signer,
    }
}

/// Couples message construction to proof generation: the message is built
/// exactly when the proof was produced, and a failed proof yields no
/// message at all — never one with a fabricated proof.
pub fn try_build_receive_message(
    parsed: &ParsedPacket,
    proof_result: Result<Vec<u8>, ProofError>,
    event_height: u64,
    signer: String,
) -> (r: Result<ReceiveMessage, ProofError>)
    ensures
        r is Ok <==> proof_result is Ok,
        r matches Err(e) ==> proof_result == Err::<Vec<u8>, ProofError>(e),
        r matches Ok(m) ==> proof_result matches Ok(pc) && m.proof_commitment@ == pc@
            && m.packet.sequence == parsed.sequence && m.packet.source_port@ == parsed.src_port@
            && m.packet.source_channel@ == parsed.src_channel@ && m.packet.destination_port@
            == parsed.dst_port@ && m.packet.destination_channel@ == parsed.dst_channel@
            && m.packet.data@ == ftpd_proto_bytes(
            parsed.data.denom@,
            parsed.data.amount@,
            parsed.data.sender@,
            parsed.data.receiver@,
            Seq::<char>::empty(),
        ) && m.packet.timeout_height == spec_parse_timeout_height(parsed.timeout_height@)
            && m.packet.timeout_timestamp == parsed.timeout_timestamp && m.proof_height == (
        RevisionHeight { revision_number: 0, revision_height: event_height }) && m.signer@
            == signer@,
{
    match proof_result {
        Err(e) => Err(e),
        Ok(proof_commitment) => Ok(
            build_receive_message(parsed, proof_commitment, event_height, signer),
        ),
    }
}

} // verus!
