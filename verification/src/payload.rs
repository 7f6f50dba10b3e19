//! The fungible-token transfer payload and its wire form.
//!
//! On the wire the payload is a JSON object with string members
//! (`amount`, `denom`, `sender`, `receiver`), hex-encoded into an event
//! attribute. The grammar accepted here is the compact object form: string
//! keys and string values, `\"` `\\` `\/` `\n` `\r` `\t` `\b` `\f` escapes,
//! no whitespace between tokens, later duplicate keys overriding earlier
//! ones. Anything else — unicode escapes included — is rejected as a decode
//! error rather than guessed at. A payload missing any of the four fields
//! is rejected, never defaulted: a transfer with a fabricated amount is
//! unsafe to relay.

use vstd::prelude::*;
use crate::strutil::bytes_eq;
use crate::strutil::bytes_to_str;

verus! {

/// Why a packet payload or event was rejected. Decode errors are per-packet
/// and never fatal to the surrounding poll loop.
#[derive(Debug, Clone, Copy, PartialEq, Eq, Structural)]
pub enum DecodeError {
    /// `packet_sequence` absent or not a decimal `u64`.
    BadSequence,
    /// `packet_timeout_timestamp` absent or not a decimal `u64`.
    BadTimestamp,
    /// `packet_data_hex` absent or empty.
    MissingData,
    /// `packet_data_hex` is not well-formed hex.
    BadHex,
    /// The payload bytes are not in the accepted JSON object form.
    BadJson,
    /// A payload member is not valid UTF-8.
    BadUtf8,
    /// The payload lacks the `amount` member.
    MissingAmount,
    /// The payload lacks the `denom` member.
    MissingDenom,
    /// The payload lacks the `sender` member.
    MissingSender,
    /// The payload lacks the `receiver` member.
    MissingReceiver,
}

/// The application content of one transfer packet. Fields are kept verbatim
/// as decoded; no field is ever invented.
#[derive(Debug, Clone)]
pub struct FungibleTokenPacketData {
    pub amount: String,
    pub denom: String,
    pub sender: String,
    pub receiver: String,
}

/// Mathematical image of [`FungibleTokenPacketData`].
pub struct FtpdView {
    pub amount: Seq<char>,
    pub denom: Seq<char>,
    pub sender: Seq<char>,
    pub receiver: Seq<char>,
}

impl View for FungibleTokenPacketData {
    type V = FtpdView;

    open spec fn view(&self) -> FtpdView {
        FtpdView {
            amount: self.amount@,
            denom: self.denom@,
            sender: self.sender@,
            receiver: self.receiver@,
        }
    }
}

// ---------------------------------------------------------------------------
// Grammar: spec-level parser.
// ---------------------------------------------------------------------------

/// The byte an escape character after a backslash stands for.
pub open spec fn unescape(b: u8) -> Option<u8> {
    if b == 0x22 {
        Some(0x22u8)
    } else if b == 0x5c {
        Some(0x5cu8)
    } else if b == 0x2f {
        Some(0x2fu8)
    } else if b == 0x6e {
        Some(0x0au8)
    } else if b == 0x72 {
        Some(0x0du8)
    } else if b == 0x74 {
        Some(0x09u8)
    } else if b == 0x62 {
        Some(0x08u8)
    } else if b == 0x66 {
        Some(0x0cu8)
    } else {
        None
    }
}

/// Parses a string body from `i` (just past the opening quote) to its
/// closing quote; yields the unescaped content and the index just past the
/// closing quote.
pub open spec fn sp_string(s: Seq<u8>, i: int) -> Option<(Seq<u8>, int)>
    decreases s.len() - i,
{
    if i < 0 || i >= s.len() {
        None
    } else if s[i] == 0x22 {
        Some((Seq::empty(), i + 1))
    } else if s[i] == 0x5c {
        if i + 1 < s.len() {
            match unescape(s[i + 1]) {
                Some(c) => match sp_string(s, i + 2) {
                    Some(t) => Some((seq![c] + t.0, t.1)),
                    None => None,
                },
                None => None,
            }
        } else {
            None
        }
    } else {
        match sp_string(s, i + 1) {
            Some(t) => Some((seq![s[i]] + t.0, t.1)),
            None => None,
        }
    }
}

/// Parses one `"key":"value"` member starting at the opening quote of the
/// key; yields the pair and the index just past the value.
pub open spec fn sp_pair(s: Seq<u8>, i: int) -> Option<((Seq<u8>, Seq<u8>), int)> {
    if 0 <= i < s.len() && s[i] == 0x22 {
        match sp_string(s, i + 1) {
            Some(k) => {
                if k.1 + 1 < s.len() && s[k.1] == 0x3a && s[k.1 + 1] == 0x22 {
                    match sp_string(s, k.1 + 2) {
                        Some(v) => Some(((k.0, v.0), v.1)),
                        None => None,
                    }
                } else {
                    None
                }
            },
            None => None,
        }
    } else {
        None
    }
}

/// Parses the members after the first one: a possibly empty run of
/// `,"key":"value"` followed by the closing brace, which must end the input.
pub open spec fn sp_rest(s: Seq<u8>, i: int) -> Option<Seq<(Seq<u8>, Seq<u8>)>>
    decreases s.len() - i,
{
    if 0 <= i < s.len() && s[i] == 0x7d && i + 1 == s.len() {
        Some(Seq::empty())
    } else if 0 <= i < s.len() && s[i] == 0x2c {
        match sp_pair(s, i + 1) {
            Some(p) => {
                if i < p.1 <= s.len() {
                    match sp_rest(s, p.1) {
                        Some(ps) => Some(seq![p.0] + ps),
                        None => None,
                    }
                } else {
                    None
                }
            },
            None => None,
        }
    } else {
        None
    }
}

/// Parses a whole compact object; yields its members in order.
pub open spec fn sp_object(s: Seq<u8>) -> Option<Seq<(Seq<u8>, Seq<u8>)>> {
    if s.len() >= 2 && s[0] == 0x7b {
        if s.len() == 2 && s[1] == 0x7d {
            Some(Seq::empty())
        } else {
            match sp_pair(s, 1) {
                Some(p) => {
                    if 1 < p.1 <= s.len() {
                        match sp_rest(s, p.1) {
                            Some(ps) => Some(seq![p.0] + ps),
                            None => None,
                        }
                    } else {
                        None
                    }
                },
                None => None,
            }
        }
    } else {
        None
    }
}

/// The value of `key` among `pairs`, later members overriding earlier ones.
pub open spec fn field_bytes(pairs: Seq<(Seq<u8>, Seq<u8>)>, key: Seq<u8>) -> Option<Seq<u8>>
    decreases pairs.len(),
{
    if pairs.len() == 0 {
        None
    } else if pairs.last().0 == key {
        Some(pairs.last().1)
    } else {
        field_bytes(pairs.drop_last(), key)
    }
}

/// `"amount"` in UTF-8.
pub open spec fn amount_key() -> Seq<u8> {
    seq![0x61u8, 0x6du8, 0x6fu8, 0x75u8, 0x6eu8, 0x74u8]
}

/// `"denom"` in UTF-8.
pub open spec fn denom_key() -> Seq<u8> {
    seq![0x64u8, 0x65u8, 0x6eu8, 0x6fu8, 0x6du8]
}

/// `"sender"` in UTF-8.
pub open spec fn sender_key() -> Seq<u8> {
    seq![0x73u8, 0x65u8, 0x6eu8, 0x64u8, 0x65u8, 0x72u8]
}

/// `"receiver"` in UTF-8.
pub open spec fn receiver_key() -> Seq<u8> {
    seq![0x72u8, 0x65u8, 0x63u8, 0x65u8, 0x69u8, 0x76u8, 0x65u8, 0x72u8]
}

/// One required member of the payload: its characters, or why it is
/// rejected.
pub open spec fn spec_field(
    pairs: Seq<(Seq<u8>, Seq<u8>)>,
    key: Seq<u8>,
    missing: DecodeError,
) -> Result<Seq<char>, DecodeError> {
    match field_bytes(pairs, key) {
        None => Err(missing),
        Some(b) => if vstd::utf8::valid_utf8(b) {
            Ok(vstd::utf8::decode_utf8(b))
        } else {
            Err(DecodeError::BadUtf8)
        },
    }
}

/// What decoding payload bytes yields: the four members of the object, or
/// the first error in the order object form, amount, denom, sender,
/// receiver.
pub open spec fn spec_decode_payload(bytes: Seq<u8>) -> Result<FtpdView, DecodeError> {
    match sp_object(bytes) {
        None => Err(DecodeError::BadJson),
        Some(pairs) => match spec_field(pairs, amount_key(), DecodeError::MissingAmount) {
            Err(e) => Err(e),
            Ok(amount) => match spec_field(pairs, denom_key(), DecodeError::MissingDenom) {
                Err(e) => Err(e),
                Ok(denom) => match spec_field(pairs, sender_key(), DecodeError::MissingSender) {
                    Err(e) => Err(e),
                    Ok(sender) => match spec_field(
                        pairs,
                        receiver_key(),
                        DecodeError::MissingReceiver,
                    ) {
                        Err(e) => Err(e),
                        Ok(receiver) => Ok(FtpdView { amount, denom, sender, receiver }),
                    },
                },
            },
        },
    }
}

// ---------------------------------------------------------------------------
// Grammar: spec-level printer.
// ---------------------------------------------------------------------------

/// How one content byte is written inside a string: quotes and backslashes
/// escaped, everything else verbatim.
pub open spec fn escape_byte(b: u8) -> Seq<u8> {
    if b == 0x22 || b == 0x5c {
        seq![0x5cu8, b]
    } else {
        seq![b]
    }
}

/// How string content is written inside quotes.
pub open spec fn escape_bytes(s: Seq<u8>) -> Seq<u8>
    decreases s.len(),
{
    if s.len() == 0 {
        Seq::empty()
    } else {
        escape_byte(s.first()) + escape_bytes(s.drop_first())
    }
}

/// A quoted, escaped string.
pub open spec fn quoted(content: Seq<u8>) -> Seq<u8> {
    seq![0x22u8] + escape_bytes(content) + seq![0x22u8]
}

/// One `"key":"value"` member.
pub open spec fn enc_pair(key: Seq<u8>, value: Seq<u8>) -> Seq<u8> {
    quoted(key) + seq![0x3au8] + quoted(value)
}

/// The members after the first, each preceded by a comma, closed by the
/// final brace.
pub open spec fn enc_rest(pairs: Seq<(Seq<u8>, Seq<u8>)>) -> Seq<u8>
    decreases pairs.len(),
{
    if pairs.len() == 0 {
        seq![0x7du8]
    } else {
        seq![0x2cu8] + enc_pair(pairs.first().0, pairs.first().1) + enc_rest(pairs.drop_first())
    }
}

/// The payload's members in canonical order.
pub open spec fn payload_pairs(d: FtpdView) -> Seq<(Seq<u8>, Seq<u8>)> {
    seq![
        (amount_key(), vstd::utf8::encode_utf8(d.amount)),
        (denom_key(), vstd::utf8::encode_utf8(d.denom)),
        (sender_key(), vstd::utf8::encode_utf8(d.sender)),
        (receiver_key(), vstd::utf8::encode_utf8(d.receiver)),
    ]
}

/// The canonical wire form of a payload.
pub open spec fn spec_encode_payload(d: FtpdView) -> Seq<u8> {
    seq![0x7bu8] + enc_pair(payload_pairs(d).first().0, payload_pairs(d).first().1) + enc_rest(
        payload_pairs(d).drop_first(),
    )
}

// ---------------------------------------------------------------------------
// Round trip: the printed form always parses back to the same members.
// ---------------------------------------------------------------------------

/// `t` occurs in `s` starting at `i`.
pub open spec fn seq_at(s: Seq<u8>, i: int, t: Seq<u8>) -> bool {
    &&& 0 <= i
    &&& i + t.len() <= s.len()
    &&& forall|k: int| 0 <= k < t.len() ==> s[i + k] == #[trigger] t[k]
}

proof fn lemma_sp_string_at(s: Seq<u8>, i: int, c: Seq<u8>)
    requires
        seq_at(s, i, escape_bytes(c) + seq![0x22u8]),
    ensures
        sp_string(s, i) == Some((c, i + escape_bytes(c).len() + 1)),
    decreases c.len(),
{
    let e = escape_bytes(c) + seq![0x22u8];
    if c.len() == 0 {
        assert(escape_bytes(c).len() == 0);
        assert(s[i] == e[0]);
        assert(s[i] == 0x22);
    } else {
        let c0 = c.first();
        let ct = c.drop_first();
        assert(escape_bytes(c) == escape_byte(c0) + escape_bytes(ct));
        let eb = escape_byte(c0);
        assert forall|k: int| 0 <= k < escape_bytes(ct).len() + 1 implies s[i + eb.len() + k]
            == (escape_bytes(ct) + seq![0x22u8])[k] by {
            assert(e[eb.len() + k] == (escape_bytes(ct) + seq![0x22u8])[k]);
            assert(s[i + (eb.len() + k)] == e[eb.len() + k]);
        }
        assert(seq_at(s, i + eb.len(), escape_bytes(ct) + seq![0x22u8]));
        lemma_sp_string_at(s, i + eb.len(), ct);
        if c0 == 0x22 || c0 == 0x5c {
            assert(eb == seq![0x5cu8, c0]);
            assert(s[i] == e[0]);
            assert(s[i] == 0x5c);
            assert(s[i + 1] == e[1]);
            assert(s[i + 1] == c0);
            assert(unescape(c0) == Some(c0));
            let t = sp_string(s, i + 2).unwrap();
            assert(t.0 == ct && t.1 == i + 2 + escape_bytes(ct).len() + 1);
            assert(seq![c0] + ct =~= c);
        } else {
            assert(eb == seq![c0]);
            assert(s[i] == e[0]);
            assert(s[i] == c0);
            assert(s[i] != 0x22 && s[i] != 0x5c);
            let t = sp_string(s, i + 1).unwrap();
            assert(t.0 == ct && t.1 == i + 1 + escape_bytes(ct).len() + 1);
            assert(seq![s[i]] + ct =~= c);
        }
    }
}

proof fn lemma_sp_pair_at(s: Seq<u8>, i: int, k: Seq<u8>, v: Seq<u8>)
    requires
        seq_at(s, i, enc_pair(k, v)),
        i + enc_pair(k, v).len() < s.len(),
    ensures
        sp_pair(s, i) == Some(((k, v), i + enc_pair(k, v).len())),
{
    let e = enc_pair(k, v);
    let qk = quoted(k);
    let qv = quoted(v);
    assert(e == qk + seq![0x3au8] + qv);
    let ek = escape_bytes(k);
    let ev = escape_bytes(v);
    assert(s[i] == e[0]);
    assert(e[0] == 0x22);
    assert forall|x: int| 0 <= x < ek.len() + 1 implies s[i + 1 + x] == (ek + seq![0x22u8])[x] by {
        assert(e[1 + x] == (ek + seq![0x22u8])[x]);
        assert(s[i + (1 + x)] == e[1 + x]);
    }
    assert(seq_at(s, i + 1, ek + seq![0x22u8]));
    lemma_sp_string_at(s, i + 1, k);
    let j = i + 1 + ek.len() + 1;
    assert(j - i == qk.len());
    assert(s[j] == e[qk.len() as int]);
    assert(e[qk.len() as int] == 0x3a);
    assert(s[j + 1] == e[qk.len() as int + 1]);
    assert(e[qk.len() as int + 1] == 0x22);
    assert forall|x: int| 0 <= x < ev.len() + 1 implies s[j + 2 + x] == (ev + seq![0x22u8])[x] by {
        assert(e[qk.len() + 2 + x] == (ev + seq![0x22u8])[x]);
        assert(s[i + (qk.len() + 2 + x)] == e[qk.len() + 2 + x]);
    }
    assert(seq_at(s, j + 2, ev + seq![0x22u8]));
    lemma_sp_string_at(s, j + 2, v);
    assert(j + 2 + ev.len() + 1 == i + e.len());
}

proof fn lemma_sp_rest_at(s: Seq<u8>, i: int, pairs: Seq<(Seq<u8>, Seq<u8>)>)
    requires
        seq_at(s, i, enc_rest(pairs)),
        i + enc_rest(pairs).len() == s.len(),
    ensures
        sp_rest(s, i) == Some(pairs),
    decreases pairs.len(),
{
    let e = enc_rest(pairs);
    if pairs.len() == 0 {
        assert(e == seq![0x7du8]);
        assert(s[i] == e[0]);
        assert(s[i] == 0x7d);
        assert(i + 1 == s.len());
    } else {
        let p0 = pairs.first();
        let pt = pairs.drop_first();
        let ep = enc_pair(p0.0, p0.1);
        assert(e == seq![0x2cu8] + ep + enc_rest(pt));
        assert(s[i] == e[0]);
        assert(s[i] == 0x2c);
        assert(s[i] != 0x7d);
        assert forall|x: int| 0 <= x < ep.len() implies s[i + 1 + x] == ep[x] by {
            assert(e[1 + x] == ep[x]);
            assert(s[i + (1 + x)] == e[1 + x]);
        }
        assert(seq_at(s, i + 1, ep));
        assert(enc_rest(pt).len() >= 1) by {
            if pt.len() == 0 {
            } else {
                assert(enc_rest(pt) == seq![0x2cu8] + enc_pair(pt.first().0, pt.first().1)
                    + enc_rest(pt.drop_first()));
            }
        }
        lemma_sp_pair_at(s, i + 1, p0.0, p0.1);
        let j = i + 1 + ep.len();
        assert forall|x: int| 0 <= x < enc_rest(pt).len() implies s[j + x] == enc_rest(pt)[x] by {
            assert(e[1 + ep.len() + x] == enc_rest(pt)[x]);
            assert(s[i + (1 + ep.len() + x)] == e[1 + ep.len() + x]);
        }
        assert(seq_at(s, j, enc_rest(pt)));
        lemma_sp_rest_at(s, j, pt);
        assert(seq![p0] + pt =~= pairs);
    }
}

proof fn lemma_sp_object_enc(pairs: Seq<(Seq<u8>, Seq<u8>)>)
    requires
        pairs.len() >= 1,
    ensures
        sp_object(
            seq![0x7bu8] + enc_pair(pairs.first().0, pairs.first().1) + enc_rest(
                pairs.drop_first(),
            ),
        ) == Some(pairs),
{
    let p0 = pairs.first();
    let pt = pairs.drop_first();
    let ep = enc_pair(p0.0, p0.1);
    let er = enc_rest(pt);
    let s = seq![0x7bu8] + ep + er;
    assert(ep.len() >= 5);
    assert(er.len() >= 1) by {
        if pt.len() == 0 {
        } else {
            assert(er == seq![0x2cu8] + enc_pair(pt.first().0, pt.first().1) + enc_rest(
                pt.drop_first(),
            ));
        }
    }
    assert(s[0] == 0x7b);
    assert(s.len() > 2);
    assert forall|x: int| 0 <= x < ep.len() implies s[1 + x] == ep[x] by {
        assert(s[1 + x] == (seq![0x7bu8] + ep + er)[1 + x]);
    }
    assert(seq_at(s, 1, ep));
    lemma_sp_pair_at(s, 1, p0.0, p0.1);
    let j: int = 1 + ep.len() as int;
    assert forall|x: int| 0 <= x < er.len() implies s[j + x] == er[x] by {
        assert(s[j + x] == (seq![0x7bu8] + ep + er)[j + x]);
    }
    assert(seq_at(s, j, er));
    lemma_sp_rest_at(s, j, pt);
    assert(seq![p0] + pt =~= pairs);
}

/// Round trip: the canonical wire form of any payload decodes back to
/// exactly that payload's members — nothing is lost, defaulted or reordered
/// by a print/parse cycle.
pub proof fn lemma_payload_round_trip(d: FtpdView)
    ensures
        spec_decode_payload(spec_encode_payload(d)) == Ok::<FtpdView, DecodeError>(d),
{
    broadcast use vstd::utf8::encode_utf8_valid_utf8, vstd::utf8::encode_utf8_decode_utf8;

    let pairs = payload_pairs(d);
    lemma_sp_object_enc(pairs);
    assert(sp_object(spec_encode_payload(d)) == Some(pairs));
    let ea = vstd::utf8::encode_utf8(d.amount);
    let ed = vstd::utf8::encode_utf8(d.denom);
    let es = vstd::utf8::encode_utf8(d.sender);
    let er = vstd::utf8::encode_utf8(d.receiver);
    assert(pairs.last() == (receiver_key(), er));
    assert(receiver_key() != amount_key());
    assert(receiver_key() != denom_key());
    assert(receiver_key() != sender_key());
    let p3 = pairs.drop_last();
    assert(p3.last() == (sender_key(), es));
    assert(sender_key()[0] != amount_key()[0]);
    assert(sender_key() != amount_key());
    assert(sender_key() != denom_key());
    let p2 = p3.drop_last();
    assert(p2.last() == (denom_key(), ed));
    assert(denom_key() != amount_key());
    let p1 = p2.drop_last();
    assert(p1.last() == (amount_key(), ea));
    assert(field_bytes(pairs, sender_key()) == field_bytes(p3, sender_key()));
    assert(field_bytes(pairs, denom_key()) == field_bytes(p3, denom_key()));
    assert(field_bytes(p3, denom_key()) == field_bytes(p2, denom_key()));
    assert(field_bytes(pairs, amount_key()) == field_bytes(p3, amount_key()));
    assert(field_bytes(p3, amount_key()) == field_bytes(p2, amount_key()));
    assert(field_bytes(p2, amount_key()) == field_bytes(p1, amount_key()));
    assert(field_bytes(pairs, receiver_key()) == Some(er));
    assert(field_bytes(pairs, sender_key()) == Some(es));
    assert(field_bytes(pairs, denom_key()) == Some(ed));
    assert(field_bytes(pairs, amount_key()) == Some(ea));
    assert(spec_field(pairs, amount_key(), DecodeError::MissingAmount)
        == Ok::<Seq<char>, DecodeError>(d.amount));
    assert(spec_field(pairs, denom_key(), DecodeError::MissingDenom)
        == Ok::<Seq<char>, DecodeError>(d.denom));
    assert(spec_field(pairs, sender_key(), DecodeError::MissingSender)
        == Ok::<Seq<char>, DecodeError>(d.sender));
    assert(spec_field(pairs, receiver_key(), DecodeError::MissingReceiver)
        == Ok::<Seq<char>, DecodeError>(d.receiver));
}

// ---------------------------------------------------------------------------
// Executable parser.
// ---------------------------------------------------------------------------

/// The members of a parsed object, as mathematical sequences.
pub open spec fn pairs_view(ps: Seq<(Vec<u8>, Vec<u8>)>) -> Seq<(Seq<u8>, Seq<u8>)> {
    ps.map_values(|p: (Vec<u8>, Vec<u8>)| (p.0@, p.1@))
}

fn unescape_byte(b: u8) -> (r: Option<u8>)
    ensures
        r == unescape(b),
{
    if b == 0x22 {
        Some(0x22)
    } else if b == 0x5c {
        Some(0x5c)
    } else if b == 0x2f {
        Some(0x2f)
    } else if b == 0x6e {
        Some(0x0a)
    } else if b == 0x72 {
        Some(0x0d)
    } else if b == 0x74 {
        Some(0x09)
    } else if b == 0x62 {
        Some(0x08)
    } else if b == 0x66 {
        Some(0x0c)
    } else {
        None
    }
}

fn parse_string(s: &Vec<u8>, start: usize) -> (r: Option<(Vec<u8>, usize)>)
    ensures
        r is None ==> sp_string(s@, start as int) is None,
        r matches Some(p) ==> sp_string(s@, start as int) == Some((p.0@, p.1 as int)) && start
            < p.1 <= s@.len(),
{
    let n: usize = s.len();
    if start >= n {
        return None;
    }
    let mut i: usize = start;
    let mut content: Vec<u8> = Vec::new();
    loop
        invariant
            n == s@.len(),
            start <= i <= n,
            sp_string(s@, start as int) == (match sp_string(s@, i as int) {
                Some(t) => Some((content@ + t.0, t.1)),
                None => None::<(Seq<u8>, int)>,
            }),
        decreases n - i,
    {
        if i >= n {
            return None;
        }
        let b: u8 = s[i];
        if b == 0x22 {
            proof {
                assert(sp_string(s@, i as int) == Some((Seq::<u8>::empty(), i + 1)));
                assert(content@ + Seq::<u8>::empty() =~= content@);
            }
            return Some((content, i + 1));
        } else if b == 0x5c {
            if i + 1 >= n {
                return None;
            }
            match unescape_byte(s[i + 1]) {
                None => {
                    return None;
                },
                Some(c) => {
                    let ghost old_content = content@;
                    content.push(c);
                    proof {
                        match sp_string(s@, i as int + 2) {
                            Some(t) => {
                                assert(sp_string(s@, i as int) == Some((seq![c] + t.0, t.1)));
                                assert(old_content + (seq![c] + t.0) =~= content@ + t.0);
                            },
                            None => {
                                assert(sp_string(s@, i as int) is None);
                            },
                        }
                    }
                    i = i + 2;
                },
            }
        } else {
            let ghost old_content = content@;
            content.push(b);
            proof {
                match sp_string(s@, i as int + 1) {
                    Some(t) => {
                        assert(sp_string(s@, i as int) == Some((seq![b] + t.0, t.1)));
                        assert(old_content + (seq![b] + t.0) =~= content@ + t.0);
                    },
                    None => {
                        assert(sp_string(s@, i as int) is None);
                    },
                }
            }
            i = i + 1;
        }
    }
}

fn parse_pair(s: &Vec<u8>, start: usize) -> (r: Option<(Vec<u8>, Vec<u8>, usize)>)
    ensures
        r is None ==> sp_pair(s@, start as int) is None,
        r matches Some(p) ==> sp_pair(s@, start as int) == Some(((p.0@, p.1@), p.2 as int))
            && start < p.2 <= s@.len(),
{
    let n: usize = s.len();
    if start >= n {
        return None;
    }
    if s[start] != 0x22 {
        return None;
    }
    match parse_string(s, start + 1) {
        None => None,
        Some((k, j)) => {
            if j < n && s[j] == 0x3a {
                if j + 1 < n && s[j + 1] == 0x22 {
                    match parse_string(s, j + 2) {
                        None => None,
                        Some((v, m)) => Some((k, v, m)),
                    }
                } else {
                    None
                }
            } else {
                None
            }
        },
    }
}

/// Parses payload bytes as a compact JSON object of string members; yields
/// the members in order, or nothing when the bytes are not in that form.
pub fn parse_object(s: &Vec<u8>) -> (r: Option<Vec<(Vec<u8>, Vec<u8>)>>)
    ensures
        r is None ==> sp_object(s@) is None,
        r matches Some(ps) ==> sp_object(s@) == Some(pairs_view(ps@)),
{
    let n: usize = s.len();
    if n < 2 {
        return None;
    }
    if s[0] != 0x7b {
        return None;
    }
    if n == 2 && s[1] == 0x7d {
        let empty: Vec<(Vec<u8>, Vec<u8>)> = Vec::new();
        proof {
            assert(pairs_view(empty@) =~= Seq::<(Seq<u8>, Seq<u8>)>::empty());
        }
        return Some(empty);
    }
    match parse_pair(s, 1) {
        None => None,
        Some((k0, v0, j0)) => {
            let mut pairs: Vec<(Vec<u8>, Vec<u8>)> = Vec::new();
            let ghost k0v = k0@;
            let ghost v0v = v0@;
            pairs.push((k0, v0));
            let mut i: usize = j0;
            proof {
                assert(pairs_view(pairs@) =~= seq![(k0v, v0v)]);
                match sp_rest(s@, i as int) {
                    Some(ps) => {
                        assert(sp_object(s@) == Some(seq![(k0v, v0v)] + ps));
                    },
                    None => {
                        assert(sp_object(s@) is None);
                    },
                }
            }
            loop
                invariant
                    n == s@.len(),
                    1 <= i <= n,
                    sp_object(s@) == (match sp_rest(s@, i as int) {
                        Some(ps) => Some(pairs_view(pairs@) + ps),
                        None => None::<Seq<(Seq<u8>, Seq<u8>)>>,
                    }),
                decreases n - i,
            {
                if i >= n {
                    return None;
                }
                let b: u8 = s[i];
                if b == 0x7d {
                    if i + 1 == n {
                        proof {
                            assert(sp_rest(s@, i as int) == Some(
                                Seq::<(Seq<u8>, Seq<u8>)>::empty(),
                            ));
                            assert(pairs_view(pairs@) + Seq::<(Seq<u8>, Seq<u8>)>::empty()
                                =~= pairs_view(pairs@));
                        }
                        return Some(pairs);
                    } else {
                        return None;
                    }
                } else if b == 0x2c {
                    match parse_pair(s, i + 1) {
                        None => {
                            return None;
                        },
                        Some((k, v, j)) => {
                            let ghost oldp = pairs@;
                            let ghost kv = k@;
                            let ghost vv = v@;
                            pairs.push((k, v));
                            proof {
                                assert(pairs_view(pairs@) =~= pairs_view(oldp) + seq![(kv, vv)]);
                                match sp_rest(s@, j as int) {
                                    Some(ps) => {
                                        assert(sp_rest(s@, i as int) == Some(seq![(kv, vv)] + ps));
                                        assert(pairs_view(oldp) + (seq![(kv, vv)] + ps)
                                            =~= pairs_view(pairs@) + ps);
                                    },
                                    None => {
                                        assert(sp_rest(s@, i as int) is None);
                                    },
                                }
                            }
                            i = j;
                        },
                    }
                } else {
                    return None;
                }
            }
        },
    }
}

fn lookup_field(pairs: &Vec<(Vec<u8>, Vec<u8>)>, key: &[u8]) -> (r: Option<Vec<u8>>)
    ensures
        r is None ==> field_bytes(pairs_view(pairs@), key@) is None,
        r matches Some(v) ==> field_bytes(pairs_view(pairs@), key@) == Some(v@),
{
    let ghost pv = pairs_view(pairs@);
    let mut i: usize = pairs.len();
    proof {
        assert(pv.subrange(0, pairs@.len() as int) =~= pv);
    }
    while i > 0
        invariant
            i <= pairs@.len(),
            pv == pairs_view(pairs@),
            field_bytes(pv, key@) == field_bytes(pv.subrange(0, i as int), key@),
        decreases i,
    {
        let idx: usize = i - 1;
        let p = &pairs[idx];
        let hit = bytes_eq(p.0.as_slice(), key);
        proof {
            assert(pv.subrange(0, idx as int + 1).last() == pv[idx as int]);
            assert(pv[idx as int] == (pairs@[idx as int].0@, pairs@[idx as int].1@));
            assert(pv.subrange(0, idx as int + 1).drop_last() =~= pv.subrange(0, idx as int));
        }
        if hit {
            proof {
                assert(field_bytes(pv.subrange(0, idx as int + 1), key@) == Some(
                    pairs@[idx as int].1@,
                ));
            }
            return Some(vstd::slice::slice_to_vec(p.1.as_slice()));
        }
        proof {
            assert(field_bytes(pv.subrange(0, idx as int + 1), key@) == field_bytes(
                pv.subrange(0, idx as int),
                key@,
            ));
        }
        i = idx;
    }
    proof {
        assert(pv.subrange(0, 0) =~= Seq::<(Seq<u8>, Seq<u8>)>::empty());
    }
    None
}

fn amount_key_vec() -> (r: Vec<u8>)
    ensures
        r@ == amount_key(),
{
    let mut v: Vec<u8> = Vec::new();
    v.push(0x61);
    v.push(0x6d);
    v.push(0x6f);
    v.push(0x75);
    v.push(0x6e);
    v.push(0x74);
    proof {
        assert(v@ =~= amount_key());
    }
    v
}

fn denom_key_vec() -> (r: Vec<u8>)
    ensures
        r@ == denom_key(),
{
    let mut v: Vec<u8> = Vec::new();
    v.push(0x64);
    v.push(0x65);
    v.push(0x6e);
    v.push(0x6f);
    v.push(0x6d);
    proof {
        assert(v@ =~= denom_key());
    }
    v
}

fn sender_key_vec() -> (r: Vec<u8>)
    ensures
        r@ == sender_key(),
{
    let mut v: Vec<u8> = Vec::new();
    v.push(0x73);
    v.push(0x65);
    v.push(0x6e);
    v.push(0x64);
    v.push(0x65);
    v.push(0x72);
    proof {
        assert(v@ =~= sender_key());
    }
    v
}

fn receiver_key_vec() -> (r: Vec<u8>)
    ensures
        r@ == receiver_key(),
{
    let mut v: Vec<u8> = Vec::new();
    v.push(0x72);
    v.push(0x65);
    v.push(0x63);
    v.push(0x65);
    v.push(0x69);
    v.push(0x76);
    v.push(0x65);
    v.push(0x72);
    proof {
        assert(v@ =~= receiver_key());
    }
    v
}

/// Decodes payload bytes into the four members of a transfer packet,
/// exactly as [`spec_decode_payload`] says: the first failure in the order
/// object form, amount, denom, sender, receiver is reported, and a present
/// member is returned verbatim.
pub fn decode_payload(bytes: &Vec<u8>) -> (r: Result<FungibleTokenPacketData, DecodeError>)
    ensures
        r matches Ok(d) ==> spec_decode_payload(bytes@) == Ok::<FtpdView, DecodeError>(d@),
        r matches Err(e) ==> spec_decode_payload(bytes@) == Err::<FtpdView, DecodeError>(e),
{
    let pairs = match parse_object(bytes) {
        None => {
            return Err(DecodeError::BadJson);
        },
        Some(ps) => ps,
    };
    let akey = amount_key_vec();
    let amount: String = match lookup_field(&pairs, akey.as_slice()) {
        None => {
            return Err(DecodeError::MissingAmount);
        },
        Some(v) => match bytes_to_str(v.as_slice()) {
            None => {
                return Err(DecodeError::BadUtf8);
            },
            Some(t) => t.to_owned(),
        },
    };
    let dkey = denom_key_vec();
    let denom: String = match lookup_field(&pairs, dkey.as_slice()) {
        None => {
            return Err(DecodeError::MissingDenom);
        },
        Some(v) => match bytes_to_str(v.as_slice()) {
            None => {
                return Err(DecodeError::BadUtf8);
            },
            Some(t) => t.to_owned(),
        },
    };
    let skey = sender_key_vec();
    let sender: String = match lookup_field(&pairs, skey.as_slice()) {
        None => {
            return Err(DecodeError::MissingSender);
        },
        Some(v) => match bytes_to_str(v.as_slice()) {
            None => {
                return Err(DecodeError::BadUtf8);
            },
            Some(t) => t.to_owned(),
        },
    };
    let rkey = receiver_key_vec();
    let receiver: String = match lookup_field(&pairs, rkey.as_slice()) {
        None => {
            return Err(DecodeError::MissingReceiver);
        },
        Some(v) => match bytes_to_str(v.as_slice()) {
            None => {
                return Err(DecodeError::BadUtf8);
            },
            Some(t) => t.to_owned(),
        },
    };
    Ok(FungibleTokenPacketData { amount, denom, sender, receiver })
}

// ---------------------------------------------------------------------------
// Executable printer.
// ---------------------------------------------------------------------------

proof fn lemma_escape_bytes_snoc(s: Seq<u8>, x: u8)
    ensures
        escape_bytes(s.push(x)) == escape_bytes(s) + escape_byte(x),
    decreases s.len(),
{
    if s.len() == 0 {
        assert(s.push(x).first() == x);
        assert(s.push(x).drop_first() =~= Seq::<u8>::empty());
        assert(escape_byte(x) + escape_bytes(Seq::<u8>::empty()) =~= escape_byte(x));
        assert(escape_bytes(s) + escape_byte(x) =~= escape_byte(x));
    } else {
        assert(s.push(x).first() == s.first());
        assert(s.push(x).drop_first() =~= s.drop_first().push(x));
        lemma_escape_bytes_snoc(s.drop_first(), x);
        assert(escape_byte(s.first()) + (escape_bytes(s.drop_first()) + escape_byte(x)) =~= (
        escape_byte(s.first()) + escape_bytes(s.drop_first())) + escape_byte(x));
    }
}

fn push_escaped(out: &mut Vec<u8>, b: &[u8])
    ensures
        final(out)@ == old(out)@ + escape_bytes(b@),
{
    let n: usize = b.len();
    let mut i: usize = 0;
    proof {
        assert(b@.subrange(0, 0) =~= Seq::<u8>::empty());
        assert(old(out)@ + Seq::<u8>::empty() =~= old(out)@);
    }
    while i < n
        invariant
            n == b@.len(),
            0 <= i <= n,
            out@ == old(out)@ + escape_bytes(b@.subrange(0, i as int)),
        decreases n - i,
    {
        let x: u8 = b[i];
        let ghost pre = b@.subrange(0, i as int);
        proof {
            assert(b@.subrange(0, i as int + 1) =~= pre.push(b@[i as int]));
            lemma_escape_bytes_snoc(pre, b@[i as int]);
        }
        if x == 0x22 || x == 0x5c {
            out.push(0x5c);
            out.push(x);
        } else {
            out.push(x);
        }
        proof {
            assert(out@ =~= old(out)@ + escape_bytes(b@.subrange(0, i as int + 1)));
        }
        i += 1;
    }
    proof {
        assert(b@.subrange(0, n as int) =~= b@);
    }
}

fn push_quoted(out: &mut Vec<u8>, content: &[u8])
    ensures
        final(out)@ == old(out)@ + quoted(content@),
{
    out.push(0x22);
    push_escaped(out, content);
    out.push(0x22);
    proof {
        assert(out@ =~= old(out)@ + quoted(content@));
    }
}

/// Writes a payload in its canonical wire form, exactly as
/// [`spec_encode_payload`] says.
pub fn encode_payload(d: &FungibleTokenPacketData) -> (r: Vec<u8>)
    ensures
        r@ == spec_encode_payload(d@),
{
    let mut out: Vec<u8> = Vec::new();
    out.push(0x7b);
    let ak = amount_key_vec();
    push_quoted(&mut out, ak.as_slice());
    out.push(0x3a);
    push_quoted(&mut out, d.amount.as_str().as_bytes());
    out.push(0x2c);
    let dk = denom_key_vec();
    push_quoted(&mut out, dk.as_slice());
    out.push(0x3a);
    push_quoted(&mut out, d.denom.as_str().as_bytes());
    out.push(0x2c);
    let sk = sender_key_vec();
    push_quoted(&mut out, sk.as_slice());
    out.push(0x3a);
    push_quoted(&mut out, d.sender.as_str().as_bytes());
    out.push(0x2c);
    let rk = receiver_key_vec();
    push_quoted(&mut out, rk.as_slice());
    out.push(0x3a);
    push_quoted(&mut out, d.receiver.as_str().as_bytes());
    out.push(0x7d);
    proof {
        let dv = d@;
        let ps = payload_pairs(dv);
        let ea = vstd::utf8::encode_utf8(dv.amount);
        let ed = vstd::utf8::encode_utf8(dv.denom);
        let es = vstd::utf8::encode_utf8(dv.sender);
        let er = vstd::utf8::encode_utf8(dv.receiver);
        let p1 = ps.drop_first();
        let p2 = p1.drop_first();
        let p3 = p2.drop_first();
        let p4 = p3.drop_first();
        assert(ps.first() == (amount_key(), ea));
        assert(p1.first() == (denom_key(), ed));
        assert(p2.first() == (sender_key(), es));
        assert(p3.first() == (receiver_key(), er));
        assert(p4.len() == 0);
        assert(enc_rest(p3) == seq![0x2cu8] + enc_pair(receiver_key(), er) + enc_rest(p4));
        assert(enc_rest(p2) == seq![0x2cu8] + enc_pair(sender_key(), es) + enc_rest(p3));
        assert(enc_rest(p1) == seq![0x2cu8] + enc_pair(denom_key(), ed) + enc_rest(p2));
        assert(enc_rest(p4) == seq![0x7du8]);
        assert(out@ =~= spec_encode_payload(dv));
    }
    out
}

/// Round trip through the wire encoding, executably: printing a payload,
/// hex-encoding it, hex-decoding it and parsing it back always succeeds and
/// returns the same four members.
pub fn encode_decode_round_trip(d: &FungibleTokenPacketData) -> (r: Result<
    FungibleTokenPacketData,
    DecodeError,
>)
    ensures
        r matches Ok(d2) && d2@ == d@,
{
    let bytes = encode_payload(d);
    let hexs = crate::hexcodec::hex_encode(bytes.as_slice());
    proof {
        crate::hexcodec::lemma_hex_round_trip(bytes@);
    }
    match crate::hexcodec::hex_decode(hexs.as_str()) {
        None => {
            proof {
                assert(false);
            }
            Err(DecodeError::BadHex)
        },
        Some(back) => {
            proof {
                lemma_payload_round_trip(d@);
            }
            decode_payload(&back)
        },
    }
}

} // verus!
