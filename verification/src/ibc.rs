//! Chain events, the per-channel filter, the packet decoder and the poller
//! cursor state machine.
//!
//! The application shell fetches heights and block results over RPC and
//! performs sleeps; everything it decides with — which height to fetch
//! next, which events qualify, what each event decodes to, and when the
//! cursor may advance — is computed and proved here. The cursor advances
//! past a height only in [`IbcPoller::process_block`], after every
//! qualifying event of that height has produced an outcome.

use vstd::prelude::*;
use crate::hexcodec::hex_bytes;
use crate::hexcodec::hex_decode;
use crate::hexcodec::is_hex_seq;
pub use crate::payload::DecodeError;
pub use crate::payload::FungibleTokenPacketData;
use crate::payload::FtpdView;
use crate::payload::decode_payload;
use crate::payload::spec_decode_payload;
use crate::strutil::parse_u64;
use crate::strutil::spec_parse_u64;
use crate::strutil::str_eq;

verus! {

/// One transaction event as the source chain reports it: a kind tag and
/// ordered key/value attributes. Later duplicate keys override earlier
/// ones, as event-attribute semantics have it.
#[derive(Debug, Clone)]
pub struct ChannelEvent {
    pub kind: String,
    pub attributes: Vec<(String, String)>,
}

/// Mathematical image of [`ChannelEvent`].
pub struct EventView {
    pub kind: Seq<char>,
    pub attributes: Seq<(Seq<char>, Seq<char>)>,
}

/// The attributes of an event, as mathematical sequences.
pub open spec fn attrs_view(s: Seq<(String, String)>) -> Seq<(Seq<char>, Seq<char>)> {
    s.map_values(|p: (String, String)| (p.0@, p.1@))
}

impl View for ChannelEvent {
    type V = EventView;

    open spec fn view(&self) -> EventView {
        EventView { kind: self.kind@, attributes: attrs_view(self.attributes@) }
    }
}

/// The value of `key` among `attrs`, later entries overriding earlier ones.
pub open spec fn attr_value(attrs: Seq<(Seq<char>, Seq<char>)>, key: Seq<char>) -> Option<
    Seq<char>,
>
    decreases attrs.len(),
{
    if attrs.len() == 0 {
        None
    } else if attrs.last().0 == key {
        Some(attrs.last().1)
    } else {
        attr_value(attrs.drop_last(), key)
    }
}

/// The value of `key`, or the empty string when absent.
pub open spec fn attr_or_empty(attrs: Seq<(Seq<char>, Seq<char>)>, key: Seq<char>) -> Seq<char> {
    match attr_value(attrs, key) {
        Some(v) => v,
        None => Seq::empty(),
    }
}

/// The filter: an event qualifies exactly when its kind is `send_packet` or
/// `write_acknowledgement` and some attribute named `packet_src_channel` or
/// `packet_dst_channel` carries the monitored channel id.
pub open spec fn spec_is_relevant(e: EventView, channel: Seq<char>) -> bool {
    &&& (e.kind == "send_packet"@ || e.kind == "write_acknowledgement"@)
    &&& exists|i: int|
        0 <= i < e.attributes.len() && ((#[trigger] e.attributes[i]).0 == "packet_src_channel"@
            || e.attributes[i].0 == "packet_dst_channel"@) && e.attributes[i].1 == channel
}

/// Decides the filter, exactly as [`spec_is_relevant`] says.
pub fn is_relevant(event: &ChannelEvent, channel_id: &str) -> (r: bool)
    ensures
        r == spec_is_relevant(event@, channel_id@),
{
    let kind_ok = str_eq(event.kind.as_str(), "send_packet") || str_eq(
        event.kind.as_str(),
        "write_acknowledgement",
    );
    if !kind_ok {
        return false;
    }
    let n: usize = event.attributes.len();
    let mut i: usize = 0;
    while i < n
        invariant
            n == event.attributes@.len(),
            0 <= i <= n,
            event@.attributes.len() == n,
            event@.kind == "send_packet"@ || event@.kind == "write_acknowledgement"@,
            forall|j: int|
                0 <= j < i ==> !(((#[trigger] event@.attributes[j]).0 == "packet_src_channel"@
                    || event@.attributes[j].0 == "packet_dst_channel"@) && event@.attributes[j].1
                    == channel_id@),
        decreases n - i,
    {
        let a = &event.attributes[i];
        proof {
            assert(event@.attributes[i as int] == (a.0@, a.1@));
        }
        let key_match = str_eq(a.0.as_str(), "packet_src_channel") || str_eq(
            a.0.as_str(),
            "packet_dst_channel",
        );
        if key_match && str_eq(a.1.as_str(), channel_id) {
            proof {
                let ghost w: int = i as int;
                assert(0 <= w < event@.attributes.len() && ((#[trigger] event@.attributes[w]).0
                    == "packet_src_channel"@ || event@.attributes[w].0 == "packet_dst_channel"@)
                    && event@.attributes[w].1 == channel_id@);
            }
            return true;
        }
        i += 1;
    }
    false
}

/// One decoded outbound packet, with identifiers and timeouts carried
/// verbatim from the event attributes.
#[derive(Debug, Clone)]
pub struct ParsedPacket {
    pub sequence: u64,
    pub src_port: String,
    pub src_channel: String,
    pub dst_port: String,
    pub dst_channel: String,
    pub timeout_height: String,
    pub timeout_timestamp: u64,
    pub data: FungibleTokenPacketData,
}

/// Mathematical image of [`ParsedPacket`].
pub struct PacketView {
    pub sequence: u64,
    pub src_port: Seq<char>,
    pub src_channel: Seq<char>,
    pub dst_port: Seq<char>,
    pub dst_channel: Seq<char>,
    pub timeout_height: Seq<char>,
    pub timeout_timestamp: u64,
    pub data: FtpdView,
}

impl View for ParsedPacket {
    type V = PacketView;

    open spec fn view(&self) -> PacketView {
        PacketView {
            sequence: self.sequence,
            src_port: self.src_port@,
            src_channel: self.src_channel@,
            dst_port: self.dst_port@,
            dst_channel: self.dst_channel@,
            timeout_height: self.timeout_height@,
            timeout_timestamp: self.timeout_timestamp,
            data: self.data@,
        }
    }
}

/// What decoding an event yields: a packet, or the first failure in the
/// order sequence, timestamp, data presence, hex form, payload form.
/// `packet_sequence` and `packet_timeout_timestamp` must parse as decimal
/// `u64` — an unparsable value is rejected, never defaulted to zero, since
/// a message for sequence zero would misrepresent an unparsable packet.
/// Port, channel and timeout-height attributes default to the empty string
/// when absent.
pub open spec fn spec_decode_event(e: EventView) -> Result<PacketView, DecodeError> {
    let attrs = e.attributes;
    match attr_value(attrs, "packet_sequence"@) {
        None => Err(DecodeError::BadSequence),
        Some(seq_s) => match spec_parse_u64(seq_s) {
            None => Err(DecodeError::BadSequence),
            Some(sequence) => match attr_value(attrs, "packet_timeout_timestamp"@) {
                None => Err(DecodeError::BadTimestamp),
                Some(ts_s) => match spec_parse_u64(ts_s) {
                    None => Err(DecodeError::BadTimestamp),
                    Some(timeout_timestamp) => match attr_value(attrs, "packet_data_hex"@) {
                        None => Err(DecodeError::MissingData),
                        Some(hex_s) => if hex_s.len() == 0 {
                            Err(DecodeError::MissingData)
                        } else if !is_hex_seq(hex_s) {
                            Err(DecodeError::BadHex)
                        } else {
                            match spec_decode_payload(hex_bytes(hex_s)) {
                                Err(e2) => Err(e2),
                                Ok(data) => Ok(
                                    PacketView {
                                        sequence,
                                        src_port: attr_or_empty(attrs, "packet_src_port"@),
                                        src_channel: attr_or_empty(attrs, "packet_src_channel"@),
                                        dst_port: attr_or_empty(attrs, "packet_dst_port"@),
                                        dst_channel: attr_or_empty(attrs, "packet_dst_channel"@),
                                        timeout_height: attr_or_empty(
                                            attrs,
                                            "packet_timeout_height"@,
                                        ),
                                        timeout_timestamp,
                                        data,
                                    },
                                ),
                            }
                        },
                    },
                },
            },
        },
    }
}

/// Decoding is a pure function of the event's kind and attributes: equal
/// events always decode to equal results.
pub proof fn lemma_decode_deterministic(e1: EventView, e2: EventView)
    requires
        e1 == e2,
    ensures
        spec_decode_event(e1) == spec_decode_event(e2),
{
}

fn lookup_attr(attrs: &Vec<(String, String)>, key: &str) -> (r: Option<String>)
    ensures
        r is None ==> attr_value(attrs_view(attrs@), key@) is None,
        r matches Some(v) ==> attr_value(attrs_view(attrs@), key@) == Some(v@),
{
    let ghost av = attrs_view(attrs@);
    let mut i: usize = attrs.len();
    proof {
        assert(av.subrange(0, attrs@.len() as int) =~= av);
    }
    while i > 0
        invariant
            i <= attrs@.len(),
            av == attrs_view(attrs@),
            attr_value(av, key@) == attr_value(av.subrange(0, i as int), key@),
        decreases i,
    {
        let idx: usize = i - 1;
        let p = &attrs[idx];
        let hit = str_eq(p.0.as_str(), key);
        proof {
            assert(av.subrange(0, idx as int + 1).last() == av[idx as int]);
            assert(av[idx as int] == (attrs@[idx as int].0@, attrs@[idx as int].1@));
            assert(av.subrange(0, idx as int + 1).drop_last() =~= av.subrange(0, idx as int));
        }
        if hit {
            proof {
                assert(attr_value(av.subrange(0, idx as int + 1), key@) == Some(
                    attrs@[idx as int].1@,
                ));
            }
            return Some(p.1.clone());
        }
        proof {
            assert(attr_value(av.subrange(0, idx as int + 1), key@) == attr_value(
                av.subrange(0, idx as int),
                key@,
            ));
        }
        i = idx;
    }
    proof {
        assert(av.subrange(0, 0) =~= Seq::<(Seq<char>, Seq<char>)>::empty());
    }
    None
}

fn lookup_attr_or_empty(attrs: &Vec<(String, String)>, key: &str) -> (r: String)
    ensures
        r@ == attr_or_empty(attrs_view(attrs@), key@),
{
    match lookup_attr(attrs, key) {
        Some(v) => v,
        None => String::new(),
    }
}

/// Decodes one qualifying event into a packet, exactly as
/// [`spec_decode_event`] says. Errors are per-packet and leave the
/// surrounding loop to continue with the next event.
pub fn decode_event(event: &ChannelEvent) -> (r: Result<ParsedPacket, DecodeError>)
    ensures
        r matches Ok(p) ==> spec_decode_event(event@) == Ok::<PacketView, DecodeError>(p@),
        r matches Err(e) ==> spec_decode_event(event@) == Err::<PacketView, DecodeError>(e),
{
    let attrs = &event.attributes;
    let sequence: u64 = match lookup_attr(attrs, "packet_sequence") {
        None => {
            return Err(DecodeError::BadSequence);
        },
        Some(s) => match parse_u64(s.as_str()) {
            None => {
                return Err(DecodeError::BadSequence);
            },
            Some(v) => v,
        },
    };
    let timeout_timestamp: u64 = match lookup_attr(attrs, "packet_timeout_timestamp") {
        None => {
            return Err(DecodeError::BadTimestamp);
        },
        Some(s) => match parse_u64(s.as_str()) {
            None => {
                return Err(DecodeError::BadTimestamp);
            },
            Some(v) => v,
        },
    };
    let hex_s: String = match lookup_attr(attrs, "packet_data_hex") {
        None => {
            return Err(DecodeError::MissingData);
        },
        Some(s) => s,
    };
    if hex_s.as_str().is_empty() {
        return Err(DecodeError::MissingData);
    }
    let bytes = match hex_decode(hex_s.as_str()) {
        None => {
            return Err(DecodeError::BadHex);
        },
        Some(b) => b,
    };
    let data = match decode_payload(&bytes) {
        Err(e) => {
            return Err(e);
        },
        Ok(d) => d,
    };
    let src_port = lookup_attr_or_empty(attrs, "packet_src_port");
    let src_channel = lookup_attr_or_empty(attrs, "packet_src_channel");
    let dst_port = lookup_attr_or_empty(attrs, "packet_dst_port");
    let dst_channel = lookup_attr_or_empty(attrs, "packet_dst_channel");
    let timeout_height = lookup_attr_or_empty(attrs, "packet_timeout_height");
    Ok(
        ParsedPacket {
            sequence,
            src_port,
            src_channel,
            dst_port,
            dst_channel,
            timeout_height,
            timeout_timestamp,
            data,
        },
    )
}

/// What became of one qualifying event: a decoded packet, or a reported
/// decode error. Nothing qualifying is ever dropped without one of the two.
#[derive(Debug)]
pub enum EventOutcome {
    Decoded(ParsedPacket),
    Rejected(DecodeError),
}

impl View for EventOutcome {
    type V = Result<PacketView, DecodeError>;

    open spec fn view(&self) -> Result<PacketView, DecodeError> {
        match self {
            EventOutcome::Decoded(p) => Ok(p@),
            EventOutcome::Rejected(e) => Err(*e),
        }
    }
}

/// A block's events, as mathematical values.
pub open spec fn events_view(s: Seq<ChannelEvent>) -> Seq<EventView> {
    s.map_values(|e: ChannelEvent| e@)
}

/// A block's outcomes, as mathematical values.
pub open spec fn outcomes_view(s: Seq<EventOutcome>) -> Seq<Result<PacketView, DecodeError>> {
    s.map_values(|o: EventOutcome| o@)
}

/// What processing a block yields: one outcome per qualifying event, in
/// block order — the decode result of exactly that event.
pub open spec fn spec_block_outcomes(events: Seq<EventView>, channel: Seq<char>) -> Seq<
    Result<PacketView, DecodeError>,
>
    decreases events.len(),
{
    if events.len() == 0 {
        Seq::empty()
    } else {
        spec_block_outcomes(events.drop_last(), channel) + (if spec_is_relevant(
            events.last(),
            channel,
        ) {
            seq![spec_decode_event(events.last())]
        } else {
            Seq::empty()
        })
    }
}

/// No silent loss: every qualifying event of a block contributes its decode
/// result to the block's outcomes — a packet or a reported error, never
/// nothing.
pub proof fn lemma_no_silent_loss(events: Seq<EventView>, channel: Seq<char>, i: int)
    requires
        0 <= i < events.len(),
        spec_is_relevant(events[i], channel),
    ensures
        exists|j: int|
            0 <= j < spec_block_outcomes(events, channel).len() && #[trigger] spec_block_outcomes(
                events,
                channel,
            )[j] == spec_decode_event(events[i]),
    decreases events.len(),
{
    let outs = spec_block_outcomes(events, channel);
    let pre = spec_block_outcomes(events.drop_last(), channel);
    if i == events.len() - 1 {
        assert(events.last() == events[i]);
        assert(outs[pre.len() as int] == spec_decode_event(events[i]));
    } else {
        assert(events.drop_last()[i] == events[i]);
        lemma_no_silent_loss(events.drop_last(), channel, i);
        let j = choose|j: int|
            0 <= j < pre.len() && #[trigger] pre[j] == spec_decode_event(events.drop_last()[i]);
        assert(outs[j] == spec_decode_event(events[i]));
    }
}

/// The qualifying events of a block, in the order the chain reported them.
pub open spec fn spec_qualifying(events: Seq<EventView>, channel: Seq<char>) -> Seq<EventView>
    decreases events.len(),
{
    if events.len() == 0 {
        Seq::empty()
    } else {
        spec_qualifying(events.drop_last(), channel) + (if spec_is_relevant(
            events.last(),
            channel,
        ) {
            seq![events.last()]
        } else {
            Seq::empty()
        })
    }
}

/// Order preservation: a block's outcomes are exactly the decode results of
/// its qualifying events, one each, in the order the chain reported them —
/// packet sequence numbers are meaningful only in that order.
pub proof fn lemma_outcomes_in_event_order(events: Seq<EventView>, channel: Seq<char>)
    ensures
        spec_block_outcomes(events, channel) =~= spec_qualifying(events, channel).map_values(
            |e: EventView| spec_decode_event(e),
        ),
        spec_block_outcomes(events, channel).len() == spec_qualifying(events, channel).len(),
    decreases events.len(),
{
    let f = |e: EventView| spec_decode_event(e);
    if events.len() > 0 {
        lemma_outcomes_in_event_order(events.drop_last(), channel);
        let q = spec_qualifying(events.drop_last(), channel);
        let tailq = if spec_is_relevant(events.last(), channel) {
            seq![events.last()]
        } else {
            Seq::<EventView>::empty()
        };
        assert((q + tailq).map_values(f) =~= q.map_values(f) + tailq.map_values(f));
        if spec_is_relevant(events.last(), channel) {
            assert(tailq.map_values(f) =~= seq![spec_decode_event(events.last())]);
        } else {
            assert(tailq.map_values(f) =~= Seq::<Result<PacketView, DecodeError>>::empty());
        }
    }
}

/// Fixed backoff before retrying a failed height fetch.
pub const HEIGHT_RETRY_BACKOFF_MILLIS: u64 = 10000;

/// Idle interval between poll cycles once the poller has caught up.
pub const CATCHUP_IDLE_MILLIS: u64 = 6000;

/// Pacing between consecutive block fetches, bounding the RPC rate.
pub const BLOCK_PACE_MILLIS: u64 = 200;

/// How many times a block-results fetch is retried before the fault is
/// escalated for that height. The cursor stays pinned throughout.
pub const MAX_BLOCK_FETCH_ATTEMPTS: u32 = 5;

/// Per-channel poller state: the monitored channel, the cursor (the last
/// fully processed height) and the retry count for the pending height.
#[derive(Debug)]
pub struct IbcPoller {
    pub channel_id: String,
    pub last_height: u64,
    pub block_attempts: u32,
}

/// Mathematical image of [`IbcPoller`].
pub struct PollerView {
    pub channel_id: Seq<char>,
    pub last_height: u64,
    pub block_attempts: u32,
}

impl View for IbcPoller {
    type V = PollerView;

    open spec fn view(&self) -> PollerView {
        PollerView {
            channel_id: self.channel_id@,
            last_height: self.last_height,
            block_attempts: self.block_attempts,
        }
    }
}

/// One legal poller transition: nothing changed (idle, or a height-fetch
/// retry), one block processed (the cursor advances by exactly one and the
/// retry count resets), or a block-fetch failure recorded (the cursor stays
/// pinned). The monitored channel never changes.
pub open spec fn poller_step(pre: PollerView, post: PollerView) -> bool {
    ||| post == pre
    ||| (post.channel_id == pre.channel_id && post.last_height == pre.last_height + 1
        && post.block_attempts == 0)
    ||| (post.channel_id == pre.channel_id && post.last_height == pre.last_height)
}

/// Monotonic cursor: over any run of legal poller transitions, the cursor
/// never decreases.
pub proof fn lemma_cursor_monotonic(trace: Seq<PollerView>, i: int, j: int)
    requires
        forall|k: int| 0 <= k < trace.len() - 1 ==> poller_step(#[trigger] trace[k], trace[k + 1]),
        0 <= i <= j < trace.len(),
    ensures
        trace[i].last_height <= trace[j].last_height,
    decreases j - i,
{
    if i < j {
        lemma_cursor_monotonic(trace, i, j - 1);
        assert(poller_step(trace[j - 1], trace[j]));
    }
}

impl IbcPoller {
    /// Starts a poller for one channel at the chain's current height;
    /// packets in blocks before poller start are out of scope and are not
    /// backfilled.
    pub fn new(channel_id: String, current_height: u64) -> (r: Self)
        ensures
            r@.channel_id == channel_id@,
            r@.last_height == current_height,
            r@.block_attempts == 0,
    {
        IbcPoller { channel_id, last_height: current_height, block_attempts: 0 }
    }

    /// The next height to fetch, when the chain has moved past the cursor;
    /// nothing to do otherwise.
    pub fn next_height(&self, current_height: u64) -> (r: Option<u64>)
        ensures
            self.last_height < current_height ==> r == Some((self.last_height + 1) as u64),
            self.last_height >= current_height ==> r is None,
    {
        if self.last_height < current_height {
            Some(self.last_height + 1)
        } else {
            None
        }
    }

    /// Processes one block's events: filters to the monitored channel and
    /// decodes each qualifying event, and only then advances the cursor to
    /// `height` and resets the retry count. The outcomes are exactly
    /// [`spec_block_outcomes`] of the block: one entry per qualifying
    /// event, in order.
    pub fn process_block(&mut self, height: u64, events: &Vec<ChannelEvent>) -> (outcomes: Vec<
        EventOutcome,
    >)
        requires
            height == old(self).last_height + 1,
        ensures
            final(self)@.channel_id == old(self)@.channel_id,
            final(self)@.last_height == height,
            final(self)@.block_attempts == 0,
            outcomes_view(outcomes@) == spec_block_outcomes(
                events_view(events@),
                old(self)@.channel_id,
            ),
            poller_step(old(self)@, final(self)@),
    {
        let ghost evs = events_view(events@);
        let mut outcomes: Vec<EventOutcome> = Vec::new();
        let n: usize = events.len();
        let mut i: usize = 0;
        proof {
            assert(evs.subrange(0, 0) =~= Seq::<EventView>::empty());
            assert(outcomes_view(outcomes@) =~= Seq::<Result<PacketView, DecodeError>>::empty());
        }
        while i < n
            invariant
                n == events@.len(),
                0 <= i <= n,
                evs == events_view(events@),
                self.channel_id@ == old(self)@.channel_id,
                self.last_height == old(self)@.last_height,
                self.block_attempts == old(self)@.block_attempts,
                outcomes_view(outcomes@) == spec_block_outcomes(
                    evs.subrange(0, i as int),
                    self.channel_id@,
                ),
            decreases n - i,
        {
            let ev = &events[i];
            let ghost pre_outs = outcomes@;
            proof {
                assert(evs.subrange(0, i as int + 1).drop_last() =~= evs.subrange(0, i as int));
                assert(evs.subrange(0, i as int + 1).last() == evs[i as int]);
                assert(evs[i as int] == events@[i as int]@);
            }
            if is_relevant(ev, self.channel_id.as_str()) {
                match decode_event(ev) {
                    Ok(p) => {
                        outcomes.push(EventOutcome::Decoded(p));
                    },
                    Err(e) => {
                        outcomes.push(EventOutcome::Rejected(e));
                    },
                }
                proof {
                    assert(outcomes_view(outcomes@) =~= outcomes_view(pre_outs) + seq![
                        spec_decode_event(evs[i as int]),
                    ]);
                }
            } else {
                proof {
                    assert(outcomes_view(outcomes@) + Seq::<
                        Result<PacketView, DecodeError>,
                    >::empty() =~= outcomes_view(outcomes@));
                }
            }
            i += 1;
        }
        proof {
            assert(evs.subrange(0, n as int) =~= evs);
        }
        self.last_height = height;
        self.block_attempts = 0;
        outcomes
    }

    /// Records a failed block-results fetch for the pending height: the
    /// cursor stays pinned — the height is never skipped — and the caller
    /// learns whether the bounded retries are exhausted and the fault must
    /// be escalated for this height.
    pub fn record_block_failure(&mut self) -> (escalate: bool)
        ensures
            final(self)@.channel_id == old(self)@.channel_id,
            final(self)@.last_height == old(self)@.last_height,
            final(self)@.block_attempts == (if old(self)@.block_attempts
                < MAX_BLOCK_FETCH_ATTEMPTS {
                old(self)@.block_attempts + 1
            } else {
                old(self)@.block_attempts as int
            }),
            escalate == (final(self)@.block_attempts >= MAX_BLOCK_FETCH_ATTEMPTS),
            poller_step(old(self)@, final(self)@),
    {
        if self.block_attempts < MAX_BLOCK_FETCH_ATTEMPTS {
            self.block_attempts = self.block_attempts + 1;
        }
        self.block_attempts >= MAX_BLOCK_FETCH_ATTEMPTS
    }

    /// Backoff before the next retry of a failed fetch: the fixed interval
    /// plus caller-supplied jitter bounded to a second, so many channels
    /// polling one endpoint do not retry in lockstep.
    pub fn retry_delay_millis(&self, jitter: u64) -> (r: u64)
        ensures
            r == HEIGHT_RETRY_BACKOFF_MILLIS + (jitter % 1000),
    {
        HEIGHT_RETRY_BACKOFF_MILLIS + (jitter % 1000)
    }
}

} // verus!
