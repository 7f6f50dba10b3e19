use aero_relay::config::RelayPair;
use aero_relay::crypto::PacketEncrypter;
use aero_relay::hexcodec::{hex_decode, hex_encode};
use aero_relay::ibc::{decode_event, is_relevant, ChannelEvent, EventOutcome, IbcPoller};
use aero_relay::msg::{
    build_receive_message, parse_timeout_height, try_build_receive_message, RevisionHeight,
};
use aero_relay::payload::{
    decode_payload, encode_decode_round_trip, encode_payload, DecodeError,
    FungibleTokenPacketData,
};
use aero_relay::strutil::{bytes_to_str, parse_u64};
use aero_relay::zk::{generate_packet_proof, prepare_commitment, ProofError};

fn sample_data() -> FungibleTokenPacketData {
    FungibleTokenPacketData {
        amount: "100".to_string(),
        denom: "uatom".to_string(),
        sender: "cosmos1sender".to_string(),
        receiver: "cosmos1receiver".to_string(),
    }
}

fn attrs(pairs: &[(&str, &str)]) -> Vec<(String, String)> {
    pairs
        .iter()
        .map(|(k, v)| (k.to_string(), v.to_string()))
        .collect()
}

fn sample_event(channel: &str) -> ChannelEvent {
    let payload = encode_payload(&sample_data());
    let data_hex = hex::encode(&payload);
    ChannelEvent {
        kind: "send_packet".to_string(),
        attributes: attrs(&[
            ("packet_sequence", "42"),
            ("packet_src_port", "transfer"),
            ("packet_src_channel", channel),
            ("packet_dst_port", "transfer"),
            ("packet_dst_channel", "channel-1"),
            ("packet_timeout_height", "3-150"),
            ("packet_timeout_timestamp", "1700000000000000000"),
            ("packet_data_hex", &data_hex),
        ]),
    }
}

#[test]
fn filter_selects_monitored_channel() {
    let ev = ChannelEvent {
        kind: "send_packet".to_string(),
        attributes: attrs(&[("packet_dst_channel", "channel-7")]),
    };
    assert!(is_relevant(&ev, "channel-7"));
    assert!(!is_relevant(&ev, "channel-8"));
}

#[test]
fn filter_accepts_write_acknowledgement() {
    let ev = ChannelEvent {
        kind: "write_acknowledgement".to_string(),
        attributes: attrs(&[("packet_src_channel", "channel-0")]),
    };
    assert!(is_relevant(&ev, "channel-0"));
}

#[test]
fn filter_rejects_other_kinds() {
    let ev = ChannelEvent {
        kind: "transfer".to_string(),
        attributes: attrs(&[("packet_dst_channel", "channel-7")]),
    };
    assert!(!is_relevant(&ev, "channel-7"));
}

#[test]
fn filter_needs_channel_attribute() {
    let ev = ChannelEvent {
        kind: "send_packet".to_string(),
        attributes: attrs(&[("packet_sequence", "1")]),
    };
    assert!(!is_relevant(&ev, "channel-7"));
}

#[test]
fn timeout_parses_both_components() {
    assert_eq!(
        parse_timeout_height("3-150"),
        Some(RevisionHeight { revision_number: 3, revision_height: 150 })
    );
}

#[test]
fn timeout_empty_is_no_timeout() {
    assert_eq!(parse_timeout_height(""), None);
}

#[test]
fn timeout_unparsable_revision_is_no_timeout() {
    assert_eq!(parse_timeout_height("x-0"), None);
    assert_eq!(parse_timeout_height("abc-150"), None);
}

#[test]
fn timeout_zero_height_is_no_timeout() {
    assert_eq!(parse_timeout_height("1-0"), None);
}

#[test]
fn timeout_missing_dash_is_no_timeout() {
    assert_eq!(parse_timeout_height("150"), None);
}

#[test]
fn payload_round_trip_preserves_fields() {
    let d = sample_data();
    let bytes = encode_payload(&d);
    let back = decode_payload(&bytes).expect("canonical form must decode");
    assert_eq!(back.amount, d.amount);
    assert_eq!(back.denom, d.denom);
    assert_eq!(back.sender, d.sender);
    assert_eq!(back.receiver, d.receiver);
}

#[test]
fn payload_round_trip_through_hex() {
    let d = sample_data();
    let back = encode_decode_round_trip(&d).expect("round trip must succeed");
    assert_eq!(back.amount, d.amount);
    assert_eq!(back.denom, d.denom);
    assert_eq!(back.sender, d.sender);
    assert_eq!(back.receiver, d.receiver);
}

#[test]
fn payload_round_trip_with_escapes() {
    let d = FungibleTokenPacketData {
        amount: "1".to_string(),
        denom: "u\"q\\uote".to_string(),
        sender: "mémo-sender".to_string(),
        receiver: "r".to_string(),
    };
    let back = encode_decode_round_trip(&d).expect("round trip must succeed");
    assert_eq!(back.denom, d.denom);
    assert_eq!(back.sender, d.sender);
}

#[test]
fn payload_missing_denom_is_rejected_not_defaulted() {
    let bytes = br#"{"amount":"1","sender":"s","receiver":"r"}"#.to_vec();
    assert!(matches!(decode_payload(&bytes), Err(DecodeError::MissingDenom)));
}

#[test]
fn payload_missing_amount_sender_receiver() {
    let no_amount = br#"{"denom":"d","sender":"s","receiver":"r"}"#.to_vec();
    assert!(matches!(decode_payload(&no_amount), Err(DecodeError::MissingAmount)));
    let no_sender = br#"{"amount":"1","denom":"d","receiver":"r"}"#.to_vec();
    assert!(matches!(decode_payload(&no_sender), Err(DecodeError::MissingSender)));
    let no_receiver = br#"{"amount":"1","denom":"d","sender":"s"}"#.to_vec();
    assert!(matches!(decode_payload(&no_receiver), Err(DecodeError::MissingReceiver)));
}

#[test]
fn payload_malformed_json_is_rejected() {
    assert!(matches!(decode_payload(&b"not json".to_vec()), Err(DecodeError::BadJson)));
    assert!(matches!(decode_payload(&b"{".to_vec()), Err(DecodeError::BadJson)));
    assert!(matches!(
        decode_payload(&br#"{"amount":1}"#.to_vec()),
        Err(DecodeError::BadJson)
    ));
}

#[test]
fn payload_duplicate_key_last_wins() {
    let bytes =
        br#"{"amount":"1","denom":"old","sender":"s","receiver":"r","denom":"new"}"#.to_vec();
    let d = decode_payload(&bytes).expect("object form must decode");
    assert_eq!(d.denom, "new");
}

#[test]
fn payload_invalid_utf8_member_is_rejected() {
    let mut bytes = br#"{"amount":""#.to_vec();
    bytes.push(0xff);
    bytes.extend_from_slice(br#"","denom":"d","sender":"s","receiver":"r"}"#);
    assert!(matches!(decode_payload(&bytes), Err(DecodeError::BadUtf8)));
}

#[test]
fn parse_u64_accepts_digits_only() {
    assert_eq!(parse_u64("0"), Some(0));
    assert_eq!(parse_u64("42"), Some(42));
    assert_eq!(parse_u64("18446744073709551615"), Some(u64::MAX));
    assert_eq!(parse_u64("18446744073709551616"), None);
    assert_eq!(parse_u64(""), None);
    assert_eq!(parse_u64("+1"), None);
    assert_eq!(parse_u64("1x"), None);
}

#[test]
fn hex_wrappers_code_real_bytes() {
    assert_eq!(hex_decode("ff00ab"), Some(vec![0xff, 0x00, 0xab]));
    assert_eq!(hex_decode("FF00AB"), Some(vec![0xff, 0x00, 0xab]));
    assert_eq!(hex_decode("f"), None);
    assert_eq!(hex_decode("gg"), None);
    assert_eq!(hex_encode(&[0xab, 0x01]), "ab01");
}

#[test]
fn utf8_wrapper_decodes_real_text() {
    assert_eq!(bytes_to_str(b"uatom"), Some("uatom"));
    assert_eq!(bytes_to_str("mémo".as_bytes()), Some("mémo"));
    assert_eq!(bytes_to_str(&[0xff, 0xfe]), None);
}

#[test]
fn decode_event_yields_packet() {
    let ev = sample_event("channel-0");
    let p = decode_event(&ev).expect("valid event must decode");
    assert_eq!(p.sequence, 42);
    assert_eq!(p.src_port, "transfer");
    assert_eq!(p.src_channel, "channel-0");
    assert_eq!(p.dst_port, "transfer");
    assert_eq!(p.dst_channel, "channel-1");
    assert_eq!(p.timeout_height, "3-150");
    assert_eq!(p.timeout_timestamp, 1700000000000000000);
    assert_eq!(p.data.amount, "100");
    assert_eq!(p.data.denom, "uatom");
}

#[test]
fn decode_event_is_idempotent() {
    let ev = sample_event("channel-0");
    let p1 = decode_event(&ev).expect("valid event must decode");
    let p2 = decode_event(&ev).expect("valid event must decode");
    assert_eq!(p1.sequence, p2.sequence);
    assert_eq!(p1.src_channel, p2.src_channel);
    assert_eq!(p1.timeout_height, p2.timeout_height);
    assert_eq!(p1.data.amount, p2.data.amount);
    assert_eq!(p1.data.denom, p2.data.denom);
    assert_eq!(p1.data.sender, p2.data.sender);
    assert_eq!(p1.data.receiver, p2.data.receiver);
}

#[test]
fn decode_event_error_variants() {
    let base = sample_event("channel-0");

    let mut no_seq = base.clone();
    no_seq.attributes.retain(|(k, _)| k != "packet_sequence");
    assert!(matches!(decode_event(&no_seq), Err(DecodeError::BadSequence)));

    let mut bad_seq = base.clone();
    for a in bad_seq.attributes.iter_mut() {
        if a.0 == "packet_sequence" {
            a.1 = "-1".to_string();
        }
    }
    assert!(matches!(decode_event(&bad_seq), Err(DecodeError::BadSequence)));

    let mut bad_ts = base.clone();
    for a in bad_ts.attributes.iter_mut() {
        if a.0 == "packet_timeout_timestamp" {
            a.1 = "soon".to_string();
        }
    }
    assert!(matches!(decode_event(&bad_ts), Err(DecodeError::BadTimestamp)));

    let mut no_data = base.clone();
    no_data.attributes.retain(|(k, _)| k != "packet_data_hex");
    assert!(matches!(decode_event(&no_data), Err(DecodeError::MissingData)));

    let mut empty_data = base.clone();
    for a in empty_data.attributes.iter_mut() {
        if a.0 == "packet_data_hex" {
            a.1 = String::new();
        }
    }
    assert!(matches!(decode_event(&empty_data), Err(DecodeError::MissingData)));

    let mut bad_hex = base.clone();
    for a in bad_hex.attributes.iter_mut() {
        if a.0 == "packet_data_hex" {
            a.1 = "zz".to_string();
        }
    }
    assert!(matches!(decode_event(&bad_hex), Err(DecodeError::BadHex)));

    let mut bad_json = base;
    for a in bad_json.attributes.iter_mut() {
        if a.0 == "packet_data_hex" {
            a.1 = hex::encode(b"not json");
        }
    }
    assert!(matches!(decode_event(&bad_json), Err(DecodeError::BadJson)));
}

#[test]
fn poller_starts_at_current_height() {
    let p = IbcPoller::new("channel-0".to_string(), 999);
    assert_eq!(p.last_height, 999);
    assert_eq!(p.channel_id, "channel-0");
    assert_eq!(p.block_attempts, 0);
}

#[test]
fn poller_next_height_catches_up_by_one() {
    let p = IbcPoller::new("channel-0".to_string(), 999);
    assert_eq!(p.next_height(1002), Some(1000));
    assert_eq!(p.next_height(999), None);
    assert_eq!(p.next_height(42), None);
}

#[test]
fn poller_failure_pins_cursor_then_escalates() {
    let mut p = IbcPoller::new("channel-0".to_string(), 999);
    let mut escalated = false;
    for _ in 0..4 {
        escalated = p.record_block_failure();
        assert_eq!(p.last_height, 999);
        assert!(!escalated);
    }
    escalated = p.record_block_failure();
    assert!(escalated);
    assert_eq!(p.last_height, 999);
    assert_eq!(p.block_attempts, 5);
}

#[test]
fn poller_retry_delay_is_jittered_backoff() {
    let p = IbcPoller::new("channel-0".to_string(), 0);
    assert_eq!(p.retry_delay_millis(0), 10000);
    assert_eq!(p.retry_delay_millis(2345), 10345);
}

#[test]
fn poller_cursor_is_monotonic_over_operations() {
    let mut p = IbcPoller::new("channel-0".to_string(), 10);
    let mut last = p.last_height;
    p.record_block_failure();
    assert!(p.last_height >= last);
    last = p.last_height;
    let no_events: Vec<ChannelEvent> = Vec::new();
    let _ = p.process_block(11, &no_events);
    assert!(p.last_height >= last);
    last = p.last_height;
    let _ = p.process_block(12, &no_events);
    assert!(p.last_height >= last);
    assert_eq!(p.last_height, 12);
}

#[test]
fn end_to_end_block_at_1000_yields_one_message() {
    let mut poller = IbcPoller::new("channel-0".to_string(), 999);
    let events = vec![
        sample_event("channel-0"),
        ChannelEvent {
            kind: "coin_spent".to_string(),
            attributes: attrs(&[("spender", "cosmos1x")]),
        },
        sample_event("channel-9"),
    ];
    assert_eq!(poller.next_height(1000), Some(1000));
    let outcomes = poller.process_block(1000, &events);
    assert_eq!(poller.last_height, 1000);
    assert_eq!(outcomes.len(), 1);
    let packet = match &outcomes[0] {
        EventOutcome::Decoded(p) => p,
        EventOutcome::Rejected(e) => panic!("unexpected decode error: {:?}", e),
    };
    assert_eq!(packet.sequence, 42);
    let proof = generate_packet_proof("");
    let msg = try_build_receive_message(packet, proof, 1000, "cosmos1signer".to_string())
        .expect("proof was produced");
    assert_eq!(msg.packet.sequence, 42);
    assert_eq!(msg.proof_height.revision_height, 1000);
    assert_eq!(msg.proof_height.revision_number, 0);
    assert_eq!(msg.signer, "cosmos1signer");
    assert_eq!(poller.next_height(1000), None);
}

#[test]
fn no_silent_loss_bad_payload_is_reported() {
    let mut poller = IbcPoller::new("channel-0".to_string(), 999);
    let mut ev = sample_event("channel-0");
    for a in ev.attributes.iter_mut() {
        if a.0 == "packet_data_hex" {
            a.1 = hex::encode(br#"{"amount":"1","sender":"s","receiver":"r"}"#);
        }
    }
    let outcomes = poller.process_block(1000, &vec![ev]);
    assert_eq!(outcomes.len(), 1);
    assert!(matches!(
        outcomes[0],
        EventOutcome::Rejected(DecodeError::MissingDenom)
    ));
    assert_eq!(poller.last_height, 1000);
}

#[test]
fn build_message_carries_fields_verbatim() {
    let ev = sample_event("channel-0");
    let packet = decode_event(&ev).expect("valid event must decode");
    let msg = build_receive_message(&packet, vec![1, 2, 3], 1000, "signer".to_string());
    assert_eq!(msg.packet.sequence, 42);
    assert_eq!(msg.packet.source_port, "transfer");
    assert_eq!(msg.packet.source_channel, "channel-0");
    assert_eq!(msg.packet.destination_port, "transfer");
    assert_eq!(msg.packet.destination_channel, "channel-1");
    assert_eq!(
        msg.packet.timeout_height,
        Some(RevisionHeight { revision_number: 3, revision_height: 150 })
    );
    assert_eq!(msg.packet.timeout_timestamp, 1700000000000000000);
    assert_eq!(msg.proof_commitment, vec![1, 2, 3]);
    assert_eq!(msg.proof_height.revision_height, 1000);
}

#[test]
fn build_message_encodes_payload_as_protobuf() {
    let ev = sample_event("channel-0");
    let packet = decode_event(&ev).expect("valid event must decode");
    let msg = build_receive_message(&packet, Vec::new(), 1000, "signer".to_string());
    let expected = {
        let proto = ibc_proto::ibc::applications::transfer::v2::FungibleTokenPacketData {
            denom: "uatom".to_string(),
            amount: "100".to_string(),
            sender: "cosmos1sender".to_string(),
            receiver: "cosmos1receiver".to_string(),
            memo: String::new(),
        };
        prost::Message::encode_to_vec(&proto)
    };
    assert_eq!(msg.packet.data, expected);
}

#[test]
fn proof_failure_yields_no_message() {
    let ev = sample_event("channel-0");
    let packet = decode_event(&ev).expect("valid event must decode");
    let r = try_build_receive_message(
        &packet,
        Err(ProofError::InvalidHex),
        1000,
        "signer".to_string(),
    );
    assert!(matches!(r, Err(ProofError::InvalidHex)));
}

#[test]
fn null_proof_provider_returns_empty_proof() {
    assert_eq!(generate_packet_proof("whatever"), Ok(Vec::new()));
}

#[test]
fn commitment_witness_matches_blake3() {
    let (preimage, commitment) = prepare_commitment("ff00").expect("valid hex");
    assert_eq!(preimage, vec![0xff, 0x00]);
    assert_eq!(commitment.len(), 32);
    assert_eq!(commitment, blake3::hash(&[0xff, 0x00]).as_bytes().to_vec());
    assert!(matches!(
        prepare_commitment("xyz"),
        Err(ProofError::InvalidHex)
    ));
}

#[test]
fn prepare_for_send_is_identity_on_bytes() {
    assert_eq!(PacketEncrypter::prepare_for_send(&[9, 8, 7]), vec![9, 8, 7]);
}

#[test]
fn relay_pair_validation() {
    let pair = RelayPair {
        name: "pair".to_string(),
        src_chain: "chain-a".to_string(),
        src_rpc: "http://localhost:26657".to_string(),
        src_channel: "channel-0".to_string(),
        src_port: "transfer".to_string(),
        dst_chain: "chain-b".to_string(),
        dst_rpc: "http://localhost:26658".to_string(),
        dst_channel: "channel-1".to_string(),
        dst_port: "transfer".to_string(),
        private_key_src: None,
        private_key_dst: None,
    };
    assert!(pair.is_valid());
    let mut bad = pair;
    bad.src_rpc = String::new();
    assert!(!bad.is_valid());
}
