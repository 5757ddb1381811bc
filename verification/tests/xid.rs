use ax25::frame::{Address, FrameContent};
use packet_radio::arq::ArqConfig;
use packet_radio::wire;
use packet_radio::xid::{
    decode, encode, handle_peer_xid, our_params, XidDecision, COP_FULL_DUPLEX, HOF2_MODULO_128,
    HOF2_SREJ, PI_CLASSES_OF_PROCEDURES, PI_HDLC_OPTIONAL_FUNCTIONS, PI_WINDOW,
};

fn addr(s: &str) -> Address {
    s.parse().unwrap()
}

fn cfg() -> ArqConfig {
    ArqConfig::default()
}

#[test]
fn our_params_round_trip_through_encode_decode() {
    let ours = our_params(&cfg());
    let bytes = encode(&ours);
    let decoded = decode(&bytes).unwrap();
    assert_eq!(decoded.window, ours.window);
    assert_eq!(decoded.t1_ms, ours.t1_ms);
    assert_eq!(decoded.n2, ours.n2);
    assert_eq!(decoded.n1_bits, ours.n1_bits);
    assert!(!decoded.requests_extended);
}

#[test]
fn decode_flags_full_duplex_only_as_extended() {
    let mut bytes = encode(&our_params(&cfg()));
    // Classes of Procedures is the first parameter emitted by encode():
    // FI,GI,GL(2) then PI=2,PL=2,PV(2) starting at offset 6.
    assert_eq!(bytes[4], PI_CLASSES_OF_PROCEDURES);
    bytes[6] = COP_FULL_DUPLEX; // full duplex bit set, half duplex bit clear
    let decoded = decode(&bytes).unwrap();
    assert!(decoded.requests_extended);
}

#[test]
fn decode_flags_modulo_128_as_extended() {
    let mut bytes = encode(&our_params(&cfg()));
    // HDLC Optional Functions is the second parameter: offset 8 = PI,
    // 9 = PL, 10/11/12 = PV.
    assert_eq!(bytes[8], PI_HDLC_OPTIONAL_FUNCTIONS);
    bytes[11] |= HOF2_MODULO_128;
    let decoded = decode(&bytes).unwrap();
    assert!(decoded.requests_extended);
}

#[test]
fn decode_flags_srej_as_extended() {
    let mut bytes = encode(&our_params(&cfg()));
    bytes[11] |= HOF2_SREJ;
    let decoded = decode(&bytes).unwrap();
    assert!(decoded.requests_extended);
}

#[test]
fn decode_flags_oversized_window_as_extended() {
    let mut bytes = encode(&our_params(&cfg()));
    // Locate the window parameter by PI byte rather than a hardcoded
    // offset, since that's more robust to encode() ever reordering
    // fields; params start right after the 4-byte FI/GI/GL header.
    let mut i = 4;
    loop {
        let pi = bytes[i];
        let pl = bytes[i + 1] as usize;
        if pi == PI_WINDOW {
            bytes[i + 2] = 8; // invalid for modulus-8 (max 7)
            break;
        }
        i += 2 + pl;
    }
    let decoded = decode(&bytes).unwrap();
    assert!(decoded.requests_extended);
    assert_eq!(decoded.window, 8);
}

#[test]
fn decode_skips_unknown_parameter_ids() {
    let mut bytes = encode(&our_params(&cfg()));
    // Insert an unknown PI=99 with a 1-byte value right after the FI/GI/GL
    // header, and bump GL accordingly.
    let extra = [99u8, 1, 0xAA];
    bytes.splice(4..4, extra);
    let new_group_len = (bytes.len() - 4) as u16;
    bytes[2..4].copy_from_slice(&new_group_len.to_be_bytes());
    let decoded = decode(&bytes).expect("unknown PI should not break decoding");
    assert!(!decoded.requests_extended);
    assert_eq!(decoded.window, our_params(&cfg()).window);
}

#[test]
fn decode_rejects_bad_format_identifier() {
    let mut bytes = encode(&our_params(&cfg()));
    bytes[0] = 0x00;
    assert!(decode(&bytes).is_err());
}

#[test]
fn decode_rejects_too_short_payload() {
    assert!(decode(&[0x82, 0x80]).is_err());
}

#[test]
fn decode_tolerates_truncated_parameter_without_panicking() {
    let mut bytes = encode(&our_params(&cfg()));
    bytes.truncate(bytes.len() - 1); // chop the last byte off a multi-byte PV
    let decoded = decode(&bytes);
    assert!(decoded.is_ok());
}

#[test]
fn handle_peer_xid_replies_to_a_compatible_proposal() {
    let local = addr("N0CALL-1");
    let remote = addr("KD3BFP-9");
    let payload = encode(&our_params(&cfg()));
    match handle_peer_xid(&local, &remote, &vec![], &payload, &cfg()) {
        XidDecision::Reply(bytes) => {
            let header = wire::parse_header(&bytes).unwrap();
            assert_eq!(header.source, local);
            assert_eq!(header.destination, remote);
            let control = wire::control_byte(&bytes, &header).unwrap();
            assert!(wire::is_xid(control));
            let decoded = decode(&bytes[header.control_offset + 1..]).unwrap();
            assert!(!decoded.requests_extended);
            assert_eq!(decoded.window, our_params(&cfg()).window);
        }
        XidDecision::Decline(_) => panic!("expected a Reply"),
    }
}

#[test]
fn handle_peer_xid_declines_an_extended_mode_request() {
    let local = addr("N0CALL-1");
    let remote = addr("KD3BFP-9");
    let mut payload = encode(&our_params(&cfg()));
    payload[11] |= HOF2_MODULO_128;
    match handle_peer_xid(&local, &remote, &vec![], &payload, &cfg()) {
        XidDecision::Decline(dm) => {
            assert_eq!(dm.source, local);
            assert_eq!(dm.destination, remote);
            assert!(matches!(dm.content, FrameContent::DisconnectedMode(_)));
        }
        XidDecision::Reply(_) => panic!("expected a Decline"),
    }
}

#[test]
fn handle_peer_xid_declines_undecodable_payload() {
    let local = addr("N0CALL-1");
    let remote = addr("KD3BFP-9");
    match handle_peer_xid(&local, &remote, &vec![], &[0x00, 0x00, 0x00, 0x00], &cfg()) {
        XidDecision::Decline(_) => {}
        XidDecision::Reply(_) => panic!("expected a Decline"),
    }
}

#[test]
fn an_unknown_parameter_is_passed_over() {
    let known = encode(&our_params(&cfg()));
    let expected = decode(&known).unwrap();
    for at in [4, 8, 13, known.len()] {
        let mut bytes = known.clone();
        bytes.splice(at..at, [77, 3, 2, 2, 2]);
        bytes[3] += 5;
        let decoded = decode(&bytes).unwrap();
        assert_eq!((decoded.window, decoded.t1_ms, decoded.n2), (expected.window, expected.t1_ms, expected.n2));
        assert_eq!((decoded.n1_bits, decoded.requests_extended), (expected.n1_bits, false));
    }
}
