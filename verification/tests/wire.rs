use ax25::frame::{
    Address, Ax25Frame, CommandResponse, DisconnectedMode, FrameContent, RouteEntry,
    SetAsynchronousBalancedMode,
};
use packet_radio::wire::{
    build_dm, control_byte, decode_address_field, encode_address, is_sabme, is_xid, parse_header,
    reverse_route, CTRL_SABME, CTRL_XID,
};

fn addr(s: &str) -> Address {
    s.parse().unwrap()
}

#[test]
fn address_round_trips() {
    let a = addr("KD3BFP-9");
    let bytes = encode_address(&a, true, false);
    let (decoded, high) = decode_address_field(&bytes).unwrap();
    assert_eq!(decoded, a);
    assert!(high);
}

#[test]
fn address_round_trips_no_ssid() {
    let a = addr("N0CALL");
    let bytes = encode_address(&a, false, true);
    let (decoded, high) = decode_address_field(&bytes).unwrap();
    assert_eq!(decoded, a);
    assert!(!high);
}

#[test]
fn parse_header_matches_crate_addressing_on_a_frame_the_crate_can_decode() {
    let frame = Ax25Frame {
        source: addr("KD3BFP-9"),
        destination: addr("N0CALL-1"),
        route: vec![],
        command_or_response: Some(CommandResponse::Command),
        content: FrameContent::SetAsynchronousBalancedMode(SetAsynchronousBalancedMode { poll: true }),
    };
    let bytes = frame.to_bytes();
    let header = parse_header(&bytes).expect("header parses");
    assert_eq!(header.source, addr("KD3BFP-9"));
    assert_eq!(header.destination, addr("N0CALL-1"));
    assert!(header.route.is_empty());
    assert_eq!(header.command_or_response, Some(CommandResponse::Command));

    let control = control_byte(&bytes, &header).unwrap();
    assert_eq!(control & 0xEF, 0b0010_1111); // SABM, which the crate CAN decode
    assert!(!is_sabme(control));
    assert!(!is_xid(control));

    // Cross-check against the crate's own parse for the same bytes.
    let via_crate = Ax25Frame::from_bytes(&bytes).unwrap();
    assert_eq!(via_crate.source, header.source);
    assert_eq!(via_crate.destination, header.destination);
}

#[test]
fn parse_header_recovers_addressing_for_sabme_which_the_crate_cannot_decode_at_all() {
    // Build valid SABM bytes via the crate's own encoder, then splice in
    // the SABME control byte -- addressing is independent of content
    // type, so this yields genuine "SABME frame" bytes for test purposes.
    let frame = Ax25Frame {
        source: addr("KD3BFP-9"),
        destination: addr("N0CALL-1"),
        route: vec![],
        command_or_response: Some(CommandResponse::Command),
        content: FrameContent::SetAsynchronousBalancedMode(SetAsynchronousBalancedMode { poll: false }),
    };
    let mut bytes = frame.to_bytes();
    let header = parse_header(&bytes).unwrap();
    bytes[header.control_offset] = CTRL_SABME;

    // The crate itself genuinely can't parse this at all.
    assert!(Ax25Frame::from_bytes(&bytes).is_err());

    // But wire::parse_header still recovers full addressing.
    let header = parse_header(&bytes).expect("header still parses");
    assert_eq!(header.source, addr("KD3BFP-9"));
    assert_eq!(header.destination, addr("N0CALL-1"));
    let control = control_byte(&bytes, &header).unwrap();
    assert!(is_sabme(control));
    assert!(!is_xid(control));
}

#[test]
fn parse_header_recovers_addressing_for_xid_which_the_crate_cannot_decode_at_all() {
    let frame = Ax25Frame {
        source: addr("KD3BFP-9"),
        destination: addr("N0CALL-1"),
        route: vec![],
        command_or_response: Some(CommandResponse::Command),
        content: FrameContent::SetAsynchronousBalancedMode(SetAsynchronousBalancedMode { poll: false }),
    };
    let mut bytes = frame.to_bytes();
    let header = parse_header(&bytes).unwrap();
    bytes[header.control_offset] = CTRL_XID;

    assert!(Ax25Frame::from_bytes(&bytes).is_err());
    let header = parse_header(&bytes).expect("header still parses");
    let control = control_byte(&bytes, &header).unwrap();
    assert!(is_xid(control));
    assert!(!is_sabme(control));
}

#[test]
fn parse_header_recovers_digipeater_route() {
    let frame = Ax25Frame {
        source: addr("KD3BFP-9"),
        destination: addr("N0CALL-1"),
        route: vec![
            RouteEntry { repeater: addr("WIDE1-1"), has_repeated: true },
            RouteEntry { repeater: addr("WIDE2-1"), has_repeated: false },
        ],
        command_or_response: Some(CommandResponse::Command),
        content: FrameContent::SetAsynchronousBalancedMode(SetAsynchronousBalancedMode { poll: false }),
    };
    let bytes = frame.to_bytes();
    let header = parse_header(&bytes).unwrap();
    assert_eq!(header.route.len(), 2);
    assert_eq!(header.route[0].repeater, addr("WIDE1-1"));
    assert!(header.route[0].has_repeated);
    assert_eq!(header.route[1].repeater, addr("WIDE2-1"));
    assert!(!header.route[1].has_repeated);
}

#[test]
fn reverse_route_flips_order_and_clears_has_repeated() {
    let route = vec![
        RouteEntry { repeater: addr("WIDE1-1"), has_repeated: true },
        RouteEntry { repeater: addr("WIDE2-1"), has_repeated: false },
    ];
    let reversed = reverse_route(&route);
    assert_eq!(reversed.len(), 2);
    assert_eq!(reversed[0].repeater, addr("WIDE2-1"));
    assert!(!reversed[0].has_repeated);
    assert_eq!(reversed[1].repeater, addr("WIDE1-1"));
    assert!(!reversed[1].has_repeated);
}

#[test]
fn build_dm_matches_the_crates_own_encoder() {
    let local = addr("N0CALL-1");
    let remote = addr("KD3BFP-9");
    let dm = build_dm(&local, &remote, vec![], true);
    let expected = Ax25Frame {
        source: local,
        destination: remote,
        route: vec![],
        command_or_response: Some(CommandResponse::Response),
        content: FrameContent::DisconnectedMode(DisconnectedMode { final_bit: true }),
    };
    assert_eq!(dm.to_bytes(), expected.to_bytes());
}
