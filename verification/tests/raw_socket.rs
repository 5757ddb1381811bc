use packet_radio::raw_socket::{decode_callsign, encode_callsign, parse_axports};

#[test]
fn encode_decode_round_trip_with_ssid() {
    let addr = encode_callsign("N0CALL-5").unwrap();
    assert_eq!(decode_callsign(&addr), "N0CALL-5");
}

#[test]
fn encode_decode_round_trip_without_ssid() {
    let addr = encode_callsign("KD3BFP").unwrap();
    assert_eq!(decode_callsign(&addr), "KD3BFP");
}

#[test]
fn shifted_ascii_matches_known_encoding() {
    // 'N' = 0x4E, shifted left = 0x9C.
    let addr = encode_callsign("N").unwrap();
    assert_eq!(addr.ax25_call[0], 0x9C);
    // Trailing unused callsign bytes are shifted spaces (0x20 << 1 = 0x40).
    assert_eq!(addr.ax25_call[1], 0x40);
    // SSID 0 -> reserved bits only: 0b0110_0000.
    assert_eq!(addr.ax25_call[6], 0x60);
}

#[test]
fn rejects_bad_callsigns() {
    assert!(encode_callsign("").is_err());
    assert!(encode_callsign("TOOLONGCALL").is_err());
    assert!(encode_callsign("N0CALL-16").is_err());
}

#[test]
fn parses_axports_format() {
    let sample = "\
# comment
wl2k\tKD3BFP-9\t19200\t255\t7\tMobilinkd
#1\tOH2BNS-1\t1200\t255\t2\t144.675 MHz (1200  bps)
";
    let ports = parse_axports(sample);
    assert_eq!(ports.len(), 1);
    assert_eq!(ports[0].device, "wl2k");
    assert_eq!(ports[0].callsign, "KD3BFP-9");
    assert_eq!(ports[0].description, "Mobilinkd");
}
