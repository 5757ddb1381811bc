use packet_radio::netrom::{parse_nodes_broadcast, NetRomNodeEntry, NODES_SIGNATURE};
use packet_radio::wire;

fn encode_call(callsign: &str, ssid: u8) -> [u8; 7] {
    let addr = ax25::frame::Address::from_parts(callsign.to_string(), ssid).expect("valid address");
    wire::encode_address(&addr, false, false)
}

fn encode_mnemonic(text: &str) -> [u8; 6] {
    let mut out = [b' '; 6];
    for (i, b) in text.as_bytes().iter().take(6).enumerate() {
        out[i] = *b;
    }
    out
}

fn push_entry(payload: &mut Vec<u8>, dest_call: &str, dest_ssid: u8, dest_alias: &str, neighbor_call: &str, quality: u8) {
    payload.extend_from_slice(&encode_call(dest_call, dest_ssid));
    payload.extend_from_slice(&encode_mnemonic(dest_alias));
    payload.extend_from_slice(&encode_call(neighbor_call, 0));
    payload.push(quality);
}

#[test]
fn decodes_a_single_entry_broadcast() {
    let mut payload = vec![NODES_SIGNATURE];
    payload.extend_from_slice(&encode_mnemonic("MYNODE"));
    push_entry(&mut payload, "N0CALL", 5, "REMOTE", "N1CALL", 200);

    let broadcast = parse_nodes_broadcast(&payload).expect("decodes");
    assert_eq!(broadcast.sender_alias, "MYNODE");
    assert_eq!(broadcast.entries, vec![NetRomNodeEntry { alias: "REMOTE".to_string(), callsign: "N0CALL-5".to_string() }]);
}

#[test]
fn decodes_multiple_entries_in_order() {
    let mut payload = vec![NODES_SIGNATURE];
    payload.extend_from_slice(&encode_mnemonic("HUB"));
    push_entry(&mut payload, "AAAAAA", 0, "ALPHA", "N1CALL", 100);
    push_entry(&mut payload, "BBBBBB", 1, "BRAVO", "N1CALL", 150);
    push_entry(&mut payload, "CCCCCC", 2, "", "N1CALL", 255);

    let broadcast = parse_nodes_broadcast(&payload).expect("decodes");
    assert_eq!(broadcast.entries.len(), 3);
    assert_eq!(broadcast.entries[0].callsign, "AAAAAA");
    assert_eq!(broadcast.entries[1].callsign, "BBBBBB-1");
    assert_eq!(broadcast.entries[2].callsign, "CCCCCC-2");
    assert_eq!(broadcast.entries[2].alias, "");
}

#[test]
fn rejects_wrong_signature_byte() {
    let mut payload = vec![0x00];
    payload.extend_from_slice(&encode_mnemonic("MYNODE"));
    push_entry(&mut payload, "N0CALL", 0, "REMOTE", "N1CALL", 200);
    assert!(parse_nodes_broadcast(&payload).is_none());
}

#[test]
fn empty_payload_does_not_panic() {
    assert!(parse_nodes_broadcast(&[]).is_none());
}

#[test]
fn header_only_payload_yields_no_entries() {
    let mut payload = vec![NODES_SIGNATURE];
    payload.extend_from_slice(&encode_mnemonic("LONELY"));
    let broadcast = parse_nodes_broadcast(&payload).expect("decodes");
    assert_eq!(broadcast.sender_alias, "LONELY");
    assert!(broadcast.entries.is_empty());
}

#[test]
fn truncated_trailing_entry_is_simply_omitted() {
    let mut payload = vec![NODES_SIGNATURE];
    payload.extend_from_slice(&encode_mnemonic("MYNODE"));
    push_entry(&mut payload, "N0CALL", 0, "REMOTE", "N1CALL", 200);
    payload.extend_from_slice(&[0xAA; 10]); // partial second entry
    let broadcast = parse_nodes_broadcast(&payload).expect("decodes");
    assert_eq!(broadcast.entries.len(), 1);
}

#[test]
fn entry_with_undecodable_callsign_is_skipped_but_later_entries_still_decode() {
    let mut payload = vec![NODES_SIGNATURE];
    payload.extend_from_slice(&encode_mnemonic("MYNODE"));
    // A callsign field that decodes to non-alphanumeric characters fails
    // `Address::from_parts` and should be skipped, not abort the parse.
    let mut bad_entry = Vec::new();
    bad_entry.extend_from_slice(&[0x00u8; 7]); // all-zero -> not valid callsign chars
    bad_entry.extend_from_slice(&encode_mnemonic("BAD"));
    bad_entry.extend_from_slice(&encode_call("N1CALL", 0));
    bad_entry.push(0);
    payload.extend_from_slice(&bad_entry);
    push_entry(&mut payload, "GOODCL", 3, "GOOD", "N1CALL", 100);

    let broadcast = parse_nodes_broadcast(&payload).expect("decodes");
    assert_eq!(broadcast.entries, vec![NetRomNodeEntry { alias: "GOOD".to_string(), callsign: "GOODCL-3".to_string() }]);
}
