use packet_radio::qrz::{extract_tag, strip_ssid, unescape_xml};

#[test]
fn extracts_session_key() {
    let xml = "<QRZDatabase><Session><Key>abc123</Key><Count>5</Count></Session></QRZDatabase>";
    assert_eq!(extract_tag(xml, "Key"), Some("abc123".to_string()));
}

#[test]
fn extracts_error() {
    let xml = "<QRZDatabase><Session><Error>Session Timeout</Error></Session></QRZDatabase>";
    assert_eq!(extract_tag(xml, "Error"), Some("Session Timeout".to_string()));
}

#[test]
fn missing_tag_returns_none() {
    let xml = "<QRZDatabase><Session><Key>abc123</Key></Session></QRZDatabase>";
    assert_eq!(extract_tag(xml, "Error"), None);
}

#[test]
fn strip_ssid_removes_numeric_suffix() {
    assert_eq!(strip_ssid("KD3BFP-9"), "KD3BFP");
    assert_eq!(strip_ssid("KD3BFP-15"), "KD3BFP");
}

#[test]
fn strip_ssid_leaves_bare_callsign_alone() {
    assert_eq!(strip_ssid("KD3BFP"), "KD3BFP");
}

#[test]
fn strip_ssid_leaves_non_numeric_suffix_alone() {
    assert_eq!(strip_ssid("KD3BFP-P"), "KD3BFP-P");
}

#[test]
fn unescapes_entities() {
    assert_eq!(unescape_xml("Tom &amp; Jerry"), "Tom & Jerry");
}
