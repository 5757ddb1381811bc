use packet_radio::keyboard_mode::{is_bye, listens_on, resolve_identity, should_answer};

#[test]
fn declines_when_disabled() {
    assert!(!should_answer(false, "KD3BFP-9", Some("KD3BFP-9")));
}

#[test]
fn declines_with_no_configured_callsign() {
    assert!(!should_answer(true, "", Some("KD3BFP-9")));
}

#[test]
fn matches_own_callsign_case_insensitively_and_only_that() {
    assert!(should_answer(true, "kd3bfp-9", Some("KD3BFP-9")));
    assert!(!should_answer(true, "KD3BFP-9", Some("KD3BFP-6")));
    assert!(!should_answer(true, "KD3BFP-9", None));
}

#[test]
fn is_bye_matches_all_forms() {
    assert!(is_bye("/bye"));
    assert!(is_bye("/BYE"));
    assert!(is_bye("B"));
    assert!(is_bye("b"));
    assert!(is_bye("BYE"));
    assert!(is_bye("bye"));
    assert!(is_bye("  /bye  "));
    assert!(!is_bye("HELLO"));
    assert!(!is_bye("/b"));
    assert!(!is_bye(""));
}

#[test]
fn listens_on_empty_list_means_any_port() {
    assert!(listens_on(&vec![], "port-1"));
}

#[test]
fn listens_on_respects_explicit_list() {
    let ports = vec!["port-1".to_string(), "port-2".to_string()];
    assert!(listens_on(&ports, "port-1"));
    assert!(!listens_on(&ports, "port-3"));
}

#[test]
fn resolve_identity_prefers_node_call_over_default() {
    assert_eq!(resolve_identity("kd3bfp-1", "KD3BFP-9"), "KD3BFP-1");
}

#[test]
fn resolve_identity_falls_back_to_default_when_unset() {
    assert_eq!(resolve_identity("", "KD3BFP-9"), "KD3BFP-9");
    assert_eq!(resolve_identity("   ", "KD3BFP-9"), "KD3BFP-9");
}
