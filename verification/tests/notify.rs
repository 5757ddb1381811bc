use packet_radio::config::AppConfig;
use packet_radio::notify::NotifyMatcher;

fn config_with(default_call: Option<&str>, directed_enabled: bool) -> AppConfig {
    let mut cfg = AppConfig::default();
    cfg.ui.default_call = default_call.map(str::to_string);
    cfg.notify.directed_enabled = directed_enabled;
    cfg
}

#[test]
fn disabled_never_matches() {
    let cfg = config_with(Some("KD3BFP-9"), false);
    let matcher = NotifyMatcher::build(&cfg);
    assert!(!matcher.matches_directed("KD3BFP-9"));
}

#[test]
fn matches_my_call_ignoring_ssid() {
    let cfg = config_with(Some("KD3BFP-9"), true);
    let matcher = NotifyMatcher::build(&cfg);
    assert!(matcher.matches_directed("KD3BFP"));
    assert!(matcher.matches_directed("KD3BFP-5"));
    assert!(!matcher.matches_directed("N0CALL-1"));
}

#[test]
fn disabled_does_not_match() {
    let cfg = config_with(Some("KD3BFP-9"), false);
    let matcher = NotifyMatcher::build(&cfg);
    assert!(!matcher.matches_directed("KD3BFP-9"));
}
