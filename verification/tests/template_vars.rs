use packet_radio::config::AppConfig;
use packet_radio::template_vars::TemplateVars;

fn vars(node: &str, name: &str, loc: &str, bbs_home: &str) -> TemplateVars {
    TemplateVars { node: node.to_string(), name: name.to_string(), loc: loc.to_string(), bbs_home: bbs_home.to_string() }
}

#[test]
fn substitutes_all_known_variables() {
    let v = vars("KD3BFP-9", "Dave", "Grid FM19", "KD3BFP-9.#EPA.PA.USA.NOAM");
    assert_eq!(
        v.apply("Node: $$NODE, Op: $$NAME, Loc: $$LOC, BBS: $$BBSHOME"),
        "Node: KD3BFP-9, Op: Dave, Loc: Grid FM19, BBS: KD3BFP-9.#EPA.PA.USA.NOAM"
    );
}

#[test]
fn empty_values_become_empty_string_not_a_blank_placeholder() {
    let v = vars("KD3BFP-9", "", "", "");
    assert_eq!(v.apply("Hi, I'm $$NODE ($$NAME)"), "Hi, I'm KD3BFP-9 ()");
}

#[test]
fn unrecognized_placeholder_is_left_untouched() {
    let v = vars("KD3BFP-9", "Dave", "", "");
    assert_eq!(v.apply("$$UNKNOWN stays as-is, $$NODE doesn't"), "$$UNKNOWN stays as-is, KD3BFP-9 doesn't");
}

#[test]
fn text_without_placeholders_is_unchanged() {
    let v = vars("X", "Y", "Z", "W");
    assert_eq!(v.apply("no placeholders here"), "no placeholders here");
}

#[test]
fn repeated_placeholder_is_substituted_every_time() {
    let v = vars("KD3BFP-9", "", "", "");
    assert_eq!(v.apply("$$NODE de $$NODE"), "KD3BFP-9 de KD3BFP-9");
}

#[test]
fn from_config_maps_profile_fields_and_uses_caller_supplied_node() {
    let mut cfg = AppConfig::default();
    cfg.ui.name = Some("Dave".to_string());
    cfg.ui.location = Some("Grid FM19".to_string());
    cfg.ui.home_bbs = Some("KD3BFP-9.#EPA.PA.USA.NOAM".to_string());
    // `default_call` deliberately not read by `from_config` -- the
    // caller resolves `node` itself (mailbox callsign, keyboard-to-
    // keyboard identity, or Profile callsign for anything else).
    cfg.ui.default_call = Some("SHOULD-NOT-APPEAR".to_string());

    let vars = TemplateVars::from_config(&cfg, "KD3BFP-1");
    assert_eq!(vars.apply("$$NODE/$$NAME/$$LOC/$$BBSHOME"), "KD3BFP-1/Dave/Grid FM19/KD3BFP-9.#EPA.PA.USA.NOAM");
}

#[test]
fn from_config_unset_profile_fields_become_empty() {
    let cfg = AppConfig::default();
    let vars = TemplateVars::from_config(&cfg, "KD3BFP-1");
    assert_eq!(vars.apply("[$$NODE][$$NAME][$$LOC][$$BBSHOME]"), "[KD3BFP-1][][][]");
}
