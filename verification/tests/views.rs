use packet_radio::config::{AddressBookEntry, AppConfig, HighlightRule, PortConfig, PortEntry};
use packet_radio::highlight::{highlight_line, pattern_of, Highlighter};
use packet_radio::history_paths::{history_dir, history_file_path, sanitize_component};
use packet_radio::log_view::LogView;
use packet_radio::monitor_view::{content_offset, MonitorView};
use packet_radio::session_tab::{
    highlight_new_lines, history_text, lines_to_trim, parse_path, port_dialable, port_is_terminal,
    port_supports_connect, port_supports_unproto, status_line, take_lines, typed_path, SessionTab,
};
use packet_radio::sorting::{is_text_before, stable_order, SortKey};

fn s(x: &str) -> String {
    x.to_string()
}

fn rule(pattern: &str, regex: bool, color: &str) -> HighlightRule {
    HighlightRule { label: s("r"), pattern: s(pattern), regex, color: s(color), notify: false, enabled: true }
}

fn colored(h: &Highlighter, line: &str) -> Vec<(String, String)> {
    let chars: Vec<char> = line.chars().collect();
    h.spans(line).iter().map(|x| (chars[x.start..x.end].iter().collect(), x.color.clone())).collect()
}

#[test]
fn callsigns_are_colored_by_whose_they_are() {
    let mut c = AppConfig::default();
    c.highlighting.rules = vec![];
    c.ui.default_call = Some(s("N0CALL-1"));
    c.address_book.push(AddressBookEntry {
        callsign: s("KD3BFP"),
        name: None,
        alias: None,
        location: None,
        notes: None,
        last_heard: None,
        heard_count: 0,
        via: s(""),
        home_bbs: s(""),
        heard_direct: true,
        recent_beacons: vec![],
    });
    let h = Highlighter::build(&c);
    assert_eq!(h.color_of("n0call-9"), "#FF5555");
    assert_eq!(h.color_of("KD3BFP-2"), "#B5CEA8");
    assert_eq!(h.color_of("W1AW"), "#4FC1FF");
    let v = colored(&h, "\u{e9} N0CALL-1 KD3BFP-9 W1AW");
    assert_eq!(
        v,
        vec![
            (s("N0CALL-1"), s("#FF5555")),
            (s("KD3BFP-9"), s("#B5CEA8")),
            (s("W1AW"), s("#4FC1FF")),
        ]
    );
}

#[test]
fn rules_are_plain_text_or_patterns() {
    let mut c = AppConfig::default();
    c.highlighting.rules = vec![rule("a.b", false, "#1"), rule("x+", true, "#2"), rule("(", true, "#3")];
    let h = Highlighter::build(&c);
    let v = colored(&h, "axb a.b xxx");
    assert!(v.contains(&(s("a.b"), s("#1"))));
    assert!(!v.contains(&(s("axb"), s("#1"))));
    assert!(v.contains(&(s("xxx"), s("#2"))));
    assert!(!v.iter().any(|x| x.1 == "#3"));
    assert!(pattern_of(&rule("", false, "")).is_none());
}

#[test]
fn nothing_is_colored_when_switched_off() {
    let mut c = AppConfig::default();
    c.highlighting.enabled = false;
    let h = Highlighter::build(&c);
    assert!(h.spans("W1AW CQ").is_empty());
}

#[test]
fn spans_stand_where_their_line_does() {
    let mut c = AppConfig::default();
    c.highlighting.rules = vec![rule("cq", false, "#1")];
    let h = Highlighter::build(&c);
    let v = highlight_line(&h, 10, "zz cq");
    assert_eq!(v.len(), 1);
    assert_eq!((v[0].start, v[0].end), (13, 15));
    let v = highlight_new_lines(&h, 100, "cq\nno\ncq\ncq");
    assert_eq!(v.iter().map(|x| x.start).collect::<Vec<_>>(), vec![100, 106]);
}

#[test]
fn the_traffic_view_filters_and_forgets() {
    let mut m = MonitorView::new();
    m.set_show_timestamps(false);
    let (l, shown) = m.append_line("a", "K1A > CQ: h\0i", "12:00", 2);
    assert!(shown);
    assert_eq!((l.prefixed.as_str(), content_offset(&l)), ("K1A > CQ: hi", 0));
    m.set_show_timestamps(true);
    let (l, _) = m.append_line("b", "K1B > ID: ho", "12:01", 2);
    assert_eq!((l.prefixed.as_str(), content_offset(&l)), ("12:01 K1B > ID: ho", 6));
    m.append_line("a", "third", "12:02", 2);
    assert_eq!(m.lines.len(), 2);
    assert_eq!(m.visible().len(), 2);
    m.set_filter("k1[b]");
    assert_eq!(m.visible().len(), 1);
    m.set_filter("THIRD");
    assert_eq!(m.visible()[0].content, "third");
    m.set_filter("(");
    assert!(m.visible().is_empty());
    m.set_filter("");
    assert!(m.all_shown());
    m.set_port_shown("a", false);
    assert!(!m.all_shown());
    assert_eq!(m.visible()[0].port_id, "b");
    assert!(!m.append_line("a", "hidden", "12:03", 5).1);
    m.set_all_shown(&vec![s("a"), s("b")], true);
    assert!(m.all_shown());
    m.set_all_shown(&vec![s("a"), s("b")], false);
    assert!(m.visible().is_empty());
    assert!(m.shows_line(None, "zz", "x"));
}

#[test]
fn the_log_is_bounded() {
    let mut l = LogView::new();
    for i in 0..4 {
        l.append_line(&format!("l{i}\0"), "12:00", 3);
    }
    assert_eq!(l.lines, vec!["12:00 l1", "12:00 l2", "12:00 l3"]);
}

#[test]
fn file_names_are_safe() {
    assert_eq!(sanitize_component(" VHF 1/2 "), "VHF_1_2");
    assert_eq!(sanitize_component("N0CALL-1.x_y"), "N0CALL-1.x_y");
    assert_eq!(sanitize_component("\u{e9}\u{2014}"), "\u{e9}_");
    assert_eq!(sanitize_component("  "), "_");
    assert_eq!(sanitize_component("."), "_");
    assert_eq!(sanitize_component(" .. "), "_");
    assert_eq!(sanitize_component("..."), "...");
    assert_eq!(sanitize_component("a.."), "a..");
    assert_eq!(sanitize_component(&sanitize_component("..")), "_");
    let once = sanitize_component("a b/c");
    assert_eq!(sanitize_component(&once), once);
    assert_eq!(history_dir("/c", "My Port"), "/c/history/My_Port");
    assert_eq!(history_file_path("/c", "My Port", "KD3BFP"), "/c/history/My_Port/KD3BFP.txt");
}

#[test]
fn lines_are_put_together_from_pieces() {
    let mut buffer = String::new();
    assert_eq!(take_lines(&mut buffer, "one\r\ntw"), vec!["one"]);
    assert_eq!(take_lines(&mut buffer, "o\n\nthree"), vec!["two", ""]);
    assert_eq!(buffer, "three");
    let mut whole = String::new();
    assert_eq!(take_lines(&mut whole, "one\r\ntwo\n\nthree"), vec!["one", "two", ""]);
    assert_eq!(whole, buffer);
}

fn port(config: PortConfig) -> PortEntry {
    PortEntry { id: s("p"), name: s("P"), config, autoconnect: false, favorite: false }
}

#[test]
fn ports_know_what_they_can_do() {
    let raw = PortConfig::Ax25RawSocket { device: s("ax0") };
    let ssh = PortConfig::Ssh { host: s("h"), port: 22, user: s("u") };
    assert!(port_supports_connect(&raw) && !port_supports_unproto(&raw) && port_dialable(&raw));
    assert!(!port_supports_connect(&ssh) && !port_supports_unproto(&ssh) && port_dialable(&ssh));
    let serial = PortConfig::KissTcp { host: s("h"), port: 8001, my_call: s("N0CALL"), kiss_params: Default::default(), kiss_arq: Default::default() };
    assert!(!port_supports_connect(&serial) && port_supports_unproto(&serial) && !port_dialable(&serial));
    assert!(port_is_terminal(&ssh) && !port_is_terminal(&raw) && !port_is_terminal(&serial));
    assert_eq!(typed_path(&ssh, " Log in me "), " Log in me ");
    assert_eq!(typed_path(&raw, " wide1-1 "), "WIDE1-1");
}

#[test]
fn a_tab_counts_and_times() {
    let mut t = SessionTab::new(port(PortConfig::Ax25RawSocket { device: s("ax0") }), s("KD3BFP"), s("wide1-1 , wide2-2"));
    assert_eq!(t.via(), vec!["WIDE1-1", "WIDE2-2"]);
    assert_eq!(t.history_key(), (s("p"), s("KD3BFP")));
    assert_eq!(t.receive_data("a\0b\nc"), vec!["ab"]);
    assert_eq!((t.bytes_received, t.packets_received), (5, 1));
    assert_eq!(t.flush_pending().as_deref(), Some("c"));
    assert_eq!(t.flush_pending(), None);
    assert_eq!(t.append_sent_line("hi"), "\u{BB} hi");
    assert_eq!(t.take_mailbox_lines("l\r\nx"), vec!["l"]);
    assert_eq!(t.elapsed_text(5), None);
    t.mark_connected(10);
    assert_eq!(t.elapsed_text(10 + 36061).as_deref(), Some("10:01:01"));
    t.mark_disconnected();
    assert_eq!(t.elapsed_text(99), None);
    assert_eq!(status_line("connected"), "\u{2014} connected \u{2014}\n");
    assert_eq!(history_text(&vec![s("a"), s("b")]), "a\nb\n");
    assert_eq!(history_text(&vec![]), "");
    assert_eq!((lines_to_trim(5, 3, 10), lines_to_trim(8, 5, 10)), (0, 3));
    assert!(parse_path(" , ").is_empty());
    assert_eq!(parse_path("wide1-1\twide2-2,\u{a0}k1b ,, N0CALL"), vec!["WIDE1-1", "WIDE2-2", "K1B", "N0CALL"]);
}

#[test]
fn sorting_is_stable() {
    let key = |major: Option<&str>, minor: &str| SortKey { major: major.map(str::to_string), minor: s(minor) };
    let keys = vec![key(Some("b"), "x"), key(None, "y"), key(Some("b"), "a"), key(Some("c"), "z"), key(Some("b"), "x")];
    assert_eq!(stable_order(&keys, true), vec![3, 2, 0, 4, 1]);
    assert_eq!(stable_order(&keys, false), vec![1, 2, 0, 4, 3]);
    assert!(is_text_before("a", "ab") && !is_text_before("b", "ab"));
}
