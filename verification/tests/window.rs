use packet_radio::actions::{status_of, tab_title, TabPrefill};
use packet_radio::config::{
    AppConfig, BeaconMonitorRule, HighlightRule, PinnedSession, PortConfig, PortEntry,
};
use packet_radio::events::describe_state;
use packet_radio::port::{ConnState, NodesBroadcastEntry, PortCommand, PortEvent};
use packet_radio::startup::pinned_tabs;
use packet_radio::window::{Effect, Ui};

const NOW: &str = "2024-05-01 12:00:00";

fn agwpe(id: &str, name: &str) -> PortEntry {
    PortEntry {
        id: id.to_string(),
        name: name.to_string(),
        config: PortConfig::Agwpe {
            host: "localhost".to_string(),
            port: 8000,
            radio_port: 0,
            my_call: "N0CALL-1".to_string(),
            login: None,
        },
        autoconnect: false,
        favorite: false,
    }
}

fn telnet(id: &str, name: &str) -> PortEntry {
    PortEntry {
        id: id.to_string(),
        name: name.to_string(),
        config: PortConfig::Telnet { host: "cluster".to_string(), port: 7300 },
        autoconnect: false,
        favorite: false,
    }
}

fn config() -> AppConfig {
    let mut c = AppConfig::default();
    c.ports.push(agwpe("vhf", "VHF"));
    c.ports.push(telnet("dx", "Cluster"));
    c
}

fn prefill(port: &str, remote: &str, path: &str, unproto: bool) -> TabPrefill {
    TabPrefill { port_id: port.to_string(), remote: remote.to_string(), path: path.to_string(), unproto }
}

fn lines(effects: &[Effect]) -> Vec<String> {
    effects
        .iter()
        .filter_map(|e| match e {
            Effect::Monitor { line, .. } => Some(line.clone()),
            _ => None,
        })
        .collect()
}

fn commands(effects: &[Effect]) -> Vec<String> {
    effects
        .iter()
        .filter_map(|e| match e {
            Effect::Command { port_id, command } => Some(format!("{port_id} {command:?}")),
            _ => None,
        })
        .collect()
}

fn kept(effects: &[Effect]) -> Vec<String> {
    effects
        .iter()
        .filter_map(|e| match e {
            Effect::Keep { port_id, remote, line } => Some(format!("{port_id}/{remote}/{line}")),
            _ => None,
        })
        .collect()
}

fn notes(effects: &[Effect]) -> Vec<(String, String)> {
    effects
        .iter()
        .filter_map(|e| match e {
            Effect::Notify { title, body } => Some((title.clone(), body.clone())),
            _ => None,
        })
        .collect()
}

fn event(ui: &mut Ui, port: &str, e: PortEvent) -> Vec<Effect> {
    ui.handle_event(port, e, NOW, 100)
}

fn up(ui: &mut Ui, port: &str) {
    ui.connect_port(port);
    event(ui, port, PortEvent::PortConnected);
}

fn opened(label: &str, to: Option<&str>) -> PortEvent {
    PortEvent::ConnectionOpened { id: 7, label: label.to_string(), to: to.map(str::to_string) }
}

fn data(text: &str) -> PortEvent {
    PortEvent::Data { id: 7, bytes: text.as_bytes().to_vec() }
}

fn frame(from: &str, to: &str, message: &str) -> PortEvent {
    PortEvent::Monitor {
        line: format!("{from} > {to}: {message}"),
        from: Some(from.to_string()),
        to: Some(to.to_string()),
        message: Some(message.to_string()),
    }
}

#[test]
fn connecting_a_port_starts_it_once() {
    let mut ui = Ui::new(config());
    let first = ui.connect_port("vhf");
    assert_eq!(lines(&first), vec!["[VHF] connecting (AGWPE)\u{2026}"]);
    assert!(matches!(&first[1], Effect::Spawn { port_id } if port_id == "vhf"));
    assert!(ui.connect_port("vhf").is_empty());
    assert!(ui.connect_port("none").is_empty());
    assert!(ui.state.is_active("vhf"));
    ui.port_ended("vhf");
    assert!(!ui.state.is_active("vhf"));
}

#[test]
fn commands_need_a_port_that_is_up() {
    let mut ui = Ui::new(config());
    assert!(ui.disconnect_port("vhf").is_empty());
    assert!(ui.send_unproto("vhf", "CQ".to_string(), vec![], vec![1]).is_empty());
    up(&mut ui, "vhf");
    assert_eq!(commands(&ui.disconnect_port("vhf")), vec!["vhf Disconnect"]);
    assert_eq!(
        commands(&ui.send_unproto("vhf", "CQ".to_string(), vec!["WIDE1-1".to_string()], vec![65])),
        vec!["vhf SendUnproto { dest: \"CQ\", via: [\"WIDE1-1\"], bytes: [65] }"]
    );
}

#[test]
fn an_error_of_a_live_port_changes_nothing() {
    let mut ui = Ui::new(config());
    up(&mut ui, "vhf");
    let e = event(&mut ui, "vhf", PortEvent::PortError { message: "bad frame".to_string() });
    assert_eq!(lines(&e), vec!["[vhf] ERROR: bad frame"]);
    assert_eq!(e.len(), 1);
    assert!(ui.state.is_active("vhf"));
}

#[test]
fn an_error_before_the_port_came_up_is_a_failure() {
    let mut ui = Ui::new(config());
    ui.connect_port("vhf");
    ui.connect_port("dx");
    let e = event(&mut ui, "vhf", PortEvent::PortError { message: "refused".to_string() });
    assert!(matches!(&e[1], Effect::Failed { port_id } if port_id == "vhf"));
    assert!(!ui.state.is_active("vhf"));
    assert!(ui.state.is_active("dx"));
}

#[test]
fn dialing_opens_a_connection_to_the_node() {
    let mut ui = Ui::new(config());
    let (id, e) = ui.add_tab(&prefill("vhf", "kd3bfp-9", "wide1-1, wide2-1", false));
    let id = id.unwrap();
    assert!(matches!(&e[0], Effect::Preview { tab, port_id, remote } if *tab == id && port_id == "vhf" && remote == "KD3BFP-9"));
    let e = ui.connect_tab(id);
    assert_eq!(
        commands(&e),
        vec!["vhf OpenConnection { remote: \"KD3BFP-9\", via: [\"WIDE1-1\", \"WIDE2-1\"] }"]
    );
    assert!(e.iter().any(|x| matches!(x, Effect::Spawn { .. })));
    event(&mut ui, "vhf", PortEvent::PortConnected);
    let e = event(&mut ui, "vhf", opened("KD3BFP-9", Some("N0CALL-1")));
    assert_eq!(ui.tabs.len(), 1);
    assert_eq!(ui.tabs[0].tab.conn_id, Some(7));
    assert!(notes(&e).is_empty());
    assert_eq!(ui.state.config.qso_log.len(), 1);
    assert_eq!(ui.state.config.qso_log[0].callsign, "KD3BFP-9");
}

#[test]
fn dialing_needs_a_node() {
    let mut ui = Ui::new(config());
    let id = ui.add_tab(&prefill("vhf", "  ", "", false)).0.unwrap();
    let e = ui.connect_tab(id);
    assert_eq!(lines(&e), vec!["Enter a node/callsign before connecting."]);
    assert!(ui.pending.is_empty());
    assert!(!ui.state.is_active("vhf"));
}

#[test]
fn a_tab_needs_a_configured_port() {
    let mut ui = Ui::new(config());
    let (id, e) = ui.add_tab(&prefill("gone", "N0CALL", "", false));
    assert!(id.is_none() && e.is_empty() && ui.tabs.is_empty());
}

#[test]
fn a_terminal_session_sends_its_first_line() {
    let mut ui = Ui::new(config());
    let id = ui.add_tab(&prefill("dx", "", "LOGIN ME", false)).0.unwrap();
    ui.connect_tab(id);
    event(&mut ui, "dx", PortEvent::PortConnected);
    let e = event(&mut ui, "dx", opened("cluster:7300", None));
    assert_eq!(ui.tabs[0].tab.conn_id, Some(7));
    assert_eq!(commands(&e), vec![format!("dx Send {{ id: 7, bytes: {:?} }}", b"LOGIN ME\n".to_vec())]);
    assert!(ui.state.config.qso_log.is_empty());
}

#[test]
fn typed_lines_are_sent_echoed_and_kept() {
    let mut ui = Ui::new(config());
    let id = ui.add_tab(&prefill("vhf", "KD3BFP", "", false)).0.unwrap();
    assert!(!ui.can_send(id));
    let (sent, e) = ui.activate_input(id, "hello");
    assert!(!sent);
    assert_eq!(lines(&e), vec!["Not connected \u{2014} message kept in the input field."]);
    assert!(!ui.activate_input(id, "").0);
    ui.connect_tab(id);
    event(&mut ui, "vhf", PortEvent::PortConnected);
    event(&mut ui, "vhf", opened("KD3BFP", Some("N0CALL-1")));
    assert!(ui.can_send(id));
    let (sent, e) = ui.activate_input(id, "hello");
    assert!(sent);
    assert_eq!(commands(&e), vec![format!("vhf Send {{ id: 7, bytes: {:?} }}", b"hello\n".to_vec())]);
    assert_eq!(kept(&e), vec!["vhf/KD3BFP/\u{BB} hello"]);
    assert_eq!(lines(&e), vec!["[VHF] TX > KD3BFP: hello"]);
    assert_eq!(ui.tabs[0].tab.bytes_sent, 5);
    assert_eq!(ui.tabs[0].tab.packets_sent, 1);
}

#[test]
fn unconnected_lines_need_a_destination_and_a_port() {
    let mut ui = Ui::new(config());
    let id = ui.add_tab(&prefill("vhf", "", "", true)).0.unwrap();
    up(&mut ui, "vhf");
    let (sent, e) = ui.activate_input(id, "hi");
    assert!(sent);
    assert_eq!(lines(&e), vec!["Enter a destination before sending unproto."]);
    let id = ui.add_tab(&prefill("vhf", "cq", "wide1-1,wide2-1", true)).0.unwrap();
    let (_, e) = ui.activate_input(id, "hi");
    assert_eq!(
        commands(&e),
        vec!["vhf SendUnproto { dest: \"CQ\", via: [\"WIDE1-1\", \"WIDE2-1\"], bytes: [104, 105] }"]
    );
    assert_eq!(lines(&e), vec!["[VHF] TX unproto > CQ via WIDE1-1,WIDE2-1: hi"]);
}

#[test]
fn received_lines_are_shown_and_kept() {
    let mut ui = Ui::new(config());
    up(&mut ui, "vhf");
    event(&mut ui, "vhf", opened("KD3BFP", None));
    let other = ui.add_tab(&prefill("vhf", "W1AW", "", false)).0.unwrap();
    let e = event(&mut ui, "vhf", data("one\r\ntw\0o"));
    assert_eq!(kept(&e), vec!["vhf/KD3BFP/one"]);
    assert!(matches!(&e[0], Effect::Show { text, .. } if text == "one\r\ntwo"));
    let e = event(&mut ui, "vhf", data("!\n"));
    assert_eq!(kept(&e), vec!["vhf/KD3BFP/two!"]);
    let k = ui.find_tab(other);
    assert_eq!(ui.tabs[k].tab.bytes_received, 0);
    assert_eq!(ui.tabs[0].tab.bytes_received, 10);
    assert!(event(&mut ui, "vhf", PortEvent::Data { id: 99, bytes: vec![65] }).is_empty());
}

#[test]
fn an_unfinished_line_is_kept_when_the_connection_ends() {
    let mut ui = Ui::new(config());
    up(&mut ui, "vhf");
    event(&mut ui, "vhf", opened("KD3BFP", None));
    event(&mut ui, "vhf", data("half"));
    let e = event(&mut ui, "vhf", PortEvent::ConnectionClosed { id: 7 });
    assert_eq!(kept(&e), vec!["vhf/KD3BFP/half"]);
    assert!(ui.bound.is_empty());
    assert_eq!(ui.tabs[0].tab.conn_id, None);
    assert_eq!(ui.state.config.qso_log[0].ended.as_deref(), Some(NOW));
    assert!(event(&mut ui, "vhf", data("late\n")).is_empty());
}

#[test]
fn tabs_outlive_their_port() {
    let mut ui = Ui::new(config());
    up(&mut ui, "vhf");
    event(&mut ui, "vhf", opened("KD3BFP", None));
    let waiting = ui.add_tab(&prefill("vhf", "W1AW", "", false)).0.unwrap();
    ui.connect_tab(waiting);
    let e = event(&mut ui, "vhf", PortEvent::PortDisconnected { reason: Some("gone".to_string()) });
    assert_eq!(lines(&e), vec!["[vhf] port disconnected: gone"]);
    assert_eq!(ui.tabs.len(), 2);
    assert_eq!(ui.tabs[0].tab.conn_id, None);
    assert_eq!(ui.tabs[0].tab.node, "KD3BFP");
    assert!(ui.bound.is_empty() && ui.pending.is_empty());
    assert!(!ui.state.is_active("vhf") && ui.confirmed_ports.is_empty());
    let e = event(&mut ui, "vhf", PortEvent::PortDisconnected { reason: None });
    assert_eq!(lines(&e), vec!["[vhf] port disconnected"]);
}

#[test]
fn closing_a_tab_forgets_it() {
    let mut ui = Ui::new(config());
    up(&mut ui, "vhf");
    event(&mut ui, "vhf", opened("KD3BFP", None));
    let other = ui.add_tab(&prefill("vhf", "W1AW", "", false)).0.unwrap();
    let id = ui.tabs[0].id;
    assert_ne!(id, other);
    ui.pin_tab(id, true);
    let e = ui.close_tab(id);
    assert_eq!(commands(&e), vec!["vhf CloseConnection { id: 7 }"]);
    assert!(ui.bound.is_empty());
    assert_eq!(ui.tabs.len(), 1);
    assert_eq!(ui.tabs[0].id, other);
    assert!(ui.state.config.pinned_sessions.is_empty());
    let third = ui.add_tab(&prefill("vhf", "K1ABC", "", false)).0.unwrap();
    assert!(third != id && third != other);
}

#[test]
fn a_pinned_tab_comes_back() {
    let mut ui = Ui::new(config());
    let id = ui.add_tab(&prefill("vhf", "kd3bfp", "wide1-1", false)).0.unwrap();
    assert!(matches!(ui.pin_tab(id, true).as_slice(), [Effect::Save]));
    assert_eq!(
        ui.state.config.pinned_sessions,
        vec![PinnedSession { port_id: "vhf".to_string(), remote: "KD3BFP".to_string(), via: "WIDE1-1".to_string() }]
    );
    let tabs = pinned_tabs(&ui.state.config.pinned_sessions);
    let mut again = Ui::new(ui.state.config.clone());
    for p in &tabs {
        again.add_tab(p);
    }
    assert_eq!(again.tabs.len(), 1);
    assert!(again.tabs[0].tab.pinned && again.tabs[0].tab.conn_id.is_none());
    assert!(!again.state.is_active("vhf"));
    ui.pin_tab(id, false);
    assert!(!ui.state.is_pinned("vhf", "KD3BFP"));
    let blank = ui.add_tab(&prefill("vhf", "", "", false)).0.unwrap();
    assert!(ui.pin_tab(blank, true).is_empty());
}

#[test]
fn the_mailbox_answers_its_own_callsign() {
    let mut c = config();
    c.mailbox.enabled = true;
    c.mailbox.respond_call = "N0CALL-2".to_string();
    c.notify.directed_enabled = true;
    let mut ui = Ui::new(c);
    up(&mut ui, "vhf");
    let e = event(&mut ui, "vhf", opened("KD3BFP", Some("n0call-2")));
    assert_eq!(
        commands(&e),
        vec![format!(
            "vhf Send {{ id: 7, bytes: {:?} }}",
            b"N0CALL-2 BBS. Commands: L)ist  R)ead <id>  CQ  B)ye\n".to_vec()
        )]
    );
    assert_eq!(
        notes(&e),
        vec![("Packet Radio \u{2014} VHF".to_string(), "KD3BFP connected to you".to_string())]
    );
    assert_eq!(ui.state.config.notified_packets[0].line, "KD3BFP connected to you");
    let e = event(&mut ui, "vhf", data("cq\nFM19\nb\nl\n"));
    let sent = commands(&e);
    assert_eq!(sent.last().unwrap(), "vhf CloseConnection { id: 7 }");
    assert_eq!(ui.tabs[0].tab.mailbox_state.is_none(), true);
    assert_eq!(ui.state.config.qso_log.len(), 2);
    assert!(ui.state.config.qso_log[1].from_cq);
    assert!(commands(&event(&mut ui, "vhf", data("l\n"))).is_empty());
}

#[test]
fn a_terminal_tab_is_pinned_with_its_first_line() {
    let mut ui = Ui::new(config());
    let id = ui.add_tab(&prefill("dx", "", " Log in me ", false)).0.unwrap();
    assert!(matches!(ui.pin_tab(id, true).as_slice(), [Effect::Save]));
    assert_eq!(
        ui.state.config.pinned_sessions,
        vec![PinnedSession { port_id: "dx".to_string(), remote: String::new(), via: " Log in me ".to_string() }]
    );
    let mut again = Ui::new(ui.state.config.clone());
    for p in &pinned_tabs(&ui.state.config.pinned_sessions) {
        again.add_tab(p);
    }
    let id = again.tabs[0].id;
    assert!(again.tabs[0].tab.pinned);
    again.connect_tab(id);
    event(&mut again, "dx", PortEvent::PortConnected);
    let e = event(&mut again, "dx", opened("cluster:7300", None));
    assert_eq!(commands(&e), vec![format!("dx Send {{ id: 7, bytes: {:?} }}", b" Log in me \n".to_vec())]);
    assert!(matches!(again.pin_tab(id, false).as_slice(), [Effect::Save]));
    assert!(again.state.config.pinned_sessions.is_empty());
}

#[test]
fn a_caller_leaves_a_message() {
    let mut c = config();
    c.mailbox.enabled = true;
    c.mailbox.respond_call = "N0CALL-2".to_string();
    let mut ui = Ui::new(c);
    ui.state.qrz_session = Some("key".to_string());
    up(&mut ui, "vhf");
    event(&mut ui, "vhf", opened("KD3BFP", Some("N0CALL-2")));
    event(&mut ui, "vhf", data("s n0call\nHi\nline one\nline"));
    assert!(ui.state.config.mailbox.messages.is_empty());
    let e = event(&mut ui, "vhf", data(" two\n/EX\n"));
    assert!(e.iter().any(|x| matches!(x, Effect::Save)));
    assert_eq!(
        commands(&e),
        vec![format!("vhf Send {{ id: 7, bytes: {:?} }}", b"Message saved.\nCmd: ".to_vec())]
    );
    let m = &ui.state.config.mailbox.messages[0];
    assert_eq!((m.to.as_str(), m.from.as_str(), m.subject.as_str()), ("N0CALL", "KD3BFP", "Hi"));
    assert_eq!((m.body.as_str(), m.timestamp.as_str(), m.read), ("line one\nline two", NOW, false));
    assert_eq!(ui.state.qrz_session.as_deref(), Some("key"));
}

#[test]
fn the_mailbox_greets_as_it_is_told() {
    let mut c = config();
    c.mailbox.enabled = true;
    c.mailbox.respond_call = "N0CALL-2".to_string();
    c.mailbox.intro_message = "Hi from $$NODE, $$NAME\n".to_string();
    c.ui.name = Some("Pat".to_string());
    let mut ui = Ui::new(c);
    up(&mut ui, "vhf");
    let e = event(&mut ui, "vhf", opened("KD3BFP", Some("N0CALL-2")));
    assert_eq!(commands(&e), vec![format!("vhf Send {{ id: 7, bytes: {:?} }}", b"Hi from N0CALL-2, Pat\n".to_vec())]);
}

#[test]
fn keyboard_mode_answers_where_the_mailbox_does_not() {
    let mut c = config();
    c.mailbox.enabled = true;
    c.mailbox.respond_call = "N0CALL-2".to_string();
    c.keyboard_mode.enabled = true;
    c.ui.default_call = Some("N0CALL-9".to_string());
    c.keyboard_mode.listen_ports = vec!["vhf".to_string()];
    let mut ui = Ui::new(c);
    up(&mut ui, "vhf");
    let e = event(&mut ui, "vhf", opened("KD3BFP", Some("N0CALL-9")));
    assert_eq!(
        commands(&e),
        vec![format!(
            "vhf Send {{ id: 7, bytes: {:?} }}",
            b"N0CALL-9 here, ready for keyboard-to-keyboard. Go ahead.\n".to_vec()
        )]
    );
    assert!(ui.tabs[0].tab.mailbox_state.is_none());
    ui.state.config.keyboard_mode.listen_ports = vec!["other".to_string()];
    let e = event(&mut ui, "vhf", PortEvent::ConnectionOpened { id: 8, label: "W1AW".to_string(), to: Some("N0CALL-9".to_string()) });
    assert!(commands(&e).is_empty());
}

#[test]
fn directed_frames_notify() {
    let mut c = config();
    c.notify.directed_enabled = true;
    c.notify.custom_enabled = true;
    c.ui.default_call = Some("N0CALL-1".to_string());
    c.highlighting.rules = vec![HighlightRule {
        label: "Net".to_string(),
        pattern: "NET, ALL".to_string(),
        regex: false,
        color: "#FFD700".to_string(),
        notify: true,
        enabled: true,
    }];
    let mut ui = Ui::new(c);
    let e = event(&mut ui, "vhf", frame("KD3BFP", "N0CALL-7", "hi"));
    assert_eq!(lines(&e), vec!["[vhf] KD3BFP > N0CALL-7: hi"]);
    assert_eq!(notes(&e), vec![("Packet Radio \u{2014} VHF".to_string(), "From: KD3BFP\nTo: N0CALL-7\nhi".to_string())]);
    let e = event(&mut ui, "vhf", frame("KD3BFP", "net", "hi"));
    assert_eq!(notes(&e)[0].0, "Packet Radio \u{2014} VHF (Net)");
    assert_eq!(ui.state.config.notified_packets.len(), 2);
    assert_eq!(ui.state.config.notified_packets[1].id, 2);
    assert!(notes(&event(&mut ui, "vhf", frame("KD3BFP", "W1AW", "hi"))).is_empty());
}

#[test]
fn beacons_light_the_button() {
    let mut c = config();
    c.notify.beacon_enabled = true;
    let rule = |pattern: &str, sender: &str, enabled: bool| BeaconMonitorRule {
        id: "r".to_string(),
        label: format!("{sender}|{pattern}"),
        pattern: pattern.to_string(),
        sender: sender.to_string(),
        enabled,
        from_address_book: false,
    };
    c.beacon_rules = vec![rule("(", "", true), rule("^id", "", false), rule("^bea", "kd3bfp", true)];
    let mut ui = Ui::new(c);
    event(&mut ui, "vhf", frame("W1AW", "BEACON", "x"));
    assert!(!ui.beacon_lit);
    let e = event(&mut ui, "vhf", frame("KD3BFP", "BEACON", "hello"));
    assert!(ui.beacon_lit);
    assert_eq!(notes(&e)[0].0, "Packet Radio \u{2014} VHF (Beacon: kd3bfp|^bea)");
    assert_eq!(ui.state.config.incoming_beacons.len(), 1);
    let entry = ui.state.config.address_book.iter().find(|e| e.callsign == "KD3BFP").unwrap();
    assert_eq!(entry.recent_beacons[0].text, "hello");
    ui.clear_beacon_lit();
    assert!(!ui.beacon_lit);
}

#[test]
fn watching_tabs_show_unconnected_traffic() {
    let mut ui = Ui::new(config());
    let id = ui.add_tab(&prefill("vhf", "CQ", "", true)).0.unwrap();
    ui.add_tab(&prefill("vhf", "W1AW", "", false));
    let e = event(&mut ui, "vhf", frame("KD3BFP", "CQ", "hi"));
    let shown: Vec<_> = e
        .iter()
        .filter_map(|x| match x {
            Effect::Show { tab, text } => Some((*tab, text.clone())),
            _ => None,
        })
        .collect();
    assert_eq!(shown, vec![(id, "KD3BFP > CQ: hi\n".to_string())]);
    let e = event(&mut ui, "vhf", PortEvent::Monitor { line: "x".to_string(), from: None, to: None, message: None });
    assert_eq!(e.len(), 1);
}

#[test]
fn stations_are_recorded() {
    let mut ui = Ui::new(config());
    let e = event(&mut ui, "vhf", PortEvent::StationHeard { callsign: " kd3bfp ".to_string() });
    assert!(matches!(e.as_slice(), [Effect::Save]));
    assert_eq!(ui.state.config.address_book[0].callsign, "KD3BFP");
    event(
        &mut ui,
        "vhf",
        PortEvent::NodesBroadcast {
            from: "N1NODE".to_string(),
            sender_alias: "NODE1".to_string(),
            entries: vec![NodesBroadcastEntry { callsign: "N2NODE".to_string(), alias: "NODE2".to_string() }],
        },
    );
    assert_eq!(ui.state.config.address_book.len(), 3);
    assert_eq!(ui.state.config.address_book[1].alias.as_deref(), Some("NODE1"));
    assert!(!ui.state.config.address_book[2].heard_direct);
    assert!(event(&mut ui, "vhf", PortEvent::StationHeard { callsign: " ".to_string() }).is_empty());
}

#[test]
fn connection_states_are_logged() {
    let mut ui = Ui::new(config());
    let e = event(&mut ui, "vhf", PortEvent::ConnState { id: 3, state: ConnState::Disconnecting });
    assert_eq!(lines(&e), vec!["[vhf] connection 3: disconnecting"]);
    assert_eq!(describe_state(ConnState::Connecting), "connecting");
    assert_eq!(describe_state(ConnState::Connected), "connected");
    assert_eq!(describe_state(ConnState::Disconnected), "disconnected");
}

#[test]
fn titles_and_status_follow_the_tab() {
    let mut ui = Ui::new(config());
    assert_eq!(status_of(None, 0).text, "No tab selected");
    let id = ui.add_tab(&prefill("vhf", "KD3BFP", "", false)).0.unwrap();
    assert_eq!(tab_title(&ui.tabs[0].tab), "VHF: KD3BFP");
    assert_eq!(status_of(Some(&ui.tabs[0].tab), 0).text, "Disconnected");
    ui.connect_tab(id);
    event(&mut ui, "vhf", PortEvent::PortConnected);
    event(&mut ui, "vhf", opened("KD3BFP", None));
    let s = status_of(Some(&ui.tabs[0].tab), 100 + 3725);
    assert_eq!(s.text, "Connected to KD3BFP \u{2014} 1:02:05");
    assert!(s.icon && s.live);
    ui.tabs[0].tab.unproto = true;
    assert_eq!(tab_title(&ui.tabs[0].tab), "VHF: KD3BFP (unproto)");
    let s = status_of(Some(&ui.tabs[0].tab), 0);
    assert!(!s.icon && !s.live && s.text.is_empty());
}

#[test]
fn a_command_of_the_window_reaches_the_right_port() {
    let mut ui = Ui::new(config());
    up(&mut ui, "vhf");
    up(&mut ui, "dx");
    event(&mut ui, "vhf", opened("KD3BFP", None));
    event(&mut ui, "dx", opened("cluster:7300", None));
    assert_eq!(ui.bound.len(), 2);
    let id = ui.tabs[1].id;
    let e = ui.disconnect_tab(id);
    assert!(matches!(&e[0], Effect::Command { port_id, command: PortCommand::CloseConnection { id: 7 } } if port_id == "dx"));
}
