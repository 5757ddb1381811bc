use packet_radio::app_state::{
    find_entry, history_path, history_tail, runner_for, AppState, Runner,
};
use packet_radio::client::{self, AgwpeRunner};
use packet_radio::codec::AgwFrame;
use packet_radio::config::{
    is_orphaned_history, migrated_history, needs_migration, AgwpeLogin, AppConfig, KissArqParams,
    KissParams, NodeHistory, PortConfig, PortEntry,
};
use packet_radio::kiss_runner::{kiss_params_bytes, KissTransport};
use packet_radio::port::{ConnState, NodesBroadcastEntry, PortCommand, PortEvent};
use packet_radio::qrz::{lookup, start_lookup, LookupAction};
use packet_radio::raw_socket::{parse_axports, resolve_local_call};
use packet_radio::runner::{self, call_address, RawPort, RawStep};
use packet_radio::telnet::TelnetFilter;
use packet_radio::transports::{
    self, address_of, closed_events, opened_events, receive_telnet, SshRunner, TelnetRunner,
    TerminalStep,
};

fn s(x: &str) -> String {
    x.to_string()
}

fn state() -> AppState {
    AppState::new(AppConfig::default())
}

#[test]
fn hearing_counts_and_keeps_notes() {
    let mut st = state();
    assert!(st.record_heard(" k1abc ", "t1"));
    st.config.address_book[0].notes = Some(s("friend"));
    assert!(st.record_heard("K1ABC", "t2"));
    assert!(!st.record_heard("  ", "t3"));
    assert_eq!(st.config.address_book.len(), 1);
    let e = &st.config.address_book[0];
    assert_eq!((e.heard_count, e.last_heard.as_deref(), e.notes.as_deref()), (2, Some("t2"), Some("friend")));
}

#[test]
fn naming_a_node_is_not_hearing_it() {
    let mut st = state();
    let entries = vec![
        NodesBroadcastEntry { callsign: s("N2A"), alias: s("TWO") },
        NodesBroadcastEntry { callsign: s(" "), alias: s("X") },
    ];
    assert!(st.record_nodes_broadcast("N1A", "ONE", &entries, "t1"));
    assert!(!st.record_nodes_broadcast(" ", "ONE", &entries, "t1"));
    let one = &st.config.address_book[0];
    assert_eq!((one.heard_direct, one.alias.as_deref(), one.heard_count), (true, Some("ONE"), 1));
    let two = &st.config.address_book[1];
    assert_eq!((two.heard_direct, two.alias.as_deref(), two.heard_count), (false, Some("TWO"), 0));
    st.record_heard("N2A", "t2");
    assert!(st.config.address_book[1].heard_direct);
}

#[test]
fn the_last_five_beacon_texts_are_kept() {
    let mut st = state();
    for i in 0..6 {
        st.record_beacon_packet("K1A", &format!("b{i}"), "t");
    }
    st.record_beacon_packet("K1A", "b3", "t2");
    assert!(!st.record_beacon_packet("K1A", "", "t"));
    let texts: Vec<&str> = st.config.address_book[0].recent_beacons.iter().map(|b| b.text.as_str()).collect();
    assert_eq!(texts, vec!["b3", "b5", "b4", "b2", "b1"]);
    assert_eq!(st.config.address_book[0].recent_beacons[0].when, "t2");
}

#[test]
fn pins_are_set_and_removed() {
    let mut st = state();
    st.set_pinned("p", "K1A", "", true);
    st.set_pinned("p", "K1B", "", true);
    st.set_pinned("p", "K1A", "WIDE1-1", true);
    assert_eq!(st.config.pinned_sessions.len(), 2);
    assert!(st.is_pinned("p", "K1A") && !st.is_pinned("q", "K1A"));
    st.set_pinned("p", "K1A", "", false);
    assert!(!st.is_pinned("p", "K1A") && st.is_pinned("p", "K1B"));
}

#[test]
fn contacts_are_logged() {
    let mut st = state();
    assert!(st.log_qso_started("p", " k1a ", "t1"));
    assert!(!st.log_qso_started("p", " ", "t1"));
    st.log_qso_started("p", "K1A", "t2");
    st.log_qso_ended("p", "k1a", "t3");
    assert_eq!(st.config.qso_log[0].ended, None);
    assert_eq!(st.config.qso_log[1].ended.as_deref(), Some("t3"));
    st.log_qso_ended("q", "K1A", "t4");
    assert_eq!(st.config.qso_log[0].ended, None);
}

#[test]
fn recorded_packets_get_new_numbers() {
    let mut st = state();
    st.record_notified_packet("p", "a", "t");
    st.record_notified_packet("p", "b", "t");
    st.remove_notified_packet(1);
    st.record_notified_packet("p", "c", "t");
    let ids: Vec<u64> = st.config.notified_packets.iter().map(|p| p.id).collect();
    assert_eq!(ids, vec![2, 3]);
    st.record_incoming_beacon("p", "K1A", "ID", "m", "t");
    st.record_incoming_beacon("p", "K1A", "ID", "m", "t");
    st.remove_incoming_beacon(1);
    assert_eq!(st.config.incoming_beacons[0].id, 2);
    st.clear_incoming_beacons();
    assert!(st.config.incoming_beacons.is_empty());
}

fn telnet_port() -> PortEntry {
    PortEntry {
        id: s("t"),
        name: s("DX Cluster"),
        config: PortConfig::Telnet { host: s("dx"), port: 7300 },
        autoconnect: false,
        favorite: false,
    }
}

#[test]
fn history_is_found_and_shortened() {
    assert_eq!(history_tail("a\nb\nc\n", 2), vec!["b", "c"]);
    assert_eq!(history_tail("a\n", 2), vec!["a"]);
    let mut c = AppConfig::default();
    c.ports.push(telnet_port());
    assert_eq!(history_path(&c, Some("/c"), "t", "K1A").as_deref(), Some("/c/history/DX_Cluster/K1A.txt"));
    assert_eq!(history_path(&c, Some("/c"), "zz", "K1A").as_deref(), Some("/c/history/zz/K1A.txt"));
    assert_eq!(history_path(&c, None, "t", "K1A"), None);
    assert!(find_entry(&c, "t").is_some() && find_entry(&c, "x").is_none());
}

#[test]
fn files_have_their_places() {
    assert!(AppConfig::config_path(None).is_none());
    assert_eq!(AppConfig::config_path(Some("/c")).as_deref(), Some("/c/config.toml"));
    assert_eq!(AppConfig::ports_path("/c"), "/c/ports.toml");
    assert_eq!(AppConfig::mailbox_path("/c"), "/c/mailbox.toml");
    let h = NodeHistory { port_id: s("t"), remote: s("K1A"), unproto: false, lines: vec![s("a"), s("b")] };
    let ports = vec![telnet_port()];
    let (name, remote, text) = migrated_history(&h, &ports).unwrap();
    assert_eq!((name.as_str(), remote.as_str(), text.as_str()), ("DX Cluster", "K1A", "a\nb\n"));
    let empty = NodeHistory { lines: vec![], port_id: s("zz"), ..h };
    let (name, _, text) = migrated_history(&empty, &ports).unwrap();
    assert_eq!((name.as_str(), text.as_str()), ("zz", ""));
    assert!(migrated_history(&NodeHistory { unproto: true, ..empty }, &ports).is_none());
    assert!(is_orphaned_history("K1A_unproto.txt") && !is_orphaned_history("K1A.txt"));
    assert!(needs_migration(true, false) && !needs_migration(true, true) && !needs_migration(false, false));
}

#[test]
fn a_fresh_configuration_has_its_defaults() {
    let c = AppConfig::default();
    assert_eq!((c.ui.history_lines, c.ui.monitor_buffer_lines, c.ui.tab_buffer_max_lines), (1000, 5000, 25000));
    assert_eq!((c.mailbox.beacon_interval_secs, c.keyboard_mode.beacon_interval_secs), (1200, 600));
    assert!(!c.mailbox.enabled && c.highlighting.enabled);
    assert_eq!(c.highlighting.rules.len(), 2);
}

#[test]
fn every_port_has_its_runner() {
    let kiss = |config| runner_for(&config);
    assert!(matches!(kiss(PortConfig::Telnet { host: s("h"), port: 1 }), Runner::Telnet(r) if r.label() == "h:1"));
    assert!(matches!(kiss(PortConfig::Ssh { host: s("h"), port: 22, user: s("u") }), Runner::Ssh(_)));
    assert!(matches!(kiss(PortConfig::Ax25RawSocket { device: s("ax0") }), Runner::Ax25RawSocket(r) if r.device == "ax0"));
    let agw = PortConfig::Agwpe {
        host: s("h"),
        port: 8000,
        radio_port: 2,
        my_call: s("N0CALL"),
        login: Some(AgwpeLogin { username: s("u"), password: s("p") }),
    };
    assert!(matches!(kiss(agw), Runner::Agwpe(r) if r.radio_port == 2 && r.login.is_some()));
    let tcp = PortConfig::KissTcp {
        host: s("h"),
        port: 8001,
        my_call: s("N0CALL"),
        kiss_params: KissParams::default(),
        kiss_arq: KissArqParams::default(),
    };
    assert!(matches!(kiss(tcp), Runner::Kiss(r) if matches!(&r.transport, KissTransport::Tcp { port: 8001, .. })));
}

#[test]
fn terminals_take_commands() {
    assert_eq!(address_of("h", 23), "h:23");
    let t = TelnetRunner { host: s("h"), port: 23 };
    assert_eq!(t.label(), "h:23");
    let ssh = SshRunner { host: s("h"), port: 2222, user: s("u") };
    assert!(ssh.label().contains("u@h"));
    assert!(ssh.arguments().contains(&s("2222")));
    assert!(matches!(transports::handle_command(PortCommand::Send { id: 0, bytes: vec![1] }), TerminalStep::Write(b) if b == vec![1]));
    assert!(matches!(transports::handle_command(PortCommand::Disconnect), TerminalStep::Stop));
    assert!(matches!(opened_events(s("h:23")).as_slice(), [PortEvent::PortConnected, ..]));
    assert!(matches!(closed_events().last(), Some(PortEvent::PortDisconnected { .. })));
    assert!(matches!(transports::connect_failed("h:23", "no"), PortEvent::PortError { message } if message.contains("h:23") && message.contains("no")));
    let mut f = TelnetFilter::new();
    let (reply, event) = receive_telnet(&mut f, &[104, 255, 253, 1, 105]);
    assert_eq!(reply, vec![255, 252, 1]);
    assert!(matches!(event, Some(PortEvent::Data { bytes, .. }) if bytes == b"hi"));
    let (reply, event) = receive_telnet(&mut f, &[255]);
    assert!(reply.is_empty() && event.is_none());
}

#[test]
fn the_raw_port_keeps_its_connections() {
    let mut p = RawPort::new();
    let id = match p.handle_command(PortCommand::OpenConnection { remote: s("K1A"), via: vec![] }) {
        RawStep::Open { id, events, .. } => {
            assert_eq!(events.len(), 3);
            id
        }
        other => panic!("{other:?}"),
    };
    assert!(matches!(p.handle_command(PortCommand::Send { id, bytes: vec![1] }), RawStep::Nothing));
    p.opened(id);
    assert!(matches!(p.handle_command(PortCommand::Send { id, bytes: vec![1] }), RawStep::Write { .. }));
    let (other, events) = p.accepted(s("K1B"), s("N0CALL"));
    assert_ne!(other, id);
    assert!(matches!(&events[1], PortEvent::ConnectionOpened { to: Some(t), .. } if t == "N0CALL"));
    assert!(matches!(p.handle_command(PortCommand::CloseConnection { id }), RawStep::Shutdown { .. }));
    assert!(matches!(p.handle_command(PortCommand::CloseConnection { id }), RawStep::Nothing));
    assert_eq!(p.ended(other).len(), 2);
    assert!(matches!(p.handle_command(PortCommand::Disconnect), RawStep::Stop));
    assert!(matches!(&runner::connect_failed(1, "K1A", "no")[0], PortEvent::Monitor { line, .. } if line == "connect to K1A failed: no"));
    let a = call_address("K1A-3", &vec![s("WIDE1-1"); 9]).unwrap();
    assert_eq!((a.digipeaters.len(), a.count), (8, 9));
    assert!(call_address("TOOLONGCALL", &vec![]).is_err());
    assert!(call_address("K1A", &vec![s("K1A-99")]).is_err());
}

#[test]
fn axports_name_the_local_call() {
    let text = "# c\n\nvhf N0CALL-1 1200 255 2 VHF port\nbad\n";
    let v = parse_axports(text);
    assert_eq!((v.len(), v[0].description.as_str()), (1, "VHF port"));
    assert_eq!(resolve_local_call(text, "vhf").unwrap(), "N0CALL-1");
    assert!(resolve_local_call(text, "uhf").is_err());
}

#[test]
fn the_agwpe_client_keeps_its_connections() {
    let mut conns = client::ConnMap::new();
    let step = client::handle_command(
        PortCommand::OpenConnection { remote: s("K1A"), via: vec![s("WIDE1-1")] },
        &mut conns,
        1,
        "N0CALL",
    );
    assert_eq!(step.frame.as_ref().unwrap().kind(), 'v');
    let id = conns.id_for_call("K1A").unwrap();
    assert_eq!(conns.call_for_id(id).as_deref(), Some("K1A"));
    let step = client::handle_command(PortCommand::Send { id, bytes: b"hi".to_vec() }, &mut conns, 1, "N0CALL");
    let f = step.frame.unwrap();
    assert_eq!((f.kind(), f.call_to.as_str(), f.data.as_slice(), step.must_send), ('D', "K1A", b"hi".as_slice(), true));
    let events = client::handle_frame(AgwFrame::new(1, 'D', "K1A", "N0CALL", b"yo".to_vec()), &mut conns);
    assert!(events.iter().any(|e| matches!(e, PortEvent::Data { id: i, bytes } if *i == id && bytes == b"yo")));
    let events = client::handle_frame(AgwFrame::new(1, 'd', "K1A", "N0CALL", vec![]), &mut conns);
    assert!(events.iter().any(|e| matches!(e, PortEvent::ConnectionClosed { .. })));
    assert!(events.iter().any(|e| matches!(e, PortEvent::ConnState { state: ConnState::Disconnected, .. })));
    assert!(conns.id_for_call("K1A").is_none());
    assert!(client::handle_command(PortCommand::Disconnect, &mut conns, 1, "N0CALL").stop);
}

#[test]
fn the_agwpe_session_begins_with_a_login() {
    let r = AgwpeRunner { host: s("h"), tcp_port: 8000, radio_port: 1, my_call: s("N0CALL"), login: Some((s("u"), s("p"))) };
    let kinds: Vec<char> = r.startup_frames().iter().map(|f| f.kind()).collect();
    assert_eq!(kinds[0], 'P');
    assert!(kinds.contains(&'m'));
    let r = AgwpeRunner { login: None, ..r };
    assert!(!r.startup_frames().iter().any(|f| f.kind() == 'P'));
}

#[test]
fn tnc_parameters_become_frames() {
    let p = KissParams { tx_delay: Some(30), persistence: None, slot_time: None, full_duplex: Some(true) };
    assert_eq!(kiss_params_bytes(&p), vec![0xC0, 1, 30, 0xC0, 0xC0, 5, 1, 0xC0]);
    assert!(kiss_params_bytes(&KissParams::default()).is_empty());
}

#[test]
fn a_lookup_logs_in_again_when_the_session_ran_out() {
    let (mut l, url) = start_lookup("me", "p w", Some(s("old")), "K1A-7");
    assert_eq!(url, "https://xmldata.qrz.com/xml/current/?s=old&callsign=K1A");
    let a = lookup(&mut l, Ok(s("<Error>Session Timeout</Error>")));
    assert!(matches!(&a, LookupAction::Get(u) if u == "https://xmldata.qrz.com/xml/current/?username=me&password=p%20w"));
    let a = lookup(&mut l, Ok(s("<Key>new</Key>")));
    assert!(matches!(&a, LookupAction::Get(u) if u.contains("s=new")));
    assert_eq!(l.session.as_deref(), Some("new"));
    match lookup(&mut l, Ok(s("<fname>Pat</fname><name>Doe &amp; Co</name><grid>FM19</grid>"))) {
        LookupAction::Finished(Ok(i)) => assert_eq!((i.name.as_deref(), i.grid.as_deref()), (Some("Pat Doe & Co"), Some("FM19"))),
        other => panic!("{other:?}"),
    }
    let (mut l, _) = start_lookup("me", "pw", None, "K1A");
    assert!(matches!(lookup(&mut l, Err(s("offline"))), LookupAction::Finished(Err(_))));
}
