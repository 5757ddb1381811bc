use packet_radio::address_book::{
    beacon_line, empty_list_text, entry_detail, entry_summary, filtered_sorted_entries,
    form_heard_text, heard_text, lookup_request, place_text, remove_entry, save_alias, save_entry,
    status_text, EntryForm, SortMode,
};
use packet_radio::beacons::{
    add_rule, beacon_label, caption, detect_beacon, first_applying, form_title, incoming_label,
    incoming_order, listed, listed_rules, merge_rules, notified_order, remove_beacon, save_beacon,
    save_rules, schedule_beacons, switch_beacon, BeaconForm,
};
use packet_radio::config::{
    AddressBookEntry, AppConfig, Beacon, BeaconMonitorRule, BeaconPacketLogEntry, IncomingBeacon,
    KeyboardModePrefs, KissArqParams, KissParams, MailboxMessage, MailboxPrefs, NotifiedPacket,
    NotifyPrefs, PortConfig, PortEntry,
};
use packet_radio::dial::{fill_from, path_label, ports_to_dial, resolve};
use packet_radio::ports::{
    collapse_listen_ports, load_kiss_arq_params, load_kiss_params, move_port, parse_kiss_arq_params,
    parse_kiss_params, port_label, port_listen_checklist, read_kind, remove_port, save_port,
    KindForm, KissArqForm, KissForm, ListenChoice, PortForm,
};
use packet_radio::qrz::QrzInfo;
use packet_radio::settings::{
    click_mailbox, directed_tooltip, greeting_hint, has_unread, keyboard_mode_beacon,
    mailbox_beacon, mailbox_tooltip, message_order, message_row, new_highlight_rule,
    remove_message, save_direwolf, save_keyboard_mode, save_mailbox, set_notification_sound,
    KeyboardForm, MailboxForm, PreferencesForm, SwitchClick,
};
use packet_radio::app_state::AppState;
use packet_radio::startup::{
    autoconnect_ids, direwolf_tooltip, favorites, parse_font_desc, style_family, DirewolfEvent,
    DirewolfProcess, DirewolfState,
};

fn port(id: &str, config: PortConfig) -> PortEntry {
    PortEntry { id: id.to_string(), name: format!("Port {id}"), config, autoconnect: false, favorite: false }
}

fn agwpe(id: &str) -> PortEntry {
    port(
        id,
        PortConfig::Agwpe {
            host: "h".to_string(),
            port: 8000,
            radio_port: 0,
            my_call: "N0CALL".to_string(),
            login: None,
        },
    )
}

fn telnet(id: &str) -> PortEntry {
    port(id, PortConfig::Telnet { host: "h".to_string(), port: 23 })
}

fn kiss(id: &str) -> PortEntry {
    port(
        id,
        PortConfig::KissTcp {
            host: "h".to_string(),
            port: 8001,
            my_call: "N0CALL".to_string(),
            kiss_params: KissParams::default(),
            kiss_arq: KissArqParams::default(),
        },
    )
}

fn s(x: &str) -> String {
    x.to_string()
}

// Ports

fn kiss_form(a: &str, b: &str, c: &str) -> KissForm {
    KissForm { tx_delay: s(a), persistence: s(b), slot_time: s(c), full_duplex: true }
}

fn arq_form(w: &str, t1: &str, n2: &str, paclen: &str) -> KissArqForm {
    KissArqForm { window: s(w), t1_ms: s(t1), n2: s(n2), paclen: s(paclen) }
}

#[test]
fn kiss_parameters_are_read() {
    let p = parse_kiss_params(&kiss_form(" 30 ", "", "10")).unwrap();
    assert_eq!((p.tx_delay, p.persistence, p.slot_time, p.full_duplex), (Some(30), None, Some(10), Some(true)));
    assert!(parse_kiss_params(&kiss_form("256", "", "")).is_err());
    assert!(parse_kiss_params(&kiss_form("", "x", "")).is_err());
    assert!(parse_kiss_params(&kiss_form("", "", "-1")).is_err());
    let f = load_kiss_params(&p);
    assert_eq!((f.tx_delay.as_str(), f.persistence.as_str(), f.slot_time.as_str()), ("30", "", "10"));
}

#[test]
fn connected_mode_parameters_are_read() {
    let p = parse_kiss_arq_params(&arq_form("7", "5000", "10", "128")).unwrap();
    assert_eq!((p.window, p.t1_ms, p.n2, p.n1_bytes), (Some(7), Some(5000), Some(10), Some(128)));
    assert!(parse_kiss_arq_params(&arq_form("8", "", "", "")).is_err());
    assert!(parse_kiss_arq_params(&arq_form("0", "", "", "")).is_err());
    assert!(parse_kiss_arq_params(&arq_form("", "x", "", "")).is_err());
    assert!(parse_kiss_arq_params(&arq_form("", "", "x", "")).is_err());
    assert!(parse_kiss_arq_params(&arq_form("", "", "", "x")).is_err());
    let f = load_kiss_arq_params(&p);
    assert_eq!((f.window.as_str(), f.paclen.as_str()), ("7", "128"));
}

#[test]
fn every_kind_of_port_is_read() {
    assert_eq!(
        read_kind(&KindForm::Telnet { host: s("h"), port: s("65536") }).unwrap_err(),
        "Telnet port must be a number 0-65535."
    );
    assert_eq!(
        read_kind(&KindForm::Ssh { host: s("h"), port: s(""), user: s("u") }).unwrap_err(),
        "SSH port must be a number 0-65535."
    );
    let agw = |port: &str, radio: &str, user: &str| KindForm::Agwpe {
        host: s("h"),
        port: s(port),
        radio_port: s(radio),
        my_call: s("N0CALL"),
        username: s(user),
        password: s(""),
    };
    assert_eq!(read_kind(&agw("x", "0", "")).unwrap_err(), "AGWPE TCP port must be a number 0-65535.");
    assert_eq!(read_kind(&agw("8000", "256", "")).unwrap_err(), "Radio port must be a number 0-255.");
    assert!(matches!(read_kind(&agw("8000", "1", "")), Ok(PortConfig::Agwpe { login: None, radio_port: 1, .. })));
    assert!(matches!(read_kind(&agw("8000", "1", "me")), Ok(PortConfig::Agwpe { login: Some(l), .. }) if l.username == "me"));
    let tcp = |port: &str| KindForm::KissTcp {
        host: s("h"),
        port: s(port),
        my_call: s("N0CALL"),
        kiss: kiss_form("", "", ""),
        arq: arq_form("", "", "", ""),
    };
    assert_eq!(read_kind(&tcp("x")).unwrap_err(), "KISS TCP port must be a number 0-65535.");
    assert!(matches!(read_kind(&tcp("8001")), Ok(PortConfig::KissTcp { port: 8001, .. })));
    let serial = KindForm::KissSerial {
        device: s("/dev/ttyUSB0"),
        baud: s("fast"),
        my_call: s("N0CALL"),
        kiss: kiss_form("", "", ""),
        arq: arq_form("", "", "", ""),
    };
    assert_eq!(read_kind(&serial).unwrap_err(), "Baud rate must be a number.");
    assert!(matches!(read_kind(&KindForm::Ax25RawSocket { device: s("ax0") }), Ok(PortConfig::Ax25RawSocket { .. })));
}

#[test]
fn ports_are_saved_moved_and_removed() {
    let form = |name: &str| PortForm {
        name: s(name),
        kind: KindForm::Telnet { host: s("h"), port: s("23") },
        autoconnect: true,
        favorite: true,
    };
    let mut ports = Vec::new();
    assert_eq!(save_port(&mut ports, None, &form("  ")).unwrap_err(), "Name is required.");
    save_port(&mut ports, None, &form("A")).unwrap();
    save_port(&mut ports, None, &form("B")).unwrap();
    assert_ne!(ports[0].id, ports[1].id);
    assert_eq!(autoconnect_ids(&ports), vec![ports[0].id.clone(), ports[1].id.clone()]);
    let b = ports[1].id.clone();
    save_port(&mut ports, Some(&b), &form("C")).unwrap();
    assert_eq!((ports[1].name.as_str(), ports[1].id == b), ("C", true));
    move_port(&mut ports, &b, true);
    assert_eq!(ports[0].id, b);
    move_port(&mut ports, &b, true);
    assert_eq!(ports[0].id, b);
    move_port(&mut ports, &b, false);
    assert_eq!(ports[1].id, b);
    assert_eq!(favorites(&ports).len(), 2);
    remove_port(&mut ports, &b);
    assert_eq!(ports.len(), 1);
    assert_eq!(port_label(&ports[0]), "A  \u{2014}  Telnet");
}

#[test]
fn listening_on_every_port_is_kept_as_none() {
    let ports = vec![agwpe("a"), telnet("t"), agwpe("b")];
    let v = port_listen_checklist(&ports, &vec![]);
    assert_eq!(v.len(), 2);
    assert!(v.iter().all(|c| c.active));
    assert!(collapse_listen_ports(&v).is_empty());
    let v = port_listen_checklist(&ports, &vec![s("b")]);
    assert_eq!(collapse_listen_ports(&v), vec!["b"]);
}

// Beacons

fn beacon(id: &str, enabled: bool, pinned: bool) -> Beacon {
    Beacon {
        id: s(id),
        port_id: s("a"),
        dest: s("BEACON"),
        via: s("wide1-1 wide2-1"),
        message: s("$$NODE at $$LOC"),
        interval_secs: 0,
        enabled,
        pinned,
    }
}

fn beacon_form(dest: &str, interval: &str, port: usize) -> BeaconForm {
    BeaconForm { dest: s(dest), path: s(" wide1-1 "), message: s("hi"), interval: s(interval), port, enabled: true }
}

#[test]
fn beacons_are_saved_and_switched() {
    let ports = vec![agwpe("a")];
    let mut v = Vec::new();
    assert_eq!(save_beacon(&mut v, &ports, None, &beacon_form(" ", "600", 0)).unwrap_err(), "Destination is required.");
    assert_eq!(
        save_beacon(&mut v, &ports, None, &beacon_form("cq", "0", 0)).unwrap_err(),
        "Interval must be a positive number of seconds."
    );
    assert_eq!(save_beacon(&mut v, &ports, None, &beacon_form("cq", "600", 1)).unwrap_err(), "Select a port.");
    save_beacon(&mut v, &ports, None, &beacon_form("cq", " 600 ", 0)).unwrap();
    assert_eq!((v[0].dest.as_str(), v[0].via.as_str(), v[0].interval_secs), ("CQ", "WIDE1-1", 600));
    assert_eq!(v[0].id, "beacon-0");
    save_beacon(&mut v, &ports, None, &beacon_form("id", "60", 0)).unwrap();
    assert_ne!(v[0].id, v[1].id);
    v[1].pinned = true;
    let id = v[1].id.clone();
    save_beacon(&mut v, &ports, Some(&id), &beacon_form("id2", "61", 0)).unwrap();
    assert!(v[1].pinned && v[1].dest == "ID2");
    switch_beacon(&mut v, &id, false);
    assert!(!v[1].enabled && v[0].enabled);
    assert_eq!(listed(&v)[0].id, id);
    assert_eq!(form_title(Some(&v[1])), "Edit ID2 Beacon");
    assert_eq!(form_title(Some(&v[0])), "Edit Beacon");
    assert_eq!(form_title(None), "Add Beacon");
    assert_eq!(beacon_label(&v[0], &ports), "Port a \u{2192} CQ every 600s");
    v[0].port_id = s("gone");
    assert_eq!(beacon_label(&v[0], &ports), "(unknown port) \u{2192} CQ every 600s");
    remove_beacon(&mut v, &id);
    assert_eq!(v.len(), 2);
    v[1].pinned = false;
    remove_beacon(&mut v, &id);
    assert_eq!(v.len(), 1);
    assert_ne!(v[0].id, id);
}

#[test]
fn enabled_beacons_are_scheduled() {
    let mut c = AppConfig::default();
    c.ui.default_call = Some(s("N0CALL-1"));
    c.ui.location = Some(s("FM19"));
    c.beacons = vec![beacon("x", false, false), beacon("y", true, false)];
    c.beacon_prefs.enabled = true;
    let v = schedule_beacons(&c);
    assert_eq!(v.len(), 1);
    assert_eq!((v[0].id.as_str(), v[0].interval_secs, v[0].message.as_str()), ("y", 1, "N0CALL-1 at FM19"));
    assert_eq!(v[0].path, vec!["WIDE1-1", "WIDE2-1"]);
    c.beacons[1].via = s(" wide1-1 wide2-1,,k1b");
    assert_eq!(schedule_beacons(&c)[0].path, vec!["WIDE1-1", "WIDE2-1", "K1B"]);
    c.beacon_prefs.enabled = false;
    assert!(schedule_beacons(&c).is_empty());
}

fn rule(id: &str, label: &str, pattern: &str, sender: &str, book: bool) -> BeaconMonitorRule {
    BeaconMonitorRule {
        id: s(id),
        label: s(label),
        pattern: s(pattern),
        sender: s(sender),
        enabled: true,
        from_address_book: book,
    }
}

#[test]
fn rules_are_saved_with_their_names() {
    let old = vec![rule("1", "book", "X", "", true), rule("2", "old", "Y", "", false)];
    let edited = vec![rule("1", "changed", "(", "", true), rule("3", "", "^CQ$", " K1 ", false), rule("4", "", "ID", "", false)];
    let r = save_rules(&old, &edited).unwrap();
    let labels: Vec<&str> = r.iter().map(|x| x.label.as_str()).collect();
    assert_eq!(labels, vec!["book", "K1\u{2192}^CQ$", "ID"]);
    let bad = vec![rule("5", "", "A", "", false), rule("6", "", "(", "", false), rule("7", "", "[", "", false)];
    assert_eq!(
        save_rules(&old, &bad).unwrap_err(),
        "Destination pattern \u{201c}(\u{201d} is not a valid regex."
    );
    assert!(merge_rules(&old, &bad, &vec![true, true, true]).is_ok());
    assert!(merge_rules(&old, &bad, &vec![true, true, false]).unwrap_err().contains("\u{201c}[\u{201d}"));
}

#[test]
fn rules_apply_to_destination_and_sender() {
    let rules = vec![rule("1", "bad", "(", "", false), rule("2", "mine", "^be", "K1ABC", false), rule("3", "any", "ID", "", false)];
    assert_eq!(detect_beacon(&rules, "k1abc", "BEACON").as_deref(), Some("mine"));
    assert_eq!(detect_beacon(&rules, "W1AW", "BEACON"), None);
    assert_eq!(detect_beacon(&rules, "W1AW", "id").as_deref(), Some("any"));
    assert_eq!(first_applying(&rules, &vec![None, Some(false), Some(true)], "X").as_deref(), Some("any"));
    let mut off = rules;
    off[2].enabled = false;
    assert_eq!(detect_beacon(&off, "W1AW", "ID"), None);
}

#[test]
fn rules_are_listed_by_name() {
    let mut v = vec![rule("1", "b", "", "", false), rule("2", "a", "", "", false), rule("3", "z", "", "", true)];
    let ids: Vec<String> = listed_rules(&v).iter().map(|r| r.id.clone()).collect();
    assert_eq!(ids, vec!["3", "2", "1"]);
    add_rule(&mut v);
    assert_eq!((v[3].id.as_str(), v[3].enabled, v[3].pattern.as_str()), ("beacon-rule-3", true, ""));
    add_rule(&mut v);
    assert_eq!(v[4].id, "beacon-rule-4");
    v.remove(0);
    add_rule(&mut v);
    assert_eq!(v[4].id, "beacon-rule-5");
}

#[test]
fn lists_show_the_newest_first() {
    let n = |id: u64, t: &str| NotifiedPacket { id, port_id: s("a"), line: s("x"), timestamp: s(t) };
    assert_eq!(notified_order(&vec![n(1, "2024-01-01"), n(2, "2024-03-01"), n(3, "2024-02-01")]), vec![1, 2, 0]);
    let b = |t: &str| IncomingBeacon { id: 1, port_id: s("a"), from: s("K1"), to: s("ID"), message: s("m"), timestamp: s(t) };
    assert_eq!(incoming_order(&vec![b("1"), b("1"), b("2")]), vec![2, 0, 1]);
    assert_eq!(incoming_label(&b("1")), "K1 \u{2192} ID: m");
    assert_eq!(caption("12:00", &vec![agwpe("a")], "a"), "12:00 \u{b7} Port a");
    assert_eq!(caption("12:00", &vec![], "zz"), "12:00 \u{b7} zz");
}

// Settings

#[test]
fn the_mailbox_needs_a_callsign() {
    let mut m = MailboxPrefs::default();
    assert_eq!(click_mailbox(&m), SwitchClick::OpenSettings);
    m.respond_call = s("N0CALL-2");
    assert_eq!(click_mailbox(&m), SwitchClick::Turn(true));
    m.enabled = true;
    assert_eq!(click_mailbox(&m), SwitchClick::Turn(false));
    let form = |call: &str, secs: &str| MailboxForm {
        respond_call: s(call),
        intro_message: s("hi"),
        beacon_text: s("mail here"),
        beacon_interval: s(secs),
        listen: vec![ListenChoice { id: s("a"), active: true }, ListenChoice { id: s("b"), active: false }],
    };
    assert_eq!(
        save_mailbox(&mut m, &form(" ", "60")).unwrap_err(),
        "A Mailbox Callsign is required while the mailbox is enabled."
    );
    assert_eq!(save_mailbox(&mut m, &form("x", "0")).unwrap_err(), "Beacon Interval must be a positive number.");
    save_mailbox(&mut m, &form(" n0call-3 ", "60")).unwrap();
    assert_eq!((m.respond_call.as_str(), m.beacon_interval_secs, m.enabled), ("N0CALL-3", 60, true));
    assert_eq!(m.listen_ports, vec!["a"]);
    assert!(mailbox_tooltip(true).starts_with("Mailbox: on"));
    assert!(mailbox_tooltip(false).starts_with("Mailbox: off"));
}

#[test]
fn messages_are_listed_and_removed() {
    let m = |id: u64, t: &str, read: bool| MailboxMessage {
        id,
        to: s("A"),
        from: s("B"),
        subject: s("S"),
        body: s("first\nsecond"),
        timestamp: s(t),
        read,
    };
    let mut v = vec![m(1, "1", true), m(2, "2", false)];
    assert!(has_unread(&v));
    assert_eq!(message_order(&v), vec![1, 0]);
    assert_eq!(message_row(&v[1]), (s("To A  from B  \u{2014}  S (unread)"), s("2  \u{b7}  first")));
    assert_eq!(message_row(&v[0]).0, "To A  from B  \u{2014}  S");
    remove_message(&mut v, 2);
    assert_eq!(v.len(), 1);
    assert!(!has_unread(&v));
    assert_eq!(greeting_hint(" \n"), "Using the default greeting");
    assert_eq!(greeting_hint("one\ntwo"), "one");
}

#[test]
fn keyboard_mode_takes_the_profile_call() {
    let mut k = KeyboardModePrefs::default();
    let form = |secs: &str| KeyboardForm {
        ssid: 5,
        welcome_message: s("w"),
        beacon_text: s("b"),
        beacon_interval: s(secs),
        listen: vec![],
    };
    assert_eq!(save_keyboard_mode(&mut k, &None, &form("x")).unwrap_err(), "Beacon Interval must be a positive number.");
    save_keyboard_mode(&mut k, &Some(s("N0CALL-1")), &form("30")).unwrap();
    assert_eq!((k.node_call.as_str(), k.beacon_interval_secs), ("N0CALL-5", 30));
    save_keyboard_mode(&mut k, &None, &form("30")).unwrap();
    assert_eq!(k.node_call, "");
}

#[test]
fn features_announce_themselves() {
    let mut c = AppConfig::default();
    c.ports = vec![agwpe("a"), telnet("t"), kiss("k")];
    c.ports.push(port("raw", PortConfig::Ax25RawSocket { device: s("ax0") }));
    assert!(mailbox_beacon(&c).is_none());
    c.mailbox.enabled = true;
    c.mailbox.respond_call = s("n0call-2");
    assert!(mailbox_beacon(&c).is_none());
    c.mailbox.beacon_text = s("$$NODE mail");
    let a = mailbox_beacon(&c).unwrap();
    assert_eq!((a.text.as_str(), a.ports), ("N0CALL-2 mail", vec![s("a"), s("k")]));
    c.keyboard_mode.enabled = true;
    c.keyboard_mode.beacon_text = s("chat $$NODE");
    c.keyboard_mode.listen_ports = vec![s("k"), s("t")];
    c.ui.default_call = Some(s("N0CALL-9"));
    let a = keyboard_mode_beacon(&c).unwrap();
    assert_eq!((a.text.as_str(), a.ports, a.interval_secs), ("chat N0CALL-9", vec![s("k")], 600));
}

fn preferences(lines: &str) -> PreferencesForm {
    PreferencesForm {
        name: s("Pat"),
        call_base: s(" n0call "),
        call_ssid: 7,
        location: s("  "),
        home_bbs: s("n0bbs"),
        font: s("Mono 12"),
        show_timestamps: true,
        history_lines: s(lines),
        qrz_username: s(" "),
        qrz_password: s("pw"),
        directed_enabled: true,
        highlight: false,
        callsign_color: s("#1"),
        known_callsign_color: s("#2"),
        my_call_color: s("#3"),
        ax25_command_color: s("#4"),
        rules: vec![new_highlight_rule()],
    }
}

#[test]
fn preferences_are_saved() {
    let mut st = AppState::new(AppConfig::default());
    st.qrz_session = Some(s("key"));
    assert_eq!(st.save_preferences(&preferences("0")).unwrap_err(), "History Lines must be a positive number.");
    assert!(st.qrz_session.is_some());
    st.save_preferences(&preferences("50")).unwrap();
    let u = &st.config.ui;
    assert_eq!(u.default_call.as_deref(), Some("N0CALL-7"));
    assert_eq!(u.home_bbs.as_deref(), Some("N0BBS"));
    assert_eq!((u.location.clone(), u.qrz_username.clone(), u.history_lines), (None, None, 50));
    assert_eq!(u.qrz_password.as_deref(), Some("pw"));
    assert!(st.qrz_session.is_none() && st.config.notify.directed_enabled);
    assert_eq!(st.config.highlighting.rules[0].label, "New Rule");
    let mut f = preferences("50");
    f.call_base = s(" ");
    st.save_preferences(&f).unwrap();
    assert_eq!(st.config.ui.default_call, None);
}

#[test]
fn small_settings_are_kept() {
    let mut n = NotifyPrefs::default();
    set_notification_sound(&mut n, "/a.wav");
    assert_eq!(n.notification_sound.as_deref(), Some("/a.wav"));
    set_notification_sound(&mut n, " ");
    assert_eq!(n.notification_sound, None);
    assert!(directed_tooltip(true).contains("on") && directed_tooltip(false).contains("off"));
    let mut c = AppConfig::default();
    save_direwolf(&mut c.direwolf, true, s("ADEVICE x"));
    assert!(c.direwolf.auto_start && c.direwolf.config_text == "ADEVICE x");
}

// The address book

fn entry(call: &str, alias: Option<&str>, heard: Option<&str>) -> AddressBookEntry {
    AddressBookEntry {
        callsign: s(call),
        name: Some(s("Op")),
        alias: alias.map(str::to_string),
        location: None,
        notes: None,
        last_heard: heard.map(str::to_string),
        heard_count: 3,
        via: s(""),
        home_bbs: s(""),
        heard_direct: true,
        recent_beacons: vec![BeaconPacketLogEntry { text: s("t"), when: s("w") }],
    }
}

fn calls(v: &[AddressBookEntry]) -> Vec<String> {
    v.iter().map(|e| e.callsign.clone()).collect()
}

#[test]
fn the_book_is_searched_and_sorted() {
    let book = vec![entry("K1B", Some("NODE"), None), entry("K1A", None, Some("2024-02")), entry("W1C", None, Some("2024-03"))];
    assert_eq!(calls(&filtered_sorted_entries(&book, "", SortMode::Callsign)), vec!["K1A", "K1B", "W1C"]);
    assert_eq!(calls(&filtered_sorted_entries(&book, "", SortMode::LastHeard)), vec!["W1C", "K1A", "K1B"]);
    assert_eq!(calls(&filtered_sorted_entries(&book, " node ", SortMode::Callsign)), vec!["K1B"]);
    assert_eq!(calls(&filtered_sorted_entries(&book, "k1", SortMode::Callsign)), vec!["K1A", "K1B"]);
    assert_eq!(filtered_sorted_entries(&book, "OP", SortMode::Callsign).len(), 3);
    assert!(filtered_sorted_entries(&book, "zzz", SortMode::Callsign).is_empty());
    assert_eq!(SortMode::Callsign.toggled(), SortMode::LastHeard);
    assert_eq!(SortMode::LastHeard.toggled().label(), "Sort: Callsign (click for Last Heard)");
    assert_eq!(empty_list_text(false, true), "No entries match the filter.");
    assert_eq!(empty_list_text(true, true), "No known stations yet.");
    assert!(empty_list_text(true, false).ends_with("add one manually."));
}

#[test]
fn entries_are_described() {
    let e = entry("K1B", Some("NODE"), Some("noon"));
    assert_eq!(entry_summary(&e), "K1B  \u{2014}  NODE");
    assert_eq!(entry_detail(&e), "Last heard noon");
    assert_eq!(heard_text(&e), "Heard 3 time(s) \u{2014} last: noon");
    assert_eq!(form_heard_text(&e), "Heard 3 time(s), last: noon");
    assert_eq!(status_text(&e), "Heard directly");
    assert_eq!(beacon_line(&e.recent_beacons[0]), "w  \u{2014}  t");
    let mut e = entry("K1B", Some(""), None);
    e.heard_direct = false;
    assert_eq!(entry_summary(&e), "K1B");
    assert_eq!(entry_detail(&e), "Manual entry");
    assert_eq!(heard_text(&e), "Never heard");
    assert_eq!(form_heard_text(&e), "Never heard \u{2014} manual entry");
    assert!(status_text(&e).starts_with("Known only via"));
}

fn entry_form(call: &str) -> EntryForm {
    EntryForm {
        callsign: s(call),
        name: s("New"),
        path: s(" wide1-1 "),
        home_bbs: s("n0bbs"),
        alias: s(""),
        location: s("FM19"),
        notes: s(""),
    }
}

#[test]
fn entries_are_saved_and_removed() {
    let mut book = vec![entry("K1B", Some("NODE"), Some("noon"))];
    assert_eq!(save_entry(&mut book, None, &entry_form("  ")).unwrap_err(), "Callsign is required.");
    save_entry(&mut book, Some("K1B"), &entry_form("k1c")).unwrap();
    assert_eq!(book.len(), 1);
    assert_eq!((book[0].callsign.as_str(), book[0].via.as_str(), book[0].home_bbs.as_str()), ("K1C", "WIDE1-1", "N0BBS"));
    assert_eq!((book[0].alias.clone(), book[0].heard_count), (None, 3));
    assert_eq!(book[0].last_heard.as_deref(), Some("noon"));
    save_entry(&mut book, None, &entry_form("w1aw")).unwrap();
    assert_eq!((book[1].callsign.as_str(), book[1].heard_count, book[1].heard_direct), ("W1AW", 0, true));
    save_alias(&mut book, "W1AW", " HQ ");
    assert_eq!(book[1].alias.as_deref(), Some("HQ"));
    save_alias(&mut book, "W1AW", " ");
    assert_eq!(book[1].alias, None);
    remove_entry(&mut book, "K1C");
    assert_eq!(calls(&book), vec!["W1AW"]);
}

#[test]
fn a_lookup_needs_a_callsign_and_credentials() {
    let mut c = AppConfig::default();
    assert_eq!(lookup_request(&c, " ").unwrap_err(), "Enter a callsign first.");
    assert_eq!(lookup_request(&c, "k1b").unwrap_err(), "Configure QRZ credentials in Preferences first.");
    c.ui.qrz_username = Some(s("u"));
    assert!(lookup_request(&c, "k1b").is_err());
    c.ui.qrz_password = Some(s("p"));
    let r = lookup_request(&c, "k1b").unwrap();
    assert_eq!((r.callsign.as_str(), r.username.as_str(), r.password.as_str()), ("K1B", "u", "p"));
    let info = |l: Option<&str>, g: Option<&str>| QrzInfo { name: None, location: l.map(str::to_string), grid: g.map(str::to_string) };
    assert_eq!(place_text(&info(Some("Town"), Some("FM19"))).as_deref(), Some("Town (FM19)"));
    assert_eq!(place_text(&info(Some("Town"), None)).as_deref(), Some("Town"));
    assert_eq!(place_text(&info(None, Some("FM19"))).as_deref(), Some("FM19"));
    assert_eq!(place_text(&info(None, None)), None);
}

// Dialing

#[test]
fn dialing_checks_the_form() {
    let ports = vec![kiss("k"), agwpe("a"), telnet("t")];
    let ports = ports_to_dial(&ports);
    assert_eq!(ports.len(), 2);
    let up = vec![s("a"), s("t")];
    assert_eq!(resolve(&ports, 9, &up, "x", "", false).unwrap_err(), "Select a port.");
    assert_eq!(resolve(&ports, 0, &vec![], "x", "", true).unwrap_err(), "Port not connected \u{2014} start the port first.");
    assert_eq!(resolve(&ports, 0, &up, " ", "", true).unwrap_err(), "Enter a node/call sign.");
    let p = resolve(&ports, 0, &vec![], " k1b ", "wide1-1", false).unwrap();
    assert_eq!((p.port_id.as_str(), p.remote.as_str(), p.path.as_str(), p.unproto), ("a", "K1B", "WIDE1-1", false));
    assert_eq!(resolve(&ports, 1, &up, "", " hello You ", true).unwrap().path, " hello You ");
    assert_eq!(path_label(&ports[0].config), "Via");
    assert_eq!(path_label(&ports[1].config), "Address");
    let mut e = entry("K1B", None, None);
    assert_eq!(fill_from(&e, "typed"), (s("K1B"), s("typed")));
    e.via = s("WIDE2-2");
    assert_eq!(fill_from(&e, "typed"), (s("K1B"), s("WIDE2-2")));
}

// Starting up

#[test]
fn fonts_are_read() {
    assert_eq!(parse_font_desc("Monospace 11"), (s("Monospace"), 11));
    assert_eq!(parse_font_desc("  DejaVu Sans Mono 9 "), (s("DejaVu Sans Mono"), 9));
    assert_eq!(parse_font_desc("Courier"), (s("Courier"), 11));
    assert_eq!(parse_font_desc("Fira Code"), (s("Fira Code"), 11));
    assert_eq!(parse_font_desc(" "), (s("Monospace"), 11));
    assert_eq!(parse_font_desc("M \t9"), (s("M"), 9));
    assert_eq!(parse_font_desc("M\t9"), (s("M\t9"), 11));
    assert_eq!(parse_font_desc("M  9"), (s("M "), 9));
    assert_eq!(style_family("a\"b"), "ab");
}

#[test]
fn direwolf_is_followed() {
    let mut d = DirewolfProcess::new();
    assert!(!d.is_running());
    d.take(&DirewolfEvent::Failed { message: s("Failed to start direwolf: no") });
    assert_eq!(d.state, DirewolfState::FailedToStart);
    d.take(&DirewolfEvent::Started { pid: 42 });
    assert!(d.is_running());
    d.take(&DirewolfEvent::Output { line: s("a\0b") });
    d.take(&DirewolfEvent::Exited { description: s("exit status: 0") });
    assert_eq!((d.is_running(), d.state), (false, DirewolfState::Stopped));
    assert_eq!(
        d.full_log_text(),
        "Failed to start direwolf: no\n--- direwolf started (pid 42) ---\nab\n--- direwolf exited: exit status: 0 ---\n"
    );
    assert!(direwolf_tooltip(DirewolfState::Running).contains("running"));
    assert!(direwolf_tooltip(DirewolfState::Stopped).contains("stopped"));
    assert!(direwolf_tooltip(DirewolfState::FailedToStart).contains("failed"));
}
