use packet_radio::address_book::{filtered_sorted_entries, SortMode};
use packet_radio::app_state::{has_count_left, AppState};
use packet_radio::config::{AppConfig, KissArqParams, KissParams, PortConfig, PortEntry};
use packet_radio::kiss::{encode_data_frame, KissDecoder};
use packet_radio::actions::TabPrefill;
use packet_radio::port::{PortCommand, PortEvent};
use packet_radio::ports::{
    collapse_listen_ports, load_kiss_arq_params, load_kiss_params, parse_kiss_arq_params,
    parse_kiss_params, port_listen_checklist,
};
use packet_radio::runner::{RawPort, RawStep};
use packet_radio::settings::split_call_ssid;
use packet_radio::telnet::TelnetFilter;
use packet_radio::window::{Effect, Ui};

#[test]
fn negotiation_may_be_cut_anywhere() {
    let stream: Vec<u8> = vec![104, 255, 253, 24, 105, 255, 251, 1, 255, 250, 24, 1, 255, 240, 33, 255, 255];
    let mut whole = (Vec::new(), Vec::new());
    TelnetFilter::new().process(&stream, &mut whole.0, &mut whole.1);
    assert_eq!(whole.0, vec![104, 105, 33, 255]);
    assert_eq!(whole.1, vec![255, 252, 24, 255, 254, 1]);
    for cut in 0..=stream.len() {
        let mut filter = TelnetFilter::new();
        let mut pieces = (Vec::new(), Vec::new());
        filter.process(&stream[..cut], &mut pieces.0, &mut pieces.1);
        filter.process(&stream[cut..], &mut pieces.0, &mut pieces.1);
        assert_eq!(pieces, whole);
    }
}

#[test]
fn plain_text_passes_the_filter() {
    let (mut data, mut replies) = (Vec::new(), Vec::new());
    TelnetFilter::new().process(b"hello\r\n", &mut data, &mut replies);
    assert_eq!(data, b"hello\r\n");
    assert!(replies.is_empty());
}

#[test]
fn kiss_frames_may_be_cut_anywhere() {
    let mut stream = encode_data_frame(0, &[0xC0, 1, 0xDB]);
    stream.extend(encode_data_frame(3, b"second"));
    let whole = vec![(0x00, vec![0xC0, 1, 0xDB]), (0x30, b"second".to_vec())];
    for cut in 0..=stream.len() {
        let mut decoder = KissDecoder::new();
        let mut frames = decoder.feed(&stream[..cut]);
        frames.extend(decoder.feed(&stream[cut..]));
        assert_eq!(frames, whole);
    }
}

#[test]
fn letters_of_every_script_change_case() {
    let mut state = AppState::new(AppConfig::default());
    assert!(state.record_heard(" \u{fc}1\u{df} ", "t"));
    assert_eq!(state.config.address_book[0].callsign, "\u{dc}1SS");
    let found = filtered_sorted_entries(&state.config.address_book, "\u{dc}1", SortMode::Callsign);
    assert_eq!(found.len(), 1);
}

#[test]
fn an_ssid_is_split_off() {
    assert_eq!(split_call_ssid("N0CALL-12"), ("N0CALL".to_string(), 12));
    assert_eq!(split_call_ssid("N0CALL"), ("N0CALL".to_string(), 0));
    assert_eq!(split_call_ssid("N0CALL-99"), ("N0CALL".to_string(), 0));
    assert_eq!(split_call_ssid("N0-CALL"), ("N0-CALL".to_string(), 0));
}

#[test]
fn counters_tell_when_they_are_used_up() {
    let mut state = AppState::new(AppConfig::default());
    state.record_heard("K1ABC", "t");
    assert!(has_count_left(&state.config.address_book, "k1abc"));
    state.config.address_book[0].heard_count = u32::MAX;
    assert!(!has_count_left(&state.config.address_book, " k1abc"));
    assert!(has_count_left(&state.config.address_book, "K1XYZ"));
}

#[test]
fn the_window_tells_when_its_numbers_are_used_up() {
    let mut ui = Ui::new(AppConfig::default());
    let monitor = PortEvent::Monitor { line: String::new(), from: None, to: None, message: None };
    let opened = PortEvent::ConnectionOpened { id: 1, label: "K1ABC".to_string(), to: None };
    assert!(ui.has_room(&monitor) && ui.has_room(&opened));
    ui.next_tab_id = u64::MAX;
    assert!(ui.has_room(&monitor) && !ui.has_room(&opened));
    ui.state.record_notified_packet("p", "line", "t");
    ui.state.config.notified_packets[0].id = u64::MAX;
    assert!(!ui.has_room(&monitor));
    assert!(ui.has_room(&PortEvent::PortConnected));
}

#[test]
fn bytes_that_are_no_text_are_replaced() {
    let mut config = AppConfig::default();
    config.ports.push(PortEntry {
        id: "t".to_string(),
        name: "T".to_string(),
        config: PortConfig::Telnet { host: "h".to_string(), port: 23 },
        autoconnect: false,
        favorite: false,
    });
    let mut ui = Ui::new(config);
    ui.connect_port("t");
    ui.handle_event("t", PortEvent::PortConnected, "now", 0);
    ui.handle_event("t", PortEvent::ConnectionOpened { id: 0, label: "h:23".to_string(), to: None }, "now", 0);
    let data = PortEvent::Data { id: 0, bytes: vec![b'a', 0xFF, 0, b'b'] };
    let effects = ui.handle_event("t", data, "now", 0);
    let shown: Vec<&str> = effects
        .iter()
        .filter_map(|e| match e {
            Effect::Show { text, .. } => Some(text.as_str()),
            _ => None,
        })
        .collect();
    assert_eq!(shown, vec!["a\u{fffd}b"]);
}

#[test]
fn a_form_that_is_not_changed_keeps_its_values() {
    let params = KissParams { tx_delay: Some(30), persistence: None, slot_time: Some(0), full_duplex: Some(true) };
    assert_eq!(parse_kiss_params(&load_kiss_params(&params)), Ok(params));
    let arq = KissArqParams { window: Some(7), t1_ms: Some(4000), n2: None, n1_bytes: Some(256) };
    assert_eq!(parse_kiss_arq_params(&load_kiss_arq_params(&arq)), Ok(arq));
    let half = KissParams { tx_delay: None, persistence: None, slot_time: None, full_duplex: Some(false) };
    assert_eq!(parse_kiss_params(&load_kiss_params(&half)).unwrap().full_duplex, None);
}

fn serial(id: &str) -> PortEntry {
    PortEntry {
        id: id.to_string(),
        name: id.to_string(),
        config: PortConfig::Ax25RawSocket { device: id.to_string() },
        autoconnect: false,
        favorite: false,
    }
}

#[test]
fn a_choice_that_is_not_changed_is_kept() {
    let ports = vec![serial("a"), serial("b")];
    let chosen = vec!["b".to_string()];
    assert_eq!(collapse_listen_ports(&port_listen_checklist(&ports, &chosen)), chosen);
    assert!(collapse_listen_ports(&port_listen_checklist(&ports, &Vec::new())).is_empty());
    let gone = vec!["c".to_string()];
    assert!(collapse_listen_ports(&port_listen_checklist(&ports, &gone)).is_empty());
}

#[test]
fn identifiers_are_not_given_out_twice() {
    let mut port = RawPort::new();
    let open = |port: &mut RawPort| match port
        .handle_command(PortCommand::OpenConnection { remote: "K1ABC".to_string(), via: Vec::new() })
    {
        RawStep::Open { id, .. } => id,
        _ => panic!("a connection is opened"),
    };
    let first = open(&mut port);
    port.opened(first);
    port.ended(first);
    assert!(port.live.is_empty());
    let second = open(&mut port);
    assert_ne!(first, second);
    let (third, _) = port.accepted("K1XYZ".to_string(), "N0CALL".to_string());
    assert_ne!(second, third);
    assert_eq!(port.live, vec![third]);
}

#[test]
fn connections_lead_to_open_tabs() {
    let mut config = AppConfig::default();
    config.ports.push(serial("a"));
    let mut ui = Ui::new(config);
    let prefill =
        TabPrefill { port_id: "a".to_string(), remote: "K1ABC".to_string(), path: String::new(), unproto: false };
    let (first, _) = ui.add_tab(&prefill);
    let (second, _) = ui.add_tab(&prefill);
    let (first, second) = (first.unwrap(), second.unwrap());
    assert_ne!(first, second);
    ui.connect_tab(first);
    assert_eq!(ui.pending[0].tab, first);
    ui.close_tab(first);
    assert!(ui.pending.is_empty());
    ui.connect_tab(second);
    let opened = PortEvent::ConnectionOpened { id: 7, label: "K1ABC".to_string(), to: None };
    ui.handle_event("a", opened, "now", 0);
    assert_eq!((ui.bound[0].conn, ui.bound[0].tab), (7, second));
    ui.close_tab(second);
    assert!(ui.bound.is_empty() && ui.tabs.is_empty());
}
