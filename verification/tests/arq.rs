use ax25::frame::{
    Address, Ax25Frame, CommandResponse, Disconnect, DisconnectedMode, FrameContent, Information,
    ProtocolIdentifier, ReceiveNotReady, ReceiveReady, Reject, SetAsynchronousBalancedMode,
    UnnumberedAcknowledge,
};
use packet_radio::arq::{Action, ArqConfig, ArqSession};
use packet_radio::port::ConnState;

fn addr(s: &str) -> Address {
    s.parse().unwrap()
}

fn session() -> ArqSession {
    ArqSession::new(addr("N0CALL-1"), addr("KD3BFP-9"), vec![], ArqConfig { window: 4, t1_ms: 1000, n2: 3, n1_bytes: 4 })
}

fn transmitted_i_frames(actions: &[Action]) -> Vec<&Information> {
    actions
        .iter()
        .filter_map(|a| match a {
            Action::Transmit(f) => match &f.content {
                FrameContent::Information(i) => Some(i),
                _ => None,
            },
            _ => None,
        })
        .collect()
}

fn contains_transmit(actions: &[Action], matches: impl Fn(&FrameContent) -> bool) -> bool {
    actions.iter().any(|a| matches!(a, Action::Transmit(f) if matches(&f.content)))
}

fn state_changes(actions: &[Action]) -> Vec<ConnState> {
    actions.iter().filter_map(|a| if let Action::StateChanged(s) = a { Some(*s) } else { None }).collect()
}

fn ua_frame(poll: bool) -> Ax25Frame {
    Ax25Frame {
        source: addr("KD3BFP-9"),
        destination: addr("N0CALL-1"),
        route: vec![],
        command_or_response: Some(CommandResponse::Response),
        content: FrameContent::UnnumberedAcknowledge(UnnumberedAcknowledge { final_bit: poll }),
    }
}

fn rr_frame(nr: u8, poll: bool) -> Ax25Frame {
    Ax25Frame {
        source: addr("KD3BFP-9"),
        destination: addr("N0CALL-1"),
        route: vec![],
        command_or_response: Some(CommandResponse::Response),
        content: FrameContent::ReceiveReady(ReceiveReady { receive_sequence: nr, poll_or_final: poll }),
    }
}

#[test]
fn open_sends_sabm_and_arms_t1() {
    let mut s = session();
    let now: u64 = 0;
    let actions = s.open(now);
    assert!(contains_transmit(&actions, |c| matches!(c, FrameContent::SetAsynchronousBalancedMode(_))));
    assert_eq!(state_changes(&actions), vec![ConnState::Connecting]);
    assert_eq!(s.state(), ConnState::Connecting);
    // Idle before T1 -- no retransmit yet.
    assert!(s.tick(now).is_empty());
}

#[test]
fn successful_outgoing_handshake() {
    let mut s = session();
    let now: u64 = 0;
    s.open(now);
    let actions = s.on_frame(&ua_frame(true), now);
    assert_eq!(state_changes(&actions), vec![ConnState::Connected]);
    assert_eq!(s.state(), ConnState::Connected);
}

#[test]
fn connect_timeout_gives_up_after_exactly_n2_retries() {
    let mut s = session();
    let mut now: u64 = 0;
    s.open(now);
    let mut sabm_retransmits = 0;
    let mut gave_up = false;
    for _ in 0..10 {
        now += 1001;
        let actions = s.tick(now);
        if contains_transmit(&actions, |c| matches!(c, FrameContent::SetAsynchronousBalancedMode(_))) {
            sabm_retransmits += 1;
        }
        if state_changes(&actions).contains(&ConnState::Disconnected) {
            gave_up = true;
            break;
        }
    }
    assert!(gave_up);
    assert_eq!(sabm_retransmits, 3); // n2 == 3 for the test session
    assert_eq!(s.state(), ConnState::Disconnected);
}

#[test]
fn incoming_connect_skips_connecting_state() {
    let mut s = session();
    let now: u64 = 0;
    let actions = s.accept_incoming(true, now);
    assert!(contains_transmit(&actions, |c| matches!(c, FrameContent::UnnumberedAcknowledge(_))));
    assert_eq!(state_changes(&actions), vec![ConnState::Connected]);
    assert_eq!(s.state(), ConnState::Connected);
}

#[test]
fn data_transfer_within_window() {
    let mut s = session();
    let now: u64 = 0;
    s.open(now);
    s.on_frame(&ua_frame(false), now);
    let actions = s.send(b"hi".to_vec(), now);
    let frames = transmitted_i_frames(&actions);
    assert_eq!(frames.len(), 1);
    assert_eq!(frames[0].send_sequence, 0);
    assert_eq!(frames[0].info, b"hi");
}

#[test]
fn window_full_backpressure_then_drains_on_ack() {
    let mut s = session();
    let now: u64 = 0;
    s.open(now);
    s.on_frame(&ua_frame(false), now);
    // window == 4; send 6 single-byte chunks (n1_bytes=4, so each byte
    // is its own fragment only if we send them separately -- send one
    // big buffer that fragments into more pieces than the window.
    let actions = s.send(vec![0u8; 6 * 4], now); // 6 chunks of 4 bytes each
    let frames = transmitted_i_frames(&actions);
    assert_eq!(frames.len(), 4); // only window's worth went out
    assert_eq!(s.outstanding.len(), 4);
    assert_eq!(s.backlog.len(), 2);

    // Ack the first two -- window opens by two, backlog drains by two.
    let actions = s.on_frame(&rr_frame(2, false), now);
    let frames = transmitted_i_frames(&actions);
    assert_eq!(frames.len(), 2);
    assert_eq!(frames[0].send_sequence, 4);
    assert_eq!(frames[1].send_sequence, 5);
    assert!(s.backlog.is_empty());
}

#[test]
fn mismatched_sequence_number_gets_rejected_not_delivered() {
    let mut s = session();
    let now: u64 = 0;
    s.accept_incoming(false, now);
    let bad = Ax25Frame {
        source: addr("KD3BFP-9"),
        destination: addr("N0CALL-1"),
        route: vec![],
        command_or_response: Some(CommandResponse::Command),
        content: FrameContent::Information(Information { pid: ProtocolIdentifier::None, info: b"x".to_vec(), receive_sequence: 0, send_sequence: 5, poll: false }),
    };
    let actions = s.on_frame(&bad, now);
    assert!(!actions.iter().any(|a| matches!(a, Action::Data(_))));
    assert!(contains_transmit(&actions, |c| matches!(c, FrameContent::Reject(_))));
}

#[test]
fn reject_from_peer_retransmits_from_its_n_r() {
    let mut s = session();
    let now: u64 = 0;
    s.open(now);
    s.on_frame(&ua_frame(false), now);
    s.send(vec![1, 2, 3, 4, 5, 6, 7, 8], now); // 2 I-frames, seq 0 and 1
    let rej = Ax25Frame {
        source: addr("KD3BFP-9"),
        destination: addr("N0CALL-1"),
        route: vec![],
        command_or_response: Some(CommandResponse::Response),
        content: FrameContent::Reject(Reject { receive_sequence: 0, poll_or_final: false }),
    };
    let actions = s.on_frame(&rej, now);
    let frames = transmitted_i_frames(&actions);
    assert_eq!(frames.len(), 2);
    assert_eq!(frames[0].send_sequence, 0);
    assert_eq!(frames[1].send_sequence, 1);
}

#[test]
fn t1_retransmit_then_eventually_acked() {
    let mut s = session();
    let mut now: u64 = 0;
    s.open(now);
    s.on_frame(&ua_frame(false), now);
    s.send(b"hi".to_vec(), now);
    now += 1001;
    let actions = s.tick(now);
    let frames = transmitted_i_frames(&actions);
    assert_eq!(frames.len(), 1); // retransmitted the one outstanding frame

    let actions = s.on_frame(&rr_frame(1, false), now);
    assert!(transmitted_i_frames(&actions).is_empty());
    assert!(s.outstanding.is_empty());
    // T1 disarmed -- no further retransmit even well past the old deadline.
    now += 5000;
    assert!(s.tick(now).is_empty());
}

#[test]
fn peer_disc_gets_ua_and_closes() {
    let mut s = session();
    let now: u64 = 0;
    s.accept_incoming(false, now);
    let disc = Ax25Frame {
        source: addr("KD3BFP-9"),
        destination: addr("N0CALL-1"),
        route: vec![],
        command_or_response: Some(CommandResponse::Command),
        content: FrameContent::Disconnect(Disconnect { poll: true }),
    };
    let actions = s.on_frame(&disc, now);
    assert!(contains_transmit(&actions, |c| matches!(c, FrameContent::UnnumberedAcknowledge(_))));
    assert_eq!(state_changes(&actions), vec![ConnState::Disconnected]);
    assert!(actions.iter().any(|a| matches!(a, Action::Closed)));
}

#[test]
fn local_close_success() {
    let mut s = session();
    let now: u64 = 0;
    s.accept_incoming(false, now);
    let actions = s.close(now);
    assert!(contains_transmit(&actions, |c| matches!(c, FrameContent::Disconnect(_))));
    assert_eq!(state_changes(&actions), vec![ConnState::Disconnecting]);

    let actions = s.on_frame(&ua_frame(false), now);
    assert_eq!(state_changes(&actions), vec![ConnState::Disconnected]);
    assert!(actions.iter().any(|a| matches!(a, Action::Closed)));
}

#[test]
fn local_close_with_no_reply_gives_up_after_n2() {
    let mut s = session();
    let mut now: u64 = 0;
    s.accept_incoming(false, now);
    s.close(now);
    let mut gave_up = false;
    for _ in 0..10 {
        now += 1001;
        let actions = s.tick(now);
        if state_changes(&actions).contains(&ConnState::Disconnected) {
            gave_up = true;
            break;
        }
    }
    assert!(gave_up);
    assert_eq!(s.state(), ConnState::Disconnected);
}

#[test]
fn peer_sabm_while_connected_resets_link_without_closing_tab() {
    let mut s = session();
    let now: u64 = 0;
    s.accept_incoming(false, now);
    s.send(b"hi".to_vec(), now);
    assert!(!s.outstanding.is_empty());

    let sabm = Ax25Frame {
        source: addr("KD3BFP-9"),
        destination: addr("N0CALL-1"),
        route: vec![],
        command_or_response: Some(CommandResponse::Command),
        content: FrameContent::SetAsynchronousBalancedMode(SetAsynchronousBalancedMode { poll: true }),
    };
    let actions = s.on_frame(&sabm, now);
    assert!(contains_transmit(&actions, |c| matches!(c, FrameContent::UnnumberedAcknowledge(_))));
    assert!(!actions.iter().any(|a| matches!(a, Action::Closed)));
    assert!(!actions.iter().any(|a| matches!(a, Action::StateChanged(_)))); // stays Connected -- no churn
    assert_eq!(s.state(), ConnState::Connected);
    assert!(s.outstanding.is_empty()); // sequence state reset
}

#[test]
fn frmr_on_information_frame_while_not_connected() {
    let mut s = session();
    let now: u64 = 0;
    s.open(now); // state is Connecting, not Connected
    let bad = Ax25Frame {
        source: addr("KD3BFP-9"),
        destination: addr("N0CALL-1"),
        route: vec![],
        command_or_response: Some(CommandResponse::Command),
        content: FrameContent::Information(Information { pid: ProtocolIdentifier::None, info: b"x".to_vec(), receive_sequence: 0, send_sequence: 0, poll: false }),
    };
    let actions = s.on_frame(&bad, now);
    assert!(contains_transmit(&actions, |c| matches!(c, FrameContent::FrameReject(_))));
    assert!(!actions.iter().any(|a| matches!(a, Action::Data(_) | Action::StateChanged(_))));
    assert_eq!(s.state(), ConnState::Connecting);
}

#[test]
fn dm_at_any_state_closes_immediately() {
    let mut s = session();
    let now: u64 = 0;
    s.open(now);
    let dm = Ax25Frame {
        source: addr("KD3BFP-9"),
        destination: addr("N0CALL-1"),
        route: vec![],
        command_or_response: Some(CommandResponse::Response),
        content: FrameContent::DisconnectedMode(DisconnectedMode { final_bit: true }),
    };
    let actions = s.on_frame(&dm, now);
    assert_eq!(state_changes(&actions), vec![ConnState::Disconnected]);
    assert!(actions.iter().any(|a| matches!(a, Action::Closed)));
    assert_eq!(s.state(), ConnState::Disconnected);
}

#[test]
fn rnr_suppresses_sending_until_rr_clears_it() {
    let mut s = session();
    let now: u64 = 0;
    s.accept_incoming(false, now);
    let rnr = Ax25Frame {
        source: addr("KD3BFP-9"),
        destination: addr("N0CALL-1"),
        route: vec![],
        command_or_response: Some(CommandResponse::Response),
        content: FrameContent::ReceiveNotReady(ReceiveNotReady { receive_sequence: 0, poll_or_final: false }),
    };
    s.on_frame(&rnr, now);
    let actions = s.send(b"hi".to_vec(), now);
    assert!(transmitted_i_frames(&actions).is_empty());
    assert_eq!(s.backlog.len(), 1);

    let actions = s.on_frame(&rr_frame(0, false), now);
    let frames = transmitted_i_frames(&actions);
    assert_eq!(frames.len(), 1);
    assert!(s.backlog.is_empty());
}

#[test]
fn tick_on_idle_disconnected_session_is_a_no_op() {
    let mut s = session();
    assert!(s.tick(0).is_empty());
}

#[test]
fn fragmentation_splits_and_preserves_order() {
    let mut s = session(); // n1_bytes = 4, window = 4
    let now: u64 = 0;
    s.open(now);
    s.on_frame(&ua_frame(false), now);
    let payload: Vec<u8> = (0..10).collect(); // 10 bytes -> 3 fragments of 4,4,2
    let actions = s.send(payload.clone(), now);
    let frames = transmitted_i_frames(&actions);
    assert_eq!(frames.len(), 3);
    let reassembled: Vec<u8> = frames.iter().flat_map(|i| i.info.clone()).collect();
    assert_eq!(reassembled, payload);
    assert_eq!(frames[0].send_sequence, 0);
    assert_eq!(frames[1].send_sequence, 1);
    assert_eq!(frames[2].send_sequence, 2);
}

fn i_frame(ns: u8, nr: u8) -> Ax25Frame {
    Ax25Frame {
        source: addr("KD3BFP-9"),
        destination: addr("N0CALL-1"),
        route: vec![],
        command_or_response: Some(CommandResponse::Command),
        content: FrameContent::Information(Information { pid: ProtocolIdentifier::None, info: b"x".to_vec(), receive_sequence: nr, send_sequence: ns, poll: false }),
    }
}

fn tail(a: &Action) -> Vec<u8> {
    match a {
        Action::Transmit(f) => f.to_bytes()[14..].to_vec(),
        _ => panic!("not a frame"),
    }
}

#[test]
fn frames_in_sequence_are_delivered_and_acknowledged() {
    let mut s = session();
    s.accept_incoming(false, 0);
    for n in 0..9u8 {
        let actions = s.on_frame(&i_frame(n % 8, 0), 0);
        assert_eq!(actions.len(), 2);
        assert!(matches!(&actions[0], Action::Data(d) if d == b"x"));
        assert_eq!(tail(&actions[1]), vec![0x01 | (((n + 1) % 8) << 5)]);
        assert!(state_changes(&actions).is_empty());
    }
    let actions = s.on_frame(&i_frame(3, 0), 0);
    assert_eq!(actions.len(), 1);
    assert_eq!(tail(&actions[0]), vec![0x09 | (1 << 5)]);
    assert!(state_changes(&actions).is_empty());
}

#[test]
fn a_link_that_goes_down_is_reported_once() {
    let disc = Ax25Frame { content: FrameContent::Disconnect(Disconnect { poll: true }), ..i_frame(0, 0) };
    let mut s = session();
    s.accept_incoming(false, 0);
    let actions = s.on_frame(&disc, 0);
    assert_eq!(tail(&actions[0]), vec![0x73]);
    assert!(matches!(actions[1], Action::StateChanged(ConnState::Disconnected)));
    assert!(matches!(actions[2], Action::Closed));
    assert_eq!(actions.len(), 3);
    let again = s.on_frame(&disc, 0);
    assert_eq!((again.len(), tail(&again[0])), (1, vec![0x73]));
}

#[test]
fn every_kind_of_frame_has_its_bytes() {
    let mut s = session();
    assert_eq!(tail(&s.on_frame(&i_frame(3, 2), 0)[0]), vec![0x87, 0x01, 0x10, 0x46]);
    assert_eq!(tail(&s.open(0)[0]), vec![0x3F]);
    s.on_frame(&ua_frame(true), 0);
    s.on_frame(&i_frame(0, 0), 0);
    let sent = s.send(b"abcde".to_vec(), 0);
    assert_eq!(tail(&sent[0]), [&[0x20, 0xF0][..], b"abcd"].concat());
    assert_eq!(tail(&sent[1]), [&[0x22, 0xF0][..], b"e"].concat());
    assert_eq!(tail(&s.on_frame(&rr_frame(2, true), 0)[0]), vec![0x31]);
    assert_eq!(tail(&s.close(0)[0]), vec![0x53]);
}
