use std::collections::VecDeque;

use ax25::frame::{Address, Ax25Frame, FrameContent};
use packet_radio::arq::{Action, ArqConfig, ArqSession};
use packet_radio::kiss::KissDecoder;
use packet_radio::kiss_monitor::InternalEvent;
use packet_radio::kiss_runner::{
    close_all, handle_command, handle_internal_event, receive, tick_all, ConnMap, Output,
};
use packet_radio::port::{PortCommand, PortEvent};

fn addr(s: &str) -> Address {
    s.parse().unwrap()
}

fn cfg() -> ArqConfig {
    ArqConfig { window: 4, t1_ms: 1000, n2: 10, n1_bytes: 3 }
}

fn connected(local: &str, remote: &str) -> ArqSession {
    let mut s = ArqSession::new(addr(local), addr(remote), vec![], cfg());
    s.accept_incoming(true, 0);
    s
}

/// Carries actions to the other side, dropping some of the frames.
fn carry(actions: Vec<Action>, queue: &mut VecDeque<Ax25Frame>, got: &mut Vec<u8>, lose: &mut impl FnMut() -> bool) {
    for a in actions {
        match a {
            Action::Transmit(f) => {
                if !lose() {
                    queue.push_back(f);
                }
            }
            Action::Data(bytes) => got.extend(bytes),
            _ => {}
        }
    }
}

fn exchange(message: &[u8], mut lose: impl FnMut() -> bool) -> Vec<u8> {
    let mut a = connected("N0CALL-1", "KD3BFP-9");
    let mut b = connected("KD3BFP-9", "N0CALL-1");
    let (mut there, mut back) = (VecDeque::new(), VecDeque::new());
    let (mut got, mut none) = (Vec::new(), Vec::new());
    let mut now = 0;
    carry(a.send(message.to_vec(), now), &mut there, &mut none, &mut lose);
    for _ in 0..400 {
        now += 300;
        while let Some(f) = there.pop_front() {
            carry(b.on_frame(&f, now), &mut back, &mut got, &mut lose);
            assert!(message.starts_with(&got));
        }
        while let Some(f) = back.pop_front() {
            carry(a.on_frame(&f, now), &mut there, &mut none, &mut lose);
        }
        carry(a.tick(now), &mut there, &mut none, &mut lose);
        if a.outstanding.is_empty() && a.backlog.is_empty() {
            break;
        }
    }
    assert!(none.is_empty());
    got
}

#[test]
fn everything_arrives_over_a_clean_channel() {
    let message: Vec<u8> = (0..200).collect();
    assert_eq!(exchange(&message, || false), message);
}

#[test]
fn everything_arrives_though_frames_are_lost() {
    let message: Vec<u8> = (0..60).collect();
    for every in 2..7 {
        let mut n = 0;
        let got = exchange(&message, || {
            n += 1;
            n % every == 0
        });
        assert_eq!(got, message);
    }
}

#[test]
fn both_sides_send_at_once() {
    let one: Vec<u8> = (0..60).collect();
    let two: Vec<u8> = (100..180).collect();
    for every in 2..9 {
        let mut n = 0;
        let mut lose = || {
            n += 1;
            n % every == 0
        };
        let mut a = connected("N0CALL-1", "KD3BFP-9");
        let mut b = connected("KD3BFP-9", "N0CALL-1");
        let (mut there, mut back) = (VecDeque::new(), VecDeque::new());
        let (mut at_a, mut at_b) = (Vec::new(), Vec::new());
        let mut now = 0;
        carry(a.send(one.clone(), now), &mut there, &mut at_a, &mut lose);
        carry(b.send(two.clone(), now), &mut back, &mut at_b, &mut lose);
        for _ in 0..400 {
            now += 300;
            for _ in 0..3 {
                if let Some(f) = there.pop_front() {
                    carry(b.on_frame(&f, now), &mut back, &mut at_b, &mut lose);
                }
                if let Some(f) = back.pop_front() {
                    carry(a.on_frame(&f, now), &mut there, &mut at_a, &mut lose);
                }
                assert!(one.starts_with(&at_b) && two.starts_with(&at_a));
            }
            carry(a.tick(now), &mut there, &mut at_a, &mut lose);
            carry(b.tick(now), &mut back, &mut at_b, &mut lose);
            if a.outstanding.is_empty() && a.backlog.is_empty() {
                assert_eq!(at_b, one);
            }
            if b.outstanding.is_empty() && b.backlog.is_empty() {
                assert_eq!(at_a, two);
            }
        }
    }
}

#[test]
fn nothing_is_delivered_out_of_order() {
    let mut a = connected("N0CALL-1", "KD3BFP-9");
    let mut b = connected("KD3BFP-9", "N0CALL-1");
    let frames: Vec<Ax25Frame> = a
        .send(b"abcdef".to_vec(), 0)
        .into_iter()
        .filter_map(|x| match x {
            Action::Transmit(f) => Some(f),
            _ => None,
        })
        .collect();
    assert_eq!(frames.len(), 2);
    let late = b.on_frame(&frames[1], 0);
    assert!(!late.iter().any(|x| matches!(x, Action::Data(_))));
    assert!(late.iter().any(|x| matches!(x, Action::Transmit(f) if matches!(f.content, FrameContent::Reject(_)))));
    let first = b.on_frame(&frames[0], 0);
    assert!(first.iter().any(|x| matches!(x, Action::Data(d) if d == b"abc")));
    let twice = b.on_frame(&frames[0], 0);
    assert!(!twice.iter().any(|x| matches!(x, Action::Data(_))));
}

struct Station {
    call: Address,
    conns: ConnMap,
    decoder: KissDecoder,
    events: Vec<PortEvent>,
}

impl Station {
    fn new(call: &str) -> Station {
        Station { call: addr(call), conns: ConnMap::new(), decoder: KissDecoder::new(), events: Vec::new() }
    }

    fn take(&mut self, out: Output) -> Vec<u8> {
        self.events.extend(out.events);
        out.writes.concat()
    }

    fn command(&mut self, c: PortCommand) -> Vec<u8> {
        let (out, alive) = handle_command(c, &self.call, &cfg(), &mut self.conns, 0);
        assert!(alive);
        self.take(out)
    }

    fn hear(&mut self, bytes: &[u8]) -> Vec<u8> {
        let (events, internals) = receive(&mut self.decoder, bytes, &self.call);
        self.events.extend(events);
        let mut written = Vec::new();
        for e in internals {
            let (out, alive) = handle_internal_event(e, &self.call, &cfg(), &mut self.conns, 0);
            assert!(alive);
            written.extend(self.take(out));
        }
        written
    }
}

fn settle(a: &mut Station, b: &mut Station, mut air: Vec<u8>) {
    for _ in 0..50 {
        if air.is_empty() {
            return;
        }
        let answer = b.hear(&air);
        air = a.hear(&answer);
    }
    panic!("the stations do not settle");
}

#[test]
fn two_stations_talk_over_kiss() {
    let mut a = Station::new("N0CALL-1");
    let mut b = Station::new("KD3BFP-9");
    let air = a.command(PortCommand::OpenConnection { remote: "KD3BFP-9".to_string(), via: vec![] });
    settle(&mut a, &mut b, air);
    assert!(b.events.iter().any(|e| matches!(e, PortEvent::ConnectionOpened { label, to: Some(to), .. } if label == "N0CALL-1" && to == "KD3BFP-9")));
    let id = a.conns.id_for_call("KD3BFP-9").unwrap();
    let text = [0xC0, 0xDB, 1, 2, 3, 0xDC, 0xDD, 9, 9, 9];
    let air = a.command(PortCommand::Send { id, bytes: text.to_vec() });
    settle(&mut a, &mut b, air);
    let got: Vec<u8> = b
        .events
        .iter()
        .filter_map(|e| match e {
            PortEvent::Data { bytes, .. } => Some(bytes.clone()),
            _ => None,
        })
        .flatten()
        .collect();
    assert_eq!(got, text);
    let air = a.command(PortCommand::CloseConnection { id });
    settle(&mut a, &mut b, air);
    assert!(a.conns.ids().is_empty() && b.conns.ids().is_empty());
    assert!(b.events.iter().any(|e| matches!(e, PortEvent::ConnectionClosed { .. })));
}

#[test]
fn an_unconnected_frame_is_heard_by_the_other_station() {
    let mut a = Station::new("N0CALL-1");
    let mut b = Station::new("KD3BFP-9");
    let air = a.command(PortCommand::SendUnproto { dest: "CQ".to_string(), via: vec![], bytes: b"hello".to_vec() });
    assert!(b.hear(&air).is_empty());
    assert!(matches!(&b.events[0], PortEvent::StationHeard { callsign } if callsign == "N0CALL-1"));
    assert!(matches!(&b.events[1], PortEvent::Monitor { from: Some(f), to: Some(t), message: Some(m), .. } if f == "N0CALL-1" && t == "CQ" && m == "hello"));
}

#[test]
fn only_data_frames_count() {
    let mut a = Station::new("N0CALL-1");
    let mut b = Station::new("KD3BFP-9");
    let mut air = a.command(PortCommand::SendUnproto { dest: "CQ".to_string(), via: vec![], bytes: b"hello".to_vec() });
    air[1] = 1;
    assert!(b.hear(&air).is_empty());
    assert!(b.events.is_empty());
}

#[test]
fn a_silent_peer_is_given_up() {
    let mut a = Station::new("N0CALL-1");
    a.command(PortCommand::OpenConnection { remote: "KD3BFP-9".to_string(), via: vec![] });
    let mut tries = 0;
    for i in 1..=11 {
        let out = tick_all(&cfg(), &mut a.conns, i * 1000);
        tries += out.writes.len();
        a.take(out);
    }
    assert_eq!(tries, 10);
    assert!(a.conns.ids().is_empty());
    assert!(matches!(a.events.last(), Some(PortEvent::ConnectionClosed { .. })));
}

#[test]
fn a_port_that_goes_down_hangs_up() {
    let mut a = Station::new("N0CALL-1");
    let mut b = Station::new("KD3BFP-9");
    let air = a.command(PortCommand::OpenConnection { remote: "KD3BFP-9".to_string(), via: vec![] });
    settle(&mut a, &mut b, air);
    let out = close_all(&cfg(), &mut a.conns, 0);
    assert_eq!(out.writes.len(), 1);
    b.hear(&out.writes[0]);
    assert!(b.conns.ids().is_empty());
    let (_, alive) = handle_internal_event(InternalEvent::Disconnected, &a.call, &cfg(), &mut a.conns, 0);
    assert!(!alive);
    let (_, alive) = handle_command(PortCommand::Disconnect, &a.call, &cfg(), &mut a.conns, 0);
    assert!(!alive);
}

#[test]
fn a_command_to_an_unknown_connection_does_nothing() {
    let mut a = Station::new("N0CALL-1");
    assert!(a.command(PortCommand::Send { id: 5, bytes: vec![1] }).is_empty());
    assert!(a.command(PortCommand::CloseConnection { id: 5 }).is_empty());
    assert!(a.command(PortCommand::Connect).is_empty());
    assert!(a.events.is_empty());
}

#[test]
fn a_bad_callsign_is_reported() {
    let mut a = Station::new("N0CALL-1");
    assert!(a.command(PortCommand::OpenConnection { remote: "TOOLONGCALL".to_string(), via: vec![] }).is_empty());
    assert!(!a.events.is_empty());
    a.events.clear();
    assert!(a.command(PortCommand::SendUnproto { dest: "N0CALL-16".to_string(), via: vec![], bytes: vec![] }).is_empty());
    assert!(!a.events.is_empty());
}
