use ax25::frame::{Address, Ax25Frame, CommandResponse, FrameContent, SetAsynchronousBalancedMode};
use packet_radio::arq::{ArqConfig, ArqSession};
use packet_radio::kiss_monitor::{handle_kiss_payload, InternalEvent};
use packet_radio::kiss_runner::ConnMap;
use packet_radio::port::PortEvent;
use packet_radio::{wire, xid};

fn addr(s: &str) -> Address {
    s.parse().unwrap()
}

#[test]
fn conn_map_alloc_insert_remove() {
    let mut conns = ConnMap::new();
    let id1 = conns.alloc_id();
    let id2 = conns.alloc_id();
    assert_ne!(id1, id2);
    conns.insert(id1, "N0CALL-1".to_string(), ArqSession::new(addr("KD3BFP-9"), addr("N0CALL-1"), vec![], ArqConfig::default()));
    assert_eq!(conns.id_for_call("N0CALL-1"), Some(id1));
    conns.remove(id1);
    assert_eq!(conns.id_for_call("N0CALL-1"), None);
}

#[test]
fn handle_kiss_payload_forwards_sabme_addressed_to_us_and_tags_monitor() {
    let local = addr("N0CALL-1");

    let scaffold = Ax25Frame {
        source: addr("KD3BFP-9"),
        destination: local.clone(),
        route: vec![],
        command_or_response: Some(CommandResponse::Command),
        content: FrameContent::SetAsynchronousBalancedMode(SetAsynchronousBalancedMode { poll: true }),
    };
    let mut bytes = scaffold.to_bytes();
    let header = wire::parse_header(&bytes).unwrap();
    bytes[header.control_offset] = wire::CTRL_SABME;

    let (events, internal) = handle_kiss_payload(&bytes, &local);

    assert!(events.iter().any(|e| matches!(e, PortEvent::StationHeard { callsign } if callsign == "KD3BFP-9")));
    assert!(events.iter().any(|e| matches!(e, PortEvent::Monitor { line, .. } if line.contains("[SABME]"))));
    match internal {
        Some(InternalEvent::RawSabme { remote, .. }) => assert_eq!(remote, addr("KD3BFP-9")),
        Some(_) => panic!("expected RawSabme"),
        None => panic!("internal channel was empty"),
    }
}

#[test]
fn handle_kiss_payload_does_not_forward_sabme_addressed_to_someone_else() {
    let local = addr("N0CALL-1");

    let scaffold = Ax25Frame {
        source: addr("KD3BFP-9"),
        destination: addr("OTHER-2"),
        route: vec![],
        command_or_response: Some(CommandResponse::Command),
        content: FrameContent::SetAsynchronousBalancedMode(SetAsynchronousBalancedMode { poll: true }),
    };
    let mut bytes = scaffold.to_bytes();
    let header = wire::parse_header(&bytes).unwrap();
    bytes[header.control_offset] = wire::CTRL_SABME;

    let (events, internal) = handle_kiss_payload(&bytes, &local);

    // Still logged for passive monitoring...
    assert!(events.iter().any(|e| matches!(e, PortEvent::Monitor { line, .. } if line.contains("[SABME]"))));
    // ...but never handed to the ARQ engine, since it's not for us.
    assert!(internal.is_none());
}

#[test]
fn handle_kiss_payload_forwards_xid_addressed_to_us() {
    let local = addr("N0CALL-1");

    let scaffold = Ax25Frame {
        source: addr("KD3BFP-9"),
        destination: local.clone(),
        route: vec![],
        command_or_response: Some(CommandResponse::Command),
        content: FrameContent::SetAsynchronousBalancedMode(SetAsynchronousBalancedMode { poll: true }),
    };
    let mut bytes = scaffold.to_bytes();
    let header = wire::parse_header(&bytes).unwrap();
    bytes.truncate(header.control_offset);
    bytes.push(wire::CTRL_XID);
    bytes.extend_from_slice(&xid::encode(&xid::our_params(&ArqConfig::default())));

    let (events, internal) = handle_kiss_payload(&bytes, &local);

    assert!(events.iter().any(|e| matches!(e, PortEvent::Monitor { line, .. } if line.contains("[XID]"))));
    match internal {
        Some(InternalEvent::RawXid { remote, payload, .. }) => {
            assert_eq!(remote, addr("KD3BFP-9"));
            assert!(xid::decode(&payload).is_ok());
        }
        Some(_) => panic!("expected RawXid"),
        None => panic!("internal channel was empty"),
    }
}

#[test]
fn handle_kiss_payload_forwards_arq_relevant_frame_addressed_to_us() {
    let local = addr("N0CALL-1");

    let frame = Ax25Frame {
        source: addr("KD3BFP-9"),
        destination: local.clone(),
        route: vec![],
        command_or_response: Some(CommandResponse::Command),
        content: FrameContent::SetAsynchronousBalancedMode(SetAsynchronousBalancedMode { poll: true }),
    };
    let bytes = frame.to_bytes();

    let (events, internal) = handle_kiss_payload(&bytes, &local);

    match internal {
        Some(InternalEvent::Frame(f)) => assert_eq!(f.source, addr("KD3BFP-9")),
        Some(_) => panic!("expected Frame"),
        None => panic!("internal channel was empty"),
    }
}

#[test]
fn handle_kiss_payload_does_not_forward_ui_frames_to_the_arq_engine() {
    let local = addr("N0CALL-1");

    let frame = Ax25Frame::new_simple_ui_frame(addr("KD3BFP-9"), local.clone(), b"CQ CQ".to_vec());
    let bytes = frame.to_bytes();

    let (events, internal) = handle_kiss_payload(&bytes, &local);

    assert!(internal.is_none());
}
