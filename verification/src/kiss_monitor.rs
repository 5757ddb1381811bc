//! What a frame heard on a KISS port means: how it is shown, and whether it is
//! for the connected mode of this station.

use ax25::frame::{
    Address, AddressParseError, Ax25Frame, CommandResponse, FrameContent, ProtocolIdentifier,
    RouteEntry, UnnumberedInformation,
};
use vstd::prelude::*;

use crate::arq;
use crate::identifiers;
use crate::link::{self, AddressView, ContentView, FrameView, HopView};
use crate::netrom::{self, NetRomNodeEntry};
use crate::port::{self, EventView, NodesBroadcastEntry, PortEvent};
use crate::text;
use crate::wire;

verus! {

// ---------------------------------------------------------------------------
// Addresses as the user writes them
// ---------------------------------------------------------------------------

/// What the `ax25` crate says of a callsign and SSID that make no address.
pub open spec fn issue_text(e: AddressParseError) -> Seq<char> {
    match e {
        AddressParseError::CallsignTooLong => "Address can be at most 6 characters long"@,
        AddressParseError::InvalidFormat =>
            "Address must be a callsign optionally followed by a `-` and numeric SSID. Example: VK7NTK-5"@,
        AddressParseError::SsidOutOfRange => "SSID must be between 0 and 15 inclusive"@,
        AddressParseError::InvalidSsid { .. } => "Could not parse SSID"@,
    }
}

fn issue_string(e: &AddressParseError) -> (r: String)
    ensures
        r@ == issue_text(*e),
{
    match e {
        AddressParseError::CallsignTooLong => text::owned("Address can be at most 6 characters long"),
        AddressParseError::InvalidFormat => text::owned(
            "Address must be a callsign optionally followed by a `-` and numeric SSID. Example: VK7NTK-5",
        ),
        AddressParseError::SsidOutOfRange => text::owned("SSID must be between 0 and 15 inclusive"),
        AddressParseError::InvalidSsid { .. } => text::owned("Could not parse SSID"),
    }
}

/// The address that `input` names, or what is wrong with it: a callsign, and
/// behind a hyphen an SSID.
pub open spec fn address_in(input: Seq<char>) -> Result<AddressView, Seq<char>> {
    let i = text::char_index(input, '-');
    let (call, ssid) = if i >= input.len() {
        (input, Some(0nat))
    } else {
        (input.take(i), text::unsigned_value(input.skip(i + 1)))
    };
    match ssid {
        Some(n) => if n > 255 {
            Err("invalid SSID in '"@ + input + "'"@)
        } else {
            match link::parts_address(call, n as u8) {
                Ok(a) => Ok(a),
                Err(e) => Err("invalid callsign '"@ + input + "': "@ + issue_text(e)),
            }
        },
        None => Err("invalid SSID in '"@ + input + "'"@),
    }
}

pub open spec fn address_result(r: Result<Address, String>) -> Result<AddressView, Seq<char>> {
    match r {
        Ok(a) => Ok(link::address_view(a)),
        Err(e) => Err(e@),
    }
}

pub fn parse_address(input: &str) -> (r: Result<Address, String>)
    ensures
        address_result(r) == address_in(input@),
{
    let (call, ssid) = match text::split_once(input, '-') {
        Some((call, ssid_text)) => match text::parse_unsigned(ssid_text.as_str(), 255) {
            Some(n) => (call, n as u8),
            None => {
                let mut e = text::owned("invalid SSID in '");
                e.append(input);
                e.append("'");
                return Err(e);
            },
        },
        None => (text::owned(input), 0u8),
    };
    match Address::from_parts(call, ssid) {
        Ok(a) => Ok(a),
        Err(issue) => {
            let mut e = text::owned("invalid callsign '");
            e.append(input);
            e.append("': ");
            let what = issue_string(&issue);
            e.append(what.as_str());
            Err(e)
        },
    }
}

/// The path that `names` make, or what is wrong with the first entry that names no
/// address.
pub open spec fn path_in(names: Seq<Seq<char>>) -> Result<Seq<HopView>, Seq<char>>
    decreases names.len(),
{
    if names.len() == 0 {
        Ok(Seq::empty())
    } else {
        match path_in(names.drop_last()) {
            Ok(route) => match address_in(names.last()) {
                Ok(repeater) => Ok(route.push(HopView { repeater, has_repeated: false })),
                Err(e) => Err(e),
            },
            Err(e) => Err(e),
        }
    }
}

pub open spec fn path_result(r: Result<Vec<RouteEntry>, String>) -> Result<
    Seq<HopView>,
    Seq<char>,
> {
    match r {
        Ok(v) => Ok(link::route_view(v@)),
        Err(e) => Err(e@),
    }
}

proof fn lemma_path_error(names: Seq<Seq<char>>, k: int)
    requires
        0 <= k <= names.len(),
        path_in(names.take(k)) is Err,
    ensures
        path_in(names) == path_in(names.take(k)),
    decreases names.len() - k,
{
    if k < names.len() {
        assert(names.take(k + 1).drop_last() =~= names.take(k));
        lemma_path_error(names, k + 1);
    } else {
        assert(names.take(k) =~= names);
    }
}

/// The digipeater path that `names` name.
pub fn parse_path(names: &Vec<String>) -> (r: Result<Vec<RouteEntry>, String>)
    ensures
        path_result(r) == path_in(text::texts(names@)),
{
    let mut route: Vec<RouteEntry> = Vec::new();
    let ghost all = text::texts(names@);
    let mut i: usize = 0;
    assert(link::route_view(route@) =~= Seq::<HopView>::empty());
    assert(all.take(0) =~= Seq::<Seq<char>>::empty());
    while i < names.len()
        invariant
            i <= names@.len(),
            all == text::texts(names@),
            path_in(all.take(i as int)) == Ok::<Seq<HopView>, Seq<char>>(
                link::route_view(route@),
            ),
        decreases names@.len() - i,
    {
        assert(all.take(i + 1).drop_last() =~= all.take(i as int));
        assert(all.take(i + 1).last() == names@[i as int]@);
        match parse_address(names[i].as_str()) {
            Ok(repeater) => {
                let ghost before = route@;
                route.push(RouteEntry { repeater, has_repeated: false });
                assert(link::route_view(route@) =~= link::route_view(before).push(
                    link::hop_view(route@.last()),
                ));
            },
            Err(e) => {
                proof {
                    lemma_path_error(all, i + 1);
                }
                return Err(e);
            },
        }
        i += 1;
    }
    assert(all.take(i as int) =~= all);
    Ok(route)
}

/// An unnumbered-information frame.
pub open spec fn ui_view(
    source: AddressView,
    destination: AddressView,
    route: Seq<HopView>,
    info: Seq<u8>,
) -> FrameView {
    FrameView {
        source,
        destination,
        route,
        command_or_response: Some(CommandResponse::Command),
        content: ContentView::UnnumberedInformation {
            pid: ProtocolIdentifier::None,
            info,
            poll_or_final: false,
        },
    }
}

/// The frame that carries `info`, or what is wrong with the first address that is
/// none.
pub open spec fn ui_frame(
    my_call: Seq<char>,
    dest: Seq<char>,
    via: Seq<Seq<char>>,
    info: Seq<u8>,
) -> Result<FrameView, Seq<char>> {
    match address_in(my_call) {
        Err(e) => Err(e),
        Ok(source) => match address_in(dest) {
            Err(e) => Err(e),
            Ok(destination) => match path_in(via) {
                Err(e) => Err(e),
                Ok(route) => Ok(ui_view(source, destination, route, info)),
            },
        },
    }
}

pub open spec fn frame_result(r: Result<Ax25Frame, String>) -> Result<FrameView, Seq<char>> {
    match r {
        Ok(f) => Ok(link::frame_view(f)),
        Err(e) => Err(e@),
    }
}

pub fn build_ui_frame(my_call: &str, dest: &str, via: &Vec<String>, info: Vec<u8>) -> (r: Result<
    Ax25Frame,
    String,
>)
    ensures
        frame_result(r) == ui_frame(my_call@, dest@, text::texts(via@), info@),
{
    let source = match parse_address(my_call) {
        Ok(a) => a,
        Err(e) => {
            return Err(e);
        },
    };
    let destination = match parse_address(dest) {
        Ok(a) => a,
        Err(e) => {
            return Err(e);
        },
    };
    let route = match parse_path(via) {
        Ok(v) => v,
        Err(e) => {
            return Err(e);
        },
    };
    let mut frame = Ax25Frame::new_simple_ui_frame(source, destination, info);
    frame.route = route;
    Ok(frame)
}

// ---------------------------------------------------------------------------
// Frames as text
// ---------------------------------------------------------------------------

/// An information field as text, zero bytes left out.
pub open spec fn info_text(info: Seq<u8>) -> Seq<char> {
    text::without(text::shown_text(info), '\0')
}

pub(crate) fn info_string(info: &Vec<u8>) -> (r: String)
    ensures
        r@ == info_text(info@),
{
    let shown = text::from_utf8_lossy(info.as_slice());
    text::remove_char(shown.as_str(), '\0')
}

/// The name of what a frame carries, where it is not plain text.
pub open spec fn pid_name(pid: ProtocolIdentifier) -> Option<Seq<char>> {
    match pid {
        ProtocolIdentifier::None => None,
        ProtocolIdentifier::X25Plp => Some("X.25 PLP"@),
        ProtocolIdentifier::CompressedTcpIp => Some("Compressed TCP/IP"@),
        ProtocolIdentifier::UncompressedTcpIp => Some("Uncompressed TCP/IP"@),
        ProtocolIdentifier::SegmentationFragment => Some("Segmentation Fragment"@),
        ProtocolIdentifier::TexnetDatagram => Some("TEXNET"@),
        ProtocolIdentifier::LinkQuality => Some("Link Quality"@),
        ProtocolIdentifier::Appletalk => Some("Appletalk"@),
        ProtocolIdentifier::AppletalkArp => Some("Appletalk ARP"@),
        ProtocolIdentifier::ArpaIp => Some("ARPA IP"@),
        ProtocolIdentifier::ArpaAddress => Some("ARPA ARP"@),
        ProtocolIdentifier::Flexnet => Some("FlexNet"@),
        ProtocolIdentifier::NetRom => Some("NET/ROM"@),
        ProtocolIdentifier::Layer3Impl => Some("Layer 3"@),
        ProtocolIdentifier::Escape => Some("Escape"@),
        ProtocolIdentifier::Unknown(_) => None,
    }
}

pub open spec fn pid_text(pid: ProtocolIdentifier) -> Seq<char> {
    match pid_name(pid) {
        Some(name) => " [PID: "@ + name + "]"@,
        None => Seq::empty(),
    }
}

/// `" [PID: ...]"` for a frame that carries something other than plain text.
pub fn pid_suffix(pid: &ProtocolIdentifier) -> (r: String)
    ensures
        r@ == pid_text(*pid),
{
    let label = match pid {
        ProtocolIdentifier::None => {
            return String::new();
        },
        ProtocolIdentifier::X25Plp => "X.25 PLP",
        ProtocolIdentifier::CompressedTcpIp => "Compressed TCP/IP",
        ProtocolIdentifier::UncompressedTcpIp => "Uncompressed TCP/IP",
        ProtocolIdentifier::SegmentationFragment => "Segmentation Fragment",
        ProtocolIdentifier::TexnetDatagram => "TEXNET",
        ProtocolIdentifier::LinkQuality => "Link Quality",
        ProtocolIdentifier::Appletalk => "Appletalk",
        ProtocolIdentifier::AppletalkArp => "Appletalk ARP",
        ProtocolIdentifier::ArpaIp => "ARPA IP",
        ProtocolIdentifier::ArpaAddress => "ARPA ARP",
        ProtocolIdentifier::Flexnet => "FlexNet",
        ProtocolIdentifier::NetRom => "NET/ROM",
        ProtocolIdentifier::Layer3Impl => "Layer 3",
        ProtocolIdentifier::Escape => "Escape",
        ProtocolIdentifier::Unknown(_) => {
            return String::new();
        },
    };
    let mut s = text::owned(" [PID: ");
    s.append(label);
    s.append("]");
    s
}

/// The tag of a frame, with what it carries.
pub open spec fn content_text(c: ContentView) -> Seq<char> {
    match c {
        ContentView::Information { pid, info, receive_sequence, send_sequence, .. } => " [I N(S)="@
            + text::decimal(send_sequence as nat) + " N(R)="@ + text::decimal(
            receive_sequence as nat,
        ) + "]"@ + pid_text(pid) + ": "@ + info_text(info),
        ContentView::UnnumberedInformation { pid, info, .. } => " [UI]"@ + pid_text(pid) + ": "@
            + info_text(info),
        ContentView::ReceiveReady { receive_sequence, .. } => " [RR N(R)="@ + text::decimal(
            receive_sequence as nat,
        ) + "]"@,
        ContentView::ReceiveNotReady { receive_sequence, .. } => " [RNR N(R)="@ + text::decimal(
            receive_sequence as nat,
        ) + "]"@,
        ContentView::Reject { receive_sequence, .. } => " [REJ N(R)="@ + text::decimal(
            receive_sequence as nat,
        ) + "]"@,
        ContentView::SetAsynchronousBalancedMode { .. } => " [SABM]"@,
        ContentView::Disconnect { .. } => " [DISC]"@,
        ContentView::DisconnectedMode { .. } => " [DM]"@,
        ContentView::UnnumberedAcknowledge { .. } => " [UA]"@,
        ContentView::FrameReject(_) => " [FRMR]"@,
        ContentView::UnknownContent { .. } => " [?]"@,
    }
}

/// A frame as a line: who, to whom, what.
pub open spec fn frame_text(f: FrameView) -> Seq<char> {
    link::address_text(f.source) + " > "@ + link::address_text(f.destination) + content_text(
        f.content,
    )
}

fn numbered_tag(tag: &str, nr: u8) -> (r: String)
    ensures
        r@ == tag@ + text::decimal(nr as nat) + "]"@,
{
    let mut s = text::owned(tag);
    let n = text::decimal_text(nr as u64);
    s.append(n.as_str());
    s.append("]");
    s
}

fn content_string(c: &FrameContent) -> (r: String)
    ensures
        r@ == content_text(link::content_view(*c)),
{
    match c {
        FrameContent::Information(i) => {
            let mut s = text::owned(" [I N(S)=");
            let ns = text::decimal_text(i.send_sequence as u64);
            s.append(ns.as_str());
            s.append(" N(R)=");
            let nr = text::decimal_text(i.receive_sequence as u64);
            s.append(nr.as_str());
            s.append("]");
            let pid = pid_suffix(&i.pid);
            s.append(pid.as_str());
            s.append(": ");
            let info = info_string(&i.info);
            s.append(info.as_str());
            s
        },
        FrameContent::UnnumberedInformation(ui) => {
            let mut s = text::owned(" [UI]");
            let pid = pid_suffix(&ui.pid);
            s.append(pid.as_str());
            s.append(": ");
            let info = info_string(&ui.info);
            s.append(info.as_str());
            s
        },
        FrameContent::ReceiveReady(rr) => numbered_tag(" [RR N(R)=", rr.receive_sequence),
        FrameContent::ReceiveNotReady(rnr) => numbered_tag(" [RNR N(R)=", rnr.receive_sequence),
        FrameContent::Reject(rej) => numbered_tag(" [REJ N(R)=", rej.receive_sequence),
        FrameContent::SetAsynchronousBalancedMode(_) => text::owned(" [SABM]"),
        FrameContent::Disconnect(_) => text::owned(" [DISC]"),
        FrameContent::DisconnectedMode(_) => text::owned(" [DM]"),
        FrameContent::UnnumberedAcknowledge(_) => text::owned(" [UA]"),
        FrameContent::FrameReject(_) => text::owned(" [FRMR]"),
        FrameContent::UnknownContent(_) => text::owned(" [?]"),
    }
}

/// Describes a frame with its standard AX.25 mnemonic in brackets.
pub fn describe_frame(frame: &Ax25Frame) -> (r: String)
    ensures
        r@ == frame_text(link::frame_view(*frame)),
{
    let mut line = between(&frame.source, &frame.destination);
    let what = content_string(&frame.content);
    line.append(what.as_str());
    line
}

/// `"source > destination"`.
pub(crate) fn between(source: &Address, destination: &Address) -> (r: String)
    ensures
        r@ == link::address_text(link::address_view(*source)) + " > "@ + link::address_text(
            link::address_view(*destination),
        ),
{
    let mut line = link::address_string(source);
    line.append(" > ");
    let to = link::address_string(destination);
    line.append(to.as_str());
    line
}

// ---------------------------------------------------------------------------
// Payloads
// ---------------------------------------------------------------------------

/// Something heard that concerns the connected mode of this station.
#[derive(Debug)]
pub enum InternalEvent {
    /// A frame that the `ax25` crate could decode.
    Frame(Ax25Frame),
    /// A connect request in extended mode.
    RawSabme { remote: Address, route: Vec<RouteEntry> },
    /// Parameter negotiation.
    RawXid { remote: Address, route: Vec<RouteEntry>, payload: Vec<u8> },
    /// The transport is gone.
    Disconnected,
}

#[verifier::ext_equal]
pub enum InternalView {
    Frame(FrameView),
    RawSabme { remote: AddressView, route: Seq<HopView> },
    RawXid { remote: AddressView, route: Seq<HopView>, payload: Seq<u8> },
    Disconnected,
}

pub open spec fn internal_view(e: InternalEvent) -> InternalView {
    match e {
        InternalEvent::Frame(f) => InternalView::Frame(link::frame_view(f)),
        InternalEvent::RawSabme { remote, route } => InternalView::RawSabme {
            remote: link::address_view(remote),
            route: link::route_view(route@),
        },
        InternalEvent::RawXid { remote, route, payload } => InternalView::RawXid {
            remote: link::address_view(remote),
            route: link::route_view(route@),
            payload: payload@,
        },
        InternalEvent::Disconnected => InternalView::Disconnected,
    }
}

pub open spec fn opt_internal(o: Option<InternalEvent>) -> Option<InternalView> {
    match o {
        Some(e) => Some(internal_view(e)),
        None => None,
    }
}

/// A frame that the state machine of a connection takes part in.
pub open spec fn arq_relevant(c: ContentView) -> bool {
    !(c is UnnumberedInformation) && !(c is UnknownContent)
}

pub open spec fn heard(a: AddressView) -> EventView {
    EventView::StationHeard { callsign: link::address_text(a) }
}

/// The routing broadcast that a frame carries.
pub open spec fn broadcast_of(f: FrameView) -> Option<netrom::BroadcastView> {
    match f.content {
        ContentView::UnnumberedInformation { pid, info, .. } => if pid == ProtocolIdentifier::NetRom
            && text::ascii_upper(f.destination.callsign) == "NODES"@ {
            netrom::broadcast_in(info)
        } else {
            None
        },
        _ => None,
    }
}

pub open spec fn advertised(entries: Seq<netrom::EntryView>) -> Seq<port::NodeView> {
    entries.map_values(
        |e: netrom::EntryView| port::NodeView { callsign: e.callsign, alias: e.alias },
    )
}

/// What is reported of a decoded frame: who was heard, the routing broadcast it
/// may be, and its line. Unnumbered information is a message of its own.
pub open spec fn frame_events(f: FrameView) -> Seq<EventView> {
    let first = match broadcast_of(f) {
        Some(b) => seq![
            heard(f.source),
            EventView::NodesBroadcast {
                from: link::address_text(f.source),
                sender_alias: b.sender_alias,
                entries: advertised(b.entries),
            },
        ],
        None => seq![heard(f.source)],
    };
    let line = match f.content {
        ContentView::UnnumberedInformation { info, .. } => EventView::Monitor {
            line: frame_text(f),
            from: Some(link::address_text(f.source)),
            to: Some(link::address_text(f.destination)),
            message: Some(info_text(info)),
        },
        _ => port::monitor_line(frame_text(f)),
    };
    first.push(line)
}

/// What is reported of a frame known by its header alone.
pub open spec fn raw_events(h: wire::HeaderView, tag: Seq<char>) -> Seq<EventView> {
    seq![
        heard(h.source),
        port::monitor_line(
            link::address_text(h.source) + " > "@ + link::address_text(h.destination) + tag,
        ),
    ]
}

/// What one payload reports, and what it means for the connected mode of `local`.
pub open spec fn payload_step(payload: Seq<u8>, local: AddressView) -> (
    Seq<EventView>,
    Option<InternalView>,
) {
    match wire::decoded_header(payload) {
        None => (Seq::empty(), None),
        Some(h) => {
            let control = payload[h.control_offset];
            let mine = h.destination == local;
            if control == 0x6F || control == 0x7F {
                (
                    raw_events(h, " [SABME]"@),
                    if mine {
                        Some(InternalView::RawSabme { remote: h.source, route: h.route })
                    } else {
                        None
                    },
                )
            } else if control == 0xAF || control == 0xBF {
                (
                    raw_events(h, " [XID]"@),
                    if mine {
                        Some(
                            InternalView::RawXid {
                                remote: h.source,
                                route: h.route,
                                payload: payload.skip(h.control_offset + 1),
                            },
                        )
                    } else {
                        None
                    },
                )
            } else {
                match link::decoded_frame(payload) {
                    None => (Seq::empty(), None),
                    Some(f) => (
                        frame_events(f),
                        if arq_relevant(f.content) && f.destination == local {
                            Some(InternalView::Frame(f))
                        } else {
                            None
                        },
                    ),
                }
            }
        },
    }
}

fn advertise(entries: Vec<NetRomNodeEntry>) -> (r: Vec<NodesBroadcastEntry>)
    ensures
        port::nodes_view(r@) == advertised(netrom::entries_view(entries@)),
{
    let mut out: Vec<NodesBroadcastEntry> = Vec::new();
    let ghost all = advertised(netrom::entries_view(entries@));
    let mut i: usize = 0;
    assert(port::nodes_view(out@) =~= all.take(0));
    while i < entries.len()
        invariant
            i <= entries@.len(),
            all == advertised(netrom::entries_view(entries@)),
            port::nodes_view(out@) == all.take(i as int),
        decreases entries@.len() - i,
    {
        let ghost before = out@;
        out.push(
            NodesBroadcastEntry {
                callsign: entries[i].callsign.clone(),
                alias: entries[i].alias.clone(),
            },
        );
        assert(port::nodes_view(out@) =~= port::nodes_view(before).push(
            port::node_view(out@.last()),
        ));
        assert(all.take(i + 1) =~= all.take(i as int).push(all[i as int]));
        i += 1;
    }
    assert(all.take(i as int) =~= all);
    out
}

/// Adds what is reported of a decoded frame to `events`.
fn report_frame(frame: &Ax25Frame, events: &mut Vec<PortEvent>)
    ensures
        port::events_view(final(events)@) == port::events_view(old(events)@) + frame_events(
            link::frame_view(*frame),
        ),
{
    let ghost before = port::events_view(events@);
    let ghost view = link::frame_view(*frame);
    let source = link::address_string(&frame.source);
    port::emit(events, PortEvent::StationHeard { callsign: source.clone() });
    let line = describe_frame(frame);
    match &frame.content {
        FrameContent::UnnumberedInformation(ui) => {
            let netrom_pid = match ui.pid {
                ProtocolIdentifier::NetRom => true,
                _ => false,
            };
            proof {
                reveal_strlit("NODES");
                assert(text::ascii_upper("NODES"@) =~= "NODES"@);
            }
            if netrom_pid && text::eq_ignore_ascii_case(frame.destination.callsign(), "NODES") {
                match netrom::parse_nodes_broadcast(ui.info.as_slice()) {
                    Some(b) => {
                        port::emit(
                            events,
                            PortEvent::NodesBroadcast {
                                from: source.clone(),
                                sender_alias: b.sender_alias,
                                entries: advertise(b.entries),
                            },
                        );
                    },
                    None => {},
                }
            }
            port::emit(
                events,
                PortEvent::Monitor {
                    line,
                    from: Some(source),
                    to: Some(link::address_string(&frame.destination)),
                    message: Some(info_string(&ui.info)),
                },
            );
        },
        _ => {
            port::emit_line(events, line);
        },
    }
    assert(port::events_view(events@) =~= before + frame_events(view));
}

fn report_raw(header: &wire::RawHeader, tag: &str, events: &mut Vec<PortEvent>)
    requires
        port::events_view(old(events)@) == Seq::<EventView>::empty(),
    ensures
        port::events_view(final(events)@) == raw_events(header@, tag@),
{
    port::emit(events, PortEvent::StationHeard { callsign: link::address_string(&header.source) });
    let mut line = between(&header.source, &header.destination);
    line.append(tag);
    port::emit_line(events, line);
    assert(port::events_view(events@) =~= raw_events(header@, tag@));
}

/// Takes one payload from the TNC.
pub fn handle_kiss_payload(payload: &[u8], local: &Address) -> (r: (
    Vec<PortEvent>,
    Option<InternalEvent>,
))
    ensures
        port::events_view(r.0@) == payload_step(payload@, link::address_view(*local)).0,
        opt_internal(r.1) == payload_step(payload@, link::address_view(*local)).1,
{
    let mut events: Vec<PortEvent> = Vec::new();
    assert(port::events_view(events@) =~= Seq::<EventView>::empty());
    let header = match wire::parse_header(payload) {
        Some(h) => h,
        None => {
            return (events, None);
        },
    };
    let control: u8 = match wire::control_byte(payload, &header) {
        Some(c) => c,
        None => {
            return (events, None);
        },
    };
    let mine = link::same_address(&header.destination, local);
    if wire::is_sabme(control) {
        report_raw(&header, " [SABME]", &mut events);
        if mine {
            return (
                events,
                Some(InternalEvent::RawSabme { remote: header.source, route: header.route }),
            );
        }
        return (events, None);
    }
    if wire::is_xid(control) {
        report_raw(&header, " [XID]", &mut events);
        if mine {
            let len: usize = payload.len();
            let rest = arq::sub_bytes(payload, header.control_offset + 1, len);
            assert(rest@ =~= payload@.skip(header.control_offset + 1));
            return (
                events,
                Some(
                    InternalEvent::RawXid {
                        remote: header.source,
                        route: header.route,
                        payload: rest,
                    },
                ),
            );
        }
        return (events, None);
    }
    let frame = match Ax25Frame::from_bytes(payload) {
        Ok(f) => f,
        Err(_) => {
            return (events, None);
        },
    };
    report_frame(&frame, &mut events);
    assert(Seq::<EventView>::empty() + frame_events(link::frame_view(frame)) =~= frame_events(
        link::frame_view(frame),
    ));
    let relevant = match &frame.content {
        FrameContent::UnnumberedInformation(_) => false,
        FrameContent::UnknownContent(_) => false,
        _ => true,
    };
    if relevant && link::same_address(&frame.destination, local) {
        (events, Some(InternalEvent::Frame(frame)))
    } else {
        (events, None)
    }
}

// ---------------------------------------------------------------------------
// Laws
// ---------------------------------------------------------------------------

/// Nothing reaches the connected mode of a station that is not addressed to it,
/// and no unnumbered information ever does.
pub proof fn law_only_own_traffic(payload: Seq<u8>, local: AddressView)
    ensures
        match payload_step(payload, local).1 {
            Some(InternalView::Frame(f)) => f.destination == local && !(
            f.content is UnnumberedInformation),
            Some(InternalView::RawSabme { .. }) => wire::decoded_header(payload) matches Some(h)
                && h.destination == local,
            Some(InternalView::RawXid { .. }) => wire::decoded_header(payload) matches Some(h)
                && h.destination == local,
            Some(InternalView::Disconnected) => false,
            None => true,
        },
{
}

/// Whoever sends something that is shown at all is reported as heard, first.
pub proof fn law_sender_heard(payload: Seq<u8>, local: AddressView)
    ensures
        payload_step(payload, local).0.len() > 0 ==> payload_step(payload, local).0[0] is StationHeard,
        payload_step(payload, local).1 is Some ==> payload_step(payload, local).0.len() > 0,
{
}

/// An address is read from the text that it is shown as.
pub proof fn law_address_read_back(a: AddressView)
    requires
        wire::settled_address(a),
    ensures
        address_in(link::address_text(a)) == Ok::<AddressView, Seq<char>>(a),
{
    let t = link::address_text(a);
    let n = a.callsign.len() as int;
    wire::lemma_settled(a);
    assert forall|i: int| 0 <= i < n implies t[i] != '-' by {
        assert(link::ascii_alphanumeric(a.callsign[i]));
        assert(t[i] == a.callsign[i]);
    }
    text::lemma_char_index_unique(t, '-', n);
    if a.ssid != 0 {
        let d = text::decimal(a.ssid as nat);
        identifiers::lemma_decimal(a.ssid as nat);
        assert(t.skip(n + 1) =~= d);
        assert(t.take(n) =~= a.callsign);
        assert(text::is_digit(d[0]));
    } else {
        assert(t =~= a.callsign);
    }
}

/// A path is read name by name: it has a hop for each name, in their order, none of
/// them marked as repeated, and it is none where one of the names is no address.
pub proof fn law_path_read(names: Seq<Seq<char>>)
    ensures
        path_in(names) matches Ok(route) ==> {
            &&& route.len() == names.len()
            &&& forall|i: int|
                0 <= i < names.len() ==> !(#[trigger] route[i]).has_repeated && address_in(names[i])
                    == Ok::<AddressView, Seq<char>>(route[i].repeater)
        },
        path_in(names) is Ok <==> forall|i: int|
            0 <= i < names.len() ==> address_in(#[trigger] names[i]) is Ok,
    decreases names.len(),
{
    if names.len() > 0 {
        let less = names.drop_last();
        law_path_read(less);
        assert forall|i: int| 0 <= i < less.len() implies less[i] == #[trigger] names[i] by {}
        if path_in(names) is Err {
            if path_in(less) is Ok {
                assert(address_in(names[names.len() - 1]) is Err);
            } else {
                let i = choose|i: int| 0 <= i < less.len() && !(address_in(#[trigger] less[i]) is Ok);
                assert(less[i] == names[i]);
                assert(!(address_in(names[i]) is Ok));
            }
        } else {
            assert forall|i: int| 0 <= i < names.len() implies address_in(
                #[trigger] names[i],
            ) is Ok by {
                if i < less.len() {
                    assert(less[i] == names[i]);
                }
            }
        }
    }
}

/// The AX.25 name of a kind of frame.
pub open spec fn mnemonic(c: ContentView) -> Seq<char> {
    match c {
        ContentView::Information { .. } => "I"@,
        ContentView::UnnumberedInformation { .. } => "UI"@,
        ContentView::ReceiveReady { .. } => "RR"@,
        ContentView::ReceiveNotReady { .. } => "RNR"@,
        ContentView::Reject { .. } => "REJ"@,
        ContentView::SetAsynchronousBalancedMode { .. } => "SABM"@,
        ContentView::Disconnect { .. } => "DISC"@,
        ContentView::DisconnectedMode { .. } => "DM"@,
        ContentView::UnnumberedAcknowledge { .. } => "UA"@,
        ContentView::FrameReject(_) => "FRMR"@,
        ContentView::UnknownContent { .. } => "?"@,
    }
}

/// What stands in the brackets behind the name: the numbers that the frame carries.
pub open spec fn shown_numbers(c: ContentView) -> Seq<char> {
    match c {
        ContentView::Information { receive_sequence, send_sequence, .. } => " N(S)="@
            + text::decimal(send_sequence as nat) + " N(R)="@ + text::decimal(
            receive_sequence as nat,
        ),
        ContentView::ReceiveReady { receive_sequence, .. } => " N(R)="@ + text::decimal(
            receive_sequence as nat,
        ),
        ContentView::ReceiveNotReady { receive_sequence, .. } => " N(R)="@ + text::decimal(
            receive_sequence as nat,
        ),
        ContentView::Reject { receive_sequence, .. } => " N(R)="@ + text::decimal(
            receive_sequence as nat,
        ),
        _ => Seq::empty(),
    }
}

/// `line` begins with `from`, an arrow, `to`, and a tag in brackets; and `rest` follows.
pub open spec fn tells(
    line: Seq<char>,
    from: Seq<char>,
    to: Seq<char>,
    tag: Seq<char>,
    rest: Seq<char>,
) -> bool {
    line == from + seq![' ', '>', ' '] + to + seq![' ', '['] + tag + seq![']'] + rest
}

/// What information says as text: its characters, where it is text without zeros.
pub open spec fn says(message: Seq<char>, info: Seq<u8>) -> bool {
    forall|t: Seq<char>|
        info == #[trigger] vstd::utf8::encode_utf8(t) && !t.contains('\0') ==> message == t
}

/// The line of a frame: who sent it, to whom, its name and numbers in brackets; behind
/// that, for frames that carry information, a colon and what it says.
pub proof fn law_frame_line(f: FrameView)
    ensures
        ({
            let from = link::address_text(f.source);
            let to = link::address_text(f.destination);
            let tag = mnemonic(f.content) + shown_numbers(f.content);
            match f.content {
                ContentView::Information { pid, info, .. } => says(info_text(info), info) && tells(
                    frame_text(f),
                    from,
                    to,
                    tag,
                    pid_text(pid) + seq![':', ' '] + info_text(info),
                ),
                ContentView::UnnumberedInformation { pid, info, .. } => says(info_text(info), info)
                    && tells(
                    frame_text(f),
                    from,
                    to,
                    tag,
                    pid_text(pid) + seq![':', ' '] + info_text(info),
                ),
                _ => tells(frame_text(f), from, to, tag, Seq::empty()),
            }
        }),
{
    reveal_strlit(" > ");
    reveal_strlit(": ");
    reveal_strlit("]");
    reveal_strlit(" N(S)=");
    reveal_strlit(" N(R)=");
    reveal_strlit("I");
    reveal_strlit(" [I N(S)=");
    reveal_strlit("UI");
    reveal_strlit(" [UI]");
    reveal_strlit("RR");
    reveal_strlit(" [RR N(R)=");
    reveal_strlit("RNR");
    reveal_strlit(" [RNR N(R)=");
    reveal_strlit("REJ");
    reveal_strlit(" [REJ N(R)=");
    reveal_strlit("SABM");
    reveal_strlit(" [SABM]");
    reveal_strlit("DISC");
    reveal_strlit(" [DISC]");
    reveal_strlit("DM");
    reveal_strlit(" [DM]");
    reveal_strlit("UA");
    reveal_strlit(" [UA]");
    reveal_strlit("FRMR");
    reveal_strlit(" [FRMR]");
    reveal_strlit("?");
    reveal_strlit(" [?]");
    let from = link::address_text(f.source);
    let to = link::address_text(f.destination);
    let tag = mnemonic(f.content) + shown_numbers(f.content);
    match f.content {
        ContentView::Information { pid, info, .. } => {
            lemma_says(info);
            let rest = pid_text(pid) + seq![':', ' '] + info_text(info);
            assert(frame_text(f) =~= from + seq![' ', '>', ' '] + to + seq![' ', '['] + tag + seq![
                ']',
            ] + rest);
        },
        ContentView::UnnumberedInformation { pid, info, .. } => {
            lemma_says(info);
            let rest = pid_text(pid) + seq![':', ' '] + info_text(info);
            assert(frame_text(f) =~= from + seq![' ', '>', ' '] + to + seq![' ', '['] + tag + seq![
                ']',
            ] + rest);
        },
        _ => {
            assert(frame_text(f) =~= from + seq![' ', '>', ' '] + to + seq![' ', '['] + tag + seq![
                ']',
            ] + Seq::<char>::empty());
        },
    }
}

proof fn lemma_says(info: Seq<u8>)
    ensures
        says(info_text(info), info),
{
    assert forall|t: Seq<char>|
        info == #[trigger] vstd::utf8::encode_utf8(t) && !t.contains('\0') implies info_text(info)
        == t by {
        vstd::utf8::encode_utf8_valid_utf8(t);
        vstd::utf8::encode_utf8_decode_utf8(t);
        text::lemma_without_none(t, '\0');
    }
}

/// What the report `e` says of the frame `f`. Unnumbered information is a message: the
/// line is made of its sender, its receiver and its text, and all three are reported. No
/// other frame reports any of them.
pub open spec fn shows_frame(e: EventView, f: FrameView) -> bool {
    let source = link::address_text(f.source);
    let destination = link::address_text(f.destination);
    e matches EventView::Monitor { line, from, to, message } && match f.content {
        ContentView::UnnumberedInformation { pid, info, .. } => {
            &&& from == Some(source)
            &&& to == Some(destination)
            &&& message is Some
            &&& says(message->0, info)
            &&& tells(line, source, destination, "UI"@, pid_text(pid) + seq![':', ' '] + message->0)
        },
        _ => {
            &&& from is None && to is None && message is None
            &&& tells(
                line,
                source,
                destination,
                mnemonic(f.content) + shown_numbers(f.content),
                match f.content {
                    ContentView::Information { pid, info, .. } => pid_text(pid) + seq![':', ' ']
                        + info_text(info),
                    _ => Seq::empty(),
                },
            )
        },
    }
}

/// What is reported of a frame that is heard: first that its sender was heard, last one
/// line, which begins with that same sender and with the station it is sent to.
pub proof fn law_heard_frame_shown(payload: Seq<u8>, local: AddressView)
    requires
        payload_step(payload, local).0.len() > 0,
    ensures
        ({
            let events = payload_step(payload, local).0;
            let h = wire::decoded_header(payload)->0;
            let control = payload[h.control_offset];
            &&& wire::decoded_header(payload) is Some
            &&& events.len() >= 2
            &&& if control == 0x6F || control == 0x7F || control == 0xAF || control == 0xBF {
                let tag = if control == 0x6F || control == 0x7F {
                    "SABME"@
                } else {
                    "XID"@
                };
                let source = link::address_text(h.source);
                &&& events[0] == EventView::StationHeard { callsign: source }
                &&& events.last() matches EventView::Monitor { line, from, to, message } && from is None
                    && to is None && message is None && tells(
                    line,
                    source,
                    link::address_text(h.destination),
                    tag,
                    Seq::empty(),
                )
            } else {
                let f = link::decoded_frame(payload)->0;
                &&& link::decoded_frame(payload) is Some
                &&& events[0] == EventView::StationHeard { callsign: link::address_text(f.source) }
                &&& shows_frame(events.last(), f)
            }
        }),
{
    reveal_strlit(" > ");
    reveal_strlit(" [SABME]");
    reveal_strlit(" [XID]");
    reveal_strlit("SABME");
    reveal_strlit("XID");
    let h = wire::decoded_header(payload)->0;
    let control = payload[h.control_offset];
    let events = payload_step(payload, local).0;
    if control == 0x6F || control == 0x7F || control == 0xAF || control == 0xBF {
        let tag = if control == 0x6F || control == 0x7F {
            "SABME"@
        } else {
            "XID"@
        };
        let line = events.last()->line;
        assert(line =~= link::address_text(h.source) + seq![' ', '>', ' '] + link::address_text(
            h.destination,
        ) + seq![' ', '['] + tag + seq![']'] + Seq::<char>::empty());
    } else {
        let f = link::decoded_frame(payload)->0;
        law_frame_line(f);
        assert(events == frame_events(f));
        assert(events[0] == heard(f.source));
        assert(mnemonic(f.content) + Seq::<char>::empty() =~= mnemonic(f.content));
        match f.content {
            ContentView::UnnumberedInformation { pid, info, .. } => {
                assert(shows_frame(events.last(), f));
            },
            ContentView::Information { pid, info, .. } => {
                assert(tells(
                    frame_text(f),
                    link::address_text(f.source),
                    link::address_text(f.destination),
                    mnemonic(f.content) + shown_numbers(f.content),
                    pid_text(pid) + seq![':', ' '] + info_text(info),
                ));
                assert(events.last() == port::monitor_line(frame_text(f)));
                assert(shows_frame(events.last(), f));
            },
            _ => {
                assert(tells(
                    frame_text(f),
                    link::address_text(f.source),
                    link::address_text(f.destination),
                    mnemonic(f.content) + shown_numbers(f.content),
                    Seq::empty(),
                ));
                assert(events.last() == port::monitor_line(frame_text(f)));
                assert(shows_frame(events.last(), f));
            },
        }
    }
}

/// A frame that carries another protocol says so in its line, by the protocol's name.
pub proof fn law_protocol_named(pid: ProtocolIdentifier)
    ensures
        pid is None || pid is Unknown <==> pid_text(pid).len() == 0,
        pid is NetRom ==> pid_text(pid) == " [PID: "@ + "NET/ROM"@ + "]"@,
        pid is ArpaIp ==> pid_text(pid) == " [PID: "@ + "ARPA IP"@ + "]"@,
        pid is ArpaAddress ==> pid_text(pid) == " [PID: "@ + "ARPA ARP"@ + "]"@,
        pid is Flexnet ==> pid_text(pid) == " [PID: "@ + "FlexNet"@ + "]"@,
        pid is TexnetDatagram ==> pid_text(pid) == " [PID: "@ + "TEXNET"@ + "]"@,
        pid is X25Plp ==> pid_text(pid) == " [PID: "@ + "X.25 PLP"@ + "]"@,
        pid is CompressedTcpIp ==> pid_text(pid) == " [PID: "@ + "Compressed TCP/IP"@ + "]"@,
        pid is UncompressedTcpIp ==> pid_text(pid) == " [PID: "@ + "Uncompressed TCP/IP"@ + "]"@,
        pid is SegmentationFragment ==> pid_text(pid) == " [PID: "@ + "Segmentation Fragment"@
            + "]"@,
        pid is LinkQuality ==> pid_text(pid) == " [PID: "@ + "Link Quality"@ + "]"@,
        pid is Appletalk ==> pid_text(pid) == " [PID: "@ + "Appletalk"@ + "]"@,
        pid is AppletalkArp ==> pid_text(pid) == " [PID: "@ + "Appletalk ARP"@ + "]"@,
        pid is Layer3Impl ==> pid_text(pid) == " [PID: "@ + "Layer 3"@ + "]"@,
        pid is Escape ==> pid_text(pid) == " [PID: "@ + "Escape"@ + "]"@,
{
    reveal_strlit(" [PID: ");
}

/// A node's broadcast is reported right behind the node itself: with the node's
/// callsign, its alias, and every station that it lists under its callsign and alias.
pub proof fn law_nodes_reported(f: FrameView, b: netrom::BroadcastView)
    requires
        f.content matches ContentView::UnnumberedInformation { pid, info, .. } && pid
            == ProtocolIdentifier::NetRom && netrom::broadcast_in(info) == Some(b),
        text::ascii_upper(f.destination.callsign) == "NODES"@,
    ensures
        ({
            let events = frame_events(f);
            &&& events.len() == 3
            &&& events[0] == (EventView::StationHeard { callsign: link::address_text(f.source) })
            &&& events[1] matches EventView::NodesBroadcast { from, sender_alias, entries } && from
                == link::address_text(f.source) && sender_alias == b.sender_alias && entries.len()
                == b.entries.len() && forall|i: int|
                0 <= i < entries.len() ==> (#[trigger] entries[i]).callsign
                    == b.entries[i].callsign && entries[i].alias == b.entries[i].alias
            &&& events[2] is Monitor
        }),
{
}

/// What is sent to this station and concerns a link is taken as it came: a request for
/// extended mode and one for parameters with their sender and path, and any other frame
/// whole.
pub proof fn law_own_frames_taken(payload: Seq<u8>, local: AddressView)
    requires
        wire::decoded_header(payload) is Some,
        wire::decoded_header(payload)->0.destination == local,
    ensures
        ({
            let h = wire::decoded_header(payload)->0;
            let control = payload[h.control_offset];
            let taken = payload_step(payload, local).1;
            if control == 0x6F || control == 0x7F {
                taken == Some(InternalView::RawSabme { remote: h.source, route: h.route })
            } else if control == 0xAF || control == 0xBF {
                taken matches Some(InternalView::RawXid { remote, route, payload: rest }) && remote
                    == h.source && route == h.route && rest == payload.skip(h.control_offset + 1)
            } else {
                link::decoded_frame(payload) matches Some(f) ==> (f.destination == local && !(
                f.content is UnnumberedInformation) && !(f.content is UnknownContent) ==> taken
                    == Some(InternalView::Frame(f)))
            }
        }),
{
}

} // verus!
