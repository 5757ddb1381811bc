//! AX.25 addresses and frames, as the `ax25` crate represents, encodes and
//! decodes them.
//!
//! The crate's frame types are plain records with public fields: they are
//! declared here field by field, and nothing is assumed of them. An address
//! keeps its fields private, so what it holds is named by `callsign_of` and
//! `ssid_of`. The contracts of the crate's functions stand in this file.

use ax25::frame::{
    Address, AddressParseError, Ax25Frame, CommandResponse, FrameContent, FrameParseError,
    FrameReject, Information, ProtocolIdentifier, RouteEntry, UnnumberedInformation,
};
use vstd::prelude::*;
use vstd::utf8::*;

use crate::text;

verus! {

// ---------------------------------------------------------------------------
// The crate's types
// ---------------------------------------------------------------------------

/// A callsign and an SSID, both private.
#[verifier::external_type_specification]
#[verifier::external_body]
pub struct ExAddress(ax25::frame::Address);

#[verifier::external_type_specification]
#[verifier::external_body]
pub struct ExFrameParseError(ax25::frame::FrameParseError);

#[verifier::external_type_specification]
#[verifier::external_body]
pub struct ExParseIntError(core::num::ParseIntError);

#[verifier::external_type_specification]
pub struct ExAddressParseError(ax25::frame::AddressParseError);

#[verifier::external_type_specification]
pub struct ExProtocolIdentifier(ax25::frame::ProtocolIdentifier);

#[verifier::external_type_specification]
pub struct ExCommandResponse(ax25::frame::CommandResponse);

#[verifier::external_type_specification]
pub struct ExInformation(ax25::frame::Information);

#[verifier::external_type_specification]
pub struct ExReceiveReady(ax25::frame::ReceiveReady);

#[verifier::external_type_specification]
pub struct ExReceiveNotReady(ax25::frame::ReceiveNotReady);

#[verifier::external_type_specification]
pub struct ExReject(ax25::frame::Reject);

#[verifier::external_type_specification]
pub struct ExSetAsynchronousBalancedMode(ax25::frame::SetAsynchronousBalancedMode);

#[verifier::external_type_specification]
pub struct ExDisconnect(ax25::frame::Disconnect);

#[verifier::external_type_specification]
pub struct ExDisconnectedMode(ax25::frame::DisconnectedMode);

#[verifier::external_type_specification]
pub struct ExUnnumberedAcknowledge(ax25::frame::UnnumberedAcknowledge);

#[verifier::external_type_specification]
pub struct ExFrameReject(ax25::frame::FrameReject);

#[verifier::external_type_specification]
pub struct ExUnnumberedInformation(ax25::frame::UnnumberedInformation);

#[verifier::external_type_specification]
pub struct ExUnknownContent(ax25::frame::UnknownContent);

#[verifier::external_type_specification]
pub struct ExFrameContent(ax25::frame::FrameContent);

#[verifier::external_type_specification]
pub struct ExRouteEntry(ax25::frame::RouteEntry);

#[verifier::external_type_specification]
pub struct ExAx25Frame(ax25::frame::Ax25Frame);

// ---------------------------------------------------------------------------
// Views
// ---------------------------------------------------------------------------

/// What an address holds.
#[verifier::ext_equal]
pub struct AddressView {
    pub callsign: Seq<char>,
    pub ssid: u8,
}

/// What one entry of a digipeater path holds.
#[verifier::ext_equal]
pub struct HopView {
    pub repeater: AddressView,
    pub has_repeated: bool,
}

/// What the content of a frame holds.
#[verifier::ext_equal]
pub enum ContentView {
    Information {
        pid: ProtocolIdentifier,
        info: Seq<u8>,
        receive_sequence: u8,
        send_sequence: u8,
        poll: bool,
    },
    ReceiveReady { receive_sequence: u8, poll_or_final: bool },
    ReceiveNotReady { receive_sequence: u8, poll_or_final: bool },
    Reject { receive_sequence: u8, poll_or_final: bool },
    SetAsynchronousBalancedMode { poll: bool },
    Disconnect { poll: bool },
    DisconnectedMode { final_bit: bool },
    UnnumberedAcknowledge { final_bit: bool },
    FrameReject(FrameReject),
    UnnumberedInformation { pid: ProtocolIdentifier, info: Seq<u8>, poll_or_final: bool },
    UnknownContent { raw: Seq<u8> },
}

/// What a frame holds.
#[verifier::ext_equal]
pub struct FrameView {
    pub source: AddressView,
    pub destination: AddressView,
    pub route: Seq<HopView>,
    pub command_or_response: Option<CommandResponse>,
    pub content: ContentView,
}

/// The callsign of an address.
pub uninterp spec fn callsign_of(a: Address) -> Seq<char>;

/// The SSID of an address.
pub uninterp spec fn ssid_of(a: Address) -> u8;

pub open spec fn address_view(a: Address) -> AddressView {
    AddressView { callsign: callsign_of(a), ssid: ssid_of(a) }
}

pub open spec fn hop_view(e: RouteEntry) -> HopView {
    HopView { repeater: address_view(e.repeater), has_repeated: e.has_repeated }
}

pub open spec fn route_view(route: Seq<RouteEntry>) -> Seq<HopView> {
    route.map_values(|e: RouteEntry| hop_view(e))
}

pub open spec fn content_view(c: FrameContent) -> ContentView {
    match c {
        FrameContent::Information(i) => ContentView::Information {
            pid: i.pid,
            info: i.info@,
            receive_sequence: i.receive_sequence,
            send_sequence: i.send_sequence,
            poll: i.poll,
        },
        FrameContent::ReceiveReady(r) => ContentView::ReceiveReady {
            receive_sequence: r.receive_sequence,
            poll_or_final: r.poll_or_final,
        },
        FrameContent::ReceiveNotReady(r) => ContentView::ReceiveNotReady {
            receive_sequence: r.receive_sequence,
            poll_or_final: r.poll_or_final,
        },
        FrameContent::Reject(r) => ContentView::Reject {
            receive_sequence: r.receive_sequence,
            poll_or_final: r.poll_or_final,
        },
        FrameContent::SetAsynchronousBalancedMode(s) => ContentView::SetAsynchronousBalancedMode {
            poll: s.poll,
        },
        FrameContent::Disconnect(d) => ContentView::Disconnect { poll: d.poll },
        FrameContent::DisconnectedMode(d) => ContentView::DisconnectedMode {
            final_bit: d.final_bit,
        },
        FrameContent::UnnumberedAcknowledge(u) => ContentView::UnnumberedAcknowledge {
            final_bit: u.final_bit,
        },
        FrameContent::FrameReject(f) => ContentView::FrameReject(f),
        FrameContent::UnnumberedInformation(u) => ContentView::UnnumberedInformation {
            pid: u.pid,
            info: u.info@,
            poll_or_final: u.poll_or_final,
        },
        FrameContent::UnknownContent(u) => ContentView::UnknownContent { raw: u.raw@ },
    }
}

pub open spec fn frame_view(f: Ax25Frame) -> FrameView {
    FrameView {
        source: address_view(f.source),
        destination: address_view(f.destination),
        route: route_view(f.route@),
        command_or_response: f.command_or_response,
        content: content_view(f.content),
    }
}

// ---------------------------------------------------------------------------
// Addresses
// ---------------------------------------------------------------------------

/// A letter A-Z or a-z, or a digit.
pub open spec fn ascii_alphanumeric(c: char) -> bool {
    text::is_digit(c) || ('a' <= c && c <= 'z') || ('A' <= c && c <= 'Z')
}

pub open spec fn all_ascii_alphanumeric(s: Seq<char>) -> bool {
    forall|i: int| 0 <= i < s.len() ==> ascii_alphanumeric(#[trigger] s[i])
}

/// Whether a character beyond ASCII is alphanumeric by Unicode's tables.
pub uninterp spec fn unicode_alphanumeric(c: char) -> bool;

pub open spec fn alphanumeric(c: char) -> bool {
    if (c as u32) < 128 {
        ascii_alphanumeric(c)
    } else {
        unicode_alphanumeric(c)
    }
}

pub open spec fn all_alphanumeric(s: Seq<char>) -> bool {
    forall|i: int| 0 <= i < s.len() ==> alphanumeric(#[trigger] s[i])
}

/// The address made of a callsign and an SSID, or why the two make none: the
/// callsign in upper case must have one to six bytes and alphanumeric characters
/// only, and the SSID must be at most 15.
pub open spec fn parts_address(callsign: Seq<char>, ssid: u8) -> Result<
    AddressView,
    AddressParseError,
> {
    let call = text::upper_text(callsign);
    if call.len() == 0 {
        Err(AddressParseError::InvalidFormat)
    } else if encode_utf8(call).len() > 6 {
        Err(AddressParseError::CallsignTooLong)
    } else if !all_alphanumeric(call) {
        Err(AddressParseError::InvalidFormat)
    } else if ssid > 15 {
        Err(AddressParseError::SsidOutOfRange)
    } else {
        Ok(AddressView { callsign: call, ssid })
    }
}

/// The view of what came of making an address.
pub open spec fn parsed_view(r: Result<Address, AddressParseError>) -> Result<
    AddressView,
    AddressParseError,
> {
    match r {
        Ok(a) => Ok(address_view(a)),
        Err(e) => Err(e),
    }
}

/// `Address::from_parts`: what `parts_address` says. Which characters beyond ASCII
/// it takes for alphanumeric is named by `unicode_alphanumeric`.
pub assume_specification[ ax25::frame::Address::from_parts ](callsign: String, ssid: u8) -> (r: Result<Address, AddressParseError>)
    ensures
        parsed_view(r) == parts_address(callsign@, ssid),
        r matches Ok(a) ==> forall|i: int| 0 <= i < callsign_of(a).len() && callsign_of(a)[i] as u32 >= 128 ==> unicode_alphanumeric(#[trigger] callsign_of(a)[i]),
;

/// `Address::callsign`. No address holds a callsign of more than six bytes.
pub assume_specification[ ax25::frame::Address::callsign ](a: &Address) -> (r: &str)
    ensures
        r@ == callsign_of(*a),
        encode_utf8(r@).len() <= 6,
;

/// `Address::ssid`. No address holds an SSID above 15.
pub assume_specification[ ax25::frame::Address::ssid ](a: &Address) -> (r: u8)
    ensures
        r == ssid_of(*a),
        r <= 15,
;

/// The derived `clone` of an address copies both fields.
pub assume_specification[ <ax25::frame::Address as Clone>::clone ](a: &Address) -> (r: Address)
    ensures
        r == *a,
;

/// An address as text: the callsign, and after a hyphen the SSID unless it is 0.
pub open spec fn address_text(a: AddressView) -> Seq<char> {
    if a.ssid == 0 {
        a.callsign
    } else {
        a.callsign + seq!['-'] + text::decimal(a.ssid as nat)
    }
}

pub fn address_string(a: &Address) -> (r: String)
    ensures
        r@ == address_text(address_view(*a)),
{
    let mut out = String::new();
    out.append(a.callsign());
    assert(out@ =~= callsign_of(*a));
    let ssid: u8 = a.ssid();
    if ssid != 0 {
        out.push('-');
        let n = text::decimal_text(ssid as u64);
        out.append(n.as_str());
        assert(out@ =~= callsign_of(*a) + seq!['-'] + text::decimal(ssid as nat));
    }
    out
}

/// Whether two addresses hold the same callsign and SSID.
pub fn same_address(a: &Address, b: &Address) -> (r: bool)
    ensures
        r == (address_view(*a) == address_view(*b)),
{
    a.ssid() == b.ssid() && text::eq_str(a.callsign(), b.callsign())
}

pub fn clone_hop(e: &RouteEntry) -> (r: RouteEntry)
    ensures
        r == *e,
{
    RouteEntry { repeater: e.repeater.clone(), has_repeated: e.has_repeated }
}

pub fn clone_route(route: &Vec<RouteEntry>) -> (r: Vec<RouteEntry>)
    ensures
        r@ == route@,
{
    let mut out: Vec<RouteEntry> = Vec::new();
    let mut i: usize = 0;
    while i < route.len()
        invariant
            i <= route.len(),
            out@ == route@.take(i as int),
        decreases route.len() - i,
    {
        out.push(clone_hop(&route[i]));
        assert(route@.take(i + 1) =~= route@.take(i as int).push(route@[i as int]));
        i += 1;
    }
    assert(route@.take(i as int) =~= route@);
    out
}

// ---------------------------------------------------------------------------
// Frames on the wire
// ---------------------------------------------------------------------------

/// One seven-byte address field: six callsign bytes, padded with spaces and
/// shifted left by one, then the SSID byte with its two flag bits.
pub open spec fn address_field(a: AddressView, high_bit: bool, last: bool) -> Seq<u8> {
    let call = encode_utf8(a.callsign);
    Seq::new(
        7,
        |i: int|
            if i < 6 {
                (if i < call.len() {
                    call[i]
                } else {
                    0x20u8
                }) << 1
            } else {
                (a.ssid << 1) | 0b0110_0000 | (if high_bit {
                    0b1000_0000u8
                } else {
                    0
                }) | (if last {
                    1u8
                } else {
                    0
                })
            },
    )
}

/// The address fields of the first `n` entries of a digipeater path.
pub open spec fn route_fields(route: Seq<HopView>, n: int) -> Seq<u8>
    decreases n,
{
    if n <= 0 {
        Seq::empty()
    } else {
        route_fields(route, n - 1) + address_field(
            route[n - 1].repeater,
            route[n - 1].has_repeated,
            n == route.len(),
        )
    }
}

/// The address fields of a frame: destination, source, path. The flag bits of
/// the first two tell a response from a command.
pub open spec fn address_header(f: FrameView) -> Seq<u8> {
    let response = f.command_or_response == Some(CommandResponse::Response);
    address_field(f.destination, !response, false) + address_field(
        f.source,
        response,
        f.route.len() == 0,
    ) + route_fields(f.route, f.route.len() as int)
}

/// The byte of a protocol identifier.
pub open spec fn pid_byte(p: ProtocolIdentifier) -> u8 {
    match p {
        ProtocolIdentifier::Layer3Impl => 0x10,
        ProtocolIdentifier::X25Plp => 0x01,
        ProtocolIdentifier::CompressedTcpIp => 0x06,
        ProtocolIdentifier::UncompressedTcpIp => 0x07,
        ProtocolIdentifier::SegmentationFragment => 0x08,
        ProtocolIdentifier::TexnetDatagram => 0xC3,
        ProtocolIdentifier::LinkQuality => 0xC4,
        ProtocolIdentifier::Appletalk => 0xCA,
        ProtocolIdentifier::AppletalkArp => 0xCB,
        ProtocolIdentifier::ArpaIp => 0xCC,
        ProtocolIdentifier::ArpaAddress => 0xCD,
        ProtocolIdentifier::Flexnet => 0xCE,
        ProtocolIdentifier::NetRom => 0xCF,
        ProtocolIdentifier::None => 0xF0,
        ProtocolIdentifier::Escape => 0xFF,
        ProtocolIdentifier::Unknown(pid) => pid,
    }
}

/// `bit` where `on` is set.
pub open spec fn flag(on: bool, bit: u8) -> u8 {
    if on {
        bit
    } else {
        0
    }
}

/// A control byte: what tells its kind, the low three bits of a sequence number on
/// top, and the poll or final bit.
pub open spec fn control_byte(kind: u8, receive_sequence: u8, poll_or_final: bool) -> u8 {
    kind | ((receive_sequence & 7) << 5) | flag(poll_or_final, 0x10)
}

/// The bytes behind the address fields: a control byte, and what belongs to it.
pub open spec fn content_bytes(c: ContentView) -> Seq<u8> {
    match c {
        ContentView::Information { pid, info, receive_sequence, send_sequence, poll } => seq![
            control_byte((send_sequence & 7) << 1, receive_sequence, poll),
            pid_byte(pid),
        ] + info,
        ContentView::ReceiveReady { receive_sequence, poll_or_final } => seq![
            control_byte(0x01, receive_sequence, poll_or_final),
        ],
        ContentView::ReceiveNotReady { receive_sequence, poll_or_final } => seq![
            control_byte(0x05, receive_sequence, poll_or_final),
        ],
        ContentView::Reject { receive_sequence, poll_or_final } => seq![
            control_byte(0x09, receive_sequence, poll_or_final),
        ],
        ContentView::SetAsynchronousBalancedMode { poll } => seq![0x2F | flag(poll, 0x10)],
        ContentView::Disconnect { poll } => seq![0x43 | flag(poll, 0x10)],
        ContentView::DisconnectedMode { final_bit } => seq![0x0F | flag(final_bit, 0x10)],
        ContentView::UnnumberedAcknowledge { final_bit } => seq![0x63 | flag(final_bit, 0x10)],
        ContentView::FrameReject(f) => seq![
            0x87 | flag(f.final_bit, 0x10),
            flag(f.z, 8) | flag(f.y, 4) | flag(f.x, 2) | flag(f.w, 1),
            control_byte(
                (f.send_sequence & 7) << 1,
                f.receive_sequence,
                f.command_response == CommandResponse::Response,
            ),
            f.rejected_control_field_raw,
        ],
        ContentView::UnnumberedInformation { pid, info, poll_or_final } => seq![
            0x03 | flag(poll_or_final, 0x10),
            pid_byte(pid),
        ] + info,
        ContentView::UnknownContent { raw } => raw,
    }
}

/// The frame that `Ax25Frame::from_bytes` finds in `bytes`, if it finds one.
pub uninterp spec fn decoded_frame(bytes: Seq<u8>) -> Option<FrameView>;

/// An address that its own field gives back: ASCII letters and digits.
pub open spec fn plain_address(a: AddressView) -> bool {
    1 <= a.callsign.len() <= 6 && all_ascii_alphanumeric(a.callsign) && a.ssid <= 15
}

/// Content that its own bytes give back: sequence numbers below eight, and no
/// protocol identifier but 0xF0 (no layer three) in front of the information.
pub open spec fn plain_content(c: ContentView) -> bool {
    match c {
        ContentView::Information { pid, receive_sequence, send_sequence, .. } => pid
            == ProtocolIdentifier::None && receive_sequence < 8 && send_sequence < 8,
        ContentView::ReceiveReady { receive_sequence, .. } => receive_sequence < 8,
        ContentView::ReceiveNotReady { receive_sequence, .. } => receive_sequence < 8,
        ContentView::Reject { receive_sequence, .. } => receive_sequence < 8,
        ContentView::FrameReject(f) => f.receive_sequence < 8 && f.send_sequence < 8,
        ContentView::UnnumberedInformation { pid, .. } => pid == ProtocolIdentifier::None,
        ContentView::UnknownContent { .. } => false,
        _ => true,
    }
}

pub open spec fn plain_frame(f: FrameView) -> bool {
    &&& plain_address(f.source)
    &&& plain_address(f.destination)
    &&& forall|i: int| 0 <= i < f.route.len() ==> plain_address(#[trigger] f.route[i].repeater)
    &&& f.command_or_response is Some
    &&& plain_content(f.content)
}

/// `Ax25Frame::to_bytes`: the address fields, then the content as `content_bytes` says.
/// `from_bytes` gives a plain frame back.
pub assume_specification[ ax25::frame::Ax25Frame::to_bytes ](f: &Ax25Frame) -> (r: Vec<u8>)
    ensures
        r@ == address_header(frame_view(*f)) + content_bytes(frame_view(*f).content),
        plain_frame(frame_view(*f)) ==> decoded_frame(r@) == Some(frame_view(*f)),
;

/// `Ax25Frame::from_bytes`. Its result is named by `decoded_frame`.
pub assume_specification[ ax25::frame::Ax25Frame::from_bytes ](bytes: &[u8]) -> (r: Result<
    Ax25Frame,
    FrameParseError,
>)
    ensures
        match r {
            Ok(f) => decoded_frame(bytes@) == Some(frame_view(f)),
            Err(_) => decoded_frame(bytes@) is None,
        },
;

/// `Ax25Frame::new_simple_ui_frame`: a command without a path that carries `info`
/// as unnumbered information, with no layer-three protocol and no poll bit.
pub assume_specification[ ax25::frame::Ax25Frame::new_simple_ui_frame ](
    source: Address,
    destination: Address,
    info: Vec<u8>,
) -> (r: Ax25Frame)
    ensures
        r.source == source,
        r.destination == destination,
        r.route@ == Seq::<RouteEntry>::empty(),
        r.command_or_response == Some(CommandResponse::Command),
        r.content == FrameContent::UnnumberedInformation(
            (UnnumberedInformation {
                pid: ProtocolIdentifier::None,
                info,
                poll_or_final: false,
            }),
        ),
;

pub proof fn lemma_route_fields_len(route: Seq<HopView>, n: int)
    requires
        0 <= n <= route.len(),
    ensures
        route_fields(route, n).len() == 7 * n,
    decreases n,
{
    if n > 0 {
        lemma_route_fields_len(route, n - 1);
    }
}

} // verus!
