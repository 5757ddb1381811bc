//! Address fields and control bytes, read and written without the help of the
//! `ax25` crate's frame decoder.
//!
//! The crate cannot decode SABME (extended-mode connect) and XID (parameter
//! negotiation) at all. Walking the address fields here recovers who sent such a
//! frame and by which path, so that it can be declined instead of dropped.

use ax25::frame::{
    Address, AddressParseError, Ax25Frame, CommandResponse, DisconnectedMode, FrameContent, RouteEntry,
};
use vstd::prelude::*;
use vstd::utf8::*;

use crate::link::{self, AddressView, ContentView, FrameView, HopView};
use crate::text;

verus! {

/// SABME's control byte with the poll/final bit masked out.
pub const CTRL_SABME: u8 = 0b0110_1111;

/// XID's control byte with the poll/final bit masked out.
pub const CTRL_XID: u8 = 0b1010_1111;

/// `control` is SABME, its poll/final bit (0x10) aside.
pub fn is_sabme(control: u8) -> (r: bool)
    ensures
        r == (control == 0x6F || control == 0x7F),
{
    assert((control & 0xEF == 0x6F) == (control == 0x6F || control == 0x7F)) by (bit_vector);
    control & 0xEF == CTRL_SABME
}

/// `control` is XID, its poll/final bit (0x10) aside.
pub fn is_xid(control: u8) -> (r: bool)
    ensures
        r == (control == 0xAF || control == 0xBF),
{
    assert((control & 0xEF == 0xAF) == (control == 0xAF || control == 0xBF)) by (bit_vector);
    control & 0xEF == CTRL_XID
}

/// Who a frame is from and to, and where its control byte stands.
pub struct RawHeader {
    pub destination: Address,
    pub source: Address,
    pub route: Vec<RouteEntry>,
    pub command_or_response: Option<CommandResponse>,
    pub control_offset: usize,
}

/// What a `RawHeader` holds.
#[verifier::ext_equal]
pub struct HeaderView {
    pub destination: AddressView,
    pub source: AddressView,
    pub route: Seq<HopView>,
    pub command_or_response: Option<CommandResponse>,
    pub control_offset: int,
}

impl View for RawHeader {
    type V = HeaderView;

    open spec fn view(&self) -> HeaderView {
        HeaderView {
            destination: link::address_view(self.destination),
            source: link::address_view(self.source),
            route: link::route_view(self.route@),
            command_or_response: self.command_or_response,
            control_offset: self.control_offset as int,
        }
    }
}

// ---------------------------------------------------------------------------
// Address fields
// ---------------------------------------------------------------------------

/// The six callsign characters of an address field, padding included.
pub open spec fn field_chars(field: Seq<u8>) -> Seq<char> {
    Seq::new(6, |i: int| (field[i] >> 1) as char)
}

/// `s` without its trailing spaces.
pub open spec fn unpadded(s: Seq<char>) -> Seq<char>
    decreases s.len(),
{
    if s.len() > 0 && s.last() == ' ' {
        unpadded(s.drop_last())
    } else {
        s
    }
}

/// The address and the high bit of one seven-byte address field, where its
/// callsign makes an address.
pub open spec fn decoded_field(field: Seq<u8>) -> Option<(AddressView, bool)> {
    if field.len() != 7 {
        None
    } else {
        match link::parts_address(unpadded(field_chars(field)), (field[6] >> 1) & 0x0F) {
            Ok(a) => Some((a, field[6] >= 128)),
            Err(_) => None,
        }
    }
}

pub fn decode_address_field(bytes: &[u8]) -> (r: Option<(Address, bool)>)
    ensures
        match r {
            Some((a, high)) => decoded_field(bytes@) == Some((link::address_view(a), high)),
            None => decoded_field(bytes@) is None,
        },
{
    if bytes.len() != 7 {
        return None;
    }
    let mut chars: Vec<char> = Vec::new();
    let mut i: usize = 0;
    while i < 6
        invariant
            i <= 6,
            bytes@.len() == 7,
            chars@ == field_chars(bytes@).take(i as int),
        decreases 6 - i,
    {
        chars.push((bytes[i] >> 1) as char);
        assert(field_chars(bytes@).take(i + 1) =~= field_chars(bytes@).take(i as int).push(
            field_chars(bytes@)[i as int],
        ));
        i += 1;
    }
    assert(field_chars(bytes@).take(6) =~= field_chars(bytes@));
    let mut n: usize = 6;
    while n > 0 && chars[n - 1] == ' '
        invariant
            n <= 6,
            chars@ == field_chars(bytes@),
            unpadded(chars@) == unpadded(chars@.take(n as int)),
        decreases n,
    {
        assert(chars@.take(n as int).drop_last() =~= chars@.take(n - 1));
        n -= 1;
    }
    assert(unpadded(chars@) == chars@.take(n as int));
    let callsign = text::substring(&chars, 0, n);
    assert(chars@.subrange(0, n as int) =~= chars@.take(n as int));
    let ssid: u8 = (bytes[6] >> 1) & 0x0F;
    let b: u8 = bytes[6];
    assert((b & 0b1000_0000 > 0) == (b >= 128)) by (bit_vector);
    match Address::from_parts(callsign, ssid) {
        Ok(a) => Some((a, bytes[6] & 0b1000_0000 > 0)),
        Err(_) => None,
    }
}

/// The address in a seven-byte callsign field, its high bit disregarded.
pub fn decode_call_field(bytes: &[u8]) -> (r: Option<Address>)
    ensures
        match r {
            Some(a) => decoded_field(bytes@) matches Some((v, _)) && v == link::address_view(a),
            None => decoded_field(bytes@) is None,
        },
{
    match decode_address_field(bytes) {
        Some((a, _)) => Some(a),
        None => None,
    }
}

/// One seven-byte address field.
pub fn encode_address(addr: &Address, high_bit: bool, final_in_address: bool) -> (out: [u8; 7])
    ensures
        out@ == link::address_field(link::address_view(*addr), high_bit, final_in_address),
{
    let mut out: [u8; 7] = [0, 0, 0, 0, 0, 0, 0];
    let call = addr.callsign().as_bytes();
    let ghost field = link::address_field(link::address_view(*addr), high_bit, final_in_address);
    let mut i: usize = 0;
    while i < 6
        invariant
            i <= 6,
            call@ == encode_utf8(link::address_view(*addr).callsign),
            field == link::address_field(link::address_view(*addr), high_bit, final_in_address),
            forall|j: int| 0 <= j < i ==> out@[j] == field[j],
        decreases 6 - i,
    {
        let c: u8 = if i < call.len() {
            call[i]
        } else {
            0x20
        };
        out[i] = c << 1;
        i += 1;
    }
    let high: u8 = if high_bit {
        0b1000_0000
    } else {
        0
    };
    let low: u8 = if final_in_address {
        1
    } else {
        0
    };
    out[6] = (addr.ssid() << 1) | 0b0110_0000 | high | low;
    assert(out@ =~= field);
    out
}

// ---------------------------------------------------------------------------
// Headers
// ---------------------------------------------------------------------------

/// The position of the first byte that is not zero, or the length.
pub open spec fn first_nonzero(bytes: Seq<u8>) -> int
    decreases bytes.len(),
{
    if bytes.len() == 0 || bytes[0] != 0 {
        0
    } else {
        1 + first_nonzero(bytes.skip(1))
    }
}

/// The position of the first odd byte, or the length: the last byte of the
/// address fields.
pub open spec fn first_odd(bytes: Seq<u8>) -> int
    decreases bytes.len(),
{
    if bytes.len() == 0 || bytes[0] % 2 == 1 {
        0
    } else {
        1 + first_odd(bytes.skip(1))
    }
}

proof fn lemma_first_nonzero(bytes: Seq<u8>, k: int)
    requires
        0 <= k <= bytes.len(),
        forall|i: int| 0 <= i < k ==> bytes[i] == 0,
        k < bytes.len() ==> bytes[k] != 0,
    ensures
        first_nonzero(bytes) == k,
    decreases k,
{
    if k > 0 {
        lemma_first_nonzero(bytes.skip(1), k - 1);
    }
}

pub proof fn lemma_first_odd(bytes: Seq<u8>, k: int)
    requires
        0 <= k <= bytes.len(),
        forall|i: int| 0 <= i < k ==> #[trigger] bytes[i] % 2 == 0,
        k < bytes.len() ==> bytes[k] % 2 == 1,
    ensures
        first_odd(bytes) == k,
    decreases k,
{
    if k > 0 {
        assert(bytes[0] % 2 == 0);
        assert forall|i: int| 0 <= i < k - 1 implies #[trigger] bytes.skip(1)[i] % 2 == 0 by {
            assert(bytes[i + 1] % 2 == 0);
        }
        lemma_first_odd(bytes.skip(1), k - 1);
    }
}

/// The digipeater path in `n` address fields that begin at `start`, where each of
/// them holds an address.
pub open spec fn decoded_route(bytes: Seq<u8>, start: int, n: int) -> Option<Seq<HopView>>
    decreases n,
{
    if n <= 0 {
        Some(Seq::empty())
    } else {
        match (
            decoded_route(bytes, start, n - 1),
            decoded_field(bytes.subrange(start + 7 * (n - 1), start + 7 * n)),
        ) {
            (Some(route), Some((repeater, has_repeated))) => Some(
                route.push(HopView { repeater, has_repeated }),
            ),
            _ => None,
        }
    }
}

/// The flag bits of the two addresses tell a command from a response.
pub open spec fn command_response(dest_high: bool, src_high: bool) -> Option<CommandResponse> {
    if dest_high && !src_high {
        Some(CommandResponse::Command)
    } else if !dest_high && src_high {
        Some(CommandResponse::Response)
    } else {
        None
    }
}

/// The header of a frame: address fields from the first byte that is not zero to
/// the first odd byte, at least two of them and each with an address, and at least
/// one byte behind them.
pub open spec fn decoded_header(bytes: Seq<u8>) -> Option<HeaderView> {
    let start = first_nonzero(bytes);
    let end = first_odd(bytes);
    if end + 1 >= bytes.len() || end - start + 1 < 14 {
        None
    } else {
        let hops = (end + 1 - start - 14) / 7;
        match (
            decoded_field(bytes.subrange(start, start + 7)),
            decoded_field(bytes.subrange(start + 7, start + 14)),
            decoded_route(bytes, start + 14, hops),
        ) {
            (Some((destination, dest_high)), Some((source, src_high)), Some(route)) => Some(
                HeaderView {
                    destination,
                    source,
                    route,
                    command_or_response: command_response(dest_high, src_high),
                    control_offset: end + 1,
                },
            ),
            _ => None,
        }
    }
}

/// The position of the first odd byte of `bytes`.
pub(crate) fn find_odd(bytes: &[u8]) -> (k: usize)
    ensures
        k == first_odd(bytes@),
        k <= bytes@.len(),
        forall|i: int| 0 <= i < k ==> #[trigger] bytes@[i] % 2 == 0,
        k < bytes@.len() ==> bytes@[k as int] % 2 == 1,
{
    let mut k: usize = 0;
    while k < bytes.len() && bytes[k] % 2 == 0
        invariant
            k <= bytes.len(),
            forall|i: int| 0 <= i < k ==> #[trigger] bytes@[i] % 2 == 0,
        decreases bytes.len() - k,
    {
        k += 1;
    }
    proof {
        lemma_first_odd(bytes@, k as int);
    }
    k
}

#[verifier::loop_isolation(false)]
pub fn parse_header(bytes: &[u8]) -> (r: Option<RawHeader>)
    ensures
        match r {
            Some(h) => decoded_header(bytes@) == Some(h@) && h.control_offset < bytes@.len(),
            None => decoded_header(bytes@) is None,
        },
{
    let mut start: usize = 0;
    while start < bytes.len() && bytes[start] == 0
        invariant
            start <= bytes.len(),
            forall|i: int| 0 <= i < start ==> bytes@[i] == 0,
        decreases bytes.len() - start,
    {
        start += 1;
    }
    proof {
        lemma_first_nonzero(bytes@, start as int);
    }
    let end: usize = find_odd(bytes);
    assert(start <= end) by {
        if end < start {
            assert(bytes@[end as int] == 0);
        }
    }
    if end >= bytes.len() || end + 1 >= bytes.len() || end - start + 1 < 14 {
        return None;
    }
    let (destination, dest_high) = match decode_address_field(&bytes[start..start + 7]) {
        Some(d) => d,
        None => {
            return None;
        },
    };
    let (source, src_high) = match decode_address_field(&bytes[start + 7..start + 14]) {
        Some(s) => s,
        None => {
            return None;
        },
    };
    let hops: usize = (end + 1 - start - 14) / 7;
    let mut route: Vec<RouteEntry> = Vec::new();
    let mut i: usize = 0;
    assert(link::route_view(route@) =~= Seq::<HopView>::empty());
    while i < hops
        invariant
            i <= hops,
            hops == (end + 1 - start - 14) / 7,
            14 <= end - start + 1,
            end + 1 < bytes@.len(),
            decoded_route(bytes@, start + 14, i as int) == Some(link::route_view(route@)),
        decreases hops - i,
    {
        assert(start + 14 + 7 * i + 7 <= end + 1);
        let at: usize = start + 14 + 7 * i;
        match decode_address_field(&bytes[at..at + 7]) {
            Some((repeater, has_repeated)) => {
                let ghost before = route@;
                route.push(RouteEntry { repeater, has_repeated });
                assert(link::route_view(route@) =~= link::route_view(before).push(link::hop_view(route@.last())));
            },
            None => {
                proof {
                    assert(decoded_route(bytes@, start + 14, i + 1) is None);
                    lemma_route_none(bytes@, start + 14, i + 1, hops as int);
                }
                return None;
            },
        }
        i += 1;
    }
    let command_or_response = if dest_high && !src_high {
        Some(CommandResponse::Command)
    } else if !dest_high && src_high {
        Some(CommandResponse::Response)
    } else {
        None
    };
    Some(RawHeader { destination, source, route, command_or_response, control_offset: end + 1 })
}

proof fn lemma_route_none(bytes: Seq<u8>, start: int, k: int, n: int)
    requires
        k <= n,
        decoded_route(bytes, start, k) is None,
    ensures
        decoded_route(bytes, start, n) is None,
    decreases n - k,
{
    if k < n {
        lemma_route_none(bytes, start, k, n - 1);
    }
}

/// The byte at the header's control offset, where `bytes` reaches that far.
pub fn control_byte(bytes: &[u8], header: &RawHeader) -> (r: Option<u8>)
    ensures
        r == (if header.control_offset < bytes@.len() {
            Some(bytes@[header.control_offset as int])
        } else {
            None
        }),
{
    if header.control_offset < bytes.len() {
        Some(bytes[header.control_offset])
    } else {
        None
    }
}

// ---------------------------------------------------------------------------
// Replies
// ---------------------------------------------------------------------------

/// The path back: the hops in reverse order, none of them marked as repeated.
pub open spec fn reversed_route(route: Seq<HopView>) -> Seq<HopView> {
    Seq::new(
        route.len(),
        |i: int| HopView { repeater: route[route.len() - 1 - i].repeater, has_repeated: false },
    )
}

pub fn reverse_route(route: &Vec<RouteEntry>) -> (r: Vec<RouteEntry>)
    ensures
        link::route_view(r@) == reversed_route(link::route_view(route@)),
{
    let mut out: Vec<RouteEntry> = Vec::new();
    let n: usize = route.len();
    let mut i: usize = 0;
    while i < n
        invariant
            i <= n,
            n == route@.len(),
            out@.len() == i,
            forall|j: int|
                0 <= j < i ==> link::hop_view(#[trigger] out@[j]) == reversed_route(link::route_view(route@))[j],
        decreases n - i,
    {
        out.push(
            RouteEntry { repeater: route[n - 1 - i].repeater.clone(), has_repeated: false },
        );
        i += 1;
    }
    assert(link::route_view(out@) =~= reversed_route(link::route_view(route@)));
    out
}

/// A DM (disconnected mode) response.
pub open spec fn dm_view(
    local: AddressView,
    remote: AddressView,
    route: Seq<HopView>,
    final_bit: bool,
) -> FrameView {
    FrameView {
        source: local,
        destination: remote,
        route,
        command_or_response: Some(CommandResponse::Response),
        content: ContentView::DisconnectedMode { final_bit },
    }
}

pub fn build_dm(local: &Address, remote: &Address, route: Vec<RouteEntry>, final_bit: bool) -> (r:
    Ax25Frame)
    ensures
        link::frame_view(r) == dm_view(
            link::address_view(*local),
            link::address_view(*remote),
            link::route_view(route@),
            final_bit,
        ),
{
    Ax25Frame {
        source: local.clone(),
        destination: remote.clone(),
        route,
        command_or_response: Some(CommandResponse::Response),
        content: FrameContent::DisconnectedMode(DisconnectedMode { final_bit }),
    }
}

// ---------------------------------------------------------------------------
// Laws
// ---------------------------------------------------------------------------

/// Going back by the way back is going the way there: reversing a path twice
/// gives its hops in their order, with every mark cleared.
pub proof fn law_reversed_twice(route: Seq<HopView>)
    ensures
        reversed_route(reversed_route(route)) == Seq::new(
            route.len(),
            |i: int| HopView { repeater: route[i].repeater, has_repeated: false },
        ),
{
    assert(reversed_route(reversed_route(route)) =~= Seq::new(
        route.len(),
        |i: int| HopView { repeater: route[i].repeater, has_repeated: false },
    ));
}

/// An address that reads as it was written: one to six upper-case ASCII letters
/// and digits.
pub open spec fn settled_address(a: AddressView) -> bool {
    link::plain_address(a) && text::ascii_upper(a.callsign) == a.callsign
}

/// Such an address is the one that its own callsign and SSID make.
pub proof fn lemma_settled(a: AddressView)
    requires
        settled_address(a),
    ensures
        is_ascii_chars(a.callsign),
        link::parts_address(a.callsign, a.ssid) == Ok::<AddressView, AddressParseError>(a),
{
    assert forall|i: int| 0 <= i < a.callsign.len() implies '\0' <= #[trigger] a.callsign[i]
        <= '\u{7f}' by {
        assert(link::ascii_alphanumeric(a.callsign[i]));
    }
    is_ascii_chars_encode_utf8(a.callsign);
    assert(link::all_alphanumeric(a.callsign)) by {
        assert forall|i: int| 0 <= i < a.callsign.len() implies link::alphanumeric(
            #[trigger] a.callsign[i],
        ) by {
            assert(link::ascii_alphanumeric(a.callsign[i]));
        }
    }
}

proof fn lemma_unpadded(s: Seq<char>, n: int)
    requires
        0 <= n <= s.len(),
        n > 0 ==> s[n - 1] != ' ',
        forall|i: int| n <= i < s.len() ==> s[i] == ' ',
    ensures
        unpadded(s) == s.take(n),
    decreases s.len(),
{
    if s.len() > n {
        lemma_unpadded(s.drop_last(), n);
        assert(s.drop_last().take(n) =~= s.take(n));
    } else {
        assert(s.take(n) =~= s);
    }
}

/// Reading an address field gives back the address and the flag that were
/// written into it.
pub proof fn law_field_round_trip(a: AddressView, high_bit: bool, last: bool)
    requires
        settled_address(a),
    ensures
        decoded_field(link::address_field(a, high_bit, last)) == Some((a, high_bit)),
{
    let field = link::address_field(a, high_bit, last);
    let n = a.callsign.len() as int;
    lemma_settled(a);
    is_ascii_chars_encode_utf8(a.callsign);
    let chars = field_chars(field);
    assert forall|i: int| 0 <= i < 6 implies chars[i] == (if i < n {
        a.callsign[i]
    } else {
        ' '
    }) by {
        let b: u8 = if i < n {
            encode_utf8(a.callsign)[i]
        } else {
            0x20
        };
        if i < n {
            assert(link::ascii_alphanumeric(a.callsign[i]));
            assert(a.callsign[i] as u8 == b);
        }
        assert(b < 128 ==> (b << 1) >> 1 == b) by (bit_vector);
    }
    assert(link::ascii_alphanumeric(a.callsign[n - 1]));
    lemma_unpadded(chars, n);
    assert(chars.take(n) =~= a.callsign);
    let ssid = a.ssid;
    let h: u8 = if high_bit {
        0b1000_0000
    } else {
        0
    };
    let l: u8 = if last {
        1
    } else {
        0
    };
    let b = (ssid << 1) | 0b0110_0000 | h | l;
    assert(((b >> 1) & 0x0F == ssid) && (b >= 128 <==> h == 128)) by (bit_vector)
        requires
            ssid <= 15,
            h == 0 || h == 128,
            l == 0 || l == 1,
            b == (ssid << 1) | 0b0110_0000 | h | l,
    ;
}

/// The bytes of an address field are even, but for the last byte of the last one.
proof fn lemma_field_parity(a: AddressView, high_bit: bool, last: bool, i: int)
    requires
        0 <= i < 7,
    ensures
        (link::address_field(a, high_bit, last)[i] % 2 == 1) == (i == 6 && last),
{
    let field = link::address_field(a, high_bit, last);
    if i < 6 {
        let call = encode_utf8(a.callsign);
        let c: u8 = if i < call.len() {
            call[i]
        } else {
            0x20
        };
        assert((c << 1) % 2 == 0) by (bit_vector);
    } else {
        let ssid = a.ssid;
        let h: u8 = if high_bit {
            0b1000_0000
        } else {
            0
        };
        let l: u8 = if last {
            1
        } else {
            0
        };
        assert(((ssid << 1) | 0b0110_0000 | h | l) % 2 == l) by (bit_vector)
            requires
                h == 0 || h == 128,
                l == 0 || l == 1,
        ;
    }
}

proof fn lemma_route_fields_parity(route: Seq<HopView>, n: int, i: int)
    requires
        0 <= n <= route.len(),
        0 <= i < 7 * n,
    ensures
        link::route_fields(route, n).len() == 7 * n,
        (link::route_fields(route, n)[i] % 2 == 1) == (i == 7 * n - 1 && n == route.len()),
    decreases n,
{
    link::lemma_route_fields_len(route, n - 1);
    if i < 7 * (n - 1) {
        lemma_route_fields_parity(route, n - 1, i);
    } else {
        lemma_field_parity(
            route[n - 1].repeater,
            route[n - 1].has_repeated,
            n == route.len(),
            i - 7 * (n - 1),
        );
    }
}

/// In `a frame's address fields ++ rest` the first odd byte closes the address
/// fields.
pub proof fn lemma_header_end(f: FrameView, rest: Seq<u8>)
    ensures
        link::address_header(f).len() == 14 + 7 * f.route.len(),
        first_odd(link::address_header(f) + rest) == link::address_header(f).len() - 1,
        (link::address_header(f) + rest)[link::address_header(f).len() - 1] % 2 == 1,
{
    let h = link::address_header(f);
    let n = f.route.len() as int;
    link::lemma_route_fields_len(f.route, n);
    let response = f.command_or_response == Some(CommandResponse::Response);
    assert forall|i: int| 0 <= i < h.len() implies (#[trigger] (h + rest)[i] % 2 == 1) == (i
        == h.len() - 1) by {
        if i < 7 {
            lemma_field_parity(f.destination, !response, false, i);
        } else if i < 14 {
            lemma_field_parity(f.source, response, n == 0, i - 7);
        } else {
            lemma_route_fields_parity(f.route, n, i - 14);
        }
    }
    lemma_first_odd(h + rest, h.len() - 1);
}

proof fn lemma_decoded_route(f: FrameView, rest: Seq<u8>, k: int)
    requires
        0 <= k <= f.route.len(),
        forall|i: int|
            0 <= i < f.route.len() ==> settled_address(#[trigger] f.route[i].repeater),
    ensures
        decoded_route(link::address_header(f) + rest, 14, k) == Some(f.route.take(k)),
    decreases k,
{
    let bytes = link::address_header(f) + rest;
    if k > 0 {
        lemma_decoded_route(f, rest, k - 1);
        let hop = f.route[k - 1];
        assert(settled_address(hop.repeater));
        law_field_round_trip(hop.repeater, hop.has_repeated, k == f.route.len());
        lemma_header_end(f, rest);
        lemma_route_slice(f.route, f.route.len() as int, k);
        assert(bytes.subrange(14 + 7 * (k - 1), 14 + 7 * k) =~= link::route_fields(
            f.route,
            f.route.len() as int,
        ).subrange(7 * (k - 1), 7 * k));
        assert(f.route.take(k) =~= f.route.take(k - 1).push(hop));
    } else {
        assert(f.route.take(0) =~= Seq::<HopView>::empty());
    }
}

proof fn lemma_route_slice(route: Seq<HopView>, n: int, k: int)
    requires
        0 < k <= n <= route.len(),
    ensures
        link::route_fields(route, n).len() == 7 * n,
        link::route_fields(route, n).subrange(7 * (k - 1), 7 * k) == link::address_field(
            route[k - 1].repeater,
            route[k - 1].has_repeated,
            k == route.len(),
        ),
    decreases n,
{
    link::lemma_route_fields_len(route, n);
    link::lemma_route_fields_len(route, n - 1);
    if k == n {
        assert(link::route_fields(route, n).subrange(7 * (k - 1), 7 * k) =~= link::address_field(
            route[k - 1].repeater,
            route[k - 1].has_repeated,
            k == route.len(),
        ));
    } else {
        lemma_route_slice(route, n - 1, k);
        assert(link::route_fields(route, n).subrange(7 * (k - 1), 7 * k) =~= link::route_fields(
            route,
            n - 1,
        ).subrange(7 * (k - 1), 7 * k));
    }
}

/// The header of any frame is recovered from its bytes, whatever stands behind
/// the address fields: the addresses, the path, command or response, and where
/// the control byte is.
pub proof fn law_header_round_trip(f: FrameView, rest: Seq<u8>)
    requires
        settled_address(f.source),
        settled_address(f.destination),
        forall|i: int|
            0 <= i < f.route.len() ==> settled_address(#[trigger] f.route[i].repeater),
        f.command_or_response is Some,
        rest.len() > 0,
    ensures
        decoded_header(link::address_header(f) + rest) == Some(
            HeaderView {
                destination: f.destination,
                source: f.source,
                route: f.route,
                command_or_response: f.command_or_response,
                control_offset: link::address_header(f).len() as int,
            },
        ),
{
    let h = link::address_header(f);
    let bytes = h + rest;
    let n = f.route.len() as int;
    let response = f.command_or_response == Some(CommandResponse::Response);
    lemma_header_end(f, rest);
    law_field_round_trip(f.destination, !response, false);
    law_field_round_trip(f.source, response, n == 0);
    assert(bytes[0] != 0) by {
        let c = f.destination.callsign[0];
        assert(link::ascii_alphanumeric(c));
        lemma_settled(f.destination);
        is_ascii_chars_encode_utf8(f.destination.callsign);
        let b: u8 = c as u8;
        assert(b << 1 != 0) by (bit_vector)
            requires
                0 < b < 128,
        ;
        assert(bytes[0] == link::address_field(f.destination, !response, false)[0]);
    }
    lemma_first_nonzero(bytes, 0);
    assert(bytes.subrange(0, 7) =~= link::address_field(f.destination, !response, false));
    assert(bytes.subrange(7, 14) =~= link::address_field(f.source, response, n == 0));
    lemma_decoded_route(f, rest, n);
    assert(f.route.take(n) =~= f.route);
}

/// Where an address stands in its field: its letters and digits in the first six bytes,
/// blanks behind them, each twice its value; in the last byte twice the SSID, with 96,
/// the high bit and the mark of the last field.
pub proof fn law_field_layout(a: AddressView, high_bit: bool, last: bool)
    requires
        settled_address(a),
    ensures
        ({
            let field = link::address_field(a, high_bit, last);
            &&& field.len() == 7
            &&& forall|i: int|
                0 <= i < a.callsign.len() ==> #[trigger] field[i] == 2 * (a.callsign[i] as u32)
            &&& forall|i: int| a.callsign.len() <= i < 6 ==> #[trigger] field[i] == 0x40
            &&& field[6] == 2 * a.ssid + 0x60 + (if high_bit {
                0x80int
            } else {
                0
            }) + (if last {
                1int
            } else {
                0
            })
        }),
{
    let field = link::address_field(a, high_bit, last);
    let call = encode_utf8(a.callsign);
    lemma_settled(a);
    is_ascii_chars_encode_utf8(a.callsign);
    assert(0x20u8 << 1 == 0x40u8) by (bit_vector);
    assert forall|i: int| 0 <= i < a.callsign.len() implies #[trigger] field[i] == 2 * (
    a.callsign[i] as u32) by {
        let b = call[i];
        assert(b == a.callsign[i] as u32);
        assert(b < 128);
        assert(b << 1 == 2 * b) by (bit_vector)
            requires
                b < 128,
        ;
    }
    let s = a.ssid;
    let h = if high_bit {
        0b1000_0000u8
    } else {
        0u8
    };
    let l = if last {
        1u8
    } else {
        0u8
    };
    assert((s << 1) | 0b0110_0000u8 | h | l == 2 * s + 0x60 + h + l) by (bit_vector)
        requires
            s <= 15,
            h == 0 || h == 0b1000_0000u8,
            l == 0 || l == 1,
    ;
}

} // verus!
