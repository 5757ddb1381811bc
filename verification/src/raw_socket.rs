//! Callsigns in the kernel's address format, and the `axports` file.

use vstd::prelude::*;

use crate::link::{self, AddressView};
use crate::text;
use crate::wire;

verus! {

/// How many digipeaters a kernel address holds.
pub const AX25_MAX_DIGIS: usize = 8;

#[derive(Debug, PartialEq, Eq)]
pub enum Ax25Error {
    InvalidCallsign(String),
    InvalidSsid(u32),
}

impl Ax25Error {
    /// The error as text.
    pub fn message(&self) -> (r: String)
        ensures
            r@ == (match *self {
                Ax25Error::InvalidCallsign(call) => "invalid callsign '"@ + call@
                    + "': must be 1-6 alphanumeric characters"@,
                Ax25Error::InvalidSsid(n) => "invalid SSID "@ + text::decimal(n as nat)
                    + ": must be 0-15"@,
            }),
    {
        match self {
            Ax25Error::InvalidCallsign(call) => {
                let mut m = text::owned("invalid callsign '");
                m.append(call.as_str());
                m.append("': must be 1-6 alphanumeric characters");
                m
            },
            Ax25Error::InvalidSsid(n) => {
                let mut m = text::owned("invalid SSID ");
                let digits = text::decimal_text(*n as u64);
                m.append(digits.as_str());
                m.append(": must be 0-15");
                m
            },
        }
    }
}

/// A callsign as the kernel has it: six bytes and an SSID byte, each shifted left
/// by one.
#[derive(Clone, Copy, Debug)]
pub struct Ax25Address {
    pub ax25_call: [u8; 7],
}

/// The callsign and the SSID that `input` names: what stands before and behind its
/// first hyphen, the SSID 0 where there is none. `None` where the SSID is no number
/// of 32 bits.
pub open spec fn call_parts(input: Seq<char>) -> (Seq<char>, Option<nat>) {
    let i = text::char_index(input, '-');
    if i >= input.len() {
        (input, Some(0))
    } else {
        match text::unsigned_value(input.skip(i + 1)) {
            Some(n) => (
                input.take(i),
                if n <= u32::MAX {
                    Some(n)
                } else {
                    None
                },
            ),
            None => (input.take(i), None),
        }
    }
}

pub enum CallIssue {
    Callsign,
    Ssid(u32),
}

/// The address that `input` names, or what is wrong with it.
pub open spec fn parsed_call(input: Seq<char>) -> Result<AddressView, CallIssue> {
    match call_parts(input) {
        (_, None) => Err(CallIssue::Ssid(u32::MAX)),
        (call, Some(ssid)) => {
            let up = text::upper_text(call);
            if !(1 <= up.len() <= 6) || !link::all_ascii_alphanumeric(up) {
                Err(CallIssue::Callsign)
            } else if ssid > 15 {
                Err(CallIssue::Ssid(ssid as u32))
            } else {
                Ok(AddressView { callsign: up, ssid: ssid as u8 })
            }
        },
    }
}

fn all_ascii_alphanumeric(v: &Vec<char>) -> (r: bool)
    ensures
        r == link::all_ascii_alphanumeric(v@),
{
    let mut i: usize = 0;
    while i < v.len()
        invariant
            i <= v@.len(),
            forall|j: int| 0 <= j < i ==> link::ascii_alphanumeric(#[trigger] v@[j]),
        decreases v@.len() - i,
    {
        let c = v[i];
        if !(('0' <= c && c <= '9') || ('a' <= c && c <= 'z') || ('A' <= c && c <= 'Z')) {
            assert(!link::ascii_alphanumeric(v@[i as int]));
            return false;
        }
        i += 1;
    }
    true
}

/// What encoding `input` gives.
pub open spec fn named(input: Seq<char>, r: Result<Ax25Address, Ax25Error>) -> bool {
    match r {
        Ok(a) => parsed_call(input) matches Ok(v) && a.ax25_call@ == link::address_field(
            v,
            false,
            false,
        ),
        Err(Ax25Error::InvalidCallsign(s)) => s@ == input && parsed_call(input) == Err::<
            AddressView,
            CallIssue,
        >(CallIssue::Callsign),
        Err(Ax25Error::InvalidSsid(n)) => parsed_call(input) == Err::<AddressView, CallIssue>(
            CallIssue::Ssid(n),
        ),
    }
}

/// Encodes a callsign such as `N0CALL-5`, or `N0CALL` for SSID 0.
pub fn encode_callsign(input: &str) -> (r: Result<Ax25Address, Ax25Error>)
    ensures
        named(input@, r),
{
    let (call, ssid) = match text::split_once(input, '-') {
        Some((call, ssid_text)) => match text::parse_unsigned(ssid_text.as_str(), u32::MAX as u64) {
            Some(n) => (call, n as u32),
            None => {
                return Err(Ax25Error::InvalidSsid(u32::MAX));
            },
        },
        None => (text::owned(input), 0u32),
    };
    let up = text::to_uppercase(call.as_str());
    let chars = text::chars_of(up.as_str());
    if chars.len() == 0 || chars.len() > 6 || !all_ascii_alphanumeric(&chars) {
        return Err(Ax25Error::InvalidCallsign(text::owned(input)));
    }
    if ssid > 15 {
        return Err(Ax25Error::InvalidSsid(ssid));
    }
    let ghost v = AddressView { callsign: up@, ssid: ssid as u8 };
    let ghost field = link::address_field(v, false, false);
    proof {
        assert forall|i: int| 0 <= i < up@.len() implies '\0' <= #[trigger] up@[i] <= '\u{7f}' by {
            assert(link::ascii_alphanumeric(up@[i]));
        }
        vstd::utf8::is_ascii_chars_encode_utf8(up@);
    }
    let mut bytes: [u8; 7] = [0, 0, 0, 0, 0, 0, 0];
    let mut i: usize = 0;
    while i < 6
        invariant
            i <= 6,
            chars@ == up@,
            v == (AddressView { callsign: up@, ssid: ssid as u8 }),
            field == link::address_field(v, false, false),
            vstd::utf8::encode_utf8(up@).len() == up@.len(),
            forall|j: int|
                0 <= j < up@.len() ==> #[trigger] up@[j] as u8 == vstd::utf8::encode_utf8(up@)[j],
            forall|j: int| 0 <= j < i ==> bytes@[j] == field[j],
        decreases 6 - i,
    {
        let c: u8 = if i < chars.len() {
            chars[i] as u8
        } else {
            0x20
        };
        bytes[i] = c << 1;
        i += 1;
    }
    let n: u8 = ssid as u8;
    bytes[6] = (n << 1) | 0x60;
    assert((n << 1) | 0x60 | 0 | 0 == (n << 1) | 0x60) by (bit_vector);
    assert(bytes@ =~= field);
    Ok(Ax25Address { ax25_call: bytes })
}

/// The callsign in a kernel address, its spaces left out, with a hyphen and the
/// SSID unless it is 0.
pub open spec fn shown_call(field: Seq<u8>) -> Seq<char> {
    link::address_text(
        AddressView {
            callsign: text::without(wire::field_chars(field), ' '),
            ssid: (field[6] >> 1) & 0x0F,
        },
    )
}

pub fn decode_callsign(addr: &Ax25Address) -> (r: String)
    ensures
        r@ == shown_call(addr.ax25_call@),
{
    let mut call = String::new();
    let ghost chars = wire::field_chars(addr.ax25_call@);
    let mut i: usize = 0;
    while i < 6
        invariant
            i <= 6,
            chars == wire::field_chars(addr.ax25_call@),
            call@ == text::without(chars.take(i as int), ' '),
        decreases 6 - i,
    {
        assert(chars.take(i + 1).drop_last() =~= chars.take(i as int));
        let c = (addr.ax25_call[i] >> 1) as char;
        if c != ' ' {
            call.push(c);
        }
        i += 1;
    }
    assert(chars.take(6) =~= chars);
    let ssid: u8 = (addr.ax25_call[6] >> 1) & 0x0F;
    if ssid > 0 {
        call.push('-');
        let digits = text::decimal_text(ssid as u64);
        call.append(digits.as_str());
        assert(call@ =~= text::without(chars, ' ') + seq!['-'] + text::decimal(ssid as nat));
    }
    call
}

// ---------------------------------------------------------------------------
// The axports file
// ---------------------------------------------------------------------------

/// One line of an `axports` file: name, callsign, speed, paclen, window and
/// description.
#[derive(Debug, Clone)]
pub struct AxPort {
    pub device: String,
    pub callsign: String,
    pub description: String,
}

#[verifier::ext_equal]
pub struct AxPortView {
    pub device: Seq<char>,
    pub callsign: Seq<char>,
    pub description: Seq<char>,
}

pub open spec fn axport_view(p: AxPort) -> AxPortView {
    AxPortView { device: p.device@, callsign: p.callsign@, description: p.description@ }
}

pub open spec fn axports_view(v: Seq<AxPort>) -> Seq<AxPortView> {
    v.map_values(|p: AxPort| axport_view(p))
}

/// The port that one line defines. Blank lines, comments and lines of less than
/// two fields define none; the description is what stands behind the fifth field.
pub open spec fn axport_line(line: Seq<char>) -> Option<AxPortView> {
    let t = text::trimmed(line);
    let fields = text::words_of(t);
    if t.len() == 0 || t[0] == '#' || fields.len() < 2 {
        None
    } else {
        Some(
            AxPortView {
                device: fields[0],
                callsign: fields[1],
                description: text::joined(
                    fields.skip(
                        if fields.len() < 5 {
                            fields.len() as int
                        } else {
                            5
                        },
                    ),
                    seq![' '],
                ),
            },
        )
    }
}

/// The ports that some lines define, in order.
pub open spec fn axports_in(lines: Seq<Seq<char>>) -> Seq<AxPortView>
    decreases lines.len(),
{
    if lines.len() == 0 {
        Seq::empty()
    } else {
        match axport_line(lines.last()) {
            Some(p) => axports_in(lines.drop_last()).push(p),
            None => axports_in(lines.drop_last()),
        }
    }
}

fn parse_axport_line(line: &str) -> (r: Option<AxPort>)
    ensures
        match r {
            Some(p) => axport_line(line@) == Some(axport_view(p)),
            None => axport_line(line@) is None,
        },
{
    let t = text::trim(line);
    let chars = text::chars_of(t.as_str());
    if chars.len() == 0 || chars[0] == '#' {
        return None;
    }
    let mut fields = text::split_whitespace(t.as_str());
    let ghost all = text::texts(fields@);
    assert(all.len() == fields@.len());
    if fields.len() < 2 {
        return None;
    }
    let from: usize = if fields.len() < 5 {
        fields.len()
    } else {
        5
    };
    let rest = fields.split_off(from);
    assert(text::texts(rest@) =~= all.skip(from as int));
    let description = text::join(&rest, " ");
    proof {
        reveal_strlit(" ");
        assert(" "@ =~= seq![' ']);
    }
    let callsign = fields.swap_remove(1);
    let device = fields.swap_remove(0);
    proof {
        assert(all[1] == callsign@);
        assert(all[0] == device@);
    }
    Some(AxPort { device, callsign, description })
}

/// The ports that the text of an `axports` file defines.
pub fn parse_axports(content: &str) -> (r: Vec<AxPort>)
    ensures
        axports_view(r@) == axports_in(text::lines_of(content@)),
{
    let lines = text::lines(content);
    let mut out: Vec<AxPort> = Vec::new();
    let ghost all = text::texts(lines@);
    let mut i: usize = 0;
    assert(axports_view(out@) =~= axports_in(all.take(0)));
    while i < lines.len()
        invariant
            i <= lines@.len(),
            all == text::texts(lines@),
            axports_view(out@) == axports_in(all.take(i as int)),
        decreases lines@.len() - i,
    {
        let ghost before = out@;
        assert(all.take(i + 1).drop_last() =~= all.take(i as int));
        assert(all.take(i + 1).last() == lines@[i as int]@);
        match parse_axport_line(lines[i].as_str()) {
            Some(p) => {
                out.push(p);
                assert(axports_view(out@) =~= axports_view(before).push(axport_view(p)));
            },
            None => {},
        }
        i += 1;
    }
    assert(all.take(i as int) =~= all);
    out
}

/// The position of the first port named `device`, or the length.
pub open spec fn device_index(ports: Seq<AxPortView>, device: Seq<char>) -> int
    decreases ports.len(),
{
    if ports.len() == 0 || ports[0].device == device {
        0
    } else {
        1 + device_index(ports.skip(1), device)
    }
}

/// The callsign of the first port named `device` in the text of an `axports` file.
pub fn resolve_local_call(content: &str, device: &str) -> (r: Result<String, String>)
    ensures
        ({
            let ports = axports_in(text::lines_of(content@));
            let k = device_index(ports, device@);
            match r {
                Ok(call) => k < ports.len() && call@ == ports[k].callsign,
                Err(e) => k == ports.len() && e@ == "no '"@ + device@
                    + "' entry in /etc/ax25/axports"@,
            }
        }),
{
    let ports = parse_axports(content);
    let ghost all = axports_view(ports@);
    let mut i: usize = 0;
    assert(all.skip(0) =~= all);
    while i < ports.len()
        invariant
            i <= ports@.len(),
            all == axports_view(ports@),
            all == axports_in(text::lines_of(content@)),
            device_index(all, device@) == i + device_index(all.skip(i as int), device@),
        decreases ports@.len() - i,
    {
        assert(all.skip(i as int)[0] == axport_view(ports@[i as int]));
        if text::eq_str(ports[i].device.as_str(), device) {
            return Ok(ports[i].callsign.clone());
        }
        assert(all.skip(i as int).skip(1) =~= all.skip(i + 1));
        i += 1;
    }
    let mut e = text::owned("no '");
    e.append(device);
    e.append("' entry in /etc/ax25/axports");
    Err(e)
}

// ---------------------------------------------------------------------------
// Laws
// ---------------------------------------------------------------------------

/// Decoding gives back the callsign that was encoded, in upper case.
pub proof fn law_callsign_round_trip(input: Seq<char>)
    requires
        parsed_call(input) is Ok,
    ensures
        shown_call(link::address_field(parsed_call(input)->Ok_0, false, false))
            == link::address_text(parsed_call(input)->Ok_0),
{
    let a = parsed_call(input)->Ok_0;
    let field = link::address_field(a, false, false);
    let n = a.callsign.len() as int;
    let chars = wire::field_chars(field);
    assert forall|i: int| 0 <= i < n implies '\0' <= #[trigger] a.callsign[i] <= '\u{7f}' by {
        assert(link::ascii_alphanumeric(a.callsign[i]));
    }
    vstd::utf8::is_ascii_chars_encode_utf8(a.callsign);
    assert forall|i: int| 0 <= i < 6 implies chars[i] == (if i < n {
        a.callsign[i]
    } else {
        ' '
    }) by {
        let b: u8 = if i < n {
            vstd::utf8::encode_utf8(a.callsign)[i]
        } else {
            0x20
        };
        if i < n {
            assert(link::ascii_alphanumeric(a.callsign[i]));
            assert(a.callsign[i] as u8 == b);
        }
        assert(b < 128 ==> (b << 1) >> 1 == b) by (bit_vector);
    }
    assert forall|i: int| 0 <= i < n implies #[trigger] a.callsign[i] != ' ' by {
        assert(link::ascii_alphanumeric(a.callsign[i]));
    }
    lemma_without_padding(chars, a.callsign, 6);
    assert(chars.take(6) =~= chars);
    assert(a.callsign.take(n) =~= a.callsign);
    let ssid = a.ssid;
    assert((((ssid << 1) | 0b0110_0000 | 0 | 0) >> 1) & 0x0F == ssid) by (bit_vector)
        requires
            ssid <= 15,
    ;
}

proof fn lemma_without_padding(chars: Seq<char>, call: Seq<char>, k: int)
    requires
        0 <= k <= chars.len(),
        call.len() <= chars.len(),
        forall|i: int|
            0 <= i < chars.len() ==> chars[i] == (if i < call.len() {
                call[i]
            } else {
                ' '
            }),
        forall|i: int| 0 <= i < call.len() ==> #[trigger] call[i] != ' ',
    ensures
        text::without(chars.take(k), ' ') == call.take(
            if k < call.len() {
                k
            } else {
                call.len() as int
            },
        ),
    decreases k,
{
    if k > 0 {
        lemma_without_padding(chars, call, k - 1);
        assert(chars.take(k).drop_last() =~= chars.take(k - 1));
        if k <= call.len() {
            assert(call[k - 1] != ' ');
            assert(call.take(k) =~= call.take(k - 1).push(call[k - 1]));
        }
    } else {
        assert(call.take(0) =~= Seq::<char>::empty());
        assert(chars.take(0) =~= Seq::<char>::empty());
    }
}

/// The callsign of a device is that of the first line that names it.
pub proof fn law_device_found(ports: Seq<AxPortView>, device: Seq<char>, k: int)
    ensures
        0 <= k < ports.len() && ports[k].device == device && (forall|j: int|
            0 <= j < k ==> (#[trigger] ports[j]).device != device) ==> device_index(ports, device)
            == k,
        (forall|j: int| 0 <= j < ports.len() ==> (#[trigger] ports[j]).device != device)
            ==> device_index(ports, device) == ports.len(),
    decreases ports.len(),
{
    if ports.len() > 0 && ports[0].device != device {
        let rest = ports.skip(1);
        assert forall|j: int| 0 <= j < rest.len() implies #[trigger] rest[j] == ports[j + 1] by {}
        law_device_found(rest, device, k - 1);
        if 0 < k < ports.len() {
            assert(rest[k - 1] == ports[k]);
        }
    }
}

/// The file of ports is read line by line: each line that defines a port gives one, in
/// order, and each other line gives none.
pub proof fn law_axports_in_order(lines: Seq<Seq<char>>, line: Seq<char>)
    ensures
        axport_line(line) matches Some(p) ==> axports_in(lines.push(line)) == axports_in(lines).push(
            p,
        ),
        axport_line(line) is None ==> axports_in(lines.push(line)) == axports_in(lines),
        axports_in(Seq::empty()).len() == 0,
{
    assert(lines.push(line).drop_last() =~= lines);
}

/// A callsign is read with its SSID: up to six letters and digits, in any case, and a
/// number up to 15 behind a hyphen, or none for 0.
pub proof fn law_callsign_read(call: Seq<char>, ssid: u8)
    requires
        1 <= call.len() <= 6,
        forall|i: int| 0 <= i < call.len() ==> link::ascii_alphanumeric(#[trigger] call[i]),
        text::upper_text(call).len() == call.len(),
        link::all_ascii_alphanumeric(text::upper_text(call)),
        ssid <= 15,
    ensures
        parsed_call(call + seq!['-'] + text::decimal(ssid as nat)) == Ok::<AddressView, CallIssue>(
            AddressView { callsign: text::upper_text(call), ssid },
        ),
        parsed_call(call) == Ok::<AddressView, CallIssue>(
            AddressView { callsign: text::upper_text(call), ssid: 0 },
        ),
{
    let d = text::decimal(ssid as nat);
    let s = call + seq!['-'] + d;
    let n = call.len() as int;
    assert forall|j: int| 0 <= j < n implies s[j] != '-' && call[j] != '-' by {
        assert(s[j] == call[j]);
        assert(link::ascii_alphanumeric(call[j]));
    }
    text::lemma_char_index_unique(s, '-', n);
    crate::identifiers::lemma_decimal(ssid as nat);
    assert(s.skip(n + 1) =~= d);
    assert(s.take(n) =~= call);
    assert(text::is_digit(d[0]));
    text::lemma_char_index(call, '-');
    let i = text::char_index(call, '-');
    if i < n {
        assert(call[i] == '-');
    }
}

} // verus!
