//! Frames of the AGWPE TCP interface.
//!
//! A frame is a header of 36 bytes and a payload:
//!
//! ```text
//! +00       port
//! +04       kind, an ASCII letter
//! +06       protocol identifier
//! +08..17   sender, padded with zero bytes
//! +18..27   addressee, padded with zero bytes
//! +28..31   length of the payload, little endian
//! +36..     payload
//! ```
//!
//! The other bytes of the header are zero.

use vstd::prelude::*;
use vstd::utf8::*;

use crate::arq;
use crate::text;

verus! {

pub const HEADER_LEN: usize = 36;

const CALL_FIELD_LEN: usize = 10;

#[derive(Debug)]
pub struct AgwFrame {
    pub port: u8,
    pub data_kind: u8,
    pub pid: u8,
    pub call_from: String,
    pub call_to: String,
    pub data: Vec<u8>,
}

impl Clone for AgwFrame {
    fn clone(&self) -> (r: Self)
        ensures
            r@ == self@,
    {
        AgwFrame {
            port: self.port,
            data_kind: self.data_kind,
            pid: self.pid,
            call_from: self.call_from.clone(),
            call_to: self.call_to.clone(),
            data: self.data.clone(),
        }
    }
}

/// What a frame holds.
#[verifier::ext_equal]
pub struct AgwView {
    pub port: u8,
    pub data_kind: u8,
    pub pid: u8,
    pub call_from: Seq<char>,
    pub call_to: Seq<char>,
    pub data: Seq<u8>,
}

impl View for AgwFrame {
    type V = AgwView;

    open spec fn view(&self) -> AgwView {
        AgwView {
            port: self.port,
            data_kind: self.data_kind,
            pid: self.pid,
            call_from: self.call_from@,
            call_to: self.call_to@,
            data: self.data@,
        }
    }
}

/// A frame of some kind, with the protocol identifier of plain text.
pub open spec fn agw(
    port: u8,
    kind: char,
    call_from: Seq<char>,
    call_to: Seq<char>,
    data: Seq<u8>,
) -> AgwView {
    AgwView { port, data_kind: kind as u8, pid: 0xF0, call_from, call_to, data }
}

// ---------------------------------------------------------------------------
// Fields
// ---------------------------------------------------------------------------

/// A field of `len` bytes that holds `value` and zero bytes behind it, at least
/// one.
pub open spec fn padded(value: Seq<u8>, len: nat) -> Seq<u8> {
    Seq::new(
        len,
        |i: int|
            if i < value.len() && i < len - 1 {
                value[i]
            } else {
                0
            },
    )
}

/// Appends such a field to `out`.
fn write_padded(out: &mut Vec<u8>, value: &[u8], len: usize)
    requires
        len > 0,
    ensures
        final(out)@ == old(out)@ + padded(value@, len as nat),
{
    let ghost before = out@;
    let ghost field = padded(value@, len as nat);
    let mut i: usize = 0;
    assert(before + field.take(0) =~= before);
    while i < len
        invariant
            i <= len,
            len > 0,
            field == padded(value@, len as nat),
            out@ == before + field.take(i as int),
        decreases len - i,
    {
        let b: u8 = if i < value.len() && i < len - 1 {
            value[i]
        } else {
            0
        };
        out.push(b);
        assert(before + field.take(i + 1) =~= (before + field.take(i as int)).push(b));
        i += 1;
    }
    assert(field.take(i as int) =~= field);
}

/// The position of the first zero byte, or the length.
pub open spec fn first_zero(field: Seq<u8>) -> int
    decreases field.len(),
{
    if field.len() == 0 || field[0] == 0 {
        0
    } else {
        1 + first_zero(field.skip(1))
    }
}

proof fn lemma_first_zero(field: Seq<u8>, k: int)
    requires
        0 <= k <= field.len(),
        forall|i: int| 0 <= i < k ==> #[trigger] field[i] != 0,
        k < field.len() ==> field[k] == 0,
    ensures
        first_zero(field) == k,
    decreases k,
{
    if k > 0 {
        assert(field[0] != 0);
        assert forall|i: int| 0 <= i < k - 1 implies #[trigger] field.skip(1)[i] != 0 by {
            assert(field[i + 1] != 0);
        }
        lemma_first_zero(field.skip(1), k - 1);
    }
}

/// The text in a field, up to its first zero byte.
pub open spec fn field_text(field: Seq<u8>) -> Seq<char> {
    text::shown_text(field.take(first_zero(field)))
}

pub fn read_padded(field: &[u8]) -> (r: String)
    ensures
        r@ == field_text(field@),
{
    let mut end: usize = 0;
    while end < field.len() && field[end] != 0
        invariant
            end <= field@.len(),
            forall|i: int| 0 <= i < end ==> #[trigger] field@[i] != 0,
        decreases field@.len() - end,
    {
        end += 1;
    }
    proof {
        lemma_first_zero(field@, end as int);
    }
    assert(field@.subrange(0, end as int) =~= field@.take(end as int));
    text::from_utf8_lossy(&field[0..end])
}

/// A digipeater path: how many (in one byte), then ten bytes for each.
pub open spec fn digi_path(digis: Seq<Seq<char>>) -> Seq<u8> {
    seq![digis.len() as u8] + digi_fields(digis)
}

pub open spec fn digi_fields(digis: Seq<Seq<char>>) -> Seq<u8>
    decreases digis.len(),
{
    if digis.len() == 0 {
        Seq::empty()
    } else {
        digi_fields(digis.drop_last()) + padded(encode_utf8(digis.last()), 10)
    }
}

fn encode_digi_path(digis: &Vec<String>) -> (data: Vec<u8>)
    ensures
        data@ == digi_path(text::texts(digis@)),
{
    let mut data: Vec<u8> = Vec::new();
    let ghost all = text::texts(digis@);
    data.push(digis.len() as u8);
    let ghost count = seq![digis.len() as u8];
    let mut i: usize = 0;
    assert(data@ =~= count + digi_fields(all.take(0)));
    while i < digis.len()
        invariant
            i <= digis@.len(),
            all == text::texts(digis@),
            data@ == count + digi_fields(all.take(i as int)),
        decreases digis@.len() - i,
    {
        let ghost before = data@;
        write_padded(&mut data, digis[i].as_str().as_bytes(), CALL_FIELD_LEN);
        proof {
            assert(all.take(i + 1).drop_last() =~= all.take(i as int));
            assert(all.take(i + 1).last() == digis@[i as int]@);
            assert(data@ =~= count + digi_fields(all.take(i + 1)));
        }
        i += 1;
    }
    assert(all.take(i as int) =~= all);
    data
}

/// A 32-bit number, least byte first.
pub open spec fn le32(n: nat) -> Seq<u8> {
    seq![
        (n % 256) as u8,
        (n / 256 % 256) as u8,
        (n / 65536 % 256) as u8,
        (n / 16777216 % 256) as u8,
    ]
}

pub open spec fn le32_value(s: Seq<u8>) -> nat {
    (s[0] + 256 * s[1] + 65536 * s[2] + 16777216 * s[3]) as nat
}

// ---------------------------------------------------------------------------
// Frames
// ---------------------------------------------------------------------------

/// A frame as bytes. The length is given by its low 32 bits.
pub open spec fn encoded(f: AgwView) -> Seq<u8> {
    seq![f.port, 0, 0, 0, f.data_kind, 0, f.pid, 0] + padded(encode_utf8(f.call_from), 10) + padded(
        encode_utf8(f.call_to),
        10,
    ) + le32(f.data.len() % 0x1_0000_0000) + seq![0u8, 0, 0, 0] + f.data
}

/// The frame at the front of `buf` and how many bytes it takes, where it is whole.
pub open spec fn decoded(buf: Seq<u8>) -> Option<(AgwView, int)> {
    if buf.len() < 36 {
        None
    } else {
        let len = le32_value(buf.subrange(28, 32)) as int;
        if buf.len() < 36 + len {
            None
        } else {
            Some(
                (
                    AgwView {
                        port: buf[0],
                        data_kind: buf[4],
                        pid: buf[6],
                        call_from: field_text(buf.subrange(8, 18)),
                        call_to: field_text(buf.subrange(18, 28)),
                        data: buf.subrange(36, 36 + len),
                    },
                    36 + len,
                ),
            )
        }
    }
}

impl AgwFrame {
    pub fn new(port: u8, data_kind: char, call_from: &str, call_to: &str, data: Vec<u8>) -> (r: Self)
        ensures
            r@ == agw(port, data_kind, call_from@, call_to@, data@),
    {
        AgwFrame {
            port,
            data_kind: data_kind as u8,
            pid: 0xF0,
            call_from: text::owned(call_from),
            call_to: text::owned(call_to),
            data,
        }
    }

    /// The kind of the frame.
    pub fn kind(&self) -> (r: char)
        ensures
            r == self.data_kind as char,
    {
        self.data_kind as char
    }

    /// A login: user name and password in fields of 255 bytes each.
    pub fn login(username: &str, password: &str) -> (r: Self)
        ensures
            r@ == agw(
                0,
                'P',
                Seq::empty(),
                Seq::empty(),
                padded(encode_utf8(username@), 255) + padded(encode_utf8(password@), 255),
            ),
    {
        let mut data: Vec<u8> = Vec::new();
        write_padded(&mut data, username.as_bytes(), 255);
        write_padded(&mut data, password.as_bytes(), 255);
        assert(data@ =~= padded(encode_utf8(username@), 255) + padded(encode_utf8(password@), 255));
        let r = AgwFrame::new(0, 'P', "", "", data);
        proof {
            reveal_strlit("");
            assert(""@ =~= Seq::<char>::empty());
        }
        r
    }

    /// A connect request by way of digipeaters.
    pub fn connect_via(port: u8, call_from: &str, call_to: &str, digis: &Vec<String>) -> (r: Self)
        ensures
            r@ == agw(port, 'v', call_from@, call_to@, digi_path(text::texts(digis@))),
    {
        AgwFrame::new(port, 'v', call_from, call_to, encode_digi_path(digis))
    }

    /// Unconnected information by way of digipeaters.
    pub fn unproto_via(
        port: u8,
        call_from: &str,
        call_to: &str,
        digis: &Vec<String>,
        info: Vec<u8>,
    ) -> (r: Self)
        ensures
            r@ == agw(port, 'V', call_from@, call_to@, digi_path(text::texts(digis@)) + info@),
    {
        let mut info = info;
        let mut data = encode_digi_path(digis);
        data.append(&mut info);
        AgwFrame::new(port, 'V', call_from, call_to, data)
    }

    pub fn encode(&self) -> (buf: Vec<u8>)
        ensures
            buf@ == encoded(self@),
    {
        let mut buf: Vec<u8> = Vec::new();
        buf.push(self.port);
        buf.push(0);
        buf.push(0);
        buf.push(0);
        buf.push(self.data_kind);
        buf.push(0);
        buf.push(self.pid);
        buf.push(0);
        write_padded(&mut buf, self.call_from.as_str().as_bytes(), CALL_FIELD_LEN);
        write_padded(&mut buf, self.call_to.as_str().as_bytes(), CALL_FIELD_LEN);
        let n: u64 = self.data.len() as u64 % 0x1_0000_0000;
        buf.push((n % 256) as u8);
        buf.push((n / 256 % 256) as u8);
        buf.push((n / 65536 % 256) as u8);
        buf.push((n / 16777216 % 256) as u8);
        buf.push(0);
        buf.push(0);
        buf.push(0);
        buf.push(0);
        let mut data = arq::clone_bytes(&self.data);
        buf.append(&mut data);
        assert(buf@ =~= encoded(self@));
        buf
    }

    /// The frame at the front of `buf` and the number of bytes it takes, or `None`
    /// while it is not whole.
    pub fn decode(buf: &[u8]) -> (r: Option<(AgwFrame, usize)>)
        ensures
            match r {
                Some((f, n)) => decoded(buf@) == Some((f@, n as int)) && 0 < n <= buf@.len(),
                None => decoded(buf@) is None,
            },
    {
        if buf.len() < HEADER_LEN {
            return None;
        }
        let data_len: u64 = buf[28] as u64 + 256 * buf[29] as u64 + 65536 * buf[30] as u64
            + 16777216 * buf[31] as u64;
        assert(data_len == le32_value(buf@.subrange(28, 32)));
        if ((buf.len() - HEADER_LEN) as u64) < data_len {
            return None;
        }
        let end: usize = HEADER_LEN + data_len as usize;
        let frame = AgwFrame {
            port: buf[0],
            data_kind: buf[4],
            pid: buf[6],
            call_from: read_padded(&buf[8..18]),
            call_to: read_padded(&buf[18..28]),
            data: arq::sub_bytes(buf, HEADER_LEN, end),
        };
        Some((frame, end))
    }
}

/// Accumulates bytes from a stream and yields the frames that they complete.
#[derive(Debug)]
pub struct FrameDecoder {
    pub buf: Vec<u8>,
}

impl Default for FrameDecoder {
    fn default() -> (r: Self)
        ensures
            r.buf@ == Seq::<u8>::empty(),
    {
        FrameDecoder { buf: Vec::new() }
    }
}

impl FrameDecoder {
    /// Takes the next bytes of the stream.
    pub fn feed(&mut self, bytes: &[u8])
        ensures
            final(self).buf@ == old(self).buf@ + bytes@,
    {
        let mut more = arq::sub_bytes(bytes, 0, bytes.len());
        assert(more@ =~= bytes@);
        self.buf.append(&mut more);
    }

    /// Takes the next whole frame off the front of what was fed.
    pub fn next_frame(&mut self) -> (r: Option<AgwFrame>)
        ensures
            match r {
                Some(f) => decoded(old(self).buf@) matches Some((v, n)) && v == f@
                    && final(self).buf@ == old(self).buf@.skip(n),
                None => decoded(old(self).buf@) is None && final(self).buf@ == old(self).buf@,
            },
    {
        match AgwFrame::decode(self.buf.as_slice()) {
            Some((frame, consumed)) => {
                let rest = arq::sub_bytes(self.buf.as_slice(), consumed, self.buf.len());
                assert(rest@ =~= self.buf@.skip(consumed as int));
                self.buf = rest;
                Some(frame)
            },
            None => None,
        }
    }
}

// ---------------------------------------------------------------------------
// Laws
// ---------------------------------------------------------------------------

/// A callsign that its field gives back: at most nine bytes, none of them zero.
pub open spec fn fits_field(call: Seq<char>) -> bool {
    encode_utf8(call).len() <= 9 && forall|i: int|
        0 <= i < encode_utf8(call).len() ==> #[trigger] encode_utf8(call)[i] != 0
}

proof fn lemma_field_text(call: Seq<char>)
    requires
        fits_field(call),
    ensures
        field_text(padded(encode_utf8(call), 10)) == call,
{
    let bytes = encode_utf8(call);
    let field = padded(bytes, 10);
    lemma_first_zero(field, bytes.len() as int);
    assert(field.take(bytes.len() as int) =~= bytes);
    encode_utf8_valid_utf8(call);
    encode_utf8_decode_utf8(call);
}

/// Decoding gives back the frame that was encoded and its length, whatever comes
/// behind it in the stream.
pub proof fn law_round_trip(f: AgwView, rest: Seq<u8>)
    requires
        fits_field(f.call_from),
        fits_field(f.call_to),
        f.data.len() < 0x1_0000_0000,
    ensures
        decoded(encoded(f) + rest) == Some((f, encoded(f).len() as int)),
        encoded(f).len() == 36 + f.data.len(),
        (encoded(f) + rest).skip(encoded(f).len() as int) == rest,
{
    let e = encoded(f);
    let b = e + rest;
    let n = f.data.len();
    assert(e.len() == 36 + n);
    assert(b.subrange(8, 18) =~= padded(encode_utf8(f.call_from), 10));
    assert(b.subrange(18, 28) =~= padded(encode_utf8(f.call_to), 10));
    assert(b.subrange(28, 32) =~= le32(n));
    assert(le32_value(le32(n)) == n) by {
        let q1 = n / 256;
        let q2 = n / 65536;
        let q3 = n / 16777216;
        assert(q2 == q1 / 256);
        assert(q3 == q2 / 256);
        assert(q3 < 256);
    }
    assert(b.subrange(36, (36 + n) as int) =~= f.data);
    lemma_field_text(f.call_from);
    lemma_field_text(f.call_to);
    assert(b.skip(e.len() as int) =~= rest);
}

/// A frame that is not whole yet is not decoded: nothing is lost by feeding the
/// stream in pieces.
pub proof fn law_partial_frame_waits(f: AgwView, k: int)
    requires
        fits_field(f.call_from),
        fits_field(f.call_to),
        f.data.len() < 0x1_0000_0000,
        0 <= k < encoded(f).len(),
    ensures
        decoded(encoded(f).take(k)) is None,
{
    let e = encoded(f);
    let b = e.take(k);
    law_round_trip(f, Seq::empty());
    assert(e + Seq::<u8>::empty() =~= e);
    if k >= 36 {
        assert(b.subrange(28, 32) =~= e.subrange(28, 32));
    }
}

/// `bytes` hold `value` at `at`, and a zero byte right behind it.
pub open spec fn holds(bytes: Seq<u8>, at: int, value: Seq<u8>) -> bool {
    &&& at + value.len() < bytes.len()
    &&& bytes.subrange(at, at + value.len()) == value
    &&& bytes[at + value.len()] == 0
}

/// Where the parts of a frame stand in its bytes: the port first, the kind at 4, the
/// protocol at 6, the sender from 8 and the receiver from 18 on, the length at 28 with
/// its least byte first, and the data from 36 on to the end.
pub proof fn law_layout(f: AgwView)
    requires
        encode_utf8(f.call_from).len() <= 9,
        encode_utf8(f.call_to).len() <= 9,
        f.data.len() < 0x1_0000_0000,
    ensures
        ({
            let bytes = encoded(f);
            &&& bytes.len() == 36 + f.data.len()
            &&& bytes[0] == f.port
            &&& bytes[4] == f.data_kind
            &&& bytes[6] == f.pid
            &&& holds(bytes, 8, encode_utf8(f.call_from))
            &&& holds(bytes, 18, encode_utf8(f.call_to))
            &&& bytes[28] + 256 * bytes[29] + 65536 * bytes[30] + 16777216 * bytes[31]
                == f.data.len()
            &&& bytes.skip(36) == f.data
        }),
{
    let bytes = encoded(f);
    let n = f.data.len();
    assert(bytes.skip(36) =~= f.data);
    assert(bytes.subrange(8, 8int + encode_utf8(f.call_from).len()) =~= encode_utf8(f.call_from));
    assert(bytes.subrange(18, 18int + encode_utf8(f.call_to).len()) =~= encode_utf8(f.call_to));
    assert(n % 0x1_0000_0000 == n);
    assert(n % 256 + 256 * (n / 256 % 256) + 65536 * (n / 65536 % 256) + 16777216 * (n / 16777216
        % 256) == n) by (nonlinear_arith)
        requires
            n < 0x1_0000_0000,
    ;
}

/// A digipeater path tells how many there are, and holds each in its turn, ten bytes
/// apart.
pub proof fn law_path_layout(digis: Seq<Seq<char>>, k: int)
    requires
        0 <= k < digis.len() <= 255,
        encode_utf8(digis[k]).len() <= 9,
    ensures
        digi_path(digis).len() == 1 + 10 * digis.len(),
        digi_path(digis)[0] == digis.len(),
        digi_path(digis).subrange(1 + 10 * k, 1 + 10 * k + encode_utf8(digis[k]).len())
            == encode_utf8(digis[k]),
        digi_path(digis)[1 + 10 * k + encode_utf8(digis[k]).len()] == 0,
{
    lemma_digi_fields(digis, k);
    let call = encode_utf8(digis[k]);
    let fields = digi_fields(digis);
    let path = digi_path(digis);
    let field = path.subrange(1 + 10 * k, 1 + 10 * k + 10);
    assert(field =~= fields.subrange(10 * k, 10 * k + 10));
    assert(path.subrange(1 + 10 * k, 1 + 10 * k + call.len()) =~= field.subrange(
        0,
        call.len() as int,
    ));
    assert(field.subrange(0, call.len() as int) =~= call);
    assert(field[call.len() as int] == 0);
    assert(path[1 + 10 * k + call.len()] == field[call.len() as int]);
}

proof fn lemma_digi_fields(digis: Seq<Seq<char>>, k: int)
    requires
        0 <= k < digis.len(),
    ensures
        digi_fields(digis).len() == 10 * digis.len(),
        digi_fields(digis).subrange(10 * k, 10 * k + 10) == padded(encode_utf8(digis[k]), 10),
    decreases digis.len(),
{
    let less = digis.drop_last();
    let fields = digi_fields(digis);
    if less.len() == 0 {
        assert(digi_fields(less) =~= Seq::<u8>::empty());
    } else {
        lemma_digi_fields(less, if k < less.len() {
            k
        } else {
            0
        });
    }
    if k < less.len() {
        assert(fields.subrange(10 * k, 10 * k + 10) =~= digi_fields(less).subrange(
            10 * k,
            10 * k + 10,
        ));
    } else {
        assert(fields.subrange(10 * k, 10 * k + 10) =~= padded(encode_utf8(digis[k]), 10));
    }
}

} // verus!
