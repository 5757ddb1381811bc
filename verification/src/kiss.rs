//! KISS framing: encoding of single frames and streaming decode.
//!
//! A frame is `FEND, command, escaped payload, FEND`. The high nibble of the
//! command byte is the KISS port and the low nibble the frame type, 0 for data.
//! Inside the payload `FEND` and `FESC` are written as `FESC TFEND` and
//! `FESC TFESC`.

use vstd::prelude::*;

verus! {

pub const FEND: u8 = 0xC0;

pub const FESC: u8 = 0xDB;

pub const TFEND: u8 = 0xDC;

pub const TFESC: u8 = 0xDD;

/// Command types of the transmit parameters.
pub const CMD_TX_DELAY: u8 = 1;

pub const CMD_PERSISTENCE: u8 = 2;

pub const CMD_SLOT_TIME: u8 = 3;

pub const CMD_FULL_DUPLEX: u8 = 5;

// ---------------------------------------------------------------------------
// Encoding
// ---------------------------------------------------------------------------

pub open spec fn escaped_byte(b: u8) -> Seq<u8> {
    if b == FEND {
        seq![FESC, TFEND]
    } else if b == FESC {
        seq![FESC, TFESC]
    } else {
        seq![b]
    }
}

/// `payload` with its `FEND` and `FESC` bytes escaped.
pub open spec fn escaped(payload: Seq<u8>) -> Seq<u8>
    decreases payload.len(),
{
    if payload.len() == 0 {
        Seq::empty()
    } else {
        escaped(payload.drop_last()) + escaped_byte(payload.last())
    }
}

/// The frame that carries `payload` behind the command byte `command`.
pub open spec fn framed(command: u8, payload: Seq<u8>) -> Seq<u8> {
    seq![FEND, command] + escaped(payload) + seq![FEND]
}

fn encode_frame(command: u8, payload: &[u8]) -> (out: Vec<u8>)
    ensures
        out@ == framed(command, payload@),
{
    let mut out: Vec<u8> = Vec::new();
    out.push(FEND);
    out.push(command);
    let mut i: usize = 0;
    assert(out@ =~= seq![FEND, command] + escaped(payload@.take(0)));
    while i < payload.len()
        invariant
            i <= payload@.len(),
            out@ == seq![FEND, command] + escaped(payload@.take(i as int)),
        decreases payload@.len() - i,
    {
        let b: u8 = payload[i];
        let ghost before = out@;
        if b == FEND {
            out.push(FESC);
            out.push(TFEND);
        } else if b == FESC {
            out.push(FESC);
            out.push(TFESC);
        } else {
            out.push(b);
        }
        proof {
            assert(payload@.take(i + 1).drop_last() =~= payload@.take(i as int));
            assert(out@ =~= before + escaped_byte(b));
            assert(before + escaped_byte(b) =~= seq![FEND, command] + (escaped(
                payload@.take(i as int),
            ) + escaped_byte(b)));
        }
        i += 1;
    }
    assert(payload@.take(i as int) =~= payload@);
    out.push(FEND);
    assert(out@ =~= framed(command, payload@));
    out
}

/// The command byte of a data frame on a KISS port, of which the low four bits
/// count.
pub open spec fn data_command(kiss_port: u8) -> u8 {
    (kiss_port & 0x0F) << 4
}

/// One data frame for a KISS port.
pub fn encode_data_frame(kiss_port: u8, payload: &[u8]) -> (out: Vec<u8>)
    ensures
        out@ == framed(data_command(kiss_port), payload@),
{
    encode_frame((kiss_port & 0x0F) << 4, payload)
}

/// One frame that sets a transmit parameter of the TNC.
pub fn encode_param_frame(kiss_port: u8, command: u8, value: u8) -> (out: Vec<u8>)
    ensures
        out@ == framed(data_command(kiss_port) | (command & 0x0F), seq![value]),
{
    let payload: [u8; 1] = [value];
    assert(payload@ =~= seq![value]);
    encode_frame(((kiss_port & 0x0F) << 4) | (command & 0x0F), payload.as_slice())
}

// ---------------------------------------------------------------------------
// Decoding
// ---------------------------------------------------------------------------

/// Accumulates bytes from a TNC and yields the frames that they complete.
#[derive(Debug)]
pub struct KissDecoder {
    pub buf: Vec<u8>,
    pub in_frame: bool,
    pub escaped: bool,
}

/// What a decoder holds.
#[verifier::ext_equal]
pub struct DecoderView {
    pub buf: Seq<u8>,
    pub in_frame: bool,
    pub escaped: bool,
}

impl View for KissDecoder {
    type V = DecoderView;

    open spec fn view(&self) -> DecoderView {
        DecoderView { buf: self.buf@, in_frame: self.in_frame, escaped: self.escaped }
    }
}

/// A command byte and its payload.
pub type FrameBytes = (u8, Seq<u8>);

impl DecoderView {
    pub open spec fn start() -> DecoderView {
        DecoderView { buf: Seq::empty(), in_frame: false, escaped: false }
    }

    /// The decoder after one byte.
    pub open spec fn step(self, b: u8) -> DecoderView {
        if b == FEND {
            DecoderView { buf: Seq::empty(), in_frame: true, escaped: false }
        } else if !self.in_frame {
            self
        } else if b == FESC {
            DecoderView { escaped: true, ..self }
        } else if self.escaped && b == TFEND {
            DecoderView { buf: self.buf.push(FEND), escaped: false, ..self }
        } else if self.escaped && b == TFESC {
            DecoderView { buf: self.buf.push(FESC), escaped: false, ..self }
        } else {
            DecoderView { buf: self.buf.push(b), escaped: false, ..self }
        }
    }

    /// The frame that one byte completes.
    pub open spec fn completes(self, b: u8) -> Seq<FrameBytes> {
        if b == FEND && self.in_frame && self.buf.len() > 0 {
            seq![(self.buf[0], self.buf.skip(1))]
        } else {
            Seq::empty()
        }
    }

    /// The decoder after some bytes.
    pub open spec fn after(self, bytes: Seq<u8>) -> DecoderView
        decreases bytes.len(),
    {
        if bytes.len() == 0 {
            self
        } else {
            self.after(bytes.drop_last()).step(bytes.last())
        }
    }

    /// The frames that some bytes complete, in order.
    pub open spec fn frames(self, bytes: Seq<u8>) -> Seq<FrameBytes>
        decreases bytes.len(),
    {
        if bytes.len() == 0 {
            Seq::empty()
        } else {
            self.frames(bytes.drop_last()) + self.after(bytes.drop_last()).completes(bytes.last())
        }
    }
}

pub open spec fn frames_view(v: Seq<(u8, Vec<u8>)>) -> Seq<FrameBytes> {
    v.map_values(|f: (u8, Vec<u8>)| (f.0, f.1@))
}

impl KissDecoder {
    pub fn new() -> (r: Self)
        ensures
            r@ == DecoderView::start(),
    {
        let r = KissDecoder { buf: Vec::new(), in_frame: false, escaped: false };
        assert(r@ =~= DecoderView::start());
        r
    }

    /// Takes the next bytes of the stream and gives the frames that they complete.
    pub fn feed(&mut self, bytes: &[u8]) -> (r: Vec<(u8, Vec<u8>)>)
        ensures
            final(self)@ == old(self)@.after(bytes@),
            frames_view(r@) == old(self)@.frames(bytes@),
    {
        let ghost before = self@;
        let mut frames: Vec<(u8, Vec<u8>)> = Vec::new();
        let mut i: usize = 0;
        assert(frames_view(frames@) =~= before.frames(bytes@.take(0)));
        while i < bytes.len()
            invariant
                i <= bytes@.len(),
                self@ == before.after(bytes@.take(i as int)),
                frames_view(frames@) == before.frames(bytes@.take(i as int)),
            decreases bytes@.len() - i,
        {
            let b: u8 = bytes[i];
            let ghost at = self@;
            let ghost done = frames@;
            assert(bytes@.take(i + 1).drop_last() =~= bytes@.take(i as int));
            if b == FEND {
                if self.in_frame && self.buf.len() > 0 {
                    let command: u8 = self.buf[0];
                    let payload = crate::arq::sub_bytes(self.buf.as_slice(), 1, self.buf.len());
                    assert(payload@ =~= at.buf.skip(1));
                    frames.push((command, payload));
                }
                self.buf.clear();
                self.in_frame = true;
                self.escaped = false;
            } else if self.in_frame {
                if b == FESC {
                    self.escaped = true;
                } else if b == TFEND && self.escaped {
                    self.buf.push(FEND);
                    self.escaped = false;
                } else if b == TFESC && self.escaped {
                    self.buf.push(FESC);
                    self.escaped = false;
                } else {
                    self.buf.push(b);
                    self.escaped = false;
                }
            }
            proof {
                assert(self@ =~= at.step(b));
                assert(frames_view(frames@) =~= frames_view(done) + at.completes(b));
            }
            i += 1;
        }
        assert(bytes@.take(i as int) =~= bytes@);
        frames
    }
}

// ---------------------------------------------------------------------------
// Laws
// ---------------------------------------------------------------------------

/// How the stream is cut into reads makes no difference.
pub proof fn law_feeding_in_pieces(d: DecoderView, a: Seq<u8>, b: Seq<u8>)
    ensures
        d.after(a + b) == d.after(a).after(b),
        d.frames(a + b) == d.frames(a) + d.after(a).frames(b),
    decreases b.len(),
{
    if b.len() == 0 {
        assert(a + b =~= a);
        assert(d.frames(a) + Seq::<FrameBytes>::empty() =~= d.frames(a));
    } else {
        law_feeding_in_pieces(d, a, b.drop_last());
        assert((a + b).drop_last() =~= a + b.drop_last());
        assert(d.frames(a + b) =~= d.frames(a) + d.after(a).frames(b));
    }
}

proof fn lemma_one_byte(d: DecoderView, b: u8)
    ensures
        d.after(seq![b]) == d.step(b),
        d.frames(seq![b]) == d.completes(b),
{
    let none = Seq::<u8>::empty();
    assert(seq![b].drop_last() =~= none);
    assert(d.after(none) == d);
    assert(d.frames(none) =~= Seq::<FrameBytes>::empty());
    assert(Seq::<FrameBytes>::empty() + d.completes(b) =~= d.completes(b));
}

proof fn lemma_byte_read(d: DecoderView, b: u8)
    requires
        d.in_frame,
        !d.escaped,
    ensures
        d.after(escaped_byte(b)) == (DecoderView { buf: d.buf.push(b), ..d }),
        d.frames(escaped_byte(b)) == Seq::<FrameBytes>::empty(),
{
    if b == FEND || b == FESC {
        let t: u8 = if b == FEND {
            TFEND
        } else {
            TFESC
        };
        assert(escaped_byte(b) =~= seq![FESC] + seq![t]);
        law_feeding_in_pieces(d, seq![FESC], seq![t]);
        lemma_one_byte(d, FESC);
        lemma_one_byte(d.step(FESC), t);
    } else {
        lemma_one_byte(d, b);
    }
}

proof fn lemma_escaped_read(d: DecoderView, payload: Seq<u8>)
    requires
        d.in_frame,
        !d.escaped,
    ensures
        d.after(escaped(payload)) == (DecoderView { buf: d.buf + payload, ..d }),
        d.frames(escaped(payload)) == Seq::<FrameBytes>::empty(),
    decreases payload.len(),
{
    if payload.len() == 0 {
        assert(d.buf + payload =~= d.buf);
    } else {
        let front = payload.drop_last();
        let b = payload.last();
        lemma_escaped_read(d, front);
        law_feeding_in_pieces(d, escaped(front), escaped_byte(b));
        lemma_byte_read(d.after(escaped(front)), b);
        assert((d.buf + front).push(b) =~= d.buf + payload);
    }
}

/// A decoder reads back what the encoder wrote: whatever it was fed before, a
/// frame completes exactly itself, behind what it may cut off. The command byte
/// must not be `FEND` or `FESC`: it is not escaped.
pub proof fn law_round_trip(d: DecoderView, command: u8, payload: Seq<u8>)
    requires
        command != FEND,
        command != FESC,
    ensures
        d.frames(framed(command, payload)) == d.completes(FEND) + seq![(command, payload)],
        d.after(framed(command, payload)) == (DecoderView {
            buf: Seq::empty(),
            in_frame: true,
            escaped: false,
        }),
{
    let one = seq![FEND];
    let two = seq![command];
    let open = d.step(FEND);
    let m = open.step(command);
    let all = framed(command, payload);
    assert(all =~= one + (two + (escaped(payload) + one)));
    law_feeding_in_pieces(d, one, two + (escaped(payload) + one));
    law_feeding_in_pieces(open, two, escaped(payload) + one);
    law_feeding_in_pieces(m, escaped(payload), one);
    lemma_one_byte(d, FEND);
    lemma_one_byte(open, command);
    lemma_escaped_read(m, payload);
    let full = m.after(escaped(payload));
    lemma_one_byte(full, FEND);
    assert(full.buf =~= seq![command] + payload);
    assert(full.buf.skip(1) =~= payload);
    assert(d.frames(all) =~= d.completes(FEND) + seq![(command, payload)]);
}

/// A data frame of any KISS port but 12, whose command byte is `FEND` itself, is
/// read back as data of that port.
pub proof fn law_data_round_trip(kiss_port: u8, payload: Seq<u8>)
    requires
        kiss_port % 16 != 12,
    ensures
        DecoderView::start().frames(framed(data_command(kiss_port), payload)) == seq![
            (data_command(kiss_port), payload),
        ],
        data_command(kiss_port) % 16 == 0,
{
    let c = (kiss_port & 0x0F) << 4;
    assert(c != 0xC0 && c != 0xDB && c % 16 == 0) by (bit_vector)
        requires
            kiss_port % 16 != 12,
            c == (kiss_port & 0x0F) << 4,
    ;
    law_round_trip(DecoderView::start(), c, payload);
    assert(DecoderView::start().completes(FEND) + seq![(c, payload)] =~= seq![(c, payload)]);
}

} // verus!
