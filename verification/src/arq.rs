//! The modulus-8 AX.25 connected-mode state machine, free of any I/O: it takes
//! received frames, send requests and clock readings, and answers with a list of
//! [`Action`]s.
//!
//! Every received information frame is acknowledged by an explicit RR, a frame
//! out of sequence by a REJ (go-back-N), and lost frames are resent when T1 runs
//! out. Times are milliseconds on a clock of the caller's choice.

use std::collections::VecDeque;

use ax25::frame::{
    Address, Ax25Frame, CommandResponse, Disconnect, FrameContent, FrameReject, Information,
    ProtocolIdentifier, ReceiveNotReady, ReceiveReady, Reject, RouteEntry,
    SetAsynchronousBalancedMode, UnnumberedAcknowledge,
};
use vstd::prelude::*;

use crate::arq_laws;
use crate::config::KissArqParams;
use crate::link::{self, AddressView, ContentView, FrameView, HopView};
use crate::port::ConnState;
use crate::text;

verus! {

// ---------------------------------------------------------------------------
// Sequence numbers
// ---------------------------------------------------------------------------

/// The sequence number `n` after `a`.
pub open spec fn seq_after(a: u8, n: int) -> u8 {
    ((a + n) % 8) as u8
}

pub fn mod8(x: u8) -> (r: u8)
    ensures
        r == x % 8,
{
    assert(x & 0x07 == x % 8) by (bit_vector);
    x & 0x07
}

pub fn seq_add(a: u8, b: u8) -> (r: u8)
    ensures
        r == seq_after(a, b as int),
{
    let sum: u8 = a.wrapping_add(b);
    assert((a + b) % 256 % 8 == (a + b) % 8);
    mod8(sum)
}

// ---------------------------------------------------------------------------
// Configuration
// ---------------------------------------------------------------------------

#[derive(Debug, Clone, Copy)]
pub struct ArqConfig {
    /// Window size k: how many frames may be unacknowledged (7 at most in
    /// modulus 8).
    pub window: u8,
    /// T1, the acknowledgement timer, in milliseconds.
    pub t1_ms: u64,
    /// N2, the number of retries before giving up.
    pub n2: u32,
    /// N1, the largest payload of one information frame, in bytes.
    pub n1_bytes: usize,
}

pub open spec fn default_arq_config() -> ArqConfig {
    ArqConfig { window: 4, t1_ms: 4000, n2: 10, n1_bytes: 256 }
}

impl Default for ArqConfig {
    fn default() -> (r: Self)
        ensures
            r == default_arq_config(),
    {
        ArqConfig { window: 4, t1_ms: 4000, n2: 10, n1_bytes: 256 }
    }
}

/// The configuration that a user's settings ask for: what is unset takes its
/// default, the window is brought into 1 to 7 and N1 to at least 1.
pub fn arq_config_from(params: &KissArqParams) -> (r: ArqConfig)
    ensures
        r.window == (match params.window {
            Some(w) => if w < 1 {
                1
            } else if w > 7 {
                7
            } else {
                w
            },
            None => 4,
        }),
        r.t1_ms == (match params.t1_ms {
            Some(t) => t as u64,
            None => 4000,
        }),
        r.n2 == (match params.n2 {
            Some(n) => n,
            None => 10,
        }),
        r.n1_bytes == (match params.n1_bytes {
            Some(n) => if n < 1 {
                1
            } else {
                n
            },
            None => 256,
        }),
{
    let default = ArqConfig::default();
    let window: u8 = match params.window {
        Some(w) => w,
        None => default.window,
    };
    let n1_bytes: usize = match params.n1_bytes {
        Some(n) => n,
        None => default.n1_bytes,
    };
    ArqConfig {
        window: if window < 1 {
            1
        } else if window > 7 {
            7
        } else {
            window
        },
        t1_ms: match params.t1_ms {
            Some(t) => t as u64,
            None => default.t1_ms,
        },
        n2: match params.n2 {
            Some(n) => n,
            None => default.n2,
        },
        n1_bytes: if n1_bytes < 1 {
            1
        } else {
            n1_bytes
        },
    }
}

// ---------------------------------------------------------------------------
// Actions
// ---------------------------------------------------------------------------

/// What the owner of a session has to do.
#[derive(Debug)]
pub enum Action {
    /// Send a frame.
    Transmit(Ax25Frame),
    /// Send the bytes of a frame that the `ax25` crate cannot represent. No
    /// session asks for this; it lets replies to XID travel with the rest.
    TransmitRaw(Vec<u8>),
    /// Hand a payload to the application.
    Data(Vec<u8>),
    /// Report a change of state.
    StateChanged(ConnState),
    /// Show a line in the traffic view.
    Monitor(String),
    /// The connection is gone.
    Closed,
}

/// What an action holds.
#[verifier::ext_equal]
pub enum ActionView {
    Transmit(FrameView),
    TransmitRaw(Seq<u8>),
    Data(Seq<u8>),
    StateChanged(ConnState),
    Monitor(Seq<char>),
    Closed,
}

pub open spec fn action_view(a: Action) -> ActionView {
    match a {
        Action::Transmit(f) => ActionView::Transmit(link::frame_view(f)),
        Action::TransmitRaw(b) => ActionView::TransmitRaw(b@),
        Action::Data(b) => ActionView::Data(b@),
        Action::StateChanged(s) => ActionView::StateChanged(s),
        Action::Monitor(l) => ActionView::Monitor(l@),
        Action::Closed => ActionView::Closed,
    }
}

pub open spec fn actions_view(v: Seq<Action>) -> Seq<ActionView> {
    v.map_values(|a: Action| action_view(a))
}

fn add_action(actions: &mut Vec<Action>, a: Action)
    ensures
        actions_view(final(actions)@) == actions_view(old(actions)@).push(action_view(a)),
{
    actions.push(a);
    assert(actions_view(actions@) =~= actions_view(old(actions)@).push(action_view(a)));
}

fn add_all(actions: &mut Vec<Action>, more: &mut Vec<Action>)
    ensures
        actions_view(final(actions)@) == actions_view(old(actions)@) + actions_view(old(more)@),
{
    let ghost a = actions@;
    let ghost b = more@;
    actions.append(more);
    assert(actions_view(actions@) =~= actions_view(a) + actions_view(b));
}

fn no_actions() -> (r: Vec<Action>)
    ensures
        actions_view(r@) == Seq::<ActionView>::empty(),
{
    let r: Vec<Action> = Vec::new();
    assert(actions_view(r@) =~= Seq::<ActionView>::empty());
    r
}

// ---------------------------------------------------------------------------
// Fragments
// ---------------------------------------------------------------------------

/// `bytes` cut into pieces of `n` bytes, the last one as long as what is left.
pub open spec fn fragments(bytes: Seq<u8>, n: int) -> Seq<Seq<u8>>
    decreases bytes.len(),
{
    if bytes.len() == 0 || n <= 0 {
        Seq::empty()
    } else if bytes.len() <= n {
        seq![bytes]
    } else {
        seq![bytes.take(n)] + fragments(bytes.skip(n), n)
    }
}

pub open spec fn byte_views(v: Seq<Vec<u8>>) -> Seq<Seq<u8>> {
    v.map_values(|b: Vec<u8>| b@)
}

/// The bytes of `bytes` from `lo` up to `hi`.
pub fn sub_bytes(bytes: &[u8], lo: usize, hi: usize) -> (r: Vec<u8>)
    requires
        lo <= hi <= bytes@.len(),
    ensures
        r@ == bytes@.subrange(lo as int, hi as int),
{
    let mut out: Vec<u8> = Vec::new();
    let mut i: usize = lo;
    while i < hi
        invariant
            lo <= i <= hi <= bytes@.len(),
            out@ == bytes@.subrange(lo as int, i as int),
        decreases hi - i,
    {
        out.push(bytes[i]);
        assert(bytes@.subrange(lo as int, i + 1) =~= bytes@.subrange(lo as int, i as int).push(
            bytes@[i as int],
        ));
        i += 1;
    }
    out
}

pub fn clone_bytes(bytes: &Vec<u8>) -> (r: Vec<u8>)
    ensures
        r@ == bytes@,
{
    let r = sub_bytes(bytes.as_slice(), 0, bytes.len());
    assert(r@ =~= bytes@);
    r
}

/// `bytes` cut into pieces of `n1` bytes (of one byte where `n1` is 0).
pub fn fragment(bytes: &[u8], n1: usize) -> (r: Vec<Vec<u8>>)
    ensures
        byte_views(r@) == fragments(
            bytes@,
            if n1 == 0 {
                1
            } else {
                n1 as int
            },
        ),
{
    let n: usize = if n1 == 0 {
        1
    } else {
        n1
    };
    let mut out: Vec<Vec<u8>> = Vec::new();
    let mut i: usize = 0;
    assert(bytes@.skip(0) =~= bytes@);
    assert(byte_views(out@) + fragments(bytes@, n as int) =~= fragments(bytes@, n as int));
    while i < bytes.len()
        invariant
            i <= bytes@.len(),
            n > 0,
            byte_views(out@) + fragments(bytes@.skip(i as int), n as int) == fragments(
                bytes@,
                n as int,
            ),
        decreases bytes@.len() - i,
    {
        let ghost rest = bytes@.skip(i as int);
        let ghost before = byte_views(out@);
        let len: usize = bytes.len() - i;
        let take: usize = if len <= n {
            len
        } else {
            n
        };
        let piece = sub_bytes(bytes, i, i + take);
        let ghost piece_view = piece@;
        out.push(piece);
        proof {
            assert(byte_views(out@) =~= before.push(piece_view));
            assert(bytes@.skip(i + take) =~= rest.skip(take as int));
            if len <= n {
                assert(piece_view =~= rest);
                assert(fragments(bytes@.skip(i + take), n as int) =~= Seq::<Seq<u8>>::empty());
                assert(before.push(rest) + Seq::<Seq<u8>>::empty() =~= before + seq![rest]);
            } else {
                assert(piece_view =~= rest.take(n as int));
                assert(before.push(piece_view) + fragments(rest.skip(n as int), n as int)
                    =~= before + (seq![piece_view] + fragments(rest.skip(n as int), n as int)));
            }
        }
        i += take;
    }
    assert(byte_views(out@) + Seq::<Seq<u8>>::empty() =~= byte_views(out@));
    out
}

// ---------------------------------------------------------------------------
// The session and its model
// ---------------------------------------------------------------------------

/// An information frame that was sent and not acknowledged yet.
pub struct PendingIFrame {
    pub seq: u8,
    pub info: Vec<u8>,
}

#[verifier::ext_equal]
pub struct PendingView {
    pub seq: u8,
    pub info: Seq<u8>,
}

pub open spec fn pending_view(p: PendingIFrame) -> PendingView {
    PendingView { seq: p.seq, info: p.info@ }
}

pub open spec fn pendings_view(v: Seq<PendingIFrame>) -> Seq<PendingView> {
    v.map_values(|p: PendingIFrame| pending_view(p))
}

enum SKind {
    Rr,
    Rej,
}

/// One connection with one remote station.
pub struct ArqSession {
    pub local: Address,
    pub remote: Address,
    pub route: Vec<RouteEntry>,
    pub cfg: ArqConfig,
    pub state: ConnState,
    /// V(S), the number of the next frame to send.
    pub vs: u8,
    /// V(R), the number of the next frame expected.
    pub vr: u8,
    /// Sent and not acknowledged, oldest first.
    pub outstanding: VecDeque<PendingIFrame>,
    /// Not sent yet, oldest first.
    pub backlog: VecDeque<Vec<u8>>,
    pub retry_count: u32,
    /// When T1 runs out, while it runs.
    pub t1_deadline: Option<u64>,
    pub peer_busy: bool,
}

/// What a session holds.
#[verifier::ext_equal]
pub struct ArqView {
    pub local: AddressView,
    pub remote: AddressView,
    pub route: Seq<HopView>,
    pub cfg: ArqConfig,
    pub state: ConnState,
    pub vs: u8,
    pub vr: u8,
    pub outstanding: Seq<PendingView>,
    pub backlog: Seq<Seq<u8>>,
    pub retry_count: u32,
    pub t1_deadline: Option<u64>,
    pub peer_busy: bool,
}

impl View for ArqSession {
    type V = ArqView;

    open spec fn view(&self) -> ArqView {
        ArqView {
            local: link::address_view(self.local),
            remote: link::address_view(self.remote),
            route: link::route_view(self.route@),
            cfg: self.cfg,
            state: self.state,
            vs: self.vs,
            vr: self.vr,
            outstanding: pendings_view(self.outstanding@),
            backlog: byte_views(self.backlog@),
            retry_count: self.retry_count,
            t1_deadline: self.t1_deadline,
            peer_busy: self.peer_busy,
        }
    }
}

/// The position of the first frame numbered `nr`, or the length.
pub open spec fn ack_index(outstanding: Seq<PendingView>, nr: u8) -> int
    decreases outstanding.len(),
{
    if outstanding.len() == 0 || outstanding[0].seq == nr {
        0
    } else {
        1 + ack_index(outstanding.skip(1), nr)
    }
}

impl ArqView {
    /// A fresh, disconnected session.
    pub open spec fn fresh(
        local: AddressView,
        remote: AddressView,
        route: Seq<HopView>,
        cfg: ArqConfig,
    ) -> ArqView {
        ArqView {
            local,
            remote,
            route,
            cfg,
            state: ConnState::Disconnected,
            vs: 0,
            vr: 0,
            outstanding: Seq::empty(),
            backlog: Seq::empty(),
            retry_count: 0,
            t1_deadline: None,
            peer_busy: false,
        }
    }

    /// A frame of this session that carries `content`.
    pub open spec fn frame(self, kind: CommandResponse, content: ContentView) -> FrameView {
        FrameView {
            source: self.local,
            destination: self.remote,
            route: self.route,
            command_or_response: Some(kind),
            content,
        }
    }

    pub open spec fn i_frame(self, seq: u8, info: Seq<u8>, poll: bool) -> FrameView {
        self.frame(
            CommandResponse::Command,
            ContentView::Information {
                pid: ProtocolIdentifier::None,
                info,
                receive_sequence: self.vr,
                send_sequence: seq,
                poll,
            },
        )
    }

    pub open spec fn rr(self, poll_or_final: bool) -> ActionView {
        ActionView::Transmit(
            self.frame(
                CommandResponse::Response,
                ContentView::ReceiveReady { receive_sequence: self.vr, poll_or_final },
            ),
        )
    }

    pub open spec fn rej(self) -> ActionView {
        ActionView::Transmit(
            self.frame(
                CommandResponse::Response,
                ContentView::Reject { receive_sequence: self.vr, poll_or_final: false },
            ),
        )
    }

    pub open spec fn sabm(self) -> ActionView {
        ActionView::Transmit(
            self.frame(
                CommandResponse::Command,
                ContentView::SetAsynchronousBalancedMode { poll: true },
            ),
        )
    }

    pub open spec fn disc(self) -> ActionView {
        ActionView::Transmit(
            self.frame(CommandResponse::Command, ContentView::Disconnect { poll: true }),
        )
    }

    pub open spec fn ua(self, final_bit: bool) -> ActionView {
        ActionView::Transmit(
            self.frame(
                CommandResponse::Response,
                ContentView::UnnumberedAcknowledge { final_bit },
            ),
        )
    }

    /// The frame reject that answers an information frame out of place.
    pub open spec fn frmr(self, control: u8) -> ActionView {
        ActionView::Transmit(
            self.frame(
                CommandResponse::Response,
                ContentView::FrameReject(
                    FrameReject {
                        final_bit: false,
                        rejected_control_field_raw: control,
                        z: false,
                        y: false,
                        x: false,
                        w: true,
                        receive_sequence: self.vr,
                        send_sequence: self.vs,
                        command_response: CommandResponse::Response,
                    },
                ),
            ),
        )
    }

    /// When T1 runs out if it is started at `now`.
    pub open spec fn deadline(self, now: u64) -> Option<u64> {
        Some((now + self.cfg.t1_ms) as u64)
    }

    /// Sequence numbers, queues and timer as at the start of a connection.
    pub open spec fn restarted(self) -> ArqView {
        ArqView {
            vs: 0,
            vr: 0,
            outstanding: Seq::empty(),
            backlog: Seq::empty(),
            retry_count: 0,
            t1_deadline: None,
            peer_busy: false,
            ..self
        }
    }

    /// How many frames of the backlog the window lets out: none while the peer
    /// is busy.
    pub open spec fn room(self) -> int {
        let free = self.cfg.window - self.outstanding.len();
        if self.peer_busy || free <= 0 {
            0
        } else if free <= self.backlog.len() {
            free as int
        } else {
            self.backlog.len() as int
        }
    }

    /// The session after the first `k` frames of the backlog went out, numbered
    /// from V(S) on; T1 runs from then on unless it ran before.
    pub open spec fn sent(self, k: int, now: u64) -> ArqView {
        ArqView {
            vs: seq_after(self.vs, k),
            outstanding: self.outstanding + Seq::new(
                k as nat,
                |i: int| PendingView { seq: seq_after(self.vs, i), info: self.backlog[i] },
            ),
            backlog: self.backlog.skip(k),
            t1_deadline: if k > 0 && self.t1_deadline is None {
                self.deadline(now)
            } else {
                self.t1_deadline
            },
            ..self
        }
    }

    pub open spec fn sent_frames(self, k: int) -> Seq<ActionView> {
        Seq::new(
            k as nat,
            |i: int|
                ActionView::Transmit(
                    self.i_frame(seq_after(self.vs, i), self.backlog[i], false),
                ),
        )
    }

    /// The session after as much of the backlog went out as the window allows.
    pub open spec fn drained(self, now: u64) -> ArqView {
        self.sent(self.room(), now)
    }

    pub open spec fn drained_frames(self) -> Seq<ActionView> {
        self.sent_frames(self.room())
    }

    /// The session after the peer acknowledged every frame before number `nr`.
    /// T1 starts anew for what is left.
    pub open spec fn acknowledged(self, nr: u8, now: u64) -> ArqView {
        let left = self.outstanding.skip(ack_index(self.outstanding, nr));
        ArqView {
            outstanding: left,
            retry_count: 0,
            t1_deadline: if left.len() == 0 {
                None
            } else {
                self.deadline(now)
            },
            ..self
        }
    }

    /// Every unacknowledged frame once more, the last one with the poll bit where
    /// `poll_last` is set.
    pub open spec fn resent(self, poll_last: bool) -> Seq<ActionView> {
        Seq::new(
            self.outstanding.len(),
            |i: int|
                ActionView::Transmit(
                    self.i_frame(
                        self.outstanding[i].seq,
                        self.outstanding[i].info,
                        poll_last && i + 1 == self.outstanding.len(),
                    ),
                ),
        )
    }

    /// The session once the link is down.
    pub open spec fn torn_down(self) -> ArqView {
        ArqView {
            state: ConnState::Disconnected,
            outstanding: Seq::empty(),
            backlog: Seq::empty(),
            t1_deadline: None,
            retry_count: 0,
            ..self
        }
    }

    /// What is reported when the link goes down, behind `first`.
    pub open spec fn closing(self, first: Seq<ActionView>) -> Seq<ActionView> {
        if self.state == ConnState::Disconnected {
            first
        } else {
            first.push(ActionView::StateChanged(ConnState::Disconnected)).push(ActionView::Closed)
        }
    }

    pub open spec fn remote_text(self) -> Seq<char> {
        link::address_text(self.remote)
    }

    /// What is shown when N2 retries went unanswered.
    pub open spec fn give_up_reason(self) -> Seq<char> {
        let n2 = text::decimal(self.cfg.n2 as nat);
        match self.state {
            ConnState::Connecting => "connect to "@ + self.remote_text()
                + " failed: no response after "@ + n2 + " retries"@,
            ConnState::Disconnecting => self.remote_text() + " did not confirm disconnect after "@
                + n2 + " retries, closing locally"@,
            _ => "link to "@ + self.remote_text() + " timed out after "@ + n2
                + " retries, disconnecting"@,
        }
    }
}

// ---------------------------------------------------------------------------
// Transitions
// ---------------------------------------------------------------------------

/// A session and the actions that led to it.
pub type Step = (ArqView, Seq<ActionView>);

impl ArqView {
    /// The local user opens the connection: SABM, and T1 runs.
    pub open spec fn opened(self, now: u64) -> Step {
        if self.state != ConnState::Disconnected {
            (self, Seq::empty())
        } else {
            (
                ArqView {
                    state: ConnState::Connecting,
                    t1_deadline: self.deadline(now),
                    ..self.restarted()
                },
                seq![self.sabm(), ActionView::StateChanged(ConnState::Connecting)],
            )
        }
    }

    /// A connection request of the peer is accepted: UA, connected at once.
    pub open spec fn accepted(self, poll: bool) -> Step {
        (
            ArqView { state: ConnState::Connected, ..self.restarted() },
            seq![self.ua(poll), ActionView::StateChanged(ConnState::Connected)],
        )
    }

    /// The local user closes the connection: DISC, what was queued is dropped.
    pub open spec fn closed(self, now: u64) -> Step {
        if self.state == ConnState::Disconnected {
            (self, Seq::empty())
        } else {
            (
                ArqView {
                    state: ConnState::Disconnecting,
                    retry_count: 0,
                    outstanding: Seq::empty(),
                    backlog: Seq::empty(),
                    t1_deadline: self.deadline(now),
                    ..self
                },
                seq![self.disc(), ActionView::StateChanged(ConnState::Disconnecting)],
            )
        }
    }

    /// The bytes behind what is queued already.
    pub open spec fn queued(self, bytes: Seq<u8>) -> ArqView {
        ArqView {
            backlog: self.backlog + fragments(
                bytes,
                if self.cfg.n1_bytes == 0 {
                    1
                } else {
                    self.cfg.n1_bytes as int
                },
            ),
            ..self
        }
    }

    /// Bytes to send: cut into fragments, queued, and sent as the window allows.
    pub open spec fn submitted(self, bytes: Seq<u8>, now: u64) -> Step {
        if self.state != ConnState::Connected {
            (self, Seq::empty())
        } else {
            (self.queued(bytes).drained(now), self.queued(bytes).drained_frames())
        }
    }

    /// An acknowledgement up to `nr`, and what the window then lets out.
    pub open spec fn advanced(self, nr: u8, now: u64) -> Step {
        let acked = self.acknowledged(nr, now);
        (acked.drained(now), acked.drained_frames())
    }

    /// A supervisory frame that tells whether the peer is busy.
    pub open spec fn supervised(
        self,
        busy: bool,
        resend: bool,
        nr: u8,
        poll_or_final: bool,
        now: u64,
    ) -> Step {
        if self.state != ConnState::Connected {
            (self, Seq::empty())
        } else {
            let (next, frames) = ArqView { peer_busy: busy, ..self }.advanced(nr, now);
            let all = if resend {
                frames + next.resent(false)
            } else {
                frames
            };
            (
                next,
                if poll_or_final {
                    all.push(next.rr(true))
                } else {
                    all
                },
            )
        }
    }

    /// An information frame. In sequence it is delivered and acknowledged, else it
    /// is rejected; without a connection it is answered by a frame reject.
    pub open spec fn informed(
        self,
        info: Seq<u8>,
        receive_sequence: u8,
        send_sequence: u8,
        poll: bool,
        now: u64,
    ) -> Step {
        if self.state != ConnState::Connected {
            let control = (receive_sequence << 5) | (if poll {
                0x10u8
            } else {
                0
            }) | (send_sequence << 1);
            (self, seq![self.frmr(control)])
        } else {
            let (next, frames) = self.advanced(receive_sequence, now);
            if send_sequence == self.vr {
                let read = ArqView { vr: seq_after(self.vr, 1), ..next };
                (read, frames.push(ActionView::Data(info)).push(read.rr(false)))
            } else {
                (next, frames.push(next.rej()))
            }
        }
    }

    /// A UA: it completes an opening or a closing, and is otherwise ignored.
    pub open spec fn confirmed(self, now: u64) -> Step {
        match self.state {
            ConnState::Connecting => {
                let up = ArqView {
                    state: ConnState::Connected,
                    retry_count: 0,
                    t1_deadline: None,
                    ..self
                };
                (
                    up.drained(now),
                    seq![ActionView::StateChanged(ConnState::Connected)] + up.drained_frames(),
                )
            },
            ConnState::Disconnecting => (
                ArqView {
                    state: ConnState::Disconnected,
                    t1_deadline: None,
                    retry_count: 0,
                    ..self
                },
                seq![ActionView::StateChanged(ConnState::Disconnected), ActionView::Closed],
            ),
            _ => (self, Seq::empty()),
        }
    }

    /// A frame from the peer.
    pub open spec fn received(self, content: ContentView, now: u64) -> Step {
        match content {
            ContentView::Information { info, receive_sequence, send_sequence, poll, .. } =>
                self.informed(info, receive_sequence, send_sequence, poll, now),
            ContentView::ReceiveReady { receive_sequence, poll_or_final } => self.supervised(
                false,
                false,
                receive_sequence,
                poll_or_final,
                now,
            ),
            ContentView::ReceiveNotReady { receive_sequence, poll_or_final } => self.supervised(
                true,
                false,
                receive_sequence,
                poll_or_final,
                now,
            ),
            ContentView::Reject { receive_sequence, poll_or_final } => self.supervised(
                false,
                true,
                receive_sequence,
                poll_or_final,
                now,
            ),
            ContentView::SetAsynchronousBalancedMode { poll } => (
                ArqView { state: ConnState::Connected, ..self.restarted() },
                if self.state == ConnState::Connected {
                    seq![
                        self.ua(poll),
                        ActionView::Monitor(self.remote_text() + " reset the link"@),
                    ]
                } else {
                    seq![self.ua(poll), ActionView::StateChanged(ConnState::Connected)]
                },
            ),
            ContentView::Disconnect { poll } => (
                ArqView { retry_count: self.retry_count, ..self.torn_down() },
                self.closing(seq![self.ua(poll)]),
            ),
            ContentView::UnnumberedAcknowledge { .. } => self.confirmed(now),
            ContentView::DisconnectedMode { .. } => (
                self.torn_down(),
                if self.state == ConnState::Disconnected {
                    Seq::empty()
                } else {
                    self.closing(
                        seq![
                            ActionView::Monitor(
                                self.remote_text() + " refused or reset the link (DM)"@,
                            ),
                        ],
                    )
                },
            ),
            ContentView::FrameReject(_) => (
                self.torn_down(),
                if self.state == ConnState::Disconnected {
                    Seq::empty()
                } else {
                    self.closing(
                        seq![
                            ActionView::Monitor(
                                self.remote_text()
                                    + " reported a protocol error (FRMR), disconnecting"@,
                            ),
                        ],
                    )
                },
            ),
            ContentView::UnnumberedInformation { .. } => (self, Seq::empty()),
            ContentView::UnknownContent { .. } => (self, Seq::empty()),
        }
    }

    /// A look at the clock: where T1 has run out, what is unanswered is sent again,
    /// or after N2 retries the link is given up.
    pub open spec fn ticked(self, now: u64) -> Step {
        match self.t1_deadline {
            None => (self, Seq::empty()),
            Some(deadline) => if now < deadline {
                (self, Seq::empty())
            } else if self.retry_count >= self.cfg.n2 {
                (self.torn_down(), self.closing(seq![ActionView::Monitor(self.give_up_reason())]))
            } else {
                let again = ArqView {
                    retry_count: (self.retry_count + 1) as u32,
                    t1_deadline: self.deadline(now),
                    ..self
                };
                match self.state {
                    ConnState::Connecting => (again, seq![self.sabm()]),
                    ConnState::Disconnecting => (again, seq![self.disc()]),
                    ConnState::Connected => if self.outstanding.len() == 0 {
                        (ArqView { t1_deadline: None, retry_count: 0, ..self }, Seq::empty())
                    } else {
                        (again, self.resent(true))
                    },
                    ConnState::Disconnected => (again, Seq::empty()),
                }
            },
        }
    }
}

// ---------------------------------------------------------------------------
// The invariant
// ---------------------------------------------------------------------------

impl ArqView {
    /// The unacknowledged frames are numbered in sequence, up to the one before
    /// V(S).
    pub open spec fn numbered(self) -> bool {
        forall|i: int|
            0 <= i < self.outstanding.len() ==> (#[trigger] self.outstanding[i]).seq < 8
                && seq_after(self.outstanding[i].seq, self.outstanding.len() - i) == self.vs
    }

    /// What holds of every session: sequence numbers are below eight, the window
    /// is kept, at most N2 retries were made, and timer and queues fit the state.
    /// T1 runs exactly while an answer is awaited, and connected, data waits only
    /// for a busy peer or a full window.
    pub open spec fn wf(self) -> bool {
        &&& self.vs < 8
        &&& self.vr < 8
        &&& self.outstanding.len() <= self.cfg.window
        &&& self.numbered()
        &&& self.retry_count <= self.cfg.n2
        &&& match self.state {
            ConnState::Disconnected => self.outstanding.len() == 0 && self.backlog.len() == 0
                && self.t1_deadline is None,
            ConnState::Connected => (self.t1_deadline is Some <==> self.outstanding.len() > 0) && (
            self.backlog.len() > 0 ==> self.peer_busy || self.outstanding.len() == self.cfg.window),
            _ => self.outstanding.len() == 0 && self.backlog.len() == 0
                && self.t1_deadline is Some,
        }
    }

    /// The part of the invariant that holds while a connected session is being
    /// worked on.
    spec fn linked(self) -> bool {
        &&& self.vs < 8
        &&& self.vr < 8
        &&& self.outstanding.len() <= self.cfg.window
        &&& self.numbered()
        &&& self.retry_count <= self.cfg.n2
        &&& self.state == ConnState::Connected
        &&& (self.t1_deadline is Some <==> self.outstanding.len() > 0)
    }
}

proof fn lemma_ack_index_range(outstanding: Seq<PendingView>, nr: u8)
    ensures
        0 <= ack_index(outstanding, nr) <= outstanding.len(),
    decreases outstanding.len(),
{
    if outstanding.len() > 0 && outstanding[0].seq != nr {
        lemma_ack_index_range(outstanding.skip(1), nr);
    }
}

pub proof fn lemma_seq_after(a: u8, n: int, m: int)
    requires
        n >= 0,
        m >= 0,
    ensures
        seq_after(seq_after(a, n), m) == seq_after(a, n + m),
        seq_after(a, n) < 8,
{
    assert(((a + n) % 8 + m) % 8 == (a + n + m) % 8);
}

proof fn lemma_drained(s: ArqView, now: u64)
    requires
        s.linked(),
    ensures
        s.drained(now).wf(),
{
    let k = s.room();
    let t = s.drained(now);
    assert forall|i: int| 0 <= i < t.outstanding.len() implies (#[trigger] t.outstanding[i]).seq < 8
        && seq_after(t.outstanding[i].seq, t.outstanding.len() - i) == t.vs by {
        if i < s.outstanding.len() {
            assert(t.outstanding[i] == s.outstanding[i]);
            lemma_seq_after(s.outstanding[i].seq, s.outstanding.len() - i, k);
        } else {
            let j = i - s.outstanding.len();
            assert(t.outstanding[i].seq == seq_after(s.vs, j));
            lemma_seq_after(s.vs, j, k - j);
        }
    }
}

proof fn lemma_acknowledged(s: ArqView, nr: u8, now: u64)
    requires
        s.linked(),
    ensures
        s.acknowledged(nr, now).linked(),
{
    lemma_ack_index_range(s.outstanding, nr);
    let t = s.acknowledged(nr, now);
    let d = ack_index(s.outstanding, nr);
    assert forall|i: int| 0 <= i < t.outstanding.len() implies (#[trigger] t.outstanding[i]).seq < 8
        && seq_after(t.outstanding[i].seq, t.outstanding.len() - i) == t.vs by {
        assert(t.outstanding[i] == s.outstanding[i + d]);
    }
}

/// Every event keeps the invariant: opening, accepting, closing, sending, a frame
/// of any kind, and the clock.
pub proof fn law_invariant_kept(s: ArqView, poll: bool, bytes: Seq<u8>, content: ContentView, now: u64)
    requires
        s.wf(),
    ensures
        s.opened(now).0.wf(),
        s.accepted(poll).0.wf(),
        s.closed(now).0.wf(),
        s.submitted(bytes, now).0.wf(),
        s.received(content, now).0.wf(),
        s.ticked(now).0.wf(),
{
    if s.state == ConnState::Connected {
        assert(s.linked());
        lemma_drained(s.queued(bytes), now);
        match content {
            ContentView::Information { receive_sequence, .. } => {
                lemma_acknowledged(s, receive_sequence, now);
                lemma_drained(s.acknowledged(receive_sequence, now), now);
            },
            ContentView::ReceiveReady { receive_sequence, .. } => {
                let b = ArqView { peer_busy: false, ..s };
                lemma_acknowledged(b, receive_sequence, now);
                lemma_drained(b.acknowledged(receive_sequence, now), now);
            },
            ContentView::ReceiveNotReady { receive_sequence, .. } => {
                let b = ArqView { peer_busy: true, ..s };
                lemma_acknowledged(b, receive_sequence, now);
                lemma_drained(b.acknowledged(receive_sequence, now), now);
            },
            ContentView::Reject { receive_sequence, .. } => {
                let b = ArqView { peer_busy: false, ..s };
                lemma_acknowledged(b, receive_sequence, now);
                lemma_drained(b.acknowledged(receive_sequence, now), now);
            },
            _ => {},
        }
    }
    if s.state == ConnState::Connecting {
        let up = ArqView {
            state: ConnState::Connected,
            retry_count: 0,
            t1_deadline: None,
            ..s
        };
        lemma_drained(up, now);
    }
}

proof fn lemma_sent_none(s: ArqView, now: u64)
    requires
        s.vs < 8,
    ensures
        s.sent(0, now) == s,
        s.sent_frames(0) == Seq::<ActionView>::empty(),
{
    assert(s.sent(0, now).outstanding =~= s.outstanding);
    assert(s.sent(0, now).backlog =~= s.backlog);
    assert(s.sent_frames(0) =~= Seq::<ActionView>::empty());
}

// ---------------------------------------------------------------------------
// The state machine
// ---------------------------------------------------------------------------

fn one_action(a: Action) -> (r: Vec<Action>)
    ensures
        actions_view(r@) == seq![action_view(a)],
{
    let mut r: Vec<Action> = Vec::new();
    r.push(a);
    assert(actions_view(r@) =~= seq![action_view(a)]);
    r
}

fn two_actions(a: Action, b: Action) -> (r: Vec<Action>)
    ensures
        actions_view(r@) == seq![action_view(a), action_view(b)],
{
    let mut r: Vec<Action> = Vec::new();
    r.push(a);
    r.push(b);
    assert(actions_view(r@) =~= seq![action_view(a), action_view(b)]);
    r
}

pub proof fn lemma_ack_index(outstanding: Seq<PendingView>, nr: u8, k: int)
    requires
        0 <= k <= outstanding.len(),
        forall|i: int| 0 <= i < k ==> (#[trigger] outstanding[i]).seq != nr,
        k < outstanding.len() ==> outstanding[k].seq == nr,
    ensures
        ack_index(outstanding, nr) == k,
    decreases k,
{
    if k > 0 {
        assert(outstanding[0].seq != nr);
        assert forall|i: int| 0 <= i < k - 1 implies (#[trigger] outstanding.skip(1)[i]).seq
            != nr by {
            assert(outstanding[i + 1].seq != nr);
        }
        lemma_ack_index(outstanding.skip(1), nr, k - 1);
    }
}

impl ArqSession {
    pub fn new(local: Address, remote: Address, route: Vec<RouteEntry>, cfg: ArqConfig) -> (r: Self)
        ensures
            r@ == ArqView::fresh(
                link::address_view(local),
                link::address_view(remote),
                link::route_view(route@),
                cfg,
            ),
            r@.wf(),
            r.local == local,
            r.remote == remote,
            r.route == route,
            r.cfg == cfg,
            r@.state == ConnState::Disconnected,
    {
        let r = ArqSession {
            local,
            remote,
            route,
            cfg,
            state: ConnState::Disconnected,
            vs: 0,
            vr: 0,
            outstanding: VecDeque::new(),
            backlog: VecDeque::new(),
            retry_count: 0,
            t1_deadline: None,
            peer_busy: false,
        };
        assert(r@.outstanding =~= Seq::<PendingView>::empty());
        assert(r@.backlog =~= Seq::<Seq<u8>>::empty());
        r
    }

    pub fn state(&self) -> (r: ConnState)
        ensures
            r == self@.state,
    {
        self.state
    }

    pub fn remote(&self) -> (r: &Address)
        ensures
            *r == self.remote,
    {
        &self.remote
    }

    /// Opens the connection. Nothing happens unless the session is disconnected.
    pub fn open(&mut self, now: u64) -> (r: Vec<Action>)
        requires
            old(self)@.wf(),
            now + old(self).cfg.t1_ms <= u64::MAX,
        ensures
            final(self)@.wf(),
            final(self).cfg == old(self).cfg,
            final(self)@ == old(self)@.opened(now).0,
            actions_view(r@) == old(self)@.opened(now).1,
    {
        proof {
            law_invariant_kept(self@, false, Seq::empty(), ContentView::Disconnect { poll: false }, now);
        }
        if self.state != ConnState::Disconnected {
            return no_actions();
        }
        self.reset_sequence_state();
        self.state = ConnState::Connecting;
        self.t1_deadline = Some(now + self.cfg.t1_ms);
        two_actions(
            Action::Transmit(self.build_sabm(true)),
            Action::StateChanged(ConnState::Connecting),
        )
    }

    /// Accepts a connection request of the peer.
    pub fn accept_incoming(&mut self, poll: bool, _now: u64) -> (r: Vec<Action>)
        requires
            old(self)@.wf(),
        ensures
            final(self)@.wf(),
            final(self).cfg == old(self).cfg,
            final(self)@ == old(self)@.accepted(poll).0,
            actions_view(r@) == old(self)@.accepted(poll).1,
    {
        proof {
            law_invariant_kept(self@, poll, Seq::empty(), ContentView::Disconnect { poll: false }, _now);
        }
        self.reset_sequence_state();
        self.state = ConnState::Connected;
        two_actions(
            Action::Transmit(self.build_ua(poll)),
            Action::StateChanged(ConnState::Connected),
        )
    }

    /// Closes the connection. Nothing happens if the session is disconnected.
    pub fn close(&mut self, now: u64) -> (r: Vec<Action>)
        requires
            old(self)@.wf(),
            now + old(self).cfg.t1_ms <= u64::MAX,
        ensures
            final(self)@.wf(),
            final(self).cfg == old(self).cfg,
            final(self)@ == old(self)@.closed(now).0,
            actions_view(r@) == old(self)@.closed(now).1,
    {
        proof {
            law_invariant_kept(self@, false, Seq::empty(), ContentView::Disconnect { poll: false }, now);
        }
        if self.state == ConnState::Disconnected {
            return no_actions();
        }
        self.state = ConnState::Disconnecting;
        self.retry_count = 0;
        self.clear_queues();
        self.t1_deadline = Some(now + self.cfg.t1_ms);
        two_actions(
            Action::Transmit(self.build_disc(true)),
            Action::StateChanged(ConnState::Disconnecting),
        )
    }

    /// Queues application bytes and sends as much as the window allows. Nothing
    /// happens unless the session is connected.
    pub fn send(&mut self, bytes: Vec<u8>, now: u64) -> (r: Vec<Action>)
        requires
            old(self)@.wf(),
            now + old(self).cfg.t1_ms <= u64::MAX,
        ensures
            final(self)@.wf(),
            final(self).cfg == old(self).cfg,
            final(self)@ == old(self)@.submitted(bytes@, now).0,
            actions_view(r@) == old(self)@.submitted(bytes@, now).1,
    {
        proof {
            law_invariant_kept(self@, false, bytes@, ContentView::Disconnect { poll: false }, now);
        }
        if self.state != ConnState::Connected {
            return no_actions();
        }
        let mut chunks = fragment(bytes.as_slice(), self.cfg.n1_bytes);
        let ghost all = byte_views(chunks@);
        let ghost before = self@;
        while chunks.len() > 0
            invariant
                now + self.cfg.t1_ms <= u64::MAX,
                self@ == (ArqView { backlog: self@.backlog, ..before }),
                self@.backlog + byte_views(chunks@) == before.backlog + all,
                self.vs < 8,
            decreases chunks@.len(),
        {
            let ghost queue = self.backlog@;
            let ghost rest = chunks@;
            let chunk = chunks.remove(0);
            self.backlog.push_back(chunk);
            proof {
                assert(byte_views(self.backlog@) =~= byte_views(queue).push(rest[0]@));
                assert(byte_views(chunks@) =~= byte_views(rest).skip(1));
                assert(byte_views(queue).push(rest[0]@) + byte_views(rest).skip(1) =~= byte_views(
                    queue,
                ) + byte_views(rest));
            }
        }
        assert(self@.backlog + Seq::<Seq<u8>>::empty() =~= self@.backlog);
        assert(byte_views(chunks@) =~= Seq::<Seq<u8>>::empty());
        assert(self@ =~= before.queued(bytes@));
        self.push_backlog_into_window(now)
    }

    /// Takes a frame that the peer of this session sent to us.
    pub fn on_frame(&mut self, frame: &Ax25Frame, now: u64) -> (r: Vec<Action>)
        requires
            old(self)@.wf(),
            now + old(self).cfg.t1_ms <= u64::MAX,
        ensures
            final(self)@.wf(),
            final(self).cfg == old(self).cfg,
            final(self)@ == old(self)@.received(link::content_view(frame.content), now).0,
            actions_view(r@) == old(self)@.received(link::content_view(frame.content), now).1,
            arq_laws::told(old(self)@.state, actions_view(r@), final(self)@.state),
            old(self)@.state == ConnState::Connected && frame.content is Information
                ==> arq_laws::information_taken(
                old(self)@,
                link::content_view(frame.content),
                final(self)@,
                actions_view(r@),
            ),
    {
        proof {
            let content = link::content_view(frame.content);
            law_invariant_kept(self@, false, Seq::empty(), content, now);
            arq_laws::law_changes_reported(self@, false, content, now);
            if self@.state == ConnState::Connected && content is Information {
                arq_laws::law_information_frame(self@, content, now);
            }
        }
        match &frame.content {
            FrameContent::Information(i) => self.on_information(i, now),
            FrameContent::ReceiveReady(rr) => self.on_rr(rr, now),
            FrameContent::ReceiveNotReady(rnr) => self.on_rnr(rnr, now),
            FrameContent::Reject(rej) => self.on_reject(rej, now),
            FrameContent::SetAsynchronousBalancedMode(s) => self.on_sabm(s),
            FrameContent::Disconnect(d) => self.on_disc(d),
            FrameContent::UnnumberedAcknowledge(_) => self.on_ua(now),
            FrameContent::DisconnectedMode(_) => self.on_dm(),
            FrameContent::FrameReject(_) => self.on_frmr(),
            FrameContent::UnnumberedInformation(_) => no_actions(),
            FrameContent::UnknownContent(_) => no_actions(),
        }
    }

    /// Looks at the clock: where T1 has run out, resends or gives up.
    pub fn tick(&mut self, now: u64) -> (r: Vec<Action>)
        requires
            old(self)@.wf(),
            now + old(self).cfg.t1_ms <= u64::MAX,
        ensures
            final(self)@.wf(),
            final(self).cfg == old(self).cfg,
            final(self)@ == old(self)@.ticked(now).0,
            actions_view(r@) == old(self)@.ticked(now).1,
            arq_laws::told(old(self)@.state, actions_view(r@), final(self)@.state),
    {
        proof {
            law_invariant_kept(self@, false, Seq::empty(), ContentView::Disconnect { poll: false }, now);
            arq_laws::law_changes_reported(self@, false, ContentView::Disconnect { poll: false }, now);
        }
        let deadline: u64 = match self.t1_deadline {
            Some(d) => d,
            None => {
                return no_actions();
            },
        };
        if now < deadline {
            return no_actions();
        }
        if self.retry_count >= self.cfg.n2 {
            return self.give_up();
        }
        self.retry_count = self.retry_count + 1;
        self.t1_deadline = Some(now + self.cfg.t1_ms);
        match self.state {
            ConnState::Connecting => one_action(Action::Transmit(self.build_sabm(true))),
            ConnState::Disconnecting => one_action(Action::Transmit(self.build_disc(true))),
            ConnState::Connected => {
                if self.outstanding.len() == 0 {
                    self.t1_deadline = None;
                    self.retry_count = 0;
                    no_actions()
                } else {
                    self.retransmit_outstanding(true)
                }
            },
            ConnState::Disconnected => no_actions(),
        }
    }

    fn clear_queues(&mut self)
        ensures
            final(self)@ == (ArqView {
                outstanding: Seq::empty(),
                backlog: Seq::empty(),
                ..old(self)@
            }),
    {
        self.outstanding.clear();
        self.backlog.clear();
        assert(self@.outstanding =~= Seq::<PendingView>::empty());
        assert(self@.backlog =~= Seq::<Seq<u8>>::empty());
    }

    fn reset_sequence_state(&mut self)
        ensures
            final(self)@ == old(self)@.restarted(),
    {
        self.vs = 0;
        self.vr = 0;
        self.retry_count = 0;
        self.clear_queues();
        self.peer_busy = false;
        self.t1_deadline = None;
    }

    fn on_information(&mut self, i: &Information, now: u64) -> (r: Vec<Action>)
        requires
            old(self).vs < 8,
            now + old(self).cfg.t1_ms <= u64::MAX,
        ensures
            final(self)@ == old(self)@.informed(
                i.info@,
                i.receive_sequence,
                i.send_sequence,
                i.poll,
                now,
            ).0,
            actions_view(r@) == old(self)@.informed(
                i.info@,
                i.receive_sequence,
                i.send_sequence,
                i.poll,
                now,
            ).1,
    {
        if self.state != ConnState::Connected {
            let poll: u8 = if i.poll {
                0x10
            } else {
                0
            };
            let control: u8 = (i.receive_sequence << 5) | poll | (i.send_sequence << 1);
            return one_action(Action::Transmit(self.build_frmr(control)));
        }
        let mut actions = self.ack_up_to(i.receive_sequence, now);
        if i.send_sequence == self.vr {
            self.vr = seq_add(self.vr, 1);
            add_action(&mut actions, Action::Data(clone_bytes(&i.info)));
            add_action(&mut actions, Action::Transmit(self.build_s_frame(SKind::Rr, false)));
        } else {
            add_action(&mut actions, Action::Transmit(self.build_s_frame(SKind::Rej, false)));
        }
        actions
    }

    fn on_rr(&mut self, rr: &ReceiveReady, now: u64) -> (r: Vec<Action>)
        requires
            old(self).vs < 8,
            now + old(self).cfg.t1_ms <= u64::MAX,
        ensures
            final(self)@ == old(self)@.supervised(
                false,
                false,
                rr.receive_sequence,
                rr.poll_or_final,
                now,
            ).0,
            actions_view(r@) == old(self)@.supervised(
                false,
                false,
                rr.receive_sequence,
                rr.poll_or_final,
                now,
            ).1,
    {
        if self.state != ConnState::Connected {
            return no_actions();
        }
        self.peer_busy = false;
        let mut actions = self.ack_up_to(rr.receive_sequence, now);
        if rr.poll_or_final {
            add_action(&mut actions, Action::Transmit(self.build_s_frame(SKind::Rr, true)));
        }
        actions
    }

    fn on_rnr(&mut self, rnr: &ReceiveNotReady, now: u64) -> (r: Vec<Action>)
        requires
            old(self).vs < 8,
            now + old(self).cfg.t1_ms <= u64::MAX,
        ensures
            final(self)@ == old(self)@.supervised(
                true,
                false,
                rnr.receive_sequence,
                rnr.poll_or_final,
                now,
            ).0,
            actions_view(r@) == old(self)@.supervised(
                true,
                false,
                rnr.receive_sequence,
                rnr.poll_or_final,
                now,
            ).1,
    {
        if self.state != ConnState::Connected {
            return no_actions();
        }
        self.peer_busy = true;
        let mut actions = self.ack_up_to(rnr.receive_sequence, now);
        if rnr.poll_or_final {
            add_action(&mut actions, Action::Transmit(self.build_s_frame(SKind::Rr, true)));
        }
        actions
    }

    fn on_reject(&mut self, rej: &Reject, now: u64) -> (r: Vec<Action>)
        requires
            old(self).vs < 8,
            now + old(self).cfg.t1_ms <= u64::MAX,
        ensures
            final(self)@ == old(self)@.supervised(
                false,
                true,
                rej.receive_sequence,
                rej.poll_or_final,
                now,
            ).0,
            actions_view(r@) == old(self)@.supervised(
                false,
                true,
                rej.receive_sequence,
                rej.poll_or_final,
                now,
            ).1,
    {
        if self.state != ConnState::Connected {
            return no_actions();
        }
        self.peer_busy = false;
        let mut actions = self.ack_up_to(rej.receive_sequence, now);
        let mut again = self.retransmit_outstanding(false);
        add_all(&mut actions, &mut again);
        if rej.poll_or_final {
            add_action(&mut actions, Action::Transmit(self.build_s_frame(SKind::Rr, true)));
        }
        actions
    }

    /// A SABM on a session that exists resets the link and keeps the session.
    fn on_sabm(&mut self, s: &SetAsynchronousBalancedMode) -> (r: Vec<Action>)
        ensures
            final(self)@ == (ArqView { state: ConnState::Connected, ..old(self)@.restarted() }),
            actions_view(r@) == (if old(self)@.state == ConnState::Connected {
                seq![
                    old(self)@.ua(s.poll),
                    ActionView::Monitor(old(self)@.remote_text() + " reset the link"@),
                ]
            } else {
                seq![old(self)@.ua(s.poll), ActionView::StateChanged(ConnState::Connected)]
            }),
    {
        let was_connected = self.state == ConnState::Connected;
        self.reset_sequence_state();
        self.state = ConnState::Connected;
        let ua = Action::Transmit(self.build_ua(s.poll));
        if was_connected {
            two_actions(ua, Action::Monitor(self.remote_line(" reset the link")))
        } else {
            two_actions(ua, Action::StateChanged(ConnState::Connected))
        }
    }

    /// The address of the peer, followed by `what`.
    fn remote_line(&self, what: &str) -> (r: String)
        ensures
            r@ == self@.remote_text() + what@,
    {
        let mut line = link::address_string(&self.remote);
        line.append(what);
        line
    }

    fn on_disc(&mut self, d: &Disconnect) -> (r: Vec<Action>)
        ensures
            final(self)@ == (ArqView {
                retry_count: old(self)@.retry_count,
                ..old(self)@.torn_down()
            }),
            actions_view(r@) == old(self)@.closing(seq![old(self)@.ua(d.poll)]),
    {
        let ua = self.build_ua(d.poll);
        let was_disconnected = self.state == ConnState::Disconnected;
        self.state = ConnState::Disconnected;
        self.clear_queues();
        self.t1_deadline = None;
        let mut actions = one_action(Action::Transmit(ua));
        if !was_disconnected {
            add_action(&mut actions, Action::StateChanged(ConnState::Disconnected));
            add_action(&mut actions, Action::Closed);
        }
        actions
    }

    fn on_ua(&mut self, now: u64) -> (r: Vec<Action>)
        requires
            old(self).vs < 8,
            now + old(self).cfg.t1_ms <= u64::MAX,
        ensures
            final(self)@ == old(self)@.confirmed(now).0,
            actions_view(r@) == old(self)@.confirmed(now).1,
    {
        match self.state {
            ConnState::Connecting => {
                self.state = ConnState::Connected;
                self.retry_count = 0;
                self.t1_deadline = None;
                let mut actions = one_action(Action::StateChanged(ConnState::Connected));
                let mut more = self.push_backlog_into_window(now);
                add_all(&mut actions, &mut more);
                actions
            },
            ConnState::Disconnecting => {
                self.state = ConnState::Disconnected;
                self.t1_deadline = None;
                self.retry_count = 0;
                two_actions(Action::StateChanged(ConnState::Disconnected), Action::Closed)
            },
            _ => no_actions(),
        }
    }

    /// The link is down; unless it was down before, `line` and the change are
    /// reported.
    fn tear_down(&mut self, line: String) -> (r: Vec<Action>)
        ensures
            final(self)@ == old(self)@.torn_down(),
            actions_view(r@) == (if old(self)@.state == ConnState::Disconnected {
                Seq::<ActionView>::empty()
            } else {
                old(self)@.closing(seq![ActionView::Monitor(line@)])
            }),
    {
        let was_disconnected = self.state == ConnState::Disconnected;
        self.state = ConnState::Disconnected;
        self.clear_queues();
        self.t1_deadline = None;
        self.retry_count = 0;
        if was_disconnected {
            no_actions()
        } else {
            let mut actions = one_action(Action::Monitor(line));
            add_action(&mut actions, Action::StateChanged(ConnState::Disconnected));
            add_action(&mut actions, Action::Closed);
            actions
        }
    }

    fn on_dm(&mut self) -> (r: Vec<Action>)
        ensures
            final(self)@ == old(self)@.torn_down(),
            actions_view(r@) == (if old(self)@.state == ConnState::Disconnected {
                Seq::<ActionView>::empty()
            } else {
                old(self)@.closing(
                    seq![
                        ActionView::Monitor(
                            old(self)@.remote_text() + " refused or reset the link (DM)"@,
                        ),
                    ],
                )
            }),
    {
        let line = self.remote_line(" refused or reset the link (DM)");
        self.tear_down(line)
    }

    fn on_frmr(&mut self) -> (r: Vec<Action>)
        ensures
            final(self)@ == old(self)@.torn_down(),
            actions_view(r@) == (if old(self)@.state == ConnState::Disconnected {
                Seq::<ActionView>::empty()
            } else {
                old(self)@.closing(
                    seq![
                        ActionView::Monitor(
                            old(self)@.remote_text()
                                + " reported a protocol error (FRMR), disconnecting"@,
                        ),
                    ],
                )
            }),
    {
        let line = self.remote_line(" reported a protocol error (FRMR), disconnecting");
        self.tear_down(line)
    }

    fn give_up(&mut self) -> (r: Vec<Action>)
        ensures
            final(self)@ == old(self)@.torn_down(),
            actions_view(r@) == old(self)@.closing(
                seq![ActionView::Monitor(old(self)@.give_up_reason())],
            ),
    {
        let n2 = text::decimal_text(self.cfg.n2 as u64);
        let mut reason = String::new();
        match self.state {
            ConnState::Connecting => {
                reason.append("connect to ");
                let who = self.remote_line(" failed: no response after ");
                reason.append(who.as_str());
                reason.append(n2.as_str());
                reason.append(" retries");
            },
            ConnState::Disconnecting => {
                let who = self.remote_line(" did not confirm disconnect after ");
                reason.append(who.as_str());
                reason.append(n2.as_str());
                reason.append(" retries, closing locally");
            },
            _ => {
                reason.append("link to ");
                let who = self.remote_line(" timed out after ");
                reason.append(who.as_str());
                reason.append(n2.as_str());
                reason.append(" retries, disconnecting");
            },
        }
        assert(reason@ =~= self@.give_up_reason());
        let was_disconnected = self.state == ConnState::Disconnected;
        self.state = ConnState::Disconnected;
        self.clear_queues();
        self.t1_deadline = None;
        self.retry_count = 0;
        let mut actions = one_action(Action::Monitor(reason));
        if !was_disconnected {
            add_action(&mut actions, Action::StateChanged(ConnState::Disconnected));
            add_action(&mut actions, Action::Closed);
        }
        actions
    }

    /// Drops every outstanding frame before number `nr`, stops or restarts T1, and
    /// sends as much of the backlog as the window then allows.
    fn ack_up_to(&mut self, nr: u8, now: u64) -> (r: Vec<Action>)
        requires
            old(self).vs < 8,
            now + old(self).cfg.t1_ms <= u64::MAX,
        ensures
            final(self)@ == old(self)@.advanced(nr, now).0,
            actions_view(r@) == old(self)@.advanced(nr, now).1,
    {
        let ghost before = self@;
        let ghost mut k: int = 0;
        assert(before.outstanding.skip(0) =~= before.outstanding);
        while self.outstanding.len() > 0 && self.outstanding[0].seq != nr
            invariant
                0 <= k <= before.outstanding.len(),
                self@ == (ArqView { outstanding: before.outstanding.skip(k), ..before }),
                forall|i: int| 0 <= i < k ==> (#[trigger] before.outstanding[i]).seq != nr,
                now + self.cfg.t1_ms <= u64::MAX,
            decreases self.outstanding@.len(),
        {
            let ghost queue = self.outstanding@;
            assert(pendings_view(queue).len() == queue.len());
            assert(pendings_view(queue) == before.outstanding.skip(k));
            assert(pendings_view(queue)[0] == before.outstanding[k]);
            let _ = self.outstanding.pop_front();
            proof {
                assert(self.outstanding@ =~= queue.skip(1));
                assert(pendings_view(self.outstanding@) =~= pendings_view(queue).skip(1));
                assert(before.outstanding.skip(k).skip(1) =~= before.outstanding.skip(k + 1));
                k = k + 1;
            }
        }
        proof {
            assert(pendings_view(self.outstanding@).len() == self.outstanding@.len());
            assert(pendings_view(self.outstanding@) == before.outstanding.skip(k));
            if k < before.outstanding.len() {
                assert(pendings_view(self.outstanding@)[0] == before.outstanding[k]);
            }
            lemma_ack_index(before.outstanding, nr, k);
        }
        self.retry_count = 0;
        if self.outstanding.len() == 0 {
            self.t1_deadline = None;
        } else {
            self.t1_deadline = Some(now + self.cfg.t1_ms);
        }
        assert(self@ =~= before.acknowledged(nr, now));
        self.push_backlog_into_window(now)
    }

    fn push_backlog_into_window(&mut self, now: u64) -> (r: Vec<Action>)
        requires
            old(self).vs < 8,
            now + old(self).cfg.t1_ms <= u64::MAX,
        ensures
            final(self)@ == old(self)@.drained(now),
            actions_view(r@) == old(self)@.drained_frames(),
    {
        let ghost before = self@;
        let mut actions = no_actions();
        if self.peer_busy {
            proof {
                lemma_sent_none(before, now);
            }
            return actions;
        }
        let ghost mut k: int = 0;
        proof {
            lemma_sent_none(before, now);
        }
        while self.outstanding.len() < self.cfg.window as usize && self.backlog.len() > 0
            invariant
                0 <= k <= before.backlog.len(),
                k > 0 ==> before.outstanding.len() + k <= before.cfg.window,
                self@ == before.sent(k, now),
                actions_view(actions@) == before.sent_frames(k),
                now + self.cfg.t1_ms <= u64::MAX,
                !before.peer_busy,
                before.vs < 8,
            decreases before.backlog.len() - k,
        {
            let ghost queue = self.backlog@;
            let ghost pending = self.outstanding@;
            assert(byte_views(queue).len() == queue.len());
            assert(byte_views(queue) == before.backlog.skip(k));
            assert(byte_views(queue)[0] == before.backlog[k]);
            let chunk = match self.backlog.pop_front() {
                Some(c) => c,
                None => Vec::new(),
            };
            assert(self.backlog@ =~= queue.skip(1));
            let seq: u8 = self.vs;
            self.vs = seq_add(self.vs, 1);
            let frame = self.build_i_frame(seq, clone_bytes(&chunk), false);
            self.outstanding.push_back(PendingIFrame { seq, info: chunk });
            if self.t1_deadline.is_none() {
                self.t1_deadline = Some(now + self.cfg.t1_ms);
            }
            let ghost sent = actions_view(actions@);
            add_action(&mut actions, Action::Transmit(frame));
            proof {
                assert(pendings_view(self.outstanding@) =~= pendings_view(pending).push(
                    PendingView { seq, info: before.backlog[k] },
                ));
                assert(byte_views(self.backlog@) =~= byte_views(queue).skip(1));
                assert(before.backlog.skip(k).skip(1) =~= before.backlog.skip(k + 1));
                assert(self@.outstanding =~= before.sent(k + 1, now).outstanding);
                assert(self@ =~= before.sent(k + 1, now));
                assert(actions_view(actions@) =~= before.sent_frames(k + 1));
                k = k + 1;
            }
        }
        assert(byte_views(self.backlog@).len() == self.backlog@.len());
        assert(pendings_view(self.outstanding@).len() == self.outstanding@.len());
        assert(self@.outstanding.len() == before.outstanding.len() + k);
        assert(k == before.room());
        actions
    }

    fn retransmit_outstanding(&self, poll_last: bool) -> (r: Vec<Action>)
        ensures
            actions_view(r@) == self@.resent(poll_last),
    {
        let len: usize = self.outstanding.len();
        let mut actions = no_actions();
        let mut i: usize = 0;
        while i < len
            invariant
                i <= len,
                len == self.outstanding@.len(),
                actions_view(actions@) == self@.resent(poll_last).take(i as int),
            decreases len - i,
        {
            let poll = poll_last && i + 1 == len;
            let p = &self.outstanding[i];
            assert(pendings_view(self.outstanding@)[i as int] == pending_view(*p));
            let frame = self.build_i_frame(p.seq, clone_bytes(&p.info), poll);
            add_action(&mut actions, Action::Transmit(frame));
            assert(self@.resent(poll_last).take(i + 1) =~= self@.resent(poll_last).take(
                i as int,
            ).push(self@.resent(poll_last)[i as int]));
            i += 1;
        }
        assert(self@.resent(poll_last).take(i as int) =~= self@.resent(poll_last));
        actions
    }

    /// A frame of this session with the given content.
    fn build(&self, kind: CommandResponse, content: FrameContent) -> (r: Ax25Frame)
        ensures
            link::frame_view(r) == self@.frame(kind, link::content_view(content)),
    {
        Ax25Frame {
            source: self.local.clone(),
            destination: self.remote.clone(),
            route: link::clone_route(&self.route),
            command_or_response: Some(kind),
            content,
        }
    }

    fn build_i_frame(&self, seq: u8, info: Vec<u8>, poll: bool) -> (r: Ax25Frame)
        ensures
            link::frame_view(r) == self@.i_frame(seq, info@, poll),
    {
        self.build(
            CommandResponse::Command,
            FrameContent::Information(
                Information {
                    pid: ProtocolIdentifier::None,
                    info,
                    receive_sequence: self.vr,
                    send_sequence: seq,
                    poll,
                },
            ),
        )
    }

    fn build_s_frame(&self, kind: SKind, poll_or_final: bool) -> (r: Ax25Frame)
        ensures
            link::frame_view(r) == self@.frame(
                CommandResponse::Response,
                match kind {
                    SKind::Rr => ContentView::ReceiveReady {
                        receive_sequence: self.vr,
                        poll_or_final,
                    },
                    SKind::Rej => ContentView::Reject { receive_sequence: self.vr, poll_or_final },
                },
            ),
    {
        let content = match kind {
            SKind::Rr => FrameContent::ReceiveReady(
                ReceiveReady { receive_sequence: self.vr, poll_or_final },
            ),
            SKind::Rej => FrameContent::Reject(
                Reject { receive_sequence: self.vr, poll_or_final },
            ),
        };
        self.build(CommandResponse::Response, content)
    }

    fn build_sabm(&self, poll: bool) -> (r: Ax25Frame)
        ensures
            link::frame_view(r) == self@.frame(
                CommandResponse::Command,
                ContentView::SetAsynchronousBalancedMode { poll },
            ),
    {
        self.build(
            CommandResponse::Command,
            FrameContent::SetAsynchronousBalancedMode(SetAsynchronousBalancedMode { poll }),
        )
    }

    fn build_disc(&self, poll: bool) -> (r: Ax25Frame)
        ensures
            link::frame_view(r) == self@.frame(
                CommandResponse::Command,
                ContentView::Disconnect { poll },
            ),
    {
        self.build(CommandResponse::Command, FrameContent::Disconnect(Disconnect { poll }))
    }

    fn build_ua(&self, final_bit: bool) -> (r: Ax25Frame)
        ensures
            link::frame_view(r) == self@.frame(
                CommandResponse::Response,
                ContentView::UnnumberedAcknowledge { final_bit },
            ),
    {
        self.build(
            CommandResponse::Response,
            FrameContent::UnnumberedAcknowledge(UnnumberedAcknowledge { final_bit }),
        )
    }

    /// A frame reject for a control field that is invalid in the current state.
    fn build_frmr(&self, rejected_control_field_raw: u8) -> (r: Ax25Frame)
        ensures
            ActionView::Transmit(link::frame_view(r)) == self@.frmr(rejected_control_field_raw),
    {
        self.build(
            CommandResponse::Response,
            FrameContent::FrameReject(
                FrameReject {
                    final_bit: false,
                    rejected_control_field_raw,
                    z: false,
                    y: false,
                    x: false,
                    w: true,
                    receive_sequence: self.vr,
                    send_sequence: self.vs,
                    command_response: CommandResponse::Response,
                },
            ),
        )
    }
}

} // verus!
