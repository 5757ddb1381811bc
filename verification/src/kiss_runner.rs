//! The connected mode and the unconnected traffic of a KISS port, without its
//! I/O: what the reader heard and what the user asks for goes in, bytes to write
//! and events to report come out.

use ax25::frame::{Address, Ax25Frame, FrameContent};
use vstd::prelude::*;

use crate::arq::{self, Action, ActionView, ArqConfig, ArqSession, ArqView};
use crate::config::{KissArqParams, KissParams};
use crate::kiss::{self, DecoderView, KissDecoder};
use crate::kiss_monitor::{self, InternalEvent, InternalView};
use crate::link::{self, AddressView, ContentView, FrameView};
use crate::port::{self, ConnState, ConnectionId, EventView, PortCommand, PortEvent};
use crate::text;
use crate::wire;
use crate::xid::{self, XidDecision};

verus! {

/// Every frame goes by this KISS port.
pub const KISS_PORT: u8 = 0;

/// How a TNC is reached.
#[derive(Debug)]
pub enum KissTransport {
    Tcp { host: String, port: u16 },
    Serial { device: String, baud: u32 },
    /// The address of a paired Bluetooth device.
    Ble { address: String },
}

/// The parameters of a KISS port.
#[derive(Debug)]
pub struct KissRunner {
    pub transport: KissTransport,
    pub my_call: String,
    pub params: KissParams,
    pub arq: KissArqParams,
}

// ---------------------------------------------------------------------------
// Transmit parameters
// ---------------------------------------------------------------------------

/// The frame that sets a transmit parameter, or nothing where it is unset.
pub open spec fn param_bytes(command: u8, value: Option<u8>) -> Seq<u8> {
    match value {
        Some(v) => kiss::framed(kiss::data_command(KISS_PORT) | (command & 0x0F), seq![v]),
        None => Seq::empty(),
    }
}

/// The frames that set the transmit parameters of a TNC, one after another.
pub open spec fn params_bytes(p: KissParams) -> Seq<u8> {
    param_bytes(kiss::CMD_TX_DELAY, p.tx_delay) + param_bytes(
        kiss::CMD_PERSISTENCE,
        p.persistence,
    ) + param_bytes(kiss::CMD_SLOT_TIME, p.slot_time) + param_bytes(
        kiss::CMD_FULL_DUPLEX,
        match p.full_duplex {
            Some(b) => Some(
                if b {
                    1u8
                } else {
                    0
                },
            ),
            None => None,
        },
    )
}

fn add_param(out: &mut Vec<u8>, command: u8, value: Option<u8>)
    ensures
        final(out)@ == old(out)@ + param_bytes(command, value),
{
    match value {
        Some(v) => {
            let mut frame = kiss::encode_param_frame(KISS_PORT, command, v);
            out.append(&mut frame);
        },
        None => {
            assert(out@ + Seq::<u8>::empty() =~= out@);
        },
    }
}

/// The bytes to send to a TNC when it is connected. What is unset is left alone.
pub fn kiss_params_bytes(params: &KissParams) -> (out: Vec<u8>)
    ensures
        out@ == params_bytes(*params),
{
    let mut out: Vec<u8> = Vec::new();
    add_param(&mut out, kiss::CMD_TX_DELAY, params.tx_delay);
    add_param(&mut out, kiss::CMD_PERSISTENCE, params.persistence);
    add_param(&mut out, kiss::CMD_SLOT_TIME, params.slot_time);
    let duplex: Option<u8> = match params.full_duplex {
        Some(b) => Some(
            if b {
                1
            } else {
                0
            },
        ),
        None => None,
    };
    add_param(&mut out, kiss::CMD_FULL_DUPLEX, duplex);
    assert(out@ =~= params_bytes(*params));
    out
}

// ---------------------------------------------------------------------------
// Output
// ---------------------------------------------------------------------------

/// What is to be written to the TNC and what is to be reported, each in order.
#[derive(Debug)]
pub struct Output {
    pub writes: Vec<Vec<u8>>,
    pub events: Vec<PortEvent>,
}

#[verifier::ext_equal]
pub struct OutputView {
    pub writes: Seq<Seq<u8>>,
    pub events: Seq<EventView>,
}

impl View for Output {
    type V = OutputView;

    open spec fn view(&self) -> OutputView {
        OutputView {
            writes: arq::byte_views(self.writes@),
            events: port::events_view(self.events@),
        }
    }
}

impl OutputView {
    pub open spec fn none() -> OutputView {
        OutputView { writes: Seq::empty(), events: Seq::empty() }
    }

    pub open spec fn plus(self, more: OutputView) -> OutputView {
        OutputView { writes: self.writes + more.writes, events: self.events + more.events }
    }

    pub open spec fn of_event(e: EventView) -> OutputView {
        OutputView { writes: Seq::empty(), events: seq![e] }
    }

    pub open spec fn of_bytes(bytes: Seq<u8>) -> OutputView {
        OutputView { writes: seq![on_air(bytes)], events: Seq::empty() }
    }

    pub open spec fn of_frame(f: FrameView) -> OutputView {
        OutputView::of_bytes(frame_bytes(f))
    }
}

/// A frame as a KISS data frame.
pub open spec fn on_air(bytes: Seq<u8>) -> Seq<u8> {
    kiss::framed(kiss::data_command(KISS_PORT), bytes)
}

pub open spec fn frame_bytes(f: FrameView) -> Seq<u8> {
    link::address_header(f) + link::content_bytes(f.content)
}

impl Output {
    pub fn new() -> (r: Self)
        ensures
            r@ == OutputView::none(),
    {
        let r = Output { writes: Vec::new(), events: Vec::new() };
        assert(r@ =~= OutputView::none());
        r
    }

    fn report(&mut self, e: PortEvent)
        ensures
            final(self)@ == old(self)@.plus(OutputView::of_event(port::event_view(e))),
    {
        port::emit(&mut self.events, e);
        assert(self@ =~= old(self)@.plus(OutputView::of_event(port::event_view(e))));
    }

    fn write_raw(&mut self, bytes: &[u8])
        ensures
            final(self)@ == old(self)@.plus(OutputView::of_bytes(bytes@)),
    {
        let encoded = kiss::encode_data_frame(KISS_PORT, bytes);
        self.writes.push(encoded);
        assert(self@ =~= old(self)@.plus(OutputView::of_bytes(bytes@)));
    }

    fn write_frame(&mut self, frame: &Ax25Frame)
        ensures
            final(self)@ == old(self)@.plus(OutputView::of_frame(link::frame_view(*frame))),
    {
        let bytes = frame.to_bytes();
        self.write_raw(bytes.as_slice());
    }
}

/// What one action of connection `id` amounts to.
pub open spec fn action_output(id: ConnectionId, a: ActionView) -> OutputView {
    match a {
        ActionView::Transmit(f) => OutputView::of_frame(f),
        ActionView::TransmitRaw(b) => OutputView::of_bytes(b),
        ActionView::Data(bytes) => OutputView::of_event(EventView::Data { id, bytes }),
        ActionView::StateChanged(state) => OutputView::of_event(EventView::ConnState { id, state }),
        ActionView::Monitor(line) => OutputView::of_event(port::monitor_line(line)),
        ActionView::Closed => OutputView::of_event(EventView::ConnectionClosed { id }),
    }
}

/// What the actions of connection `id` amount to.
pub open spec fn actions_output(id: ConnectionId, actions: Seq<ActionView>) -> OutputView
    decreases actions.len(),
{
    if actions.len() == 0 {
        OutputView::none()
    } else {
        actions_output(id, actions.drop_last()).plus(action_output(id, actions.last()))
    }
}

fn apply_actions(id: ConnectionId, actions: Vec<Action>, out: &mut Output)
    ensures
        final(out)@ == old(out)@.plus(actions_output(id, arq::actions_view(actions@))),
{
    let ghost start = out@;
    let ghost all = arq::actions_view(actions@);
    let ghost mut done: Seq<ActionView> = Seq::empty();
    let mut rest = actions;
    assert(start.plus(OutputView::none()) =~= start);
    assert(done + all =~= all);
    while rest.len() > 0
        invariant
            out@ == start.plus(actions_output(id, done)),
            done + arq::actions_view(rest@) == all,
        decreases rest@.len(),
    {
        let ghost before = arq::actions_view(rest@);
        let action = rest.remove(0);
        let ghost a = arq::action_view(action);
        let ghost at = out@;
        proof {
            assert(before[0] == a);
            assert(arq::actions_view(rest@) =~= before.skip(1));
            assert(done.push(a).drop_last() =~= done);
            assert(done.push(a) + before.skip(1) =~= done + before);
        }
        match action {
            Action::Transmit(frame) => {
                out.write_frame(&frame);
            },
            Action::TransmitRaw(bytes) => {
                out.write_raw(bytes.as_slice());
            },
            Action::Data(bytes) => {
                out.report(PortEvent::Data { id, bytes });
            },
            Action::StateChanged(state) => {
                out.report(PortEvent::ConnState { id, state });
            },
            Action::Monitor(line) => {
                out.report(PortEvent::Monitor { line, from: None, to: None, message: None });
            },
            Action::Closed => {
                out.report(PortEvent::ConnectionClosed { id });
            },
        }
        proof {
            assert(out@ == at.plus(action_output(id, a)));
            assert(start.plus(actions_output(id, done)).plus(action_output(id, a)) =~= start.plus(
                actions_output(id, done).plus(action_output(id, a)),
            ));
            done = done.push(a);
        }
    }
    assert(done + Seq::<ActionView>::empty() =~= done);
    assert(arq::actions_view(rest@) =~= Seq::<ActionView>::empty());
}

// ---------------------------------------------------------------------------
// Connections
// ---------------------------------------------------------------------------

pub struct SessionEntry {
    pub id: ConnectionId,
    pub session: ArqSession,
}

#[derive(Debug)]
pub struct CallEntry {
    pub call: String,
    pub id: ConnectionId,
}

/// The connections of a port: a session for each identifier, and for each
/// callsign the identifier it was last connected under.
pub struct ConnMap {
    pub sessions: Vec<SessionEntry>,
    pub calls: Vec<CallEntry>,
    pub next_id: u64,
}

#[verifier::ext_equal]
pub struct SessionView {
    pub id: ConnectionId,
    pub session: ArqView,
}

#[verifier::ext_equal]
pub struct CallView {
    pub call: Seq<char>,
    pub id: ConnectionId,
}

#[verifier::ext_equal]
pub struct ConnMapView {
    pub sessions: Seq<SessionView>,
    pub calls: Seq<CallView>,
    pub next_id: u64,
}

pub open spec fn session_view(e: SessionEntry) -> SessionView {
    SessionView { id: e.id, session: e.session@ }
}

pub open spec fn sessions_view(v: Seq<SessionEntry>) -> Seq<SessionView> {
    v.map_values(|e: SessionEntry| session_view(e))
}

pub open spec fn call_view(e: CallEntry) -> CallView {
    CallView { call: e.call@, id: e.id }
}

pub open spec fn calls_view(v: Seq<CallEntry>) -> Seq<CallView> {
    v.map_values(|e: CallEntry| call_view(e))
}

impl View for ConnMap {
    type V = ConnMapView;

    open spec fn view(&self) -> ConnMapView {
        ConnMapView {
            sessions: sessions_view(self.sessions@),
            calls: calls_view(self.calls@),
            next_id: self.next_id,
        }
    }
}

/// The position of the session `id`, or the length.
pub open spec fn session_index(sessions: Seq<SessionView>, id: ConnectionId) -> int
    decreases sessions.len(),
{
    if sessions.len() == 0 || sessions[0].id == id {
        0
    } else {
        1 + session_index(sessions.skip(1), id)
    }
}

/// The position of the entry for `call`, or the length.
pub open spec fn call_index(calls: Seq<CallView>, call: Seq<char>) -> int
    decreases calls.len(),
{
    if calls.len() == 0 || calls[0].call == call {
        0
    } else {
        1 + call_index(calls.skip(1), call)
    }
}

/// `calls` without the entries for `id`.
pub open spec fn calls_without(calls: Seq<CallView>, id: ConnectionId) -> Seq<CallView>
    decreases calls.len(),
{
    if calls.len() == 0 {
        Seq::empty()
    } else if calls.last().id == id {
        calls_without(calls.drop_last(), id)
    } else {
        calls_without(calls.drop_last(), id).push(calls.last())
    }
}

pub proof fn lemma_session_index(sessions: Seq<SessionView>, id: ConnectionId)
    ensures
        0 <= session_index(sessions, id) <= sessions.len(),
        session_index(sessions, id) < sessions.len() ==> sessions[session_index(sessions, id)].id
            == id,
        forall|i: int|
            0 <= i < session_index(sessions, id) ==> (#[trigger] sessions[i]).id != id,
    decreases sessions.len(),
{
    if sessions.len() > 0 && sessions[0].id != id {
        lemma_session_index(sessions.skip(1), id);
        assert forall|i: int| 0 <= i < session_index(sessions, id) implies (
        #[trigger] sessions[i]).id != id by {
            if i > 0 {
                assert(sessions.skip(1)[i - 1] == sessions[i]);
            }
        }
    }
}

pub proof fn lemma_call_index(calls: Seq<CallView>, call: Seq<char>)
    ensures
        0 <= call_index(calls, call) <= calls.len(),
        call_index(calls, call) < calls.len() ==> calls[call_index(calls, call)].call == call,
        forall|i: int| 0 <= i < call_index(calls, call) ==> (#[trigger] calls[i]).call != call,
    decreases calls.len(),
{
    if calls.len() > 0 && calls[0].call != call {
        lemma_call_index(calls.skip(1), call);
        assert forall|i: int| 0 <= i < call_index(calls, call) implies (
        #[trigger] calls[i]).call != call by {
            if i > 0 {
                assert(calls.skip(1)[i - 1] == calls[i]);
            }
        }
    }
}

impl ConnMapView {
    pub open spec fn start() -> ConnMapView {
        ConnMapView { sessions: Seq::empty(), calls: Seq::empty(), next_id: 1 }
    }

    pub open spec fn has(self, id: ConnectionId) -> bool {
        session_index(self.sessions, id) < self.sessions.len()
    }

    /// The session of an identifier in use.
    pub open spec fn session(self, id: ConnectionId) -> ArqView {
        self.sessions[session_index(self.sessions, id)].session
    }

    pub open spec fn id_for_call(self, call: Seq<char>) -> Option<ConnectionId> {
        let k = call_index(self.calls, call);
        if k < self.calls.len() {
            Some(self.calls[k].id)
        } else {
            None
        }
    }

    /// A callsign leads to the identifier given last; a new identifier stands at
    /// the end.
    pub open spec fn inserted(self, id: ConnectionId, call: Seq<char>, session: ArqView) -> ConnMapView {
        let k = call_index(self.calls, call);
        ConnMapView {
            sessions: self.sessions.push(SessionView { id, session }),
            calls: if k < self.calls.len() {
                self.calls.update(k, CallView { call, id })
            } else {
                self.calls.push(CallView { call, id })
            },
            ..self
        }
    }

    pub open spec fn removed(self, id: ConnectionId) -> ConnMapView {
        if self.has(id) {
            ConnMapView {
                sessions: self.sessions.remove(session_index(self.sessions, id)),
                calls: calls_without(self.calls, id),
                ..self
            }
        } else {
            self
        }
    }

    /// The connections with the session `id` as `session`.
    pub open spec fn updated(self, id: ConnectionId, session: ArqView) -> ConnMapView {
        ConnMapView {
            sessions: self.sessions.update(
                session_index(self.sessions, id),
                SessionView { id, session },
            ),
            ..self
        }
    }

    /// The connections without the session `id` if it is disconnected.
    pub open spec fn pruned(self, id: ConnectionId) -> ConnMapView {
        if self.has(id) && self.session(id).state == ConnState::Disconnected {
            self.removed(id)
        } else {
            self
        }
    }

    /// Every session is sound and has the configuration of the port, every
    /// identifier is there once and was given out before, and no callsign is there
    /// twice.
    pub open spec fn wf(self, cfg: ArqConfig) -> bool {
        &&& forall|i: int|
            0 <= i < self.sessions.len() ==> (#[trigger] self.sessions[i]).session.wf()
                && self.sessions[i].session.cfg == cfg && self.sessions[i].id < self.next_id
        &&& forall|i: int, j: int|
            0 <= i < j < self.sessions.len() ==> (#[trigger] self.sessions[i]).id != (
            #[trigger] self.sessions[j]).id
        &&& forall|i: int, j: int|
            0 <= i < j < self.calls.len() ==> (#[trigger] self.calls[i]).call != (
            #[trigger] self.calls[j]).call
    }
}

proof fn lemma_calls_without(calls: Seq<CallView>, id: ConnectionId, i: int)
    requires
        0 <= i < calls_without(calls, id).len(),
    ensures
        calls_without(calls, id).len() <= calls.len(),
        calls_without(calls, id)[i].id != id,
        exists|j: int| i <= j < calls.len() && #[trigger] calls[j] == calls_without(calls, id)[i],
    decreases calls.len(),
{
    let front = calls.drop_last();
    let kept = calls_without(front, id);
    if i < kept.len() {
        lemma_calls_without(front, id, i);
        let j = choose|j: int| i <= j < front.len() && #[trigger] front[j] == kept[i];
        assert(calls[j] == front[j]);
    } else {
        if kept.len() > 0 {
            lemma_calls_without(front, id, 0);
        }
        assert(calls[calls.len() - 1] == calls_without(calls, id)[i]);
    }
    if kept.len() > 0 {
        lemma_calls_without(front, id, 0);
    }
}

proof fn lemma_calls_without_distinct(calls: Seq<CallView>, id: ConnectionId)
    requires
        forall|i: int, j: int|
            0 <= i < j < calls.len() ==> (#[trigger] calls[i]).call != (#[trigger] calls[j]).call,
    ensures
        forall|i: int, j: int|
            0 <= i < j < calls_without(calls, id).len() ==> (#[trigger] calls_without(
                calls,
                id,
            )[i]).call != (#[trigger] calls_without(calls, id)[j]).call,
    decreases calls.len(),
{
    if calls.len() > 0 {
        let front = calls.drop_last();
        assert forall|i: int, j: int| 0 <= i < j < front.len() implies (
        #[trigger] front[i]).call != (#[trigger] front[j]).call by {
            assert(calls[i].call != calls[j].call);
        }
        lemma_calls_without_distinct(front, id);
        let kept = calls_without(front, id);
        let all = calls_without(calls, id);
        assert forall|i: int, j: int| 0 <= i < j < all.len() implies (#[trigger] all[i]).call != (
        #[trigger] all[j]).call by {
            if j == kept.len() {
                lemma_calls_without(front, id, i);
                let m = choose|m: int| i <= m < front.len() && #[trigger] front[m] == kept[i];
                assert(calls[m] == front[m]);
                assert(calls[m].call != calls[calls.len() - 1].call);
            } else {
                assert(all[i] == kept[i] && all[j] == kept[j]);
            }
        }
    }
}

proof fn lemma_removed_wf(m: ConnMapView, cfg: ArqConfig, id: ConnectionId)
    requires
        m.wf(cfg),
    ensures
        m.removed(id).wf(cfg),
        !m.removed(id).has(id),
{
    lemma_session_index(m.sessions, id);
    let k = session_index(m.sessions, id);
    let t = m.removed(id);
    if m.has(id) {
        assert forall|i: int| 0 <= i < t.sessions.len() implies (
        #[trigger] t.sessions[i]).session.wf() && t.sessions[i].session.cfg == cfg
            && t.sessions[i].id < t.next_id by {
            let a = if i < k {
                i
            } else {
                i + 1
            };
            assert(t.sessions[i] == m.sessions[a]);
        }
        assert forall|i: int, j: int| 0 <= i < j < t.sessions.len() implies (
        #[trigger] t.sessions[i]).id != (#[trigger] t.sessions[j]).id by {
            let a = if i < k {
                i
            } else {
                i + 1
            };
            let b = if j < k {
                j
            } else {
                j + 1
            };
            assert(t.sessions[i] == m.sessions[a]);
            assert(t.sessions[j] == m.sessions[b]);
        }
        lemma_calls_without_distinct(m.calls, id);
        lemma_session_index(t.sessions, id);
        let n = session_index(t.sessions, id);
        if n < t.sessions.len() {
            let a = if n < k {
                n
            } else {
                n + 1
            };
            assert(t.sessions[n] == m.sessions[a]);
            if a < k {
                assert(m.sessions[a].id != m.sessions[k].id);
            } else {
                assert(m.sessions[k].id != m.sessions[a].id);
            }
        }
    }
}

proof fn lemma_updated_wf(m: ConnMapView, cfg: ArqConfig, id: ConnectionId, s: ArqView)
    requires
        m.wf(cfg),
        m.has(id),
        s.wf(),
        s.cfg == cfg,
    ensures
        m.updated(id, s).wf(cfg),
        m.updated(id, s).has(id),
        m.updated(id, s).session(id) == s,
{
    lemma_session_index(m.sessions, id);
    let k = session_index(m.sessions, id);
    let t = m.updated(id, s);
    assert forall|i: int, j: int| 0 <= i < j < t.sessions.len() implies (
    #[trigger] t.sessions[i]).id != (#[trigger] t.sessions[j]).id by {
        assert(m.sessions[i].id != m.sessions[j].id);
    }
    lemma_session_at(t.sessions, id, k);
}

/// What happened to a session, and forgetting it where it is disconnected, keeps the
/// connections sound, and the session what it became where it is still there.
pub proof fn lemma_stepped_wf(m: ConnMapView, cfg: ArqConfig, id: ConnectionId, s: ArqView)
    requires
        m.wf(cfg),
        m.has(id),
        s.wf(),
        s.cfg == cfg,
    ensures
        m.updated(id, s).pruned(id).wf(cfg),
        m.updated(id, s).pruned(id).has(id) ==> m.updated(id, s).pruned(id).session(id) == s,
{
    lemma_session_index(m.sessions, id);
    lemma_updated_wf(m, cfg, id, s);
    let t = m.updated(id, s);
    lemma_session_at(t.sessions, id, session_index(m.sessions, id));
    lemma_removed_wf(t, cfg, id);
    if s.state == ConnState::Disconnected {
        let u = t.removed(id);
        lemma_session_index(u.sessions, id);
        let k = session_index(t.sessions, id);
        let j = session_index(u.sessions, id);
        if j < u.sessions.len() {
            let i = if j < k {
                j
            } else {
                j + 1
            };
            assert(u.sessions[j] == t.sessions[i]);
            assert(t.sessions[i].id == id && t.sessions[k].id == id);
            if i < k {
                assert(t.sessions[i].id != t.sessions[k].id);
            } else {
                assert(t.sessions[k].id != t.sessions[i].id);
            }
        }
    }
}

proof fn lemma_session_at(sessions: Seq<SessionView>, id: ConnectionId, k: int)
    requires
        0 <= k < sessions.len(),
        sessions[k].id == id,
        forall|i: int, j: int|
            0 <= i < j < sessions.len() ==> (#[trigger] sessions[i]).id != (
            #[trigger] sessions[j]).id,
    ensures
        session_index(sessions, id) == k,
{
    lemma_session_index(sessions, id);
    let n = session_index(sessions, id);
    if n < k {
        assert(sessions[n].id != sessions[k].id);
    }
}

pub proof fn lemma_inserted_wf(m: ConnMapView, cfg: ArqConfig, call: Seq<char>, s: ArqView)
    requires
        m.wf(cfg),
        m.next_id < u64::MAX,
        s.wf(),
        s.cfg == cfg,
    ensures
        ({
            let id = m.next_id;
            let t = ConnMapView { next_id: (id + 1) as u64, ..m }.inserted(id, call, s);
            t.wf(cfg)
        }),
{
    lemma_call_index(m.calls, call);
    let id = m.next_id;
    let t = ConnMapView { next_id: (id + 1) as u64, ..m }.inserted(id, call, s);
    let k = call_index(m.calls, call);
    assert forall|i: int, j: int| 0 <= i < j < t.sessions.len() implies (
    #[trigger] t.sessions[i]).id != (#[trigger] t.sessions[j]).id by {
        assert(t.sessions[i] == m.sessions[i]);
        if j < m.sessions.len() {
            assert(t.sessions[j] == m.sessions[j]);
        }
    }
    assert forall|i: int, j: int| 0 <= i < j < t.calls.len() implies (#[trigger] t.calls[i]).call
        != (#[trigger] t.calls[j]).call by {
        if k < m.calls.len() {
            assert(m.calls[i].call != m.calls[j].call);
        } else if j < m.calls.len() {
            assert(m.calls[i].call != m.calls[j].call);
        } else {
            assert(m.calls[i].call != call);
        }
    }
}

impl ConnMap {
    pub fn new() -> (r: Self)
        ensures
            r@ == ConnMapView::start(),
            forall|cfg: ArqConfig| r@.wf(cfg),
    {
        let r = ConnMap { sessions: Vec::new(), calls: Vec::new(), next_id: 1 };
        assert(r@ =~= ConnMapView::start());
        r
    }

    /// A new identifier.
    pub fn alloc_id(&mut self) -> (id: ConnectionId)
        requires
            old(self).next_id < u64::MAX,
        ensures
            id == old(self).next_id,
            final(self)@ == (ConnMapView { next_id: (id + 1) as u64, ..old(self)@ }),
    {
        let id: u64 = self.next_id;
        self.next_id = id + 1;
        id
    }

    fn find_call(&self, call: &str) -> (k: usize)
        ensures
            k == call_index(self@.calls, call@),
            k <= self.calls@.len(),
    {
        let ghost all = self@.calls;
        let mut i: usize = 0;
        assert(all.skip(0) =~= all);
        while i < self.calls.len()
            invariant
                i <= self.calls@.len(),
                all == calls_view(self.calls@),
                call_index(all, call@) == i + call_index(all.skip(i as int), call@),
            decreases self.calls@.len() - i,
        {
            assert(all.skip(i as int)[0] == call_view(self.calls@[i as int]));
            if text::eq_str(self.calls[i].call.as_str(), call) {
                return i;
            }
            assert(all.skip(i as int).skip(1) =~= all.skip(i + 1));
            i += 1;
        }
        i
    }

    fn find_session(&self, id: ConnectionId) -> (k: usize)
        ensures
            k == session_index(self@.sessions, id),
            k <= self.sessions@.len(),
    {
        let ghost all = self@.sessions;
        let mut i: usize = 0;
        assert(all.skip(0) =~= all);
        while i < self.sessions.len()
            invariant
                i <= self.sessions@.len(),
                all == sessions_view(self.sessions@),
                session_index(all, id) == i + session_index(all.skip(i as int), id),
            decreases self.sessions@.len() - i,
        {
            assert(all.skip(i as int)[0] == session_view(self.sessions@[i as int]));
            if self.sessions[i].id == id {
                return i;
            }
            assert(all.skip(i as int).skip(1) =~= all.skip(i + 1));
            i += 1;
        }
        i
    }

    /// The identifier that `call` was last connected under.
    pub fn id_for_call(&self, call: &str) -> (r: Option<ConnectionId>)
        ensures
            r == self@.id_for_call(call@),
    {
        let k: usize = self.find_call(call);
        if k < self.calls.len() {
            assert(self@.calls[k as int] == call_view(self.calls@[k as int]));
            Some(self.calls[k].id)
        } else {
            None
        }
    }

    /// Adds a session.
    pub fn insert(&mut self, id: ConnectionId, call: String, session: ArqSession)
        ensures
            final(self)@ == old(self)@.inserted(id, call@, session@),
    {
        let k: usize = self.find_call(call.as_str());
        let ghost calls = self.calls@;
        let ghost sessions = self.sessions@;
        if k < self.calls.len() {
            self.calls.set(k, CallEntry { call, id });
            assert(calls_view(self.calls@) =~= calls_view(calls).update(
                k as int,
                CallView { call: call@, id },
            ));
        } else {
            self.calls.push(CallEntry { call, id });
            assert(calls_view(self.calls@) =~= calls_view(calls).push(
                CallView { call: call@, id },
            ));
        }
        self.sessions.push(SessionEntry { id, session });
        assert(sessions_view(self.sessions@) =~= sessions_view(sessions).push(
            SessionView { id, session: session@ },
        ));
    }

    /// Removes a session, and the callsigns that lead to it.
    pub fn remove(&mut self, id: ConnectionId)
        ensures
            final(self)@ == old(self)@.removed(id),
    {
        let k: usize = self.find_session(id);
        if k < self.sessions.len() {
            let ghost sessions = self.sessions@;
            let _ = self.sessions.remove(k);
            assert(sessions_view(self.sessions@) =~= sessions_view(sessions).remove(k as int));
            let ghost calls = calls_view(self.calls@);
            let mut kept: Vec<CallEntry> = Vec::new();
            let mut i: usize = 0;
            assert(calls_view(kept@) =~= calls_without(calls.take(0), id));
            while i < self.calls.len()
                invariant
                    i <= self.calls@.len(),
                    calls == calls_view(self.calls@),
                    calls_view(kept@) == calls_without(calls.take(i as int), id),
                decreases self.calls@.len() - i,
            {
                let ghost before = kept@;
                assert(calls.take(i + 1).drop_last() =~= calls.take(i as int));
                assert(calls.take(i + 1).last() == call_view(self.calls@[i as int]));
                if self.calls[i].id != id {
                    kept.push(
                        CallEntry { call: self.calls[i].call.clone(), id: self.calls[i].id },
                    );
                    assert(calls_view(kept@) =~= calls_view(before).push(calls[i as int]));
                }
                i += 1;
            }
            assert(calls.take(i as int) =~= calls);
            self.calls = kept;
        }
    }

    /// The identifiers in use.
    pub fn ids(&self) -> (r: Vec<ConnectionId>)
        ensures
            r@ == self@.sessions.map_values(|s: SessionView| s.id),
    {
        let mut r: Vec<ConnectionId> = Vec::new();
        let ghost all = self@.sessions.map_values(|s: SessionView| s.id);
        let mut i: usize = 0;
        while i < self.sessions.len()
            invariant
                i <= self.sessions@.len(),
                all == self@.sessions.map_values(|s: SessionView| s.id),
                r@ == all.take(i as int),
            decreases self.sessions@.len() - i,
        {
            assert(self@.sessions[i as int] == session_view(self.sessions@[i as int]));
            r.push(self.sessions[i].id);
            assert(all.take(i + 1) =~= all.take(i as int).push(all[i as int]));
            i += 1;
        }
        assert(all.take(i as int) =~= all);
        r
    }

    /// Takes out the session at `k`.
    fn take_out(&mut self, k: usize) -> (e: SessionEntry)
        requires
            k < old(self).sessions@.len(),
        ensures
            session_view(e) == old(self)@.sessions[k as int],
            e == old(self).sessions@[k as int],
            final(self).sessions@ == old(self).sessions@.remove(k as int),
            final(self).calls == old(self).calls,
            final(self).next_id == old(self).next_id,
    {
        self.sessions.remove(k)
    }
}

/// Removes the session `id` if it is disconnected.
pub fn remove_if_disconnected(id: ConnectionId, conns: &mut ConnMap)
    ensures
        final(conns)@ == old(conns)@.pruned(id),
{
    let k: usize = conns.find_session(id);
    if k < conns.sessions.len() {
        assert(conns@.sessions[k as int] == session_view(conns.sessions@[k as int]));
        if conns.sessions[k].session.state() == ConnState::Disconnected {
            conns.remove(id);
        }
    }
}

// ---------------------------------------------------------------------------
// What happens to one session
// ---------------------------------------------------------------------------

/// Something that happens to a session.
pub enum Input<'a> {
    Bytes(Vec<u8>),
    Frame(&'a Ax25Frame),
    Close,
    Tick,
}

/// What comes of it.
pub open spec fn input_step(s: ArqView, input: Input<'_>, now: u64) -> arq::Step {
    match input {
        Input::Bytes(bytes) => s.submitted(bytes@, now),
        Input::Frame(f) => s.received(link::content_view(f.content), now),
        Input::Close => s.closed(now),
        Input::Tick => s.ticked(now),
    }
}

/// The connections and the output after something happened to session `id`.
pub open spec fn session_step(
    m: ConnMapView,
    id: ConnectionId,
    input: Input<'_>,
    now: u64,
) -> (ConnMapView, OutputView) {
    if m.has(id) {
        let (s, actions) = input_step(m.session(id), input, now);
        (m.updated(id, s).pruned(id), actions_output(id, actions))
    } else {
        (m, OutputView::none())
    }
}

impl ConnMap {
    /// Lets something happen to session `id`, and forgets the session if that
    /// leaves it disconnected.
    pub fn run_session(
        &mut self,
        id: ConnectionId,
        input: Input<'_>,
        now: u64,
        cfg: &ArqConfig,
        out: &mut Output,
    )
        requires
            old(self)@.wf(*cfg),
            now + cfg.t1_ms <= u64::MAX,
        ensures
            final(self)@ == session_step(old(self)@, id, input, now).0,
            final(self)@.wf(*cfg),
            final(out)@ == old(out)@.plus(session_step(old(self)@, id, input, now).1),
    {
        let ghost before = self@;
        let ghost entries = self.sessions@;
        let k: usize = self.find_session(id);
        proof {
            lemma_session_index(before.sessions, id);
        }
        if k >= self.sessions.len() {
            assert(out@.plus(OutputView::none()) =~= out@);
            return;
        }
        assert(before.sessions[k as int].session.wf());
        let mut e = self.take_out(k);
        let actions = match input {
            Input::Bytes(bytes) => e.session.send(bytes, now),
            Input::Frame(f) => e.session.on_frame(f, now),
            Input::Close => e.session.close(now),
            Input::Tick => e.session.tick(now),
        };
        let ghost s = e.session@;
        self.sessions.insert(k, e);
        proof {
            assert(self@.sessions =~= before.updated(id, s).sessions);
            assert(self@ =~= before.updated(id, s));
            lemma_updated_wf(before, *cfg, id, s);
            lemma_removed_wf(before.updated(id, s), *cfg, id);
        }
        apply_actions(id, actions, out);
        remove_if_disconnected(id, self);
    }
}

// ---------------------------------------------------------------------------
// What the reader heard
// ---------------------------------------------------------------------------

/// A connection is announced: the station was heard, and the connection is open.
pub open spec fn announced(id: ConnectionId, label: Seq<char>, local: AddressView) -> OutputView {
    OutputView::of_event(EventView::StationHeard { callsign: label }).plus(
        OutputView::of_event(
            EventView::ConnectionOpened { id, label, to: Some(link::address_text(local)) },
        ),
    )
}

/// The connections and the output after something was heard; the port stays up
/// unless its transport is gone.
pub open spec fn internal_step(
    m: ConnMapView,
    ev: InternalView,
    local: AddressView,
    cfg: ArqConfig,
    now: u64,
) -> (ConnMapView, OutputView) {
    match ev {
        InternalView::Disconnected => (m, OutputView::none()),
        InternalView::RawSabme { remote, route } => (
            m,
            OutputView::of_frame(
                wire::dm_view(local, remote, wire::reversed_route(route), true),
            ).plus(
                OutputView::of_event(
                    port::monitor_line(
                        link::address_text(remote) + " > "@ + link::address_text(local)
                            + " [SABME] declined (extended mode not supported)"@,
                    ),
                ),
            ),
        ),
        InternalView::RawXid { remote, route, payload } => (
            m,
            if xid::decoded(payload) matches Ok(p) && !p.requests_extended {
                OutputView::of_bytes(xid::reply_bytes(local, remote, route, cfg))
            } else {
                OutputView::of_frame(
                    wire::dm_view(local, remote, wire::reversed_route(route), true),
                )
            },
        ),
        InternalView::Frame(f) => {
            let call = link::address_text(f.source);
            match m.id_for_call(call) {
                Some(id) => if m.has(id) {
                    let (s, actions) = m.session(id).received(f.content, now);
                    (m.updated(id, s).pruned(id), actions_output(id, actions))
                } else {
                    (m, OutputView::none())
                },
                None => match f.content {
                    ContentView::SetAsynchronousBalancedMode { poll } => {
                        let id = m.next_id;
                        let (s, actions) = ArqView::fresh(
                            local,
                            f.source,
                            wire::reversed_route(f.route),
                            cfg,
                        ).accepted(poll);
                        (
                            ConnMapView { next_id: (id + 1) as u64, ..m }.inserted(id, call, s),
                            announced(id, call, local).plus(actions_output(id, actions)),
                        )
                    },
                    ContentView::Disconnect { .. } => (
                        m,
                        OutputView::of_frame(
                            wire::dm_view(local, f.source, wire::reversed_route(f.route), true),
                        ),
                    ),
                    _ => (m, OutputView::none()),
                },
            }
        },
    }
}

/// Takes what the reader heard. `false` means that the transport is gone.
pub fn handle_internal_event(
    ev: InternalEvent,
    local: &Address,
    cfg: &ArqConfig,
    conns: &mut ConnMap,
    now: u64,
) -> (r: (Output, bool))
    requires
        old(conns)@.wf(*cfg),
        old(conns).next_id < u64::MAX,
        now + cfg.t1_ms <= u64::MAX,
    ensures
        final(conns)@ == internal_step(
            old(conns)@,
            kiss_monitor::internal_view(ev),
            link::address_view(*local),
            *cfg,
            now,
        ).0,
        final(conns)@.wf(*cfg),
        r.0@ == internal_step(
            old(conns)@,
            kiss_monitor::internal_view(ev),
            link::address_view(*local),
            *cfg,
            now,
        ).1,
        r.1 == !(ev is Disconnected),
{
    let ghost before = conns@;
    let ghost step = internal_step(
        conns@,
        kiss_monitor::internal_view(ev),
        link::address_view(*local),
        *cfg,
        now,
    );
    let mut out = Output::new();
    match ev {
        InternalEvent::Disconnected => {
            return (out, false);
        },
        InternalEvent::RawSabme { remote, route } => {
            let dm = wire::build_dm(local, &remote, wire::reverse_route(&route), true);
            out.write_frame(&dm);
            let mut line = kiss_monitor::between(&remote, local);
            line.append(" [SABME] declined (extended mode not supported)");
            out.report(PortEvent::Monitor { line, from: None, to: None, message: None });
            assert(out@ =~= step.1);
        },
        InternalEvent::RawXid { remote, route, payload } => {
            match xid::handle_peer_xid(local, &remote, &route, payload.as_slice(), cfg) {
                XidDecision::Reply(bytes) => {
                    out.write_raw(bytes.as_slice());
                    assert(out@ =~= step.1);
                },
                XidDecision::Decline(dm) => {
                    out.write_frame(&dm);
                    assert(out@ =~= step.1);
                },
            }
        },
        InternalEvent::Frame(frame) => {
            let call = link::address_string(&frame.source);
            match conns.id_for_call(call.as_str()) {
                Some(id) => {
                    conns.run_session(id, Input::Frame(&frame), now, cfg, &mut out);
                    assert(out@ =~= step.1);
                },
                None => match &frame.content {
                    FrameContent::SetAsynchronousBalancedMode(s) => {
                        let id: u64 = conns.alloc_id();
                        out.report(PortEvent::StationHeard { callsign: call.clone() });
                        out.report(
                            PortEvent::ConnectionOpened {
                                id,
                                label: call.clone(),
                                to: Some(link::address_string(local)),
                            },
                        );
                        let route = wire::reverse_route(&frame.route);
                        let mut session = ArqSession::new(
                            local.clone(),
                            frame.source.clone(),
                            route,
                            *cfg,
                        );
                        let actions = session.accept_incoming(s.poll, now);
                        proof {
                            lemma_inserted_wf(before, *cfg, call@, session@);
                        }
                        conns.insert(id, call, session);
                        apply_actions(id, actions, &mut out);
                        assert(out@ =~= step.1);
                    },
                    FrameContent::Disconnect(_) => {
                        let dm = wire::build_dm(
                            local,
                            &frame.source,
                            wire::reverse_route(&frame.route),
                            true,
                        );
                        out.write_frame(&dm);
                        assert(out@ =~= step.1);
                    },
                    _ => {},
                },
            }
        },
    }
    (out, true)
}

// ---------------------------------------------------------------------------
// What the user asks for
// ---------------------------------------------------------------------------

/// `" via A,B"`, or nothing for an empty path.
pub open spec fn via_text(path: Seq<Seq<char>>) -> Seq<char> {
    if path.len() == 0 {
        Seq::empty()
    } else {
        " via "@ + text::joined(path, seq![','])
    }
}

/// What sending an unconnected frame amounts to. It is shown, since a TNC does
/// not echo it; a bad address is reported.
pub open spec fn unproto_output(
    local: AddressView,
    dest: Seq<char>,
    path: Seq<Seq<char>>,
    bytes: Seq<u8>,
) -> OutputView {
    let my_call = link::address_text(local);
    match kiss_monitor::ui_frame(my_call, dest, path, bytes) {
        Ok(f) => OutputView::of_frame(f).plus(
            OutputView::of_event(
                port::monitor_line(
                    my_call + " > "@ + dest + via_text(path) + " [unproto TX]: "@
                        + kiss_monitor::info_text(bytes),
                ),
            ),
        ),
        Err(message) => OutputView::of_event(EventView::PortError { message }),
    }
}

fn send_unproto(local: &Address, dest: &str, path: &Vec<String>, bytes: Vec<u8>, out: &mut Output)
    ensures
        final(out)@ == old(out)@.plus(
            unproto_output(link::address_view(*local), dest@, text::texts(path@), bytes@),
        ),
{
    let ghost before = out@;
    let ghost result = unproto_output(
        link::address_view(*local),
        dest@,
        text::texts(path@),
        bytes@,
    );
    let my_call = link::address_string(local);
    let shown = kiss_monitor::info_string(&bytes);
    match kiss_monitor::build_ui_frame(my_call.as_str(), dest, path, bytes) {
        Ok(frame) => {
            out.write_frame(&frame);
            let mut line = my_call;
            line.append(" > ");
            line.append(dest);
            if path.len() > 0 {
                line.append(" via ");
                let joined = text::join(path, ",");
                proof {
                    reveal_strlit(",");
                    assert(","@ =~= seq![',']);
                }
                line.append(joined.as_str());
            }
            line.append(" [unproto TX]: ");
            line.append(shown.as_str());
            assert(line@ =~= link::address_text(link::address_view(*local)) + " > "@ + dest@
                + via_text(text::texts(path@)) + " [unproto TX]: "@ + shown@);
            out.report(PortEvent::Monitor { line, from: None, to: None, message: None });
        },
        Err(e) => {
            out.report(PortEvent::PortError { message: e });
        },
    }
    assert(out@ =~= before.plus(result));
}

/// The connections and the output after a connection is asked for. An address
/// that is none is reported, and nothing is opened.
pub open spec fn open_step(
    m: ConnMapView,
    local: AddressView,
    remote: Seq<char>,
    path: Seq<Seq<char>>,
    cfg: ArqConfig,
    now: u64,
) -> (ConnMapView, OutputView) {
    match kiss_monitor::address_in(remote) {
        Err(message) => (m, OutputView::of_event(EventView::PortError { message })),
        Ok(address) => match kiss_monitor::path_in(path) {
            Err(message) => (m, OutputView::of_event(EventView::PortError { message })),
            Ok(route) => {
                let id = m.next_id;
                let (s, actions) = ArqView::fresh(local, address, route, cfg).opened(now);
                (
                    ConnMapView { next_id: (id + 1) as u64, ..m }.inserted(id, remote, s),
                    announced(id, remote, local).plus(actions_output(id, actions)),
                )
            },
        },
    }
}

fn open_connection(
    local: &Address,
    remote: String,
    path: &Vec<String>,
    cfg: &ArqConfig,
    conns: &mut ConnMap,
    now: u64,
    out: &mut Output,
)
    requires
        old(conns)@.wf(*cfg),
        old(conns).next_id < u64::MAX,
        now + cfg.t1_ms <= u64::MAX,
        old(out)@ == OutputView::none(),
    ensures
        final(conns)@ == open_step(
            old(conns)@,
            link::address_view(*local),
            remote@,
            text::texts(path@),
            *cfg,
            now,
        ).0,
        final(conns)@.wf(*cfg),
        final(out)@ == open_step(
            old(conns)@,
            link::address_view(*local),
            remote@,
            text::texts(path@),
            *cfg,
            now,
        ).1,
{
    let ghost before = conns@;
    let ghost step = open_step(
        conns@,
        link::address_view(*local),
        remote@,
        text::texts(path@),
        *cfg,
        now,
    );
    let address = match kiss_monitor::parse_address(remote.as_str()) {
        Ok(a) => a,
        Err(e) => {
            out.report(PortEvent::PortError { message: e });
            assert(out@ =~= step.1);
            return;
        },
    };
    let route = match kiss_monitor::parse_path(path) {
        Ok(v) => v,
        Err(e) => {
            out.report(PortEvent::PortError { message: e });
            assert(out@ =~= step.1);
            return;
        },
    };
    let id: u64 = conns.alloc_id();
    out.report(PortEvent::StationHeard { callsign: remote.clone() });
    out.report(
        PortEvent::ConnectionOpened {
            id,
            label: remote.clone(),
            to: Some(link::address_string(local)),
        },
    );
    let mut session = ArqSession::new(local.clone(), address, route, *cfg);
    let actions = session.open(now);
    proof {
        lemma_inserted_wf(before, *cfg, remote@, session@);
    }
    conns.insert(id, remote, session);
    apply_actions(id, actions, out);
    assert(out@ =~= step.1);
}

/// The connections and the output after a command.
pub open spec fn command_step(
    m: ConnMapView,
    command: PortCommand,
    local: AddressView,
    cfg: ArqConfig,
    now: u64,
) -> (ConnMapView, OutputView) {
    match command {
        PortCommand::SendUnproto { dest, via, bytes } => (
            m,
            unproto_output(local, dest@, text::texts(via@), bytes@),
        ),
        PortCommand::OpenConnection { remote, via } => open_step(
            m,
            local,
            remote@,
            text::texts(via@),
            cfg,
            now,
        ),
        PortCommand::Send { id, bytes } => session_step(m, id, Input::Bytes(bytes), now),
        PortCommand::CloseConnection { id } => session_step(m, id, Input::Close, now),
        PortCommand::Disconnect => (m, OutputView::none()),
        PortCommand::Connect => (m, OutputView::none()),
    }
}

/// Takes a command. `false` means that the port is to be closed.
pub fn handle_command(
    command: PortCommand,
    local: &Address,
    cfg: &ArqConfig,
    conns: &mut ConnMap,
    now: u64,
) -> (r: (Output, bool))
    requires
        old(conns)@.wf(*cfg),
        old(conns).next_id < u64::MAX,
        now + cfg.t1_ms <= u64::MAX,
    ensures
        final(conns)@ == command_step(
            old(conns)@,
            command,
            link::address_view(*local),
            *cfg,
            now,
        ).0,
        final(conns)@.wf(*cfg),
        r.0@ == command_step(old(conns)@, command, link::address_view(*local), *cfg, now).1,
        r.1 == !(command is Disconnect),
{
    let ghost step = command_step(conns@, command, link::address_view(*local), *cfg, now);
    let mut out = Output::new();
    match command {
        PortCommand::SendUnproto { dest, via, bytes } => {
            send_unproto(local, dest.as_str(), &via, bytes, &mut out);
            assert(out@ =~= step.1);
        },
        PortCommand::OpenConnection { remote, via } => {
            open_connection(local, remote, &via, cfg, conns, now, &mut out);
        },
        PortCommand::Send { id, bytes } => {
            conns.run_session(id, Input::Bytes(bytes), now, cfg, &mut out);
            assert(out@ =~= step.1);
        },
        PortCommand::CloseConnection { id } => {
            conns.run_session(id, Input::Close, now, cfg, &mut out);
            assert(out@ =~= step.1);
        },
        PortCommand::Disconnect => {
            return (out, false);
        },
        PortCommand::Connect => {},
    }
    (out, true)
}

/// The same happens to some sessions, one after another.
pub open spec fn each_session(
    m: ConnMapView,
    ids: Seq<ConnectionId>,
    input: Input<'_>,
    now: u64,
) -> (ConnMapView, OutputView)
    decreases ids.len(),
{
    if ids.len() == 0 {
        (m, OutputView::none())
    } else {
        let (before, out) = each_session(m, ids.drop_last(), input, now);
        let (after, more) = session_step(before, ids.last(), input, now);
        (after, out.plus(more))
    }
}

pub open spec fn session_ids(m: ConnMapView) -> Seq<ConnectionId> {
    m.sessions.map_values(|s: SessionView| s.id)
}

/// Looks at the clock for every session.
pub fn tick_all(cfg: &ArqConfig, conns: &mut ConnMap, now: u64) -> (out: Output)
    requires
        old(conns)@.wf(*cfg),
        now + cfg.t1_ms <= u64::MAX,
    ensures
        (final(conns)@, out@) == each_session(
            old(conns)@,
            session_ids(old(conns)@),
            Input::Tick,
            now,
        ),
        final(conns)@.wf(*cfg),
{
    let ghost m = conns@;
    let ids = conns.ids();
    let mut out = Output::new();
    let mut i: usize = 0;
    assert(ids@.take(0) =~= Seq::<ConnectionId>::empty());
    while i < ids.len()
        invariant
            i <= ids@.len(),
            conns@.wf(*cfg),
            now + cfg.t1_ms <= u64::MAX,
            (conns@, out@) == each_session(m, ids@.take(i as int), Input::Tick, now),
        decreases ids@.len() - i,
    {
        assert(ids@.take(i + 1).drop_last() =~= ids@.take(i as int));
        conns.run_session(ids[i], Input::Tick, now, cfg, &mut out);
        i += 1;
    }
    assert(ids@.take(i as int) =~= session_ids(m));
    out
}

/// Closes every session, for a port that goes down.
pub fn close_all(cfg: &ArqConfig, conns: &mut ConnMap, now: u64) -> (out: Output)
    requires
        old(conns)@.wf(*cfg),
        now + cfg.t1_ms <= u64::MAX,
    ensures
        (final(conns)@, out@) == each_session(
            old(conns)@,
            session_ids(old(conns)@),
            Input::Close,
            now,
        ),
        final(conns)@.wf(*cfg),
{
    let ghost m = conns@;
    let ids = conns.ids();
    let mut out = Output::new();
    let mut i: usize = 0;
    assert(ids@.take(0) =~= Seq::<ConnectionId>::empty());
    while i < ids.len()
        invariant
            i <= ids@.len(),
            conns@.wf(*cfg),
            now + cfg.t1_ms <= u64::MAX,
            (conns@, out@) == each_session(m, ids@.take(i as int), Input::Close, now),
        decreases ids@.len() - i,
    {
        assert(ids@.take(i + 1).drop_last() =~= ids@.take(i as int));
        conns.run_session(ids[i], Input::Close, now, cfg, &mut out);
        i += 1;
    }
    assert(ids@.take(i as int) =~= session_ids(m));
    out
}

// ---------------------------------------------------------------------------
// Bytes from the TNC
// ---------------------------------------------------------------------------

pub open spec fn internals_view(v: Seq<InternalEvent>) -> Seq<InternalView> {
    v.map_values(|e: InternalEvent| kiss_monitor::internal_view(e))
}

/// What frames from the TNC report, and what they mean for the connected mode of
/// `local`: only frames of data count.
pub open spec fn frames_step(frames: Seq<kiss::FrameBytes>, local: AddressView) -> (
    Seq<EventView>,
    Seq<InternalView>,
)
    decreases frames.len(),
{
    if frames.len() == 0 {
        (Seq::empty(), Seq::empty())
    } else {
        let (events, internals) = frames_step(frames.drop_last(), local);
        let (command, payload) = frames.last();
        if command & 0x0F != 0 {
            (events, internals)
        } else {
            let (more, internal) = kiss_monitor::payload_step(payload, local);
            (
                events + more,
                match internal {
                    Some(e) => internals.push(e),
                    None => internals,
                },
            )
        }
    }
}

/// Takes the next bytes from the TNC.
pub fn receive(decoder: &mut KissDecoder, bytes: &[u8], local: &Address) -> (r: (
    Vec<PortEvent>,
    Vec<InternalEvent>,
))
    ensures
        final(decoder)@ == old(decoder)@.after(bytes@),
        (port::events_view(r.0@), internals_view(r.1@)) == frames_step(
            old(decoder)@.frames(bytes@),
            link::address_view(*local),
        ),
{
    let frames = decoder.feed(bytes);
    let ghost all = kiss::frames_view(frames@);
    let ghost me = link::address_view(*local);
    let mut events: Vec<PortEvent> = Vec::new();
    let mut internals: Vec<InternalEvent> = Vec::new();
    let mut i: usize = 0;
    assert(port::events_view(events@) =~= frames_step(all.take(0), me).0);
    assert(internals_view(internals@) =~= frames_step(all.take(0), me).1);
    while i < frames.len()
        invariant
            i <= frames@.len(),
            all == kiss::frames_view(frames@),
            me == link::address_view(*local),
            (port::events_view(events@), internals_view(internals@)) == frames_step(
                all.take(i as int),
                me,
            ),
        decreases frames@.len() - i,
    {
        let command: u8 = frames[i].0;
        let payload = frames[i].1.as_slice();
        proof {
            assert(all.take(i + 1).drop_last() =~= all.take(i as int));
            assert(all.take(i + 1).last() == all[i as int]);
            assert(all[i as int] == (command, payload@));
        }
        if command & 0x0F == 0 {
            let ghost done = events@;
            let ghost heard = internals@;
            let (mut more, internal) = kiss_monitor::handle_kiss_payload(payload, local);
            let ghost added = more@;
            events.append(&mut more);
            assert(port::events_view(events@) =~= port::events_view(done) + port::events_view(
                added,
            ));
            match internal {
                Some(e) => {
                    internals.push(e);
                    assert(internals_view(internals@) =~= internals_view(heard).push(
                        kiss_monitor::internal_view(e),
                    ));
                },
                None => {},
            }
        }
        i += 1;
    }
    assert(all.take(i as int) =~= all);
    (events, internals)
}

// ---------------------------------------------------------------------------
// Laws
// ---------------------------------------------------------------------------

/// What one station writes to its TNC is what another hears: the receiver reports
/// exactly what the written frame means to it, whatever bytes the frame holds.
pub proof fn law_written_is_heard(bytes: Seq<u8>, local: AddressView)
    ensures
        frames_step(DecoderView::start().frames(on_air(bytes)), local).0
            == kiss_monitor::payload_step(bytes, local).0,
        frames_step(DecoderView::start().frames(on_air(bytes)), local).1 == (
        match kiss_monitor::payload_step(bytes, local).1 {
            Some(e) => seq![e],
            None => Seq::empty(),
        }),
{
    kiss::law_data_round_trip(KISS_PORT, bytes);
    let c = kiss::data_command(KISS_PORT);
    let one = seq![(c, bytes)];
    assert(c & 0x0F == 0) by (bit_vector)
        requires
            c % 16 == 0,
    ;
    assert(one.drop_last() =~= Seq::<kiss::FrameBytes>::empty());
    assert(one.last() == (c, bytes));
    assert(frames_step(one.drop_last(), local) == (Seq::<EventView>::empty(), Seq::<
        InternalView,
    >::empty()));
    let (more, internal) = kiss_monitor::payload_step(bytes, local);
    assert(Seq::<EventView>::empty() + more =~= more);
    match internal {
        Some(e) => {
            assert(Seq::<InternalView>::empty().push(e) =~= seq![e]);
        },
        None => {},
    }
}

/// A connection leads back to its session: the callsign under which a session was
/// added finds it, until it is removed.
pub proof fn law_callsign_finds_session(
    m: ConnMapView,
    cfg: ArqConfig,
    call: Seq<char>,
    s: ArqView,
)
    requires
        m.wf(cfg),
        m.next_id < u64::MAX,
        s.wf(),
        s.cfg == cfg,
    ensures
        ({
            let id = m.next_id;
            let t = ConnMapView { next_id: (id + 1) as u64, ..m }.inserted(id, call, s);
            &&& t.id_for_call(call) == Some(id)
            &&& t.has(id)
            &&& t.session(id) == s
            &&& t.removed(id).id_for_call(call) is None
            &&& !t.removed(id).has(id)
        }),
{
    let id = m.next_id;
    let t = ConnMapView { next_id: (id + 1) as u64, ..m }.inserted(id, call, s);
    lemma_inserted_wf(m, cfg, call, s);
    lemma_call_index(m.calls, call);
    lemma_call_index(t.calls, call);
    let k = call_index(m.calls, call);
    let n = call_index(t.calls, call);
    let at = if k < m.calls.len() {
        k
    } else {
        m.calls.len() as int
    };
    assert(t.calls[at] == CallView { call, id });
    if n < at {
        assert(t.calls[n].call != t.calls[at].call);
    }
    assert(n == at);
    lemma_session_at(t.sessions, id, m.sessions.len() as int);
    lemma_removed_wf(t, cfg, id);
    let u = t.removed(id);
    lemma_call_index(u.calls, call);
    let j = call_index(u.calls, call);
    if j < u.calls.len() {
        lemma_calls_without(t.calls, id, j);
        let i = choose|i: int| j <= i < t.calls.len() && #[trigger] t.calls[i] == u.calls[j];
        assert(t.calls[i].call == call);
        if i < at {
            assert(t.calls[i].call != t.calls[at].call);
        } else if at < i {
            assert(t.calls[at].call != t.calls[i].call);
        }
        assert(false);
    }
}

/// What happens to one session leaves every other session as it was.
pub proof fn law_sessions_independent(
    m: ConnMapView,
    cfg: ArqConfig,
    id: ConnectionId,
    other: ConnectionId,
    input: Input<'_>,
    now: u64,
)
    requires
        m.wf(cfg),
        m.has(other),
        other != id,
    ensures
        session_step(m, id, input, now).0.has(other),
        session_step(m, id, input, now).0.session(other) == m.session(other),
{
    lemma_session_index(m.sessions, id);
    lemma_session_index(m.sessions, other);
    let k = session_index(m.sessions, id);
    let o = session_index(m.sessions, other);
    if m.has(id) {
        let (s, actions) = input_step(m.session(id), input, now);
        let t = m.updated(id, s);
        assert forall|i: int, j: int| 0 <= i < j < t.sessions.len() implies (
        #[trigger] t.sessions[i]).id != (#[trigger] t.sessions[j]).id by {
            assert(m.sessions[i].id != m.sessions[j].id);
        }
        assert(k != o);
        assert(t.sessions[o] == m.sessions[o]);
        lemma_session_at(t.sessions, other, o);
        lemma_session_at(t.sessions, id, k);
        if s.state == ConnState::Disconnected {
            let u = t.removed(id);
            let at = if o < k {
                o
            } else {
                o - 1
            };
            assert(u.sessions[at] == t.sessions[o]);
            assert forall|i: int, j: int| 0 <= i < j < u.sessions.len() implies (
            #[trigger] u.sessions[i]).id != (#[trigger] u.sessions[j]).id by {
                let a = if i < k {
                    i
                } else {
                    i + 1
                };
                let b = if j < k {
                    j
                } else {
                    j + 1
                };
                assert(u.sessions[i] == t.sessions[a]);
                assert(u.sessions[j] == t.sessions[b]);
            }
            lemma_session_at(u.sessions, other, at);
        }
    }
}

proof fn lemma_each_session(
    m: ConnMapView,
    cfg: ArqConfig,
    ids: Seq<ConnectionId>,
    input: Input<'_>,
    now: u64,
    id: ConnectionId,
)
    requires
        m.wf(cfg),
        now + cfg.t1_ms <= u64::MAX,
        input is Tick || input is Close,
        ids.no_duplicates(),
        m.has(id),
    ensures
        ({
            let after = each_session(m, ids, input, now).0;
            let s = input_step(m.session(id), input, now).0;
            &&& after.wf(cfg)
            &&& !ids.contains(id) ==> after.has(id) && after.session(id) == m.session(id)
            &&& ids.contains(id) && s.state != ConnState::Disconnected ==> after.has(id)
                && after.session(id) == s
        }),
    decreases ids.len(),
{
    if ids.len() > 0 {
        let front = ids.drop_last();
        let last = ids.last();
        assert(front.no_duplicates());
        lemma_each_session(m, cfg, front, input, now, id);
        let before = each_session(m, front, input, now).0;
        let after = each_session(m, ids, input, now).0;
        assert(!front.contains(last)) by {
            if front.contains(last) {
                let i = front.index_of(last);
                assert(ids[i] == ids[ids.len() - 1]);
            }
        }
        if ids.contains(id) && id != last {
            let i = ids.index_of(id);
            assert(front[i] == id);
        }
        if front.contains(id) {
            let i = front.index_of(id);
            assert(ids[i] == id);
        }
        assert(ids[ids.len() - 1] == last);
        if before.has(last) {
            let t = before.session(last);
            lemma_session_index(before.sessions, last);
            let k = session_index(before.sessions, last);
            assert(before.sessions[k].session == t);
            arq::law_invariant_kept(
                t,
                false,
                Seq::empty(),
                ContentView::Disconnect { poll: false },
                now,
            );
            let s = input_step(t, input, now).0;
            lemma_stepped_wf(before, cfg, last, s);
            let next = before.updated(last, s);
            assert forall|i: int| 0 <= i < k implies (#[trigger] next.sessions[i]).id != last by {
                assert(before.sessions[i].id != before.sessions[k].id);
            }
            lemma_session_at(next.sessions, last, k);
        }
        if before.has(id) && id != last {
            law_sessions_independent(before, cfg, last, id, input, now);
        }
    }
}

/// Every session takes part: when the clock is looked at, or the port closes, each one
/// that is still there afterwards has gone on by exactly its own step.
pub proof fn law_every_session_steps(
    m: ConnMapView,
    cfg: ArqConfig,
    input: Input<'_>,
    now: u64,
    id: ConnectionId,
)
    requires
        m.wf(cfg),
        now + cfg.t1_ms <= u64::MAX,
        input is Tick || input is Close,
        m.has(id),
    ensures
        ({
            let after = each_session(m, session_ids(m), input, now).0;
            let s = if input is Tick {
                m.session(id).ticked(now).0
            } else {
                m.session(id).closed(now).0
            };
            s.state != ConnState::Disconnected ==> after.has(id) && after.session(id) == s
        }),
{
    let ids = session_ids(m);
    assert(ids.no_duplicates()) by {
        assert forall|i: int, j: int| 0 <= i < ids.len() && 0 <= j < ids.len() && i != j implies
            ids[i] != ids[j] by {
            if i < j {
                assert(m.sessions[i].id != m.sessions[j].id);
            } else {
                assert(m.sessions[j].id != m.sessions[i].id);
            }
        }
    }
    lemma_session_index(m.sessions, id);
    let k = session_index(m.sessions, id);
    assert(ids[k] == id);
    lemma_each_session(m, cfg, ids, input, now, id);
}

} // verus!
