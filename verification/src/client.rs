//! The client side of an AGWPE connection: what a frame from the host means, and
//! which frames a command asks for. Reading and writing the stream is left to the
//! caller.

use vstd::prelude::*;

use crate::codec::{self, AgwFrame, AgwView};
use crate::port::{self, ConnState, ConnectionId, EventView, PortCommand, PortEvent};
use crate::text;

verus! {

/// The parameters of an AGWPE port.
#[derive(Debug)]
pub struct AgwpeRunner {
    pub host: String,
    pub tcp_port: u16,
    pub radio_port: u8,
    pub my_call: String,
    pub login: Option<(String, String)>,
}

/// Identifiers are given out from here on.
pub const INCOMING_ID_BASE: u64 = 4294967296;

/// One connection: its identifier and the callsign at the other end.
#[derive(Debug)]
pub struct ConnEntry {
    pub id: ConnectionId,
    pub call: String,
}

/// The connections of a port.
#[derive(Debug)]
pub struct ConnMap {
    pub entries: Vec<ConnEntry>,
    pub next_incoming_id: u64,
}

#[verifier::ext_equal]
pub struct ConnView {
    pub id: ConnectionId,
    pub call: Seq<char>,
}

#[verifier::ext_equal]
pub struct ConnMapView {
    pub entries: Seq<ConnView>,
    pub next_incoming_id: u64,
}

pub open spec fn conn_view(e: ConnEntry) -> ConnView {
    ConnView { id: e.id, call: e.call@ }
}

pub open spec fn conns_view(v: Seq<ConnEntry>) -> Seq<ConnView> {
    v.map_values(|e: ConnEntry| conn_view(e))
}

impl View for ConnMap {
    type V = ConnMapView;

    open spec fn view(&self) -> ConnMapView {
        ConnMapView {
            entries: conns_view(self.entries@),
            next_incoming_id: self.next_incoming_id,
        }
    }
}

/// The position of the connection with `call`, or the length.
pub open spec fn call_index(entries: Seq<ConnView>, call: Seq<char>) -> int
    decreases entries.len(),
{
    if entries.len() == 0 || entries[0].call == call {
        0
    } else {
        1 + call_index(entries.skip(1), call)
    }
}

/// The position of the connection `id`, or the length.
pub open spec fn id_index(entries: Seq<ConnView>, id: ConnectionId) -> int
    decreases entries.len(),
{
    if entries.len() == 0 || entries[0].id == id {
        0
    } else {
        1 + id_index(entries.skip(1), id)
    }
}

pub proof fn lemma_call_index(entries: Seq<ConnView>, call: Seq<char>)
    ensures
        0 <= call_index(entries, call) <= entries.len(),
        call_index(entries, call) < entries.len() ==> entries[call_index(entries, call)].call
            == call,
        forall|i: int|
            0 <= i < call_index(entries, call) ==> (#[trigger] entries[i]).call != call,
    decreases entries.len(),
{
    if entries.len() > 0 && entries[0].call != call {
        lemma_call_index(entries.skip(1), call);
        assert forall|i: int| 0 <= i < call_index(entries, call) implies (
        #[trigger] entries[i]).call != call by {
            if i > 0 {
                assert(entries.skip(1)[i - 1] == entries[i]);
            }
        }
    }
}

pub proof fn lemma_id_index(entries: Seq<ConnView>, id: ConnectionId)
    ensures
        0 <= id_index(entries, id) <= entries.len(),
        id_index(entries, id) < entries.len() ==> entries[id_index(entries, id)].id == id,
    decreases entries.len(),
{
    if entries.len() > 0 && entries[0].id != id {
        lemma_id_index(entries.skip(1), id);
    }
}

impl ConnMapView {
    pub open spec fn start() -> ConnMapView {
        ConnMapView { entries: Seq::empty(), next_incoming_id: INCOMING_ID_BASE }
    }

    /// No identifier and no callsign is there twice, and no identifier that may
    /// be given out is in use.
    pub open spec fn wf(self) -> bool {
        &&& forall|i: int|
            0 <= i < self.entries.len() ==> (#[trigger] self.entries[i]).id < self.next_incoming_id
        &&& forall|i: int, j: int|
            0 <= i < j < self.entries.len() ==> (#[trigger] self.entries[i]).id != (
            #[trigger] self.entries[j]).id && self.entries[i].call != self.entries[j].call
    }

    pub open spec fn id_for_call(self, call: Seq<char>) -> Option<ConnectionId> {
        let k = call_index(self.entries, call);
        if k < self.entries.len() {
            Some(self.entries[k].id)
        } else {
            None
        }
    }

    pub open spec fn call_for_id(self, id: ConnectionId) -> Option<Seq<char>> {
        let k = id_index(self.entries, id);
        if k < self.entries.len() {
            Some(self.entries[k].call)
        } else {
            None
        }
    }

    /// The connections with one for `call`: the one there is, or a new one.
    pub open spec fn opened(self, call: Seq<char>) -> ConnMapView {
        if self.id_for_call(call) is Some {
            self
        } else {
            ConnMapView {
                entries: self.entries.push(ConnView { id: self.next_incoming_id, call }),
                next_incoming_id: (self.next_incoming_id + 1) as u64,
            }
        }
    }

    pub open spec fn opened_id(self, call: Seq<char>) -> ConnectionId {
        match self.id_for_call(call) {
            Some(id) => id,
            None => self.next_incoming_id,
        }
    }

    pub open spec fn without_call(self, call: Seq<char>) -> ConnMapView {
        let k = call_index(self.entries, call);
        if k < self.entries.len() {
            ConnMapView { entries: self.entries.remove(k), ..self }
        } else {
            self
        }
    }
}

impl ConnMap {
    pub fn new() -> (r: Self)
        ensures
            r@ == ConnMapView::start(),
            r@.wf(),
    {
        let r = ConnMap { entries: Vec::new(), next_incoming_id: INCOMING_ID_BASE };
        assert(r@.entries =~= Seq::<ConnView>::empty());
        r
    }

    fn find_call(&self, call: &str) -> (k: usize)
        ensures
            k == call_index(self@.entries, call@),
            k <= self.entries@.len(),
    {
        let ghost all = self@.entries;
        let mut i: usize = 0;
        assert(all.skip(0) =~= all);
        while i < self.entries.len()
            invariant
                i <= self.entries@.len(),
                all == conns_view(self.entries@),
                call_index(all, call@) == i + call_index(all.skip(i as int), call@),
            decreases self.entries@.len() - i,
        {
            assert(all.skip(i as int)[0] == conn_view(self.entries@[i as int]));
            if text::eq_str(self.entries[i].call.as_str(), call) {
                return i;
            }
            assert(all.skip(i as int).skip(1) =~= all.skip(i + 1));
            i += 1;
        }
        i
    }

    pub fn id_for_call(&self, call: &str) -> (r: Option<ConnectionId>)
        ensures
            r == self@.id_for_call(call@),
    {
        let k: usize = self.find_call(call);
        if k < self.entries.len() {
            assert(self@.entries[k as int] == conn_view(self.entries@[k as int]));
            Some(self.entries[k].id)
        } else {
            None
        }
    }

    pub fn call_for_id(&self, id: ConnectionId) -> (r: Option<String>)
        ensures
            text::opt_view(r) == self@.call_for_id(id),
    {
        let ghost all = self@.entries;
        let mut i: usize = 0;
        assert(all.skip(0) =~= all);
        while i < self.entries.len()
            invariant
                i <= self.entries@.len(),
                all == conns_view(self.entries@),
                id_index(all, id) == i + id_index(all.skip(i as int), id),
            decreases self.entries@.len() - i,
        {
            assert(all.skip(i as int)[0] == conn_view(self.entries@[i as int]));
            if self.entries[i].id == id {
                return Some(self.entries[i].call.clone());
            }
            assert(all.skip(i as int).skip(1) =~= all.skip(i + 1));
            i += 1;
        }
        None
    }

    /// The identifier of the connection with `call`; one that is not there yet gets
    /// the next identifier.
    pub fn open_call(&mut self, call: &str) -> (id: ConnectionId)
        requires
            old(self)@.wf(),
            old(self).next_incoming_id < u64::MAX,
        ensures
            final(self)@ == old(self)@.opened(call@),
            final(self)@.wf(),
            id == old(self)@.opened_id(call@),
    {
        proof {
            lemma_opened_wf(self@, call@);
        }
        match self.id_for_call(call) {
            Some(id) => id,
            None => {
                let id: u64 = self.next_incoming_id;
                self.next_incoming_id = id + 1;
                let ghost before = self.entries@;
                self.entries.push(ConnEntry { id, call: text::owned(call) });
                assert(conns_view(self.entries@) =~= conns_view(before).push(
                    ConnView { id, call: call@ },
                ));
                id
            },
        }
    }

    pub fn remove_call(&mut self, call: &str)
        requires
            old(self)@.wf(),
        ensures
            final(self)@ == old(self)@.without_call(call@),
            final(self)@.wf(),
    {
        proof {
            lemma_without_wf(self@, call@);
        }
        let k: usize = self.find_call(call);
        if k < self.entries.len() {
            let ghost before = self.entries@;
            let _ = self.entries.remove(k);
            assert(conns_view(self.entries@) =~= conns_view(before).remove(k as int));
        }
    }
}

proof fn lemma_opened_wf(m: ConnMapView, call: Seq<char>)
    requires
        m.wf(),
        m.next_incoming_id < u64::MAX,
    ensures
        m.opened(call).wf(),
{
    lemma_call_index(m.entries, call);
    let t = m.opened(call);
    if m.id_for_call(call) is None {
        assert forall|i: int, j: int| 0 <= i < j < t.entries.len() implies (
        #[trigger] t.entries[i]).id != (#[trigger] t.entries[j]).id && t.entries[i].call
            != t.entries[j].call by {
            assert(t.entries[i] == m.entries[i]);
            if j < m.entries.len() {
                assert(t.entries[j] == m.entries[j]);
            } else {
                assert(m.entries[i].call != call);
            }
        }
    }
}

proof fn lemma_without_wf(m: ConnMapView, call: Seq<char>)
    requires
        m.wf(),
    ensures
        m.without_call(call).wf(),
{
    lemma_call_index(m.entries, call);
    let k = call_index(m.entries, call);
    let t = m.without_call(call);
    if k < m.entries.len() {
        assert forall|i: int| 0 <= i < t.entries.len() implies (#[trigger] t.entries[i]).id
            < t.next_incoming_id by {
            assert(t.entries[i] == m.entries[if i < k {
                i
            } else {
                i + 1
            }]);
        }
        assert forall|i: int, j: int| 0 <= i < j < t.entries.len() implies (
        #[trigger] t.entries[i]).id != (#[trigger] t.entries[j]).id && t.entries[i].call
            != t.entries[j].call by {
            let a = if i < k {
                i
            } else {
                i + 1
            };
            let b = if j < k {
                j
            } else {
                j + 1
            };
            assert(t.entries[i] == m.entries[a]);
            assert(t.entries[j] == m.entries[b]);
        }
    }
}

// ---------------------------------------------------------------------------
// Frames from the host
// ---------------------------------------------------------------------------

/// The payload of a frame as text, white space around it aside.
pub open spec fn payload_text(f: AgwView) -> Seq<char> {
    text::trimmed(text::shown_text(f.data))
}

/// The connections after a frame, and what it reports.
pub open spec fn frame_step(m: ConnMapView, f: AgwView) -> (ConnMapView, Seq<EventView>) {
    let kind = f.data_kind as char;
    let shown = payload_text(f);
    if kind == 'G' || kind == 'R' || kind == 'H' || kind == 'g' {
        (m, seq![port::monitor_line("["@ + seq![kind] + "] "@ + shown)])
    } else if kind == 'C' {
        let id = m.opened_id(f.call_from);
        let first = seq![
            EventView::ConnectionOpened { id, label: f.call_from, to: Some(f.call_to) },
            EventView::ConnState { id, state: ConnState::Connected },
        ];
        (
            m.opened(f.call_from),
            if shown.len() == 0 {
                first
            } else {
                first.push(port::monitor_line(shown))
            },
        )
    } else if kind == 'd' {
        match m.id_for_call(f.call_from) {
            Some(id) => (
                m.without_call(f.call_from),
                seq![
                    EventView::ConnState { id, state: ConnState::Disconnected },
                    EventView::ConnectionClosed { id },
                ],
            ),
            None => (m, Seq::empty()),
        }
    } else if kind == 'D' {
        match m.id_for_call(f.call_from) {
            Some(id) => (m, seq![EventView::Data { id, bytes: f.data }]),
            None => (m, Seq::empty()),
        }
    } else if kind == 'U' || kind == 'S' || kind == 'I' || kind == 'T' {
        (
            m,
            seq![
                port::monitor_line(
                    f.call_from + " > "@ + f.call_to + " ["@ + seq![kind] + "]: "@ + shown,
                ),
            ],
        )
    } else {
        (m, Seq::empty())
    }
}

/// Takes a frame from the host and gives what it reports.
pub fn handle_frame(frame: AgwFrame, conns: &mut ConnMap) -> (events: Vec<PortEvent>)
    requires
        old(conns)@.wf(),
        old(conns).next_incoming_id < u64::MAX,
    ensures
        final(conns)@ == frame_step(old(conns)@, frame@).0,
        final(conns)@.wf(),
        port::events_view(events@) == frame_step(old(conns)@, frame@).1,
{
    let kind = frame.kind();
    let mut events: Vec<PortEvent> = Vec::new();
    assert(port::events_view(events@) =~= Seq::<EventView>::empty());
    let ghost step = frame_step(conns@, frame@).1;
    if kind == 'G' || kind == 'R' || kind == 'H' || kind == 'g' {
        let raw = text::from_utf8_lossy(frame.data.as_slice());
        let shown = text::trim(raw.as_str());
        let mut line = text::owned("[");
        line.push(kind);
        line.append("] ");
        line.append(shown.as_str());
        assert(line@ =~= "["@ + seq![kind] + "] "@ + shown@);
        port::emit_line(&mut events, line);
        assert(port::events_view(events@) =~= step);
    } else if kind == 'C' {
        let raw = text::from_utf8_lossy(frame.data.as_slice());
        let shown = text::trim(raw.as_str());
        let id: u64 = conns.open_call(frame.call_from.as_str());
        port::emit(
            &mut events,
            PortEvent::ConnectionOpened {
                id,
                label: frame.call_from.clone(),
                to: Some(frame.call_to.clone()),
            },
        );
        port::emit(&mut events, PortEvent::ConnState { id, state: ConnState::Connected });
        if !shown.as_str().is_empty() {
            port::emit_line(&mut events, shown);
        }
        assert(port::events_view(events@) =~= step);
    } else if kind == 'd' {
        match conns.id_for_call(frame.call_from.as_str()) {
            Some(id) => {
                conns.remove_call(frame.call_from.as_str());
                port::emit(
                    &mut events,
                    PortEvent::ConnState { id, state: ConnState::Disconnected },
                );
                port::emit(&mut events, PortEvent::ConnectionClosed { id });
            },
            None => {},
        }
        assert(port::events_view(events@) =~= step);
    } else if kind == 'D' {
        match conns.id_for_call(frame.call_from.as_str()) {
            Some(id) => {
                port::emit(&mut events, PortEvent::Data { id, bytes: frame.data });
            },
            None => {},
        }
        assert(port::events_view(events@) =~= step);
    } else if kind == 'U' || kind == 'S' || kind == 'I' || kind == 'T' {
        let raw = text::from_utf8_lossy(frame.data.as_slice());
        let shown = text::trim(raw.as_str());
        let mut line = frame.call_from.clone();
        line.append(" > ");
        line.append(frame.call_to.as_str());
        line.append(" [");
        line.push(kind);
        line.append("]: ");
        line.append(shown.as_str());
        assert(line@ =~= frame@.call_from + " > "@ + frame@.call_to + " ["@ + seq![kind] + "]: "@
            + shown@);
        port::emit_line(&mut events, line);
        assert(port::events_view(events@) =~= step);
    }
    events
}

// ---------------------------------------------------------------------------
// Commands
// ---------------------------------------------------------------------------

/// What a command asks of the owner of the stream.
#[derive(Debug)]
pub struct CommandStep {
    pub events: Vec<PortEvent>,
    /// The frame to send.
    pub frame: Option<AgwFrame>,
    /// The port is given up where the frame cannot be sent.
    pub must_send: bool,
    /// The port is to be closed.
    pub stop: bool,
}

#[verifier::ext_equal]
pub struct CommandStepView {
    pub events: Seq<EventView>,
    pub frame: Option<AgwView>,
    pub must_send: bool,
    pub stop: bool,
}

impl View for CommandStep {
    type V = CommandStepView;

    open spec fn view(&self) -> CommandStepView {
        CommandStepView {
            events: port::events_view(self.events@),
            frame: match self.frame {
                Some(f) => Some(f@),
                None => None,
            },
            must_send: self.must_send,
            stop: self.stop,
        }
    }
}

pub open spec fn quiet(stop: bool) -> CommandStepView {
    CommandStepView { events: Seq::empty(), frame: None, must_send: false, stop }
}

/// The connections after a command, and what it asks for.
pub open spec fn command_step(
    m: ConnMapView,
    command: PortCommand,
    radio_port: u8,
    my_call: Seq<char>,
) -> (ConnMapView, CommandStepView) {
    match command {
        PortCommand::OpenConnection { remote, via } => {
            let id = m.opened_id(remote@);
            (
                m.opened(remote@),
                CommandStepView {
                    events: seq![
                        EventView::ConnectionOpened { id, label: remote@, to: Some(my_call) },
                        EventView::ConnState { id, state: ConnState::Connecting },
                    ],
                    frame: Some(
                        if via@.len() == 0 {
                            codec::agw(radio_port, 'C', my_call, remote@, Seq::empty())
                        } else {
                            codec::agw(
                                radio_port,
                                'v',
                                my_call,
                                remote@,
                                codec::digi_path(text::texts(via@)),
                            )
                        },
                    ),
                    must_send: true,
                    stop: false,
                },
            )
        },
        PortCommand::Send { id, bytes } => match m.call_for_id(id) {
            Some(remote) => (
                m,
                CommandStepView {
                    frame: Some(codec::agw(radio_port, 'D', my_call, remote, bytes@)),
                    must_send: true,
                    ..quiet(false)
                },
            ),
            None => (m, quiet(false)),
        },
        PortCommand::CloseConnection { id } => match m.call_for_id(id) {
            Some(remote) => (
                m,
                CommandStepView {
                    frame: Some(codec::agw(radio_port, 'd', my_call, remote, Seq::empty())),
                    ..quiet(false)
                },
            ),
            None => (m, quiet(false)),
        },
        PortCommand::SendUnproto { dest, via, bytes } => (
            m,
            CommandStepView {
                frame: Some(
                    if via@.len() == 0 {
                        codec::agw(radio_port, 'M', my_call, dest@, bytes@)
                    } else {
                        codec::agw(
                            radio_port,
                            'V',
                            my_call,
                            dest@,
                            codec::digi_path(text::texts(via@)) + bytes@,
                        )
                    },
                ),
                must_send: true,
                ..quiet(false)
            },
        ),
        PortCommand::Disconnect => (m, quiet(true)),
        PortCommand::Connect => (m, quiet(false)),
    }
}

fn quiet_step(stop: bool) -> (r: CommandStep)
    ensures
        r@ == quiet(stop),
{
    let r = CommandStep { events: Vec::new(), frame: None, must_send: false, stop };
    assert(r@.events =~= Seq::<EventView>::empty());
    r
}

/// Takes a command and gives what it asks for.
pub fn handle_command(
    command: PortCommand,
    conns: &mut ConnMap,
    radio_port: u8,
    my_call: &str,
) -> (r: CommandStep)
    requires
        old(conns)@.wf(),
        old(conns).next_incoming_id < u64::MAX,
    ensures
        final(conns)@ == command_step(old(conns)@, command, radio_port, my_call@).0,
        final(conns)@.wf(),
        r@ == command_step(old(conns)@, command, radio_port, my_call@).1,
{
    let ghost step = command_step(conns@, command, radio_port, my_call@).1;
    let mut r = quiet_step(false);
    match command {
        PortCommand::OpenConnection { remote, via } => {
            let id: u64 = conns.open_call(remote.as_str());
            port::emit(
                &mut r.events,
                PortEvent::ConnectionOpened {
                    id,
                    label: remote.clone(),
                    to: Some(text::owned(my_call)),
                },
            );
            port::emit(&mut r.events, PortEvent::ConnState { id, state: ConnState::Connecting });
            r.frame = Some(
                if via.len() == 0 {
                    AgwFrame::new(radio_port, 'C', my_call, remote.as_str(), Vec::new())
                } else {
                    AgwFrame::connect_via(radio_port, my_call, remote.as_str(), &via)
                },
            );
            r.must_send = true;
            assert(r@ =~= step);
        },
        PortCommand::Send { id, bytes } => {
            match conns.call_for_id(id) {
                Some(remote) => {
                    r.frame =
                    Some(AgwFrame::new(radio_port, 'D', my_call, remote.as_str(), bytes));
                    r.must_send = true;
                },
                None => {},
            }
            assert(r@ =~= step);
        },
        PortCommand::CloseConnection { id } => {
            match conns.call_for_id(id) {
                Some(remote) => {
                    r.frame =
                    Some(AgwFrame::new(radio_port, 'd', my_call, remote.as_str(), Vec::new()));
                },
                None => {},
            }
            assert(r@ =~= step);
        },
        PortCommand::SendUnproto { dest, via, bytes } => {
            r.frame = Some(
                if via.len() == 0 {
                    AgwFrame::new(radio_port, 'M', my_call, dest.as_str(), bytes)
                } else {
                    AgwFrame::unproto_via(radio_port, my_call, dest.as_str(), &via, bytes)
                },
            );
            r.must_send = true;
            assert(r@ =~= step);
        },
        PortCommand::Disconnect => {
            r.stop = true;
        },
        PortCommand::Connect => {},
    }
    r
}

/// The frames that begin a session with the host: a login where one is set, then
/// requests for the port list and for monitoring.
pub open spec fn startup(login: Option<(String, String)>, radio_port: u8) -> Seq<AgwView> {
    let none = Seq::<char>::empty();
    let asks = seq![
        codec::agw(radio_port, 'G', none, none, Seq::empty()),
        codec::agw(radio_port, 'm', none, none, Seq::empty()),
    ];
    match login {
        Some((user, password)) => seq![
            codec::agw(
                0,
                'P',
                none,
                none,
                codec::padded(vstd::utf8::encode_utf8(user@), 255) + codec::padded(
                    vstd::utf8::encode_utf8(password@),
                    255,
                ),
            ),
        ] + asks,
        None => asks,
    }
}

pub open spec fn agw_views(v: Seq<AgwFrame>) -> Seq<AgwView> {
    v.map_values(|f: AgwFrame| f@)
}

impl AgwpeRunner {
    pub fn startup_frames(&self) -> (r: Vec<AgwFrame>)
        ensures
            agw_views(r@) == startup(self.login, self.radio_port),
    {
        proof {
            reveal_strlit("");
            assert(""@ =~= Seq::<char>::empty());
        }
        let mut r: Vec<AgwFrame> = Vec::new();
        match &self.login {
            Some((user, password)) => {
                r.push(AgwFrame::login(user.as_str(), password.as_str()));
            },
            None => {},
        }
        r.push(AgwFrame::new(self.radio_port, 'G', "", "", Vec::new()));
        r.push(AgwFrame::new(self.radio_port, 'm', "", "", Vec::new()));
        assert(agw_views(r@) =~= startup(self.login, self.radio_port));
        r
    }
}

// ---------------------------------------------------------------------------
// Laws
// ---------------------------------------------------------------------------

/// Data is sent to the station that a connection was opened with: the identifier
/// that a callsign gets leads back to the callsign.
pub proof fn law_identifier_leads_back(m: ConnMapView, call: Seq<char>)
    requires
        m.wf(),
        m.next_incoming_id < u64::MAX,
    ensures
        m.opened(call).call_for_id(m.opened_id(call)) == Some(call),
        m.opened(call).id_for_call(call) == Some(m.opened_id(call)),
        m.opened(call).wf(),
{
    lemma_opened_wf(m, call);
    lemma_call_index(m.entries, call);
    let t = m.opened(call);
    let id = m.opened_id(call);
    lemma_call_index(t.entries, call);
    lemma_id_index(t.entries, id);
    let k = if m.id_for_call(call) is Some {
        call_index(m.entries, call)
    } else {
        m.entries.len() as int
    };
    assert(t.entries[k].id == id && t.entries[k].call == call);
    let a = call_index(t.entries, call);
    assert(a == k);
    lemma_id_at(t.entries, id, k);
}

proof fn lemma_id_at(entries: Seq<ConnView>, id: ConnectionId, k: int)
    requires
        0 <= k < entries.len(),
        entries[k].id == id,
        forall|i: int, j: int|
            0 <= i < j < entries.len() ==> (#[trigger] entries[i]).id != (
            #[trigger] entries[j]).id,
    ensures
        id_index(entries, id) == k,
    decreases k,
{
    if k > 0 {
        assert(entries[0].id != entries[k].id);
        assert forall|i: int, j: int| 0 <= i < j < entries.skip(1).len() implies (
        #[trigger] entries.skip(1)[i]).id != (#[trigger] entries.skip(1)[j]).id by {
            assert(entries[i + 1].id != entries[j + 1].id);
        }
        lemma_id_at(entries.skip(1), id, k - 1);
    }
}

/// A connection that the host closed is gone: nothing arrives on it, and a new
/// one with the same station gets another identifier.
pub proof fn law_closed_connection_is_gone(m: ConnMapView, call: Seq<char>)
    requires
        m.wf(),
    ensures
        m.without_call(call).id_for_call(call) is None,
        m.id_for_call(call) matches Some(id) ==> m.without_call(call).opened_id(call) != id,
{
    lemma_call_index(m.entries, call);
    let t = m.without_call(call);
    lemma_call_index(t.entries, call);
    let k = call_index(m.entries, call);
    let a = call_index(t.entries, call);
    if k < m.entries.len() && a < t.entries.len() {
        let b = if a < k {
            a
        } else {
            a + 1
        };
        assert(t.entries[a] == m.entries[b]);
        assert(m.entries[b].call == m.entries[k].call);
        if b < k {
            assert(m.entries[b].id != m.entries[k].id);
        } else {
            assert(m.entries[k].id != m.entries[b].id);
        }
    }
}

/// Whether `call` is at the other end of the connection `id`.
pub open spec fn connected_to(m: ConnMapView, id: ConnectionId, call: Seq<char>) -> bool {
    m.entries.contains(ConnView { id, call })
}

/// Whatever a command asks the host for is asked for under the callsign of this port, on
/// its radio port, and of the station that the command names or that its connection is
/// with; it carries what was given to it. Opening and unconnected frames always ask,
/// data and closing exactly where there is such a connection, and nothing else does.
pub proof fn law_asks_for_us(
    m: ConnMapView,
    command: PortCommand,
    radio_port: u8,
    my_call: Seq<char>,
)
    requires
        m.wf(),
    ensures
        ({
            let asked = command_step(m, command, radio_port, my_call).1.frame;
            &&& asked matches Some(f) ==> f.call_from == my_call && f.port == radio_port && f.pid
                == 0xF0
            &&& match command {
                PortCommand::OpenConnection { remote, via } => asked matches Some(f) && f.call_to
                    == remote@ && if via@.len() == 0 {
                    f.data_kind == 'C' as u8 && f.data.len() == 0
                } else {
                    f.data_kind == 'v' as u8 && f.data == codec::digi_path(text::texts(via@))
                },
                PortCommand::SendUnproto { dest, via, bytes } => asked matches Some(f) && f.call_to
                    == dest@ && if via@.len() == 0 {
                    f.data_kind == 'M' as u8 && f.data == bytes@
                } else {
                    f.data_kind == 'V' as u8 && f.data == codec::digi_path(text::texts(via@))
                        + bytes@
                },
                PortCommand::Send { id, bytes } => match asked {
                    Some(f) => connected_to(m, id, f.call_to) && f.data_kind == 'D' as u8 && f.data
                        == bytes@,
                    None => forall|call: Seq<char>| !#[trigger] connected_to(m, id, call),
                },
                PortCommand::CloseConnection { id } => match asked {
                    Some(f) => connected_to(m, id, f.call_to) && f.data_kind == 'd' as u8
                        && f.data.len() == 0,
                    None => forall|call: Seq<char>| !#[trigger] connected_to(m, id, call),
                },
                _ => asked is None,
            }
        }),
{
    match command {
        PortCommand::Send { id, .. } => {
            lemma_connected_to(m, id);
        },
        PortCommand::CloseConnection { id } => {
            lemma_connected_to(m, id);
        },
        _ => {},
    }
}

proof fn lemma_connected_to(m: ConnMapView, id: ConnectionId)
    requires
        m.wf(),
    ensures
        match m.call_for_id(id) {
            Some(call) => connected_to(m, id, call),
            None => forall|call: Seq<char>| !#[trigger] connected_to(m, id, call),
        },
{
    lemma_id_index(m.entries, id);
    let k = id_index(m.entries, id);
    match m.call_for_id(id) {
        Some(call) => {
            assert(m.entries[k] == ConnView { id, call });
        },
        None => {
            assert forall|call: Seq<char>| !#[trigger] connected_to(m, id, call) by {
                if connected_to(m, id, call) {
                    let i = choose|i: int|
                        0 <= i < m.entries.len() && m.entries[i] == ConnView { id, call };
                    lemma_id_at(m.entries, id, i);
                }
            }
        },
    }
}

/// A connection with a station is one both ways: after it is opened, what is sent on the
/// identifier that was reported goes to that station and to no other, what that station
/// sends is reported under the same identifier with its very bytes, and its end is
/// reported for that identifier.
pub proof fn law_connection_both_ways(
    m: ConnMapView,
    open: PortCommand,
    radio_port: u8,
    my_call: Seq<char>,
    bytes: Vec<u8>,
    f: AgwView,
)
    requires
        m.wf(),
        m.next_incoming_id < u64::MAX,
        open matches PortCommand::OpenConnection { remote, .. } && f.call_from == remote@,
    ensures
        ({
            let (opened, step) = command_step(m, open, radio_port, my_call);
            let station = open->OpenConnection_remote@;
            &&& step.events.len() == 2
            &&& step.events[0] matches EventView::ConnectionOpened { id, label, to } && {
                let sent = command_step(opened, PortCommand::Send { id, bytes }, radio_port, my_call);
                let came = frame_step(opened, f);
                &&& label == station
                &&& to == Some(my_call)
                &&& step.events[1] == EventView::ConnState { id, state: ConnState::Connecting }
                &&& sent.0 == opened
                &&& sent.1.frame matches Some(data) && data.call_to == station && data.call_from
                    == my_call && data.data == bytes@
                &&& f.data_kind == 'D' as u8 ==> came == (opened, seq![
                    EventView::Data { id, bytes: f.data },
                ])
                &&& f.data_kind == 'd' as u8 ==> came.1 == seq![
                    EventView::ConnState { id, state: ConnState::Disconnected },
                    EventView::ConnectionClosed { id },
                ]
                &&& f.data_kind == 'C' as u8 ==> came.1.len() >= 2 && came.1[0]
                    == EventView::ConnectionOpened { id, label: station, to: Some(f.call_to) }
                    && came.1[1] == EventView::ConnState { id, state: ConnState::Connected }
            }
        }),
{
    match open {
        PortCommand::OpenConnection { remote, .. } => {
            law_identifier_leads_back(m, remote@);
        },
        _ => {},
    }
}

/// A frame that the host monitored is one line: its sender, its receiver, its kind and
/// its text.
pub proof fn law_monitored_line(m: ConnMapView, f: AgwView)
    requires
        f.data_kind == 'U' as u8 || f.data_kind == 'S' as u8 || f.data_kind == 'I' as u8
            || f.data_kind == 'T' as u8,
    ensures
        frame_step(m, f).0 == m,
        frame_step(m, f).1.len() == 1,
        frame_step(m, f).1[0] matches EventView::Monitor { line, from, to, message } && line
            == f.call_from + seq![' ', '>', ' '] + f.call_to + seq![' ', '[', f.data_kind as char, ']', ':', ' ']
            + payload_text(f),
{
    reveal_strlit(" > ");
    reveal_strlit(" [");
    reveal_strlit("]: ");
    assert(frame_step(m, f).1[0]->Monitor_line =~= f.call_from + seq![' ', '>', ' '] + f.call_to
        + seq![' ', '[', f.data_kind as char, ']', ':', ' '] + payload_text(f));
}

} // verus!
