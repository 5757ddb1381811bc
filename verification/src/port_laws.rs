//! What ports tell the program, and what they tell the hardware.

use vstd::prelude::*;
use vstd::utf8::*;

use crate::arq::{ActionView, ArqView};
use crate::client;
use crate::codec::{self, AgwView};
use crate::config::KissParams;
use crate::kiss::{self, DecoderView};
use crate::kiss_monitor::{self, InternalView};
use crate::kiss_runner::{self, ConnMapView};
use crate::link::{self, AddressView, ContentView, FrameView};
use crate::port::{ConnState, ConnectionId, EventView};
use crate::runner;
use crate::transports;

verus! {

// ---------------------------------------------------------------------------
// The host
// ---------------------------------------------------------------------------

/// A session with the host begins with the login, where one is set: the name from the
/// first byte on and the password from byte 255 on. Then the ports and the monitored
/// traffic of the radio port are asked for.
pub proof fn law_session_begins(user: String, password: String, radio_port: u8)
    requires
        encode_utf8(user@).len() < 255,
        encode_utf8(password@).len() < 255,
    ensures
        ({
            let all = client::startup(Some((user, password)), radio_port);
            &&& all.len() == 3
            &&& all[0].data_kind == 'P' as u8
            &&& all[0].data.len() == 510
            &&& codec::holds(all[0].data, 0, encode_utf8(user@))
            &&& codec::holds(all[0].data, 255, encode_utf8(password@))
            &&& all.skip(1) == client::startup(None, radio_port)
        }),
        ({
            let asks = client::startup(None, radio_port);
            &&& asks.len() == 2
            &&& asks[0].data_kind == 'G' as u8 && asks[0].port == radio_port
            &&& asks[1].data_kind == 'm' as u8 && asks[1].port == radio_port
        }),
{
    let all = client::startup(Some((user, password)), radio_port);
    let (u, p) = (encode_utf8(user@), encode_utf8(password@));
    let data = all[0].data;
    assert(data.subrange(0, u.len() as int) =~= u);
    assert(data.subrange(255, 255 + p.len() as int) =~= p);
    assert(all.skip(1) =~= client::startup(None, radio_port));
}

/// A call that the host reports of a station that is not connected becomes a connection
/// of its own, with that station and for the callsign that it called.
pub proof fn law_host_reports_call(m: client::ConnMapView, f: AgwView)
    requires
        m.wf(),
        m.next_incoming_id < u64::MAX,
        f.data_kind == 'C' as u8,
        m.id_for_call(f.call_from) is None,
    ensures
        ({
            let (after, events) = client::frame_step(m, f);
            let id = m.next_incoming_id;
            &&& events.len() >= 2
            &&& events[0] == (EventView::ConnectionOpened {
                id,
                label: f.call_from,
                to: Some(f.call_to),
            })
            &&& events[1] == (EventView::ConnState { id, state: ConnState::Connected })
            &&& after.id_for_call(f.call_from) == Some(id)
            &&& after.call_for_id(id) == Some(f.call_from)
            &&& m.call_for_id(id) is None
        }),
{
    client::law_identifier_leads_back(m, f.call_from);
    client::lemma_id_index(m.entries, m.next_incoming_id);
}

// ---------------------------------------------------------------------------
// The TNC
// ---------------------------------------------------------------------------

/// A parameter that is set, as the command for it and its value.
pub open spec fn set_to(command: u8, value: Option<u8>) -> Seq<kiss::FrameBytes> {
    match value {
        Some(v) => seq![(command, seq![v])],
        None => Seq::empty(),
    }
}

pub open spec fn duplex_value(b: Option<bool>) -> Option<u8> {
    match b {
        Some(true) => Some(1u8),
        Some(false) => Some(0u8),
        None => None,
    }
}

/// Between frames.
spec fn idle(d: DecoderView) -> bool {
    d.buf.len() == 0 && !d.escaped
}

proof fn lemma_param(d: DecoderView, command: u8, value: Option<u8>)
    requires
        idle(d),
        1 <= command <= 5,
    ensures
        d.frames(kiss_runner::param_bytes(command, value)) == set_to(command, value),
        idle(d.after(kiss_runner::param_bytes(command, value))),
{
    match value {
        Some(v) => {
            let c = kiss::data_command(kiss_runner::KISS_PORT) | (command & 0x0F);
            assert(((0u8 & 0x0F) << 4) | (command & 0x0F) == command) by (bit_vector)
                requires
                    1 <= command <= 5,
            ;
            assert(c == command);
            kiss::law_round_trip(d, command, seq![v]);
            assert(d.completes(kiss::FEND) =~= Seq::<kiss::FrameBytes>::empty());
            assert(d.completes(kiss::FEND) + seq![(command, seq![v])] =~= seq![(command, seq![v])]);
        },
        None => {},
    }
}

/// A TNC is told the parameters that are set and no others: the delay, the persistence,
/// the slot time and the duplex mode, each by its own command and with its own value.
pub proof fn law_parameters_told(p: KissParams)
    ensures
        DecoderView::start().frames(kiss_runner::params_bytes(p)) == set_to(1, p.tx_delay)
            + set_to(2, p.persistence) + set_to(3, p.slot_time) + set_to(
            5,
            duplex_value(p.full_duplex),
        ),
{
    let d = DecoderView::start();
    let a = kiss_runner::param_bytes(1, p.tx_delay);
    let b = kiss_runner::param_bytes(2, p.persistence);
    let c = kiss_runner::param_bytes(3, p.slot_time);
    let e = kiss_runner::param_bytes(5, duplex_value(p.full_duplex));
    lemma_param(d, 1, p.tx_delay);
    lemma_param(d.after(a), 2, p.persistence);
    kiss::law_feeding_in_pieces(d, a, b);
    lemma_param(d.after(a + b), 3, p.slot_time);
    kiss::law_feeding_in_pieces(d, a + b, c);
    lemma_param(d.after(a + b + c), 5, duplex_value(p.full_duplex));
    kiss::law_feeding_in_pieces(d, a + b + c, e);
    assert(kiss_runner::params_bytes(p) == a + b + c + e);
}

/// What a session does comes out in order, under its own number: data as it came, each
/// change of state, each message and the end; and what it sends goes on the air.
pub proof fn law_actions_reported(id: ConnectionId, actions: Seq<ActionView>, a: ActionView)
    ensures
        ({
            let before = kiss_runner::actions_output(id, actions);
            let after = kiss_runner::actions_output(id, actions.push(a));
            match a {
                ActionView::Data(bytes) => after.writes == before.writes && after.events
                    == before.events.push(EventView::Data { id, bytes }),
                ActionView::StateChanged(state) => after.writes == before.writes && after.events
                    == before.events.push(EventView::ConnState { id, state }),
                ActionView::Monitor(line) => after.writes == before.writes && after.events
                    == before.events.push(
                    EventView::Monitor { line, from: None, to: None, message: None },
                ),
                ActionView::Closed => after.writes == before.writes && after.events
                    == before.events.push(EventView::ConnectionClosed { id }),
                ActionView::Transmit(f) => after.events == before.events && after.writes
                    == before.writes.push(kiss_runner::on_air(kiss_runner::frame_bytes(f))),
                ActionView::TransmitRaw(bytes) => after.events == before.events && after.writes
                    == before.writes.push(kiss_runner::on_air(bytes)),
            }
        }),
        kiss_runner::actions_output(id, Seq::empty()).writes.len() == 0,
        kiss_runner::actions_output(id, Seq::empty()).events.len() == 0,
{
    assert(actions.push(a).drop_last() =~= actions);
}

proof fn lemma_reported(id: ConnectionId, actions: Seq<ActionView>, i: int)
    requires
        0 <= i < actions.len(),
    ensures
        actions[i] matches ActionView::Data(bytes) ==> kiss_runner::actions_output(
            id,
            actions,
        ).events.contains(EventView::Data { id, bytes }),
    decreases actions.len(),
{
    let front = actions.drop_last();
    assert(front.push(actions.last()) =~= actions);
    law_actions_reported(id, front, actions.last());
    let before = kiss_runner::actions_output(id, front).events;
    let after = kiss_runner::actions_output(id, actions).events;
    match actions[i] {
        ActionView::Data(bytes) => {
            let e = EventView::Data { id, bytes };
            if i < front.len() {
                lemma_reported(id, front, i);
                let k = before.index_of(e);
                assert(after[k] == e);
            } else {
                assert(after.last() == e);
            }
        },
        _ => {},
    }
}

/// What a connected station sends in sequence is reported under the number of its
/// connection, with its very bytes.
pub proof fn law_peer_data_reported(
    m: ConnMapView,
    f: FrameView,
    local: AddressView,
    cfg: crate::arq::ArqConfig,
    now: u64,
    id: ConnectionId,
)
    requires
        m.id_for_call(link::address_text(f.source)) == Some(id),
        m.has(id),
        m.session(id).state == ConnState::Connected,
        f.content matches ContentView::Information { send_sequence, .. } && send_sequence
            == m.session(id).vr,
    ensures
        kiss_runner::internal_step(m, InternalView::Frame(f), local, cfg, now).1.events.contains(
            EventView::Data { id, bytes: f.content->Information_info },
        ),
{
    let actions = m.session(id).received(f.content, now).1;
    let i = actions.len() - 2;
    assert(actions[i] == ActionView::Data(f.content->Information_info));
    lemma_reported(id, actions, i);
}

/// Asking for a connection reports the station, then a new connection with it for our
/// callsign, then that it is being set up. Where a name in it is no address, the error
/// is all that is reported, and nothing is sent.
pub proof fn law_opening_reported(
    m: ConnMapView,
    local: AddressView,
    remote: Seq<char>,
    path: Seq<Seq<char>>,
    cfg: crate::arq::ArqConfig,
    now: u64,
)
    ensures
        ({
            let (after, out) = kiss_runner::open_step(m, local, remote, path, cfg, now);
            let good = kiss_monitor::address_in(remote) is Ok && kiss_monitor::path_in(path) is Ok;
            &&& good ==> out.events == seq![
                EventView::StationHeard { callsign: remote },
                EventView::ConnectionOpened {
                    id: m.next_id,
                    label: remote,
                    to: Some(link::address_text(local)),
                },
                EventView::ConnState { id: m.next_id, state: ConnState::Connecting },
            ] && out.writes.len() == 1
            &&& !good ==> after == m && out.writes.len() == 0 && out.events.len() == 1
                && out.events[0] is PortError
        }),
{
    let (after, out) = kiss_runner::open_step(m, local, remote, path, cfg, now);
    if kiss_monitor::address_in(remote) is Ok && kiss_monitor::path_in(path) is Ok {
        let fresh = ArqView::fresh(
            local,
            kiss_monitor::address_in(remote)->Ok_0,
            kiss_monitor::path_in(path)->Ok_0,
            cfg,
        );
        let actions = fresh.opened(now).1;
        lemma_two_reported(m.next_id, actions);
        assert(out.events =~= seq![
            EventView::StationHeard { callsign: remote },
            EventView::ConnectionOpened {
                id: m.next_id,
                label: remote,
                to: Some(link::address_text(local)),
            },
            EventView::ConnState { id: m.next_id, state: ConnState::Connecting },
        ]);
    }
}

proof fn lemma_two_reported(id: ConnectionId, actions: Seq<ActionView>)
    requires
        actions.len() == 2,
        actions[0] is Transmit,
        actions[1] is StateChanged,
    ensures
        kiss_runner::actions_output(id, actions).writes == seq![
            kiss_runner::on_air(kiss_runner::frame_bytes(actions[0]->Transmit_0)),
        ],
        kiss_runner::actions_output(id, actions).events == seq![
            EventView::ConnState { id, state: actions[1]->StateChanged_0 },
        ],
{
    let none = Seq::<ActionView>::empty();
    let one = none.push(actions[0]);
    law_actions_reported(id, none, actions[0]);
    law_actions_reported(id, one, actions[1]);
    assert(one.push(actions[1]) =~= actions);
    let out = kiss_runner::actions_output(id, actions);
    assert(out.writes =~= seq![
        kiss_runner::on_air(kiss_runner::frame_bytes(actions[0]->Transmit_0)),
    ]);
    assert(out.events =~= seq![EventView::ConnState { id, state: actions[1]->StateChanged_0 }]);
}

/// A station that calls is reported, with a new connection for our callsign that is up,
/// and one frame answers it. A station that is not connected and hangs up is answered
/// too, and nothing is reported; anything else from it is passed over.
pub proof fn law_strange_station(
    m: ConnMapView,
    f: FrameView,
    local: AddressView,
    cfg: crate::arq::ArqConfig,
    now: u64,
)
    requires
        m.id_for_call(link::address_text(f.source)) is None,
    ensures
        ({
            let (after, out) = kiss_runner::internal_step(
                m,
                InternalView::Frame(f),
                local,
                cfg,
                now,
            );
            let call = link::address_text(f.source);
            match f.content {
                ContentView::SetAsynchronousBalancedMode { .. } => out.events == seq![
                    EventView::StationHeard { callsign: call },
                    EventView::ConnectionOpened {
                        id: m.next_id,
                        label: call,
                        to: Some(link::address_text(local)),
                    },
                    EventView::ConnState { id: m.next_id, state: ConnState::Connected },
                ] && out.writes.len() == 1,
                ContentView::Disconnect { .. } => after == m && out.events.len() == 0
                    && out.writes.len() == 1,
                _ => after == m && out.events.len() == 0 && out.writes.len() == 0,
            }
        }),
{
    let (after, out) = kiss_runner::internal_step(m, InternalView::Frame(f), local, cfg, now);
    let call = link::address_text(f.source);
    match f.content {
        ContentView::SetAsynchronousBalancedMode { poll } => {
            let fresh = ArqView::fresh(
                local,
                f.source,
                crate::wire::reversed_route(f.route),
                cfg,
            );
            lemma_two_reported(m.next_id, fresh.accepted(poll).1);
            assert(out.events =~= seq![
                EventView::StationHeard { callsign: call },
                EventView::ConnectionOpened {
                    id: m.next_id,
                    label: call,
                    to: Some(link::address_text(local)),
                },
                EventView::ConnState { id: m.next_id, state: ConnState::Connected },
            ]);
        },
        _ => {},
    }
}

/// Of the frames that a TNC hands over, each data frame is taken, in order, and each
/// other one is passed over.
pub proof fn law_frames_taken_in_order(
    frames: Seq<kiss::FrameBytes>,
    command: u8,
    payload: Seq<u8>,
    local: AddressView,
)
    ensures
        ({
            let before = kiss_runner::frames_step(frames, local);
            let after = kiss_runner::frames_step(frames.push((command, payload)), local);
            let (events, internal) = kiss_monitor::payload_step(payload, local);
            if command & 0x0F == 0 {
                &&& after.0 == before.0 + events
                &&& internal is None ==> after.1 == before.1
                &&& internal is Some ==> after.1 == before.1.push(internal->0)
            } else {
                after == before
            }
        }),
        kiss_runner::frames_step(Seq::empty(), local).0.len() == 0,
        kiss_runner::frames_step(Seq::empty(), local).1.len() == 0,
{
    assert(frames.push((command, payload)).drop_last() =~= frames);
}

// ---------------------------------------------------------------------------
// Links of other kinds
// ---------------------------------------------------------------------------

/// A port that is itself one session reports that it is up before it reports its one
/// connection, under its label, and reports the end of the same connection before it
/// reports that it is down.
pub proof fn law_single_link_reported(label: Seq<char>)
    ensures
        ({
            let up = transports::opened(label);
            let down = transports::closed();
            &&& up.len() == 3 && down.len() == 3
            &&& up[0] == EventView::PortConnected
            &&& up[1] matches EventView::ConnectionOpened { id, label: shown, to } && shown == label
                && to is None && up[2] == (EventView::ConnState { id, state: ConnState::Connected })
                && down[0] == (EventView::ConnState { id, state: ConnState::Disconnected })
                && down[1] == (EventView::ConnectionClosed { id })
            &&& down[2] == (EventView::PortDisconnected { reason: None })
        }),
{
}

/// A call over a socket is reported like any other: the station, its connection and
/// that it is being set up; one that failed is told of and ended; one that was accepted
/// is up, for the callsign that was called.
pub proof fn law_socket_calls_reported(
    id: ConnectionId,
    remote: Seq<char>,
    local: Seq<char>,
    reason: Seq<char>,
)
    ensures
        runner::opening(id, remote) == seq![
            EventView::StationHeard { callsign: remote },
            EventView::ConnectionOpened { id, label: remote, to: None },
            EventView::ConnState { id, state: ConnState::Connecting },
        ],
        runner::accepted(id, remote, local) == seq![
            EventView::StationHeard { callsign: remote },
            EventView::ConnectionOpened { id, label: remote, to: Some(local) },
            EventView::ConnState { id, state: ConnState::Connected },
        ],
        runner::failed(id, remote, reason).last() == (EventView::ConnectionClosed { id }),
        runner::failed(id, remote, reason)[0] matches EventView::Monitor { line, .. } && line
            == "connect to "@ + remote + " failed: "@ + reason,
        runner::ended(id).last() == (EventView::ConnectionClosed { id }),
        runner::ended(id)[0] == (EventView::ConnState { id, state: ConnState::Disconnected }),
{
}

/// An unconnected frame that is sent is shown as sent from this station to the one that
/// was named, by the path that was named, with its text. One with a bad name in it is
/// not sent, and the error is told.
pub proof fn law_unproto_shown(
    local: AddressView,
    dest: Seq<char>,
    path: Seq<Seq<char>>,
    text: Seq<char>,
)
    requires
        !text.contains('\0'),
    ensures
        ({
            let out = kiss_runner::unproto_output(local, dest, path, encode_utf8(text));
            let us = link::address_text(local);
            let good = kiss_monitor::address_in(us) is Ok && kiss_monitor::address_in(dest) is Ok
                && kiss_monitor::path_in(path) is Ok;
            &&& good ==> out.writes.len() == 1 && out.events.len() == 1
                && (out.events[0] matches EventView::Monitor { line, .. } && line == us + " > "@
                + dest + (if path.len() == 0 {
                Seq::empty()
            } else {
                " via "@ + crate::text::joined(path, seq![','])
            }) + " [unproto TX]: "@ + text)
            &&& !good ==> out.writes.len() == 0 && out.events.len() == 1
                && out.events[0] is PortError
        }),
{
    encode_utf8_valid_utf8(text);
    encode_utf8_decode_utf8(text);
    crate::text::lemma_without_none(text, '\0');
}

/// A request for extended mode is told of as one from that station to this one.
pub proof fn law_extended_mode_declined(
    m: ConnMapView,
    remote: AddressView,
    route: Seq<link::HopView>,
    local: AddressView,
    cfg: crate::arq::ArqConfig,
    now: u64,
)
    ensures
        ({
            let (after, out) = kiss_runner::internal_step(
                m,
                InternalView::RawSabme { remote, route },
                local,
                cfg,
                now,
            );
            &&& after == m
            &&& out.writes.len() == 1
            &&& out.events.len() == 1
            &&& out.events[0] matches EventView::Monitor { line, .. } && line == link::address_text(
                remote,
            ) + " > "@ + link::address_text(local)
                + " [SABME] declined (extended mode not supported)"@
        }),
{
}

} // verus!
