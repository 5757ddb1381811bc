//! Where the frames of a KISS port go: read back from the bytes written to the TNC,
//! each is from this station, to the station that was named, by the path that was
//! named or back by the path that a request came.

use vstd::prelude::*;

use crate::arq::{self, ActionView, ArqConfig, ArqView};
use crate::arq_laws;
use crate::kiss::{self, DecoderView};
use crate::kiss_monitor::{self, InternalView};
use crate::kiss_runner::{self, ConnMapView, Input, OutputView};
use crate::link::{self, AddressView, ContentView, FrameView, HopView};
use crate::port::{ConnState, ConnectionId, PortCommand};
use crate::text;
use crate::wire::{self};
use crate::xid;

verus! {

// ---------------------------------------------------------------------------
// What is heard of what was written
// ---------------------------------------------------------------------------

/// The one frame that a TNC takes from what was written to it.
pub open spec fn heard_bytes(write: Seq<u8>) -> Seq<u8> {
    DecoderView::start().frames(write)[0].1
}

/// Whether a TNC takes from what was written exactly one frame, of data, and that frame
/// goes from `from` to `to` by way of `hops`, none of which has repeated it yet.
pub open spec fn goes(
    write: Seq<u8>,
    from: AddressView,
    to: AddressView,
    hops: Seq<AddressView>,
) -> bool {
    let frames = DecoderView::start().frames(write);
    &&& frames.len() == 1
    &&& frames[0].0 % 16 == 0
    &&& wire::decoded_header(frames[0].1) matches Some(h) && {
        &&& h.source == from
        &&& h.destination == to
        &&& h.command_or_response is Some
        &&& h.route.len() == hops.len()
        &&& forall|i: int|
            0 <= i < hops.len() ==> (#[trigger] h.route[i]).repeater == hops[i]
                && !h.route[i].has_repeated
    }
}

pub open spec fn all_go(
    writes: Seq<Seq<u8>>,
    from: AddressView,
    to: AddressView,
    hops: Seq<AddressView>,
) -> bool {
    forall|i: int| 0 <= i < writes.len() ==> goes(#[trigger] writes[i], from, to, hops)
}

/// The bytes of a frame behind its addresses.
pub open spec fn heard_content(write: Seq<u8>) -> Seq<u8> {
    let bytes = heard_bytes(write);
    bytes.skip((wire::decoded_header(bytes)->0).control_offset)
}

/// Addresses that are read as they are written.
pub open spec fn all_settled(hops: Seq<AddressView>) -> bool {
    forall|i: int| 0 <= i < hops.len() ==> wire::settled_address(#[trigger] hops[i])
}

/// The stations of a path, the last one first.
pub open spec fn way_back(route: Seq<HopView>) -> Seq<AddressView> {
    Seq::new(route.len(), |i: int| route[route.len() - 1 - i].repeater)
}

/// A path by way of `hops`, to be repeated yet.
pub open spec fn unrepeated(route: Seq<HopView>, hops: Seq<AddressView>) -> bool {
    &&& route.len() == hops.len()
    &&& forall|i: int|
        0 <= i < hops.len() ==> (#[trigger] route[i]).repeater == hops[i] && !route[i].has_repeated
}

proof fn lemma_goes(f: FrameView, rest: Seq<u8>, hops: Seq<AddressView>)
    requires
        wire::settled_address(f.source),
        wire::settled_address(f.destination),
        all_settled(hops),
        unrepeated(f.route, hops),
        f.command_or_response is Some,
        rest.len() > 0,
    ensures
        goes(
            kiss_runner::on_air(link::address_header(f) + rest),
            f.source,
            f.destination,
            hops,
        ),
        heard_content(kiss_runner::on_air(link::address_header(f) + rest)) == rest,
{
    let bytes = link::address_header(f) + rest;
    kiss::law_data_round_trip(kiss_runner::KISS_PORT, bytes);
    assert forall|i: int| 0 <= i < f.route.len() implies wire::settled_address(
        #[trigger] f.route[i].repeater,
    ) by {
        assert(wire::settled_address(hops[i]));
        assert(f.route[i].repeater == hops[i]);
    }
    wire::law_header_round_trip(f, rest);
    assert(bytes.skip(link::address_header(f).len() as int) =~= rest);
}

proof fn lemma_frame_goes(f: FrameView, hops: Seq<AddressView>)
    requires
        wire::settled_address(f.source),
        wire::settled_address(f.destination),
        all_settled(hops),
        unrepeated(f.route, hops),
        f.command_or_response is Some,
        link::content_bytes(f.content).len() > 0,
    ensures
        OutputView::of_frame(f).writes.len() == 1,
        goes(OutputView::of_frame(f).writes[0], f.source, f.destination, hops),
        heard_content(OutputView::of_frame(f).writes[0]) == link::content_bytes(f.content),
{
    lemma_goes(f, link::content_bytes(f.content), hops);
}

proof fn lemma_actions_go(
    id: ConnectionId,
    s: ArqView,
    actions: Seq<ActionView>,
    hops: Seq<AddressView>,
)
    requires
        arq_laws::addressed(s, actions),
        wire::settled_address(s.local),
        wire::settled_address(s.remote),
        all_settled(hops),
        unrepeated(s.route, hops),
    ensures
        all_go(kiss_runner::actions_output(id, actions).writes, s.local, s.remote, hops),
    decreases actions.len(),
{
    if actions.len() > 0 {
        let less = actions.drop_last();
        assert forall|i: int| 0 <= i < less.len() implies less[i] == #[trigger] actions[i] by {}
        assert(arq_laws::addressed(s, less)) by {
            assert forall|i: int| 0 <= i < less.len() implies !((
            #[trigger] less[i]) is TransmitRaw) && (less[i] matches ActionView::Transmit(f) ==> {
                &&& f.source == s.local
                &&& f.destination == s.remote
                &&& f.route == s.route
                &&& f.command_or_response is Some
                &&& !(f.content is UnknownContent)
                &&& !(f.content is UnnumberedInformation)
            }) by {
                assert(less[i] == actions[i]);
            }
        }
        lemma_actions_go(id, s, less, hops);
        let n = actions.len() - 1;
        assert(actions[n] == actions.last());
        match actions.last() {
            ActionView::Transmit(f) => {
                lemma_frame_goes(f, hops);
            },
            _ => {},
        }
    }
}

// ---------------------------------------------------------------------------
// Sessions
// ---------------------------------------------------------------------------

/// What happens to session `id`, one thing after another, each at its time.
pub open spec fn run(m: ConnMapView, id: ConnectionId, inputs: Seq<(Input<'_>, u64)>) -> (
    ConnMapView,
    OutputView,
)
    decreases inputs.len(),
{
    if inputs.len() == 0 {
        (m, OutputView::none())
    } else {
        let (before, out) = run(m, id, inputs.drop_last());
        let (after, more) = kiss_runner::session_step(
            before,
            id,
            inputs.last().0,
            inputs.last().1,
        );
        (after, out.plus(more))
    }
}

proof fn lemma_run_goes(
    m: ConnMapView,
    cfg: ArqConfig,
    id: ConnectionId,
    local: AddressView,
    remote: AddressView,
    hops: Seq<AddressView>,
    inputs: Seq<(Input<'_>, u64)>,
)
    requires
        m.wf(cfg),
        m.has(id),
        m.session(id).local == local,
        m.session(id).remote == remote,
        unrepeated(m.session(id).route, hops),
        wire::settled_address(local),
        wire::settled_address(remote),
        all_settled(hops),
    ensures
        all_go(run(m, id, inputs).1.writes, local, remote, hops),
        run(m, id, inputs).0.wf(cfg),
        run(m, id, inputs).0.has(id) ==> {
            let s = run(m, id, inputs).0.session(id);
            s.local == local && s.remote == remote && unrepeated(s.route, hops)
        },
    decreases inputs.len(),
{
    if inputs.len() > 0 {
        let less = inputs.drop_last();
        lemma_run_goes(m, cfg, id, local, remote, hops, less);
        let (before, out) = run(m, id, less);
        let (input, now) = inputs.last();
        if before.has(id) {
            let s = before.session(id);
            let (t, actions) = kiss_runner::input_step(s, input, now);
            kiss_runner::lemma_session_index(before.sessions, id);
            let content = match input {
                Input::Frame(f) => link::content_view(f.content),
                _ => ContentView::Disconnect { poll: false },
            };
            let bytes = match input {
                Input::Bytes(b) => b@,
                _ => Seq::empty(),
            };
            arq_laws::law_frames_addressed(s, false, bytes, content, now);
            arq::law_invariant_kept(s, false, bytes, content, now);
            assert(arq_laws::addressed(s, actions));
            assert(arq_laws::same_ends(s, t));
            lemma_actions_go(id, s, actions, hops);
            kiss_runner::lemma_stepped_wf(before, cfg, id, t);
        }
    }
}

/// A connection that the user opens goes to the station that was named by the path that
/// was named, all its life: the first thing written is one SABM, and it and every frame
/// that is written later, whatever happens, goes from this station to that one by way
/// of exactly those digipeaters, in their order.
pub proof fn law_opened_goes_by_path(
    m: ConnMapView,
    cfg: ArqConfig,
    command: PortCommand,
    local: AddressView,
    to: AddressView,
    hops: Seq<AddressView>,
    now: u64,
    inputs: Seq<(Input<'_>, u64)>,
)
    requires
        m.wf(cfg),
        m.next_id < u64::MAX,
        wire::settled_address(local),
        wire::settled_address(to),
        all_settled(hops),
        command matches PortCommand::OpenConnection { remote, via } && {
            &&& remote@ == link::address_text(to)
            &&& via@.len() == hops.len()
            &&& forall|i: int|
                0 <= i < hops.len() ==> (#[trigger] via@[i])@ == link::address_text(hops[i])
        },
    ensures
        ({
            let (opened, out) = kiss_runner::command_step(m, command, local, cfg, now);
            &&& out.writes.len() == 1
            &&& goes(out.writes[0], local, to, hops)
            &&& heard_content(out.writes[0]) == seq![0x3Fu8]
            &&& opened.has(m.next_id)
            &&& all_go(run(opened, m.next_id, inputs).1.writes, local, to, hops)
        }),
{
    match command {
        PortCommand::OpenConnection { remote, via } => {
            let names = text::texts(via@);
            kiss_monitor::law_address_read_back(to);
            assert forall|i: int| 0 <= i < names.len() implies kiss_monitor::address_in(
                #[trigger] names[i],
            ) == Ok::<AddressView, Seq<char>>(hops[i]) by {
                assert(names[i] == via@[i]@);
                kiss_monitor::law_address_read_back(hops[i]);
            }
            kiss_monitor::law_path_read(names);
            let route = kiss_monitor::path_in(names)->Ok_0;
            assert forall|i: int| 0 <= i < hops.len() implies (#[trigger] route[i]).repeater
                == hops[i] && !route[i].has_repeated by {
                assert(kiss_monitor::address_in(names[i]) is Ok);
            }
            let fresh = ArqView::fresh(local, to, route, cfg);
            let (s, actions) = fresh.opened(now);
            let nothing = ContentView::Disconnect { poll: false };
            arq_laws::law_frames_addressed(fresh, false, Seq::empty(), nothing, now);
            arq::law_invariant_kept(fresh, false, Seq::empty(), nothing, now);
            kiss_runner::law_callsign_finds_session(m, cfg, remote@, s);
            kiss_runner::lemma_inserted_wf(m, cfg, remote@, s);
            let (opened, out) = kiss_runner::command_step(m, command, local, cfg, now);
            lemma_run_goes(opened, cfg, m.next_id, local, to, hops, inputs);
            lemma_two_actions(m.next_id, actions[0], actions[1]);
            assert(actions =~= seq![actions[0], actions[1]]);
            let f = actions[0]->Transmit_0;
            lemma_frame_goes(f, hops);
            assert(link::content_bytes(f.content) =~= seq![0x3Fu8]) by {
                assert(0x2Fu8 | 0x10u8 == 0x3Fu8) by (bit_vector);
            }
            assert(out.writes =~= OutputView::of_frame(f).writes);
        },
        _ => {},
    }
}

proof fn lemma_two_actions(id: ConnectionId, a: ActionView, b: ActionView)
    ensures
        kiss_runner::actions_output(id, seq![a, b]) == kiss_runner::action_output(id, a).plus(
            kiss_runner::action_output(id, b),
        ),
{
    let two = seq![a, b];
    assert(two.drop_last() =~= seq![a]);
    assert(seq![a].drop_last() =~= Seq::<ActionView>::empty());
    reveal_with_fuel(kiss_runner::actions_output, 3);
    assert(kiss_runner::actions_output(id, two) =~= kiss_runner::action_output(id, a).plus(
        kiss_runner::action_output(id, b),
    ));
}

/// A connection that a station asks for is answered by the way that the request came:
/// the answer is one UA, and it and every frame that is written later, whatever
/// happens, goes from this station to that one by way of the digipeaters of the
/// request, in reverse order.
pub proof fn law_accepted_goes_back(
    m: ConnMapView,
    cfg: ArqConfig,
    f: FrameView,
    local: AddressView,
    now: u64,
    inputs: Seq<(Input<'_>, u64)>,
)
    requires
        m.wf(cfg),
        m.next_id < u64::MAX,
        wire::settled_address(local),
        wire::settled_address(f.source),
        all_settled(way_back(f.route)),
        f.content is SetAsynchronousBalancedMode,
        m.id_for_call(link::address_text(f.source)) is None,
    ensures
        ({
            let (opened, out) = kiss_runner::internal_step(
                m,
                InternalView::Frame(f),
                local,
                cfg,
                now,
            );
            let back = way_back(f.route);
            &&& out.writes.len() == 1
            &&& goes(out.writes[0], local, f.source, back)
            &&& heard_content(out.writes[0]) == seq![
                (if f.content->SetAsynchronousBalancedMode_poll {
                    0x73u8
                } else {
                    0x63u8
                }),
            ]
            &&& opened.has(m.next_id)
            &&& opened.session(m.next_id).state == ConnState::Connected
            &&& all_go(run(opened, m.next_id, inputs).1.writes, local, f.source, back)
        }),
{
    let back = way_back(f.route);
    let route = wire::reversed_route(f.route);
    let poll = f.content->SetAsynchronousBalancedMode_poll;
    let fresh = ArqView::fresh(local, f.source, route, cfg);
    let (s, actions) = fresh.accepted(poll);
    let nothing = ContentView::Disconnect { poll: false };
    let call = link::address_text(f.source);
    arq_laws::law_frames_addressed(fresh, poll, Seq::empty(), nothing, now);
    arq::law_invariant_kept(fresh, poll, Seq::empty(), nothing, now);
    kiss_runner::law_callsign_finds_session(m, cfg, call, s);
    kiss_runner::lemma_inserted_wf(m, cfg, call, s);
    let (opened, out) = kiss_runner::internal_step(m, InternalView::Frame(f), local, cfg, now);
    lemma_run_goes(opened, cfg, m.next_id, local, f.source, back, inputs);
    lemma_two_actions(m.next_id, actions[0], actions[1]);
    assert(actions =~= seq![actions[0], actions[1]]);
    let ua = actions[0]->Transmit_0;
    lemma_frame_goes(ua, back);
    assert(0x63u8 | 0x10u8 == 0x73u8 && 0x63u8 | 0u8 == 0x63u8) by (bit_vector);
    assert(out.writes =~= OutputView::of_frame(ua).writes);
}

// ---------------------------------------------------------------------------
// Frames without a session
// ---------------------------------------------------------------------------

/// What is refused or negotiated without a session is answered by the way that it came:
/// a connect request in extended mode and a disconnect of a station that is not
/// connected get one DM, and parameter negotiation gets one DM or one XID.
pub proof fn law_answers_go_back(
    m: ConnMapView,
    cfg: ArqConfig,
    ev: InternalView,
    from: AddressView,
    route: Seq<HopView>,
    local: AddressView,
    now: u64,
)
    requires
        wire::settled_address(local),
        wire::settled_address(from),
        all_settled(way_back(route)),
        match ev {
            InternalView::RawSabme { remote, route: r } => remote == from && r == route,
            InternalView::RawXid { remote, route: r, .. } => remote == from && r == route,
            InternalView::Frame(f) => f.source == from && f.route == route && f.content is Disconnect
                && m.id_for_call(link::address_text(from)) is None,
            InternalView::Disconnected => false,
        },
    ensures
        ({
            let (after, out) = kiss_runner::internal_step(m, ev, local, cfg, now);
            &&& after == m
            &&& out.writes.len() == 1
            &&& goes(out.writes[0], local, from, way_back(route))
            &&& heard_content(out.writes[0])[0] == (if ev matches InternalView::RawXid {
                payload,
                ..
            } && xid::decoded(payload) matches Ok(p) && !p.requests_extended {
                0xBFu8
            } else {
                0x1Fu8
            })
        }),
{
    let dm = wire::dm_view(local, from, wire::reversed_route(route), true);
    let back = way_back(route);
    lemma_frame_goes(dm, back);
    assert(0x0Fu8 | 0x10u8 == 0x1Fu8) by (bit_vector);
    let rest = seq![0xBFu8] + xid::encoded(xid::offered(cfg));
    lemma_goes(dm, rest, back);
    assert(xid::reply_bytes(local, from, route, cfg) =~= link::address_header(dm) + rest);
}

/// An unconnected frame goes from this station to the one that was named by the path
/// that was named, and carries exactly the bytes that were given, as unnumbered
/// information without a protocol.
pub proof fn law_unproto_goes_by_path(
    m: ConnMapView,
    cfg: ArqConfig,
    command: PortCommand,
    local: AddressView,
    to: AddressView,
    hops: Seq<AddressView>,
    now: u64,
)
    requires
        wire::settled_address(local),
        wire::settled_address(to),
        all_settled(hops),
        command matches PortCommand::SendUnproto { dest, via, .. } && {
            &&& dest@ == link::address_text(to)
            &&& via@.len() == hops.len()
            &&& forall|i: int|
                0 <= i < hops.len() ==> (#[trigger] via@[i])@ == link::address_text(hops[i])
        },
    ensures
        ({
            let (after, out) = kiss_runner::command_step(m, command, local, cfg, now);
            &&& after == m
            &&& out.writes.len() == 1
            &&& goes(out.writes[0], local, to, hops)
            &&& heard_content(out.writes[0]) == seq![0x03u8, 0xF0u8]
                + command->SendUnproto_bytes@
        }),
{
    match command {
        PortCommand::SendUnproto { dest, via, bytes } => {
            let names = text::texts(via@);
            kiss_monitor::law_address_read_back(local);
            kiss_monitor::law_address_read_back(to);
            assert forall|i: int| 0 <= i < names.len() implies kiss_monitor::address_in(
                #[trigger] names[i],
            ) == Ok::<AddressView, Seq<char>>(hops[i]) by {
                assert(names[i] == via@[i]@);
                kiss_monitor::law_address_read_back(hops[i]);
            }
            kiss_monitor::law_path_read(names);
            let route = kiss_monitor::path_in(names)->Ok_0;
            assert forall|i: int| 0 <= i < hops.len() implies (#[trigger] route[i]).repeater
                == hops[i] && !route[i].has_repeated by {
                assert(kiss_monitor::address_in(names[i]) is Ok);
            }
            let f = kiss_monitor::ui_view(local, to, route, bytes@);
            lemma_frame_goes(f, hops);
            assert(0x03u8 | 0u8 == 0x03u8) by (bit_vector);
        },
        _ => {},
    }
}

} // verus!
