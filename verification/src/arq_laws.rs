//! What holds of connected-mode sessions over several steps.

use ax25::frame::{CommandResponse, FrameReject, ProtocolIdentifier};
use vstd::prelude::*;

use crate::arq::{self, ActionView, ArqView, Step};
use crate::link::ContentView;
use crate::port::ConnState;

verus! {

// ---------------------------------------------------------------------------
// Fragments
// ---------------------------------------------------------------------------

/// Fragments put together again are the bytes they were cut from, none is empty
/// and none is longer than `n`.
pub proof fn law_fragments(bytes: Seq<u8>, n: int)
    requires
        n > 0,
    ensures
        arq::fragments(bytes, n).flatten() == bytes,
        forall|i: int|
            0 <= i < arq::fragments(bytes, n).len() ==> 0 < (#[trigger] arq::fragments(
                bytes,
                n,
            )[i]).len() <= n,
    decreases bytes.len(),
{
    let all = arq::fragments(bytes, n);
    if bytes.len() == 0 {
        assert(all.flatten() =~= bytes);
    } else if bytes.len() <= n {
        assert(all.drop_first() =~= Seq::<Seq<u8>>::empty());
        assert(Seq::<Seq<u8>>::empty().flatten() =~= Seq::<u8>::empty());
        assert(all.flatten() =~= bytes);
    } else {
        law_fragments(bytes.skip(n), n);
        assert(all.drop_first() =~= arq::fragments(bytes.skip(n), n));
        assert(bytes.take(n) + bytes.skip(n) =~= bytes);
        assert forall|i: int| 0 <= i < all.len() implies 0 < (#[trigger] all[i]).len() <= n by {
            if i > 0 {
                assert(all[i] == arq::fragments(bytes.skip(n), n)[i - 1]);
            }
        }
    }
}

// ---------------------------------------------------------------------------
// Delivery
// ---------------------------------------------------------------------------

/// The payloads among `actions`, in order.
pub open spec fn delivered(actions: Seq<ActionView>) -> Seq<Seq<u8>>
    decreases actions.len(),
{
    if actions.len() == 0 {
        Seq::empty()
    } else {
        match actions.last() {
            ActionView::Data(info) => delivered(actions.drop_last()).push(info),
            _ => delivered(actions.drop_last()),
        }
    }
}

pub open spec fn no_data(actions: Seq<ActionView>) -> bool {
    forall|i: int| 0 <= i < actions.len() ==> !((#[trigger] actions[i]) is Data)
}

proof fn lemma_delivered_none(actions: Seq<ActionView>)
    requires
        no_data(actions),
    ensures
        delivered(actions) == Seq::<Seq<u8>>::empty(),
    decreases actions.len(),
{
    if actions.len() > 0 {
        assert(!(actions[actions.len() - 1] is Data));
        assert forall|i: int| 0 <= i < actions.drop_last().len() implies !(
        (#[trigger] actions.drop_last()[i]) is Data) by {
            assert(actions.drop_last()[i] == actions[i]);
        }
        lemma_delivered_none(actions.drop_last());
    }
}

proof fn lemma_delivered_concat(a: Seq<ActionView>, b: Seq<ActionView>)
    ensures
        delivered(a + b) == delivered(a) + delivered(b),
    decreases b.len(),
{
    if b.len() == 0 {
        assert(a + b =~= a);
        assert(delivered(a) + delivered(b) =~= delivered(a));
    } else {
        lemma_delivered_concat(a, b.drop_last());
        assert((a + b).drop_last() =~= a + b.drop_last());
        match b.last() {
            ActionView::Data(info) => {
                assert((delivered(a) + delivered(b.drop_last())).push(info) =~= delivered(a)
                    + delivered(b.drop_last()).push(info));
            },
            _ => {},
        }
    }
}

/// Frames received one after another, and every action they led to.
pub open spec fn run(s: ArqView, contents: Seq<ContentView>, now: u64) -> Step
    decreases contents.len(),
{
    if contents.len() == 0 {
        (s, Seq::empty())
    } else {
        let (t, before) = run(s, contents.drop_last(), now);
        let (u, more) = t.received(contents.last(), now);
        (u, before + more)
    }
}

/// An information frame that carries `info` under number `seq`.
pub open spec fn carries(c: ContentView, seq: u8, info: Seq<u8>) -> bool {
    c matches ContentView::Information { info: i, send_sequence, .. } && i == info && send_sequence
        == seq
}

/// What a peer sends in sequence is delivered, whole, once and in order, and the
/// session then expects the number behind the last.
pub proof fn law_delivery_in_order(s: ArqView, contents: Seq<ContentView>, infos: Seq<Seq<u8>>, now: u64)
    requires
        s.wf(),
        s.state == ConnState::Connected,
        contents.len() == infos.len(),
        forall|i: int|
            0 <= i < contents.len() ==> carries(
                #[trigger] contents[i],
                arq::seq_after(s.vr, i),
                infos[i],
            ),
    ensures
        delivered(run(s, contents, now).1) == infos,
        run(s, contents, now).0.vr == arq::seq_after(s.vr, contents.len() as int),
        run(s, contents, now).0.state == ConnState::Connected,
        run(s, contents, now).0.wf(),
    decreases contents.len(),
{
    let n = contents.len() as int;
    if n == 0 {
        assert(delivered(run(s, contents, now).1) =~= infos);
    } else {
        assert forall|i: int| 0 <= i < n - 1 implies carries(
            #[trigger] contents.drop_last()[i],
            arq::seq_after(s.vr, i),
            infos.drop_last()[i],
        ) by {
            assert(carries(contents[i], arq::seq_after(s.vr, i), infos[i]));
        }
        law_delivery_in_order(s, contents.drop_last(), infos.drop_last(), now);
        let (t, before) = run(s, contents.drop_last(), now);
        assert(carries(contents[n - 1], arq::seq_after(s.vr, n - 1), infos[n - 1]));
        arq::law_invariant_kept(t, false, Seq::empty(), contents.last(), now);
        lemma_in_sequence(t, contents.last(), infos.last(), now);
        arq::lemma_seq_after(s.vr, n - 1, 1);
        lemma_delivered_concat(before, t.received(contents.last(), now).1);
        assert(infos =~= infos.drop_last() + seq![infos.last()]);
    }
}

proof fn lemma_in_sequence(t: ArqView, c: ContentView, info: Seq<u8>, now: u64)
    requires
        t.state == ConnState::Connected,
        carries(c, t.vr, info),
    ensures
        t.received(c, now).0.vr == arq::seq_after(t.vr, 1),
        t.received(c, now).0.state == ConnState::Connected,
        delivered(t.received(c, now).1) == seq![info],
{
    match c {
        ContentView::Information { receive_sequence, .. } => {
            let (next, frames) = t.advanced(receive_sequence, now);
            assert(no_data(frames));
            lemma_delivered_none(frames);
            let read = ArqView { vr: arq::seq_after(t.vr, 1), ..next };
            let one = frames.push(ActionView::Data(info));
            assert(one.drop_last() =~= frames);
            let two = one.push(read.rr(false));
            assert(two.drop_last() =~= one);
            assert(delivered(one) =~= seq![info]);
        },
        _ => {},
    }
}

/// Nothing is ever delivered by a session that is not connected, nor by anything
/// but an information frame under the expected number.
pub proof fn law_delivery_needs_connection(s: ArqView, content: ContentView, now: u64)
    requires
        s.state != ConnState::Connected || !(content matches ContentView::Information {
            send_sequence,
            ..
        } && send_sequence == s.vr),
    ensures
        no_data(s.received(content, now).1),
        no_data(s.ticked(now).1),
{
}

// ---------------------------------------------------------------------------
// Acknowledgement
// ---------------------------------------------------------------------------

/// An acknowledgement that names an outstanding frame leaves that frame and those
/// behind it; one that names the next number to send leaves none.
pub proof fn law_acknowledgement(s: ArqView, j: int, now: u64)
    requires
        s.wf(),
        s.cfg.window <= 7,
        0 <= j <= s.outstanding.len(),
    ensures
        ({
            let nr = if j < s.outstanding.len() {
                s.outstanding[j].seq
            } else {
                s.vs
            };
            s.acknowledged(nr, now).outstanding == s.outstanding.skip(j)
        }),
{
    let nr = if j < s.outstanding.len() {
        s.outstanding[j].seq
    } else {
        s.vs
    };
    let n = s.outstanding.len() as int;
    assert forall|i: int| 0 <= i < j implies (#[trigger] s.outstanding[i]).seq != nr by {
        let q = s.outstanding[i].seq;
        assert(arq::seq_after(q, n - i) == s.vs);
        if j < n {
            assert(arq::seq_after(s.outstanding[j].seq, n - j) == s.vs);
        }
    }
    arq::lemma_ack_index(s.outstanding, nr, j);
}

// ---------------------------------------------------------------------------
// Reports
// ---------------------------------------------------------------------------

/// `actions` tell of a change of state from `before` to `after` as they should: by one
/// report of the new state where the two differ and by none where they do not, and by
/// one `Closed` right behind that report where the link went down, and else by none.
pub open spec fn told(before: ConnState, actions: Seq<ActionView>, after: ConnState) -> bool {
    let down = before != ConnState::Disconnected && after == ConnState::Disconnected;
    &&& before != after <==> exists|i: int|
        0 <= i < actions.len() && (#[trigger] actions[i]) == ActionView::StateChanged(after)
    &&& forall|i: int|
        0 <= i < actions.len() && (#[trigger] actions[i]) is StateChanged ==> actions[i]
            == ActionView::StateChanged(after) && before != after
    &&& forall|i: int, j: int|
        0 <= i < j < actions.len() ==> !((#[trigger] actions[i]) is StateChanged && (
        #[trigger] actions[j]) is StateChanged)
    &&& down <==> actions.contains(ActionView::Closed)
    &&& forall|i: int|
        0 <= i < actions.len() && (#[trigger] actions[i]) is Closed ==> i > 0 && actions[i - 1]
            == ActionView::StateChanged(ConnState::Disconnected)
    &&& forall|i: int, j: int|
        0 <= i < j < actions.len() ==> !((#[trigger] actions[i]) is Closed && (
        #[trigger] actions[j]) is Closed)
}

/// Neither a report of a state nor a `Closed`.
pub open spec fn untold(actions: Seq<ActionView>) -> bool {
    forall|i: int|
        0 <= i < actions.len() ==> !((#[trigger] actions[i]) is StateChanged) && !(
        actions[i] is Closed)
}

proof fn lemma_untold(state: ConnState, actions: Seq<ActionView>)
    requires
        untold(actions),
    ensures
        told(state, actions, state),
{
    if actions.contains(ActionView::Closed) {
        let i = choose|i: int| 0 <= i < actions.len() && actions[i] == ActionView::Closed;
        assert(!(actions[i] is Closed));
    }
}

proof fn lemma_told_down(s: ArqView, first: Seq<ActionView>)
    requires
        untold(first),
    ensures
        told(s.state, s.closing(first), ConnState::Disconnected),
{
    if s.state == ConnState::Disconnected {
        lemma_untold(s.state, first);
    } else {
        let all = s.closing(first);
        let n = first.len() as int;
        assert(all[n] == ActionView::StateChanged(ConnState::Disconnected));
        assert(all[n + 1] == ActionView::Closed);
        assert(all.contains(ActionView::Closed));
        assert forall|i: int| 0 <= i < n implies !((#[trigger] all[i]) is StateChanged) && !(
        all[i] is Closed) by {
            assert(all[i] == first[i]);
        }
    }
}

/// Every change of state is reported, once and by the state that it led to, and
/// nothing else is: whatever is received, and whenever the clock is looked at. A link
/// that goes down is reported as closed, right behind its new state, and no other is.
/// A SABM on a link that is up starts it anew with neither report. Closing once more
/// and accepting once more repeat the report of the state that the link has.
pub proof fn law_changes_reported(s: ArqView, poll: bool, content: ContentView, now: u64)
    ensures
        told(s.state, s.received(content, now).1, s.received(content, now).0.state),
        told(s.state, s.ticked(now).1, s.ticked(now).0.state),
        told(s.state, s.opened(now).1, s.opened(now).0.state),
        s.state != ConnState::Disconnecting ==> told(
            s.state,
            s.closed(now).1,
            s.closed(now).0.state,
        ),
        s.state != ConnState::Connected ==> told(
            s.state,
            s.accepted(poll).1,
            s.accepted(poll).0.state,
        ),
{
    let opens = s.opened(now);
    if s.state == ConnState::Disconnected {
        assert(opens.1[1] == ActionView::StateChanged(ConnState::Connecting));
    }
    let up = s.accepted(poll);
    assert(up.1[1] == ActionView::StateChanged(ConnState::Connected));
    let closes = s.closed(now);
    if closes.0.state != s.state {
        assert(closes.1[1] == ActionView::StateChanged(ConnState::Disconnecting));
    }
    lemma_received_told(s, content, now);
    let ticks = s.ticked(now);
    if ticks.0.state == ConnState::Disconnected && s.state != ConnState::Disconnected {
        lemma_told_down(s, seq![ActionView::Monitor(s.give_up_reason())]);
    } else {
        assert(untold(ticks.1));
        lemma_untold(s.state, ticks.1);
    }
}

proof fn lemma_received_told(s: ArqView, content: ContentView, now: u64)
    ensures
        told(s.state, s.received(content, now).1, s.received(content, now).0.state),
{
    let (t, actions) = s.received(content, now);
    match content {
        ContentView::SetAsynchronousBalancedMode { .. } => {
            if s.state == ConnState::Connected {
                assert(untold(actions));
                lemma_untold(s.state, actions);
            } else {
                assert(actions[1] == ActionView::StateChanged(ConnState::Connected));
            }
        },
        ContentView::Disconnect { poll } => {
            lemma_told_down(s, seq![s.ua(poll)]);
        },
        ContentView::DisconnectedMode { .. } => {
            if s.state == ConnState::Disconnected {
                lemma_untold(s.state, actions);
            } else {
                lemma_told_down(
                    s,
                    seq![
                        ActionView::Monitor(s.remote_text() + " refused or reset the link (DM)"@),
                    ],
                );
            }
        },
        ContentView::FrameReject(_) => {
            if s.state == ConnState::Disconnected {
                lemma_untold(s.state, actions);
            } else {
                lemma_told_down(
                    s,
                    seq![
                        ActionView::Monitor(
                            s.remote_text() + " reported a protocol error (FRMR), disconnecting"@,
                        ),
                    ],
                );
            }
        },
        ContentView::UnnumberedAcknowledge { .. } => {
            if s.state == ConnState::Connecting {
                assert(actions[0] == ActionView::StateChanged(ConnState::Connected));
                assert forall|i: int| 0 < i < actions.len() implies (
                #[trigger] actions[i]) is Transmit by {}
            } else if s.state == ConnState::Disconnecting {
                assert(actions[0] == ActionView::StateChanged(ConnState::Disconnected));
                assert(actions[1] == ActionView::Closed);
                assert(actions.contains(ActionView::Closed));
            } else {
                lemma_untold(s.state, actions);
            }
        },
        _ => {
            assert(untold(actions));
            lemma_untold(s.state, actions);
        },
    }
}

/// What the information frame `c` leads to on a link that is up. Under the expected
/// number it is delivered, by exactly one action, and right behind that acknowledged by
/// an RR that asks for the next number. Under any other it is not delivered, and a REJ
/// asks again for the expected one. Either way the link stays up, with no report of its
/// state.
pub open spec fn information_taken(
    s: ArqView,
    c: ContentView,
    t: ArqView,
    actions: Seq<ActionView>,
) -> bool {
    let n = actions.len() as int;
    let info = c->Information_info;
    &&& untold(actions)
    &&& t.state == ConnState::Connected
    &&& c->send_sequence == s.vr ==> {
        &&& n >= 2
        &&& actions[n - 2] == ActionView::Data(info)
        &&& delivered(actions) == seq![info]
        &&& t.vr == (s.vr + 1) % 8
        &&& actions[n - 1] == ActionView::Transmit(
            s.frame(
                CommandResponse::Response,
                ContentView::ReceiveReady { receive_sequence: t.vr, poll_or_final: false },
            ),
        )
    }
    &&& c->send_sequence != s.vr ==> {
        &&& n >= 1
        &&& no_data(actions)
        &&& t.vr == s.vr
        &&& actions[n - 1] == ActionView::Transmit(
            s.frame(
                CommandResponse::Response,
                ContentView::Reject { receive_sequence: s.vr, poll_or_final: false },
            ),
        )
    }
}

/// An information frame on a link that is up is delivered and acknowledged, or else
/// asked for again.
pub proof fn law_information_frame(s: ArqView, c: ContentView, now: u64)
    requires
        s.state == ConnState::Connected,
        c is Information,
    ensures
        information_taken(s, c, s.received(c, now).0, s.received(c, now).1),
{
    let (t, actions) = s.received(c, now);
    assert(untold(actions));
    if c->send_sequence == s.vr {
        lemma_in_sequence(s, c, c->Information_info, now);
    }
}

/// The number expected next is that of the frames delivered since the link was set up
/// or reset, modulo 8: each frame delivered takes it one further, a SABM, an opening
/// and an acceptance set it to 0, and nothing else changes it or delivers anything.
pub proof fn law_expected_number(
    s: ArqView,
    poll: bool,
    bytes: Seq<u8>,
    content: ContentView,
    now: u64,
)
    requires
        s.wf(),
    ensures
        ({
            let (t, actions) = s.received(content, now);
            if content is SetAsynchronousBalancedMode {
                t.vr == 0 && no_data(actions)
            } else {
                t.vr == (s.vr + delivered(actions).len()) % 8
            }
        }),
        s.accepted(poll).0.vr == 0 && no_data(s.accepted(poll).1),
        s.state == ConnState::Disconnected ==> s.opened(now).0.vr == 0,
        s.state != ConnState::Disconnected ==> s.opened(now).0 == s,
        no_data(s.opened(now).1),
        s.ticked(now).0.vr == s.vr && no_data(s.ticked(now).1),
        s.submitted(bytes, now).0.vr == s.vr && no_data(s.submitted(bytes, now).1),
        s.closed(now).0.vr == s.vr && no_data(s.closed(now).1),
{
    let (t, actions) = s.received(content, now);
    if s.state == ConnState::Connected && content is Information && content->send_sequence == s.vr {
        lemma_in_sequence(s, content, content->Information_info, now);
    } else {
        law_delivery_needs_connection(s, content, now);
        lemma_delivered_none(actions);
    }
}

// ---------------------------------------------------------------------------
// Addresses
// ---------------------------------------------------------------------------

/// Every frame among `actions` goes from `s.local` to `s.remote` by the path of the
/// session, and is one that a peer can read.
pub open spec fn addressed(s: ArqView, actions: Seq<ActionView>) -> bool {
    forall|i: int|
        0 <= i < actions.len() ==> !((#[trigger] actions[i]) is TransmitRaw) && (
        actions[i] matches ActionView::Transmit(f) ==> {
            &&& f.source == s.local
            &&& f.destination == s.remote
            &&& f.route == s.route
            &&& f.command_or_response is Some
            &&& !(f.content is UnknownContent)
            &&& !(f.content is UnnumberedInformation)
        })
}

/// The same two stations and the same path.
pub open spec fn same_ends(s: ArqView, t: ArqView) -> bool {
    t.local == s.local && t.remote == s.remote && t.route == s.route && t.cfg == s.cfg
}

/// Whatever happens to a session, each frame it sends goes to its peer by its path,
/// and neither ever changes.
pub proof fn law_frames_addressed(
    s: ArqView,
    poll: bool,
    bytes: Seq<u8>,
    content: ContentView,
    now: u64,
)
    ensures
        addressed(s, s.opened(now).1) && same_ends(s, s.opened(now).0),
        addressed(s, s.accepted(poll).1) && same_ends(s, s.accepted(poll).0),
        addressed(s, s.closed(now).1) && same_ends(s, s.closed(now).0),
        addressed(s, s.submitted(bytes, now).1) && same_ends(s, s.submitted(bytes, now).0),
        addressed(s, s.received(content, now).1) && same_ends(s, s.received(content, now).0),
        addressed(s, s.ticked(now).1) && same_ends(s, s.ticked(now).0),
{
}

// ---------------------------------------------------------------------------
// Giving up
// ---------------------------------------------------------------------------

/// Looks at the clock one after another.
pub open spec fn run_ticks(s: ArqView, times: Seq<u64>) -> Step
    decreases times.len(),
{
    if times.len() == 0 {
        (s, Seq::empty())
    } else {
        let (t, before) = run_ticks(s, times.drop_last());
        let (u, more) = t.ticked(times.last());
        (u, before + more)
    }
}

/// Each look comes when T1 has run out since the look before.
pub open spec fn expiring(s: ArqView, times: Seq<u64>) -> bool {
    &&& s.t1_deadline is Some
    &&& times.len() > 0 ==> times[0] >= s.t1_deadline->0
    &&& forall|i: int|
        0 < i < times.len() ==> (#[trigger] times[i]) >= times[i - 1] + s.cfg.t1_ms
    &&& forall|i: int| 0 <= i < times.len() ==> (#[trigger] times[i]) + s.cfg.t1_ms <= u64::MAX
}

/// An opening or a closing that is never answered is repeated exactly N2 times,
/// and at the next expiry of T1 the session is down.
pub proof fn law_gives_up_after_n2(s: ArqView, times: Seq<u64>)
    requires
        s.wf(),
        s.state == ConnState::Connecting || s.state == ConnState::Disconnecting,
        s.retry_count == 0,
        expiring(s, times),
        times.len() <= s.cfg.n2 + 1,
    ensures
        times.len() <= s.cfg.n2 ==> run_ticks(s, times).0.state == s.state && run_ticks(s, times).1
            == Seq::new(
            times.len(),
            |i: int|
                if s.state == ConnState::Connecting {
                    s.sabm()
                } else {
                    s.disc()
                },
        ),
        times.len() == s.cfg.n2 + 1 ==> run_ticks(s, times).0.state == ConnState::Disconnected,
{
    lemma_retries(s, times);
}

proof fn lemma_retries(s: ArqView, times: Seq<u64>)
    requires
        s.wf(),
        s.state == ConnState::Connecting || s.state == ConnState::Disconnecting,
        s.retry_count == 0,
        expiring(s, times),
        times.len() <= s.cfg.n2 + 1,
    ensures
        times.len() <= s.cfg.n2 ==> run_ticks(s, times).0 == (ArqView {
            retry_count: times.len() as u32,
            t1_deadline: if times.len() == 0 {
                s.t1_deadline
            } else {
                s.deadline(times.last())
            },
            ..s
        }),
        times.len() <= s.cfg.n2 ==> run_ticks(s, times).1 == Seq::new(
            times.len(),
            |i: int|
                if s.state == ConnState::Connecting {
                    s.sabm()
                } else {
                    s.disc()
                },
        ),
        times.len() == s.cfg.n2 + 1 ==> run_ticks(s, times).0.state == ConnState::Disconnected,
    decreases times.len(),
{
    let n = times.len() as int;
    if n == 0 {
        assert(run_ticks(s, times).1 =~= Seq::new(
            0,
            |i: int|
                if s.state == ConnState::Connecting {
                    s.sabm()
                } else {
                    s.disc()
                },
        ));
    } else {
        let earlier = times.drop_last();
        assert forall|i: int| 0 < i < earlier.len() implies (#[trigger] earlier[i]) >= earlier[i
            - 1] + s.cfg.t1_ms by {
            assert(times[i] >= times[i - 1] + s.cfg.t1_ms);
        }
        assert forall|i: int| 0 <= i < earlier.len() implies (#[trigger] earlier[i]) + s.cfg.t1_ms
            <= u64::MAX by {
            assert(times[i] + s.cfg.t1_ms <= u64::MAX);
        }
        lemma_retries(s, earlier);
        let (t, before) = run_ticks(s, earlier);
        assert(t.t1_deadline is Some);
        assert(times.last() >= t.t1_deadline->0) by {
            if n > 1 {
                assert(times[n - 1] >= times[n - 2] + s.cfg.t1_ms);
                assert(times[n - 2] + s.cfg.t1_ms <= u64::MAX);
                assert(earlier.last() == times[n - 2]);
            }
        }
        if n <= s.cfg.n2 {
            assert(run_ticks(s, times).1 =~= Seq::new(
                n as nat,
                |i: int|
                    if s.state == ConnState::Connecting {
                        s.sabm()
                    } else {
                        s.disc()
                    },
            ));
        }
    }
}

// ---------------------------------------------------------------------------
// What is sent
// ---------------------------------------------------------------------------

/// The action at `i` sends a command or a response with this content.
pub open spec fn sends(
    actions: Seq<ActionView>,
    i: int,
    kind: CommandResponse,
    content: ContentView,
) -> bool {
    &&& 0 <= i < actions.len()
    &&& actions[i] matches ActionView::Transmit(f)
    &&& f.command_or_response == Some(kind)
    &&& f.content == content
}

/// The action at `i` sends information under a number, with the number expected next.
pub open spec fn sends_information(
    actions: Seq<ActionView>,
    i: int,
    seq: int,
    info: Seq<u8>,
    expected: u8,
    poll: bool,
) -> bool {
    &&& 0 <= i < actions.len()
    &&& actions[i] matches ActionView::Transmit(f)
    &&& f.command_or_response == Some(CommandResponse::Command)
    &&& f.content matches ContentView::Information {
        pid,
        info: carried,
        receive_sequence,
        send_sequence,
        poll: polls,
    }
    &&& pid == ProtocolIdentifier::None && carried == info && receive_sequence == expected
        && send_sequence == seq && polls == poll
}

/// Opening a link that is down asks the peer for one, once, and waits T1 for its
/// answer. A link that is not down is left alone.
pub proof fn law_opening(s: ArqView, now: u64)
    requires
        now + s.cfg.t1_ms <= u64::MAX,
    ensures
        s.state == ConnState::Disconnected ==> ({
            let (t, actions) = s.opened(now);
            &&& actions.len() == 2
            &&& sends(
                actions,
                0,
                CommandResponse::Command,
                ContentView::SetAsynchronousBalancedMode { poll: true },
            )
            &&& actions[1] == ActionView::StateChanged(ConnState::Connecting)
            &&& t.state == ConnState::Connecting
            &&& t.t1_deadline == Some((now + s.cfg.t1_ms) as u64)
            &&& t.vs == 0 && t.vr == 0 && t.outstanding.len() == 0 && t.backlog.len() == 0
                && t.retry_count == 0 && !t.peer_busy
        }),
        s.state != ConnState::Disconnected ==> s.opened(now).0 == s && s.opened(now).1.len() == 0,
{
}

/// Closing a link asks the peer to confirm, once, and forgets what was not sent. A link
/// that is down is left alone.
pub proof fn law_closing(s: ArqView, now: u64)
    requires
        now + s.cfg.t1_ms <= u64::MAX,
    ensures
        s.state != ConnState::Disconnected ==> ({
            let (t, actions) = s.closed(now);
            &&& actions.len() == 2
            &&& sends(
                actions,
                0,
                CommandResponse::Command,
                ContentView::Disconnect { poll: true },
            )
            &&& actions[1] == ActionView::StateChanged(ConnState::Disconnecting)
            &&& t.state == ConnState::Disconnecting
            &&& t.t1_deadline == Some((now + s.cfg.t1_ms) as u64)
            &&& t.outstanding.len() == 0 && t.backlog.len() == 0 && t.retry_count == 0
        }),
        s.state == ConnState::Disconnected ==> s.closed(now).0 == s && s.closed(now).1.len() == 0,
{
}

/// A peer's opening is acknowledged with the poll bit that it had, and the link is up
/// and new. A peer's closing is acknowledged likewise, and the link is down.
pub proof fn law_peer_opens_and_closes(s: ArqView, poll: bool, now: u64)
    ensures
        ({
            let (t, actions) = s.received(
                ContentView::SetAsynchronousBalancedMode { poll },
                now,
            );
            &&& sends(
                actions,
                0,
                CommandResponse::Response,
                ContentView::UnnumberedAcknowledge { final_bit: poll },
            )
            &&& actions.len() == 2 && !(actions[1] is Transmit) && !(actions[1] is Data)
            &&& t.state == ConnState::Connected
            &&& t.vs == 0 && t.vr == 0 && t.outstanding.len() == 0 && t.backlog.len() == 0
                && !t.peer_busy && t.t1_deadline is None && t.retry_count == 0
        }),
        ({
            let (t, actions) = s.accepted(poll);
            &&& sends(
                actions,
                0,
                CommandResponse::Response,
                ContentView::UnnumberedAcknowledge { final_bit: poll },
            )
            &&& t.state == ConnState::Connected
            &&& t.vs == 0 && t.vr == 0 && t.outstanding.len() == 0 && t.backlog.len() == 0
        }),
        ({
            let (t, actions) = s.received(ContentView::Disconnect { poll }, now);
            &&& sends(
                actions,
                0,
                CommandResponse::Response,
                ContentView::UnnumberedAcknowledge { final_bit: poll },
            )
            &&& t.state == ConnState::Disconnected
            &&& t.outstanding.len() == 0 && t.backlog.len() == 0 && t.t1_deadline is None
            &&& s.state != ConnState::Disconnected ==> actions.len() == 3 && actions[1]
                == ActionView::StateChanged(ConnState::Disconnected) && actions[2]
                == ActionView::Closed
            &&& s.state == ConnState::Disconnected ==> actions.len() == 1
        }),
{
}

/// The peer's confirmation brings an opening link up and a closing link down; a refusal
/// or a protocol error brings any link down, and nothing is sent.
pub proof fn law_peer_confirms_or_refuses(
    s: ArqView,
    final_bit: bool,
    reject: FrameReject,
    now: u64,
)
    requires
        s.wf(),
    ensures
        ({
            let (t, actions) = s.received(ContentView::UnnumberedAcknowledge { final_bit }, now);
            &&& s.state == ConnState::Connecting ==> t.state == ConnState::Connected
                && t.t1_deadline is None && t.retry_count == 0
            &&& s.state == ConnState::Disconnecting ==> t.state == ConnState::Disconnected
                && t.t1_deadline is None && actions.contains(ActionView::Closed)
            &&& s.state == ConnState::Connected || s.state == ConnState::Disconnected ==> t == s
                && actions.len() == 0
        }),
        ({
            let (t, actions) = s.received(ContentView::DisconnectedMode { final_bit }, now);
            &&& t.state == ConnState::Disconnected && t.t1_deadline is None
            &&& s.state != ConnState::Disconnected ==> actions.contains(ActionView::Closed)
            &&& forall|i: int|
                0 <= i < actions.len() ==> !(#[trigger] actions[i] is Transmit)
        }),
        ({
            let (t, actions) = s.received(ContentView::FrameReject(reject), now);
            &&& t.state == ConnState::Disconnected && t.t1_deadline is None
            &&& s.state != ConnState::Disconnected ==> actions.contains(ActionView::Closed)
            &&& forall|i: int|
                0 <= i < actions.len() ==> !(#[trigger] actions[i] is Transmit)
        }),
{
    let a = s.received(ContentView::UnnumberedAcknowledge { final_bit }, now).1;
    if s.state == ConnState::Disconnecting {
        assert(a[1] == ActionView::Closed);
    }
    let b = s.received(ContentView::DisconnectedMode { final_bit }, now).1;
    let c = s.received(ContentView::FrameReject(reject), now).1;
    if s.state != ConnState::Disconnected {
        assert(b[2] == ActionView::Closed);
        assert(c[2] == ActionView::Closed);
    }
}

/// What is given to a link that is up waits behind what waited before; as much of it as
/// the window has room for is sent at once, from the front and under the numbers that
/// follow. A busy peer is sent nothing. Nothing is lost.
pub proof fn law_sending(s: ArqView, bytes: Seq<u8>, now: u64)
    requires
        s.wf(),
        s.state == ConnState::Connected,
        s.cfg.n1_bytes > 0,
    ensures
        ({
            let (t, actions) = s.submitted(bytes, now);
            let waiting = s.backlog + arq::fragments(bytes, s.cfg.n1_bytes as int);
            let k = actions.len() as int;
            &&& k <= waiting.len()
            &&& forall|i: int|
                0 <= i < k ==> sends_information(
                    actions,
                    i,
                    (s.vs + i) % 8,
                    #[trigger] waiting[i],
                    s.vr,
                    false,
                )
            &&& t.backlog == waiting.skip(k)
            &&& t.outstanding.len() == s.outstanding.len() + k
            &&& t.outstanding.take(s.outstanding.len() as int) == s.outstanding
            &&& forall|i: int|
                0 <= i < k ==> (#[trigger] t.outstanding[s.outstanding.len() + i]).info
                    == waiting[i] && t.outstanding[s.outstanding.len() + i].seq == (s.vs + i) % 8
            &&& t.vs == (s.vs + k) % 8
            &&& s.peer_busy ==> k == 0
            &&& t.outstanding.len() <= s.cfg.window
            &&& t.backlog.len() > 0 && !s.peer_busy ==> t.outstanding.len() == s.cfg.window
        }),
        s.submitted(bytes, now).0.state == ConnState::Connected,
{
    let (t, actions) = s.submitted(bytes, now);
    let q = s.queued(bytes);
    let waiting = q.backlog;
    let k = q.room();
    assert(actions.len() == k);
    assert(t.outstanding.take(s.outstanding.len() as int) =~= s.outstanding);
    assert forall|i: int| 0 <= i < k implies sends_information(
        actions,
        i,
        (s.vs + i) % 8,
        #[trigger] waiting[i],
        s.vr,
        false,
    ) by {
        assert(actions[i] == ActionView::Transmit(
            q.i_frame(arq::seq_after(q.vs, i), q.backlog[i], false),
        ));
    }
}

/// A link that is not up takes nothing.
pub proof fn law_nothing_sent_while_down(s: ArqView, bytes: Seq<u8>, now: u64)
    requires
        s.state != ConnState::Connected,
    ensures
        s.submitted(bytes, now).0 == s,
        s.submitted(bytes, now).1.len() == 0,
{
}

/// The last of some actions tells the peer the number that is expected next, as the
/// answer to a poll.
pub open spec fn answers_poll(actions: Seq<ActionView>, expected: u8) -> bool {
    sends(
        actions,
        actions.len() - 1,
        CommandResponse::Response,
        ContentView::ReceiveReady { receive_sequence: expected, poll_or_final: true },
    )
}

/// A supervisory frame says whether the peer is busy, and it acknowledges. A reject has
/// every frame that is then outstanding sent again, in order, under its own number. A
/// poll is answered.
pub proof fn law_supervisory_frames(s: ArqView, nr: u8, poll: bool, now: u64)
    requires
        s.wf(),
        s.state == ConnState::Connected,
    ensures
        ({
            let (t, actions) = s.received(
                ContentView::ReceiveReady { receive_sequence: nr, poll_or_final: poll },
                now,
            );
            &&& !t.peer_busy && t.state == ConnState::Connected
            &&& poll ==> answers_poll(actions, s.vr)
        }),
        ({
            let (t, actions) = s.received(
                ContentView::ReceiveNotReady { receive_sequence: nr, poll_or_final: poll },
                now,
            );
            &&& t.peer_busy && t.state == ConnState::Connected
            &&& t.backlog == s.backlog && t.vs == s.vs
            &&& actions.len() == (if poll {
                1int
            } else {
                0
            })
            &&& poll ==> answers_poll(actions, s.vr)
        }),
        ({
            let (t, actions) = s.received(
                ContentView::Reject { receive_sequence: nr, poll_or_final: poll },
                now,
            );
            let n = t.outstanding.len() as int;
            let last = actions.len() - (if poll {
                1int
            } else {
                0
            });
            &&& !t.peer_busy && t.state == ConnState::Connected
            &&& n <= last
            &&& forall|i: int|
                0 <= i < n ==> sends_information(
                    actions,
                    last - n + i,
                    (#[trigger] t.outstanding[i]).seq as int,
                    t.outstanding[i].info,
                    s.vr,
                    false,
                )
            &&& poll ==> answers_poll(actions, s.vr)
        }),
{
    let (t, actions) = s.received(
        ContentView::Reject { receive_sequence: nr, poll_or_final: poll },
        now,
    );
    let n = t.outstanding.len() as int;
    let last = actions.len() - (if poll {
        1int
    } else {
        0
    });
    let first = (ArqView { peer_busy: false, ..s }).advanced(nr, now).1;
    let again = t.resent(false);
    assert(last == first.len() + n);
    assert forall|i: int| 0 <= i < n implies sends_information(
        actions,
        last - n + i,
        (#[trigger] t.outstanding[i]).seq as int,
        t.outstanding[i].info,
        s.vr,
        false,
    ) by {
        assert(actions[last - n + i] == again[i]);
    }
}

/// Before T1 runs out nothing happens. When it does, an opening and a closing are
/// repeated, and a link that is up sends every outstanding frame again, in order and
/// under its number, and polls with the last; T1 then starts anew. After N2 repeats the
/// link is given up.
pub proof fn law_timer(s: ArqView, now: u64)
    requires
        s.wf(),
        now + s.cfg.t1_ms <= u64::MAX,
    ensures
        s.t1_deadline is None || now < s.t1_deadline->0 ==> s.ticked(now).0 == s && s.ticked(
            now,
        ).1.len() == 0,
        s.t1_deadline is Some && now >= s.t1_deadline->0 && s.retry_count >= s.cfg.n2 ==> ({
            let (t, actions) = s.ticked(now);
            &&& t.state == ConnState::Disconnected && t.t1_deadline is None && t.outstanding.len()
                == 0 && t.backlog.len() == 0
            &&& actions.len() == 3
            &&& actions[0] is Monitor
            &&& actions[1] == ActionView::StateChanged(ConnState::Disconnected)
            &&& actions[2] == ActionView::Closed
        }),
        s.t1_deadline is Some && now >= s.t1_deadline->0 && s.retry_count < s.cfg.n2 ==> ({
            let (t, actions) = s.ticked(now);
            &&& t.state == s.state && t.outstanding == s.outstanding && t.backlog == s.backlog
                && t.vs == s.vs
            &&& t.t1_deadline == Some((now + s.cfg.t1_ms) as u64)
            &&& t.retry_count == s.retry_count + 1
            &&& s.state == ConnState::Connecting ==> actions.len() == 1 && sends(
                actions,
                0,
                CommandResponse::Command,
                ContentView::SetAsynchronousBalancedMode { poll: true },
            )
            &&& s.state == ConnState::Disconnecting ==> actions.len() == 1 && sends(
                actions,
                0,
                CommandResponse::Command,
                ContentView::Disconnect { poll: true },
            )
            &&& s.state == ConnState::Connected ==> actions.len() == s.outstanding.len()
                && forall|i: int|
                0 <= i < s.outstanding.len() ==> sends_information(
                    actions,
                    i,
                    (#[trigger] s.outstanding[i]).seq as int,
                    s.outstanding[i].info,
                    s.vr,
                    i == s.outstanding.len() - 1,
                )
        }),
{
    if s.t1_deadline is Some && now >= s.t1_deadline->0 && s.retry_count < s.cfg.n2 && s.state
        == ConnState::Connected {
        let actions = s.ticked(now).1;
        assert forall|i: int| 0 <= i < s.outstanding.len() implies sends_information(
            actions,
            i,
            (#[trigger] s.outstanding[i]).seq as int,
            s.outstanding[i].info,
            s.vr,
            i == s.outstanding.len() - 1,
        ) by {
            assert(actions[i] == s.resent(true)[i]);
        }
    }
}

/// What is not part of the link leaves it as it is.
pub proof fn law_other_frames_ignored(s: ArqView, content: ContentView, now: u64)
    requires
        content is UnnumberedInformation || content is UnknownContent,
    ensures
        s.received(content, now).0 == s,
        s.received(content, now).1.len() == 0,
{
}

/// Information outside a link is refused, and changes nothing.
pub proof fn law_information_refused(s: ArqView, content: ContentView, now: u64)
    requires
        content is Information,
        s.state != ConnState::Connected,
    ensures
        s.received(content, now).0 == s,
        s.received(content, now).1.len() == 1,
        s.received(content, now).1[0] matches ActionView::Transmit(f) && f.content is FrameReject,
{
}

/// A refusal names the frame that it refuses, by its control field, and the numbers that
/// this side stands at.
pub proof fn law_refusal_names_frame(s: ArqView, content: ContentView, now: u64)
    requires
        s.state != ConnState::Connected,
        content is Information,
        content->Information_receive_sequence < 8,
        content->send_sequence < 8,
    ensures
        s.received(content, now).1[0] matches ActionView::Transmit(f)
            && f.content matches ContentView::FrameReject(r) && r.rejected_control_field_raw == 32
            * content->Information_receive_sequence + (if content->Information_poll {
            16int
        } else {
            0
        }) + 2 * content->send_sequence && r.receive_sequence == s.vr && r.send_sequence == s.vs,
{
    let nr = content->Information_receive_sequence;
    let ns = content->send_sequence;
    let p = if content->Information_poll {
        0x10u8
    } else {
        0u8
    };
    assert((nr << 5) | p | (ns << 1) == 32 * nr + p + 2 * ns) by (bit_vector)
        requires
            nr < 8,
            ns < 8,
            p == 0 || p == 0x10u8,
    ;
}

/// A link that is given up says which one it was and why.
pub proof fn law_giving_up_told(s: ArqView, now: u64)
    requires
        s.t1_deadline is Some,
        now >= s.t1_deadline->0,
        s.retry_count >= s.cfg.n2,
    ensures
        ({
            let peer = crate::link::address_text(s.remote);
            let n = crate::text::decimal(s.cfg.n2 as nat);
            s.ticked(now).1[0] == ActionView::Monitor(
                if s.state == ConnState::Connecting {
                    "connect to "@ + peer + " failed: no response after "@ + n + " retries"@
                } else if s.state == ConnState::Disconnecting {
                    peer + " did not confirm disconnect after "@ + n
                        + " retries, closing locally"@
                } else {
                    "link to "@ + peer + " timed out after "@ + n + " retries, disconnecting"@
                },
            )
        }),
{
}

} // verus!
