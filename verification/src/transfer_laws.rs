//! What either station sends over a connection, the other gets: nothing twice, nothing
//! out of order and nothing left out, though both send at once and frames are lost on
//! the way.

use vstd::prelude::*;

use crate::arq::{self, ActionView, ArqView, PendingView};
use crate::arq_laws;
use crate::link::ContentView;
use crate::port::ConnState;

verus! {

/// One end of a connection.
#[verifier::ext_equal]
pub struct Side {
    pub session: ArqView,
    /// Frames on their way from here to the other end, the first to arrive first.
    pub line: Seq<ContentView>,
    /// What this end was given to send, in frames.
    pub sent: Seq<Seq<u8>>,
    /// What this end handed to its application.
    pub got: Seq<Seq<u8>>,
}

/// A connection between two stations. What happens is told from the end `a`.
#[verifier::ext_equal]
pub struct Link {
    pub a: Side,
    pub b: Side,
}

/// The frames among `actions`, in order.
pub open spec fn contents(actions: Seq<ActionView>) -> Seq<ContentView>
    decreases actions.len(),
{
    if actions.len() == 0 {
        Seq::empty()
    } else {
        match actions.last() {
            ActionView::Transmit(f) => contents(actions.drop_last()).push(f.content),
            _ => contents(actions.drop_last()),
        }
    }
}

/// The end of a connection that was just made.
pub open spec fn fresh_side(session: ArqView) -> Side {
    Side { session, line: Seq::empty(), sent: Seq::empty(), got: Seq::empty() }
}

impl Link {
    /// A connection that was just made.
    pub open spec fn fresh(a: ArqView, b: ArqView) -> Link {
        Link { a: fresh_side(a), b: fresh_side(b) }
    }

    /// The same connection from the other end.
    pub open spec fn mirrored(self) -> Link {
        Link { a: self.b, b: self.a }
    }

    /// `a` is given bytes to send.
    pub open spec fn given(self, bytes: Seq<u8>, now: u64) -> Link {
        let (session, actions) = self.a.session.submitted(bytes, now);
        Link {
            a: Side {
                session,
                line: self.a.line + contents(actions),
                sent: self.a.sent + arq::fragments(
                    bytes,
                    if self.a.session.cfg.n1_bytes == 0 {
                        1
                    } else {
                        self.a.session.cfg.n1_bytes as int
                    },
                ),
                ..self.a
            },
            ..self
        }
    }

    /// `a` looks at its clock.
    pub open spec fn looked(self, now: u64) -> Link {
        let (session, actions) = self.a.session.ticked(now);
        Link { a: Side { session, line: self.a.line + contents(actions), ..self.a }, ..self }
    }

    /// The next frame of `b` arrives at `a`.
    pub open spec fn heard(self, now: u64) -> Link {
        let (session, actions) = self.a.session.received(self.b.line[0], now);
        Link {
            a: Side {
                session,
                line: self.a.line + contents(actions),
                got: self.a.got + arq_laws::delivered(actions),
                ..self.a
            },
            b: Side { line: self.b.line.skip(1), ..self.b },
        }
    }

    /// The next frame of `b` is lost.
    pub open spec fn missed(self) -> Link {
        Link { b: Side { line: self.b.line.skip(1), ..self.b }, ..self }
    }
}

// ---------------------------------------------------------------------------
// The invariant
// ---------------------------------------------------------------------------

/// What is known of a frame on its way: which of the frames sent it is, how many had
/// been sent when it was, and how many of the other end's it acknowledges.
pub struct Tag {
    pub number: int,
    pub high: int,
    pub ack: int,
}

/// Whether a frame acknowledges the first `n` frames of the other end.
pub open spec fn acknowledges(c: ContentView, n: int) -> bool {
    match c {
        ContentView::Information { receive_sequence, .. } => receive_sequence == arq::seq_after(
            0,
            n,
        ),
        ContentView::ReceiveReady { receive_sequence, poll_or_final } => receive_sequence
            == arq::seq_after(0, n) && !poll_or_final,
        ContentView::Reject { receive_sequence, poll_or_final } => receive_sequence
            == arq::seq_after(0, n) && !poll_or_final,
        _ => false,
    }
}

impl Side {
    /// How many frames were sent at least once, where the first `una` of them are
    /// acknowledged.
    pub open spec fn next(self, una: int) -> int {
        una + self.session.outstanding.len()
    }

    /// Whether the numbers and queues of a sender fit what it was given.
    pub open spec fn sends(self, una: int) -> bool {
        let s = self.session;
        &&& 0 < s.cfg.window <= 7
        &&& s.outstanding.len() <= s.cfg.window
        &&& s.vs == arq::seq_after(0, self.next(una))
        &&& self.next(una) + s.backlog.len() == self.sent.len()
        &&& forall|i: int|
            0 <= i < s.outstanding.len() ==> (#[trigger] s.outstanding[i]) == (PendingView {
                seq: arq::seq_after(0, una + i),
                info: self.sent[una + i],
            })
        &&& forall|i: int|
            0 <= i < s.backlog.len() ==> (#[trigger] s.backlog[i]) == self.sent[self.next(una) + i]
    }
}

/// What a frame of `x` says is among what `x` sent.
pub open spec fn marked(x: Side, y: Side, una: int, c: ContentView, t: Tag) -> bool {
    &&& y.got.len() <= t.high <= x.next(una)
    &&& c is Information ==> {
        &&& 0 <= t.number < t.high <= t.number + 7
        &&& arq_laws::carries(c, arq::seq_after(0, t.number), x.sent[t.number])
    }
}

/// What `x` sends to `y`: the two agree on the numbers, and what is on its way fits.
pub open spec fn flows(x: Side, y: Side, una: int, xt: Seq<Tag>, yt: Seq<Tag>) -> bool {
    &&& x.sends(una)
    &&& 0 <= una <= y.got.len() <= x.next(una)
    &&& y.session.vr == arq::seq_after(0, y.got.len() as int)
    &&& y.got == x.sent.take(y.got.len() as int)
    &&& xt.len() == x.line.len()
    &&& forall|i: int| 0 <= i < xt.len() ==> marked(x, y, una, x.line[i], #[trigger] xt[i])
    &&& forall|i: int, j: int|
        0 <= i <= j < xt.len() ==> (#[trigger] xt[i]).high <= (#[trigger] xt[j]).high
    &&& yt.len() == y.line.len()
    &&& forall|i: int|
        0 <= i < yt.len() ==> una <= (#[trigger] yt[i]).ack <= y.got.len() && acknowledges(
            y.line[i],
            yt[i].ack,
        )
    &&& forall|i: int, j: int|
        0 <= i <= j < yt.len() ==> (#[trigger] yt[i]).ack <= (#[trigger] yt[j]).ack
}

impl Link {
    /// Both ends are connected, and what they send fits, both ways.
    pub open spec fn fits(self, ua: int, ub: int, ta: Seq<Tag>, tb: Seq<Tag>) -> bool {
        &&& self.a.session.state == ConnState::Connected
        &&& self.b.session.state == ConnState::Connected
        &&& !self.a.session.peer_busy && !self.b.session.peer_busy
        &&& flows(self.a, self.b, ua, ta, tb)
        &&& flows(self.b, self.a, ub, tb, ta)
    }

    /// What holds of a connection at every moment.
    pub open spec fn sound(self) -> bool {
        &&& self.a.session.wf() && self.b.session.wf()
        &&& exists|ua: int, ub: int, ta: Seq<Tag>, tb: Seq<Tag>| #[trigger]
            self.fits(ua, ub, ta, tb)
    }

    /// The connection with another session at `a`.
    spec fn with_session(self, session: ArqView) -> Link {
        Link { a: Side { session, ..self.a }, ..self }
    }

    /// The connection with more frames on their way from `a`.
    spec fn with_more(self, more: Seq<ContentView>) -> Link {
        Link { a: Side { line: self.a.line + more, ..self.a }, ..self }
    }
}

// ---------------------------------------------------------------------------
// Frames among actions
// ---------------------------------------------------------------------------

proof fn lemma_contents_concat(x: Seq<ActionView>, y: Seq<ActionView>)
    ensures
        contents(x + y) == contents(x) + contents(y),
    decreases y.len(),
{
    if y.len() == 0 {
        assert(x + y =~= x);
        assert(contents(x) + contents(y) =~= contents(x));
    } else {
        lemma_contents_concat(x, y.drop_last());
        assert((x + y).drop_last() =~= x + y.drop_last());
        assert((x + y).last() == y.last());
        assert(contents(x + y) =~= contents(x) + contents(y));
    }
}

proof fn lemma_contents_frames(x: Seq<ActionView>)
    requires
        forall|i: int| 0 <= i < x.len() ==> (#[trigger] x[i]) is Transmit,
    ensures
        contents(x).len() == x.len(),
        forall|i: int|
            0 <= i < x.len() ==> (#[trigger] contents(x)[i]) == x[i]->Transmit_0.content,
        arq_laws::delivered(x) == Seq::<Seq<u8>>::empty(),
    decreases x.len(),
{
    if x.len() > 0 {
        assert(x[x.len() - 1] is Transmit);
        let rest = x.drop_last();
        assert forall|i: int| 0 <= i < rest.len() implies (#[trigger] rest[i]) is Transmit by {
            assert(x[i] is Transmit);
        }
        lemma_contents_frames(rest);
        assert forall|i: int| 0 <= i < x.len() implies (#[trigger] contents(x)[i])
            == x[i]->Transmit_0.content by {
            if i < rest.len() {
                assert(contents(rest)[i] == rest[i]->Transmit_0.content);
            }
        }
    }
}

// ---------------------------------------------------------------------------
// Steps
// ---------------------------------------------------------------------------

/// A frame that `a` may send now: it acknowledges everything that `a` has got, and one
/// with information carries the frame `n`, which is not acknowledged yet.
spec fn may_send(l: Link, ua: int, c: ContentView, n: int) -> bool {
    &&& acknowledges(c, l.a.got.len() as int)
    &&& c is Information ==> {
        &&& ua <= n < l.a.next(ua)
        &&& arq_laws::carries(c, arq::seq_after(0, n), l.a.sent[n])
    }
}

/// A run of frames joins those on their way.
proof fn lemma_run(
    l: Link,
    ua: int,
    ub: int,
    ta: Seq<Tag>,
    tb: Seq<Tag>,
    more: Seq<ContentView>,
    from: int,
) -> (tags: Seq<Tag>)
    requires
        l.fits(ua, ub, ta, tb),
        forall|i: int| 0 <= i < more.len() ==> may_send(l, ua, #[trigger] more[i], from + i),
    ensures
        l.with_more(more).fits(ua, ub, tags, tb),
{
    let next = l.a.next(ua);
    let r = l.a.got.len() as int;
    let added = Seq::new(more.len(), |i: int| Tag { number: from + i, high: next, ack: r });
    let all = ta + added;
    let m = l.with_more(more);
    assert forall|i: int| 0 <= i < all.len() implies marked(
        m.a,
        m.b,
        ua,
        m.a.line[i],
        #[trigger] all[i],
    ) by {
        if i < ta.len() {
            assert(all[i] == ta[i] && m.a.line[i] == l.a.line[i]);
            assert(marked(l.a, l.b, ua, l.a.line[i], ta[i]));
        } else {
            let j = i - ta.len();
            assert(all[i] == added[j] && m.a.line[i] == more[j]);
            assert(may_send(l, ua, more[j], from + j));
        }
    }
    assert forall|i: int, j: int| 0 <= i <= j < all.len() implies (#[trigger] all[i]).high <= (
    #[trigger] all[j]).high by {
        if j < ta.len() {
            assert(all[i] == ta[i] && all[j] == ta[j]);
        } else if i < ta.len() {
            assert(marked(l.a, l.b, ua, l.a.line[i], ta[i]));
        }
    }
    assert forall|i: int| 0 <= i < all.len() implies ub <= (#[trigger] all[i]).ack
        <= m.a.got.len() && acknowledges(m.a.line[i], all[i].ack) by {
        if i < ta.len() {
            assert(all[i] == ta[i] && m.a.line[i] == l.a.line[i]);
        } else {
            let j = i - ta.len();
            assert(all[i] == added[j] && m.a.line[i] == more[j]);
            assert(may_send(l, ua, more[j], from + j));
        }
    }
    assert forall|i: int, j: int| 0 <= i <= j < all.len() implies (#[trigger] all[i]).ack <= (
    #[trigger] all[j]).ack by {
        if j < ta.len() {
            assert(all[i] == ta[i] && all[j] == ta[j]);
        } else if i < ta.len() {
            assert(all[i] == ta[i]);
        }
    }
    assert forall|i: int| 0 <= i < tb.len() implies marked(
        m.b,
        m.a,
        ub,
        m.b.line[i],
        #[trigger] tb[i],
    ) by {
        assert(marked(l.b, l.a, ub, l.b.line[i], tb[i]));
    }
    all
}

/// What is on its way still fits when the session at `a` moves on to `s`, where `q`
/// frames are acknowledged.
proof fn lemma_same_numbers(
    l: Link,
    ua: int,
    ub: int,
    ta: Seq<Tag>,
    tb: Seq<Tag>,
    s: ArqView,
    q: int,
)
    requires
        l.fits(ua, ub, ta, tb),
        ua <= q <= l.b.got.len(),
        forall|i: int| 0 <= i < tb.len() ==> (#[trigger] tb[i]).ack >= q,
        l.with_session(s).a.sends(q),
        l.a.next(ua) <= l.with_session(s).a.next(q),
        s.state == ConnState::Connected,
        !s.peer_busy,
        s.vr == l.a.session.vr,
    ensures
        l.with_session(s).fits(q, ub, ta, tb),
{
    let m = l.with_session(s);
    assert forall|i: int| 0 <= i < ta.len() implies marked(
        m.a,
        m.b,
        q,
        m.a.line[i],
        #[trigger] ta[i],
    ) by {
        assert(marked(l.a, l.b, ua, l.a.line[i], ta[i]));
    }
    assert forall|i: int| 0 <= i < tb.len() implies marked(
        m.b,
        m.a,
        ub,
        m.b.line[i],
        #[trigger] tb[i],
    ) by {
        assert(marked(l.b, l.a, ub, l.b.line[i], tb[i]));
    }
}

/// As much of the backlog goes out as the window allows.
proof fn lemma_drained(
    l: Link,
    ua: int,
    ub: int,
    ta: Seq<Tag>,
    tb: Seq<Tag>,
    now: u64,
) -> (tags: Seq<Tag>)
    requires
        l.fits(ua, ub, ta, tb),
    ensures
        l.with_session(l.a.session.drained(now)).with_more(
            contents(l.a.session.drained_frames()),
        ).fits(ua, ub, tags, tb),
{
    let s = l.a.session;
    let k = s.room();
    let d = s.drained(now);
    let next = l.a.next(ua);
    let m = l.with_session(d);
    assert(0 <= k <= s.backlog.len());
    arq::lemma_seq_after(0, next, k);
    assert forall|i: int| 0 <= i < d.outstanding.len() implies (#[trigger] d.outstanding[i]) == (
    PendingView { seq: arq::seq_after(0, ua + i), info: m.a.sent[ua + i] }) by {
        if i < s.outstanding.len() {
            assert(d.outstanding[i] == s.outstanding[i]);
        } else {
            let j = i - s.outstanding.len();
            arq::lemma_seq_after(0, next, j);
            assert(d.outstanding[i] == PendingView {
                seq: arq::seq_after(s.vs, j),
                info: s.backlog[j],
            });
        }
    }
    assert forall|i: int| 0 <= i < d.backlog.len() implies (#[trigger] d.backlog[i])
        == m.a.sent[m.a.next(ua) + i] by {
        assert(d.backlog[i] == s.backlog[i + k]);
    }
    assert forall|i: int| 0 <= i < tb.len() implies (#[trigger] tb[i]).ack >= ua by {}
    lemma_same_numbers(l, ua, ub, ta, tb, d, ua);
    let frames = s.drained_frames();
    assert forall|i: int| 0 <= i < frames.len() implies (#[trigger] frames[i]) is Transmit by {}
    lemma_contents_frames(frames);
    let more = contents(frames);
    assert forall|i: int| 0 <= i < more.len() implies may_send(
        m,
        ua,
        #[trigger] more[i],
        next + i,
    ) by {
        assert(more[i] == frames[i]->Transmit_0.content);
        arq::lemma_seq_after(0, next, i);
        assert(s.backlog[i] == l.a.sent[next + i]);
    }
    lemma_run(m, ua, ub, ta, tb, more, next)
}

/// Every unacknowledged frame goes out once more.
proof fn lemma_resent(
    l: Link,
    ua: int,
    ub: int,
    ta: Seq<Tag>,
    tb: Seq<Tag>,
    s: ArqView,
    poll: bool,
) -> (tags: Seq<Tag>)
    requires
        l.fits(ua, ub, ta, tb),
        s.outstanding == l.a.session.outstanding,
        s.vr == l.a.session.vr,
    ensures
        l.with_more(contents(s.resent(poll))).fits(ua, ub, tags, tb),
{
    let frames = s.resent(poll);
    assert forall|i: int| 0 <= i < frames.len() implies (#[trigger] frames[i]) is Transmit by {}
    lemma_contents_frames(frames);
    let more = contents(frames);
    assert forall|i: int| 0 <= i < more.len() implies may_send(l, ua, #[trigger] more[i], ua + i) by {
        assert(more[i] == frames[i]->Transmit_0.content);
        assert(s.outstanding[i] == l.a.session.outstanding[i]);
    }
    lemma_run(l, ua, ub, ta, tb, more, ua)
}

/// The next frame of `b` is off its way.
proof fn lemma_missed(l: Link, ua: int, ub: int, ta: Seq<Tag>, tb: Seq<Tag>)
    requires
        l.fits(ua, ub, ta, tb),
        l.b.line.len() > 0,
    ensures
        l.missed().fits(ua, ub, ta, tb.skip(1)),
{
    let m = l.missed();
    let rest = tb.skip(1);
    assert forall|i: int| 0 <= i < rest.len() implies marked(
        m.b,
        m.a,
        ub,
        m.b.line[i],
        #[trigger] rest[i],
    ) by {
        assert(rest[i] == tb[i + 1]);
        assert(marked(l.b, l.a, ub, l.b.line[i + 1], tb[i + 1]));
    }
    assert forall|i: int, j: int| 0 <= i <= j < rest.len() implies (#[trigger] rest[i]).high <= (
    #[trigger] rest[j]).high by {
        assert(tb[i + 1].high <= tb[j + 1].high);
    }
    assert forall|i: int| 0 <= i < rest.len() implies ua <= (#[trigger] rest[i]).ack
        <= m.b.got.len() && acknowledges(m.b.line[i], rest[i].ack) by {
        assert(rest[i] == tb[i + 1]);
        assert(m.b.line[i] == l.b.line[i + 1]);
    }
    assert forall|i: int, j: int| 0 <= i <= j < rest.len() implies (#[trigger] rest[i]).ack <= (
    #[trigger] rest[j]).ack by {
        assert(tb[i + 1].ack <= tb[j + 1].ack);
    }
    assert forall|i: int| 0 <= i < ta.len() implies marked(
        m.a,
        m.b,
        ua,
        m.a.line[i],
        #[trigger] ta[i],
    ) by {
        assert(marked(l.a, l.b, ua, l.a.line[i], ta[i]));
    }
}

/// The next frame of `b` is off its way, and `a` took its acknowledgement and sent on.
proof fn lemma_acknowledged(
    l: Link,
    ua: int,
    ub: int,
    ta: Seq<Tag>,
    tb: Seq<Tag>,
    now: u64,
) -> (tags: Seq<Tag>)
    requires
        l.fits(ua, ub, ta, tb),
        l.b.line.len() > 0,
        l.a.session.wf(),
    ensures
        ({
            let (s, frames) = l.a.session.advanced(arq::seq_after(0, tb[0].ack), now);
            l.missed().with_session(s).with_more(contents(frames)).fits(
                tb[0].ack,
                ub,
                tags,
                tb.skip(1),
            )
        }),
{
    let q = tb[0].ack;
    let nr = arq::seq_after(0, q);
    let n = l.a.session.outstanding.len() as int;
    let j = q - ua;
    assert(0 <= j <= n);
    if j < n {
        assert(l.a.session.outstanding[j].seq == nr);
    }
    arq_laws::law_acknowledgement(l.a.session, j, now);
    let s = l.a.session.acknowledged(nr, now);
    assert(s.outstanding == l.a.session.outstanding.skip(j));
    lemma_missed(l, ua, ub, ta, tb);
    let rest = tb.skip(1);
    let m = l.missed();
    assert forall|i: int| 0 <= i < rest.len() implies (#[trigger] rest[i]).ack >= q by {
        assert(rest[i] == tb[i + 1]);
        assert(tb[0].ack <= tb[i + 1].ack);
    }
    let acked = m.with_session(s);
    assert(acked.a.sends(q)) by {
        assert forall|i: int| 0 <= i < s.outstanding.len() implies (#[trigger] s.outstanding[i])
            == (PendingView { seq: arq::seq_after(0, q + i), info: acked.a.sent[q + i] }) by {
            assert(s.outstanding[i] == l.a.session.outstanding[i + j]);
        }
    }
    lemma_same_numbers(m, ua, ub, ta, rest, s, q);
    let tags = lemma_drained(acked, q, ub, ta, rest, now);
    let end = acked.with_session(s.drained(now)).with_more(contents(s.drained_frames()));
    assert(end == m.with_session(s.drained(now)).with_more(contents(s.drained_frames())));
    tags
}

/// `a` hands the next frame of `b` to its application.
proof fn lemma_got(l: Link, ua: int, ub: int, ta: Seq<Tag>, tb: Seq<Tag>, m: Link)
    requires
        l.fits(ua, ub, ta, tb),
        l.a.got.len() < l.b.next(ub),
        forall|i: int| 0 <= i < tb.len() ==> (#[trigger] tb[i]).high > l.a.got.len(),
        m == (Link {
            a: Side {
                session: ArqView {
                    vr: arq::seq_after(l.a.session.vr, 1),
                    ..l.a.session
                },
                got: l.a.got.push(l.b.sent[l.a.got.len() as int]),
                ..l.a
            },
            ..l
        }),
    ensures
        m.fits(ua, ub, ta, tb),
{
    let r = l.a.got.len() as int;
    arq::lemma_seq_after(0, r, 1);
    assert(m.a.got =~= m.b.sent.take(r + 1)) by {
        assert forall|i: int| 0 <= i < r + 1 implies m.a.got[i] == m.b.sent[i] by {
            if i < r {
                assert(l.a.got[i] == l.b.sent.take(r)[i]);
            }
        }
    }
    assert forall|i: int| 0 <= i < ta.len() implies marked(
        m.a,
        m.b,
        ua,
        m.a.line[i],
        #[trigger] ta[i],
    ) by {
        assert(marked(l.a, l.b, ua, l.a.line[i], ta[i]));
    }
    assert forall|i: int| 0 <= i < tb.len() implies marked(
        m.b,
        m.a,
        ub,
        m.b.line[i],
        #[trigger] tb[i],
    ) by {
        assert(marked(l.b, l.a, ub, l.b.line[i], tb[i]));
    }
    assert forall|i: int| 0 <= i < ta.len() implies ub <= (#[trigger] ta[i]).ack <= m.a.got.len()
        && acknowledges(m.a.line[i], ta[i].ack) by {
        assert(ta[i].ack <= l.a.got.len());
    }
}

// ---------------------------------------------------------------------------
// Laws
// ---------------------------------------------------------------------------

/// A connection that was just made is sound.
pub proof fn law_fresh_link(a: ArqView, b: ArqView)
    requires
        a.wf() && b.wf(),
        a.state == ConnState::Connected && b.state == ConnState::Connected,
        0 < a.cfg.window <= 7 && 0 < b.cfg.window <= 7,
        !a.peer_busy && !b.peer_busy,
        a.vs == 0 && a.vr == 0 && b.vs == 0 && b.vr == 0,
        a.outstanding.len() == 0 && a.backlog.len() == 0,
        b.outstanding.len() == 0 && b.backlog.len() == 0,
    ensures
        Link::fresh(a, b).sound(),
{
    let l = Link::fresh(a, b);
    assert(l.a.got =~= l.b.sent.take(0));
    assert(l.b.got =~= l.a.sent.take(0));
    assert(l.fits(0, 0, Seq::empty(), Seq::empty()));
}

/// A sound connection is sound from both ends: what the laws say of `a` holds of `b`.
pub proof fn law_mirrored_is_sound(l: Link)
    requires
        l.sound(),
    ensures
        l.mirrored().sound(),
        l.mirrored().mirrored() == l,
{
    let (ua, ub, ta, tb) = choose|ua: int, ub: int, ta: Seq<Tag>, tb: Seq<Tag>| #[trigger]
        l.fits(ua, ub, ta, tb);
    assert(l.fits(ua, ub, ta, tb));
    assert(l.mirrored().fits(ub, ua, tb, ta));
}

/// What either end handed to its application is always the beginning of what the
/// other was given: nothing twice, nothing out of order and nothing left out.
pub proof fn law_prefix_delivered(l: Link)
    requires
        l.sound(),
    ensures
        l.b.got.len() <= l.a.sent.len(),
        l.b.got == l.a.sent.take(l.b.got.len() as int),
        l.a.got.len() <= l.b.sent.len(),
        l.a.got == l.b.sent.take(l.a.got.len() as int),
{
    let (ua, ub, ta, tb) = choose|ua: int, ub: int, ta: Seq<Tag>, tb: Seq<Tag>| #[trigger]
        l.fits(ua, ub, ta, tb);
    assert(l.fits(ua, ub, ta, tb));
}

/// Once `a` has nothing more to send and nothing unacknowledged, `b` has everything.
pub proof fn law_all_delivered(l: Link)
    requires
        l.sound(),
        l.a.session.outstanding.len() == 0,
        l.a.session.backlog.len() == 0,
    ensures
        l.b.got == l.a.sent,
{
    let (ua, ub, ta, tb) = choose|ua: int, ub: int, ta: Seq<Tag>, tb: Seq<Tag>| #[trigger]
        l.fits(ua, ub, ta, tb);
    assert(l.fits(ua, ub, ta, tb));
    assert(l.a.sent.take(l.a.sent.len() as int) =~= l.a.sent);
}

/// A connection stays sound when bytes are given to `a`.
pub proof fn law_giving_is_sound(l: Link, bytes: Seq<u8>, now: u64)
    requires
        l.sound(),
    ensures
        l.given(bytes, now).sound(),
{
    let (ua, ub, ta, tb) = choose|ua: int, ub: int, ta: Seq<Tag>, tb: Seq<Tag>| #[trigger]
        l.fits(ua, ub, ta, tb);
    assert(l.fits(ua, ub, ta, tb));
    let s = l.a.session.queued(bytes);
    let n = if l.a.session.cfg.n1_bytes == 0 {
        1
    } else {
        l.a.session.cfg.n1_bytes as int
    };
    let more = arq::fragments(bytes, n);
    arq::law_invariant_kept(
        l.a.session,
        false,
        bytes,
        ContentView::UnknownContent { raw: bytes },
        now,
    );
    let m = Link { a: Side { session: s, sent: l.a.sent + more, ..l.a }, ..l };
    assert(m.a.sends(ua)) by {
        assert forall|i: int| 0 <= i < s.backlog.len() implies (#[trigger] s.backlog[i])
            == m.a.sent[m.a.next(ua) + i] by {
            if i < l.a.session.backlog.len() {
                assert(s.backlog[i] == l.a.session.backlog[i]);
            } else {
                assert(s.backlog[i] == more[i - l.a.session.backlog.len()]);
            }
        }
        assert forall|i: int| 0 <= i < s.outstanding.len() implies (#[trigger] s.outstanding[i])
            == (PendingView { seq: arq::seq_after(0, ua + i), info: m.a.sent[ua + i] }) by {
            assert(l.a.session.outstanding[i].info == l.a.sent[ua + i]);
        }
    }
    assert(m.b.got =~= m.a.sent.take(m.b.got.len() as int)) by {
        assert forall|i: int| 0 <= i < l.b.got.len() implies l.b.got[i] == m.a.sent[i] by {
            assert(l.b.got[i] == l.a.sent.take(l.b.got.len() as int)[i]);
        }
    }
    assert forall|i: int| 0 <= i < ta.len() implies marked(
        m.a,
        m.b,
        ua,
        m.a.line[i],
        #[trigger] ta[i],
    ) by {
        assert(marked(l.a, l.b, ua, l.a.line[i], ta[i]));
    }
    assert forall|i: int| 0 <= i < tb.len() implies marked(
        m.b,
        m.a,
        ub,
        m.b.line[i],
        #[trigger] tb[i],
    ) by {
        assert(marked(l.b, l.a, ub, l.b.line[i], tb[i]));
    }
    assert(m.fits(ua, ub, ta, tb));
    let tags = lemma_drained(m, ua, ub, ta, tb, now);
    let end = l.given(bytes, now);
    assert(end =~= m.with_session(s.drained(now)).with_more(contents(s.drained_frames())));
    assert(end.fits(ua, ub, tags, tb));
}

/// A connection stays sound when `a` looks at its clock and does not give up.
pub proof fn law_retrying_is_sound(l: Link, now: u64)
    requires
        l.sound(),
        l.looked(now).a.session.state == ConnState::Connected,
    ensures
        l.looked(now).sound(),
{
    let (ua, ub, ta, tb) = choose|ua: int, ub: int, ta: Seq<Tag>, tb: Seq<Tag>| #[trigger]
        l.fits(ua, ub, ta, tb);
    assert(l.fits(ua, ub, ta, tb));
    let end = l.looked(now);
    let (s, actions) = l.a.session.ticked(now);
    arq::law_invariant_kept(
        l.a.session,
        false,
        Seq::empty(),
        ContentView::UnknownContent { raw: Seq::empty() },
        now,
    );
    let same = l.with_session(s);
    assert(same.a.sends(ua));
    assert forall|i: int| 0 <= i < tb.len() implies (#[trigger] tb[i]).ack >= ua by {}
    lemma_same_numbers(l, ua, ub, ta, tb, s, ua);
    if actions.len() == 0 {
        assert(contents(actions) =~= Seq::<ContentView>::empty());
        assert(end =~= same);
    } else {
        assert(actions == l.a.session.resent(true));
        let tags = lemma_resent(same, ua, ub, ta, tb, l.a.session, true);
        assert(end =~= same.with_more(contents(actions)));
        assert(end.fits(ua, ub, tags, tb));
    }
}

/// A connection stays sound when a frame to `a` is lost.
pub proof fn law_loss_is_sound(l: Link)
    requires
        l.sound(),
        l.b.line.len() > 0,
    ensures
        l.missed().sound(),
{
    let (ua, ub, ta, tb) = choose|ua: int, ub: int, ta: Seq<Tag>, tb: Seq<Tag>| #[trigger]
        l.fits(ua, ub, ta, tb);
    assert(l.fits(ua, ub, ta, tb));
    lemma_missed(l, ua, ub, ta, tb);
}

/// A connection stays sound when a frame arrives at `a`.
pub proof fn law_arrival_is_sound(l: Link, now: u64)
    requires
        l.sound(),
        l.b.line.len() > 0,
    ensures
        l.heard(now).sound(),
{
    let (ua, ub, ta, tb) = choose|ua: int, ub: int, ta: Seq<Tag>, tb: Seq<Tag>| #[trigger]
        l.fits(ua, ub, ta, tb);
    assert(l.fits(ua, ub, ta, tb));
    let c = l.b.line[0];
    let t = tb[0];
    let q = t.ack;
    let rest = tb.skip(1);
    assert(acknowledges(c, q));
    assert(marked(l.b, l.a, ub, c, t));
    arq::law_invariant_kept(l.a.session, false, Seq::empty(), c, now);
    let (s, frames) = l.a.session.advanced(arq::seq_after(0, q), now);
    assert forall|i: int| 0 <= i < frames.len() implies (#[trigger] frames[i]) is Transmit by {}
    lemma_contents_frames(frames);
    let tags = lemma_acknowledged(l, ua, ub, ta, tb, now);
    let mid = l.missed().with_session(s).with_more(contents(frames));
    assert(mid.fits(q, ub, tags, rest));
    let end = l.heard(now);
    match c {
        ContentView::Information { .. } => {
            lemma_heard_information(l, q, ub, tags, tb, now);
        },
        ContentView::ReceiveReady { .. } => {
            assert(ArqView { peer_busy: false, ..l.a.session } =~= l.a.session);
            assert(end.a.got =~= l.a.got);
            assert(end =~= mid);
            assert(end.fits(q, ub, tags, rest));
        },
        ContentView::Reject { .. } => {
            assert(ArqView { peer_busy: false, ..l.a.session } =~= l.a.session);
            let again = s.resent(false);
            let more = lemma_resent(mid, q, ub, tags, rest, s, false);
            lemma_contents_concat(frames, again);
            assert forall|i: int| 0 <= i < (frames + again).len() implies (
            #[trigger] (frames + again)[i]) is Transmit by {}
            lemma_contents_frames(frames + again);
            assert(end.a.got =~= l.a.got);
            assert(end.a.line =~= mid.a.line + contents(again));
            assert(end =~= mid.with_more(contents(again)));
            assert(end.fits(q, ub, more, rest));
        },
        _ => {},
    }
}

proof fn lemma_heard_information(
    l: Link,
    q: int,
    ub: int,
    tags: Seq<Tag>,
    tb: Seq<Tag>,
    now: u64,
)
    requires
        l.b.line.len() > 0,
        l.b.line[0] is Information,
        tb.len() == l.b.line.len(),
        forall|i: int, j: int|
            0 <= i <= j < tb.len() ==> (#[trigger] tb[i]).high <= (#[trigger] tb[j]).high,
        acknowledges(l.b.line[0], q),
        marked(l.b, l.a, ub, l.b.line[0], tb[0]),
        l.a.session.state == ConnState::Connected,
        l.heard(now).a.session.wf(),
        l.b.session.wf(),
        ({
            let (s, frames) = l.a.session.advanced(arq::seq_after(0, q), now);
            &&& arq_laws::delivered(frames) == Seq::<Seq<u8>>::empty()
            &&& l.missed().with_session(s).with_more(contents(frames)).fits(
                q,
                ub,
                tags,
                tb.skip(1),
            )
        }),
    ensures
        l.heard(now).sound(),
{
    let c = l.b.line[0];
    let t = tb[0];
    let rest = tb.skip(1);
    let r = l.a.got.len() as int;
    let (s, frames) = l.a.session.advanced(arq::seq_after(0, q), now);
    let mid = l.missed().with_session(s).with_more(contents(frames));
    let end = l.heard(now);
    let info = c->Information_info;
    assert(s.vr == l.a.session.vr);
    if c->send_sequence == l.a.session.vr {
        assert(l.b.next(ub) <= ub + 7 && ub <= r);
        assert(t.number == r);
        let read = ArqView { vr: arq::seq_after(s.vr, 1), ..s };
        let one = frames.push(ActionView::Data(info));
        let two = one.push(read.rr(false));
        assert(one.drop_last() =~= frames);
        assert(two.drop_last() =~= one);
        assert(arq_laws::delivered(one) =~= seq![info]);
        assert(arq_laws::delivered(two) =~= seq![info]);
        let reply = ContentView::ReceiveReady { receive_sequence: read.vr, poll_or_final: false };
        assert(contents(one) == contents(frames));
        assert(contents(two) =~= contents(frames) + seq![reply]);
        assert(info == l.b.sent[r]);
        let had = Link {
            a: Side { session: read, got: mid.a.got.push(info), ..mid.a },
            ..mid
        };
        assert forall|i: int| 0 <= i < rest.len() implies (#[trigger] rest[i]).high > r by {
            assert(rest[i] == tb[i + 1]);
            assert(tb[0].high <= tb[i + 1].high);
        }
        lemma_got(mid, q, ub, tags, rest, had);
        arq::lemma_seq_after(0, r, 1);
        let said = seq![reply];
        assert forall|i: int| 0 <= i < said.len() implies may_send(
            had,
            q,
            #[trigger] said[i],
            q + i,
        ) by {}
        let all = lemma_run(had, q, ub, tags, rest, said, q);
        assert(end.a.got =~= l.a.got.push(info));
        assert(end.a.line =~= had.a.line + said);
        assert(end =~= had.with_more(said));
        assert(end.fits(q, ub, all, rest));
    } else {
        let one = frames.push(s.rej());
        assert(one.drop_last() =~= frames);
        assert(arq_laws::delivered(one) =~= Seq::<Seq<u8>>::empty());
        let reply = ContentView::Reject { receive_sequence: s.vr, poll_or_final: false };
        assert(contents(one) =~= contents(frames) + seq![reply]);
        let said = seq![reply];
        assert forall|i: int| 0 <= i < said.len() implies may_send(
            mid,
            q,
            #[trigger] said[i],
            q + i,
        ) by {}
        let all = lemma_run(mid, q, ub, tags, rest, said, q);
        assert(end.a.got =~= l.a.got);
        assert(end.a.line =~= mid.a.line + said);
        assert(end =~= mid.with_more(said));
        assert(end.fits(q, ub, all, rest));
    }
}

} // verus!
