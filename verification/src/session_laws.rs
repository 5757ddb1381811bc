//! What using a tab comes to: what goes out to the port, what is shown and what is
//! kept.

use vstd::prelude::*;
use vstd::utf8::*;

use crate::actions;
use crate::app_state;
use crate::config::{self, AppConfig, IncomingView, NotifiedView, QsoView};
use crate::events::{self, FrameView, OpenedView};
use crate::notify::{self, MatchView};
use crate::port::{self, CommandView, ConnectionId};
use crate::record_laws;
use crate::session_tab::{self, TabId, TabView};
use crate::text;
use crate::text_laws;
use crate::window::{self, EffectView, Effects, PendingView, SlotView, UiView};
use crate::window_laws;

verus! {

// ---------------------------------------------------------------------------
// Effects by their kind
// ---------------------------------------------------------------------------

/// Both are of one of the kinds that reach the port, the screen, the history or the
/// user.
pub open spec fn alike(x: EffectView, y: EffectView) -> bool {
    ||| x is Command && y is Command
    ||| x is Show && y is Show
    ||| x is Keep && y is Keep
    ||| x is Notify && y is Notify
    ||| x is Spawn && y is Spawn
}

/// Of its kind there is `x` among the effects, once, and nothing else.
pub open spec fn only(e: Effects, x: EffectView) -> bool {
    exists|i: int| only_at(e, x, i)
}

pub open spec fn only_at(e: Effects, x: EffectView, i: int) -> bool {
    &&& 0 <= i < e.len()
    &&& e[i] == x
    &&& forall|j: int| 0 <= j < e.len() && j != i ==> !alike(#[trigger] e[j], x)
}

/// Nothing goes out to a port.
pub open spec fn sends_nothing(e: Effects) -> bool {
    forall|j: int| 0 <= j < e.len() ==> !(#[trigger] e[j] is Command)
}

/// Nothing is shown in a tab, and nothing goes to the history.
pub open spec fn writes_nothing(e: Effects) -> bool {
    forall|j: int| 0 <= j < e.len() ==> !(#[trigger] e[j] is Show) && !(e[j] is Keep)
}

/// No port is started.
pub open spec fn starts_nothing(e: Effects) -> bool {
    forall|j: int| 0 <= j < e.len() ==> !(#[trigger] e[j] is Spawn)
}

/// Nothing but one tab is other than it was.
pub open spec fn only_tab_changed(u: UiView, after: UiView, k: int) -> bool {
    &&& after == (UiView { tabs: after.tabs, ..u })
    &&& after.tabs.len() == u.tabs.len()
    &&& after.tabs[k].id == u.tabs[k].id
    &&& forall|i: int| 0 <= i < u.tabs.len() && i != k ==> #[trigger] after.tabs[i] == u.tabs[i]
}

/// The tab counted one more packet that it sent, and its bytes.
pub open spec fn counts_sent(before: TabView, after: TabView, n: nat) -> bool {
    &&& after == (TabView {
        bytes_sent: after.bytes_sent,
        packets_sent: after.packets_sent,
        ..before
    })
    &&& before.bytes_sent + n <= u64::MAX ==> after.bytes_sent == before.bytes_sent + n
    &&& before.packets_sent < u64::MAX ==> after.packets_sent == before.packets_sent + 1
}

proof fn lemma_counts_sent(tab: TabView, t: Seq<char>)
    ensures
        counts_sent(tab, tab.sent(t), encode_utf8(t).len()),
{
}

// ---------------------------------------------------------------------------
// What the user sends
// ---------------------------------------------------------------------------

/// A line of this station as a tab shows it.
pub open spec fn own_line_shown(id: TabId, t: Seq<char>) -> EffectView {
    EffectView::Show { tab: id, text: text::without("\u{BB} "@ + t + "\n"@, '\0') }
}

/// A line of this station as the history keeps it.
pub open spec fn own_line_kept(tab: TabView, t: Seq<char>) -> EffectView {
    EffectView::Keep { port_id: tab.port.id, remote: tab.node, line: "\u{BB} "@ + t }
}

/// A line that is entered in a connected tab goes out once, over that tab's own
/// connection, with a line end behind it. Where the other side is a station, the tab
/// shows the line, the history of that port and node keeps it, and it is counted.
pub proof fn law_line_goes_out(u: UiView, id: TabId, t: Seq<char>, k: int, conn: ConnectionId)
    requires
        t.len() > 0,
        k == window::slot_index(u.tabs, id),
        k < u.tabs.len(),
        !u.tabs[k].tab.unproto,
        u.tabs[k].tab.conn_id == Some(conn),
        u.active.contains(u.tabs[k].tab.port.id),
    ensures
        actions::entered(u, id, t).0,
        only(
            actions::entered(u, id, t).1.effects,
            EffectView::Command {
                port_id: u.tabs[k].tab.port.id,
                command: CommandView::Send { id: conn, bytes: encode_utf8(t + "\n"@) },
            },
        ),
        session_tab::connects(u.tabs[k].tab.port.config) ==> ({
            let o = actions::entered(u, id, t).1;
            &&& only(o.effects, own_line_shown(id, t))
            &&& only(o.effects, own_line_kept(u.tabs[k].tab, t))
            &&& only_tab_changed(u, o.ui, k)
            &&& counts_sent(u.tabs[k].tab, o.ui.tabs[k].tab, encode_utf8(t).len())
        }),
        !session_tab::connects(u.tabs[k].tab.port.config) ==> ({
            let o = actions::entered(u, id, t).1;
            o.ui == u && writes_nothing(o.effects)
        }),
{
    window::lemma_slot_index(u.tabs, id);
    let tab = u.tabs[k].tab;
    let e = actions::entered(u, id, t).1.effects;
    let command = EffectView::Command {
        port_id: tab.port.id,
        command: CommandView::Send { id: conn, bytes: encode_utf8(t + "\n"@) },
    };
    assert(only_at(e, command, 0));
    if session_tab::connects(tab.port.config) {
        assert(e.len() == 4 && e[3] is Monitor);
        assert(only_at(e, own_line_shown(id, t), 1));
        assert(only_at(e, own_line_kept(tab, t), 2));
        lemma_counts_sent(tab, t);
    }
}

/// A line that is entered in a tab for unconnected traffic goes out once, to the
/// tab's node over the tab's path, as it was entered. The tab shows it, the history
/// keeps it, and it is counted.
pub proof fn law_unconnected_line_goes_out(u: UiView, id: TabId, t: Seq<char>, k: int)
    requires
        t.len() > 0,
        k == window::slot_index(u.tabs, id),
        k < u.tabs.len(),
        u.tabs[k].tab.unproto,
        u.active.contains(u.tabs[k].tab.port.id),
        text::call_text(u.tabs[k].tab.node).len() > 0,
    ensures
        actions::entered(u, id, t).0,
        ({
            let tab = u.tabs[k].tab;
            let o = actions::entered(u, id, t).1;
            &&& only(
                o.effects,
                EffectView::Command {
                    port_id: tab.port.id,
                    command: CommandView::SendUnproto {
                        dest: text::call_text(tab.node),
                        path: session_tab::path_of(tab.via_raw),
                        bytes: encode_utf8(t),
                    },
                },
            )
            &&& only(o.effects, own_line_shown(id, t))
            &&& only(o.effects, own_line_kept(tab, t))
            &&& only_tab_changed(u, o.ui, k)
            &&& counts_sent(tab, o.ui.tabs[k].tab, encode_utf8(t).len())
        }),
{
    window::lemma_slot_index(u.tabs, id);
    let tab = u.tabs[k].tab;
    let e = actions::entered(u, id, t).1.effects;
    let command = EffectView::Command {
        port_id: tab.port.id,
        command: CommandView::SendUnproto {
            dest: text::call_text(tab.node),
            path: session_tab::path_of(tab.via_raw),
            bytes: encode_utf8(t),
        },
    };
    assert(e.len() == 4 && e[3] is Monitor);
    assert(only_at(e, command, 0));
    assert(only_at(e, own_line_shown(id, t), 1));
    assert(only_at(e, own_line_kept(tab, t), 2));
    lemma_counts_sent(tab, t);
}

/// A line that cannot be sent stays where it is: nothing goes out, nothing is shown
/// as sent or kept, and the user is told.
pub proof fn law_line_stays(u: UiView, id: TabId, t: Seq<char>, k: int)
    requires
        t.len() > 0,
        k == window::slot_index(u.tabs, id),
        k < u.tabs.len(),
        if u.tabs[k].tab.unproto {
            !u.active.contains(u.tabs[k].tab.port.id)
        } else {
            u.tabs[k].tab.conn_id is None
        },
    ensures
        !actions::entered(u, id, t).0,
        actions::entered(u, id, t).1.ui == u,
        actions::entered(u, id, t).1.effects.len() == 1,
        actions::entered(u, id, t).1.effects[0] is Monitor,
{
}

/// Closing a tab hangs up its own connection, and nothing else.
pub proof fn law_closing_hangs_up(u: UiView, id: TabId, k: int, conn: ConnectionId)
    requires
        k == window::slot_index(u.tabs, id),
        k < u.tabs.len(),
    ensures
        u.tabs[k].tab.conn_id == Some(conn) && u.active.contains(u.tabs[k].tab.port.id) ==> ({
            let command = EffectView::Command {
                port_id: u.tabs[k].tab.port.id,
                command: CommandView::CloseConnection { id: conn },
            };
            only(actions::closed_tab(u, id).effects, command) && only(
                actions::hang_up(u, id),
                command,
            )
        }),
        u.tabs[k].tab.conn_id is None || !u.active.contains(u.tabs[k].tab.port.id)
            ==> sends_nothing(actions::closed_tab(u, id).effects) && sends_nothing(
            actions::hang_up(u, id),
        ),
{
    let command = EffectView::Command {
        port_id: u.tabs[k].tab.port.id,
        command: CommandView::CloseConnection { id: conn },
    };
    let e = actions::closed_tab(u, id).effects;
    if u.tabs[k].tab.conn_id == Some(conn) && u.active.contains(u.tabs[k].tab.port.id) {
        assert(only_at(e, command, 0));
        assert(only_at(actions::hang_up(u, id), command, 0));
    }
}

// ---------------------------------------------------------------------------
// Connecting
// ---------------------------------------------------------------------------

proof fn lemma_waits(v: Seq<PendingView>, p: PendingView)
    requires
        forall|i: int|
            0 <= i < v.len() ==> !((#[trigger] v[i]).port_id == p.port_id && v[i].remote
                == p.remote),
    ensures
        window::pending_tab(v.push(p), p.port_id, p.remote) == Some(p.tab),
    decreases v.len(),
{
    if v.len() > 0 {
        assert(v.push(p)[0] == v[0]);
        assert(v.push(p).skip(1) =~= v.skip(1).push(p));
        assert forall|i: int| 0 <= i < v.skip(1).len() implies !((#[trigger] v.skip(1)[i]).port_id
            == p.port_id && v.skip(1)[i].remote == p.remote) by {
            assert(v.skip(1)[i] == v[i + 1]);
        }
        lemma_waits(v.skip(1), p);
    }
}

proof fn lemma_pending_gone(v: Seq<PendingView>, port_id: Seq<char>, remote: Seq<char>)
    ensures
        forall|i: int|
            0 <= i < window::without_pending(v, port_id, remote).len() ==> !((
            #[trigger] window::without_pending(v, port_id, remote)[i]).port_id == port_id
                && window::without_pending(v, port_id, remote)[i].remote == remote),
    decreases v.len(),
{
    if v.len() > 0 {
        lemma_pending_gone(v.drop_last(), port_id, remote);
        let front = window::without_pending(v.drop_last(), port_id, remote);
        let all = window::without_pending(v, port_id, remote);
        assert forall|i: int| 0 <= i < all.len() implies !((#[trigger] all[i]).port_id == port_id
            && all[i].remote == remote) by {
            if i < front.len() {
                assert(all[i] == front[i]);
            }
        }
    }
}

/// Connecting a tab calls its node over its path on its port, once, and the tab waits
/// for that connection. The port is started first where it is not up.
pub proof fn law_dialing(c: AppConfig, u: UiView, id: TabId, k: int)
    requires
        k == window::slot_index(u.tabs, id),
        k < u.tabs.len(),
        !u.tabs[k].tab.unproto,
        session_tab::connects(u.tabs[k].tab.port.config),
        text::call_text(u.tabs[k].tab.node).len() > 0,
        app_state::entry_with(c.ports@, u.tabs[k].tab.port.id) is Some,
    ensures
        ({
            let tab = u.tabs[k].tab;
            let remote = text::call_text(tab.node);
            let o = actions::dialed(c, u, id);
            &&& only(
                o.effects,
                EffectView::Command {
                    port_id: tab.port.id,
                    command: CommandView::OpenConnection {
                        remote,
                        path: session_tab::path_of(tab.via_raw),
                    },
                },
            )
            &&& if u.active.contains(tab.port.id) {
                starts_nothing(o.effects)
            } else {
                only(o.effects, EffectView::Spawn { port_id: tab.port.id })
            }
            &&& o.ui.active.contains(tab.port.id)
            &&& window::pending_tab(o.ui.pending, tab.port.id, remote) == Some(id)
            &&& o.ui == (UiView { active: o.ui.active, pending: o.ui.pending, ..u })
        }),
{
    let tab = u.tabs[k].tab;
    let remote = text::call_text(tab.node);
    let p = PendingView { port_id: tab.port.id, remote, tab: id };
    let rest = window::without_pending(u.pending, tab.port.id, remote);
    lemma_pending_gone(u.pending, tab.port.id, remote);
    lemma_waits(rest, p);
    let waiting = UiView { pending: rest.push(p), ..u };
    let s = actions::started(c, waiting, tab.port.id);
    let pre = actions::preview(id, tab);
    let e = actions::dialed(c, u, id).effects;
    let call = EffectView::Command {
        port_id: tab.port.id,
        command: CommandView::OpenConnection {
            remote,
            path: session_tab::path_of(tab.via_raw),
        },
    };
    if !u.active.contains(tab.port.id) {
        assert(s.ui.active.last() == tab.port.id);
        assert(only_at(e, EffectView::Spawn { port_id: tab.port.id }, pre.len() as int + 1));
    }
    assert(only_at(e, call, e.len() - 1));
}

/// No notification is raised.
pub open spec fn tells_nothing(e: Effects) -> bool {
    forall|j: int| 0 <= j < e.len() ==> !(#[trigger] e[j] is Notify)
}

/// The log has one contact more, an open one with the station over the port since
/// `now`.
pub open spec fn one_contact_more(
    log: Seq<QsoView>,
    after: Seq<QsoView>,
    port_id: Seq<char>,
    label: Seq<char>,
    now: Seq<char>,
) -> bool {
    &&& after.len() == log.len() + 1
    &&& after.drop_last() == log
    &&& after.last().callsign == text::call_text(label)
    &&& after.last().port_id == port_id
    &&& after.last().started == now
    &&& after.last().ended is None
}

/// A connection that a tab waits for is that tab's when it opens: the tab is connected
/// from that time on, the contact is logged, and nothing goes out by itself.
pub proof fn law_dialed_connection_opens(
    c: AppConfig,
    u: UiView,
    port_id: Seq<char>,
    o: OpenedView,
    now: Seq<char>,
    secs: u64,
    t: TabId,
    k: int,
)
    requires
        events::needs_node(c, port_id),
        text::call_text(o.label).len() > 0,
        window::pending_tab(u.pending, port_id, o.label) == Some(t),
        k == window::slot_index(u.tabs, t),
        k < u.tabs.len(),
    ensures
        ({
            let after = events::opened(c, u, port_id, o, now, secs);
            let tab = after.ui.tabs[k].tab;
            &&& window::bound_tab(after.ui.bound, port_id, o.id) == Some(t)
            &&& after.ui.tabs.len() == u.tabs.len()
            &&& tab.conn_id == Some(o.id)
            &&& tab.connected_since == Some(secs)
            &&& u.tabs[k].tab.node.len() > 0 ==> tab.node == u.tabs[k].tab.node
            &&& u.tabs[k].tab.node.len() == 0 ==> tab.node == o.label
            &&& tab.port == u.tabs[k].tab.port && tab.bytes_sent == u.tabs[k].tab.bytes_sent
                && tab.mailbox_state == u.tabs[k].tab.mailbox_state
            &&& forall|i: int|
                0 <= i < u.tabs.len() && i != k ==> #[trigger] after.ui.tabs[i] == u.tabs[i]
            &&& one_contact_more(u.qsos, after.ui.qsos, port_id, o.label, now)
            &&& sends_nothing(after.effects)
            &&& tells_nothing(after.effects)
            &&& after.effects.contains(EffectView::Save)
        }),
{
    window::lemma_slot_index(u.tabs, t);
    record_laws::law_contact_begins(u.qsos, port_id, o.label, now);
    window_laws::lemma_bound_now(u.bound, port_id, o.id, t);
    let after = events::opened(c, u, port_id, o, now, secs);
    assert(after.effects =~= seq![EffectView::Save]);
    assert(after.effects[0] == EffectView::Save);
}

/// The call that dialing starts comes back to the tab that dialed.
pub proof fn law_dialed_tab_connects(
    c: AppConfig,
    u: UiView,
    id: TabId,
    k: int,
    conn: ConnectionId,
    now: Seq<char>,
    secs: u64,
)
    requires
        k == window::slot_index(u.tabs, id),
        k < u.tabs.len(),
        !u.tabs[k].tab.unproto,
        session_tab::connects(u.tabs[k].tab.port.config),
        events::needs_node(c, u.tabs[k].tab.port.id),
        text::call_text(u.tabs[k].tab.node).len() > 0,
        text::call_text(text::call_text(u.tabs[k].tab.node)).len() > 0,
    ensures
        ({
            let port_id = u.tabs[k].tab.port.id;
            let o = OpenedView { id: conn, label: text::call_text(u.tabs[k].tab.node), to: None };
            let after = events::opened(
                c,
                actions::dialed(c, u, id).ui,
                port_id,
                o,
                now,
                secs,
            ).ui;
            &&& after.tabs[k].id == id
            &&& after.tabs[k].tab.conn_id == Some(conn)
            &&& window::bound_tab(after.bound, port_id, conn) == Some(id)
        }),
{
    law_dialing(c, u, id, k);
    window::lemma_slot_index(u.tabs, id);
    let port_id = u.tabs[k].tab.port.id;
    let o = OpenedView { id: conn, label: text::call_text(u.tabs[k].tab.node), to: None };
    law_dialed_connection_opens(
        c,
        actions::dialed(c, u, id).ui,
        port_id,
        o,
        now,
        secs,
        id,
        k,
    );
}

/// A connection that ends leaves its tab, and no other, without one. The tab's line
/// that was not finished goes to the history of that port and node, and nothing goes
/// out.
pub proof fn law_connection_ends(
    c: AppConfig,
    u: UiView,
    port_id: Seq<char>,
    id: ConnectionId,
    now: Seq<char>,
    t: TabId,
    k: int,
)
    requires
        window::bound_tab(u.bound, port_id, id) == Some(t),
        k == window::slot_index(u.tabs, t),
        k < u.tabs.len(),
    ensures
        ({
            let after = events::ended(c, u, port_id, id, now);
            let tab = after.ui.tabs[k].tab;
            let line = u.tabs[k].tab.pending_line;
            &&& tab.conn_id is None && tab.connected_since is None && tab.mailbox_state is None
            &&& tab.pending_line.len() == 0
            &&& tab.node == u.tabs[k].tab.node && tab.port == u.tabs[k].tab.port && tab.via_raw
                == u.tabs[k].tab.via_raw && tab.pinned == u.tabs[k].tab.pinned && tab.bytes_sent
                == u.tabs[k].tab.bytes_sent && tab.bytes_received
                == u.tabs[k].tab.bytes_received
            &&& after.ui.tabs.len() == u.tabs.len()
            &&& forall|i: int|
                0 <= i < u.tabs.len() && i != k ==> #[trigger] after.ui.tabs[i] == u.tabs[i]
            &&& line.len() > 0 ==> only(
                after.effects,
                EffectView::Keep {
                    port_id: tab.port.id,
                    remote: tab.node,
                    line: text::without_line_end(line),
                },
            )
            &&& line.len() == 0 ==> writes_nothing(after.effects)
            &&& sends_nothing(after.effects)
            &&& after.ui.active == u.active && after.ui.pending == u.pending && after.ui.messages
                == u.messages && after.ui.book == u.book
        }),
{
    window::lemma_slot_index(u.tabs, t);
    let after = events::ended(c, u, port_id, id, now);
    let tab = u.tabs[k].tab;
    if tab.pending_line.len() > 0 {
        let line = EffectView::Keep {
            port_id: tab.port.id,
            remote: tab.node,
            line: text::without_line_end(tab.pending_line),
        };
        assert(only_at(after.effects, line, after.effects.len() - 1));
    }
}

/// A contact that was opened and ended stands in the log with both times.
pub proof fn law_contact_stands_in_log(
    c: AppConfig,
    u: UiView,
    port_id: Seq<char>,
    o: OpenedView,
    began: Seq<char>,
    secs: u64,
    end: Seq<char>,
    t: TabId,
    k: int,
)
    requires
        events::needs_node(c, port_id),
        text::call_text(o.label).len() > 0,
        window::pending_tab(u.pending, port_id, o.label) == Some(t),
        k == window::slot_index(u.tabs, t),
        k < u.tabs.len(),
        text::call_text(u.tabs[k].tab.node) == text::call_text(o.label),
        u.tabs[k].tab.node.len() > 0,
    ensures
        ({
            let open = events::opened(c, u, port_id, o, began, secs).ui;
            let log = events::ended(c, open, port_id, o.id, end).ui.qsos;
            &&& log.len() == u.qsos.len() + 1
            &&& log.drop_last() == u.qsos
            &&& log.last().callsign == text::call_text(o.label)
            &&& log.last().port_id == port_id
            &&& log.last().started == began
            &&& log.last().ended == Some(end)
        }),
{
    law_dialed_connection_opens(c, u, port_id, o, began, secs, t, k);
    let open = events::opened(c, u, port_id, o, began, secs).ui;
    window::lemma_slot_index(u.tabs, t);
    assert(open.tabs[k].id == t);
    window::lemma_slot_index(open.tabs, t);
    let m = window::slot_index(open.tabs, t);
    assert(m == k) by {
        if m < k {
            assert(open.tabs[m] == u.tabs[m]);
        }
    }
    record_laws::law_contact_is_logged(u.qsos, port_id, o.label, began, end);
    let start = app_state::after_qso_start(u.qsos, port_id, o.label, began);
    assert(open.qsos == start);
    assert(app_state::after_qso_end(start, port_id, open.tabs[k].tab.node, end)
        == app_state::after_qso_end(start, port_id, o.label, end));
}

// ---------------------------------------------------------------------------
// What comes in
// ---------------------------------------------------------------------------

/// Text that comes in over a connection is shown once, in the tab of that connection
/// and as it came. Every line that it completes goes to the history of the tab's port
/// and node, in order; the rest waits for its end. It is counted, and nothing goes out
/// where no mailbox answers.
pub proof fn law_text_comes_in(
    u: UiView,
    port_id: Seq<char>,
    id: ConnectionId,
    s: Seq<char>,
    now: Seq<char>,
    t: TabId,
    k: int,
)
    requires
        window::bound_tab(u.bound, port_id, id) == Some(t),
        k == window::slot_index(u.tabs, t),
        k < u.tabs.len(),
        u.tabs[k].tab.mailbox_state is None,
        !s.contains('\0'),
    ensures
        ({
            let before = u.tabs[k].tab;
            let after = events::received(u, port_id, id, encode_utf8(s), now);
            let tab = after.ui.tabs[k].tab;
            let lines = session_tab::complete_lines(before.pending_line + s);
            &&& only(after.effects, EffectView::Show { tab: t, text: s })
            &&& after.effects.len() == 1 + lines.len()
            &&& forall|i: int|
                0 <= i < lines.len() ==> #[trigger] after.effects[i + 1] == (EffectView::Keep {
                    port_id: before.port.id,
                    remote: before.node,
                    line: lines[i],
                })
            &&& tab.pending_line == session_tab::unfinished(before.pending_line + s)
            &&& before.bytes_received + encode_utf8(s).len() <= u64::MAX ==> tab.bytes_received
                == before.bytes_received + encode_utf8(s).len()
            &&& before.packets_received < u64::MAX ==> tab.packets_received
                == before.packets_received + 1
            &&& tab.bytes_sent == before.bytes_sent && tab.packets_sent == before.packets_sent
            &&& tab.conn_id == before.conn_id && tab.node == before.node
            &&& only_tab_changed(u, after.ui, k)
        }),
{
    encode_utf8_valid_utf8(s);
    encode_utf8_decode_utf8(s);
    text::lemma_without_none(s, '\0');
    window::lemma_slot_index(u.tabs, t);
    let before = u.tabs[k].tab;
    let after = events::received(u, port_id, id, encode_utf8(s), now);
    let lines = session_tab::complete_lines(before.pending_line + s);
    let kept = events::kept(before, lines);
    assert(after.effects =~= seq![EffectView::Show { tab: t, text: s }] + kept);
    assert forall|i: int| 0 <= i < lines.len() implies #[trigger] after.effects[i + 1] == (
    EffectView::Keep { port_id: before.port.id, remote: before.node, line: lines[i] }) by {
        assert(kept[i] == after.effects[i + 1]);
    }
    let shown = EffectView::Show { tab: t, text: s };
    assert forall|j: int| 0 <= j < after.effects.len() && j != 0 implies !alike(
        #[trigger] after.effects[j],
        shown,
    ) by {
        assert(after.effects[j] == kept[j - 1]);
    }
    assert(only_at(after.effects, shown, 0));
}

proof fn lemma_fed(tabs: Seq<SlotView>, port_id: Seq<char>, line: Seq<char>)
    ensures
        forall|i: int|
            0 <= i < tabs.len() && (#[trigger] tabs[i]).tab.unproto && tabs[i].tab.port.id
                == port_id ==> events::fed(tabs, port_id, line).contains(
                EffectView::Show { tab: tabs[i].id, text: text::without(line + "\n"@, '\0') },
            ),
        forall|j: int|
            0 <= j < events::fed(tabs, port_id, line).len() ==> is_watched(
                tabs,
                port_id,
                line,
                #[trigger] events::fed(tabs, port_id, line)[j],
            ),
    decreases tabs.len(),
{
    if tabs.len() > 0 {
        let front = tabs.drop_last();
        lemma_fed(front, port_id, line);
        let before = events::fed(front, port_id, line);
        let all = events::fed(tabs, port_id, line);
        assert forall|i: int|
            0 <= i < tabs.len() && (#[trigger] tabs[i]).tab.unproto && tabs[i].tab.port.id
                == port_id implies all.contains(
            EffectView::Show { tab: tabs[i].id, text: text::without(line + "\n"@, '\0') },
        ) by {
            let x = EffectView::Show {
                tab: tabs[i].id,
                text: text::without(line + "\n"@, '\0'),
            };
            if i < front.len() {
                assert(front[i] == tabs[i]);
                let m = before.index_of(x);
                assert(all[m] == x);
            } else {
                assert(all[all.len() - 1] == x);
            }
        }
        assert forall|j: int| 0 <= j < all.len() implies is_watched(
            tabs,
            port_id,
            line,
            #[trigger] all[j],
        ) by {
            if j < before.len() {
                assert(all[j] == before[j]);
                let i = choose|i: int| watches(front, port_id, line, before[j], i);
                assert(watches(tabs, port_id, line, all[j], i));
            } else {
                assert(watches(tabs, port_id, line, all[j], tabs.len() - 1));
            }
        }
    }
}

/// The effect shows the line in the tab at `i`, which watches the port's unconnected
/// traffic.
pub open spec fn watches(
    tabs: Seq<SlotView>,
    port_id: Seq<char>,
    line: Seq<char>,
    x: EffectView,
    i: int,
) -> bool {
    &&& 0 <= i < tabs.len()
    &&& tabs[i].tab.unproto
    &&& tabs[i].tab.port.id == port_id
    &&& x == EffectView::Show { tab: tabs[i].id, text: text::without(line + "\n"@, '\0') }
}

/// The effect shows the line in a tab that watches the port's unconnected traffic.
pub open spec fn is_watched(
    tabs: Seq<SlotView>,
    port_id: Seq<char>,
    line: Seq<char>,
    x: EffectView,
) -> bool {
    exists|i: int| watches(tabs, port_id, line, x, i)
}

/// A frame that was heard.
pub open spec fn frame_event(f: FrameView) -> port::EventView {
    port::EventView::Monitor {
        line: f.line,
        from: Some(f.from),
        to: Some(f.to),
        message: Some(f.message),
    }
}

/// The line of a frame stands first in the traffic view, under its port. Every tab
/// that watches the unconnected traffic of that port shows it, and no other tab does.
/// Nothing goes out.
pub proof fn law_traffic_is_shown(
    c: AppConfig,
    u: UiView,
    port_id: Seq<char>,
    f: FrameView,
    now: Seq<char>,
    secs: u64,
)
    ensures
        ({
            let after = events::after_event(c, u, port_id, frame_event(f), now, secs);
            &&& after.effects[0] == (EffectView::Monitor {
                port_id,
                line: "["@ + port_id + "] "@ + f.line,
            })
            &&& forall|i: int|
                0 <= i < u.tabs.len() && (#[trigger] u.tabs[i]).tab.unproto
                    && u.tabs[i].tab.port.id == port_id ==> after.effects.contains(
                    EffectView::Show {
                        tab: u.tabs[i].id,
                        text: text::without(f.line + "\n"@, '\0'),
                    },
                )
            &&& forall|j: int|
                0 <= j < after.effects.len() && (#[trigger] after.effects[j]) is Show ==> is_watched(
                    u.tabs,
                    port_id,
                    f.line,
                    after.effects[j],
                )
            &&& sends_nothing(after.effects)
            &&& after.ui.tabs == u.tabs && after.ui.bound == u.bound && after.ui.active == u.active
                && after.ui.messages == u.messages
        }),
{
    let after = events::after_event(c, u, port_id, frame_event(f), now, secs);
    let label = events::beacon_label(c, f);
    let a = events::noticed(c, u, port_id, f, now);
    let b = events::sighted(c, a.ui, port_id, f, label, now);
    let d = events::beaconed(b.ui, f, now);
    let shown = events::fed(u.tabs, port_id, f.line);
    let n = 1 + a.effects.len() + b.effects.len() + d.effects.len();
    lemma_fed(u.tabs, port_id, f.line);
    assert(after.effects.len() == n + shown.len());
    assert forall|i: int|
        0 <= i < u.tabs.len() && (#[trigger] u.tabs[i]).tab.unproto && u.tabs[i].tab.port.id
            == port_id implies after.effects.contains(
        EffectView::Show { tab: u.tabs[i].id, text: text::without(f.line + "\n"@, '\0') },
    ) by {
        let x = EffectView::Show {
            tab: u.tabs[i].id,
            text: text::without(f.line + "\n"@, '\0'),
        };
        let m = shown.index_of(x);
        assert(after.effects[n + m] == x);
    }
    assert forall|j: int| n <= j < after.effects.len() implies #[trigger] after.effects[j]
        == shown[j - n] by {}
    assert forall|j: int| 0 <= j < n implies !(#[trigger] after.effects[j] is Show)
        && !(after.effects[j] is Command) by {
        if j >= 1 {
            if j < 1 + a.effects.len() {
                assert(after.effects[j] == a.effects[j - 1]);
            } else if j < 1 + a.effects.len() + b.effects.len() {
                assert(after.effects[j] == b.effects[j - 1 - a.effects.len()]);
            } else {
                assert(after.effects[j] == d.effects[j - 1 - a.effects.len() - b.effects.len()]);
            }
        }
    }
    assert forall|j: int|
        0 <= j < after.effects.len() && (#[trigger] after.effects[j]) is Show implies is_watched(
        u.tabs,
        port_id,
        f.line,
        after.effects[j],
    ) by {
        assert(j >= n);
        assert(after.effects[j] == shown[j - n]);
    }
    assert forall|j: int| 0 <= j < after.effects.len() implies !(
    #[trigger] after.effects[j] is Command) by {
        if j >= n {
            assert(after.effects[j] == shown[j - n]);
            assert(is_watched(u.tabs, port_id, f.line, shown[j - n]));
        }
    }
}

/// The title of a notification about a port.
pub open spec fn port_title(c: AppConfig, port_id: Seq<char>) -> Seq<char> {
    "Packet Radio \u{2014} "@ + config::name_or_id(config::views(c.ports@), port_id)
}

/// What a notification says of a frame: who sent it, to whom, and what.
pub open spec fn told_of(f: FrameView) -> Seq<char> {
    "From: "@ + f.from + "\nTo: "@ + f.to + "\n"@ + f.message
}

/// The list has one packet more: this line of this port, at this time.
pub open spec fn one_notified_more(
    log: Seq<NotifiedView>,
    after: Seq<NotifiedView>,
    port_id: Seq<char>,
    line: Seq<char>,
    now: Seq<char>,
) -> bool {
    &&& after.len() == log.len() + 1
    &&& after.drop_last() == log
    &&& after.last().port_id == port_id
    &&& after.last().line == line
    &&& after.last().timestamp == now
}

/// The user is told of a frame that is directed at the station, or that a rule asks
/// about, with its sender and its receiver, and it is recorded. Of another frame that
/// is no beacon either the user is not told, and it is not recorded.
pub proof fn law_user_is_told(
    c: AppConfig,
    u: UiView,
    port_id: Seq<char>,
    f: FrameView,
    now: Seq<char>,
    secs: u64,
)
    ensures
        ({
            let after = events::after_event(c, u, port_id, frame_event(f), now, secs);
            match notify::destination_match(c, f.to) {
                Some(MatchView::Directed) => after.effects.contains(
                    EffectView::Notify { title: port_title(c, port_id), body: told_of(f) },
                ) && one_notified_more(u.notified, after.ui.notified, port_id, f.line, now),
                Some(MatchView::Custom(label)) => after.effects.contains(
                    EffectView::Notify {
                        title: port_title(c, port_id) + " ("@ + label + ")"@,
                        body: told_of(f),
                    },
                ) && one_notified_more(u.notified, after.ui.notified, port_id, f.line, now),
                None => after.ui.notified == u.notified && (events::beacon_label(c, f) is None
                    ==> tells_nothing(after.effects)),
            }
        }),
{
    let after = events::after_event(c, u, port_id, frame_event(f), now, secs);
    let label = events::beacon_label(c, f);
    let a = events::noticed(c, u, port_id, f, now);
    let b = events::sighted(c, a.ui, port_id, f, label, now);
    let d = events::beaconed(b.ui, f, now);
    let shown = events::fed(u.tabs, port_id, f.line);
    match notify::destination_match(c, f.to) {
        Some(m) => {
            assert(after.effects[1] == a.effects[0]);
            assert(after.ui.notified.drop_last() =~= u.notified);
        },
        None => {
            if label is None {
                lemma_fed(u.tabs, port_id, f.line);
                assert forall|j: int| 0 <= j < after.effects.len() implies !(
                #[trigger] after.effects[j] is Notify) by {
                    if j >= 1 + d.effects.len() {
                        let x = shown[j - 1 - d.effects.len()];
                        assert(after.effects[j] == x);
                        assert(is_watched(u.tabs, port_id, f.line, x));
                    } else if j >= 1 {
                        assert(after.effects[j] == d.effects[j - 1]);
                    }
                }
            }
        },
    }
}

/// The list has one beacon more: this frame, over this port, at this time.
pub open spec fn one_beacon_more(
    log: Seq<IncomingView>,
    after: Seq<IncomingView>,
    port_id: Seq<char>,
    f: FrameView,
    now: Seq<char>,
) -> bool {
    &&& after.len() == log.len() + 1
    &&& after.drop_last() == log
    &&& after.last().port_id == port_id
    &&& after.last().from == f.from
    &&& after.last().to == f.to
    &&& after.last().message == f.message
    &&& after.last().timestamp == now
}

/// A frame that counts as a beacon is recorded as it came, and the user is told where
/// that is wanted. A frame that counts as none is not recorded as one.
pub proof fn law_beacon_is_noted(
    c: AppConfig,
    u: UiView,
    port_id: Seq<char>,
    f: FrameView,
    now: Seq<char>,
    secs: u64,
)
    ensures
        ({
            let after = events::after_event(c, u, port_id, frame_event(f), now, secs);
            match events::beacon_label(c, f) {
                Some(label) => {
                    &&& one_beacon_more(u.incoming, after.ui.incoming, port_id, f, now)
                    &&& after.ui.beacon_lit
                    &&& after.effects.contains(EffectView::Save)
                    &&& c.notify.beacon_enabled ==> after.effects.contains(
                        EffectView::Notify {
                            title: port_title(c, port_id) + " (Beacon: "@ + label + ")"@,
                            body: told_of(f),
                        },
                    )
                },
                None => after.ui.incoming == u.incoming && after.ui.beacon_lit == u.beacon_lit,
            }
        }),
        f.to == "BEACON"@ ==> events::after_event(
            c,
            u,
            port_id,
            frame_event(f),
            now,
            secs,
        ).ui.book == app_state::after_beacon(u.book, f.from, f.message, now),
        f.to != "BEACON"@ ==> events::after_event(
            c,
            u,
            port_id,
            frame_event(f),
            now,
            secs,
        ).ui.book == u.book,
{
    let after = events::after_event(c, u, port_id, frame_event(f), now, secs);
    let a = events::noticed(c, u, port_id, f, now);
    match events::beacon_label(c, f) {
        Some(label) => {
            let n = 1 + a.effects.len() as int;
            assert(after.ui.incoming.drop_last() =~= u.incoming);
            assert(after.effects[n] == EffectView::Save);
            if c.notify.beacon_enabled {
                assert(after.effects[n + 1] == (EffectView::Notify {
                    title: port_title(c, port_id) + " (Beacon: "@ + label + ")"@,
                    body: told_of(f),
                }));
            }
        },
        None => {},
    }
}

// ---------------------------------------------------------------------------
// Calls from others
// ---------------------------------------------------------------------------

/// A responder with the callsign `call` is meant by a call to `to` on a port.
pub open spec fn is_meant(
    enabled: bool,
    call: Seq<char>,
    listen_ports: Seq<Seq<char>>,
    to: Option<Seq<char>>,
    port_id: Seq<char>,
) -> bool {
    &&& enabled
    &&& text::trimmed(call).len() > 0
    &&& to is Some
    &&& text::ascii_upper(to->0) == text::ascii_upper(text::trimmed(call))
    &&& listen_ports.len() == 0 || listen_ports.contains(port_id)
}

pub open spec fn means_mailbox(c: AppConfig, port_id: Seq<char>, to: Option<Seq<char>>) -> bool {
    is_meant(
        c.mailbox.enabled,
        c.mailbox.respond_call@,
        text::texts(c.mailbox.listen_ports@),
        to,
        port_id,
    )
}

/// The callsign of the keyboard: its own, else the station's.
pub open spec fn keyboard_call(c: AppConfig) -> Seq<char> {
    if text::call_text(c.keyboard_mode.node_call@).len() > 0 {
        text::call_text(c.keyboard_mode.node_call@)
    } else {
        match c.ui.default_call {
            Some(s) => s@,
            None => Seq::empty(),
        }
    }
}

pub open spec fn means_keyboard(c: AppConfig, port_id: Seq<char>, to: Option<Seq<char>>) -> bool {
    is_meant(
        c.keyboard_mode.enabled,
        keyboard_call(c),
        text::texts(c.keyboard_mode.listen_ports@),
        to,
        port_id,
    )
}

/// A call is answered by the responder that it is meant for, the mailbox before the
/// keyboard, and by nobody where it is meant for neither. Without a text of the
/// user's own the greeting names the callsign that answers.
pub proof fn law_call_is_answered(c: AppConfig, port_id: Seq<char>, to: Option<Seq<char>>)
    ensures
        means_mailbox(c, port_id, to) ==> events::answer_for(c, port_id, to) is Mailbox,
        means_mailbox(c, port_id, to) && c.mailbox.intro_message@.len() == 0
            ==> events::answer_for(c, port_id, to) == (events::Answer::Mailbox {
            greeting: text::call_text(c.mailbox.respond_call@)
                + " BBS. Commands: L)ist  R)ead <id>  CQ  B)ye\n"@,
        }),
        !means_mailbox(c, port_id, to) && means_keyboard(c, port_id, to) ==> events::answer_for(
            c,
            port_id,
            to,
        ) is Keyboard,
        !means_mailbox(c, port_id, to) && means_keyboard(c, port_id, to)
            && c.keyboard_mode.welcome_message@.len() == 0 ==> events::answer_for(c, port_id, to)
            == (events::Answer::Keyboard {
            greeting: keyboard_call(c) + " here, ready for keyboard-to-keyboard. Go ahead.\n"@,
        }),
        !means_mailbox(c, port_id, to) && !means_keyboard(c, port_id, to) ==> events::answer_for(
            c,
            port_id,
            to,
        ) is Nobody,
{
}

/// A call that nobody asked for opens a tab of its own for the station, which is
/// connected and logged. The greeting of the responder, where one answers, goes out
/// over that connection, once, and stands in the tab and in the history; the mailbox
/// is then ready for a command.
pub proof fn law_call_comes_in(
    c: AppConfig,
    u: UiView,
    port_id: Seq<char>,
    o: OpenedView,
    now: Seq<char>,
    secs: u64,
)
    requires
        window_laws::orderly(u),
        u.next_tab_id < u64::MAX,
        events::needs_node(c, port_id),
        o.label.len() > 0,
        text::call_text(o.label).len() > 0,
        u.active.contains(port_id),
        window::pending_tab(u.pending, port_id, o.label) is None,
    ensures
        ({
            let after = events::opened(c, u, port_id, o, now, secs);
            let k = u.tabs.len() as int;
            let tab = after.ui.tabs[k].tab;
            let t = u.next_tab_id;
            &&& after.ui.tabs.len() == u.tabs.len() + 1
            &&& forall|i: int| 0 <= i < u.tabs.len() ==> #[trigger] after.ui.tabs[i] == u.tabs[i]
            &&& after.ui.tabs[k].id == t
            &&& tab.node == o.label
            &&& tab.port.id == port_id
            &&& tab.conn_id == Some(o.id)
            &&& tab.connected_since == Some(secs)
            &&& window::bound_tab(after.ui.bound, port_id, o.id) == Some(t)
            &&& one_contact_more(u.qsos, after.ui.qsos, port_id, o.label, now)
            &&& match events::answer_for(c, port_id, o.to) {
                events::Answer::Mailbox { greeting } => {
                    &&& only(
                        after.effects,
                        EffectView::Command {
                            port_id,
                            command: CommandView::Send { id: o.id, bytes: encode_utf8(greeting) },
                        },
                    )
                    &&& only(after.effects, own_line_shown(t, greeting))
                    &&& only(after.effects, own_line_kept(tab, greeting))
                    &&& tab.mailbox_state is Some
                },
                events::Answer::Keyboard { greeting } => {
                    &&& only(
                        after.effects,
                        EffectView::Command {
                            port_id,
                            command: CommandView::Send { id: o.id, bytes: encode_utf8(greeting) },
                        },
                    )
                    &&& only(after.effects, own_line_shown(t, greeting))
                    &&& only(after.effects, own_line_kept(tab, greeting))
                    &&& tab.mailbox_state is None
                },
                events::Answer::Nobody => sends_nothing(after.effects) && writes_nothing(
                    after.effects,
                ) && tab.mailbox_state is None,
            }
            &&& c.notify.directed_enabled ==> only(
                after.effects,
                EffectView::Notify {
                    title: port_title(c, port_id),
                    body: o.label + " connected to you"@,
                },
            ) && one_notified_more(
                u.notified,
                after.ui.notified,
                port_id,
                o.label + " connected to you"@,
                now,
            )
            &&& !c.notify.directed_enabled ==> tells_nothing(after.effects) && after.ui.notified
                == u.notified
        }),
{
    let p = actions::PrefillView {
        port_id,
        remote: o.label,
        path: Seq::empty(),
        unproto: false,
    };
    let t = u.next_tab_id;
    let k = u.tabs.len() as int;
    lemma_entry_with(c.ports@, port_id);
    window_laws::law_added_tab_is_new(c, u, p);
    let placed = actions::added(c, u, p);
    record_laws::law_contact_begins(u.qsos, port_id, o.label, now);
    window_laws::lemma_bound_now(u.bound, port_id, o.id, t);
    let after = events::opened(c, u, port_id, o, now, secs);
    window::lemma_slot_index(placed.1.ui.tabs, t);
    assert(window::slot_index(placed.1.ui.tabs, t) == k) by {
        let m = window::slot_index(placed.1.ui.tabs, t);
        assert(placed.1.ui.tabs[k].id == t);
        if m < k {
            assert(placed.1.ui.tabs[m] == u.tabs[m]);
        }
    }
    let pre = placed.1.effects;
    assert(pre.len() == 1 && (pre[0] is Preview || pre[0] is Blank));
    let e = after.effects;
    let tab = after.ui.tabs[k].tab;
    match events::answer_for(c, port_id, o.to) {
        events::Answer::Mailbox { greeting } => {
            let command = EffectView::Command {
                port_id,
                command: CommandView::Send { id: o.id, bytes: encode_utf8(greeting) },
            };
            assert(only_at(e, command, 1));
            assert(only_at(e, own_line_shown(t, greeting), 2));
            assert(only_at(e, own_line_kept(tab, greeting), 3));
        },
        events::Answer::Keyboard { greeting } => {
            let command = EffectView::Command {
                port_id,
                command: CommandView::Send { id: o.id, bytes: encode_utf8(greeting) },
            };
            assert(only_at(e, command, 1));
            assert(only_at(e, own_line_shown(t, greeting), 2));
            assert(only_at(e, own_line_kept(tab, greeting), 3));
        },
        events::Answer::Nobody => {},
    }
    if c.notify.directed_enabled {
        let notice = EffectView::Notify {
            title: port_title(c, port_id),
            body: o.label + " connected to you"@,
        };
        let n = if events::answer_for(c, port_id, o.to) is Nobody {
            1int
        } else {
            4int
        };
        assert(only_at(e, notice, n));
        assert(after.ui.notified.drop_last() =~= u.notified);
    }
}

proof fn lemma_entry_with(ports: Seq<config::PortEntry>, id: Seq<char>)
    ensures
        app_state::entry_with(ports, id) matches Some(e) ==> e.id@ == id,
    decreases ports.len(),
{
    if ports.len() > 0 && ports[0].id@ != id {
        lemma_entry_with(ports.skip(1), id);
    }
}

/// A port is looked up by its number: the first that has it is found, and a port that
/// is configured is always found.
pub proof fn law_port_is_found(ports: Seq<config::PortEntry>, i: int)
    requires
        0 <= i < ports.len(),
        forall|j: int| 0 <= j < i ==> (#[trigger] ports[j]).id@ != ports[i].id@,
    ensures
        app_state::entry_with(ports, ports[i].id@) == Some(ports[i]),
        config::name_or_id(config::views(ports), ports[i].id@) == ports[i].name@,
    decreases ports.len(),
{
    if i > 0 {
        assert(ports[0].id@ != ports[i].id@);
        assert(ports.skip(1)[i - 1] == ports[i]);
        assert forall|j: int| 0 <= j < i - 1 implies (#[trigger] ports.skip(1)[j]).id@
            != ports.skip(1)[i - 1].id@ by {
            assert(ports[j + 1].id@ != ports[i].id@);
        }
        law_port_is_found(ports.skip(1), i - 1);
        assert(config::views(ports).skip(1) =~= config::views(ports.skip(1)));
        assert(config::views(ports)[0] == ports[0]@);
    } else {
        assert(config::views(ports)[0] == ports[0]@);
    }
}

// ---------------------------------------------------------------------------
// The mailbox in a tab
// ---------------------------------------------------------------------------

/// What the mailbox replies goes out over the tab's own connection, once, and stands
/// in the tab and in the history. A contact that it reports is logged, and the
/// connection is ended exactly where the reply closes it.
pub proof fn law_mailbox_replies(
    u: UiView,
    k: int,
    port_id: Seq<char>,
    remote: Seq<char>,
    state: crate::mailbox::StateView,
    line: Seq<char>,
    now: Seq<char>,
    conn: ConnectionId,
)
    requires
        0 <= k < u.tabs.len(),
        u.tabs[k].tab.conn_id == Some(conn),
        u.active.contains(port_id),
    ensures
        ({
            let r = crate::mailbox::line_reply(state, u.messages, remote, port_id, line, now);
            let (last, after) = events::commanded(u, k, port_id, remote, state, line, now);
            &&& last == r.close
            &&& r.text.len() > 0 ==> only(
                after.effects,
                own_line_shown(u.tabs[k].id, r.text),
            ) && only(after.effects, own_line_kept(u.tabs[k].tab, r.text))
            &&& r.text.len() > 0 && !r.close ==> only(
                after.effects,
                EffectView::Command {
                    port_id,
                    command: CommandView::Send { id: conn, bytes: encode_utf8(r.text) },
                },
            )
            &&& r.close ==> after.effects.last() == (EffectView::Command {
                port_id,
                command: CommandView::CloseConnection { id: conn },
            }) && after.ui.tabs[k].tab.mailbox_state is None
            &&& r.close && r.text.len() > 0 ==> after.effects[1] == (EffectView::Command {
                port_id,
                command: CommandView::Send { id: conn, bytes: encode_utf8(r.text) },
            })
            &&& !r.close ==> after.ui.tabs[k].tab.mailbox_state == Some(r.state)
            &&& after.ui.messages == crate::mailbox::stored(u.messages, r)
            &&& r.contact is None ==> after.ui.qsos == u.qsos
            &&& r.contact is Some ==> after.ui.qsos == u.qsos.push(r.contact->0)
            &&& after.effects[0] == EffectView::Save
            &&& after.ui.tabs.len() == u.tabs.len()
            &&& forall|i: int|
                0 <= i < u.tabs.len() && i != k ==> #[trigger] after.ui.tabs[i] == u.tabs[i]
        }),
{
    let r = crate::mailbox::line_reply(state, u.messages, remote, port_id, line, now);
    let after = events::commanded(u, k, port_id, remote, state, line, now).1;
    let e = after.effects;
    if r.text.len() > 0 {
        assert(only_at(e, own_line_shown(u.tabs[k].id, r.text), 2));
        assert(only_at(e, own_line_kept(u.tabs[k].tab, r.text), 3));
        if !r.close {
            let command = EffectView::Command {
                port_id,
                command: CommandView::Send { id: conn, bytes: encode_utf8(r.text) },
            };
            assert(only_at(e, command, 1));
        }
    }
}

/// A line that a station enters in the mailbox is answered: what the mailbox replies to
/// it goes out over that connection.
pub proof fn law_mailbox_hears(
    u: UiView,
    port_id: Seq<char>,
    id: ConnectionId,
    line: Seq<char>,
    now: Seq<char>,
    t: TabId,
    k: int,
    state: crate::mailbox::StateView,
)
    requires
        window::bound_tab(u.bound, port_id, id) == Some(t),
        k == window::slot_index(u.tabs, t),
        k < u.tabs.len(),
        u.tabs[k].tab.mailbox_state == Some(state),
        u.tabs[k].tab.mailbox_input.len() == 0,
        u.tabs[k].tab.conn_id == Some(id),
        u.active.contains(port_id),
        text_laws::is_line(line),
        !line.contains('\0'),
    ensures
        ({
            let r = crate::mailbox::line_reply(
                state,
                u.messages,
                text::call_text(u.tabs[k].tab.node),
                port_id,
                line,
                now,
            );
            let after = events::received(
                u,
                port_id,
                id,
                encode_utf8(line + seq!['\n']),
                now,
            );
            &&& r.text.len() > 0 ==> after.effects.contains(
                EffectView::Command {
                    port_id,
                    command: CommandView::Send { id, bytes: encode_utf8(r.text) },
                },
            )
            &&& r.close ==> after.effects.contains(
                EffectView::Command { port_id, command: CommandView::CloseConnection { id } },
            )
            &&& after.ui.messages == crate::mailbox::stored(u.messages, r)
        }),
{
    let s = line + seq!['\n'];
    encode_utf8_valid_utf8(s);
    encode_utf8_decode_utf8(s);
    if s.contains('\0') {
        let i = s.index_of('\0');
        assert(line[i] == '\0');
    }
    text::lemma_without_none(s, '\0');
    window::lemma_slot_index(u.tabs, t);
    let none = Seq::<char>::empty();
    text_laws::law_line_completed(line, none);
    text_laws::law_line_completed(none, none);
    assert(line + seq!['\n'] + none =~= s);
    let tab = u.tabs[k].tab;
    assert(tab.mailbox_input + s =~= s);
    assert(session_tab::complete_lines(none).len() == 0);
    assert(session_tab::complete_lines(s) =~= seq![line]);
    let got = actions::with_tab(u, k, tab.received(s));
    let live = actions::with_tab(
        got,
        k,
        TabView {
            mailbox_input: session_tab::unfinished(tab.mailbox_input + s),
            ..got.tabs[k].tab
        },
    );
    let remote = text::call_text(tab.node);
    let r = crate::mailbox::line_reply(state, u.messages, remote, port_id, line, now);
    let (last, o) = events::commanded(live, k, port_id, remote, state, line, now);
    law_mailbox_replies(live, k, port_id, remote, state, line, now, id);
    let lines = seq![line];
    assert(lines.skip(1) =~= Seq::<Seq<char>>::empty());
    let d = events::driven(live, k, port_id, remote, lines, now);
    reveal_with_fuel(events::driven, 2);
    assert(live.tabs[k].tab.mailbox_state == Some(state));
    assert(lines[0] == line);
    assert(d.ui.messages == o.ui.messages);
    assert(d.effects =~= o.effects);
    let after = events::received(u, port_id, id, encode_utf8(s), now);
    let first = seq![EffectView::Show { tab: t, text: s }] + events::kept(
        tab,
        tab.received_lines(s),
    );
    assert(after.effects == first + d.effects);
    let n = first.len() as int;
    if r.text.len() > 0 {
        let x = EffectView::Command {
            port_id,
            command: CommandView::Send { id, bytes: encode_utf8(r.text) },
        };
        assert(o.effects[1] == x);
        assert(after.effects[n + 1] == x);
    }
    if r.close {
        assert(after.effects[n + o.effects.len() - 1] == o.effects.last());
    }
}

// ---------------------------------------------------------------------------
// Tabs and ports
// ---------------------------------------------------------------------------

/// A new tab stands behind the others, for the port, the node and the path that were
/// asked for, unconnected and with its counters at zero. It is pinned where its port and
/// node are.
pub proof fn law_tab_added(c: AppConfig, u: UiView, p: actions::PrefillView)
    requires
        app_state::entry_with(c.ports@, p.port_id) is Some,
    ensures
        ({
            let (id, o) = actions::added(c, u, p);
            let slot = o.ui.tabs.last();
            let tab = slot.tab;
            &&& id == Some(u.next_tab_id)
            &&& o.ui.tabs.drop_last() == u.tabs
            &&& o.ui.tabs.len() == u.tabs.len() + 1
            &&& slot.id == u.next_tab_id
            &&& tab.port.id == p.port_id
            &&& tab.node == p.remote
            &&& tab.via_raw == p.path
            &&& tab.conn_id is None && tab.connected_since is None && tab.mailbox_state is None
            &&& tab.bytes_sent == 0 && tab.bytes_received == 0 && tab.packets_sent == 0
                && tab.packets_received == 0
            &&& tab.pinned <==> app_state::has_pin(u.pins, p.port_id, p.remote)
            &&& tab.unproto ==> session_tab::sends_unproto(tab.port.config)
            &&& p.unproto && session_tab::sends_unproto(tab.port.config) ==> tab.unproto
            &&& !p.unproto && session_tab::connects(tab.port.config) ==> !tab.unproto
            &&& text::call_text(p.remote).len() > 0 ==> o.effects == seq![
                EffectView::Preview {
                    tab: u.next_tab_id,
                    port_id: p.port_id,
                    remote: text::call_text(p.remote),
                },
            ]
            &&& sends_nothing(o.effects)
        }),
{
    lemma_entry_with(c.ports@, p.port_id);
    let o = actions::added(c, u, p).1;
    assert(o.ui.tabs.drop_last() =~= u.tabs);
}

/// A tab is titled by its port and its node.
pub proof fn law_tab_title(t: TabView)
    ensures
        text::trimmed(t.node).len() > 0 && !t.unproto ==> actions::title_of(t) == t.port.name
            + ": "@ + t.node,
        text::trimmed(t.node).len() == 0 && !t.unproto ==> actions::title_of(t) == t.port.name,
        t.unproto ==> actions::title_of(t) == actions::title_of(TabView { unproto: false, ..t })
            + " (unproto)"@,
{
    let plain = TabView { unproto: false, ..t };
    let base = if text::trimmed(t.node).len() == 0 {
        t.port.name
    } else {
        t.port.name + ": "@ + t.node
    };
    assert(base + Seq::<char>::empty() =~= base);
    assert(actions::title_of(plain) =~= base);
}

/// A pin that is set remembers the tab's port, its node and its path.
pub proof fn law_pin_remembers(u: UiView, id: TabId, k: int)
    requires
        k == window::slot_index(u.tabs, id),
        k < u.tabs.len(),
        text::call_text(u.tabs[k].tab.node).len() > 0,
    ensures
        ({
            let tab = u.tabs[k].tab;
            let o = actions::pinned(u, id, true);
            &&& o.ui.pins.last().port_id == tab.port.id
            &&& o.ui.pins.last().remote == text::call_text(tab.node)
            &&& o.ui.pins.last().via == session_tab::path_text(tab.port.config, tab.via_raw)
            &&& o.ui.tabs[k].tab.pinned
            &&& o.effects == seq![EffectView::Save]
            &&& only_tab_changed(UiView { pins: o.ui.pins, ..u }, o.ui, k)
        }),
{
    window::lemma_slot_index(u.tabs, id);
}

/// A port is started once: where it is configured and not up, and then it counts as up.
pub proof fn law_port_started(c: AppConfig, u: UiView, id: Seq<char>)
    ensures
        ({
            let o = actions::started(c, u, id);
            let fresh = app_state::entry_with(c.ports@, id) is Some && !u.active.contains(id);
            &&& fresh ==> only(o.effects, EffectView::Spawn { port_id: id }) && o.ui.active
                == u.active.push(id)
            &&& !fresh ==> o.ui == u && o.effects.len() == 0
            &&& o.ui == (UiView { active: o.ui.active, ..u })
            &&& sends_nothing(o.effects)
        }),
{
    let o = actions::started(c, u, id);
    if app_state::entry_with(c.ports@, id) is Some && !u.active.contains(id) {
        assert(only_at(o.effects, EffectView::Spawn { port_id: id }, 1));
    }
}

/// A port that goes down takes nothing of the others with it: a tab that has no
/// connection over it stays as it is, and so do the other ports.
pub proof fn law_port_goes_down_alone(
    u: UiView,
    port_id: Seq<char>,
    reason: Option<Seq<char>>,
    other: Seq<char>,
)
    requires
        other != port_id,
    ensures
        ({
            let after = events::went_down(u, port_id, reason).ui;
            &&& forall|i: int|
                0 <= i < u.tabs.len() && !events::bound_on(
                    u.bound,
                    port_id,
                    (#[trigger] u.tabs[i]).id,
                ) ==> after.tabs[i] == u.tabs[i]
            &&& u.active.contains(other) ==> after.active.contains(other)
            &&& u.confirmed.contains(other) ==> after.confirmed.contains(other)
            &&& after.book == u.book && after.messages == u.messages && after.qsos == u.qsos
                && after.pins == u.pins
        }),
{
    if u.active.contains(other) {
        window_laws::lemma_id_kept(u.active, port_id, other);
    }
    if u.confirmed.contains(other) {
        window_laws::lemma_id_kept(u.confirmed, port_id, other);
    }
}

/// A station that a port heard stands in the address book as heard now, and a node's
/// broadcast names its stations there.
pub proof fn law_heard_stations_recorded(
    c: AppConfig,
    u: UiView,
    port_id: Seq<char>,
    callsign: Seq<char>,
    alias: Seq<char>,
    nodes: Seq<port::NodeView>,
    now: Seq<char>,
    secs: u64,
)
    requires
        text::call_text(callsign).len() > 0,
        app_state::can_count(u.book, callsign),
    ensures
        record_laws::heard_at(
            events::after_event(
                c,
                u,
                port_id,
                port::EventView::StationHeard { callsign },
                now,
                secs,
            ).ui.book,
            text::call_text(callsign),
            now,
        ),
        ({
            let after = events::after_event(
                c,
                u,
                port_id,
                port::EventView::NodesBroadcast {
                    from: callsign,
                    sender_alias: alias,
                    entries: nodes,
                },
                now,
                secs,
            );
            &&& record_laws::heard_at(after.ui.book, text::call_text(callsign), now)
            &&& forall|i: int|
                0 <= i < nodes.len() && text::call_text((#[trigger] nodes[i]).callsign).len() > 0
                    ==> record_laws::known_at(
                    after.ui.book,
                    text::call_text(nodes[i].callsign),
                    now,
                )
            &&& after.effects == seq![EffectView::Save]
        }),
{
    let i = record_laws::law_heard_is_recorded(u.book, callsign, now);
    let book = app_state::after_heard(u.book, callsign, now);
    assert(book[i].callsign == text::call_text(callsign));
    record_laws::law_broadcast_is_recorded(u.book, callsign, alias, nodes, now);
}

/// What a port reports of its connection is shown under its number, and its coming up
/// and going down under its name.
pub proof fn law_port_reports_shown(
    c: AppConfig,
    u: UiView,
    port_id: Seq<char>,
    id: ConnectionId,
    now: Seq<char>,
    secs: u64,
    reason: Seq<char>,
)
    ensures
        events::after_event(c, u, port_id, port::EventView::PortConnected, now, secs).effects
            == seq![
            EffectView::Monitor { port_id, line: "["@ + port_id + "] "@ + "port connected"@ },
        ],
        events::after_event(
            c,
            u,
            port_id,
            port::EventView::PortConnected,
            now,
            secs,
        ).ui.confirmed.contains(port_id),
        events::after_event(
            c,
            u,
            port_id,
            port::EventView::PortDisconnected { reason: Some(reason) },
            now,
            secs,
        ).effects == seq![
            EffectView::Monitor {
                port_id,
                line: "["@ + port_id + "] "@ + ("port disconnected"@ + (": "@ + reason)),
            },
        ],
        events::after_event(
            c,
            u,
            port_id,
            port::EventView::PortError { message: reason },
            now,
            secs,
        ).effects[0] == (EffectView::Monitor {
            port_id,
            line: "["@ + port_id + "] "@ + ("ERROR: "@ + reason),
        }),
{
    let after = events::after_event(c, u, port_id, port::EventView::PortConnected, now, secs);
    assert(after.ui.confirmed.last() == port_id);
}

/// A greeting of the user's own is sent as it is written, but for the placeholders: the
/// callsign that answers stands for the node.
pub proof fn law_own_greeting(
    c: AppConfig,
    port_id: Seq<char>,
    to: Option<Seq<char>>,
    a: Seq<char>,
    b: Seq<char>,
)
    requires
        means_mailbox(c, port_id, to),
        c.mailbox.intro_message@ == a + "$$NODE"@ + b,
        !a.contains('$'),
        !b.contains('$'),
        !text::call_text(c.mailbox.respond_call@).contains('$'),
        !text::or_empty(text::opt_view(c.ui.name)).contains('$'),
        !text::or_empty(text::opt_view(c.ui.location)).contains('$'),
    ensures
        events::answer_for(c, port_id, to) == (events::Answer::Mailbox {
            greeting: a + text::call_text(c.mailbox.respond_call@) + b,
        }),
{
    reveal_strlit("$$NODE");
    let call = text::call_text(c.mailbox.respond_call@);
    crate::template_vars::law_placeholder_replaced(events::vars_for(c, call), a, b);
}

/// Placeholders stand for the profile: the name, the place and the home mailbox that are
/// set there, and the callsign that is meant.
pub proof fn law_profile_in_texts(c: AppConfig, node: Seq<char>)
    ensures
        events::vars_for(c, node).node == node,
        events::vars_for(c, node).name == text::or_empty(text::opt_view(c.ui.name)),
        events::vars_for(c, node).loc == text::or_empty(text::opt_view(c.ui.location)),
        events::vars_for(c, node).bbs_home == text::or_empty(text::opt_view(c.ui.home_bbs)),
        crate::beacons::profile_vars(c) == events::vars_for(
            c,
            text::or_empty(text::opt_view(c.ui.default_call)),
        ),
{
}

/// What is sent stands in the traffic view too: the station that it went to, and the
/// line; of an unconnected line also the path.
pub proof fn law_sent_line_in_traffic(u: UiView, id: TabId, t: Seq<char>, k: int, conn: ConnectionId)
    requires
        t.len() > 0,
        k == window::slot_index(u.tabs, id),
        k < u.tabs.len(),
        u.active.contains(u.tabs[k].tab.port.id),
    ensures
        !u.tabs[k].tab.unproto && u.tabs[k].tab.conn_id == Some(conn) && session_tab::connects(
            u.tabs[k].tab.port.config,
        ) ==> actions::entered(u, id, t).1.effects.last() == (EffectView::Monitor {
            port_id: u.tabs[k].tab.port.id,
            line: "["@ + u.tabs[k].tab.port.name + "] "@ + ("TX > "@ + u.tabs[k].tab.node + ": "@
                + t),
        }),
        u.tabs[k].tab.unproto && text::call_text(u.tabs[k].tab.node).len() > 0 ==> ({
            let tab = u.tabs[k].tab;
            let path = session_tab::path_of(tab.via_raw);
            actions::entered(u, id, t).1.effects.last() == (EffectView::Monitor {
                port_id: tab.port.id,
                line: "["@ + tab.port.name + "] "@ + ("TX unproto > "@ + text::call_text(tab.node)
                    + (if path.len() == 0 {
                    Seq::empty()
                } else {
                    " via "@ + text::joined(path, ","@)
                }) + ": "@ + t),
            })
        }),
{
}

/// A port that knows no nodes is sent the line that was typed in advance, as soon as its
/// connection opens; without such a line nothing is sent. It is no contact.
pub proof fn law_first_line_sent(
    c: AppConfig,
    u: UiView,
    port_id: Seq<char>,
    o: OpenedView,
    now: Seq<char>,
    secs: u64,
    t: TabId,
    k: int,
)
    requires
        !events::needs_node(c, port_id),
        u.active.contains(port_id),
        window::pending_tab(u.pending, port_id, Seq::empty()) == Some(t),
        k == window::slot_index(u.tabs, t),
        k < u.tabs.len(),
    ensures
        ({
            let after = events::opened(c, u, port_id, o, now, secs);
            let line = u.tabs[k].tab.via_raw;
            &&& after.ui.tabs[k].tab.conn_id == Some(o.id)
            &&& after.ui.qsos == u.qsos
            &&& line.len() > 0 ==> only(
                after.effects,
                EffectView::Command {
                    port_id,
                    command: CommandView::Send { id: o.id, bytes: encode_utf8(line + "\n"@) },
                },
            )
            &&& line.len() == 0 ==> sends_nothing(after.effects)
        }),
{
    window::lemma_slot_index(u.tabs, t);
    let after = events::opened(c, u, port_id, o, now, secs);
    let line = u.tabs[k].tab.via_raw;
    if line.len() > 0 {
        let x = EffectView::Command {
            port_id,
            command: CommandView::Send { id: o.id, bytes: encode_utf8(line + "\n"@) },
        };
        assert(only_at(after.effects, x, 0));
    }
}

} // verus!
