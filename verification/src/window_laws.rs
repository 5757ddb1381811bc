//! What holds of the window whatever happens.

use vstd::prelude::*;

use crate::actions::{self, PrefillView};
use crate::app_state;
use crate::config::AppConfig;
use crate::events::{self, OpenedView};
use crate::port::{ConnectionId, EventView};
use crate::session_tab::{self, TabId, TabView};
use crate::startup;
use crate::text;
use crate::window::{self, BoundView, EffectView, Effects, PendingView, SlotView, UiView};

verus! {

// ---------------------------------------------------------------------------
// The numbers of tabs
// ---------------------------------------------------------------------------

/// No two tabs have the same number, and the next one is new.
pub open spec fn numbered(u: UiView) -> bool {
    &&& forall|i: int, j: int|
        0 <= i < j < u.tabs.len() ==> (#[trigger] u.tabs[i]).id != (#[trigger] u.tabs[j]).id
    &&& forall|i: int| 0 <= i < u.tabs.len() ==> (#[trigger] u.tabs[i]).id < u.next_tab_id
}

/// The two states have the same tabs, by their numbers.
pub open spec fn same_numbers(a: UiView, b: UiView) -> bool {
    &&& a.next_tab_id == b.next_tab_id
    &&& a.tabs.len() == b.tabs.len()
    &&& forall|i: int| 0 <= i < a.tabs.len() ==> (#[trigger] a.tabs[i]).id == b.tabs[i].id
}

/// In both states the same connections are bound and awaited.
pub open spec fn same_links(a: UiView, b: UiView) -> bool {
    a.bound == b.bound && a.pending == b.pending
}

/// A tab with this number is open.
pub open spec fn is_open(u: UiView, id: TabId) -> bool {
    window::slot_index(u.tabs, id) < u.tabs.len()
}

/// Every connection that is bound or awaited leads to a tab that is open.
pub open spec fn linked(u: UiView) -> bool {
    &&& forall|i: int| 0 <= i < u.bound.len() ==> is_open(u, (#[trigger] u.bound[i]).tab)
    &&& forall|i: int| 0 <= i < u.pending.len() ==> is_open(u, (#[trigger] u.pending[i]).tab)
}

/// What holds of the window at every moment.
pub open spec fn orderly(u: UiView) -> bool {
    numbered(u) && linked(u)
}

proof fn lemma_same_numbers(a: UiView, b: UiView)
    requires
        same_numbers(a, b),
        numbered(a),
    ensures
        numbered(b),
{
    assert forall|i: int| 0 <= i < b.tabs.len() implies (#[trigger] b.tabs[i]).id
        < b.next_tab_id by {
        assert(a.tabs[i].id == b.tabs[i].id);
    }
    assert forall|i: int, j: int| 0 <= i < j < b.tabs.len() implies (#[trigger] b.tabs[i]).id != (
    #[trigger] b.tabs[j]).id by {
        assert(a.tabs[i].id == b.tabs[i].id);
        assert(a.tabs[j].id == b.tabs[j].id);
    }
}

proof fn lemma_chain(a: UiView, b: UiView, d: UiView)
    requires
        same_numbers(a, b),
        same_numbers(b, d),
    ensures
        same_numbers(a, d),
{
    assert forall|i: int| 0 <= i < a.tabs.len() implies (#[trigger] a.tabs[i]).id
        == d.tabs[i].id by {
        assert(b.tabs[i].id == d.tabs[i].id);
    }
}

/// A new tab has a number of its own.
pub proof fn law_added_tab_is_new(c: AppConfig, u: UiView, p: PrefillView)
    requires
        numbered(u),
        u.next_tab_id < u64::MAX,
    ensures
        numbered(actions::added(c, u, p).1.ui),
        actions::added(c, u, p).0 matches Some(id) ==> window::slot_index(
            actions::added(c, u, p).1.ui.tabs,
            id,
        ) == u.tabs.len(),
{
    let after = actions::added(c, u, p).1.ui;
    if actions::added(c, u, p).0 is Some {
        let id = u.next_tab_id;
        window::lemma_slot_index(after.tabs, id);
        assert(after.tabs[u.tabs.len() as int].id == id);
        let k = window::slot_index(after.tabs, id);
        if k < u.tabs.len() {
            assert(after.tabs[k] == u.tabs[k]);
        }
        assert forall|i: int, j: int| 0 <= i < j < after.tabs.len() implies (
        #[trigger] after.tabs[i]).id != (#[trigger] after.tabs[j]).id by {
            assert(after.tabs[i] == u.tabs[i]);
            if j < u.tabs.len() {
                assert(after.tabs[j] == u.tabs[j]);
            }
        }
        assert forall|i: int| 0 <= i < after.tabs.len() implies (#[trigger] after.tabs[i]).id
            < after.next_tab_id by {
            if i < u.tabs.len() {
                assert(after.tabs[i] == u.tabs[i]);
            }
        }
    }
}

/// Closing a tab takes away that tab and no other, and nothing is bound to it or
/// awaited by it any more.
pub proof fn law_closed_tab_is_gone(u: UiView, id: TabId)
    requires
        numbered(u),
    ensures
        ({
            let after = actions::closed_tab(u, id).ui;
            &&& numbered(after)
            &&& forall|i: int| 0 <= i < after.tabs.len() ==> (#[trigger] after.tabs[i]).id != id
            &&& forall|i: int| 0 <= i < after.bound.len() ==> (#[trigger] after.bound[i]).tab != id
            &&& forall|i: int|
                0 <= i < after.pending.len() ==> (#[trigger] after.pending[i]).tab != id
            &&& forall|i: int|
                0 <= i < u.tabs.len() && (#[trigger] u.tabs[i]).id != id ==> after.tabs.contains(
                    u.tabs[i],
                )
        }),
{
    let after = actions::closed_tab(u, id).ui;
    let k = window::slot_index(u.tabs, id);
    window::lemma_slot_index(u.tabs, id);
    lemma_bound_tab_gone(u.bound, id);
    lemma_pending_tab_gone(u.pending, id);
    if k < u.tabs.len() {
        assert(after.tabs == u.tabs.remove(k));
        assert forall|i: int| 0 <= i < after.tabs.len() implies (#[trigger] after.tabs[i]).id != id
            && after.tabs[i].id < after.next_tab_id by {
            if i < k {
                assert(after.tabs[i] == u.tabs[i]);
            } else {
                assert(after.tabs[i] == u.tabs[i + 1]);
                assert(u.tabs[k].id != u.tabs[i + 1].id);
            }
        }
        assert forall|i: int, j: int| 0 <= i < j < after.tabs.len() implies (
        #[trigger] after.tabs[i]).id != (#[trigger] after.tabs[j]).id by {
            let a = if i < k {
                i
            } else {
                i + 1
            };
            let b = if j < k {
                j
            } else {
                j + 1
            };
            assert(after.tabs[i] == u.tabs[a]);
            assert(after.tabs[j] == u.tabs[b]);
            assert(u.tabs[a].id != u.tabs[b].id);
        }
        assert forall|i: int| 0 <= i < u.tabs.len() && (#[trigger] u.tabs[i]).id
            != id implies after.tabs.contains(u.tabs[i]) by {
            let a = if i < k {
                i
            } else {
                i - 1
            };
            assert(after.tabs[a] == u.tabs[i]);
        }
    } else {
        assert forall|i: int| 0 <= i < u.tabs.len() && (#[trigger] u.tabs[i]).id
            != id implies after.tabs.contains(u.tabs[i]) by {
            assert(after.tabs[i] == u.tabs[i]);
        }
    }
}

proof fn lemma_bound_tab_gone(v: Seq<BoundView>, tab: TabId)
    ensures
        forall|i: int|
            0 <= i < window::without_bound_tab(v, tab).len() ==> (
            #[trigger] window::without_bound_tab(v, tab)[i]).tab != tab,
    decreases v.len(),
{
    if v.len() > 0 {
        let before = window::without_bound_tab(v.drop_last(), tab);
        lemma_bound_tab_gone(v.drop_last(), tab);
        assert forall|i: int| 0 <= i < window::without_bound_tab(v, tab).len() implies (
        #[trigger] window::without_bound_tab(v, tab)[i]).tab != tab by {
            if i < before.len() {
                assert(before[i].tab != tab);
            }
        }
    }
}

proof fn lemma_pending_tab_gone(v: Seq<PendingView>, tab: TabId)
    ensures
        forall|i: int|
            0 <= i < window::without_pending_tab(v, tab).len() ==> (
            #[trigger] window::without_pending_tab(v, tab)[i]).tab != tab,
    decreases v.len(),
{
    if v.len() > 0 {
        let before = window::without_pending_tab(v.drop_last(), tab);
        lemma_pending_tab_gone(v.drop_last(), tab);
        assert forall|i: int| 0 <= i < window::without_pending_tab(v, tab).len() implies (
        #[trigger] window::without_pending_tab(v, tab)[i]).tab != tab by {
            if i < before.len() {
                assert(before[i].tab != tab);
            }
        }
    }
}

proof fn lemma_driven_numbers(
    u: UiView,
    k: int,
    port_id: Seq<char>,
    remote: Seq<char>,
    lines: Seq<Seq<char>>,
    now: Seq<char>,
)
    requires
        0 <= k < u.tabs.len(),
    ensures
        same_numbers(u, events::driven(u, k, port_id, remote, lines, now).ui),
        same_links(u, events::driven(u, k, port_id, remote, lines, now).ui),
        forall|i: int|
            0 <= i < u.tabs.len() && i != k ==> events::driven(u,
                k,
                port_id,
                remote,
                lines,
                now,
            ).ui.tabs[i] == #[trigger] u.tabs[i],
    decreases lines.len(),
{
    if lines.len() > 0 {
        match u.tabs[k].tab.mailbox_state {
            Some(state) => {
                let (last, o) = events::commanded(u,
                    k,
                    port_id,
                    remote,
                    state,
                    lines[0],
                    now,
                );
                assert(same_numbers(u, o.ui));
                assert forall|i: int| 0 <= i < u.tabs.len() && i != k implies o.ui.tabs[i]
                    == #[trigger] u.tabs[i] by {}
                if !last {
                    lemma_driven_numbers(o.ui, k, port_id, remote, lines.skip(1), now);
                    let end = events::driven(o.ui, k, port_id, remote, lines.skip(1), now).ui;
                    lemma_chain(u, o.ui, end);
                    assert forall|i: int| 0 <= i < u.tabs.len() && i != k implies end.tabs[i]
                        == #[trigger] u.tabs[i] by {
                        assert(o.ui.tabs[i] == u.tabs[i]);
                    }
                }
            },
            None => {},
        }
    }
}

/// What comes in over one connection changes the tab of that connection alone.
pub proof fn law_data_stays_in_its_tab(
    u: UiView,
    port_id: Seq<char>,
    id: ConnectionId,
    bytes: Seq<u8>,
    now: Seq<char>,
)
    ensures
        same_numbers(u, events::received(u, port_id, id, bytes, now).ui),
        same_links(u, events::received(u, port_id, id, bytes, now).ui),
        forall|i: int|
            0 <= i < u.tabs.len() && window::bound_tab(u.bound, port_id, id) != Some(
                (#[trigger] u.tabs[i]).id,
            ) ==> events::received(u, port_id, id, bytes, now).ui.tabs[i] == u.tabs[i],
{
    match window::bound_tab(u.bound, port_id, id) {
        Some(t) => {
            let k = window::slot_index(u.tabs, t);
            window::lemma_slot_index(u.tabs, t);
            if k < u.tabs.len() {
                let tab = u.tabs[k].tab;
                let shown = text::without(text::shown_text(bytes), '\0');
                let v = actions::with_tab(u, k, tab.received(shown));
                let after = events::received(u, port_id, id, bytes, now).ui;
                assert(same_numbers(u, v));
                if v.tabs[k].tab.mailbox_state is Some {
                    let w = actions::with_tab(
                        v,
                        k,
                        TabView {
                            mailbox_input: session_tab::unfinished(
                                v.tabs[k].tab.mailbox_input + shown,
                            ),
                            ..v.tabs[k].tab
                        },
                    );
                    assert(same_numbers(v, w));
                    lemma_driven_numbers(
                        w,
                        k,
                        port_id,
                        text::call_text(v.tabs[k].tab.node),
                        session_tab::complete_lines(v.tabs[k].tab.mailbox_input + shown),
                        now,
                    );
                    lemma_chain(u, v, w);
                    lemma_chain(u, w, after);
                    assert forall|i: int| 0 <= i < u.tabs.len() && window::bound_tab(
                        u.bound,
                        port_id,
                        id,
                    ) != Some((#[trigger] u.tabs[i]).id) implies after.tabs[i] == u.tabs[i] by {
                        assert(i != k);
                        assert(w.tabs[i] == u.tabs[i]);
                    }
                } else {
                    assert(after == v);
                    assert forall|i: int| 0 <= i < u.tabs.len() && window::bound_tab(
                        u.bound,
                        port_id,
                        id,
                    ) != Some((#[trigger] u.tabs[i]).id) implies after.tabs[i] == u.tabs[i] by {
                        assert(i != k);
                    }
                }
            }
        },
        None => {},
    }
}

proof fn lemma_connected_numbers(
    c: AppConfig,
    u: UiView,
    k: int,
    port_id: Seq<char>,
    o: OpenedView,
    incoming: bool,
    now: Seq<char>,
    secs: u64,
)
    requires
        0 <= k < u.tabs.len(),
    ensures
        same_numbers(u, events::connected(c, u, k, port_id, o, incoming, now, secs).ui),
        same_links(u, events::connected(c, u, k, port_id, o, incoming, now, secs).ui),
{
}

proof fn lemma_numbers_stay_apart(
    c: AppConfig,
    u: UiView,
    port_id: Seq<char>,
    e: EventView,
    now: Seq<char>,
    secs: u64,
)
    requires
        numbered(u),
        events::room(u, e),
    ensures
        numbered(events::after_event(c, u, port_id, e, now, secs).ui),
{
    let after = events::after_event(c, u, port_id, e, now, secs).ui;
    match e {
        EventView::Data { id, bytes } => {
            law_data_stays_in_its_tab(u, port_id, id, bytes, now);
            lemma_same_numbers(u, after);
        },
        EventView::ConnectionOpened { id, label, to } => {
            let o = OpenedView { id, label, to };
            lemma_opened_numbers(c, u, port_id, o, now, secs);
        },
        EventView::ConnectionClosed { id } => {
            assert(same_numbers(u, after)) by {
                match window::bound_tab(u.bound, port_id, id) {
                    Some(t) => {
                        window::lemma_slot_index(u.tabs, t);
                    },
                    None => {},
                }
            }
            lemma_same_numbers(u, after);
        },
        _ => {
            assert(same_numbers(u, after));
            lemma_same_numbers(u, after);
        },
    }
}

proof fn lemma_opened_numbers(
    c: AppConfig,
    u: UiView,
    port_id: Seq<char>,
    o: OpenedView,
    now: Seq<char>,
    secs: u64,
)
    requires
        numbered(u),
        u.next_tab_id < u64::MAX,
    ensures
        numbered(events::opened(c, u, port_id, o, now, secs).ui),
{
    let needs = events::needs_node(c, port_id);
    let key = if needs {
        o.label
    } else {
        Seq::empty()
    };
    let p = PrefillView { port_id, remote: o.label, path: Seq::empty(), unproto: false };
    let waiting = window::pending_tab(u.pending, port_id, key);
    let placed = match waiting {
        Some(t) => (
            Some(t),
            window::outcome(
                UiView { pending: window::without_pending(u.pending, port_id, key), ..u },
                Seq::empty(),
            ),
        ),
        None => actions::added(c, u, p),
    };
    if waiting is None {
        law_added_tab_is_new(c, u, p);
    } else {
        assert(same_numbers(u, placed.1.ui));
        lemma_same_numbers(u, placed.1.ui);
    }
    match placed.0 {
        Some(t) => {
            let bound = UiView {
                bound: window::after_bind(placed.1.ui.bound, port_id, o.id, t),
                ..placed.1.ui
            };
            let k = window::slot_index(bound.tabs, t);
            window::lemma_slot_index(bound.tabs, t);
            assert(same_numbers(placed.1.ui, bound));
            lemma_same_numbers(placed.1.ui, bound);
            let after = events::opened(c, u, port_id, o, now, secs).ui;
            if k < bound.tabs.len() {
                lemma_connected_numbers(c, bound, k, port_id, o, waiting is None, now, secs);
                assert(same_numbers(bound, after));
            } else {
                assert(same_numbers(bound, after));
            }
            lemma_same_numbers(bound, after);
        },
        None => {},
    }
}

// ---------------------------------------------------------------------------
// Ports that go down
// ---------------------------------------------------------------------------

/// A tab outlives its port: when a port goes down every tab stays, with its node
/// and its counters, and those that were connected over it are not any more.
pub proof fn law_tabs_outlive_ports(u: UiView, port_id: Seq<char>, reason: Option<Seq<char>>)
    ensures
        ({
            let after = events::went_down(u, port_id, reason).ui;
            &&& same_numbers(u, after)
            &&& forall|i: int|
                0 <= i < u.tabs.len() ==> {
                    let b = (#[trigger] after.tabs[i]).tab;
                    &&& b == (TabView {
                        conn_id: b.conn_id,
                        connected_since: b.connected_since,
                        ..u.tabs[i].tab
                    })
                    &&& events::bound_on(u.bound, port_id, u.tabs[i].id) ==> b.conn_id is None
                }
            &&& !after.active.contains(port_id)
            &&& !after.confirmed.contains(port_id)
            &&& forall|i: int|
                0 <= i < after.bound.len() ==> (#[trigger] after.bound[i]).port_id != port_id
            &&& forall|i: int|
                0 <= i < after.pending.len() ==> (#[trigger] after.pending[i]).port_id != port_id
        }),
{
    lemma_id_gone(u.active, port_id);
    lemma_id_gone(u.confirmed, port_id);
    lemma_bound_port_gone(u.bound, port_id);
    lemma_pending_port_gone(u.pending, port_id);
}

proof fn lemma_id_gone(v: Seq<Seq<char>>, id: Seq<char>)
    ensures
        !window::without_id(v, id).contains(id),
    decreases v.len(),
{
    if v.len() > 0 {
        let before = window::without_id(v.drop_last(), id);
        lemma_id_gone(v.drop_last(), id);
        let after = window::without_id(v, id);
        assert forall|i: int| 0 <= i < after.len() implies after[i] != id by {
            if i < before.len() {
                assert(before.contains(before[i]));
            }
        }
    }
}

proof fn lemma_bound_port_gone(v: Seq<BoundView>, port_id: Seq<char>)
    ensures
        forall|i: int|
            0 <= i < window::without_bound_port(v, port_id).len() ==> (
            #[trigger] window::without_bound_port(v, port_id)[i]).port_id != port_id,
    decreases v.len(),
{
    if v.len() > 0 {
        let before = window::without_bound_port(v.drop_last(), port_id);
        lemma_bound_port_gone(v.drop_last(), port_id);
        assert forall|i: int| 0 <= i < window::without_bound_port(v, port_id).len() implies (
        #[trigger] window::without_bound_port(v, port_id)[i]).port_id != port_id by {
            if i < before.len() {
                assert(before[i].port_id != port_id);
            }
        }
    }
}

proof fn lemma_pending_port_gone(v: Seq<PendingView>, port_id: Seq<char>)
    ensures
        forall|i: int|
            0 <= i < window::without_pending_port(v, port_id).len() ==> (
            #[trigger] window::without_pending_port(v, port_id)[i]).port_id != port_id,
    decreases v.len(),
{
    if v.len() > 0 {
        let before = window::without_pending_port(v.drop_last(), port_id);
        lemma_pending_port_gone(v.drop_last(), port_id);
        assert forall|i: int| 0 <= i < window::without_pending_port(v, port_id).len() implies (
        #[trigger] window::without_pending_port(v, port_id)[i]).port_id != port_id by {
            if i < before.len() {
                assert(before[i].port_id != port_id);
            }
        }
    }
}

/// An error of a port that is up changes nothing; one of a port that never came up
/// means that it is not up.
pub proof fn law_errors(u: UiView, port_id: Seq<char>, message: Seq<char>)
    ensures
        u.confirmed.contains(port_id) ==> events::erred(u, port_id, message).ui == u,
        !u.confirmed.contains(port_id) ==> !events::erred(
            u,
            port_id,
            message,
        ).ui.active.contains(port_id),
        forall|other: Seq<char>|
            other != port_id && u.active.contains(other) ==> #[trigger] events::erred(
                u,
                port_id,
                message,
            ).ui.active.contains(other),
{
    lemma_id_gone(u.active, port_id);
    assert forall|other: Seq<char>|
        other != port_id && u.active.contains(other) implies #[trigger] events::erred(
        u,
        port_id,
        message,
    ).ui.active.contains(other) by {
        lemma_id_kept(u.active, port_id, other);
    }
}

pub proof fn lemma_id_kept(v: Seq<Seq<char>>, id: Seq<char>, other: Seq<char>)
    requires
        v.contains(other),
        other != id,
    ensures
        window::without_id(v, id).contains(other),
    decreases v.len(),
{
    let i = v.index_of(other);
    let before = window::without_id(v.drop_last(), id);
    let after = window::without_id(v, id);
    if v.last() == other {
        assert(after[before.len() as int] == other);
    } else {
        let j = choose|j: int| 0 <= j < v.len() && v[j] == other;
        assert(v.drop_last()[j] == other);
        lemma_id_kept(v.drop_last(), id, other);
        let m = choose|m: int| 0 <= m < before.len() && before[m] == other;
        assert(after[m] == other);
    }
}

// ---------------------------------------------------------------------------
// Connections
// ---------------------------------------------------------------------------

/// A connection that opened on a configured port is bound to a tab that exists, and
/// that tab is connected.
pub proof fn law_opened_is_bound(
    c: AppConfig,
    u: UiView,
    port_id: Seq<char>,
    o: OpenedView,
    now: Seq<char>,
    secs: u64,
)
    requires
        orderly(u),
        u.next_tab_id < u64::MAX,
        app_state::entry_with(c.ports@, port_id) is Some,
    ensures
        ({
            let after = events::opened(c, u, port_id, o, now, secs).ui;
            &&& window::bound_tab(after.bound, port_id, o.id) matches Some(t)
            &&& 0 <= window::slot_index(after.tabs, t) < after.tabs.len()
            &&& after.tabs[window::slot_index(after.tabs, t)].tab.conn_id == Some(o.id)
        }),
{
    let needs = events::needs_node(c, port_id);
    let key = if needs {
        o.label
    } else {
        Seq::empty()
    };
    let p = PrefillView { port_id, remote: o.label, path: Seq::empty(), unproto: false };
    let waiting = window::pending_tab(u.pending, port_id, key);
    let placed = match waiting {
        Some(t) => (
            Some(t),
            window::outcome(
                UiView { pending: window::without_pending(u.pending, port_id, key), ..u },
                Seq::empty(),
            ),
        ),
        None => actions::added(c, u, p),
    };
    if waiting is None {
        law_added_tab_is_new(c, u, p);
    } else {
        lemma_pending_listed(u.pending, port_id, key);
    }
    let t = placed.0->0;
    let bound = UiView {
        bound: window::after_bind(placed.1.ui.bound, port_id, o.id, t),
        ..placed.1.ui
    };
    let k = window::slot_index(bound.tabs, t);
    window::lemma_slot_index(bound.tabs, t);
    assert(k < bound.tabs.len());
    let con = events::connected(c, bound, k, port_id, o, waiting is None, now, secs).ui;
    lemma_connected_numbers(c, bound, k, port_id, o, waiting is None, now, secs);
    let after = events::opened(c, u, port_id, o, now, secs).ui;
    assert(after.tabs == con.tabs);
    assert(con.tabs[k].tab.conn_id == Some(o.id));
    assert(con.bound == bound.bound);
    lemma_same_index(bound.tabs, con.tabs, t);
    lemma_bound_now(placed.1.ui.bound, port_id, o.id, t);
}

proof fn lemma_same_index(a: Seq<SlotView>, b: Seq<SlotView>, t: TabId)
    requires
        a.len() == b.len(),
        forall|i: int| 0 <= i < a.len() ==> (#[trigger] a[i]).id == b[i].id,
    ensures
        window::slot_index(a, t) == window::slot_index(b, t),
    decreases a.len(),
{
    if a.len() > 0 {
        assert(a[0].id == b[0].id);
        assert forall|i: int| 0 <= i < a.skip(1).len() implies (#[trigger] a.skip(1)[i]).id
            == b.skip(1)[i].id by {
            assert(a[i + 1].id == b[i + 1].id);
        }
        lemma_same_index(a.skip(1), b.skip(1), t);
    }
}

proof fn lemma_pending_listed(v: Seq<PendingView>, port_id: Seq<char>, remote: Seq<char>)
    ensures
        window::pending_tab(v, port_id, remote) matches Some(t) ==> exists|i: int|
            0 <= i < v.len() && (#[trigger] v[i]).tab == t,
    decreases v.len(),
{
    if v.len() > 0 {
        if v[0].port_id == port_id && v[0].remote == remote {
        } else {
            lemma_pending_listed(v.skip(1), port_id, remote);
            match window::pending_tab(v.skip(1), port_id, remote) {
                Some(t) => {
                    let i = choose|i: int| 0 <= i < v.skip(1).len() && (#[trigger] v.skip(
                        1,
                    )[i]).tab == t;
                    assert(v[i + 1].tab == t);
                },
                None => {},
            }
        }
    }
}

proof fn lemma_not_bound(v: Seq<BoundView>, port_id: Seq<char>, conn: ConnectionId)
    requires
        forall|i: int|
            0 <= i < v.len() ==> !((#[trigger] v[i]).port_id == port_id && v[i].conn == conn),
    ensures
        window::bound_tab(v, port_id, conn) is None,
    decreases v.len(),
{
    if v.len() > 0 {
        assert(!(v[0].port_id == port_id && v[0].conn == conn));
        assert forall|i: int| 0 <= i < v.skip(1).len() implies !((#[trigger] v.skip(1)[i]).port_id
            == port_id && v.skip(1)[i].conn == conn) by {
            assert(!(v[i + 1].port_id == port_id && v[i + 1].conn == conn));
        }
        lemma_not_bound(v.skip(1), port_id, conn);
    }
}

proof fn lemma_unbound(v: Seq<BoundView>, port_id: Seq<char>, conn: ConnectionId)
    ensures
        forall|i: int|
            0 <= i < window::without_bound(v, port_id, conn).len() ==> !((
            #[trigger] window::without_bound(v, port_id, conn)[i]).port_id == port_id
                && window::without_bound(v, port_id, conn)[i].conn == conn),
    decreases v.len(),
{
    if v.len() > 0 {
        let before = window::without_bound(v.drop_last(), port_id, conn);
        lemma_unbound(v.drop_last(), port_id, conn);
        let after = window::without_bound(v, port_id, conn);
        assert forall|i: int| 0 <= i < after.len() implies !((#[trigger] after[i]).port_id
            == port_id && after[i].conn == conn) by {
            if i < before.len() {
                assert(!(before[i].port_id == port_id && before[i].conn == conn));
            }
        }
    }
}

proof fn lemma_bound_last(v: Seq<BoundView>, b: BoundView)
    requires
        forall|i: int|
            0 <= i < v.len() ==> !((#[trigger] v[i]).port_id == b.port_id && v[i].conn == b.conn),
    ensures
        window::bound_tab(v.push(b), b.port_id, b.conn) == Some(b.tab),
    decreases v.len(),
{
    let w = v.push(b);
    if v.len() > 0 {
        assert(!(v[0].port_id == b.port_id && v[0].conn == b.conn));
        assert(w.skip(1) =~= v.skip(1).push(b));
        assert forall|i: int| 0 <= i < v.skip(1).len() implies !((#[trigger] v.skip(1)[i]).port_id
            == b.port_id && v.skip(1)[i].conn == b.conn) by {
            assert(!(v[i + 1].port_id == b.port_id && v[i + 1].conn == b.conn));
        }
        lemma_bound_last(v.skip(1), b);
    }
}

pub proof fn lemma_bound_now(v: Seq<BoundView>, port_id: Seq<char>, conn: ConnectionId, tab: TabId)
    ensures
        window::bound_tab(window::after_bind(v, port_id, conn, tab), port_id, conn) == Some(tab),
{
    lemma_unbound(v, port_id, conn);
    lemma_bound_last(
        window::without_bound(v, port_id, conn),
        BoundView { port_id, conn, tab },
    );
}

/// A connection that ended is bound to no tab any more.
pub proof fn law_ended_is_unbound(
    c: AppConfig,
    u: UiView,
    port_id: Seq<char>,
    id: ConnectionId,
    now: Seq<char>,
)
    ensures
        window::bound_tab(
            events::ended(c, u, port_id, id, now).ui.bound,
            port_id,
            id,
        ) is None,
{
    lemma_unbound(u.bound, port_id, id);
    lemma_not_bound(window::without_bound(u.bound, port_id, id), port_id, id);
}

// ---------------------------------------------------------------------------
// The invariant
// ---------------------------------------------------------------------------

proof fn lemma_bound_within(v: Seq<BoundView>, port_id: Seq<char>, conn: ConnectionId)
    ensures
        forall|i: int|
            0 <= i < window::without_bound(v, port_id, conn).len() ==> v.contains(
                #[trigger] window::without_bound(v, port_id, conn)[i],
            ),
    decreases v.len(),
{
    if v.len() > 0 {
        let before = window::without_bound(v.drop_last(), port_id, conn);
        lemma_bound_within(v.drop_last(), port_id, conn);
        assert forall|i: int| 0 <= i < window::without_bound(v, port_id, conn).len() implies v.contains(
            #[trigger] window::without_bound(v, port_id, conn)[i],
        ) by {
            if i < before.len() {
                assert(v.drop_last().contains(before[i]));
                let j = choose|j: int| 0 <= j < v.len() - 1 && v.drop_last()[j] == before[i];
                assert(v[j] == before[i]);
            } else {
                assert(v[v.len() - 1] == window::without_bound(v, port_id, conn)[i]);
            }
        }
    }
}

proof fn lemma_bound_tab_within(v: Seq<BoundView>, tab: TabId)
    ensures
        forall|i: int|
            0 <= i < window::without_bound_tab(v, tab).len() ==> v.contains(
                #[trigger] window::without_bound_tab(v, tab)[i],
            ),
    decreases v.len(),
{
    if v.len() > 0 {
        let before = window::without_bound_tab(v.drop_last(), tab);
        lemma_bound_tab_within(v.drop_last(), tab);
        assert forall|i: int| 0 <= i < window::without_bound_tab(v, tab).len() implies v.contains(
            #[trigger] window::without_bound_tab(v, tab)[i],
        ) by {
            if i < before.len() {
                assert(v.drop_last().contains(before[i]));
                let j = choose|j: int| 0 <= j < v.len() - 1 && v.drop_last()[j] == before[i];
                assert(v[j] == before[i]);
            } else {
                assert(v[v.len() - 1] == window::without_bound_tab(v, tab)[i]);
            }
        }
    }
}

proof fn lemma_bound_port_within(v: Seq<BoundView>, port_id: Seq<char>)
    ensures
        forall|i: int|
            0 <= i < window::without_bound_port(v, port_id).len() ==> v.contains(
                #[trigger] window::without_bound_port(v, port_id)[i],
            ),
    decreases v.len(),
{
    if v.len() > 0 {
        let before = window::without_bound_port(v.drop_last(), port_id);
        lemma_bound_port_within(v.drop_last(), port_id);
        assert forall|i: int| 0 <= i < window::without_bound_port(v, port_id).len() implies v.contains(
            #[trigger] window::without_bound_port(v, port_id)[i],
        ) by {
            if i < before.len() {
                assert(v.drop_last().contains(before[i]));
                let j = choose|j: int| 0 <= j < v.len() - 1 && v.drop_last()[j] == before[i];
                assert(v[j] == before[i]);
            } else {
                assert(v[v.len() - 1] == window::without_bound_port(v, port_id)[i]);
            }
        }
    }
}

proof fn lemma_pending_within(v: Seq<PendingView>, port_id: Seq<char>, remote: Seq<char>)
    ensures
        forall|i: int|
            0 <= i < window::without_pending(v, port_id, remote).len() ==> v.contains(
                #[trigger] window::without_pending(v, port_id, remote)[i],
            ),
    decreases v.len(),
{
    if v.len() > 0 {
        let before = window::without_pending(v.drop_last(), port_id, remote);
        lemma_pending_within(v.drop_last(), port_id, remote);
        assert forall|i: int| 0 <= i < window::without_pending(v, port_id, remote).len() implies v.contains(
            #[trigger] window::without_pending(v, port_id, remote)[i],
        ) by {
            if i < before.len() {
                assert(v.drop_last().contains(before[i]));
                let j = choose|j: int| 0 <= j < v.len() - 1 && v.drop_last()[j] == before[i];
                assert(v[j] == before[i]);
            } else {
                assert(v[v.len() - 1] == window::without_pending(v, port_id, remote)[i]);
            }
        }
    }
}

proof fn lemma_pending_tab_within(v: Seq<PendingView>, tab: TabId)
    ensures
        forall|i: int|
            0 <= i < window::without_pending_tab(v, tab).len() ==> v.contains(
                #[trigger] window::without_pending_tab(v, tab)[i],
            ),
    decreases v.len(),
{
    if v.len() > 0 {
        let before = window::without_pending_tab(v.drop_last(), tab);
        lemma_pending_tab_within(v.drop_last(), tab);
        assert forall|i: int| 0 <= i < window::without_pending_tab(v, tab).len() implies v.contains(
            #[trigger] window::without_pending_tab(v, tab)[i],
        ) by {
            if i < before.len() {
                assert(v.drop_last().contains(before[i]));
                let j = choose|j: int| 0 <= j < v.len() - 1 && v.drop_last()[j] == before[i];
                assert(v[j] == before[i]);
            } else {
                assert(v[v.len() - 1] == window::without_pending_tab(v, tab)[i]);
            }
        }
    }
}

proof fn lemma_pending_port_within(v: Seq<PendingView>, port_id: Seq<char>)
    ensures
        forall|i: int|
            0 <= i < window::without_pending_port(v, port_id).len() ==> v.contains(
                #[trigger] window::without_pending_port(v, port_id)[i],
            ),
    decreases v.len(),
{
    if v.len() > 0 {
        let before = window::without_pending_port(v.drop_last(), port_id);
        lemma_pending_port_within(v.drop_last(), port_id);
        assert forall|i: int| 0 <= i < window::without_pending_port(v, port_id).len() implies v.contains(
            #[trigger] window::without_pending_port(v, port_id)[i],
        ) by {
            if i < before.len() {
                assert(v.drop_last().contains(before[i]));
                let j = choose|j: int| 0 <= j < v.len() - 1 && v.drop_last()[j] == before[i];
                assert(v[j] == before[i]);
            } else {
                assert(v[v.len() - 1] == window::without_pending_port(v, port_id)[i]);
            }
        }
    }
}

proof fn lemma_open_at(u: UiView, id: TabId, k: int)
    requires
        0 <= k < u.tabs.len(),
        u.tabs[k].id == id,
    ensures
        is_open(u, id),
{
    window::lemma_slot_index(u.tabs, id);
}

/// Every tab of `a` is open in `b`, and what is bound or awaited in `b` is so in `a`.
spec fn narrower(a: UiView, b: UiView) -> bool {
    &&& forall|t: TabId| is_open(a, t) ==> #[trigger] is_open(b, t)
    &&& forall|i: int| 0 <= i < b.bound.len() ==> a.bound.contains(#[trigger] b.bound[i])
    &&& forall|i: int| 0 <= i < b.pending.len() ==> a.pending.contains(#[trigger] b.pending[i])
}

proof fn lemma_narrower(a: UiView, b: UiView)
    requires
        linked(a),
        narrower(a, b),
    ensures
        linked(b),
{
    assert forall|i: int| 0 <= i < b.bound.len() implies is_open(b, (#[trigger] b.bound[i]).tab) by {
        assert(a.bound.contains(b.bound[i]));
        let j = choose|j: int| 0 <= j < a.bound.len() && a.bound[j] == b.bound[i];
        assert(is_open(a, a.bound[j].tab));
    }
    assert forall|i: int| 0 <= i < b.pending.len() implies is_open(
        b,
        (#[trigger] b.pending[i]).tab,
    ) by {
        assert(a.pending.contains(b.pending[i]));
        let j = choose|j: int| 0 <= j < a.pending.len() && a.pending[j] == b.pending[i];
        assert(is_open(a, a.pending[j].tab));
    }
}

proof fn lemma_same_open(a: UiView, b: UiView)
    requires
        same_numbers(a, b),
    ensures
        forall|t: TabId| #[trigger] is_open(b, t) == is_open(a, t),
{
    assert forall|t: TabId| #[trigger] is_open(b, t) == is_open(a, t) by {
        lemma_same_index(a.tabs, b.tabs, t);
    }
}

proof fn lemma_same_links(a: UiView, b: UiView)
    requires
        same_numbers(a, b),
        same_links(a, b),
        orderly(a),
    ensures
        orderly(b),
{
    lemma_same_numbers(a, b);
    lemma_same_open(a, b);
    assert forall|i: int| 0 <= i < b.bound.len() implies a.bound.contains(
        #[trigger] b.bound[i],
    ) by {
        assert(a.bound[i] == b.bound[i]);
    }
    assert forall|i: int| 0 <= i < b.pending.len() implies a.pending.contains(
        #[trigger] b.pending[i],
    ) by {
        assert(a.pending[i] == b.pending[i]);
    }
    lemma_narrower(a, b);
}

proof fn lemma_added_orderly(c: AppConfig, u: UiView, p: PrefillView)
    requires
        orderly(u),
        u.next_tab_id < u64::MAX,
    ensures
        orderly(actions::added(c, u, p).1.ui),
        actions::added(c, u, p).0 matches Some(t) ==> is_open(actions::added(c, u, p).1.ui, t),
{
    let after = actions::added(c, u, p).1.ui;
    law_added_tab_is_new(c, u, p);
    assert forall|t: TabId| is_open(u, t) implies #[trigger] is_open(after, t) by {
        let k = window::slot_index(u.tabs, t);
        window::lemma_slot_index(u.tabs, t);
        assert(after.tabs[k] == u.tabs[k]);
        lemma_open_at(after, t, k);
    }
    assert(same_links(u, after));
    assert forall|i: int| 0 <= i < after.bound.len() implies is_open(
        after,
        (#[trigger] after.bound[i]).tab,
    ) by {
        assert(is_open(u, u.bound[i].tab));
    }
    assert forall|i: int| 0 <= i < after.pending.len() implies is_open(
        after,
        (#[trigger] after.pending[i]).tab,
    ) by {
        assert(is_open(u, u.pending[i].tab));
    }
}

proof fn lemma_opened_orderly(
    c: AppConfig,
    u: UiView,
    port_id: Seq<char>,
    o: OpenedView,
    now: Seq<char>,
    secs: u64,
)
    requires
        orderly(u),
        u.next_tab_id < u64::MAX,
    ensures
        orderly(events::opened(c, u, port_id, o, now, secs).ui),
{
    let needs = events::needs_node(c, port_id);
    let key = if needs {
        o.label
    } else {
        Seq::empty()
    };
    let p = PrefillView { port_id, remote: o.label, path: Seq::empty(), unproto: false };
    let waiting = window::pending_tab(u.pending, port_id, key);
    let placed = match waiting {
        Some(t) => (
            Some(t),
            window::outcome(
                UiView { pending: window::without_pending(u.pending, port_id, key), ..u },
                Seq::empty(),
            ),
        ),
        None => actions::added(c, u, p),
    };
    let mid = placed.1.ui;
    if waiting is None {
        lemma_added_orderly(c, u, p);
    } else {
        lemma_pending_listed(u.pending, port_id, key);
        lemma_pending_within(u.pending, port_id, key);
        lemma_same_numbers(u, mid);
        lemma_same_open(u, mid);
        assert forall|i: int| 0 <= i < mid.bound.len() implies u.bound.contains(
            #[trigger] mid.bound[i],
        ) by {
            assert(u.bound[i] == mid.bound[i]);
        }
        lemma_narrower(u, mid);
    }
    match placed.0 {
        Some(t) => {
            assert(is_open(mid, t));
            let bound = UiView { bound: window::after_bind(mid.bound, port_id, o.id, t), ..mid };
            let k = window::slot_index(bound.tabs, t);
            window::lemma_slot_index(bound.tabs, t);
            lemma_bound_within(mid.bound, port_id, o.id);
            lemma_same_numbers(mid, bound);
            lemma_same_open(mid, bound);
            assert forall|i: int| 0 <= i < bound.bound.len() implies is_open(
                bound,
                (#[trigger] bound.bound[i]).tab,
            ) by {
                let rest = window::without_bound(mid.bound, port_id, o.id);
                if i < rest.len() {
                    assert(rest[i] == bound.bound[i]);
                    assert(mid.bound.contains(rest[i]));
                    let j = choose|j: int| 0 <= j < mid.bound.len() && mid.bound[j] == rest[i];
                    assert(is_open(mid, mid.bound[j].tab));
                }
            }
            assert forall|i: int| 0 <= i < bound.pending.len() implies is_open(
                bound,
                (#[trigger] bound.pending[i]).tab,
            ) by {
                assert(is_open(mid, mid.pending[i].tab));
            }
            lemma_connected_numbers(c, bound, k, port_id, o, waiting is None, now, secs);
            lemma_same_links(bound, events::opened(c, u, port_id, o, now, secs).ui);
        },
        None => {},
    }
}

/// Whatever a port reports, no two tabs ever have the same number, and every
/// connection that is bound or awaited leads to a tab that is open.
pub proof fn law_reports_keep_order(
    c: AppConfig,
    u: UiView,
    port_id: Seq<char>,
    e: EventView,
    now: Seq<char>,
    secs: u64,
)
    requires
        orderly(u),
        events::room(u, e),
    ensures
        orderly(events::after_event(c, u, port_id, e, now, secs).ui),
{
    let after = events::after_event(c, u, port_id, e, now, secs).ui;
    lemma_numbers_stay_apart(c, u, port_id, e, now, secs);
    match e {
        EventView::ConnectionOpened { id, label, to } => {
            lemma_opened_orderly(c, u, port_id, OpenedView { id, label, to }, now, secs);
        },
        EventView::Data { id, bytes } => {
            law_data_stays_in_its_tab(u, port_id, id, bytes, now);
            lemma_same_links(u, after);
        },
        EventView::ConnectionClosed { id } => {
            if let Some(t) = window::bound_tab(u.bound, port_id, id) {
                window::lemma_slot_index(u.tabs, t);
                lemma_bound_within(u.bound, port_id, id);
                assert(same_numbers(u, after));
                lemma_same_open(u, after);
                assert forall|i: int| 0 <= i < after.pending.len() implies u.pending.contains(
                    #[trigger] after.pending[i],
                ) by {
                    assert(u.pending[i] == after.pending[i]);
                }
                lemma_narrower(u, after);
            }
        },
        EventView::PortDisconnected { reason } => {
            lemma_bound_port_within(u.bound, port_id);
            lemma_pending_port_within(u.pending, port_id);
            assert(same_numbers(u, after));
            lemma_same_open(u, after);
            lemma_narrower(u, after);
        },
        _ => {
            assert(same_numbers(u, after));
            lemma_same_links(u, after);
        },
    }
}

/// Whatever the user does with tabs, the same holds.
pub proof fn law_actions_keep_order(
    c: AppConfig,
    u: UiView,
    p: PrefillView,
    id: TabId,
    on: bool,
    t: Seq<char>,
)
    requires
        orderly(u),
    ensures
        u.next_tab_id < u64::MAX ==> orderly(actions::added(c, u, p).1.ui),
        orderly(actions::closed_tab(u, id).ui),
        orderly(actions::dialed(c, u, id).ui),
        orderly(actions::pinned(u, id, on).ui),
        orderly(actions::entered(u, id, t).1.ui),
{
    if u.next_tab_id < u64::MAX {
        lemma_added_orderly(c, u, p);
    }
    window::lemma_slot_index(u.tabs, id);
    let closed = actions::closed_tab(u, id).ui;
    law_closed_tab_is_gone(u, id);
    lemma_bound_tab_within(u.bound, id);
    lemma_pending_tab_within(u.pending, id);
    assert forall|other: TabId| other != id && is_open(u, other) implies #[trigger] is_open(
        closed,
        other,
    ) by {
        let k = window::slot_index(u.tabs, other);
        window::lemma_slot_index(u.tabs, other);
        assert(closed.tabs.contains(u.tabs[k]));
        let j = choose|j: int| 0 <= j < closed.tabs.len() && closed.tabs[j] == u.tabs[k];
        lemma_open_at(closed, other, j);
    }
    assert forall|i: int| 0 <= i < closed.bound.len() implies is_open(
        closed,
        (#[trigger] closed.bound[i]).tab,
    ) by {
        assert(u.bound.contains(closed.bound[i]));
        let j = choose|j: int| 0 <= j < u.bound.len() && u.bound[j] == closed.bound[i];
        assert(is_open(u, u.bound[j].tab));
    }
    assert forall|i: int| 0 <= i < closed.pending.len() implies is_open(
        closed,
        (#[trigger] closed.pending[i]).tab,
    ) by {
        assert(u.pending.contains(closed.pending[i]));
        let j = choose|j: int| 0 <= j < u.pending.len() && u.pending[j] == closed.pending[i];
        assert(is_open(u, u.pending[j].tab));
    }
    lemma_dialed_orderly(c, u, id);
    assert(same_numbers(u, actions::pinned(u, id, on).ui));
    lemma_same_links(u, actions::pinned(u, id, on).ui);
    assert(same_numbers(u, actions::entered(u, id, t).1.ui));
    lemma_same_links(u, actions::entered(u, id, t).1.ui);
}

proof fn lemma_dialed_orderly(c: AppConfig, u: UiView, id: TabId)
    requires
        orderly(u),
    ensures
        orderly(actions::dialed(c, u, id).ui),
{
    let after = actions::dialed(c, u, id).ui;
    window::lemma_slot_index(u.tabs, id);
    assert(same_numbers(u, after));
    lemma_same_numbers(u, after);
    lemma_same_open(u, after);
    if after.pending != u.pending {
        let tab = u.tabs[window::slot_index(u.tabs, id)].tab;
        let key = if session_tab::connects(tab.port.config) {
            text::call_text(tab.node)
        } else {
            Seq::empty()
        };
        let rest = window::without_pending(u.pending, tab.port.id, key);
        lemma_pending_within(u.pending, tab.port.id, key);
        assert forall|i: int| 0 <= i < after.pending.len() implies is_open(
            after,
            (#[trigger] after.pending[i]).tab,
        ) by {
            if i < rest.len() {
                assert(rest[i] == after.pending[i]);
                assert(u.pending.contains(rest[i]));
                let j = choose|j: int| 0 <= j < u.pending.len() && u.pending[j] == rest[i];
                assert(is_open(u, u.pending[j].tab));
            }
        }
    } else {
        assert forall|i: int| 0 <= i < after.pending.len() implies is_open(
            after,
            (#[trigger] after.pending[i]).tab,
        ) by {
            assert(is_open(u, u.pending[i].tab));
        }
    }
    assert forall|i: int| 0 <= i < after.bound.len() implies is_open(
        after,
        (#[trigger] after.bound[i]).tab,
    ) by {
        assert(is_open(u, u.bound[i].tab));
    }
}

// ---------------------------------------------------------------------------
// Sending
// ---------------------------------------------------------------------------

/// Commands go only to ports that are up.
pub open spec fn to_live_ports(u: UiView, effects: Effects) -> bool {
    forall|i: int|
        0 <= i < effects.len() ==> ((#[trigger] effects[i]) matches EffectView::Command {
            port_id,
            ..
        } ==> u.active.contains(port_id))
}

/// A line that the user typed goes only to a port that is up; one that could not be
/// sent stays in the input field, and nothing changes.
pub proof fn law_typed_lines(u: UiView, id: TabId, t: Seq<char>)
    ensures
        to_live_ports(u, actions::entered(u, id, t).1.effects),
        !actions::entered(u, id, t).0 ==> actions::entered(u, id, t).1.ui == u,
{
}

/// Closing a tab asks only a port that is up to end its connection.
pub proof fn law_closing_commands(u: UiView, id: TabId)
    ensures
        to_live_ports(u, actions::closed_tab(u, id).effects),
{
}

// ---------------------------------------------------------------------------
// Pins
// ---------------------------------------------------------------------------

/// A pinned tab comes back: its port, node and path are among those opened at the
/// next start, and the tab that is opened then is pinned again. On a port that is
/// itself the session the node is empty, and the first line comes back as it was
/// typed.
pub proof fn law_pinned_tab_comes_back(c: AppConfig, u: UiView, id: TabId, fresh: UiView)
    requires
        0 <= window::slot_index(u.tabs, id) < u.tabs.len(),
        ({
            let tab = u.tabs[window::slot_index(u.tabs, id)].tab;
            text::call_text(tab.node).len() > 0 || session_tab::is_terminal(tab.port.config)
        }),
        fresh.pins == actions::pinned(u, id, true).ui.pins,
    ensures
        ({
            let tab = u.tabs[window::slot_index(u.tabs, id)].tab;
            let p = PrefillView {
                port_id: tab.port.id,
                remote: text::call_text(tab.node),
                path: session_tab::path_text(tab.port.config, tab.via_raw),
                unproto: false,
            };
            &&& startup::prefills(fresh.pins).contains(p)
            &&& actions::added(c, fresh, p).0 is Some ==> {
                &&& actions::added(c, fresh, p).1.ui.tabs.last().tab.pinned
                &&& actions::added(c, fresh, p).1.ui.tabs.last().tab.conn_id is None
                &&& actions::added(c, fresh, p).1.ui.tabs.last().tab.node == p.remote
                &&& actions::added(c, fresh, p).1.ui.tabs.last().tab.via_raw == p.path
            }
        }),
{
    let tab = u.tabs[window::slot_index(u.tabs, id)].tab;
    let p = PrefillView {
        port_id: tab.port.id,
        remote: text::call_text(tab.node),
        path: session_tab::path_text(tab.port.config, tab.via_raw),
        unproto: false,
    };
    let pins = fresh.pins;
    let last = pins.last();
    assert(pins[pins.len() - 1] == last);
    assert(startup::prefills(pins)[pins.len() - 1] == p);
    assert(app_state::is_pin(pins[pins.len() - 1], p.port_id, p.remote));
}

/// Taking a tab's pin away leaves no pin for its port and node.
pub proof fn law_unpinned_is_forgotten(u: UiView, id: TabId)
    requires
        0 <= window::slot_index(u.tabs, id) < u.tabs.len(),
    ensures
        u.tabs[window::slot_index(u.tabs, id)].tab.pinned_identity matches Some(i)
            ==> !app_state::has_pin(actions::pinned(u, id, false).ui.pins, i.0, i.1),
{
    let tab = u.tabs[window::slot_index(u.tabs, id)].tab;
    match tab.pinned_identity {
        Some(i) => {
            let other = i.0.push('x');
            assert(other.len() != i.0.len());
            app_state::law_pinning(u.pins, i.0, i.1, ""@, false, other, i.1);
        },
        None => {},
    }
}

proof fn lemma_bound_filter(v: Seq<BoundView>, port_id: Seq<char>, conn: ConnectionId)
    ensures
        window::without_bound(v, port_id, conn) == v.filter(|x: BoundView| x.port_id != port_id || x.conn != conn),
    decreases v.len(),
{
    reveal(Seq::filter);
    if v.len() > 0 {
        lemma_bound_filter(v.drop_last(), port_id, conn);
    }
}

proof fn lemma_bound_tab_filter(v: Seq<BoundView>, tab: TabId)
    ensures
        window::without_bound_tab(v, tab) == v.filter(|x: BoundView| x.tab != tab),
    decreases v.len(),
{
    reveal(Seq::filter);
    if v.len() > 0 {
        lemma_bound_tab_filter(v.drop_last(), tab);
    }
}

proof fn lemma_bound_port_filter(v: Seq<BoundView>, port_id: Seq<char>)
    ensures
        window::without_bound_port(v, port_id) == v.filter(|x: BoundView| x.port_id != port_id),
    decreases v.len(),
{
    reveal(Seq::filter);
    if v.len() > 0 {
        lemma_bound_port_filter(v.drop_last(), port_id);
    }
}

proof fn lemma_pending_filter(v: Seq<PendingView>, port_id: Seq<char>, remote: Seq<char>)
    ensures
        window::without_pending(v, port_id, remote) == v.filter(|x: PendingView| x.port_id != port_id || x.remote != remote),
    decreases v.len(),
{
    reveal(Seq::filter);
    if v.len() > 0 {
        lemma_pending_filter(v.drop_last(), port_id, remote);
    }
}

proof fn lemma_pending_tab_filter(v: Seq<PendingView>, tab: TabId)
    ensures
        window::without_pending_tab(v, tab) == v.filter(|x: PendingView| x.tab != tab),
    decreases v.len(),
{
    reveal(Seq::filter);
    if v.len() > 0 {
        lemma_pending_tab_filter(v.drop_last(), tab);
    }
}

proof fn lemma_pending_port_filter(v: Seq<PendingView>, port_id: Seq<char>)
    ensures
        window::without_pending_port(v, port_id) == v.filter(|x: PendingView| x.port_id != port_id),
    decreases v.len(),
{
    reveal(Seq::filter);
    if v.len() > 0 {
        lemma_pending_port_filter(v.drop_last(), port_id);
    }
}

proof fn lemma_id_filter(v: Seq<Seq<char>>, id: Seq<char>)
    ensures
        window::without_id(v, id) == v.filter(|x: Seq<char>| x != id),
    decreases v.len(),
{
    reveal(Seq::filter);
    if v.len() > 0 {
        lemma_id_filter(v.drop_last(), id);
    }
}

/// What ends takes nothing else with it. A connection that ends, a tab that closes and a
/// port that goes down leave every other tab, and every connection and call of another,
/// in their order.
pub proof fn law_others_stay(
    c: AppConfig,
    u: UiView,
    port_id: Seq<char>,
    conn: ConnectionId,
    tab: TabId,
    reason: Option<Seq<char>>,
    now: Seq<char>,
)
    ensures
        window::bound_tab(u.bound, port_id, conn) is Some ==> events::ended(
            c,
            u,
            port_id,
            conn,
            now,
        ).ui.bound == u.bound.filter(|x: BoundView| x.port_id != port_id || x.conn != conn),
        ({
            let after = actions::closed_tab(u, tab).ui;
            let k = window::slot_index(u.tabs, tab);
            &&& k < u.tabs.len() ==> after.tabs.len() == u.tabs.len() - 1
            &&& forall|i: int|
                0 <= i < u.tabs.len() && i != k ==> #[trigger] u.tabs[i] == after.tabs[if i < k {
                    i
                } else {
                    i - 1
                }]
            &&& k >= u.tabs.len() ==> after.tabs == u.tabs
            &&& after.bound == u.bound.filter(|x: BoundView| x.tab != tab)
            &&& after.pending == u.pending.filter(|x: PendingView| x.tab != tab)
            &&& after.active == u.active && after.book == u.book && after.qsos == u.qsos
                && after.messages == u.messages
        }),
        ({
            let after = events::went_down(u, port_id, reason).ui;
            &&& after.bound == u.bound.filter(|x: BoundView| x.port_id != port_id)
            &&& after.pending == u.pending.filter(|x: PendingView| x.port_id != port_id)
            &&& after.active == u.active.filter(|x: Seq<char>| x != port_id)
            &&& after.confirmed == u.confirmed.filter(|x: Seq<char>| x != port_id)
        }),
{
    lemma_bound_filter(u.bound, port_id, conn);
    lemma_bound_tab_filter(u.bound, tab);
    lemma_bound_port_filter(u.bound, port_id);
    lemma_pending_tab_filter(u.pending, tab);
    lemma_pending_port_filter(u.pending, port_id);
    window::lemma_slot_index(u.tabs, tab);
    lemma_id_filter(u.active, port_id);
    lemma_id_filter(u.confirmed, port_id);
}

/// Connecting a tab has it wait behind the others; only an older wait for the same
/// station over the same port gives way to it.
pub proof fn law_waits_stay(c: AppConfig, u: UiView, id: TabId, k: int)
    requires
        k == window::slot_index(u.tabs, id),
        k < u.tabs.len(),
        !u.tabs[k].tab.unproto,
        session_tab::connects(u.tabs[k].tab.port.config),
        text::call_text(u.tabs[k].tab.node).len() > 0,
    ensures
        ({
            let port_id = u.tabs[k].tab.port.id;
            let remote = text::call_text(u.tabs[k].tab.node);
            let after = actions::dialed(c, u, id).ui.pending;
            &&& after.last() == (PendingView { port_id, remote, tab: id })
            &&& after.drop_last() == u.pending.filter(
                |x: PendingView| x.port_id != port_id || x.remote != remote,
            )
        }),
{
    let port_id = u.tabs[k].tab.port.id;
    let remote = text::call_text(u.tabs[k].tab.node);
    lemma_pending_filter(u.pending, port_id, remote);
    let rest = window::without_pending(u.pending, port_id, remote);
    assert(actions::dialed(c, u, id).ui.pending.drop_last() =~= rest);
}

} // verus!
