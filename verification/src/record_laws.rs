//! What the records say after something happened: the address book, the log of
//! contacts, the pins and the history.

use vstd::prelude::*;

use crate::app_state;
use crate::config::{BeaconTextView, EntryView, PinnedView, QsoView};
use crate::port::NodeView;
use crate::text;

verus! {

// ---------------------------------------------------------------------------
// Stations
// ---------------------------------------------------------------------------

/// The first entry under a callsign, or the end of the book.
pub open spec fn is_place(book: Seq<EntryView>, call: Seq<char>, i: int) -> bool {
    &&& 0 <= i <= book.len()
    &&& i < book.len() ==> book[i].callsign == call
    &&& forall|j: int| 0 <= j < i ==> (#[trigger] book[j]).callsign != call
}

/// The book differs from what it was at one place only, where there may be one entry
/// more.
pub open spec fn differs_at(book: Seq<EntryView>, after: Seq<EntryView>, i: int) -> bool {
    &&& 0 <= i < after.len()
    &&& after.len() == (if i < book.len() {
        book.len()
    } else {
        book.len() + 1
    })
    &&& forall|j: int| 0 <= j < book.len() && j != i ==> #[trigger] after[j] == book[j]
}

/// A station that was heard stands in the book, under its callsign, as heard now and
/// once more than before. What is known of it otherwise stays, and a new entry knows
/// nothing else.
pub proof fn law_heard_is_recorded(book: Seq<EntryView>, call: Seq<char>, now: Seq<char>) -> (i: int)
    requires
        text::call_text(call).len() > 0,
        app_state::can_count(book, call),
    ensures
        is_place(book, text::call_text(call), i),
        differs_at(book, app_state::after_heard(book, call, now), i),
        ({
            let e = app_state::after_heard(book, call, now)[i];
            &&& e.callsign == text::call_text(call)
            &&& e.last_heard == Some(now)
            &&& e.heard_direct
            &&& e.heard_count == 1 + (if i < book.len() {
                book[i].heard_count as int
            } else {
                0
            })
            &&& i < book.len() ==> e.recent_beacons == book[i].recent_beacons && e.alias
                == book[i].alias && e.notes == book[i].notes && e.name == book[i].name
            &&& i == book.len() ==> e.recent_beacons.len() == 0 && e.alias is None
                && e.notes is None && e.name is None && e.location is None && e.via.len() == 0
                && e.home_bbs.len() == 0
        }),
{
    app_state::lemma_entry_index(book, text::call_text(call));
    app_state::entry_index(book, text::call_text(call))
}

/// A station without a callsign is not recorded.
pub proof fn law_blank_is_not_recorded(book: Seq<EntryView>, blank: Seq<char>, now: Seq<char>)
    requires
        text::call_text(blank).len() == 0,
    ensures
        app_state::after_heard(book, blank, now) == book,
        forall|node: NodeView|
            node.callsign == blank ==> #[trigger] app_state::after_named(book, node, now) == book,
        forall|message: Seq<char>| #[trigger]
            app_state::after_beacon(book, blank, message, now) == book,
{
}

/// A station that a node named stands in the book as known now. Only where it was
/// never heard and has no other name does it get the alias.
pub proof fn law_named_is_recorded(book: Seq<EntryView>, node: NodeView, now: Seq<char>) -> (i: int)
    requires
        text::call_text(node.callsign).len() > 0,
    ensures
        is_place(book, text::call_text(node.callsign), i),
        differs_at(book, app_state::after_named(book, node, now), i),
        ({
            let e = app_state::after_named(book, node, now)[i];
            let alias = text::trimmed(node.alias);
            &&& e.callsign == text::call_text(node.callsign)
            &&& e.last_heard == Some(now)
            &&& i < book.len() && book[i].heard_direct ==> e.alias == book[i].alias
            &&& alias.len() > 0 && (i == book.len() || !book[i].heard_direct && text::or_empty(
                book[i].alias,
            ).len() == 0) ==> e.alias == Some(alias)
            &&& alias.len() == 0 && i < book.len() ==> e.alias == book[i].alias
            &&& alias.len() == 0 && i == book.len() ==> e.alias is None
            &&& i < book.len() ==> e.heard_count == book[i].heard_count && e.heard_direct
                == book[i].heard_direct
            &&& i == book.len() ==> e.heard_count == 0 && !e.heard_direct
        }),
{
    app_state::lemma_entry_index(book, text::call_text(node.callsign));
    app_state::entry_index(book, text::call_text(node.callsign))
}

/// The book holds a station that was last heard of at `now`.
pub open spec fn known_at(book: Seq<EntryView>, call: Seq<char>, now: Seq<char>) -> bool {
    exists|i: int|
        0 <= i < book.len() && (#[trigger] book[i]).callsign == call && book[i].last_heard == Some(
            now,
        )
}

/// The book holds a station that was heard itself, at `now`.
pub open spec fn heard_at(book: Seq<EntryView>, call: Seq<char>, now: Seq<char>) -> bool {
    exists|i: int|
        0 <= i < book.len() && (#[trigger] book[i]).callsign == call && book[i].last_heard == Some(
            now,
        ) && book[i].heard_direct
}

proof fn lemma_named_keeps(
    book: Seq<EntryView>,
    node: NodeView,
    now: Seq<char>,
    call: Seq<char>,
)
    ensures
        known_at(book, call, now) ==> known_at(
            app_state::after_named(book, node, now),
            call,
            now,
        ),
        heard_at(book, call, now) ==> heard_at(
            app_state::after_named(book, node, now),
            call,
            now,
        ),
{
    let after = app_state::after_named(book, node, now);
    app_state::lemma_entry_index(book, text::call_text(node.callsign));
    if known_at(book, call, now) {
        let i = choose|i: int|
            0 <= i < book.len() && (#[trigger] book[i]).callsign == call && book[i].last_heard
                == Some(now);
        assert(after[i].callsign == call && after[i].last_heard == Some(now));
    }
    if heard_at(book, call, now) {
        let i = choose|i: int|
            0 <= i < book.len() && (#[trigger] book[i]).callsign == call && book[i].last_heard
                == Some(now) && book[i].heard_direct;
        assert(after[i].callsign == call && after[i].last_heard == Some(now)
            && after[i].heard_direct);
    }
}

proof fn lemma_all_named(book: Seq<EntryView>, nodes: Seq<NodeView>, now: Seq<char>)
    ensures
        forall|i: int|
            0 <= i < nodes.len() && text::call_text((#[trigger] nodes[i]).callsign).len() > 0
                ==> known_at(
                app_state::after_all_named(book, nodes, now),
                text::call_text(nodes[i].callsign),
                now,
            ),
        forall|call: Seq<char>| #[trigger]
            heard_at(book, call, now) ==> heard_at(
                app_state::after_all_named(book, nodes, now),
                call,
                now,
            ),
    decreases nodes.len(),
{
    if nodes.len() > 0 {
        let front = nodes.drop_last();
        lemma_all_named(book, front, now);
        let before = app_state::after_all_named(book, front, now);
        let after = app_state::after_all_named(book, nodes, now);
        assert forall|i: int|
            0 <= i < nodes.len() && text::call_text((#[trigger] nodes[i]).callsign).len()
                > 0 implies known_at(after, text::call_text(nodes[i].callsign), now) by {
            let call = text::call_text(nodes[i].callsign);
            if i < front.len() {
                assert(front[i] == nodes[i]);
                lemma_named_keeps(before, nodes.last(), now, call);
            } else {
                let k = law_named_is_recorded(before, nodes.last(), now);
                assert(after[k].callsign == call && after[k].last_heard == Some(now));
            }
        }
        assert forall|call: Seq<char>| #[trigger] heard_at(book, call, now) implies heard_at(
            after,
            call,
            now,
        ) by {
            lemma_named_keeps(before, nodes.last(), now, call);
        }
    }
}

/// After a node's broadcast the node itself was heard, and every station that it
/// lists is known, all of them now.
pub proof fn law_broadcast_is_recorded(
    book: Seq<EntryView>,
    from: Seq<char>,
    sender_alias: Seq<char>,
    nodes: Seq<NodeView>,
    now: Seq<char>,
)
    requires
        text::call_text(from).len() > 0,
        app_state::can_count(book, from),
    ensures
        heard_at(
            app_state::after_broadcast(book, from, sender_alias, nodes, now),
            text::call_text(from),
            now,
        ),
        forall|i: int|
            0 <= i < nodes.len() && text::call_text((#[trigger] nodes[i]).callsign).len() > 0
                ==> known_at(
                app_state::after_broadcast(book, from, sender_alias, nodes, now),
                text::call_text(nodes[i].callsign),
                now,
            ),
{
    let call = text::call_text(from);
    let i = law_heard_is_recorded(book, from, now);
    let heard = app_state::after_heard(book, from, now);
    let named = app_state::after_alias(heard, call, sender_alias);
    app_state::lemma_entry_index(heard, call);
    assert(named[i].callsign == call && named[i].last_heard == Some(now) && named[i].heard_direct);
    assert(heard_at(named, call, now));
    lemma_all_named(named, nodes, now);
}

/// A node that gives its own alias is known by it afterwards, unless it had another
/// name already.
pub proof fn law_own_alias_is_recorded(
    book: Seq<EntryView>,
    from: Seq<char>,
    alias: Seq<char>,
    now: Seq<char>,
) -> (i: int)
    requires
        text::call_text(from).len() > 0,
        app_state::can_count(book, from),
        alias.len() > 0,
    ensures
        is_place(book, text::call_text(from), i),
        ({
            let after = app_state::after_broadcast(book, from, alias, Seq::empty(), now);
            &&& differs_at(book, after, i)
            &&& after[i].alias == (if i < book.len() && text::or_empty(book[i].alias).len() > 0 {
                book[i].alias
            } else {
                Some(alias)
            })
        }),
{
    let call = text::call_text(from);
    let i = law_heard_is_recorded(book, from, now);
    let heard = app_state::after_heard(book, from, now);
    app_state::lemma_entry_index(heard, call);
    assert(heard[i].callsign == call);
    assert(forall|j: int| 0 <= j < i ==> (#[trigger] heard[j]).callsign == book[j].callsign);
    assert(app_state::entry_index(heard, call) == i);
    i
}

proof fn lemma_other_texts(log: Seq<BeaconTextView>, t: Seq<char>)
    ensures
        app_state::without_text(log, t) == log.filter(|b: BeaconTextView| b.text != t),
    decreases log.len(),
{
    reveal(Seq::filter);
    if log.len() > 0 {
        lemma_other_texts(log.drop_last(), t);
    }
}

/// A station's beacon stands first in its entry. Behind it stand the other texts that
/// it sent before, in their order, as many as there is room for.
pub proof fn law_beacon_is_recorded(
    book: Seq<EntryView>,
    from: Seq<char>,
    message: Seq<char>,
    now: Seq<char>,
) -> (i: int)
    requires
        text::call_text(from).len() > 0,
        message.len() > 0,
    ensures
        is_place(book, text::call_text(from), i),
        differs_at(book, app_state::after_beacon(book, from, message, now), i),
        ({
            let e = app_state::after_beacon(book, from, message, now)[i];
            let earlier = if i < book.len() {
                book[i].recent_beacons.filter(|b: BeaconTextView| b.text != message)
            } else {
                Seq::empty()
            };
            &&& e.callsign == text::call_text(from)
            &&& e.recent_beacons.len() == (if earlier.len() < 5 {
                earlier.len() + 1
            } else {
                5
            })
            &&& e.recent_beacons[0] == (BeaconTextView { text: message, when: now })
            &&& forall|j: int|
                1 <= j < e.recent_beacons.len() ==> #[trigger] e.recent_beacons[j] == earlier[j - 1]
            &&& i < book.len() ==> e.heard_count == book[i].heard_count && e.last_heard
                == book[i].last_heard && e.notes == book[i].notes && e.alias == book[i].alias
            &&& i == book.len() ==> e.heard_count == 0 && !e.heard_direct && e.last_heard is None
        }),
{
    let call = text::call_text(from);
    app_state::lemma_entry_index(book, call);
    let k = app_state::entry_index(book, call);
    let before = if k < book.len() {
        book[k].recent_beacons
    } else {
        Seq::empty()
    };
    lemma_other_texts(before, message);
    if k == book.len() {
        reveal(Seq::filter);
    }
    k
}

// ---------------------------------------------------------------------------
// Contacts
// ---------------------------------------------------------------------------

/// A contact that begins is the last of the log, with the station, the port and the
/// time, and it is open.
pub proof fn law_contact_begins(
    log: Seq<QsoView>,
    port_id: Seq<char>,
    call: Seq<char>,
    now: Seq<char>,
)
    requires
        text::call_text(call).len() > 0,
    ensures
        ({
            let after = app_state::after_qso_start(log, port_id, call, now);
            &&& after.len() == log.len() + 1
            &&& after.drop_last() == log
            &&& after.last().callsign == text::call_text(call)
            &&& after.last().port_id == port_id
            &&& after.last().started == now
            &&& after.last().ended is None
        }),
{
    let after = app_state::after_qso_start(log, port_id, call, now);
    assert(after.drop_last() =~= log);
}

/// The last open contact with a station over a port.
pub open spec fn is_latest(log: Seq<QsoView>, port_id: Seq<char>, call: Seq<char>, k: int) -> bool {
    &&& 0 <= k < log.len()
    &&& log[k].port_id == port_id && log[k].callsign == call && log[k].ended is None
    &&& forall|j: int|
        k < j < log.len() ==> (#[trigger] log[j]).port_id != port_id || log[j].callsign != call
            || log[j].ended is Some
}

proof fn lemma_open_qso(log: Seq<QsoView>, port_id: Seq<char>, call: Seq<char>)
    ensures
        -1 <= app_state::open_qso(log, port_id, call) < log.len(),
        app_state::open_qso(log, port_id, call) >= 0 ==> is_latest(
            log,
            port_id,
            call,
            app_state::open_qso(log, port_id, call),
        ),
        app_state::open_qso(log, port_id, call) == -1 ==> forall|j: int|
            0 <= j < log.len() ==> (#[trigger] log[j]).port_id != port_id || log[j].callsign != call
                || log[j].ended is Some,
    decreases log.len(),
{
    if log.len() > 0 && !app_state::is_open_qso(log.last(), port_id, call) {
        let front = log.drop_last();
        lemma_open_qso(front, port_id, call);
        let k = app_state::open_qso(front, port_id, call);
        assert forall|j: int| k < j < log.len() implies (#[trigger] log[j]).port_id != port_id
            || log[j].callsign != call || log[j].ended is Some by {
            if j < front.len() {
                assert(front[j] == log[j]);
            }
        }
    }
}

/// Ending a contact sets its end, in the latest one that is open with that station
/// over that port, and leaves every other alone. Where none is open nothing changes.
pub proof fn law_contact_ends(
    log: Seq<QsoView>,
    port_id: Seq<char>,
    call: Seq<char>,
    now: Seq<char>,
    k: int,
)
    ensures
        is_latest(log, port_id, text::call_text(call), k) ==> ({
            let after = app_state::after_qso_end(log, port_id, call, now);
            &&& after.len() == log.len()
            &&& after[k].ended == Some(now)
            &&& after[k].started == log[k].started && after[k].callsign == log[k].callsign
                && after[k].port_id == log[k].port_id && after[k].location == log[k].location
                && after[k].from_cq == log[k].from_cq
            &&& forall|j: int| 0 <= j < log.len() && j != k ==> #[trigger] after[j] == log[j]
        }),
        (forall|j: int| !is_latest(log, port_id, text::call_text(call), j))
            ==> app_state::after_qso_end(log, port_id, call, now) == log,
{
    lemma_open_qso(log, port_id, text::call_text(call));
    let m = app_state::open_qso(log, port_id, text::call_text(call));
    if is_latest(log, port_id, text::call_text(call), k) {
        assert(m == k) by {
            if m > k {
                assert(log[m].port_id != port_id || true);
            }
        }
    }
}

/// A contact that began and ended stands in the log with both times.
pub proof fn law_contact_is_logged(
    log: Seq<QsoView>,
    port_id: Seq<char>,
    call: Seq<char>,
    began: Seq<char>,
    end: Seq<char>,
)
    requires
        text::call_text(call).len() > 0,
    ensures
        ({
            let open = app_state::after_qso_start(log, port_id, call, began);
            let after = app_state::after_qso_end(open, port_id, call, end);
            &&& after.drop_last() == log
            &&& after.len() == log.len() + 1
            &&& after.last().callsign == text::call_text(call)
            &&& after.last().port_id == port_id
            &&& after.last().started == began
            &&& after.last().ended == Some(end)
        }),
{
    let open = app_state::after_qso_start(log, port_id, call, began);
    law_contact_begins(log, port_id, call, began);
    let k = open.len() - 1;
    assert(is_latest(open, port_id, text::call_text(call), k));
    law_contact_ends(open, port_id, call, end, k);
    let after = app_state::after_qso_end(open, port_id, call, end);
    assert forall|j: int| 0 <= j < log.len() implies #[trigger] after[j] == log[j] by {
        assert(open.drop_last()[j] == open[j]);
    }
    assert(after.drop_last() =~= log);
}

// ---------------------------------------------------------------------------
// Pins and history
// ---------------------------------------------------------------------------

proof fn lemma_other_pins(pins: Seq<PinnedView>, port_id: Seq<char>, remote: Seq<char>)
    ensures
        app_state::without_pin(pins, port_id, remote) == pins.filter(
            |p: PinnedView| p.port_id != port_id || p.remote != remote,
        ),
    decreases pins.len(),
{
    reveal(Seq::filter);
    if pins.len() > 0 {
        lemma_other_pins(pins.drop_last(), port_id, remote);
    }
}

/// A pin is kept with its node and its path, behind the pins of the other tabs, which
/// keep their order.
pub proof fn law_pin_is_kept(
    pins: Seq<PinnedView>,
    port_id: Seq<char>,
    remote: Seq<char>,
    path: Seq<char>,
)
    ensures
        ({
            let others = pins.filter(
                |p: PinnedView| p.port_id != port_id || p.remote != remote,
            );
            &&& app_state::after_pin(pins, port_id, remote, path, true).drop_last() == others
            &&& app_state::after_pin(pins, port_id, remote, path, true).last() == (PinnedView {
                port_id,
                remote,
                via: path,
            })
            &&& app_state::after_pin(pins, port_id, remote, path, false) == others
        }),
{
    lemma_other_pins(pins, port_id, remote);
    let rest = app_state::without_pin(pins, port_id, remote);
    assert(app_state::after_pin(pins, port_id, remote, path, true).drop_last() =~= rest);
}

/// Of a history the newest lines are shown, in their order, as many as asked for.
pub proof fn law_newest_history(lines: Seq<Seq<char>>, max: nat)
    ensures
        ({
            let shown = app_state::last_lines(lines, max);
            &&& shown.len() == (if lines.len() <= max {
                lines.len()
            } else {
                max
            })
            &&& forall|i: int|
                0 <= i < shown.len() ==> #[trigger] shown[i] == lines[lines.len() - shown.len() + i]
        }),
{
}

} // verus!
