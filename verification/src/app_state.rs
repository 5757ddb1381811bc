//! The state of the program between its files and its windows: what is recorded
//! of stations, contacts and packets, and which ports are up.
//!
//! Methods that change the configuration say whether it is to be saved.

use vstd::prelude::*;

use crate::client::AgwpeRunner;
use crate::config::{
    self, AddressBookEntry, AppConfig, BeaconPacketLogEntry, BeaconTextView, EntryView,
    IncomingBeacon, IncomingView, NotifiedPacket, NotifiedView, PinnedSession, PinnedView,
    PortConfig, PortEntry, QsoLogEntry, QsoView,
};
use crate::history_paths;
use crate::kiss_runner::{KissRunner, KissTransport};
use crate::port::{self, NodeView, NodesBroadcastEntry};
use crate::runner::Ax25RawSocketRunner;
use crate::text;
use crate::transports::{SshRunner, TelnetRunner};

verus! {

/// The configuration, the identifiers of the ports that are up, and the key of the
/// current QRZ.com session, which is never saved.
#[derive(Debug)]
pub struct AppState {
    pub config: AppConfig,
    pub active: Vec<String>,
    pub qrz_session: Option<String>,
}

// ---------------------------------------------------------------------------
// The address book
// ---------------------------------------------------------------------------

/// The position of the entry for `callsign`, or the length.
pub open spec fn entry_index(book: Seq<EntryView>, callsign: Seq<char>) -> int
    decreases book.len(),
{
    if book.len() == 0 || book[0].callsign == callsign {
        0
    } else {
        1 + entry_index(book.skip(1), callsign)
    }
}

pub proof fn lemma_entry_index(book: Seq<EntryView>, callsign: Seq<char>)
    ensures
        0 <= entry_index(book, callsign) <= book.len(),
        entry_index(book, callsign) < book.len() ==> book[entry_index(book, callsign)].callsign
            == callsign,
        forall|i: int|
            0 <= i < entry_index(book, callsign) ==> (#[trigger] book[i]).callsign != callsign,
    decreases book.len(),
{
    if book.len() > 0 && book[0].callsign != callsign {
        lemma_entry_index(book.skip(1), callsign);
        assert forall|i: int| 0 <= i < entry_index(book, callsign) implies (
        #[trigger] book[i]).callsign != callsign by {
            if i > 0 {
                assert(book.skip(1)[i - 1] == book[i]);
            }
        }
    }
}

pub fn find_call(book: &Vec<AddressBookEntry>, callsign: &str) -> (k: usize)
    ensures
        k == entry_index(config::views(book@), callsign@),
        k <= book@.len(),
{
    let ghost all = config::views(book@);
    let mut i: usize = 0;
    assert(all.skip(0) =~= all);
    while i < book.len()
        invariant
            i <= book@.len(),
            all == config::views(book@),
            entry_index(all, callsign@) == i + entry_index(all.skip(i as int), callsign@),
        decreases book@.len() - i,
    {
        assert(all.skip(i as int)[0] == book@[i as int]@);
        if text::eq_str(book[i].callsign.as_str(), callsign) {
            return i;
        }
        assert(all.skip(i as int).skip(1) =~= all.skip(i + 1));
        i += 1;
    }
    i
}

/// A station of which nothing but the callsign is known.
pub open spec fn bare_entry(callsign: Seq<char>) -> EntryView {
    EntryView {
        callsign,
        name: None,
        alias: None,
        location: None,
        notes: None,
        last_heard: None,
        heard_count: 0,
        via: Seq::empty(),
        home_bbs: Seq::empty(),
        heard_direct: false,
        recent_beacons: Seq::empty(),
    }
}

fn new_entry(callsign: String) -> (r: AddressBookEntry)
    ensures
        r@ == bare_entry(callsign@),
{
    let r = AddressBookEntry {
        callsign,
        name: None,
        alias: None,
        location: None,
        notes: None,
        last_heard: None,
        heard_count: 0,
        via: String::new(),
        home_bbs: String::new(),
        heard_direct: false,
        recent_beacons: Vec::new(),
    };
    assert(r@ =~= bare_entry(callsign@));
    r
}

/// The counter of the station's entry has room for one more.
pub open spec fn can_count(book: Seq<EntryView>, callsign: Seq<char>) -> bool {
    let k = entry_index(book, text::call_text(callsign));
    k < book.len() ==> book[k].heard_count < u32::MAX
}

/// Whether the counter of the station's entry has room for one more.
pub fn has_count_left(book: &Vec<AddressBookEntry>, callsign: &str) -> (r: bool)
    ensures
        r == can_count(config::views(book@), callsign@),
{
    let call = text::trim_upper(callsign);
    let k: usize = find_call(book, call.as_str());
    assert(k < book@.len() ==> config::views(book@)[k as int] == book@[k as int]@);
    k >= book.len() || book[k].heard_count < u32::MAX
}

/// The book after a station was heard: its entry counts once more, and is made
/// where there is none. What was entered by hand stays.
pub open spec fn after_heard(book: Seq<EntryView>, callsign: Seq<char>, now: Seq<char>) -> Seq<
    EntryView,
> {
    let call = text::call_text(callsign);
    let k = entry_index(book, call);
    if call.len() == 0 {
        book
    } else if k < book.len() {
        book.update(
            k,
            EntryView {
                last_heard: Some(now),
                heard_count: (book[k].heard_count + 1) as u32,
                heard_direct: true,
                ..book[k]
            },
        )
    } else {
        book.push(
            EntryView {
                last_heard: Some(now),
                heard_count: 1,
                heard_direct: true,
                ..bare_entry(call)
            },
        )
    }
}

fn hear(book: &mut Vec<AddressBookEntry>, callsign: &str, now: &str) -> (r: bool)
    requires
        can_count(config::views(old(book)@), callsign@),
    ensures
        config::views(final(book)@) == after_heard(config::views(old(book)@), callsign@, now@),
        r == (text::call_text(callsign@).len() > 0),
{
    let ghost before = config::views(book@);
    let call = text::trim_upper(callsign);
    if call.as_str().is_empty() {
        return false;
    }
    let k: usize = find_call(book, call.as_str());
    if k < book.len() {
        let mut e = book.remove(k);
        assert(e@ == before[k as int]);
        e.last_heard = Some(text::owned(now));
        e.heard_count = e.heard_count + 1;
        e.heard_direct = true;
        book.insert(k, e);
        assert(config::views(book@) =~= after_heard(before, callsign@, now@));
    } else {
        let mut e = new_entry(call);
        e.last_heard = Some(text::owned(now));
        e.heard_count = 1;
        e.heard_direct = true;
        book.push(e);
        assert(config::views(book@) =~= after_heard(before, callsign@, now@));
    }
    true
}

/// The book after an alias was learned: it is taken where the entry has none.
pub open spec fn after_alias(book: Seq<EntryView>, call: Seq<char>, alias: Seq<char>) -> Seq<
    EntryView,
> {
    let k = entry_index(book, call);
    if alias.len() > 0 && k < book.len() && text::or_empty(book[k].alias).len() == 0 {
        book.update(k, EntryView { alias: Some(alias), ..book[k] })
    } else {
        book
    }
}

fn is_blank(o: &Option<String>) -> (r: bool)
    ensures
        r == (text::or_empty(text::opt_view(*o)).len() == 0),
{
    match o {
        Some(s) => s.as_str().is_empty(),
        None => true,
    }
}

fn learn_alias(book: &mut Vec<AddressBookEntry>, call: &str, alias: &str)
    ensures
        config::views(final(book)@) == after_alias(config::views(old(book)@), call@, alias@),
{
    let ghost before = config::views(book@);
    let k: usize = find_call(book, call);
    if !alias.is_empty() && k < book.len() {
        assert(before[k as int] == book@[k as int]@);
        if is_blank(&book[k].alias) {
            let mut e = book.remove(k);
            e.alias = Some(text::owned(alias));
            book.insert(k, e);
            assert(config::views(book@) =~= after_alias(before, call@, alias@));
        }
    }
}

/// The book after a node named a station: the station is known, but was not heard.
/// Only a station that was never heard takes the alias that the node gives it.
pub open spec fn after_named(book: Seq<EntryView>, node: NodeView, now: Seq<char>) -> Seq<
    EntryView,
> {
    let call = text::call_text(node.callsign);
    let alias = text::trimmed(node.alias);
    let k = entry_index(book, call);
    if call.len() == 0 {
        book
    } else if k < book.len() {
        book.update(
            k,
            EntryView {
                last_heard: Some(now),
                alias: if !book[k].heard_direct && alias.len() > 0 && text::or_empty(
                    book[k].alias,
                ).len() == 0 {
                    Some(alias)
                } else {
                    book[k].alias
                },
                ..book[k]
            },
        )
    } else {
        book.push(
            EntryView {
                last_heard: Some(now),
                alias: text::unless_empty(alias),
                ..bare_entry(call)
            },
        )
    }
}

pub open spec fn after_all_named(book: Seq<EntryView>, nodes: Seq<NodeView>, now: Seq<char>) -> Seq<
    EntryView,
>
    decreases nodes.len(),
{
    if nodes.len() == 0 {
        book
    } else {
        after_named(after_all_named(book, nodes.drop_last(), now), nodes.last(), now)
    }
}

fn name_station(book: &mut Vec<AddressBookEntry>, node: &NodesBroadcastEntry, now: &str)
    ensures
        config::views(final(book)@) == after_named(
            config::views(old(book)@),
            port::node_view(*node),
            now@,
        ),
{
    let ghost before = config::views(book@);
    let call = text::trim_upper(node.callsign.as_str());
    if call.as_str().is_empty() {
        return;
    }
    let alias = text::trim(node.alias.as_str());
    let k: usize = find_call(book, call.as_str());
    if k < book.len() {
        let mut e = book.remove(k);
        assert(e@ == before[k as int]);
        e.last_heard = Some(text::owned(now));
        if !e.heard_direct && !alias.as_str().is_empty() && is_blank(&e.alias) {
            e.alias = Some(alias);
        }
        book.insert(k, e);
        assert(config::views(book@) =~= after_named(before, port::node_view(*node), now@));
    } else {
        let mut e = new_entry(call);
        e.last_heard = Some(text::owned(now));
        e.alias = text::nonempty(alias);
        book.push(e);
        assert(config::views(book@) =~= after_named(before, port::node_view(*node), now@));
    }
}

/// The book after a node's broadcast: the node itself was heard, and every station
/// that it lists was named.
pub open spec fn after_broadcast(
    book: Seq<EntryView>,
    from: Seq<char>,
    sender_alias: Seq<char>,
    nodes: Seq<NodeView>,
    now: Seq<char>,
) -> Seq<EntryView> {
    let call = text::call_text(from);
    if call.len() == 0 {
        book
    } else {
        after_all_named(
            after_alias(after_heard(book, from, now), call, sender_alias),
            nodes,
            now,
        )
    }
}

/// Beacon texts without `t`.
pub open spec fn without_text(log: Seq<BeaconTextView>, t: Seq<char>) -> Seq<BeaconTextView>
    decreases log.len(),
{
    if log.len() == 0 {
        log
    } else if log.last().text == t {
        without_text(log.drop_last(), t)
    } else {
        without_text(log.drop_last(), t).push(log.last())
    }
}

/// How many beacon texts are remembered of a station.
pub const BEACONS_KEPT: usize = 5;

/// The beacon texts after `t` was sent: it stands first, once, and the oldest give
/// way.
pub open spec fn after_text(log: Seq<BeaconTextView>, t: Seq<char>, now: Seq<char>) -> Seq<
    BeaconTextView,
> {
    let all = seq![BeaconTextView { text: t, when: now }] + without_text(log, t);
    if all.len() > BEACONS_KEPT {
        all.take(BEACONS_KEPT as int)
    } else {
        all
    }
}

/// The book after a station sent a beacon.
pub open spec fn after_beacon(
    book: Seq<EntryView>,
    from: Seq<char>,
    message: Seq<char>,
    now: Seq<char>,
) -> Seq<EntryView> {
    let call = text::call_text(from);
    if call.len() == 0 || message.len() == 0 {
        book
    } else {
        let k = entry_index(book, call);
        let full = if k < book.len() {
            book
        } else {
            book.push(bare_entry(call))
        };
        full.update(
            k,
            EntryView { recent_beacons: after_text(full[k].recent_beacons, message, now), ..full[k] },
        )
    }
}

fn remember_text(log: &Vec<BeaconPacketLogEntry>, t: &str, now: &str) -> (r: Vec<BeaconPacketLogEntry>)
    ensures
        config::views(r@) == after_text(config::views(log@), t@, now@),
{
    let ghost all = config::views(log@);
    let ghost first = BeaconTextView { text: t@, when: now@ };
    let mut kept: Vec<BeaconPacketLogEntry> = Vec::new();
    kept.push(BeaconPacketLogEntry { text: text::owned(t), when: text::owned(now) });
    assert(config::views(kept@) =~= seq![first] + without_text(all.take(0), t@));
    let mut i: usize = 0;
    while i < log.len()
        invariant
            i <= log.len(),
            all == config::views(log@),
            config::views(kept@) == seq![first] + without_text(all.take(i as int), t@),
        decreases log.len() - i,
    {
        proof {
            assert(all.take(i + 1).drop_last() =~= all.take(i as int));
            assert(all.take(i + 1).last() == log@[i as int]@);
        }
        let ghost before = kept@;
        if !text::eq_str(log[i].text.as_str(), t) {
            kept.push(log[i].clone());
            proof {
                config::lemma_views_push(before, log@[i as int]);
                assert(config::views(kept@) =~= seq![first] + without_text(all.take(i + 1), t@));
            }
        }
        i += 1;
    }
    assert(all.take(i as int) =~= all);
    let ghost before = kept@;
    if kept.len() > BEACONS_KEPT {
        kept.truncate(BEACONS_KEPT);
        assert(config::views(kept@) =~= config::views(before).take(BEACONS_KEPT as int));
    }
    kept
}

// ---------------------------------------------------------------------------
// Pins
// ---------------------------------------------------------------------------

pub open spec fn is_pin(p: PinnedView, port_id: Seq<char>, remote: Seq<char>) -> bool {
    p.port_id == port_id && p.remote == remote
}

pub open spec fn has_pin(pins: Seq<PinnedView>, port_id: Seq<char>, remote: Seq<char>) -> bool {
    exists|i: int| 0 <= i < pins.len() && is_pin(#[trigger] pins[i], port_id, remote)
}

pub open spec fn without_pin(pins: Seq<PinnedView>, port_id: Seq<char>, remote: Seq<char>) -> Seq<
    PinnedView,
>
    decreases pins.len(),
{
    if pins.len() == 0 {
        pins
    } else if is_pin(pins.last(), port_id, remote) {
        without_pin(pins.drop_last(), port_id, remote)
    } else {
        without_pin(pins.drop_last(), port_id, remote).push(pins.last())
    }
}

/// The pins after a tab was pinned, with its current path, or unpinned.
pub open spec fn after_pin(
    pins: Seq<PinnedView>,
    port_id: Seq<char>,
    remote: Seq<char>,
    path: Seq<char>,
    pinned: bool,
) -> Seq<PinnedView> {
    let rest = without_pin(pins, port_id, remote);
    if pinned {
        rest.push(PinnedView { port_id, remote, via: path })
    } else {
        rest
    }
}

// ---------------------------------------------------------------------------
// Contacts
// ---------------------------------------------------------------------------

pub open spec fn after_qso_start(
    log: Seq<QsoView>,
    port_id: Seq<char>,
    callsign: Seq<char>,
    now: Seq<char>,
) -> Seq<QsoView> {
    let call = text::call_text(callsign);
    if call.len() == 0 {
        log
    } else {
        log.push(
            QsoView {
                callsign: call,
                port_id,
                started: now,
                ended: None,
                location: None,
                from_cq: false,
            },
        )
    }
}

pub open spec fn is_open_qso(q: QsoView, port_id: Seq<char>, call: Seq<char>) -> bool {
    q.port_id == port_id && q.callsign == call && q.ended is None
}

/// The position of the latest contact that is still open, or -1.
pub open spec fn open_qso(log: Seq<QsoView>, port_id: Seq<char>, call: Seq<char>) -> int
    decreases log.len(),
{
    if log.len() == 0 || is_open_qso(log.last(), port_id, call) {
        log.len() - 1
    } else {
        open_qso(log.drop_last(), port_id, call)
    }
}

pub open spec fn after_qso_end(
    log: Seq<QsoView>,
    port_id: Seq<char>,
    callsign: Seq<char>,
    now: Seq<char>,
) -> Seq<QsoView> {
    let k = open_qso(log, port_id, text::call_text(callsign));
    if 0 <= k < log.len() {
        log.update(k, QsoView { ended: Some(now), ..log[k] })
    } else {
        log
    }
}

// ---------------------------------------------------------------------------
// Numbered lists
// ---------------------------------------------------------------------------

/// The largest of some numbers, 0 for none.
pub open spec fn largest(ids: Seq<u64>) -> u64
    decreases ids.len(),
{
    if ids.len() == 0 {
        0
    } else if ids.last() > largest(ids.drop_last()) {
        ids.last()
    } else {
        largest(ids.drop_last())
    }
}

pub proof fn lemma_largest(ids: Seq<u64>)
    ensures
        forall|i: int| 0 <= i < ids.len() ==> #[trigger] ids[i] <= largest(ids),
    decreases ids.len(),
{
    if ids.len() > 0 {
        lemma_largest(ids.drop_last());
        assert forall|i: int| 0 <= i < ids.len() implies #[trigger] ids[i] <= largest(ids) by {
            if i < ids.len() - 1 {
                assert(ids.drop_last()[i] == ids[i]);
            }
        }
    }
}

pub open spec fn notified_ids(v: Seq<NotifiedView>) -> Seq<u64> {
    v.map_values(|p: NotifiedView| p.id)
}

pub open spec fn incoming_ids(v: Seq<IncomingView>) -> Seq<u64> {
    v.map_values(|b: IncomingView| b.id)
}

pub open spec fn without_notified(v: Seq<NotifiedView>, id: u64) -> Seq<NotifiedView>
    decreases v.len(),
{
    if v.len() == 0 {
        v
    } else if v.last().id == id {
        without_notified(v.drop_last(), id)
    } else {
        without_notified(v.drop_last(), id).push(v.last())
    }
}

pub open spec fn without_incoming(v: Seq<IncomingView>, id: u64) -> Seq<IncomingView>
    decreases v.len(),
{
    if v.len() == 0 {
        v
    } else if v.last().id == id {
        without_incoming(v.drop_last(), id)
    } else {
        without_incoming(v.drop_last(), id).push(v.last())
    }
}

// ---------------------------------------------------------------------------
// History
// ---------------------------------------------------------------------------

/// The last `max` of some lines.
pub open spec fn last_lines(lines: Seq<Seq<char>>, max: nat) -> Seq<Seq<char>> {
    if lines.len() > max {
        lines.skip(lines.len() - max)
    } else {
        lines
    }
}

/// The lines of a history file that are shown.
pub fn history_tail(content: &str, max_lines: u32) -> (r: Vec<String>)
    ensures
        text::texts(r@) == last_lines(text::lines_of(content@), max_lines as nat),
{
    let lines = text::lines(content);
    let ghost all = text::texts(lines@);
    assert(all.len() == lines@.len());
    let len: usize = lines.len();
    let start: usize = if (len as u64) > max_lines as u64 {
        len - max_lines as usize
    } else {
        0
    };
    let mut r = text::no_texts();
    let mut i: usize = start;
    assert(text::texts(r@) =~= all.subrange(start as int, start as int));
    while i < lines.len()
        invariant
            start <= i <= lines.len(),
            all == text::texts(lines@),
            text::texts(r@) == all.subrange(start as int, i as int),
        decreases lines.len() - i,
    {
        text::add_text(&mut r, lines[i].clone());
        assert(all.subrange(start as int, i + 1) =~= all.subrange(start as int, i as int).push(
            lines@[i as int]@,
        ));
        i += 1;
    }
    assert(text::texts(r@) =~= last_lines(all, max_lines as nat));
    r
}

impl AppState {
    pub fn new(config: AppConfig) -> (r: Self)
        ensures
            r.config == config,
            r.active@.len() == 0,
            r.qrz_session is None,
    {
        AppState { config, active: Vec::new(), qrz_session: None }
    }

    /// Whether a port is up.
    pub fn is_active(&self, id: &str) -> (r: bool)
        ensures
            r == text::texts(self.active@).contains(id@),
    {
        text::list_contains(&self.active, id)
    }

    /// Everything but the address book is as it was.
    pub open spec fn only_book_changed(self, before: AppState) -> bool {
        &&& self.config == (AppConfig { address_book: self.config.address_book, ..before.config })
        &&& self.active == before.active
        &&& self.qrz_session == before.qrz_session
    }

    pub open spec fn book(self) -> Seq<EntryView> {
        config::views(self.config.address_book@)
    }

    /// Records that a station was heard at `now`.
    pub fn record_heard(&mut self, callsign: &str, now: &str) -> (save: bool)
        requires
            can_count(old(self).book(), callsign@),
        ensures
            final(self).book() == after_heard(old(self).book(), callsign@, now@),
            final(self).only_book_changed(*old(self)),
            save == (text::call_text(callsign@).len() > 0),
    {
        hear(&mut self.config.address_book, callsign, now)
    }

    /// Records what a node broadcast at `now`.
    pub fn record_nodes_broadcast(
        &mut self,
        from: &str,
        sender_alias: &str,
        entries: &Vec<NodesBroadcastEntry>,
        now: &str,
    ) -> (save: bool)
        requires
            can_count(old(self).book(), from@),
        ensures
            final(self).book() == after_broadcast(
                old(self).book(),
                from@,
                sender_alias@,
                port::nodes_view(entries@),
                now@,
            ),
            final(self).only_book_changed(*old(self)),
            save == (text::call_text(from@).len() > 0),
    {
        let call = text::trim_upper(from);
        if call.as_str().is_empty() {
            return false;
        }
        let _ = hear(&mut self.config.address_book, from, now);
        learn_alias(&mut self.config.address_book, call.as_str(), sender_alias);
        let ghost base = self.book();
        let ghost nodes = port::nodes_view(entries@);
        let mut i: usize = 0;
        assert(nodes.take(0) =~= Seq::<NodeView>::empty());
        while i < entries.len()
            invariant
                i <= entries.len(),
                nodes == port::nodes_view(entries@),
                self.book() == after_all_named(base, nodes.take(i as int), now@),
                self.only_book_changed(*old(self)),
            decreases entries.len() - i,
        {
            proof {
                assert(nodes.take(i + 1).drop_last() =~= nodes.take(i as int));
                assert(nodes.take(i + 1).last() == port::node_view(entries@[i as int]));
            }
            name_station(&mut self.config.address_book, &entries[i], now);
            i += 1;
        }
        assert(nodes.take(i as int) =~= nodes);
        true
    }

    /// Records a text that a station sent as a beacon at `now`.
    pub fn record_beacon_packet(&mut self, from: &str, message: &str, now: &str) -> (save: bool)
        ensures
            final(self).book() == after_beacon(old(self).book(), from@, message@, now@),
            final(self).only_book_changed(*old(self)),
            save == (text::call_text(from@).len() > 0 && message@.len() > 0),
    {
        let ghost before = self.book();
        let call = text::trim_upper(from);
        if call.as_str().is_empty() || message.is_empty() {
            return false;
        }
        let k: usize = find_call(&self.config.address_book, call.as_str());
        proof {
            lemma_entry_index(before, call@);
        }
        if k >= self.config.address_book.len() {
            let e = new_entry(call);
            self.config.address_book.push(e);
        }
        let ghost full = self.book();
        assert(full =~= if k < before.len() {
            before
        } else {
            before.push(bare_entry(call@))
        });
        let mut e = self.config.address_book.remove(k);
        assert(e@ == full[k as int]);
        let log = remember_text(&e.recent_beacons, message, now);
        e.recent_beacons = log;
        self.config.address_book.insert(k, e);
        assert(self.book() =~= after_beacon(before, from@, message@, now@));
        true
    }

    pub open spec fn pins(self) -> Seq<PinnedView> {
        config::views(self.config.pinned_sessions@)
    }

    pub fn is_pinned(&self, port_id: &str, remote: &str) -> (r: bool)
        ensures
            r == has_pin(self.pins(), port_id@, remote@),
    {
        let ghost all = self.pins();
        let mut i: usize = 0;
        while i < self.config.pinned_sessions.len()
            invariant
                i <= self.config.pinned_sessions.len(),
                all == self.pins(),
                forall|j: int| 0 <= j < i ==> !is_pin(#[trigger] all[j], port_id@, remote@),
            decreases self.config.pinned_sessions.len() - i,
        {
            let p = &self.config.pinned_sessions[i];
            assert(all[i as int] == p@);
            if text::eq_str(p.port_id.as_str(), port_id) && text::eq_str(
                p.remote.as_str(),
                remote,
            ) {
                assert(is_pin(all[i as int], port_id@, remote@));
                return true;
            }
            i += 1;
        }
        false
    }

    /// Pins or unpins a tab. A pin takes the tab's current path.
    pub fn set_pinned(&mut self, port_id: &str, remote: &str, path: &str, pinned: bool)
        ensures
            final(self).pins() == after_pin(old(self).pins(), port_id@, remote@, path@, pinned),
            final(self).config == (AppConfig {
                pinned_sessions: final(self).config.pinned_sessions,
                ..old(self).config
            }),
            final(self).active == old(self).active,
            final(self).qrz_session == old(self).qrz_session,
    {
        let ghost all = self.pins();
        let mut kept: Vec<PinnedSession> = Vec::new();
        let mut i: usize = 0;
        assert(config::views(kept@) =~= without_pin(all.take(0), port_id@, remote@));
        while i < self.config.pinned_sessions.len()
            invariant
                i <= self.config.pinned_sessions.len(),
                all == self.pins(),
                *self == *old(self),
                config::views(kept@) == without_pin(all.take(i as int), port_id@, remote@),
            decreases self.config.pinned_sessions.len() - i,
        {
            let p = &self.config.pinned_sessions[i];
            proof {
                assert(all.take(i + 1).drop_last() =~= all.take(i as int));
                assert(all.take(i + 1).last() == p@);
                config::lemma_views_push(kept@, *p);
            }
            if !(text::eq_str(p.port_id.as_str(), port_id) && text::eq_str(
                p.remote.as_str(),
                remote,
            )) {
                kept.push(p.clone());
            }
            i += 1;
        }
        assert(all.take(i as int) =~= all);
        if pinned {
            let p = PinnedSession {
                port_id: text::owned(port_id),
                remote: text::owned(remote),
                via: text::owned(path),
            };
            proof {
                config::lemma_views_push(kept@, p);
            }
            kept.push(p);
        }
        self.config.pinned_sessions = kept;
    }

    pub open spec fn qsos(self) -> Seq<QsoView> {
        config::views(self.config.qso_log@)
    }

    pub open spec fn only_log_changed(self, before: AppState) -> bool {
        &&& self.config == (AppConfig { qso_log: self.config.qso_log, ..before.config })
        &&& self.active == before.active
        &&& self.qrz_session == before.qrz_session
    }

    /// Logs the start of a contact.
    pub fn log_qso_started(&mut self, port_id: &str, callsign: &str, now: &str) -> (save: bool)
        ensures
            final(self).qsos() == after_qso_start(old(self).qsos(), port_id@, callsign@, now@),
            final(self).only_log_changed(*old(self)),
            save == (text::call_text(callsign@).len() > 0),
    {
        let call = text::trim_upper(callsign);
        if call.as_str().is_empty() {
            return false;
        }
        let entry = QsoLogEntry {
            callsign: call,
            port_id: text::owned(port_id),
            started: text::owned(now),
            ended: None,
            location: None,
            from_cq: false,
        };
        proof {
            config::lemma_views_push(self.config.qso_log@, entry);
        }
        self.config.qso_log.push(entry);
        true
    }

    /// Logs the end of the latest contact that is still open.
    pub fn log_qso_ended(&mut self, port_id: &str, callsign: &str, now: &str)
        ensures
            final(self).qsos() == after_qso_end(old(self).qsos(), port_id@, callsign@, now@),
            final(self).only_log_changed(*old(self)),
    {
        let call = text::trim_upper(callsign);
        let ghost all = self.qsos();
        let mut n: usize = self.config.qso_log.len();
        assert(all.take(n as int) =~= all);
        while n > 0
            invariant
                n <= self.config.qso_log.len(),
                all == self.qsos(),
                *self == *old(self),
                call@ == text::call_text(callsign@),
                open_qso(all, port_id@, call@) == open_qso(all.take(n as int), port_id@, call@),
            decreases n,
        {
            let q = &self.config.qso_log[n - 1];
            assert(all.take(n as int).last() == q@);
            if text::eq_str(q.port_id.as_str(), port_id) && text::eq_str(
                q.callsign.as_str(),
                call.as_str(),
            ) && q.ended.is_none() {
                let k: usize = n - 1;
                let mut e = self.config.qso_log.remove(k);
                e.ended = Some(text::owned(now));
                self.config.qso_log.insert(k, e);
                assert(self.qsos() =~= after_qso_end(all, port_id@, callsign@, now@));
                return;
            }
            assert(all.take(n as int).drop_last() =~= all.take(n - 1));
            n -= 1;
        }
    }

    pub open spec fn notified(self) -> Seq<NotifiedView> {
        config::views(self.config.notified_packets@)
    }

    pub open spec fn only_notified_changed(self, before: AppState) -> bool {
        &&& self.config == (AppConfig {
            notified_packets: self.config.notified_packets,
            ..before.config
        })
        &&& self.active == before.active
        &&& self.qrz_session == before.qrz_session
    }

    /// The largest number of a recorded packet.
    pub fn last_notified(&self) -> (r: u64)
        ensures
            r == largest(notified_ids(self.notified())),
    {
        let ghost ids = notified_ids(self.notified());
        let mut max: u64 = 0;
        let mut i: usize = 0;
        while i < self.config.notified_packets.len()
            invariant
                i <= self.config.notified_packets.len(),
                ids == notified_ids(self.notified()),
                max == largest(ids.take(i as int)),
            decreases self.config.notified_packets.len() - i,
        {
            let id: u64 = self.config.notified_packets[i].id;
            assert(ids.take(i + 1).drop_last() =~= ids.take(i as int));
            assert(ids[i as int] == id);
            if id > max {
                max = id;
            }
            i += 1;
        }
        assert(ids.take(i as int) =~= ids);
        max
    }

    /// Records a packet that raised a notification.
    pub fn record_notified_packet(&mut self, port_id: &str, line: &str, now: &str)
        requires
            largest(notified_ids(old(self).notified())) < u64::MAX,
        ensures
            final(self).notified() == old(self).notified().push(
                NotifiedView {
                    id: (largest(notified_ids(old(self).notified())) + 1) as u64,
                    port_id: port_id@,
                    line: line@,
                    timestamp: now@,
                },
            ),
            final(self).only_notified_changed(*old(self)),
    {
        let max: u64 = self.last_notified();
        let p = NotifiedPacket {
            id: max + 1,
            port_id: text::owned(port_id),
            line: text::owned(line),
            timestamp: text::owned(now),
        };
        proof {
            config::lemma_views_push(self.config.notified_packets@, p);
        }
        self.config.notified_packets.push(p);
    }

    pub fn remove_notified_packet(&mut self, id: u64)
        ensures
            final(self).notified() == without_notified(old(self).notified(), id),
            final(self).only_notified_changed(*old(self)),
    {
        let ghost all = self.notified();
        let mut kept: Vec<NotifiedPacket> = Vec::new();
        let mut i: usize = 0;
        assert(config::views(kept@) =~= without_notified(all.take(0), id));
        while i < self.config.notified_packets.len()
            invariant
                i <= self.config.notified_packets.len(),
                all == self.notified(),
                *self == *old(self),
                config::views(kept@) == without_notified(all.take(i as int), id),
            decreases self.config.notified_packets.len() - i,
        {
            let p = &self.config.notified_packets[i];
            proof {
                assert(all.take(i + 1).drop_last() =~= all.take(i as int));
                assert(all.take(i + 1).last() == p@);
                config::lemma_views_push(kept@, *p);
            }
            if p.id != id {
                kept.push(p.clone());
            }
            i += 1;
        }
        assert(all.take(i as int) =~= all);
        self.config.notified_packets = kept;
    }

    pub open spec fn incoming(self) -> Seq<IncomingView> {
        config::views(self.config.incoming_beacons@)
    }

    pub open spec fn only_incoming_changed(self, before: AppState) -> bool {
        &&& self.config == (AppConfig {
            incoming_beacons: self.config.incoming_beacons,
            ..before.config
        })
        &&& self.active == before.active
        &&& self.qrz_session == before.qrz_session
    }

    /// The largest number of a recorded beacon.
    pub fn last_incoming(&self) -> (r: u64)
        ensures
            r == largest(incoming_ids(self.incoming())),
    {
        let ghost ids = incoming_ids(self.incoming());
        let mut max: u64 = 0;
        let mut i: usize = 0;
        while i < self.config.incoming_beacons.len()
            invariant
                i <= self.config.incoming_beacons.len(),
                ids == incoming_ids(self.incoming()),
                max == largest(ids.take(i as int)),
            decreases self.config.incoming_beacons.len() - i,
        {
            let id: u64 = self.config.incoming_beacons[i].id;
            assert(ids.take(i + 1).drop_last() =~= ids.take(i as int));
            assert(ids[i as int] == id);
            if id > max {
                max = id;
            }
            i += 1;
        }
        assert(ids.take(i as int) =~= ids);
        max
    }

    /// Records a frame that matched a beacon rule.
    pub fn record_incoming_beacon(
        &mut self,
        port_id: &str,
        from: &str,
        to: &str,
        message: &str,
        now: &str,
    )
        requires
            largest(incoming_ids(old(self).incoming())) < u64::MAX,
        ensures
            final(self).incoming() == old(self).incoming().push(
                IncomingView {
                    id: (largest(incoming_ids(old(self).incoming())) + 1) as u64,
                    port_id: port_id@,
                    from: from@,
                    to: to@,
                    message: message@,
                    timestamp: now@,
                },
            ),
            final(self).only_incoming_changed(*old(self)),
    {
        let max: u64 = self.last_incoming();
        let b = IncomingBeacon {
            id: max + 1,
            port_id: text::owned(port_id),
            from: text::owned(from),
            to: text::owned(to),
            message: text::owned(message),
            timestamp: text::owned(now),
        };
        proof {
            config::lemma_views_push(self.config.incoming_beacons@, b);
        }
        self.config.incoming_beacons.push(b);
    }

    pub fn remove_incoming_beacon(&mut self, id: u64)
        ensures
            final(self).incoming() == without_incoming(old(self).incoming(), id),
            final(self).only_incoming_changed(*old(self)),
    {
        let ghost all = self.incoming();
        let mut kept: Vec<IncomingBeacon> = Vec::new();
        let mut i: usize = 0;
        assert(config::views(kept@) =~= without_incoming(all.take(0), id));
        while i < self.config.incoming_beacons.len()
            invariant
                i <= self.config.incoming_beacons.len(),
                all == self.incoming(),
                *self == *old(self),
                config::views(kept@) == without_incoming(all.take(i as int), id),
            decreases self.config.incoming_beacons.len() - i,
        {
            let b = &self.config.incoming_beacons[i];
            proof {
                assert(all.take(i + 1).drop_last() =~= all.take(i as int));
                assert(all.take(i + 1).last() == b@);
                config::lemma_views_push(kept@, *b);
            }
            if b.id != id {
                kept.push(b.clone());
            }
            i += 1;
        }
        assert(all.take(i as int) =~= all);
        self.config.incoming_beacons = kept;
    }

    pub fn clear_incoming_beacons(&mut self)
        ensures
            final(self).incoming().len() == 0,
            final(self).only_incoming_changed(*old(self)),
    {
        self.config.incoming_beacons = Vec::new();
    }
}

// ---------------------------------------------------------------------------
// Ports
// ---------------------------------------------------------------------------

/// The first port with the identifier `id`.
pub open spec fn entry_with(ports: Seq<PortEntry>, id: Seq<char>) -> Option<PortEntry>
    decreases ports.len(),
{
    if ports.len() == 0 {
        None
    } else if ports[0].id@ == id {
        Some(ports[0])
    } else {
        entry_with(ports.skip(1), id)
    }
}

pub fn find_entry(config: &AppConfig, id: &str) -> (r: Option<PortEntry>)
    ensures
        r == entry_with(config.ports@, id@),
{
    let ghost all = config.ports@;
    let mut i: usize = 0;
    assert(all.skip(0) =~= all);
    while i < config.ports.len()
        invariant
            i <= config.ports.len(),
            all == config.ports@,
            entry_with(all, id@) == entry_with(all.skip(i as int), id@),
        decreases config.ports.len() - i,
    {
        assert(all.skip(i as int)[0] == all[i as int]);
        if text::eq_str(config.ports[i].id.as_str(), id) {
            return Some(config.ports[i].clone());
        }
        assert(all.skip(i as int).skip(1) =~= all.skip(i + 1));
        i += 1;
    }
    None
}

/// The history file of one node, where there is a configuration directory.
pub fn history_path(
    config: &AppConfig,
    config_dir: Option<&str>,
    port_id: &str,
    remote: &str,
) -> (r: Option<String>)
    ensures
        text::opt_view(r) == match config_dir {
            Some(dir) => Some(
                history_paths::file_of(
                    dir@,
                    config::name_or_id(config::views(config.ports@), port_id@),
                    remote@,
                ),
            ),
            None => None,
        },
{
    match config_dir {
        Some(dir) => {
            let name = config::port_name(&config.ports, port_id);
            Some(history_paths::history_file_path(dir, name.as_str(), remote))
        },
        None => None,
    }
}

/// What runs a port.
#[derive(Debug)]
pub enum Runner {
    Telnet(TelnetRunner),
    Ssh(SshRunner),
    Agwpe(AgwpeRunner),
    Ax25RawSocket(Ax25RawSocketRunner),
    Kiss(KissRunner),
}

pub open spec fn login_pair(o: Option<(String, String)>) -> Option<(Seq<char>, Seq<char>)> {
    match o {
        Some((u, p)) => Some((u@, p@)),
        None => None,
    }
}

/// `r` runs a port that is configured as `c`.
pub open spec fn runs(r: Runner, c: PortConfig) -> bool {
    match c {
        PortConfig::Telnet { host, port } => r matches Runner::Telnet(t) && t.host@ == host@
            && t.port == port,
        PortConfig::Ssh { host, port, user } => r matches Runner::Ssh(s) && s.host@ == host@
            && s.port == port && s.user@ == user@,
        PortConfig::Agwpe { host, port, radio_port, my_call, login } => r matches Runner::Agwpe(a)
            && a.host@ == host@ && a.tcp_port == port && a.radio_port == radio_port && a.my_call@
            == my_call@ && login_pair(a.login) == config::login_view(login),
        PortConfig::Ax25RawSocket { device } => r matches Runner::Ax25RawSocket(x) && x.device@
            == device@,
        PortConfig::KissTcp { host, port, my_call, kiss_params, kiss_arq } => r matches Runner::Kiss(k)
            && k.transport matches KissTransport::Tcp { host: h, port: p } && h@ == host@ && p
            == port && k.my_call@ == my_call@ && k.params == kiss_params && k.arq == kiss_arq,
        PortConfig::KissSerial { device, baud, my_call, kiss_params, kiss_arq } => r matches Runner::Kiss(k)
            && k.transport matches KissTransport::Serial { device: d, baud: b } && d@ == device@
            && b == baud && k.my_call@ == my_call@ && k.params == kiss_params && k.arq == kiss_arq,
    }
}

/// What is to be run for a port.
pub fn runner_for(config: &PortConfig) -> (r: Runner)
    ensures
        runs(r, *config),
{
    match config {
        PortConfig::Telnet { host, port } => Runner::Telnet(
            TelnetRunner { host: host.clone(), port: *port },
        ),
        PortConfig::Ssh { host, port, user } => Runner::Ssh(
            SshRunner { host: host.clone(), port: *port, user: user.clone() },
        ),
        PortConfig::Agwpe { host, port, radio_port, my_call, login } => Runner::Agwpe(
            AgwpeRunner {
                host: host.clone(),
                tcp_port: *port,
                radio_port: *radio_port,
                my_call: my_call.clone(),
                login: match login {
                    Some(l) => Some((l.username.clone(), l.password.clone())),
                    None => None,
                },
            },
        ),
        PortConfig::Ax25RawSocket { device } => Runner::Ax25RawSocket(
            Ax25RawSocketRunner { device: device.clone() },
        ),
        PortConfig::KissTcp { host, port, my_call, kiss_params, kiss_arq } => Runner::Kiss(
            KissRunner {
                transport: KissTransport::Tcp { host: host.clone(), port: *port },
                my_call: my_call.clone(),
                params: *kiss_params,
                arq: *kiss_arq,
            },
        ),
        PortConfig::KissSerial { device, baud, my_call, kiss_params, kiss_arq } => Runner::Kiss(
            KissRunner {
                transport: KissTransport::Serial { device: device.clone(), baud: *baud },
                my_call: my_call.clone(),
                params: *kiss_params,
                arq: *kiss_arq,
            },
        ),
    }
}

// ---------------------------------------------------------------------------
// Laws
// ---------------------------------------------------------------------------

/// No callsign stands twice in the book.
pub open spec fn calls_distinct(book: Seq<EntryView>) -> bool {
    forall|i: int, j: int|
        0 <= i < j < book.len() ==> (#[trigger] book[i]).callsign != (
        #[trigger] book[j]).callsign
}

/// Recording keeps one entry for each station: hearing a station, a node naming
/// one, and a beacon never make a second entry.
pub proof fn law_one_entry_each(
    book: Seq<EntryView>,
    call: Seq<char>,
    node: NodeView,
    message: Seq<char>,
    now: Seq<char>,
)
    requires
        calls_distinct(book),
    ensures
        calls_distinct(after_heard(book, call, now)),
        calls_distinct(after_named(book, node, now)),
        calls_distinct(after_beacon(book, call, message, now)),
{
    lemma_entry_index(book, text::call_text(call));
    lemma_entry_index(book, text::call_text(node.callsign));
    lemma_keeps_distinct(book, after_heard(book, call, now), text::call_text(call));
    lemma_keeps_distinct(book, after_named(book, node, now), text::call_text(node.callsign));
    lemma_keeps_distinct(book, after_beacon(book, call, message, now), text::call_text(call));
}

proof fn lemma_keeps_distinct(book: Seq<EntryView>, next: Seq<EntryView>, call: Seq<char>)
    requires
        calls_distinct(book),
        next.len() == book.len() || next.len() == book.len() + 1,
        forall|i: int|
            0 <= i < book.len() ==> (#[trigger] next[i]).callsign == book[i].callsign,
        next.len() > book.len() ==> next.last().callsign == call && forall|i: int|
            0 <= i < book.len() ==> (#[trigger] book[i]).callsign != call,
    ensures
        calls_distinct(next),
{
    assert forall|i: int, j: int| 0 <= i < j < next.len() implies (#[trigger] next[i]).callsign
        != (#[trigger] next[j]).callsign by {
        assert(next[i].callsign == book[i].callsign);
        if j < book.len() {
            assert(next[j].callsign == book[j].callsign);
        }
    }
}

/// Hearing a station changes no other entry, and keeps what was entered by hand.
pub proof fn law_hearing_keeps_notes(book: Seq<EntryView>, call: Seq<char>, now: Seq<char>, i: int)
    requires
        0 <= i < book.len(),
    ensures
        ({
            let after = after_heard(book, call, now);
            &&& book.len() <= after.len() <= book.len() + 1
            &&& after[i].callsign == book[i].callsign
            &&& after[i].name == book[i].name
            &&& after[i].alias == book[i].alias
            &&& after[i].location == book[i].location
            &&& after[i].notes == book[i].notes
            &&& after[i].via == book[i].via
            &&& after[i].home_bbs == book[i].home_bbs
            &&& book[i].callsign != text::call_text(call) ==> after[i] == book[i]
        }),
{
    lemma_entry_index(book, text::call_text(call));
}

/// A node's broadcast never counts as hearing the stations that it lists, and never
/// replaces an alias.
pub proof fn law_naming_is_not_hearing(book: Seq<EntryView>, node: NodeView, now: Seq<char>, i: int)
    requires
        0 <= i < book.len(),
    ensures
        ({
            let after = after_named(book, node, now);
            &&& after[i].heard_count == book[i].heard_count
            &&& after[i].heard_direct == book[i].heard_direct
            &&& text::or_empty(book[i].alias).len() > 0 ==> after[i].alias == book[i].alias
            &&& after.len() > book.len() ==> !after.last().heard_direct
                && after.last().heard_count == 0
        }),
{
    lemma_entry_index(book, text::call_text(node.callsign));
}

pub open spec fn texts_distinct(log: Seq<BeaconTextView>) -> bool {
    forall|i: int, j: int|
        0 <= i < j < log.len() ==> (#[trigger] log[i]).text != (#[trigger] log[j]).text
}

proof fn lemma_without_text(log: Seq<BeaconTextView>, t: Seq<char>)
    ensures
        without_text(log, t).len() <= log.len(),
        forall|i: int|
            0 <= i < without_text(log, t).len() ==> (#[trigger] without_text(log, t)[i]).text != t
                && log.contains(without_text(log, t)[i]),
        texts_distinct(log) ==> texts_distinct(without_text(log, t)),
    decreases log.len(),
{
    if log.len() > 0 {
        let front = log.drop_last();
        lemma_without_text(front, t);
        let kept = without_text(front, t);
        let all = without_text(log, t);
        assert forall|i: int| 0 <= i < all.len() implies (#[trigger] all[i]).text != t
            && log.contains(all[i]) by {
            if i < kept.len() {
                assert(all[i] == kept[i]);
                assert(front.contains(kept[i]));
                let j = front.index_of(kept[i]);
                assert(log[j] == kept[i]);
            } else {
                assert(log[log.len() - 1] == all[i]);
            }
        }
        if texts_distinct(log) {
            assert(texts_distinct(front)) by {
                assert forall|i: int, j: int| 0 <= i < j < front.len() implies (
                #[trigger] front[i]).text != (#[trigger] front[j]).text by {
                    assert(log[i].text != log[j].text);
                }
            }
            assert forall|i: int, j: int| 0 <= i < j < all.len() implies (
            #[trigger] all[i]).text != (#[trigger] all[j]).text by {
                if j < kept.len() {
                    assert(kept[i].text != kept[j].text);
                } else {
                    assert(front.contains(kept[i]));
                    let m = front.index_of(kept[i]);
                    assert(log[m].text != log[log.len() - 1].text);
                }
            }
        }
    }
}

/// Of a station's beacons the last few different texts are kept: at most five, no
/// text twice, the newest first.
pub proof fn law_beacon_texts(log: Seq<BeaconTextView>, t: Seq<char>, now: Seq<char>)
    requires
        texts_distinct(log),
    ensures
        after_text(log, t, now).len() <= BEACONS_KEPT,
        texts_distinct(after_text(log, t, now)),
        after_text(log, t, now)[0] == (BeaconTextView { text: t, when: now }),
{
    lemma_without_text(log, t);
    let rest = without_text(log, t);
    let all = seq![BeaconTextView { text: t, when: now }] + rest;
    assert forall|i: int, j: int| 0 <= i < j < all.len() implies (#[trigger] all[i]).text != (
    #[trigger] all[j]).text by {
        assert(all[j] == rest[j - 1]);
        if i > 0 {
            assert(all[i] == rest[i - 1]);
        }
    }
    let after = after_text(log, t, now);
    assert forall|i: int, j: int| 0 <= i < j < after.len() implies (#[trigger] after[i]).text != (
    #[trigger] after[j]).text by {
        assert(after[i] == all[i] && after[j] == all[j]);
    }
}

proof fn lemma_without_pin(pins: Seq<PinnedView>, port_id: Seq<char>, remote: Seq<char>)
    ensures
        forall|i: int|
            0 <= i < without_pin(pins, port_id, remote).len() ==> !is_pin(
                #[trigger] without_pin(pins, port_id, remote)[i],
                port_id,
                remote,
            ),
        forall|p: PinnedView|
            !is_pin(p, port_id, remote) ==> (without_pin(pins, port_id, remote).contains(p)
                <==> #[trigger] pins.contains(p)),
    decreases pins.len(),
{
    if pins.len() > 0 {
        let front = pins.drop_last();
        lemma_without_pin(front, port_id, remote);
        let kept = without_pin(front, port_id, remote);
        let all = without_pin(pins, port_id, remote);
        assert forall|p: PinnedView| !is_pin(p, port_id, remote) implies (all.contains(p)
            <==> #[trigger] pins.contains(p)) by {
            if pins.contains(p) {
                let j = pins.index_of(p);
                if j < front.len() {
                    assert(front[j] == p);
                    assert(front.contains(p));
                    let m = kept.index_of(p);
                    assert(all[m] == p);
                } else {
                    assert(all[all.len() - 1] == p);
                }
            }
            if all.contains(p) {
                let m = all.index_of(p);
                if m < kept.len() {
                    assert(kept[m] == p);
                    assert(kept.contains(p));
                    assert(front.contains(p));
                    let j = front.index_of(p);
                    assert(pins[j] == p);
                } else {
                    assert(pins[pins.len() - 1] == p);
                }
            }
        }
    }
}

/// A tab is pinned after it was pinned and not after it was unpinned, and pinning
/// one tab leaves the others alone.
pub proof fn law_pinning(
    pins: Seq<PinnedView>,
    port_id: Seq<char>,
    remote: Seq<char>,
    path: Seq<char>,
    pinned: bool,
    other_port: Seq<char>,
    other_remote: Seq<char>,
)
    requires
        other_port != port_id || other_remote != remote,
    ensures
        has_pin(after_pin(pins, port_id, remote, path, pinned), port_id, remote) == pinned,
        has_pin(after_pin(pins, port_id, remote, path, pinned), other_port, other_remote)
            == has_pin(pins, other_port, other_remote),
{
    lemma_without_pin(pins, port_id, remote);
    let rest = without_pin(pins, port_id, remote);
    let after = after_pin(pins, port_id, remote, path, pinned);
    if pinned {
        assert(is_pin(after[after.len() - 1], port_id, remote));
    }
    if has_pin(after, other_port, other_remote) {
        let i = choose|i: int|
            0 <= i < after.len() && is_pin(#[trigger] after[i], other_port, other_remote);
        assert(i < rest.len());
        assert(rest[i] == after[i]);
        assert(rest.contains(after[i]));
        assert(pins.contains(after[i]));
        let j = pins.index_of(after[i]);
        assert(is_pin(pins[j], other_port, other_remote));
    }
    if has_pin(pins, other_port, other_remote) {
        let j = choose|j: int|
            0 <= j < pins.len() && is_pin(#[trigger] pins[j], other_port, other_remote);
        assert(pins.contains(pins[j]));
        assert(rest.contains(pins[j]));
        let i = rest.index_of(pins[j]);
        assert(after[i] == pins[j]);
        assert(is_pin(after[i], other_port, other_remote));
    }
}

/// A recorded packet has a number that no packet had before.
pub proof fn law_numbers_are_new(ids: Seq<u64>)
    requires
        largest(ids) < u64::MAX,
    ensures
        !ids.contains((largest(ids) + 1) as u64),
{
    lemma_largest(ids);
}

/// A port is run with what it is configured with: its own host and number, device and
/// rate, callsign, login and parameters.
pub proof fn law_runner_parameters(r: Runner, c: PortConfig)
    requires
        runs(r, c),
    ensures
        match r {
            Runner::Telnet(t) => c@ == (config::PortConfigView::Telnet {
                host: t.host@,
                port: t.port,
            }),
            Runner::Ssh(s) => c@ == (config::PortConfigView::Ssh {
                host: s.host@,
                port: s.port,
                user: s.user@,
            }),
            Runner::Agwpe(a) => c@ == (config::PortConfigView::Agwpe {
                host: a.host@,
                port: a.tcp_port,
                radio_port: a.radio_port,
                my_call: a.my_call@,
                login: match a.login {
                    Some((user, password)) => Some((user@, password@)),
                    None => None,
                },
            }),
            Runner::Ax25RawSocket(x) => c@ == (config::PortConfigView::Ax25RawSocket {
                device: x.device@,
            }),
            Runner::Kiss(k) => match k.transport {
                KissTransport::Tcp { host, port } => c@ == (config::PortConfigView::KissTcp {
                    host: host@,
                    port,
                    my_call: k.my_call@,
                    kiss_params: k.params,
                    kiss_arq: k.arq,
                }),
                KissTransport::Serial { device, baud } => c@ == (config::PortConfigView::KissSerial {
                    device: device@,
                    baud,
                    my_call: k.my_call@,
                    kiss_params: k.params,
                    kiss_arq: k.arq,
                }),
                KissTransport::Ble { .. } => false,
            },
        },
{
}

proof fn lemma_notified_removed(v: Seq<NotifiedView>, id: u64)
    ensures
        without_notified(v, id) == v.filter(|p: NotifiedView| p.id != id),
    decreases v.len(),
{
    reveal(Seq::filter);
    if v.len() > 0 {
        lemma_notified_removed(v.drop_last(), id);
    }
}

proof fn lemma_incoming_removed(v: Seq<IncomingView>, id: u64)
    ensures
        without_incoming(v, id) == v.filter(|b: IncomingView| b.id != id),
    decreases v.len(),
{
    reveal(Seq::filter);
    if v.len() > 0 {
        lemma_incoming_removed(v.drop_last(), id);
    }
}

/// A recorded packet that is removed goes by its number, and the others stay in their
/// order.
pub proof fn law_other_packets_stay(v: Seq<NotifiedView>, w: Seq<IncomingView>, id: u64)
    ensures
        without_notified(v, id) == v.filter(|p: NotifiedView| p.id != id),
        without_incoming(w, id) == w.filter(|b: IncomingView| b.id != id),
{
    lemma_notified_removed(v, id);
    lemma_incoming_removed(w, id);
}

} // verus!
