//! What lists hold after something was picked out of them, taken from them or put
//! into them.

use vstd::prelude::*;

use crate::address_book::{self, EntryForm, SortMode};
use crate::app_state;
use crate::beacons;
use crate::config::{
    self, BeaconView, EntryView, IncomingView, MessageView, NotifiedView, PinnedView, PortView, RuleView,
};
use crate::dial;
use crate::ports::{self, ChoiceView, PortForm};
use crate::raw_socket;
use crate::record_laws;
use crate::session_tab;
use crate::settings;
use crate::sorting;
use crate::startup;
use crate::text;
use crate::text_laws;

verus! {

// ---------------------------------------------------------------------------
// Ports
// ---------------------------------------------------------------------------

proof fn lemma_dialable(v: Seq<PortView>)
    ensures
        dial::dialable_ports(v) == v.filter(|p: PortView| session_tab::dialable(p.config)),
    decreases v.len(),
{
    reveal(Seq::filter);
    if v.len() > 0 {
        lemma_dialable(v.drop_last());
    }
}

proof fn lemma_favorites(v: Seq<PortView>)
    ensures
        startup::favorite_ports(v) == v.filter(|p: PortView| p.favorite),
    decreases v.len(),
{
    reveal(Seq::filter);
    if v.len() > 0 {
        lemma_favorites(v.drop_last());
    }
}

proof fn lemma_autoconnecting(v: Seq<PortView>)
    ensures
        ({
            let some = v.filter(|p: PortView| p.autoconnect);
            let ids = startup::autoconnecting(v);
            &&& ids.len() == some.len()
            &&& forall|i: int| 0 <= i < ids.len() ==> #[trigger] ids[i] == some[i].id
        }),
    decreases v.len(),
{
    reveal(Seq::filter);
    if v.len() > 0 {
        lemma_autoconnecting(v.drop_last());
    }
}

/// The ports that can be dialed, the favorites and the ports that start with the
/// program are picked out of all ports, each that qualifies and in their order.
pub proof fn law_ports_picked(v: Seq<PortView>)
    ensures
        dial::dialable_ports(v) == v.filter(|p: PortView| session_tab::dialable(p.config)),
        startup::favorite_ports(v) == v.filter(|p: PortView| p.favorite),
        ({
            let some = v.filter(|p: PortView| p.autoconnect);
            let ids = startup::autoconnecting(v);
            &&& ids.len() == some.len()
            &&& forall|i: int| 0 <= i < ids.len() ==> #[trigger] ids[i] == some[i].id
        }),
{
    lemma_dialable(v);
    lemma_favorites(v);
    lemma_autoconnecting(v);
}

proof fn lemma_choices(v: Seq<PortView>, selected: Seq<Seq<char>>)
    ensures
        ({
            let some = v.filter(|p: PortView| session_tab::connects(p.config));
            let c = ports::choices(v, selected);
            &&& c.len() == some.len()
            &&& forall|i: int|
                0 <= i < c.len() ==> (#[trigger] c[i]).id == some[i].id && (c[i].active <==> (
                selected.len() == 0 || selected.contains(some[i].id)))
        }),
    decreases v.len(),
{
    reveal(Seq::filter);
    if v.len() > 0 {
        lemma_choices(v.drop_last(), selected);
    }
}

proof fn lemma_chosen(v: Seq<ChoiceView>)
    ensures
        ({
            let some = v.filter(|c: ChoiceView| c.active);
            let ids = ports::chosen(v);
            &&& ids.len() == some.len()
            &&& forall|i: int| 0 <= i < ids.len() ==> #[trigger] ids[i] == some[i].id
        }),
    decreases v.len(),
{
    reveal(Seq::filter);
    if v.len() > 0 {
        lemma_chosen(v.drop_last());
    }
}

/// To listen on can be chosen every port that takes connections, and no other. Those
/// that were selected are chosen already, or all where none was. What is chosen comes
/// out in order.
pub proof fn law_listening_choices(v: Seq<PortView>, selected: Seq<Seq<char>>, c: Seq<ChoiceView>)
    ensures
        ({
            let some = v.filter(|p: PortView| session_tab::connects(p.config));
            let all = ports::choices(v, selected);
            &&& all.len() == some.len()
            &&& forall|i: int|
                0 <= i < all.len() ==> (#[trigger] all[i]).id == some[i].id && (all[i].active
                    <==> (selected.len() == 0 || selected.contains(some[i].id)))
        }),
        ({
            let some = c.filter(|x: ChoiceView| x.active);
            let ids = ports::chosen(c);
            &&& ids.len() == some.len()
            &&& forall|i: int| 0 <= i < ids.len() ==> #[trigger] ids[i] == some[i].id
            &&& ids.len() < c.len() ==> ports::collapsed(c) == ids
        }),
{
    lemma_choices(v, selected);
    lemma_chosen(c);
}

proof fn lemma_announcing(v: Seq<PortView>, listen: Seq<Seq<char>>)
    ensures
        ({
            let some = v.filter(
                |p: PortView|
                    (listen.len() == 0 || listen.contains(p.id)) && session_tab::sends_unproto(
                        p.config,
                    ),
            );
            let ids = settings::announcing_ports(v, listen);
            &&& ids.len() == some.len()
            &&& forall|i: int| 0 <= i < ids.len() ==> #[trigger] ids[i] == some[i].id
        }),
    decreases v.len(),
{
    reveal(Seq::filter);
    if v.len() > 0 {
        lemma_announcing(v.drop_last(), listen);
    }
}

/// An announcement goes out over every port that is listened on and can send it, and
/// over no other.
pub proof fn law_announced_over(v: Seq<PortView>, listen: Seq<Seq<char>>)
    ensures
        ({
            let some = v.filter(
                |p: PortView|
                    (listen.len() == 0 || listen.contains(p.id)) && session_tab::sends_unproto(
                        p.config,
                    ),
            );
            let ids = settings::announcing_ports(v, listen);
            &&& ids.len() == some.len()
            &&& forall|i: int| 0 <= i < ids.len() ==> #[trigger] ids[i] == some[i].id
        }),
{
    lemma_announcing(v, listen);
}

/// Every pin opens a tab with its own port, node and path.
pub proof fn law_pins_open_tabs(pins: Seq<PinnedView>)
    ensures
        startup::prefills(pins).len() == pins.len(),
        forall|i: int|
            0 <= i < pins.len() ==> (#[trigger] startup::prefills(pins)[i]).port_id
                == pins[i].port_id && startup::prefills(pins)[i].remote == pins[i].remote
                && startup::prefills(pins)[i].path == pins[i].via && !startup::prefills(
                pins,
            )[i].unproto,
{
}

/// Dialing opens a tab on the selected port for the node and the path that were
/// entered, and tells what is missing otherwise.
pub proof fn law_dialed_form(
    v: Seq<PortView>,
    selected: int,
    active: Seq<Seq<char>>,
    node: Seq<char>,
    path: Seq<char>,
    connect: bool,
)
    requires
        0 <= selected,
    ensures
        ({
            let r = dial::dial_result(v, selected, active, node, path, connect);
            &&& r is Ok <==> selected < v.len() && (connect ==> active.contains(v[selected].id))
                && (session_tab::connects(v[selected].config) ==> text::call_text(node).len() > 0)
            &&& r matches Ok(p) ==> p.port_id == v[selected].id && p.remote == text::call_text(node)
                && p.path == session_tab::path_text(v[selected].config, path) && !p.unproto
        }),
{
}

proof fn lemma_port_at(v: Seq<PortView>, id: Seq<char>, k: int)
    requires
        0 <= k < v.len(),
        v[k].id == id,
        forall|j: int| 0 <= j < k ==> (#[trigger] v[j]).id != id,
    ensures
        ports::port_index(v, id) == k,
    decreases v.len(),
{
    if k > 0 {
        assert(v[0].id != id);
        assert(v.skip(1)[k - 1] == v[k]);
        assert forall|j: int| 0 <= j < k - 1 implies (#[trigger] v.skip(1)[j]).id != id by {
            assert(v.skip(1)[j] == v[j + 1]);
        }
        lemma_port_at(v.skip(1), id, k - 1);
    }
}

/// A saved port holds what the form says, in its own place, or at the end under a new
/// identifier; the other ports stay as they are.
pub proof fn law_port_saved(v: Seq<PortView>, form: PortForm, fresh: Seq<char>, k: int)
    requires
        text::trimmed(form.name@).len() > 0,
        ports::kind_in(form.kind) is Ok,
    ensures
        ports::after_save(v, None, form, fresh) matches Ok(after) && after.len() == v.len() + 1
            && after.drop_last() == v && after.last().id == fresh && after.last().name == form.name@
            && after.last().config == ports::kind_in(form.kind)->Ok_0 && after.last().autoconnect
            == form.autoconnect && after.last().favorite == form.favorite,
        0 <= k < v.len() && (forall|j: int| 0 <= j < k ==> (#[trigger] v[j]).id != v[k].id) ==> (
        ports::after_save(v, Some(v[k].id), form, fresh) matches Ok(after) && after.len()
            == v.len() && after[k].id == v[k].id && after[k].name == form.name@ && after[k].config
            == ports::kind_in(form.kind)->Ok_0 && after[k].autoconnect == form.autoconnect
            && after[k].favorite == form.favorite && forall|j: int|
            0 <= j < v.len() && j != k ==> #[trigger] after[j] == v[j]),
{
    let c = ports::kind_in(form.kind)->Ok_0;
    assert(ports::after_save(v, None, form, fresh)->Ok_0.drop_last() =~= v);
    if 0 <= k < v.len() && (forall|j: int| 0 <= j < k ==> (#[trigger] v[j]).id != v[k].id) {
        lemma_port_at(v, v[k].id, k);
    }
}

/// A port that moves changes places with its neighbor, and the others stay.
pub proof fn law_port_moves(v: Seq<PortView>, k: int, up: bool)
    requires
        0 <= k < v.len(),
        forall|j: int| 0 <= j < k ==> (#[trigger] v[j]).id != v[k].id,
    ensures
        ({
            let n = if up {
                k - 1
            } else {
                k + 1
            };
            let after = ports::after_move(v, v[k].id, up);
            &&& after.len() == v.len()
            &&& 0 <= n < v.len() ==> after[n] == v[k] && after[k] == v[n] && forall|j: int|
                0 <= j < v.len() && j != k && j != n ==> #[trigger] after[j] == v[j]
            &&& !(0 <= n < v.len()) ==> after == v
        }),
{
    lemma_port_at(v, v[k].id, k);
}

// ---------------------------------------------------------------------------
// What is removed
// ---------------------------------------------------------------------------

proof fn lemma_port_removed(v: Seq<PortView>, id: Seq<char>)
    ensures
        ports::without_port(v, id) == v.filter(|p: PortView| p.id != id),
    decreases v.len(),
{
    reveal(Seq::filter);
    if v.len() > 0 {
        lemma_port_removed(v.drop_last(), id);
    }
}

proof fn lemma_message_removed(v: Seq<MessageView>, id: u64)
    ensures
        settings::without_message(v, id) == v.filter(|m: MessageView| m.id != id),
    decreases v.len(),
{
    reveal(Seq::filter);
    if v.len() > 0 {
        lemma_message_removed(v.drop_last(), id);
    }
}

proof fn lemma_beacon_removed(v: Seq<BeaconView>, id: Seq<char>)
    ensures
        beacons::without_beacon(v, id) == v.filter(|b: BeaconView| b.id != id || b.pinned),
    decreases v.len(),
{
    reveal(Seq::filter);
    if v.len() > 0 {
        lemma_beacon_removed(v.drop_last(), id);
    }
}

proof fn lemma_station_removed(v: Seq<EntryView>, call: Seq<char>)
    ensures
        address_book::without_call(v, call) == v.filter(|e: EntryView| e.callsign != call),
    decreases v.len(),
{
    reveal(Seq::filter);
    if v.len() > 0 {
        lemma_station_removed(v.drop_last(), call);
    }
}

/// What is removed goes, and all the rest stays in its order; of the beacons a pinned
/// one stays in any case.
pub proof fn law_rest_stays(
    p: Seq<PortView>,
    m: Seq<MessageView>,
    b: Seq<BeaconView>,
    e: Seq<EntryView>,
    id: Seq<char>,
    number: u64,
)
    ensures
        ports::without_port(p, id) == p.filter(|x: PortView| x.id != id),
        settings::without_message(m, number) == m.filter(|x: MessageView| x.id != number),
        beacons::without_beacon(b, id) == b.filter(|x: BeaconView| x.id != id || x.pinned),
        address_book::without_call(e, id) == e.filter(|x: EntryView| x.callsign != id),
{
    lemma_port_removed(p, id);
    lemma_message_removed(m, number);
    lemma_beacon_removed(b, id);
    lemma_station_removed(e, id);
}

// ---------------------------------------------------------------------------
// Beacons and rules
// ---------------------------------------------------------------------------

proof fn lemma_book_rules(v: Seq<RuleView>)
    ensures
        beacons::book_rules(v) == v.filter(|r: RuleView| r.from_address_book),
    decreases v.len(),
{
    reveal(Seq::filter);
    if v.len() > 0 {
        lemma_book_rules(v.drop_last());
    }
}

proof fn lemma_edited_rules(v: Seq<RuleView>)
    ensures
        ({
            let own = v.filter(|r: RuleView| !r.from_address_book);
            let e = beacons::edited_rules(v);
            &&& e.len() == own.len()
            &&& forall|i: int|
                0 <= i < e.len() ==> (#[trigger] e[i]).pattern == own[i].pattern && e[i].sender
                    == own[i].sender && e[i].enabled == own[i].enabled && !e[i].from_address_book
        }),
    decreases v.len(),
{
    reveal(Seq::filter);
    if v.len() > 0 {
        lemma_edited_rules(v.drop_last());
    }
}

/// Saving rules keeps those of the address book, all of them and as they were, and
/// behind them stand the edited ones, with their patterns and senders.
pub proof fn law_rules_saved(rules: Seq<RuleView>, edited: Seq<RuleView>, valid: Seq<bool>)
    requires
        beacons::bad_pattern(edited, valid) is None,
    ensures
        ({
            let kept = rules.filter(|r: RuleView| r.from_address_book);
            let own = edited.filter(|r: RuleView| !r.from_address_book);
            &&& beacons::after_rules_saved(rules, edited, valid) matches Ok(after)
            &&& after.len() == kept.len() + own.len()
            &&& after.take(kept.len() as int) == kept
            &&& forall|i: int|
                0 <= i < own.len() ==> (#[trigger] own[i]).pattern == after[kept.len() + i].pattern
                    && own[i].sender == after[kept.len() + i].sender && own[i].enabled
                    == after[kept.len() + i].enabled
        }),
{
    lemma_book_rules(rules);
    lemma_edited_rules(edited);
    let kept = rules.filter(|r: RuleView| r.from_address_book);
    let e = beacons::edited_rules(edited);
    let after = beacons::after_rules_saved(rules, edited, valid)->Ok_0;
    assert(after.take(kept.len() as int) =~= kept);
    assert forall|i: int| 0 <= i < e.len() implies #[trigger] after[kept.len() + i] == e[i] by {}
    let own = edited.filter(|r: RuleView| !r.from_address_book);
    assert forall|i: int| 0 <= i < own.len() implies (#[trigger] own[i]).pattern
        == after[kept.len() + i].pattern && own[i].sender == after[kept.len() + i].sender
        && own[i].enabled == after[kept.len() + i].enabled by {
        assert(after[kept.len() + i] == e[i]);
    }
}

// ---------------------------------------------------------------------------
// The address book
// ---------------------------------------------------------------------------

/// A search text stands in the callsign, the alias or the name of an entry, in any
/// case. Nothing stands in every entry.
pub open spec fn answers_search(e: EntryView, wanted: Seq<char>) -> bool {
    ||| wanted.len() == 0
    ||| text::contains_text(text::lower_text(e.callsign), wanted)
    ||| e.alias is Some && text::contains_text(text::lower_text(e.alias->0), wanted)
    ||| e.name is Some && text::contains_text(text::lower_text(e.name->0), wanted)
}

proof fn lemma_matching(book: Seq<EntryView>, wanted: Seq<char>)
    ensures
        address_book::matching(book, wanted) == book.filter(
            |e: EntryView| answers_search(e, wanted),
        ),
    decreases book.len(),
{
    reveal(Seq::filter);
    if book.len() > 0 {
        lemma_matching(book.drop_last(), wanted);
        let e = book.last();
        assert(address_book::entry_matches(e, wanted) == answers_search(e, wanted)) by {
            if wanted.len() > 0 {
                lemma_not_in_nothing(wanted);
            }
        }
    }
}

proof fn lemma_not_in_nothing(wanted: Seq<char>)
    requires
        wanted.len() > 0,
    ensures
        !text::contains_text(text::lower_text(text::or_empty(None)), wanted),
{
    let none = text::lower_text(text::or_empty(None));
    assert(none.len() == 0);
}

/// A search finds every entry that the text stands in, once, and no other, in the
/// order that is asked for.
pub proof fn law_search_is_complete(book: Seq<EntryView>, filter: Seq<char>, sort: SortMode)
    requires
        book.len() <= usize::MAX,
    ensures
        ({
            let wanted = text::lower_text(text::trimmed(filter));
            let all = book.filter(|e: EntryView| answers_search(e, wanted));
            let found = address_book::found(book, filter, sort);
            &&& found.len() == all.len()
            &&& forall|i: int| 0 <= i < all.len() ==> found.contains(#[trigger] all[i])
            &&& forall|i: int, j: int|
                0 <= i < j < found.len() ==> !sorting::key_before(
                    address_book::entry_key(#[trigger] found[j], sort),
                    address_book::entry_key(#[trigger] found[i], sort),
                    true,
                )
        }),
{
    let wanted = text::lower_text(text::trimmed(filter));
    lemma_matching(book, wanted);
    let m = address_book::matching(book, wanted);
    book.lemma_filter_len(|e: EntryView| answers_search(e, wanted));
    let keys = address_book::entry_keys(m, sort);
    sorting::law_sorted(keys, m.len(), true);
    let order = sorting::sorted_positions(keys, m.len(), true);
    let found = address_book::found(book, filter, sort);
    sorting::lemma_positions_below(keys, m.len(), true);
    assert forall|i: int| 0 <= i < m.len() implies found.contains(#[trigger] m[i]) by {
        assert(order.contains(i as usize));
        let k = order.index_of(i as usize);
        assert(found[k] == m[i]);
    }
    assert forall|i: int, j: int| 0 <= i < j < found.len() implies !sorting::key_before(
        address_book::entry_key(#[trigger] found[j], sort),
        address_book::entry_key(#[trigger] found[i], sort),
        true,
    ) by {
        assert(found[i] == m[order[i] as int] && found[j] == m[order[j] as int]);
        assert(keys[order[i] as int] == address_book::entry_key(found[i], sort));
        assert(keys[order[j] as int] == address_book::entry_key(found[j], sort));
    }
}

/// A saved entry holds what the form says, at the place of the entry that is edited,
/// or of the station itself; the other entries stay.
pub proof fn law_entry_saved(book: Seq<EntryView>, original: Option<Seq<char>>, f: EntryForm) -> (i:
    int)
    requires
        text::call_text(f.callsign@).len() > 0,
    ensures
        record_laws::is_place(
            book,
            match original {
                Some(c) => c,
                None => text::call_text(f.callsign@),
            },
            i,
        ),
        address_book::after_save(book, original, f) matches Ok(after)
            && record_laws::differs_at(book, after, i) && after[i].callsign == text::call_text(
            f.callsign@,
        ) && text::or_empty(after[i].alias) == f.alias@ && text::or_empty(after[i].name) == f.name@
            && text::or_empty(after[i].location) == f.location@ && text::or_empty(after[i].notes)
            == f.notes@ && after[i].via == text::call_text(f.path@) && after[i].home_bbs
            == text::call_text(f.home_bbs@),
{
    let key = match original {
        Some(c) => c,
        None => text::call_text(f.callsign@),
    };
    app_state::lemma_entry_index(book, key);
    app_state::entry_index(book, key)
}

// ---------------------------------------------------------------------------
// The kernel's ports
// ---------------------------------------------------------------------------

/// A line of the file of ports names the device and its callsign, and describes it
/// behind three numbers.
pub proof fn law_axport_line(
    device: Seq<char>,
    call: Seq<char>,
    speed: Seq<char>,
    size: Seq<char>,
    window: Seq<char>,
    description: Seq<char>,
)
    requires
        text_laws::is_word(device),
        device[0] != '#',
        text_laws::is_word(call),
        text_laws::is_word(speed),
        text_laws::is_word(size),
        text_laws::is_word(window),
        text_laws::is_word(description),
    ensures
        raw_socket::axport_line(
            device + seq![' '] + (call + seq![' '] + (speed + seq![' '] + (size + seq![' '] + (window
                + seq![' '] + description)))),
        ) == Some(raw_socket::AxPortView { device, callsign: call, description }),
{
    let e = window + seq![' '] + description;
    let d = size + seq![' '] + e;
    let c = speed + seq![' '] + d;
    let b = call + seq![' '] + c;
    let a = device + seq![' '] + b;
    text_laws::law_words(description, ' ', Seq::empty());
    text_laws::law_words(window, ' ', description);
    text_laws::law_words(size, ' ', e);
    text_laws::law_words(speed, ' ', d);
    text_laws::law_words(call, ' ', c);
    text_laws::law_words(device, ' ', b);
    let none = Seq::<char>::empty();
    assert(a.last() == description.last());
    assert(!text::is_space(description[description.len() - 1]));
    assert(a[0] == device[0]);
    assert(!text::is_space(device[0]));
    text_laws::law_trimmed(none, a, none);
    assert(none + a + none =~= a);
    let w = text::words_of(a);
    assert(w =~= seq![device, call, speed, size, window, description]);
    assert(w.skip(5) =~= seq![description]);
}

// ---------------------------------------------------------------------------
// In order of time
// ---------------------------------------------------------------------------

/// `order` names each of `n` items once.
pub open spec fn names_each(order: Seq<usize>, n: nat) -> bool {
    &&& order.len() == n
    &&& forall|k: usize| k < n ==> #[trigger] order.contains(k)
    &&& forall|i: int| 0 <= i < order.len() ==> #[trigger] order[i] < n
}

/// `order` names the items the newest first.
pub open spec fn newest_first(times: Seq<Seq<char>>, order: Seq<usize>) -> bool {
    &&& names_each(order, times.len())
    &&& forall|i: int, j: int|
        0 <= i < j < order.len() ==> !sorting::text_before(
            times[(#[trigger] order[i]) as int],
            times[(#[trigger] order[j]) as int],
        )
}

proof fn lemma_newest_first(times: Seq<Seq<char>>, keys: Seq<sorting::KeyView>)
    requires
        keys.len() == times.len(),
        times.len() <= usize::MAX,
        forall|i: int|
            0 <= i < keys.len() ==> (#[trigger] keys[i]).major == Some(times[i])
                && keys[i].minor.len() == 0,
    ensures
        newest_first(times, sorting::sorted_positions(keys, keys.len(), true)),
{
    let n = keys.len();
    let order = sorting::sorted_positions(keys, n, true);
    sorting::law_sorted(keys, n, true);
    sorting::lemma_positions_below(keys, n, true);
    assert forall|i: int, j: int| 0 <= i < j < order.len() implies !sorting::text_before(
        times[(#[trigger] order[i]) as int],
        times[(#[trigger] order[j]) as int],
    ) by {
        let (a, b) = (order[i] as int, order[j] as int);
        assert(!sorting::key_before(keys[b], keys[a], true));
        assert(keys[a].major == Some(times[a]) && keys[b].major == Some(times[b]));
    }
}

/// Packets, beacons and messages are listed the newest first, each of them once.
pub proof fn law_listed_newest_first(
    p: Seq<NotifiedView>,
    b: Seq<IncomingView>,
    m: Seq<MessageView>,
)
    requires
        p.len() <= usize::MAX,
        b.len() <= usize::MAX,
        m.len() <= usize::MAX,
    ensures
        newest_first(
            p.map_values(|x: NotifiedView| x.timestamp),
            sorting::sorted_positions(beacons::notified_keys(p), p.len(), true),
        ),
        newest_first(
            b.map_values(|x: IncomingView| x.timestamp),
            sorting::sorted_positions(beacons::incoming_keys(b), b.len(), true),
        ),
        newest_first(
            m.map_values(|x: MessageView| x.timestamp),
            sorting::sorted_positions(settings::message_keys(m), m.len(), true),
        ),
{
    lemma_newest_first(
        p.map_values(|x: NotifiedView| x.timestamp),
        beacons::notified_keys(p),
    );
    lemma_newest_first(
        b.map_values(|x: IncomingView| x.timestamp),
        beacons::incoming_keys(b),
    );
    lemma_newest_first(
        m.map_values(|x: MessageView| x.timestamp),
        settings::message_keys(m),
    );
}

proof fn lemma_rules_with(v: Seq<RuleView>, from_book: bool)
    ensures
        beacons::rules_with(v, from_book) == v.filter(
            |r: RuleView| r.from_address_book == from_book,
        ),
    decreases v.len(),
{
    reveal(Seq::filter);
    if v.len() > 0 {
        lemma_rules_with(v.drop_last(), from_book);
    }
}

/// The rules of one kind are listed all, by their names.
pub proof fn law_rules_listed(v: Seq<RuleView>, from_book: bool)
    requires
        v.len() <= usize::MAX,
    ensures
        ({
            let some = v.filter(|r: RuleView| r.from_address_book == from_book);
            let listed = beacons::by_label(beacons::rules_with(v, from_book));
            &&& listed.len() == some.len()
            &&& forall|i: int| 0 <= i < some.len() ==> listed.contains(#[trigger] some[i])
            &&& forall|i: int, j: int|
                0 <= i < j < listed.len() ==> !sorting::text_before(
                    (#[trigger] listed[j]).label,
                    (#[trigger] listed[i]).label,
                )
        }),
{
    lemma_rules_with(v, from_book);
    let some = beacons::rules_with(v, from_book);
    v.lemma_filter_len(|r: RuleView| r.from_address_book == from_book);
    let keys = beacons::rule_keys(some);
    let n = some.len();
    let order = sorting::sorted_positions(keys, n, false);
    let listed = beacons::by_label(some);
    sorting::law_sorted(keys, n, false);
    sorting::lemma_positions_below(keys, n, false);
    assert forall|i: int| 0 <= i < some.len() implies listed.contains(#[trigger] some[i]) by {
        assert(order.contains(i as usize));
        let k = order.index_of(i as usize);
        assert(listed[k] == some[i]);
    }
    assert forall|i: int, j: int| 0 <= i < j < listed.len() implies !sorting::text_before(
        (#[trigger] listed[j]).label,
        (#[trigger] listed[i]).label,
    ) by {
        let (a, b) = (order[i] as int, order[j] as int);
        assert(listed[i] == some[a] && listed[j] == some[b]);
        assert(!sorting::key_before(keys[b], keys[a], false));
    }
}

proof fn lemma_with_pin(v: Seq<BeaconView>, pinned: bool)
    ensures
        beacons::with_pin(v, pinned) == v.filter(|b: BeaconView| b.pinned == pinned),
    decreases v.len(),
{
    reveal(Seq::filter);
    if v.len() > 0 {
        lemma_with_pin(v.drop_last(), pinned);
    }
}

proof fn lemma_beacon_at(v: Seq<BeaconView>, id: Seq<char>, k: int)
    requires
        0 <= k < v.len(),
        v[k].id == id,
        forall|j: int| 0 <= j < k ==> (#[trigger] v[j]).id != id,
    ensures
        beacons::beacon_index(v, id) == k,
    decreases v.len(),
{
    if k > 0 {
        assert(v[0].id != id);
        assert(v.skip(1)[k - 1] == v[k]);
        assert forall|j: int| 0 <= j < k - 1 implies (#[trigger] v.skip(1)[j]).id != id by {
            assert(v.skip(1)[j] == v[j + 1]);
        }
        lemma_beacon_at(v.skip(1), id, k - 1);
    }
}

/// Switching a beacon changes that beacon, and of it only whether it is sent. The pinned
/// beacons and the others are picked out all, in their order.
pub proof fn law_beacon_switched(v: Seq<BeaconView>, k: int, enabled: bool, pinned: bool)
    requires
        0 <= k < v.len(),
        forall|j: int| 0 <= j < k ==> (#[trigger] v[j]).id != v[k].id,
    ensures
        ({
            let after = beacons::after_switch(v, v[k].id, enabled);
            &&& after.len() == v.len()
            &&& after[k].enabled == enabled
            &&& after[k].id == v[k].id && after[k].port_id == v[k].port_id && after[k].dest
                == v[k].dest && after[k].via == v[k].via && after[k].message == v[k].message
                && after[k].interval_secs == v[k].interval_secs && after[k].pinned == v[k].pinned
            &&& forall|j: int| 0 <= j < v.len() && j != k ==> #[trigger] after[j] == v[j]
        }),
        beacons::with_pin(v, pinned) == v.filter(|b: BeaconView| b.pinned == pinned),
{
    lemma_beacon_at(v, v[k].id, k);
    lemma_with_pin(v, pinned);
}

/// An alias that is entered is the station's, and none where it is blank; the other
/// entries stay.
pub proof fn law_alias_saved(book: Seq<EntryView>, call: Seq<char>, alias: Seq<char>, k: int)
    requires
        record_laws::is_place(book, call, k),
        k < book.len(),
    ensures
        ({
            let after = address_book::after_alias_saved(book, call, alias);
            &&& record_laws::differs_at(book, after, k)
            &&& text::trimmed(alias).len() > 0 ==> after[k].alias == Some(text::trimmed(alias))
            &&& text::trimmed(alias).len() == 0 ==> after[k].alias is None
            &&& after[k].callsign == book[k].callsign && after[k].heard_count
                == book[k].heard_count && after[k].last_heard == book[k].last_heard
                && after[k].notes == book[k].notes
        }),
{
    app_state::lemma_entry_index(book, call);
    let m = app_state::entry_index(book, call);
    assert(m == k) by {
        if m < k {
            assert(book[m].callsign != call);
        } else if m > k {
            assert(book[k].callsign != call);
        }
    }
}

// ---------------------------------------------------------------------------
// Files of lines
// ---------------------------------------------------------------------------

proof fn lemma_line_added(a: Seq<char>, l: Seq<char>)
    requires
        a.len() == 0 || a.last() == '\n',
        text_laws::is_line(l),
    ensures
        text::lines_of(a + l + seq!['\n']) == text::lines_of(a).push(l),
    decreases a.len(),
{
    let s = a + l + seq!['\n'];
    let none = Seq::<char>::empty();
    if a.len() == 0 {
        text_laws::law_lines_read(l, none);
        assert(s =~= l + seq!['\n'] + none);
        assert(text::lines_of(none) =~= Seq::<Seq<char>>::empty());
        assert(text::lines_of(a) =~= Seq::<Seq<char>>::empty());
        assert(seq![l] + Seq::<Seq<char>>::empty() =~= Seq::<Seq<char>>::empty().push(l));
    } else {
        text::lemma_char_index(a, '\n');
        let i = text::char_index(a, '\n');
        assert(a[a.len() - 1] == '\n');
        assert(i < a.len());
        assert(s[i] == '\n');
        assert forall|j: int| 0 <= j < i implies s[j] != '\n' by {
            assert(s[j] == a[j]);
        }
        text::lemma_char_index_unique(s, '\n', i);
        let rest = a.skip(i + 1);
        if rest.len() > 0 {
            assert(rest.last() == a.last());
        }
        lemma_line_added(rest, l);
        assert(s.skip(i + 1) =~= rest + l + seq!['\n']);
        assert(s.take(i) =~= a.take(i));
        assert(text::lines_of(s) =~= text::lines_of(a).push(l));
    }
}

/// Lines that are kept in a file are read back, each of them and in their order.
pub proof fn law_file_read_back(lines: Seq<Seq<char>>)
    requires
        forall|i: int| 0 <= i < lines.len() ==> text_laws::is_line(#[trigger] lines[i]),
    ensures
        text::lines_of(config::file_text(lines)) == lines,
    decreases lines.len(),
{
    if lines.len() == 0 {
        assert(text::lines_of(config::file_text(lines)) =~= lines);
    } else {
        let front = lines.drop_last();
        assert forall|i: int| 0 <= i < front.len() implies text_laws::is_line(
            #[trigger] front[i],
        ) by {
            assert(front[i] == lines[i]);
        }
        law_file_read_back(front);
        let a = config::file_text(front);
        let l = lines.last();
        assert(l == lines[lines.len() - 1]);
        lemma_line_added(a, l);
        assert(config::file_text(lines) =~= a + l + seq!['\n']) by {
            if front.len() > 0 {
                assert(text::joined(lines, seq!['\n']) == text::joined(front, seq!['\n'])
                    + seq!['\n'] + l);
            } else {
                assert(text::joined(lines, seq!['\n']) == lines[0]);
            }
        }
        assert(front.push(l) =~= lines);
    }
}

} // verus!
