//! The address book as it is searched, shown and edited.

use vstd::prelude::*;

use crate::app_state;
use crate::config::{self, AddressBookEntry, AppConfig, BeaconPacketLogEntry, EntryView};
use crate::qrz::{InfoView, QrzInfo};
use crate::sorting::{self, KeyView, SortKey};
use crate::text;

verus! {

// ---------------------------------------------------------------------------
// Searching
// ---------------------------------------------------------------------------

#[derive(Debug, Clone, Copy, PartialEq, Eq, Structural)]
pub enum SortMode {
    Callsign,
    LastHeard,
}

impl SortMode {
    /// What the button that changes the order says.
    pub fn label(self) -> (r: &'static str)
        ensures
            r@ == (match self {
                SortMode::Callsign => "Sort: Callsign (click for Last Heard)"@,
                SortMode::LastHeard => "Sort: Last Heard (click for Callsign)"@,
            }),
    {
        match self {
            SortMode::Callsign => "Sort: Callsign (click for Last Heard)",
            SortMode::LastHeard => "Sort: Last Heard (click for Callsign)",
        }
    }

    /// The other order.
    pub fn toggled(self) -> (r: SortMode)
        ensures
            r == self.other(),
    {
        match self {
            SortMode::Callsign => SortMode::LastHeard,
            SortMode::LastHeard => SortMode::Callsign,
        }
    }

    pub open spec fn other(self) -> SortMode {
        match self {
            SortMode::Callsign => SortMode::LastHeard,
            SortMode::LastHeard => SortMode::Callsign,
        }
    }
}

/// The entry's callsign, alias or name holds the text, in any case.
pub open spec fn entry_matches(e: EntryView, filter: Seq<char>) -> bool {
    ||| filter.len() == 0
    ||| text::contains_text(text::lower_text(e.callsign), filter)
    ||| text::contains_text(text::lower_text(text::or_empty(e.alias)), filter)
    ||| text::contains_text(text::lower_text(text::or_empty(e.name)), filter)
}

pub open spec fn matching(book: Seq<EntryView>, filter: Seq<char>) -> Seq<EntryView>
    decreases book.len(),
{
    if book.len() == 0 {
        book
    } else if entry_matches(book.last(), filter) {
        matching(book.drop_last(), filter).push(book.last())
    } else {
        matching(book.drop_last(), filter)
    }
}

/// What an entry is sorted by.
pub open spec fn entry_key(e: EntryView, sort: SortMode) -> KeyView {
    match sort {
        SortMode::Callsign => KeyView { major: None, minor: e.callsign },
        SortMode::LastHeard => KeyView { major: e.last_heard, minor: e.callsign },
    }
}

pub open spec fn entry_keys(v: Seq<EntryView>, sort: SortMode) -> Seq<KeyView> {
    v.map_values(|e: EntryView| entry_key(e, sort))
}

/// The entries that a search finds, by callsign, or those heard last first.
pub open spec fn found(book: Seq<EntryView>, filter: Seq<char>, sort: SortMode) -> Seq<EntryView> {
    let m = matching(book, text::lower_text(text::trimmed(filter)));
    sorting::sorted_positions(entry_keys(m, sort), m.len(), true).map_values(
        |k: usize| m[k as int],
    )
}

fn text_in(o: &Option<String>, filter: &str) -> (r: bool)
    ensures
        r == text::contains_text(text::lower_text(text::or_empty(text::opt_view(*o))), filter@),
{
    let s = match o {
        Some(s) => s.clone(),
        None => String::new(),
    };
    assert(s@ =~= text::or_empty(text::opt_view(*o)));
    let low = text::to_lowercase(s.as_str());
    text::contains(low.as_str(), filter)
}

fn matches_entry(e: &AddressBookEntry, filter: &str) -> (r: bool)
    ensures
        r == entry_matches(e@, filter@),
{
    if filter.is_empty() {
        return true;
    }
    let low = text::to_lowercase(e.callsign.as_str());
    text::contains(low.as_str(), filter) || text_in(&e.alias, filter) || text_in(&e.name, filter)
}

fn key_of(e: &AddressBookEntry, sort: SortMode) -> (r: SortKey)
    ensures
        r@ == entry_key(e@, sort),
{
    match sort {
        SortMode::Callsign => SortKey { major: None, minor: e.callsign.clone() },
        SortMode::LastHeard => SortKey {
            major: text::copy_opt(&e.last_heard),
            minor: e.callsign.clone(),
        },
    }
}

/// The entries that a search finds, in order.
pub fn filtered_sorted_entries(book: &Vec<AddressBookEntry>, filter: &str, sort: SortMode) -> (r: Vec<
    AddressBookEntry,
>)
    ensures
        config::views(r@) == found(config::views(book@), filter@, sort),
{
    let ghost all = config::views(book@);
    let trimmed = text::trim(filter);
    let wanted = text::to_lowercase(trimmed.as_str());
    let mut some: Vec<AddressBookEntry> = Vec::new();
    let mut keys: Vec<SortKey> = Vec::new();
    let mut i: usize = 0;
    assert(config::views(some@) =~= matching(all.take(0), wanted@));
    assert(sorting::key_views(keys@) =~= entry_keys(config::views(some@), sort));
    while i < book.len()
        invariant
            i <= book.len(),
            all == config::views(book@),
            some@.len() == keys@.len(),
            config::views(some@) == matching(all.take(i as int), wanted@),
            sorting::key_views(keys@) == entry_keys(config::views(some@), sort),
        decreases book.len() - i,
    {
        let e = &book[i];
        assert(all.take(i + 1).drop_last() =~= all.take(i as int));
        assert(all.take(i + 1).last() == e@);
        if matches_entry(e, wanted.as_str()) {
            let ghost before = keys@;
            let k = key_of(e, sort);
            let c = e.clone();
            proof {
                config::lemma_views_push(some@, c);
            }
            keys.push(k);
            assert(sorting::key_views(keys@) =~= sorting::key_views(before).push(k@));
            some.push(c);
            assert(entry_keys(config::views(some@), sort) =~= sorting::key_views(keys@));
        }
        i += 1;
    }
    assert(all.take(i as int) =~= all);
    let order = sorting::stable_order(&keys, true);
    let ghost picked = found(all, filter@, sort);
    let mut r: Vec<AddressBookEntry> = Vec::new();
    let mut j: usize = 0;
    assert(config::views(r@) =~= picked.take(0));
    while j < order.len()
        invariant
            j <= order.len(),
            forall|m: int| 0 <= m < order@.len() ==> #[trigger] order@[m] < some@.len(),
            picked == order@.map_values(|k: usize| config::views(some@)[k as int]),
            config::views(r@) == picked.take(j as int),
        decreases order.len() - j,
    {
        let e = &some[order[j]];
        let c = e.clone();
        proof {
            config::lemma_views_push(r@, c);
            assert(picked[j as int] == e@);
            assert(picked.take(j + 1) =~= picked.take(j as int).push(e@));
        }
        r.push(c);
        j += 1;
    }
    assert(picked.take(j as int) =~= picked);
    r
}

/// What stands in place of a list that is empty.
pub fn empty_list_text(book_empty: bool, picking: bool) -> (r: &'static str)
    ensures
        r@ == (if !book_empty {
            "No entries match the filter."@
        } else if picking {
            "No known stations yet."@
        } else {
            "No known stations yet. Entries appear automatically as stations are heard, or add one manually."@
        }),
{
    if !book_empty {
        "No entries match the filter."
    } else if picking {
        "No known stations yet."
    } else {
        "No known stations yet. Entries appear automatically as stations are heard, or add one manually."
    }
}

// ---------------------------------------------------------------------------
// What is shown of an entry
// ---------------------------------------------------------------------------

/// The first line of an entry's row.
pub fn entry_summary(e: &AddressBookEntry) -> (r: String)
    ensures
        r@ == e@.callsign + (if text::or_empty(e@.alias).len() > 0 {
            "  \u{2014}  "@ + text::or_empty(e@.alias)
        } else {
            Seq::empty()
        }),
{
    let mut r = e.callsign.clone();
    let ghost head = r@;
    match &e.alias {
        Some(alias) => {
            if !alias.as_str().is_empty() {
                r.append("  \u{2014}  ");
                r.append(alias.as_str());
                assert(r@ =~= head + ("  \u{2014}  "@ + alias@));
                return r;
            }
        },
        None => {},
    }
    assert(head + Seq::<char>::empty() =~= head);
    r
}

/// The second line of an entry's row.
pub fn entry_detail(e: &AddressBookEntry) -> (r: String)
    ensures
        r@ == (match e@.last_heard {
            Some(when) => "Last heard "@ + when,
            None => "Manual entry"@,
        }),
{
    match &e.last_heard {
        Some(when) => {
            let mut r = text::owned("Last heard ");
            r.append(when.as_str());
            r
        },
        None => text::owned("Manual entry"),
    }
}

/// How the station is known.
pub fn status_text(e: &AddressBookEntry) -> (r: &'static str)
    ensures
        r@ == (if e.heard_direct {
            "Heard directly"@
        } else {
            "Known only via a NET/ROM NODES broadcast \u{2014} never heard directly"@
        }),
{
    if e.heard_direct {
        "Heard directly"
    } else {
        "Known only via a NET/ROM NODES broadcast \u{2014} never heard directly"
    }
}

/// How often and when the station was heard.
pub fn heard_text(e: &AddressBookEntry) -> (r: String)
    ensures
        r@ == (match e@.last_heard {
            Some(when) => "Heard "@ + text::decimal(e.heard_count as nat)
                + " time(s) \u{2014} last: "@ + when,
            None => "Never heard"@,
        }),
{
    match &e.last_heard {
        Some(when) => {
            let mut r = text::owned("Heard ");
            r.append(text::decimal_text(e.heard_count as u64).as_str());
            r.append(" time(s) \u{2014} last: ");
            r.append(when.as_str());
            r
        },
        None => text::owned("Never heard"),
    }
}

/// The same, under the form of the entry.
pub fn form_heard_text(e: &AddressBookEntry) -> (r: String)
    ensures
        r@ == (match e@.last_heard {
            Some(when) => "Heard "@ + text::decimal(e.heard_count as nat) + " time(s), last: "@
                + when,
            None => "Never heard \u{2014} manual entry"@,
        }),
{
    match &e.last_heard {
        Some(when) => {
            let mut r = text::owned("Heard ");
            r.append(text::decimal_text(e.heard_count as u64).as_str());
            r.append(" time(s), last: ");
            r.append(when.as_str());
            r
        },
        None => text::owned("Never heard \u{2014} manual entry"),
    }
}

/// One beacon of a station.
pub fn beacon_line(b: &BeaconPacketLogEntry) -> (r: String)
    ensures
        r@ == b.when@ + "  \u{2014}  "@ + b.text@,
{
    let mut r = b.when.clone();
    r.append("  \u{2014}  ");
    r.append(b.text.as_str());
    r
}

// ---------------------------------------------------------------------------
// Editing
// ---------------------------------------------------------------------------

/// An entry as it is typed.
#[derive(Debug)]
pub struct EntryForm {
    pub callsign: String,
    pub name: String,
    pub path: String,
    pub home_bbs: String,
    pub alias: String,
    pub location: String,
    pub notes: String,
}

/// `e` with what the form says.
pub open spec fn edited(e: EntryView, f: EntryForm) -> EntryView {
    EntryView {
        callsign: text::call_text(f.callsign@),
        alias: text::unless_empty(f.alias@),
        name: text::unless_empty(f.name@),
        location: text::unless_empty(f.location@),
        notes: text::unless_empty(f.notes@),
        via: text::call_text(f.path@),
        home_bbs: text::call_text(f.home_bbs@),
        ..e
    }
}

/// An entry that was made by hand and never heard.
pub open spec fn manual_entry() -> EntryView {
    EntryView {
        callsign: Seq::empty(),
        name: None,
        alias: None,
        location: None,
        notes: None,
        last_heard: None,
        heard_count: 0,
        via: Seq::empty(),
        home_bbs: Seq::empty(),
        heard_direct: true,
        recent_beacons: Seq::empty(),
    }
}

pub open spec fn opt_str(o: Option<&str>) -> Option<Seq<char>> {
    match o {
        Some(s) => Some(s@),
        None => None,
    }
}

/// Saving the form of a new entry, or of the entry that had the callsign
/// `original`. A new entry for a station that is there already replaces what was
/// typed of it, and keeps what was heard of it.
pub open spec fn after_save(book: Seq<EntryView>, original: Option<Seq<char>>, f: EntryForm) -> Result<
    Seq<EntryView>,
    Seq<char>,
> {
    let call = text::call_text(f.callsign@);
    if call.len() == 0 {
        Err("Callsign is required."@)
    } else {
        let key = match original {
            Some(c) => c,
            None => call,
        };
        let k = app_state::entry_index(book, key);
        if k < book.len() {
            Ok(book.update(k, edited(book[k], f)))
        } else {
            Ok(book.push(edited(manual_entry(), f)))
        }
    }
}

fn fill(e: &mut AddressBookEntry, f: &EntryForm)
    ensures
        final(e)@ == edited(old(e)@, *f),
{
    e.callsign = text::trim_upper(f.callsign.as_str());
    e.alias = text::nonempty(f.alias.clone());
    e.name = text::nonempty(f.name.clone());
    e.location = text::nonempty(f.location.clone());
    e.notes = text::nonempty(f.notes.clone());
    e.via = text::trim_upper(f.path.as_str());
    e.home_bbs = text::trim_upper(f.home_bbs.as_str());
}

pub fn save_entry(book: &mut Vec<AddressBookEntry>, original: Option<&str>, f: &EntryForm) -> (r: Result<
    (),
    String,
>)
    ensures
        match after_save(config::views(old(book)@), opt_str(original), *f) {
            Ok(after) => r is Ok && config::views(final(book)@) == after,
            Err(e) => r matches Err(m) && m@ == e && *final(book) == *old(book),
        },
{
    let ghost before = config::views(book@);
    let call = text::trim_upper(f.callsign.as_str());
    if call.as_str().is_empty() {
        return Err(text::owned("Callsign is required."));
    }
    let k: usize = match original {
        Some(c) => app_state::find_call(book, c),
        None => app_state::find_call(book, call.as_str()),
    };
    if k < book.len() {
        let mut e = book.remove(k);
        assert(e@ == before[k as int]);
        fill(&mut e, f);
        let ghost new = e@;
        book.insert(k, e);
        assert(config::views(book@) =~= before.update(k as int, new));
    } else {
        let mut e = AddressBookEntry {
            callsign: String::new(),
            name: None,
            alias: None,
            location: None,
            notes: None,
            last_heard: None,
            heard_count: 0,
            via: String::new(),
            home_bbs: String::new(),
            heard_direct: true,
            recent_beacons: Vec::new(),
        };
        assert(e@ =~= manual_entry());
        fill(&mut e, f);
        proof {
            config::lemma_views_push(book@, e);
        }
        book.push(e);
    }
    Ok(())
}

/// Saving the alias alone.
pub open spec fn after_alias_saved(book: Seq<EntryView>, call: Seq<char>, alias: Seq<char>) -> Seq<
    EntryView,
> {
    let k = app_state::entry_index(book, call);
    if k < book.len() {
        book.update(
            k,
            EntryView { alias: text::unless_empty(text::trimmed(alias)), ..book[k] },
        )
    } else {
        book
    }
}

pub fn save_alias(book: &mut Vec<AddressBookEntry>, callsign: &str, alias: &str)
    ensures
        config::views(final(book)@) == after_alias_saved(
            config::views(old(book)@),
            callsign@,
            alias@,
        ),
{
    let ghost before = config::views(book@);
    let k: usize = app_state::find_call(book, callsign);
    if k < book.len() {
        let mut e = book.remove(k);
        assert(e@ == before[k as int]);
        e.alias = text::nonempty(text::trim(alias));
        let ghost new = e@;
        book.insert(k, e);
        assert(config::views(book@) =~= before.update(k as int, new));
    }
}

pub open spec fn without_call(book: Seq<EntryView>, call: Seq<char>) -> Seq<EntryView>
    decreases book.len(),
{
    if book.len() == 0 {
        book
    } else if book.last().callsign == call {
        without_call(book.drop_last(), call)
    } else {
        without_call(book.drop_last(), call).push(book.last())
    }
}

pub fn remove_entry(book: &mut Vec<AddressBookEntry>, callsign: &str)
    ensures
        config::views(final(book)@) == without_call(config::views(old(book)@), callsign@),
{
    let ghost all = config::views(book@);
    let mut kept: Vec<AddressBookEntry> = Vec::new();
    let mut i: usize = 0;
    assert(config::views(kept@) =~= without_call(all.take(0), callsign@));
    while i < book.len()
        invariant
            i <= book.len(),
            all == config::views(book@),
            config::views(kept@) == without_call(all.take(i as int), callsign@),
        decreases book.len() - i,
    {
        let e = &book[i];
        assert(all.take(i + 1).drop_last() =~= all.take(i as int));
        assert(all.take(i + 1).last() == e@);
        if !text::eq_str(e.callsign.as_str(), callsign) {
            let c = e.clone();
            proof {
                config::lemma_views_push(kept@, c);
            }
            kept.push(c);
        }
        i += 1;
    }
    assert(all.take(i as int) =~= all);
    *book = kept;
}

// ---------------------------------------------------------------------------
// Looking a station up
// ---------------------------------------------------------------------------

/// What a lookup needs.
#[derive(Debug)]
pub struct LookupRequest {
    pub callsign: String,
    pub username: String,
    pub password: String,
}

/// What a lookup of a typed callsign needs, or why it cannot be made.
pub fn lookup_request(c: &AppConfig, callsign: &str) -> (r: Result<LookupRequest, String>)
    ensures
        match r {
            Ok(q) => {
                &&& text::call_text(callsign@).len() > 0
                &&& c.ui.qrz_username is Some && c.ui.qrz_password is Some
                &&& q.callsign@ == text::call_text(callsign@)
                &&& q.username@ == c.ui.qrz_username->0@
                &&& q.password@ == c.ui.qrz_password->0@
            },
            Err(e) => if text::call_text(callsign@).len() == 0 {
                e@ == "Enter a callsign first."@
            } else {
                &&& c.ui.qrz_username is None || c.ui.qrz_password is None
                &&& e@ == "Configure QRZ credentials in Preferences first."@
            },
        },
{
    let call = text::trim_upper(callsign);
    if call.as_str().is_empty() {
        return Err(text::owned("Enter a callsign first."));
    }
    match &c.ui.qrz_username {
        Some(u) => {
            match &c.ui.qrz_password {
                Some(p) => {
                    return Ok(
                        LookupRequest { callsign: call, username: u.clone(), password: p.clone() },
                    );
                },
                None => {},
            }
        },
        None => {},
    }
    Err(text::owned("Configure QRZ credentials in Preferences first."))
}

/// What a lookup puts in the form: the place, with the grid square in brackets.
pub open spec fn place(i: InfoView) -> Option<Seq<char>> {
    match (i.location, i.grid) {
        (Some(l), Some(g)) => Some(l + " ("@ + g + ")"@),
        (Some(l), None) => Some(l),
        (None, g) => g,
    }
}

pub fn place_text(i: &QrzInfo) -> (r: Option<String>)
    ensures
        text::opt_view(r) == place(i@),
{
    match &i.location {
        Some(l) => {
            let mut s = l.clone();
            match &i.grid {
                Some(g) => {
                    s.append(" (");
                    s.append(g.as_str());
                    s.append(")");
                },
                None => {},
            }
            Some(s)
        },
        None => text::copy_opt(&i.grid),
    }
}

// ---------------------------------------------------------------------------
// Laws
// ---------------------------------------------------------------------------

/// A search finds only entries that match.
pub proof fn law_found_match(book: Seq<EntryView>, filter: Seq<char>)
    ensures
        forall|i: int|
            0 <= i < matching(book, filter).len() ==> entry_matches(
                #[trigger] matching(book, filter)[i],
                filter,
            ),
    decreases book.len(),
{
    if book.len() > 0 {
        let before = matching(book.drop_last(), filter);
        law_found_match(book.drop_last(), filter);
        assert forall|i: int| 0 <= i < matching(book, filter).len() implies entry_matches(
            #[trigger] matching(book, filter)[i],
            filter,
        ) by {
            if i < before.len() {
                assert(entry_matches(before[i], filter));
            }
        }
    }
}

/// An empty search finds every entry.
pub proof fn law_empty_filter(book: Seq<EntryView>)
    ensures
        matching(book, Seq::empty()) == book,
    decreases book.len(),
{
    if book.len() > 0 {
        law_empty_filter(book.drop_last());
        assert(book.drop_last().push(book.last()) =~= book);
    }
}

/// Saving an entry never loses what was heard of a station.
pub proof fn law_edit_keeps_heard(book: Seq<EntryView>, original: Option<Seq<char>>, f: EntryForm)
    requires
        after_save(book, original, f) is Ok,
    ensures
        ({
            let after = after_save(book, original, f)->Ok_0;
            &&& after.len() >= book.len()
            &&& forall|i: int|
                0 <= i < book.len() ==> {
                    &&& (#[trigger] after[i]).last_heard == book[i].last_heard
                    &&& after[i].heard_count == book[i].heard_count
                    &&& after[i].heard_direct == book[i].heard_direct
                    &&& after[i].recent_beacons == book[i].recent_beacons
                }
        }),
{
    let key = match original {
        Some(c) => c,
        None => text::call_text(f.callsign@),
    };
    app_state::lemma_entry_index(book, key);
}

/// A removed station is not in the book any more.
pub proof fn law_removed(book: Seq<EntryView>, call: Seq<char>)
    ensures
        forall|i: int|
            0 <= i < without_call(book, call).len() ==> (#[trigger] without_call(
                book,
                call,
            )[i]).callsign != call,
    decreases book.len(),
{
    if book.len() > 0 {
        let before = without_call(book.drop_last(), call);
        law_removed(book.drop_last(), call);
        assert forall|i: int| 0 <= i < without_call(book, call).len() implies (
        #[trigger] without_call(book, call)[i]).callsign != call by {
            if i < before.len() {
                assert(before[i].callsign != call);
            }
        }
    }
}

} // verus!
