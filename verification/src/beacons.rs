//! Scheduled beacons, and the rules by which incoming frames count as beacons.

use vstd::prelude::*;

use crate::config::{
    self, AppConfig, Beacon, BeaconMonitorRule, BeaconView, IncomingBeacon, IncomingView,
    NotifiedPacket, NotifiedView, PortEntry, PortView, RuleView,
};
use crate::identifiers;
use crate::patterns;
use crate::ports;
use crate::sorting::{self, KeyView, SortKey};
use crate::template_vars::{TemplateVars, VarsView};
use crate::text;

verus! {

// ---------------------------------------------------------------------------
// The form of a beacon
// ---------------------------------------------------------------------------

/// A beacon as it is typed. `port` is the position of the selected port.
#[derive(Debug)]
pub struct BeaconForm {
    pub dest: String,
    pub path: String,
    pub message: String,
    pub interval: String,
    pub port: usize,
    pub enabled: bool,
}

pub open spec fn beacon_index(beacons: Seq<BeaconView>, id: Seq<char>) -> int
    decreases beacons.len(),
{
    if beacons.len() == 0 || beacons[0].id == id {
        0
    } else {
        1 + beacon_index(beacons.skip(1), id)
    }
}

fn find_beacon(beacons: &Vec<Beacon>, id: &str) -> (k: usize)
    ensures
        k == beacon_index(config::views(beacons@), id@),
        k <= beacons@.len(),
{
    let ghost all = config::views(beacons@);
    let mut i: usize = 0;
    assert(all.skip(0) =~= all);
    while i < beacons.len()
        invariant
            i <= beacons.len(),
            all == config::views(beacons@),
            beacon_index(all, id@) == i + beacon_index(all.skip(i as int), id@),
        decreases beacons.len() - i,
    {
        assert(all.skip(i as int)[0] == beacons@[i as int]@);
        if text::eq_str(beacons[i].id.as_str(), id) {
            return i;
        }
        assert(all.skip(i as int).skip(1) =~= all.skip(i + 1));
        i += 1;
    }
    i
}

pub open spec fn beacon_ids(beacons: Seq<BeaconView>) -> Seq<Seq<char>> {
    beacons.map_values(|b: BeaconView| b.id)
}

fn ids_of(beacons: &Vec<Beacon>) -> (r: Vec<String>)
    ensures
        text::texts(r@) == beacon_ids(config::views(beacons@)),
        r@.len() == beacons@.len(),
{
    let ghost all = beacon_ids(config::views(beacons@));
    let mut r = text::no_texts();
    let mut i: usize = 0;
    assert(text::texts(r@) =~= all.take(0));
    while i < beacons.len()
        invariant
            i <= beacons.len(),
            all == beacon_ids(config::views(beacons@)),
            text::texts(r@) == all.take(i as int),
        decreases beacons.len() - i,
    {
        text::add_text(&mut r, beacons[i].id.clone());
        assert(config::views(beacons@)[i as int] == beacons@[i as int]@);
        assert(all.take(i + 1) =~= all.take(i as int).push(beacons@[i as int].id@));
        i += 1;
    }
    assert(all.take(i as int) =~= all);
    assert(text::texts(r@).len() == r@.len());
    r
}

/// What saving the form of a beacon does. A beacon that is edited stays pinned as
/// it was; a new one takes the identifier `fresh` and is not pinned.
pub open spec fn after_save(
    beacons: Seq<BeaconView>,
    ports: Seq<PortView>,
    existing: Option<Seq<char>>,
    form: BeaconForm,
    fresh: Seq<char>,
) -> Result<Seq<BeaconView>, Seq<char>> {
    if text::trimmed(form.dest@).len() == 0 {
        Err("Destination is required."@)
    } else {
        match ports::positive_in(form.interval@) {
            None => Err("Interval must be a positive number of seconds."@),
            Some(n) => if form.port >= ports.len() {
                Err("Select a port."@)
            } else {
                let entry = |id: Seq<char>, pinned: bool|
                    BeaconView {
                        id,
                        port_id: ports[form.port as int].id,
                        dest: text::upper_text(form.dest@),
                        via: text::call_text(form.path@),
                        message: form.message@,
                        interval_secs: n as u32,
                        enabled: form.enabled,
                        pinned,
                    };
                match existing {
                    Some(id) => {
                        let k = beacon_index(beacons, id);
                        if k < beacons.len() {
                            Ok(beacons.update(k, entry(beacons[k].id, beacons[k].pinned)))
                        } else {
                            Ok(beacons)
                        }
                    },
                    None => Ok(beacons.push(entry(fresh, false))),
                }
            },
        }
    }
}

/// `fresh` is the identifier that the next new beacon takes.
pub open spec fn next_beacon_id(beacons: Seq<BeaconView>, fresh: Seq<char>) -> bool {
    exists|n: nat|
        identifiers::first_free(beacon_ids(beacons), "beacon-"@, n) && fresh
            == #[trigger] identifiers::numbered("beacon-"@, n)
}

/// Saves the form of a new beacon, or of the beacon `existing`.
pub fn save_beacon(
    beacons: &mut Vec<Beacon>,
    all_ports: &Vec<PortEntry>,
    existing: Option<&str>,
    form: &BeaconForm,
) -> (r: Result<(), String>)
    requires
        2 * old(beacons)@.len() < u64::MAX,
    ensures
        exists|fresh: Seq<char>| #[trigger]
            next_beacon_id(config::views(old(beacons)@), fresh) && match after_save(
                config::views(old(beacons)@),
                config::views(all_ports@),
                ports::id_view(existing),
                *form,
                fresh,
            ) {
                Ok(after) => r is Ok && config::views(final(beacons)@) == after,
                Err(e) => r matches Err(m) && m@ == e && *final(beacons) == *old(beacons),
            },
{
    let ghost before = config::views(beacons@);
    let ids = ids_of(beacons);
    let fresh = identifiers::free_id(&ids, "beacon-");
    assert(next_beacon_id(before, fresh@));
    let ghost outcome = after_save(
        before,
        config::views(all_ports@),
        ports::id_view(existing),
        *form,
        fresh@,
    );
    let dest = text::trim(form.dest.as_str());
    if dest.as_str().is_empty() {
        return Err(text::owned("Destination is required."));
    }
    let interval_secs: u32 = match ports::read_positive(form.interval.as_str()) {
        Some(n) => n,
        None => {
            return Err(text::owned("Interval must be a positive number of seconds."));
        },
    };
    if form.port >= all_ports.len() {
        return Err(text::owned("Select a port."));
    }
    let port_id = all_ports[form.port].id.clone();
    assert(config::views(all_ports@)[form.port as int] == all_ports@[form.port as int]@);
    match existing {
        Some(id) => {
            let k: usize = find_beacon(beacons, id);
            if k < beacons.len() {
                let mut b = beacons.remove(k);
                assert(b@ == before[k as int]);
                b.port_id = port_id;
                b.dest = text::to_uppercase(form.dest.as_str());
                b.via = text::trim_upper(form.path.as_str());
                b.message = form.message.clone();
                b.interval_secs = interval_secs;
                b.enabled = form.enabled;
                beacons.insert(k, b);
                assert(config::views(beacons@) =~= outcome->Ok_0);
            }
        },
        None => {
            let b = Beacon {
                id: fresh,
                port_id,
                dest: text::to_uppercase(form.dest.as_str()),
                via: text::trim_upper(form.path.as_str()),
                message: form.message.clone(),
                interval_secs,
                enabled: form.enabled,
                pinned: false,
            };
            proof {
                config::lemma_views_push(beacons@, b);
            }
            beacons.push(b);
            assert(config::views(beacons@) =~= outcome->Ok_0);
        },
    }
    Ok(())
}

/// The beacons after one was switched on or off.
pub open spec fn after_switch(beacons: Seq<BeaconView>, id: Seq<char>, enabled: bool) -> Seq<
    BeaconView,
> {
    let k = beacon_index(beacons, id);
    if k < beacons.len() {
        beacons.update(k, BeaconView { enabled, ..beacons[k] })
    } else {
        beacons
    }
}

pub fn switch_beacon(beacons: &mut Vec<Beacon>, id: &str, enabled: bool)
    ensures
        config::views(final(beacons)@) == after_switch(
            config::views(old(beacons)@),
            id@,
            enabled,
        ),
{
    let ghost before = config::views(beacons@);
    let k: usize = find_beacon(beacons, id);
    if k < beacons.len() {
        let mut b = beacons.remove(k);
        assert(b@ == before[k as int]);
        b.enabled = enabled;
        beacons.insert(k, b);
        assert(config::views(beacons@) =~= after_switch(before, id@, enabled));
    }
}

/// The beacons but the one with that identifier, unless it is pinned.
pub open spec fn without_beacon(beacons: Seq<BeaconView>, id: Seq<char>) -> Seq<BeaconView>
    decreases beacons.len(),
{
    if beacons.len() == 0 {
        beacons
    } else if beacons.last().id == id && !beacons.last().pinned {
        without_beacon(beacons.drop_last(), id)
    } else {
        without_beacon(beacons.drop_last(), id).push(beacons.last())
    }
}

/// Removes a beacon. A pinned one stays.
pub fn remove_beacon(beacons: &mut Vec<Beacon>, id: &str)
    ensures
        config::views(final(beacons)@) == without_beacon(config::views(old(beacons)@), id@),
{
    let ghost all = config::views(beacons@);
    let mut kept: Vec<Beacon> = Vec::new();
    let mut i: usize = 0;
    assert(config::views(kept@) =~= without_beacon(all.take(0), id@));
    while i < beacons.len()
        invariant
            i <= beacons.len(),
            all == config::views(beacons@),
            config::views(kept@) == without_beacon(all.take(i as int), id@),
        decreases beacons.len() - i,
    {
        let b = &beacons[i];
        proof {
            assert(all.take(i + 1).drop_last() =~= all.take(i as int));
            assert(all.take(i + 1).last() == b@);
            config::lemma_views_push(kept@, *b);
        }
        if b.pinned || !text::eq_str(b.id.as_str(), id) {
            kept.push(b.clone());
        }
        i += 1;
    }
    assert(all.take(i as int) =~= all);
    *beacons = kept;
}

pub open spec fn with_pin(beacons: Seq<BeaconView>, pinned: bool) -> Seq<BeaconView>
    decreases beacons.len(),
{
    if beacons.len() == 0 {
        beacons
    } else if beacons.last().pinned == pinned {
        with_pin(beacons.drop_last(), pinned).push(beacons.last())
    } else {
        with_pin(beacons.drop_last(), pinned)
    }
}

fn pick_pinned(beacons: &Vec<Beacon>, pinned: bool) -> (r: Vec<Beacon>)
    ensures
        config::views(r@) == with_pin(config::views(beacons@), pinned),
{
    let ghost all = config::views(beacons@);
    let mut r: Vec<Beacon> = Vec::new();
    let mut i: usize = 0;
    assert(config::views(r@) =~= with_pin(all.take(0), pinned));
    while i < beacons.len()
        invariant
            i <= beacons.len(),
            all == config::views(beacons@),
            config::views(r@) == with_pin(all.take(i as int), pinned),
        decreases beacons.len() - i,
    {
        let b = &beacons[i];
        proof {
            assert(all.take(i + 1).drop_last() =~= all.take(i as int));
            assert(all.take(i + 1).last() == b@);
            config::lemma_views_push(r@, *b);
        }
        if b.pinned == pinned {
            r.push(b.clone());
        }
        i += 1;
    }
    assert(all.take(i as int) =~= all);
    r
}

/// The beacons as they are listed: pinned ones first.
pub fn listed(beacons: &Vec<Beacon>) -> (r: Vec<Beacon>)
    ensures
        config::views(r@) == with_pin(config::views(beacons@), true) + with_pin(
            config::views(beacons@),
            false,
        ),
{
    let mut r = pick_pinned(beacons, true);
    let mut rest = pick_pinned(beacons, false);
    let ghost a = r@;
    let ghost b = rest@;
    r.append(&mut rest);
    assert(config::views(r@) =~= config::views(a) + config::views(b));
    r
}

/// The name of a port, or a remark that there is none.
pub open spec fn known_name(ports: Seq<PortView>, id: Seq<char>) -> Seq<char>
    decreases ports.len(),
{
    if ports.len() == 0 {
        "(unknown port)"@
    } else if ports[0].id == id {
        ports[0].name
    } else {
        known_name(ports.skip(1), id)
    }
}

/// The row of a beacon in the list.
pub fn beacon_label(b: &Beacon, all_ports: &Vec<PortEntry>) -> (r: String)
    ensures
        r@ == known_name(config::views(all_ports@), b.port_id@) + " \u{2192} "@ + b.dest@
            + " every "@ + text::decimal(b.interval_secs as nat) + "s"@,
{
    let ghost all = config::views(all_ports@);
    let mut name = text::owned("(unknown port)");
    let mut found = false;
    let mut i: usize = 0;
    assert(all.skip(0) =~= all);
    while i < all_ports.len() && !found
        invariant
            i <= all_ports.len(),
            all == config::views(all_ports@),
            found ==> name@ == known_name(all, b.port_id@),
            !found ==> name@ == "(unknown port)"@ && known_name(all, b.port_id@) == known_name(
                all.skip(i as int),
                b.port_id@,
            ),
        decreases all_ports.len() - i + (if found {
            0int
        } else {
            1int
        }),
    {
        assert(all.skip(i as int)[0] == all_ports@[i as int]@);
        if text::eq_str(all_ports[i].id.as_str(), b.port_id.as_str()) {
            name = all_ports[i].name.clone();
            found = true;
        } else {
            assert(all.skip(i as int).skip(1) =~= all.skip(i + 1));
            i += 1;
        }
    }
    let mut r = name;
    r.append(" \u{2192} ");
    r.append(b.dest.as_str());
    r.append(" every ");
    r.append(text::decimal_text(b.interval_secs as u64).as_str());
    r.append("s");
    r
}

/// The title of the form of a beacon.
pub fn form_title(existing: Option<&Beacon>) -> (r: String)
    ensures
        r@ == (match existing {
            Some(b) => if b.pinned {
                "Edit "@ + b.dest@ + " Beacon"@
            } else {
                "Edit Beacon"@
            },
            None => "Add Beacon"@,
        }),
{
    match existing {
        Some(b) => if b.pinned {
            let mut r = text::owned("Edit ");
            r.append(b.dest.as_str());
            r.append(" Beacon");
            r
        } else {
            text::owned("Edit Beacon")
        },
        None => text::owned("Add Beacon"),
    }
}

// ---------------------------------------------------------------------------
// Scheduling
// ---------------------------------------------------------------------------

/// A beacon that is to be sent again and again.
#[derive(Debug)]
pub struct Scheduled {
    pub id: String,
    pub port_id: String,
    pub dest: String,
    pub path: Vec<String>,
    pub message: String,
    pub interval_secs: u32,
}

#[verifier::ext_equal]
pub struct ScheduledView {
    pub id: Seq<char>,
    pub port_id: Seq<char>,
    pub dest: Seq<char>,
    pub path: Seq<Seq<char>>,
    pub message: Seq<char>,
    pub interval_secs: u32,
}

impl View for Scheduled {
    type V = ScheduledView;

    open spec fn view(&self) -> ScheduledView {
        ScheduledView {
            id: self.id@,
            port_id: self.port_id@,
            dest: self.dest@,
            path: text::texts(self.path@),
            message: self.message@,
            interval_secs: self.interval_secs,
        }
    }
}

/// What is scheduled for a beacon: its placeholders stand for the station's own
/// callsign and profile, commas and spaces part its path, and it is sent at most once
/// a second.
pub open spec fn schedule_of(b: BeaconView, vars: VarsView) -> ScheduledView {
    ScheduledView {
        id: b.id,
        port_id: b.port_id,
        dest: b.dest,
        path: text::upper_texts(text::items_of(b.via, ',', ' ')),
        message: vars.applied(b.message),
        interval_secs: if b.interval_secs > 1 {
            b.interval_secs
        } else {
            1
        },
    }
}

pub open spec fn schedule(beacons: Seq<BeaconView>, vars: VarsView) -> Seq<ScheduledView>
    decreases beacons.len(),
{
    if beacons.len() == 0 {
        Seq::empty()
    } else if beacons.last().enabled {
        schedule(beacons.drop_last(), vars).push(schedule_of(beacons.last(), vars))
    } else {
        schedule(beacons.drop_last(), vars)
    }
}

pub open spec fn profile_vars(c: AppConfig) -> VarsView {
    VarsView {
        node: text::or_empty(text::opt_view(c.ui.default_call)),
        name: text::or_empty(text::opt_view(c.ui.name)),
        loc: text::or_empty(text::opt_view(c.ui.location)),
        bbs_home: text::or_empty(text::opt_view(c.ui.home_bbs)),
    }
}

/// What is to be sent at an interval: every enabled beacon, unless beacons are
/// switched off altogether.
pub fn schedule_beacons(c: &AppConfig) -> (r: Vec<Scheduled>)
    ensures
        config::views(r@) == (if c.beacon_prefs.enabled {
            schedule(config::views(c.beacons@), profile_vars(*c))
        } else {
            Seq::empty()
        }),
{
    let mut r: Vec<Scheduled> = Vec::new();
    if !c.beacon_prefs.enabled {
        assert(config::views(r@) =~= Seq::<ScheduledView>::empty());
        return r;
    }
    let node = match &c.ui.default_call {
        Some(s) => s.clone(),
        None => String::new(),
    };
    let vars = TemplateVars::from_config(c, node.as_str());
    assert(vars@ =~= profile_vars(*c));
    let ghost all = config::views(c.beacons@);
    let mut i: usize = 0;
    assert(config::views(r@) =~= schedule(all.take(0), vars@));
    while i < c.beacons.len()
        invariant
            i <= c.beacons.len(),
            all == config::views(c.beacons@),
            config::views(r@) == schedule(all.take(i as int), vars@),
        decreases c.beacons.len() - i,
    {
        let b = &c.beacons[i];
        proof {
            assert(all.take(i + 1).drop_last() =~= all.take(i as int));
            assert(all.take(i + 1).last() == b@);
        }
        if b.enabled {
            let s = Scheduled {
                id: b.id.clone(),
                port_id: b.port_id.clone(),
                dest: b.dest.clone(),
                path: text::to_upper_list(&text::split_items(b.via.as_str(), ',', ' ')),
                message: vars.apply(b.message.as_str()),
                interval_secs: if b.interval_secs > 1 {
                    b.interval_secs
                } else {
                    1
                },
            };
            proof {
                config::lemma_views_push(r@, s);
                assert(s@ =~= schedule_of(b@, vars@));
            }
            r.push(s);
        }
        i += 1;
    }
    assert(all.take(i as int) =~= all);
    r
}

// ---------------------------------------------------------------------------
// Rules for incoming beacons
// ---------------------------------------------------------------------------

/// The rule applies to a frame: it is enabled, its sender is the frame's where it
/// names one, and `verdict`, what its pattern says of the destination, is true.
pub open spec fn rule_applies(rule: RuleView, verdict: Option<bool>, from: Seq<char>) -> bool {
    &&& rule.enabled
    &&& text::trimmed(rule.sender).len() == 0 || text::ascii_upper(text::trimmed(rule.sender))
        == text::ascii_upper(from)
    &&& verdict == Some(true)
}

/// What a rule's pattern says of a destination.
pub open spec fn rule_verdict(rule: RuleView, to: Seq<char>) -> Option<bool> {
    if patterns::regex_compiles(rule.pattern, true) {
        Some(patterns::regex_matches(rule.pattern, true, to))
    } else {
        None
    }
}

/// The label of the first rule that applies, given what the patterns say.
pub open spec fn applying_label(
    rules: Seq<RuleView>,
    verdicts: Seq<Option<bool>>,
    from: Seq<char>,
) -> Option<Seq<char>>
    decreases rules.len(),
{
    if rules.len() == 0 {
        None
    } else if rule_applies(rules[0], verdicts[0], from) {
        Some(rules[0].label)
    } else {
        applying_label(rules.skip(1), verdicts.skip(1), from)
    }
}

pub open spec fn verdicts_on(rules: Seq<RuleView>, to: Seq<char>) -> Seq<Option<bool>> {
    rules.map_values(|r: RuleView| rule_verdict(r, to))
}

/// The label of the first rule that applies, given what the patterns say.
pub fn first_applying(rules: &Vec<BeaconMonitorRule>, verdicts: &Vec<Option<bool>>, from: &str) -> (r: Option<
    String,
>)
    requires
        verdicts@.len() == rules@.len(),
    ensures
        text::opt_view(r) == applying_label(config::views(rules@), verdicts@, from@),
{
    let ghost all = config::views(rules@);
    let mut i: usize = 0;
    assert(all.skip(0) =~= all);
    assert(verdicts@.skip(0) =~= verdicts@);
    while i < rules.len()
        invariant
            i <= rules.len(),
            verdicts@.len() == rules@.len(),
            all == config::views(rules@),
            applying_label(all, verdicts@, from@) == applying_label(
                all.skip(i as int),
                verdicts@.skip(i as int),
                from@,
            ),
        decreases rules.len() - i,
    {
        let rule = &rules[i];
        assert(all.skip(i as int)[0] == rule@);
        assert(verdicts@.skip(i as int)[0] == verdicts@[i as int]);
        let sender = text::trim(rule.sender.as_str());
        let found = match verdicts[i] {
            Some(b) => b,
            None => false,
        };
        if rule.enabled && (sender.as_str().is_empty() || text::eq_ignore_ascii_case(
            sender.as_str(),
            from,
        )) && found {
            return Some(rule.label.clone());
        }
        assert(all.skip(i as int).skip(1) =~= all.skip(i + 1));
        assert(verdicts@.skip(i as int).skip(1) =~= verdicts@.skip(i + 1));
        i += 1;
    }
    None
}

/// The label of the first rule that a frame matches.
pub fn detect_beacon(rules: &Vec<BeaconMonitorRule>, from: &str, to: &str) -> (r: Option<String>)
    ensures
        text::opt_view(r) == applying_label(
            config::views(rules@),
            verdicts_on(config::views(rules@), to@),
            from@,
        ),
{
    let ghost all = config::views(rules@);
    let mut verdicts: Vec<Option<bool>> = Vec::new();
    let mut i: usize = 0;
    assert(verdicts@ =~= verdicts_on(all, to@).take(0));
    while i < rules.len()
        invariant
            i <= rules.len(),
            all == config::views(rules@),
            verdicts@ == verdicts_on(all, to@).take(i as int),
        decreases rules.len() - i,
    {
        let v = patterns::is_match(rules[i].pattern.as_str(), true, to);
        assert(all[i as int] == rules@[i as int]@);
        assert(v == rule_verdict(all[i as int], to@));
        verdicts.push(v);
        assert(verdicts@ =~= verdicts_on(all, to@).take(i + 1));
        i += 1;
    }
    assert(verdicts_on(all, to@).take(i as int) =~= verdicts_on(all, to@));
    first_applying(rules, &verdicts, from)
}

/// The name that a rule takes from its fields.
pub open spec fn derived_label(r: RuleView) -> Seq<char> {
    if text::trimmed(r.sender).len() == 0 {
        r.pattern
    } else {
        text::trimmed(r.sender) + "\u{2192}"@ + r.pattern
    }
}

/// The edited rules that are no address book rules, with their names.
pub open spec fn edited_rules(rules: Seq<RuleView>) -> Seq<RuleView>
    decreases rules.len(),
{
    if rules.len() == 0 {
        rules
    } else if rules.last().from_address_book {
        edited_rules(rules.drop_last())
    } else {
        edited_rules(rules.drop_last()).push(
            RuleView { label: derived_label(rules.last()), ..rules.last() },
        )
    }
}

pub open spec fn book_rules(rules: Seq<RuleView>) -> Seq<RuleView>
    decreases rules.len(),
{
    if rules.len() == 0 {
        rules
    } else if rules.last().from_address_book {
        book_rules(rules.drop_last()).push(rules.last())
    } else {
        book_rules(rules.drop_last())
    }
}

/// The first pattern of an edited rule that does not compile; `valid` says which
/// patterns do.
pub open spec fn bad_pattern(rules: Seq<RuleView>, valid: Seq<bool>) -> Option<Seq<char>>
    decreases rules.len(),
{
    if rules.len() == 0 {
        None
    } else if !rules[0].from_address_book && !valid[0] {
        Some(rules[0].pattern)
    } else {
        bad_pattern(rules.skip(1), valid.skip(1))
    }
}

pub open spec fn valid_patterns(rules: Seq<RuleView>) -> Seq<bool> {
    rules.map_values(|r: RuleView| patterns::regex_compiles(r.pattern, false))
}

/// What saving the edited rules does: rules of the address book stay as they are,
/// the others are replaced.
pub open spec fn after_rules_saved(
    rules: Seq<RuleView>,
    edited: Seq<RuleView>,
    valid: Seq<bool>,
) -> Result<Seq<RuleView>, Seq<char>> {
    match bad_pattern(edited, valid) {
        Some(p) => Err(
            "Destination pattern \u{201c}"@ + p + "\u{201d} is not a valid regex."@,
        ),
        None => Ok(book_rules(rules) + edited_rules(edited)),
    }
}

pub open spec fn rules_result(r: Result<Vec<BeaconMonitorRule>, String>) -> Result<
    Seq<RuleView>,
    Seq<char>,
> {
    match r {
        Ok(v) => Ok(config::views(v@)),
        Err(e) => Err(e@),
    }
}

/// The rules after the edited ones are saved, given which patterns compile.
pub fn merge_rules(
    rules: &Vec<BeaconMonitorRule>,
    edited: &Vec<BeaconMonitorRule>,
    valid: &Vec<bool>,
) -> (r: Result<Vec<BeaconMonitorRule>, String>)
    requires
        valid@.len() == edited@.len(),
    ensures
        rules_result(r) == after_rules_saved(config::views(rules@), config::views(edited@), valid@),
{
    let ghost new = config::views(edited@);
    let mut i: usize = 0;
    assert(new.skip(0) =~= new);
    assert(valid@.skip(0) =~= valid@);
    while i < edited.len()
        invariant
            i <= edited.len(),
            valid@.len() == edited@.len(),
            new == config::views(edited@),
            bad_pattern(new, valid@) == bad_pattern(new.skip(i as int), valid@.skip(i as int)),
        decreases edited.len() - i,
    {
        assert(new.skip(i as int)[0] == edited@[i as int]@);
        assert(valid@.skip(i as int)[0] == valid@[i as int]);
        if !edited[i].from_address_book && !valid[i] {
            let mut e = text::owned("Destination pattern \u{201c}");
            e.append(edited[i].pattern.as_str());
            e.append("\u{201d} is not a valid regex.");
            return Err(e);
        }
        assert(new.skip(i as int).skip(1) =~= new.skip(i + 1));
        assert(valid@.skip(i as int).skip(1) =~= valid@.skip(i + 1));
        i += 1;
    }
    let ghost old_rules = config::views(rules@);
    let mut r: Vec<BeaconMonitorRule> = Vec::new();
    let mut k: usize = 0;
    assert(config::views(r@) =~= book_rules(old_rules.take(0)));
    while k < rules.len()
        invariant
            k <= rules.len(),
            old_rules == config::views(rules@),
            config::views(r@) == book_rules(old_rules.take(k as int)),
        decreases rules.len() - k,
    {
        let rule = &rules[k];
        proof {
            assert(old_rules.take(k + 1).drop_last() =~= old_rules.take(k as int));
            assert(old_rules.take(k + 1).last() == rule@);
            config::lemma_views_push(r@, *rule);
        }
        if rule.from_address_book {
            r.push(rule.clone());
        }
        k += 1;
    }
    assert(old_rules.take(k as int) =~= old_rules);
    let ghost base = book_rules(old_rules);
    let mut j: usize = 0;
    assert(base + edited_rules(new.take(0)) =~= base);
    while j < edited.len()
        invariant
            j <= edited.len(),
            new == config::views(edited@),
            config::views(r@) == base + edited_rules(new.take(j as int)),
        decreases edited.len() - j,
    {
        let rule = &edited[j];
        proof {
            assert(new.take(j + 1).drop_last() =~= new.take(j as int));
            assert(new.take(j + 1).last() == rule@);
        }
        if !rule.from_address_book {
            let sender = text::trim(rule.sender.as_str());
            let label = if sender.as_str().is_empty() {
                rule.pattern.clone()
            } else {
                let mut l = sender;
                l.append("\u{2192}");
                l.append(rule.pattern.as_str());
                l
            };
            let mut named = rule.clone();
            named.label = label;
            proof {
                config::lemma_views_push(r@, named);
                assert(named@ =~= RuleView { label: derived_label(rule@), ..rule@ });
                assert(config::views(r@).push(named@) =~= base + edited_rules(new.take(j + 1)));
            }
            r.push(named);
        }
        j += 1;
    }
    assert(new.take(j as int) =~= new);
    Ok(r)
}

/// The rules after the edited ones are saved.
pub fn save_rules(rules: &Vec<BeaconMonitorRule>, edited: &Vec<BeaconMonitorRule>) -> (r: Result<
    Vec<BeaconMonitorRule>,
    String,
>)
    ensures
        rules_result(r) == after_rules_saved(
            config::views(rules@),
            config::views(edited@),
            valid_patterns(config::views(edited@)),
        ),
{
    let ghost new = config::views(edited@);
    let mut valid: Vec<bool> = Vec::new();
    let mut i: usize = 0;
    assert(valid@ =~= valid_patterns(new).take(0));
    while i < edited.len()
        invariant
            i <= edited.len(),
            new == config::views(edited@),
            valid@ == valid_patterns(new).take(i as int),
        decreases edited.len() - i,
    {
        let v = patterns::compiles(edited[i].pattern.as_str(), false);
        assert(new[i as int] == edited@[i as int]@);
        valid.push(v);
        assert(valid@ =~= valid_patterns(new).take(i + 1));
        i += 1;
    }
    assert(valid_patterns(new).take(i as int) =~= valid_patterns(new));
    merge_rules(rules, edited, &valid)
}

pub open spec fn rule_ids(rules: Seq<RuleView>) -> Seq<Seq<char>> {
    rules.map_values(|r: RuleView| r.id)
}

/// A new rule, at the end of the list: it matches nothing in particular yet.
pub fn add_rule(rules: &mut Vec<BeaconMonitorRule>)
    requires
        2 * old(rules)@.len() < u64::MAX,
    ensures
        exists|n: nat|
            identifiers::first_free(rule_ids(config::views(old(rules)@)), "beacon-rule-"@, n)
                && config::views(final(rules)@) == config::views(old(rules)@).push(
                RuleView {
                    id: #[trigger] identifiers::numbered("beacon-rule-"@, n),
                    label: Seq::empty(),
                    pattern: Seq::empty(),
                    sender: Seq::empty(),
                    enabled: true,
                    from_address_book: false,
                },
            ),
{
    let ghost all = rule_ids(config::views(rules@));
    let mut ids = text::no_texts();
    let mut i: usize = 0;
    assert(text::texts(ids@) =~= all.take(0));
    while i < rules.len()
        invariant
            i <= rules.len(),
            *rules == *old(rules),
            all == rule_ids(config::views(rules@)),
            text::texts(ids@) == all.take(i as int),
        decreases rules.len() - i,
    {
        text::add_text(&mut ids, rules[i].id.clone());
        assert(config::views(rules@)[i as int] == rules@[i as int]@);
        assert(all.take(i + 1) =~= all.take(i as int).push(rules@[i as int].id@));
        i += 1;
    }
    assert(all.take(i as int) =~= all);
    assert(text::texts(ids@).len() == ids@.len());
    let id = identifiers::free_id(&ids, "beacon-rule-");
    let rule = BeaconMonitorRule {
        id,
        label: String::new(),
        pattern: String::new(),
        sender: String::new(),
        enabled: true,
        from_address_book: false,
    };
    proof {
        config::lemma_views_push(rules@, rule);
        assert(rule.label@ =~= Seq::<char>::empty());
        assert(rule.pattern@ =~= Seq::<char>::empty());
        assert(rule.sender@ =~= Seq::<char>::empty());
        let n = choose|n: nat|
            identifiers::first_free(all, "beacon-rule-"@, n) && id@
                == #[trigger] identifiers::numbered("beacon-rule-"@, n);
        assert(rule@ =~= RuleView {
            id: identifiers::numbered("beacon-rule-"@, n),
            label: Seq::empty(),
            pattern: Seq::empty(),
            sender: Seq::empty(),
            enabled: true,
            from_address_book: false,
        });
    }
    rules.push(rule);
}

// ---------------------------------------------------------------------------
// Lists of what came in
// ---------------------------------------------------------------------------

pub open spec fn notified_keys(v: Seq<NotifiedView>) -> Seq<KeyView> {
    v.map_values(|p: NotifiedView| KeyView { major: Some(p.timestamp), minor: Seq::empty() })
}

pub open spec fn incoming_keys(v: Seq<IncomingView>) -> Seq<KeyView> {
    v.map_values(|b: IncomingView| KeyView { major: Some(b.timestamp), minor: Seq::empty() })
}

pub open spec fn rule_keys(v: Seq<RuleView>) -> Seq<KeyView> {
    v.map_values(|r: RuleView| KeyView { major: Some(r.label), minor: Seq::empty() })
}

fn time_key(t: &str) -> (r: SortKey)
    ensures
        r@ == (KeyView { major: Some(t@), minor: Seq::empty() }),
{
    let r = SortKey { major: Some(text::owned(t)), minor: String::new() };
    assert(r@.minor =~= Seq::<char>::empty());
    r
}

/// The positions of the packets that raised a notification, the newest first.
pub fn notified_order(v: &Vec<NotifiedPacket>) -> (r: Vec<usize>)
    ensures
        r@ == sorting::sorted_positions(notified_keys(config::views(v@)), v@.len(), true),
{
    let ghost all = notified_keys(config::views(v@));
    let mut keys: Vec<SortKey> = Vec::new();
    let mut i: usize = 0;
    assert(sorting::key_views(keys@) =~= all.take(0));
    while i < v.len()
        invariant
            i <= v.len(),
            keys@.len() == i,
            all == notified_keys(config::views(v@)),
            sorting::key_views(keys@) == all.take(i as int),
        decreases v.len() - i,
    {
        let k = time_key(v[i].timestamp.as_str());
        let ghost before = keys@;
        keys.push(k);
        assert(config::views(v@)[i as int] == v@[i as int]@);
        assert(sorting::key_views(keys@) =~= sorting::key_views(before).push(k@));
        assert(all.take(i + 1) =~= all.take(i as int).push(k@));
        i += 1;
    }
    assert(all.take(i as int) =~= all);
    sorting::stable_order(&keys, true)
}

/// The positions of the incoming beacons, the newest first.
pub fn incoming_order(v: &Vec<IncomingBeacon>) -> (r: Vec<usize>)
    ensures
        r@ == sorting::sorted_positions(incoming_keys(config::views(v@)), v@.len(), true),
{
    let ghost all = incoming_keys(config::views(v@));
    let mut keys: Vec<SortKey> = Vec::new();
    let mut i: usize = 0;
    assert(sorting::key_views(keys@) =~= all.take(0));
    while i < v.len()
        invariant
            i <= v.len(),
            keys@.len() == i,
            all == incoming_keys(config::views(v@)),
            sorting::key_views(keys@) == all.take(i as int),
        decreases v.len() - i,
    {
        let k = time_key(v[i].timestamp.as_str());
        let ghost before = keys@;
        keys.push(k);
        assert(config::views(v@)[i as int] == v@[i as int]@);
        assert(sorting::key_views(keys@) =~= sorting::key_views(before).push(k@));
        assert(all.take(i + 1) =~= all.take(i as int).push(k@));
        i += 1;
    }
    assert(all.take(i as int) =~= all);
    sorting::stable_order(&keys, true)
}

/// When and on which port something came in.
pub fn caption(timestamp: &str, all_ports: &Vec<PortEntry>, port_id: &str) -> (r: String)
    ensures
        r@ == timestamp@ + " \u{b7} "@ + config::name_or_id(config::views(all_ports@), port_id@),
{
    let mut r = text::owned(timestamp);
    r.append(" \u{b7} ");
    r.append(config::port_name(all_ports, port_id).as_str());
    r
}

/// The row of an incoming beacon.
pub fn incoming_label(b: &IncomingBeacon) -> (r: String)
    ensures
        r@ == b.from@ + " \u{2192} "@ + b.to@ + ": "@ + b.message@,
{
    let mut r = b.from.clone();
    r.append(" \u{2192} ");
    r.append(b.to.as_str());
    r.append(": ");
    r.append(b.message.as_str());
    r
}

pub open spec fn rules_with(v: Seq<RuleView>, from_book: bool) -> Seq<RuleView>
    decreases v.len(),
{
    if v.len() == 0 {
        v
    } else if v.last().from_address_book == from_book {
        rules_with(v.drop_last(), from_book).push(v.last())
    } else {
        rules_with(v.drop_last(), from_book)
    }
}

/// Rules in the order of their names.
pub open spec fn by_label(v: Seq<RuleView>) -> Seq<RuleView> {
    sorting::sorted_positions(rule_keys(v), v.len(), false).map_values(|k: usize| v[k as int])
}

fn pick_rules(v: &Vec<BeaconMonitorRule>, from_book: bool) -> (r: Vec<BeaconMonitorRule>)
    ensures
        config::views(r@) == by_label(rules_with(config::views(v@), from_book)),
{
    let ghost all = config::views(v@);
    let mut some: Vec<BeaconMonitorRule> = Vec::new();
    let mut keys: Vec<SortKey> = Vec::new();
    let mut i: usize = 0;
    assert(config::views(some@) =~= rules_with(all.take(0), from_book));
    assert(sorting::key_views(keys@) =~= rule_keys(config::views(some@)));
    while i < v.len()
        invariant
            i <= v.len(),
            all == config::views(v@),
            some@.len() == keys@.len(),
            config::views(some@) == rules_with(all.take(i as int), from_book),
            sorting::key_views(keys@) == rule_keys(config::views(some@)),
        decreases v.len() - i,
    {
        let rule = &v[i];
        proof {
            assert(all.take(i + 1).drop_last() =~= all.take(i as int));
            assert(all.take(i + 1).last() == rule@);
            config::lemma_views_push(some@, *rule);
        }
        if rule.from_address_book == from_book {
            let ghost before = keys@;
            let k = time_key(rule.label.as_str());
            keys.push(k);
            assert(sorting::key_views(keys@) =~= sorting::key_views(before).push(k@));
            some.push(rule.clone());
            assert(rule_keys(config::views(some@)) =~= sorting::key_views(keys@));
        }
        i += 1;
    }
    assert(all.take(i as int) =~= all);
    let order = sorting::stable_order(&keys, false);
    let ghost picked = by_label(config::views(some@));
    let mut r: Vec<BeaconMonitorRule> = Vec::new();
    let mut j: usize = 0;
    assert(config::views(r@) =~= picked.take(0));
    while j < order.len()
        invariant
            j <= order.len(),
            forall|m: int| 0 <= m < order@.len() ==> #[trigger] order@[m] < some@.len(),
            picked == order@.map_values(|k: usize| config::views(some@)[k as int]),
            config::views(r@) == picked.take(j as int),
        decreases order.len() - j,
    {
        let rule = &some[order[j]];
        proof {
            config::lemma_views_push(r@, *rule);
            assert(picked[j as int] == rule@);
            assert(picked.take(j + 1) =~= picked.take(j as int).push(rule@));
        }
        r.push(rule.clone());
        j += 1;
    }
    assert(picked.take(j as int) =~= picked);
    r
}

/// The rules as they are listed: those of the address book first, each by name.
pub fn listed_rules(v: &Vec<BeaconMonitorRule>) -> (r: Vec<BeaconMonitorRule>)
    ensures
        config::views(r@) == by_label(rules_with(config::views(v@), true)) + by_label(
            rules_with(config::views(v@), false),
        ),
{
    let mut r = pick_rules(v, true);
    let mut rest = pick_rules(v, false);
    let ghost a = r@;
    let ghost b = rest@;
    r.append(&mut rest);
    assert(config::views(r@) =~= config::views(a) + config::views(b));
    r
}

// ---------------------------------------------------------------------------
// Laws
// ---------------------------------------------------------------------------

/// Saving edited rules never changes the rules of the address book.
pub proof fn law_book_rules_kept(rules: Seq<RuleView>, edited: Seq<RuleView>, valid: Seq<bool>)
    requires
        bad_pattern(edited, valid) is None,
    ensures
        after_rules_saved(rules, edited, valid) matches Ok(after) && book_rules(after)
            == book_rules(rules),
{
    let kept = book_rules(rules);
    lemma_book_rules(rules);
    lemma_book_of_sum(kept, edited_rules(edited));
    lemma_edited_not_book(edited);
    lemma_no_book(edited_rules(edited));
    assert(book_rules(kept) == kept) by {
        lemma_all_book(kept);
    }
    assert(kept + Seq::<RuleView>::empty() =~= kept);
}

proof fn lemma_book_rules(rules: Seq<RuleView>)
    ensures
        forall|i: int|
            0 <= i < book_rules(rules).len() ==> (#[trigger] book_rules(
                rules,
            )[i]).from_address_book,
    decreases rules.len(),
{
    if rules.len() > 0 {
        let before = book_rules(rules.drop_last());
        lemma_book_rules(rules.drop_last());
        assert forall|i: int| 0 <= i < book_rules(rules).len() implies (
        #[trigger] book_rules(rules)[i]).from_address_book by {
            if i < before.len() {
                assert(before[i].from_address_book);
            }
        }
    }
}

proof fn lemma_all_book(v: Seq<RuleView>)
    requires
        forall|i: int| 0 <= i < v.len() ==> (#[trigger] v[i]).from_address_book,
    ensures
        book_rules(v) == v,
    decreases v.len(),
{
    if v.len() > 0 {
        assert(v.last().from_address_book);
        assert forall|i: int| 0 <= i < v.drop_last().len() implies (
        #[trigger] v.drop_last()[i]).from_address_book by {
            assert(v[i].from_address_book);
        }
        lemma_all_book(v.drop_last());
        assert(v.drop_last().push(v.last()) =~= v);
    }
}

proof fn lemma_no_book(v: Seq<RuleView>)
    requires
        forall|i: int| 0 <= i < v.len() ==> !(#[trigger] v[i]).from_address_book,
    ensures
        book_rules(v) == Seq::<RuleView>::empty(),
    decreases v.len(),
{
    if v.len() > 0 {
        assert(!v.last().from_address_book);
        assert forall|i: int| 0 <= i < v.drop_last().len() implies !(
        #[trigger] v.drop_last()[i]).from_address_book by {
            assert(!v[i].from_address_book);
        }
        lemma_no_book(v.drop_last());
    } else {
        assert(v =~= Seq::<RuleView>::empty());
    }
}

proof fn lemma_edited_not_book(rules: Seq<RuleView>)
    ensures
        forall|i: int|
            0 <= i < edited_rules(rules).len() ==> !(#[trigger] edited_rules(
                rules,
            )[i]).from_address_book,
    decreases rules.len(),
{
    if rules.len() > 0 {
        let before = edited_rules(rules.drop_last());
        lemma_edited_not_book(rules.drop_last());
        assert forall|i: int| 0 <= i < edited_rules(rules).len() implies !(
        #[trigger] edited_rules(rules)[i]).from_address_book by {
            if i < before.len() {
                assert(!before[i].from_address_book);
            }
        }
    }
}

proof fn lemma_book_of_sum(a: Seq<RuleView>, b: Seq<RuleView>)
    ensures
        book_rules(a + b) == book_rules(a) + book_rules(b),
    decreases b.len(),
{
    if b.len() == 0 {
        assert(a + b =~= a);
        assert(book_rules(a) + b =~= book_rules(a));
    } else {
        assert((a + b).drop_last() =~= a + b.drop_last());
        assert((a + b).last() == b.last());
        lemma_book_of_sum(a, b.drop_last());
        assert(book_rules(a + b) =~= book_rules(a) + book_rules(b));
    }
}

/// A rule that is disabled, or whose pattern does not compile, never applies.
pub proof fn law_disabled_rule(rule: RuleView, verdict: Option<bool>, from: Seq<char>)
    requires
        !rule.enabled || verdict is None,
    ensures
        !rule_applies(rule, verdict, from),
{
}

/// Switched off altogether or one by one, a beacon is never scheduled.
pub proof fn law_disabled_beacon(beacons: Seq<BeaconView>, vars: VarsView)
    requires
        forall|i: int| 0 <= i < beacons.len() ==> !(#[trigger] beacons[i]).enabled,
    ensures
        schedule(beacons, vars).len() == 0,
    decreases beacons.len(),
{
    if beacons.len() > 0 {
        assert(!beacons.last().enabled);
        assert forall|i: int| 0 <= i < beacons.drop_last().len() implies !(
        #[trigger] beacons.drop_last()[i]).enabled by {
            assert(!beacons[i].enabled);
        }
        law_disabled_beacon(beacons.drop_last(), vars);
    }
}

/// Removing a beacon takes no pinned one away, and none with another identifier; the
/// others stay in their order.
pub proof fn law_removed_beacon(beacons: Seq<BeaconView>, id: Seq<char>)
    ensures
        without_beacon(beacons, id) == beacons.filter(|b: BeaconView| b.pinned || b.id != id),
        forall|b: BeaconView|
            beacons.contains(b) && (b.pinned || b.id != id) ==> #[trigger] without_beacon(
                beacons,
                id,
            ).contains(b),
        forall|b: BeaconView| #[trigger]
            without_beacon(beacons, id).contains(b) ==> beacons.contains(b) && (b.pinned || b.id
                != id),
    decreases beacons.len(),
{
    reveal(Seq::filter);
    let keep = |b: BeaconView| b.pinned || b.id != id;
    if beacons.len() > 0 {
        law_removed_beacon(beacons.drop_last(), id);
        let less = without_beacon(beacons.drop_last(), id);
        assert forall|b: BeaconView|
            beacons.contains(b) && (b.pinned || b.id != id) implies #[trigger] without_beacon(
            beacons,
            id,
        ).contains(b) by {
            let i = choose|i: int| 0 <= i < beacons.len() && beacons[i] == b;
            if i < beacons.len() - 1 {
                assert(beacons.drop_last()[i] == b);
                assert(less.contains(b));
                let j = choose|j: int| 0 <= j < less.len() && less[j] == b;
                assert(without_beacon(beacons, id)[j] == b);
            } else {
                assert(without_beacon(beacons, id)[less.len() as int] == b);
            }
        }
        assert forall|b: BeaconView| #[trigger]
            without_beacon(beacons, id).contains(b) implies beacons.contains(b) && (b.pinned || b.id
            != id) by {
            let r = without_beacon(beacons, id);
            let i = choose|i: int| 0 <= i < r.len() && r[i] == b;
            if i < less.len() {
                assert(less[i] == b);
                assert(beacons.drop_last().contains(b));
                let j = choose|j: int|
                    0 <= j < beacons.drop_last().len() && beacons.drop_last()[j] == b;
                assert(beacons[j] == b);
            } else {
                assert(beacons[beacons.len() - 1] == b);
            }
        }
    }
}

proof fn lemma_schedule(beacons: Seq<BeaconView>, vars: VarsView)
    ensures
        ({
            let on = beacons.filter(|b: BeaconView| b.enabled);
            let s = schedule(beacons, vars);
            &&& s.len() == on.len()
            &&& forall|i: int| 0 <= i < s.len() ==> #[trigger] s[i] == schedule_of(on[i], vars)
        }),
    decreases beacons.len(),
{
    reveal(Seq::filter);
    if beacons.len() > 0 {
        lemma_schedule(beacons.drop_last(), vars);
    }
}

/// Every enabled beacon is sent, and no other: over its own port, to its own
/// destination by its own path, with its own text, and as often as it asks, at most
/// once a second.
pub proof fn law_enabled_beacons_sent(beacons: Seq<BeaconView>, vars: VarsView)
    ensures
        ({
            let on = beacons.filter(|b: BeaconView| b.enabled);
            let s = schedule(beacons, vars);
            &&& s.len() == on.len()
            &&& forall|i: int|
                0 <= i < s.len() ==> (#[trigger] s[i]).id == on[i].id && s[i].port_id
                    == on[i].port_id && s[i].dest == on[i].dest && s[i].path == text::upper_texts(
                    text::items_of(on[i].via, ',', ' '),
                ) && s[i].message == vars.applied(on[i].message) && s[i].interval_secs >= 1 && (
                on[i].interval_secs >= 1 ==> s[i].interval_secs == on[i].interval_secs)
        }),
{
    lemma_schedule(beacons, vars);
}

/// The rule asks for the frame: it is enabled, its pattern matches the destination,
/// and the sender is the one that it names, if it names one.
pub open spec fn takes(rule: RuleView, from: Seq<char>, to: Seq<char>) -> bool {
    &&& rule.enabled
    &&& patterns::regex_compiles(rule.pattern, true)
    &&& patterns::regex_matches(rule.pattern, true, to)
    &&& text::trimmed(rule.sender).len() > 0 ==> text::ascii_upper(text::trimmed(rule.sender))
        == text::ascii_upper(from)
}

/// A frame counts as a beacon under the first rule that takes it, and under none where
/// none does.
pub proof fn law_first_rule_takes(rules: Seq<RuleView>, from: Seq<char>, to: Seq<char>, i: int)
    ensures
        0 <= i < rules.len() && takes(rules[i], from, to) && (forall|j: int|
            0 <= j < i ==> !takes(#[trigger] rules[j], from, to)) ==> applying_label(
            rules,
            verdicts_on(rules, to),
            from,
        ) == Some(rules[i].label),
        (forall|j: int| 0 <= j < rules.len() ==> !takes(#[trigger] rules[j], from, to))
            ==> applying_label(rules, verdicts_on(rules, to), from) is None,
    decreases rules.len(),
{
    if rules.len() > 0 {
        let rest = rules.skip(1);
        assert(verdicts_on(rules, to).skip(1) =~= verdicts_on(rest, to));
        assert(verdicts_on(rules, to)[0] == rule_verdict(rules[0], to));
        assert(rule_applies(rules[0], verdicts_on(rules, to)[0], from) <==> takes(
            rules[0],
            from,
            to,
        ));
        law_first_rule_takes(rest, from, to, i - 1);
        assert forall|j: int| 0 <= j < rest.len() implies #[trigger] rest[j] == rules[j + 1] by {}
        if i > 0 && i < rules.len() {
            assert(rest[i - 1] == rules[i]);
        }
    }
}

/// A saved beacon is what the form says, on the port that was chosen; a new one stands
/// at the end under its new identifier and is not pinned.
pub proof fn law_beacon_saved(
    beacons: Seq<BeaconView>,
    all_ports: Seq<PortView>,
    form: BeaconForm,
    fresh: Seq<char>,
)
    requires
        text::trimmed(form.dest@).len() > 0,
        ports::positive_in(form.interval@) is Some,
        ports::positive_in(form.interval@)->0 <= u32::MAX,
        form.port < all_ports.len(),
    ensures
        after_save(beacons, all_ports, None, form, fresh) matches Ok(after) && after.len()
            == beacons.len() + 1 && after.drop_last() == beacons && after.last().id == fresh
            && after.last().port_id == all_ports[form.port as int].id && after.last().dest
            == text::upper_text(form.dest@) && after.last().via == text::call_text(form.path@)
            && after.last().message == form.message@ && after.last().interval_secs
            == ports::positive_in(form.interval@)->0 && after.last().enabled == form.enabled
            && !after.last().pinned,
{
    assert(after_save(beacons, all_ports, None, form, fresh)->Ok_0.drop_last() =~= beacons);
}

/// A beacon is listed under the name of its port, and under no name where there is no
/// such port any more.
pub proof fn law_port_named(v: Seq<PortView>, id: Seq<char>, k: int)
    ensures
        0 <= k < v.len() && v[k].id == id && (forall|j: int|
            0 <= j < k ==> (#[trigger] v[j]).id != id) ==> known_name(v, id) == v[k].name,
        (forall|j: int| 0 <= j < v.len() ==> (#[trigger] v[j]).id != id) ==> known_name(v, id)
            == "(unknown port)"@,
    decreases v.len(),
{
    if v.len() > 0 && v[0].id != id {
        let rest = v.skip(1);
        assert forall|j: int| 0 <= j < rest.len() implies #[trigger] rest[j] == v[j + 1] by {}
        law_port_named(rest, id, k - 1);
        if 0 < k < v.len() {
            assert(rest[k - 1] == v[k]);
        }
    }
}

} // verus!
