//! Which traffic is directed at this station.

use vstd::prelude::*;

use crate::config::{AppConfig, HighlightRule};
use crate::qrz;
use crate::text;

verus! {

/// The station's own callsign without SSID, in upper case, where one is set.
pub open spec fn own_base(default_call: Option<Seq<char>>) -> Option<Seq<char>> {
    match default_call {
        Some(call) => if text::trimmed(call).len() == 0 {
            None
        } else {
            Some(text::upper_text(qrz::base_call(text::trimmed(call))))
        },
        None => None,
    }
}

pub fn own_call_base(config: &AppConfig) -> (r: Option<String>)
    ensures
        text::opt_view(r) == own_base(text::opt_view(config.ui.default_call)),
{
    match &config.ui.default_call {
        Some(call) => {
            let call = text::trim(call.as_str());
            if call.as_str().is_empty() {
                None
            } else {
                let base = qrz::strip_ssid(call.as_str());
                Some(text::to_uppercase(base.as_str()))
            }
        },
        None => None,
    }
}

/// What counts as directed at this station.
#[derive(Debug)]
pub struct NotifyMatcher {
    pub directed_enabled: bool,
    pub my_call_base: Option<String>,
}

/// A frame to `to` is directed at the station, whatever the SSIDs.
pub open spec fn directed(enabled: bool, own: Option<Seq<char>>, to: Seq<char>) -> bool {
    enabled && own == Some(text::upper_text(qrz::base_call(to)))
}

impl NotifyMatcher {
    pub fn build(config: &AppConfig) -> (r: Self)
        ensures
            r.directed_enabled == config.notify.directed_enabled,
            text::opt_view(r.my_call_base) == own_base(text::opt_view(config.ui.default_call)),
    {
        NotifyMatcher {
            directed_enabled: config.notify.directed_enabled,
            my_call_base: own_call_base(config),
        }
    }

    pub fn matches_directed(&self, to: &str) -> (r: bool)
        ensures
            r == directed(self.directed_enabled, text::opt_view(self.my_call_base), to@),
    {
        if !self.directed_enabled {
            return false;
        }
        let base = qrz::strip_ssid(to);
        let check = text::to_uppercase(base.as_str());
        match &self.my_call_base {
            Some(own) => text::eq_str(own.as_str(), check.as_str()),
            None => false,
        }
    }
}

/// Why a frame raises a notification.
#[derive(Debug)]
pub enum NotifyMatch {
    Directed,
    /// A rule with this label asks for it.
    Custom(String),
}

#[verifier::ext_equal]
pub enum MatchView {
    Directed,
    Custom(Seq<char>),
}

pub open spec fn match_view(o: Option<NotifyMatch>) -> Option<MatchView> {
    match o {
        Some(NotifyMatch::Directed) => Some(MatchView::Directed),
        Some(NotifyMatch::Custom(label)) => Some(MatchView::Custom(label@)),
        None => None,
    }
}

/// One of `items` is `to`, up to ASCII case.
pub open spec fn lists_call(items: Seq<Seq<char>>, to: Seq<char>) -> bool {
    exists|i: int|
        0 <= i < items.len() && text::ascii_upper(#[trigger] items[i]) == text::ascii_upper(to)
}

/// The rule asks for a notification of frames to exactly `to`.
pub open spec fn rule_asks(rule: HighlightRule, to: Seq<char>) -> bool {
    rule.enabled && rule.notify && lists_call(text::items_of(rule.pattern@, ',', '|'), to)
}

/// The label of the first rule that asks.
pub open spec fn asking_rule(rules: Seq<HighlightRule>, to: Seq<char>) -> Option<Seq<char>>
    decreases rules.len(),
{
    if rules.len() == 0 {
        None
    } else if rule_asks(rules[0], to) {
        Some(rules[0].label@)
    } else {
        asking_rule(rules.skip(1), to)
    }
}

/// What a frame to `to` raises: traffic directed at the station comes first.
pub open spec fn destination_match(config: AppConfig, to: Seq<char>) -> Option<MatchView> {
    if directed(
        config.notify.directed_enabled,
        own_base(text::opt_view(config.ui.default_call)),
        to,
    ) {
        Some(MatchView::Directed)
    } else if config.notify.custom_enabled {
        match asking_rule(config.highlighting.rules@, to) {
            Some(label) => Some(MatchView::Custom(label)),
            None => None,
        }
    } else {
        None
    }
}

fn rule_asks_for(rule: &HighlightRule, to: &str) -> (r: bool)
    ensures
        r == rule_asks(*rule, to@),
{
    if !rule.enabled || !rule.notify {
        return false;
    }
    let items = text::split_items(rule.pattern.as_str(), ',', '|');
    let ghost all = text::texts(items@);
    let mut i: usize = 0;
    while i < items.len()
        invariant
            i <= items.len(),
            all == text::texts(items@),
            all == text::items_of(rule.pattern@, ',', '|'),
            rule.enabled,
            rule.notify,
            forall|j: int|
                0 <= j < i ==> text::ascii_upper(#[trigger] all[j]) != text::ascii_upper(to@),
        decreases items.len() - i,
    {
        assert(all[i as int] == items@[i as int]@);
        if text::eq_ignore_ascii_case(items[i].as_str(), to) {
            return true;
        }
        i += 1;
    }
    false
}

/// Whether a frame to `to` raises a notification, and why.
pub fn match_destination(config: &AppConfig, to: &str) -> (r: Option<NotifyMatch>)
    ensures
        match_view(r) == destination_match(*config, to@),
{
    let matcher = NotifyMatcher::build(config);
    if matcher.matches_directed(to) {
        return Some(NotifyMatch::Directed);
    }
    if !config.notify.custom_enabled {
        return None;
    }
    let ghost rules = config.highlighting.rules@;
    let mut i: usize = 0;
    assert(rules.skip(0) =~= rules);
    while i < config.highlighting.rules.len()
        invariant
            i <= config.highlighting.rules.len(),
            rules == config.highlighting.rules@,
            config.notify.custom_enabled,
            !directed(
                config.notify.directed_enabled,
                own_base(text::opt_view(config.ui.default_call)),
                to@,
            ),
            asking_rule(rules, to@) == asking_rule(rules.skip(i as int), to@),
        decreases config.highlighting.rules.len() - i,
    {
        assert(rules.skip(i as int)[0] == rules[i as int]);
        if rule_asks_for(&config.highlighting.rules[i], to) {
            return Some(NotifyMatch::Custom(config.highlighting.rules[i].label.clone()));
        }
        assert(rules.skip(i as int).skip(1) =~= rules.skip(i + 1));
        i += 1;
    }
    None
}

/// The sound of a notification: the configured file, where its name is not empty.
pub fn sound_file(config: &AppConfig) -> (r: Option<String>)
    ensures
        text::opt_view(r) == text::unless_empty(
            text::or_empty(text::opt_view(config.notify.notification_sound)),
        ),
{
    match &config.notify.notification_sound {
        Some(path) => text::nonempty(path.clone()),
        None => None,
    }
}

/// With directed notifications off, nothing is directed at the station.
pub proof fn law_disabled_never_matches(own: Option<Seq<char>>, to: Seq<char>)
    ensures
        !directed(false, own, to),
{
}

/// A frame to the station matches under any SSID.
pub proof fn law_ssid_ignored(own: Option<Seq<char>>, a: Seq<char>, b: Seq<char>)
    requires
        qrz::base_call(a) == qrz::base_call(b),
    ensures
        directed(true, own, a) == directed(true, own, b),
{
}

/// The rule at `i` is the first that asks for frames to `to`: it is enabled, it
/// notifies, and it lists that callsign in some case.
pub open spec fn asks_first(rules: Seq<HighlightRule>, to: Seq<char>, i: int) -> bool {
    &&& 0 <= i < rules.len()
    &&& rules[i].enabled && rules[i].notify && lists_call(
        text::items_of(rules[i].pattern@, ',', '|'),
        to,
    )
    &&& forall|j: int|
        0 <= j < i ==> !(#[trigger] rules[j]).enabled || !rules[j].notify || !lists_call(
            text::items_of(rules[j].pattern@, ',', '|'),
            to,
        )
}

/// The first rule that asks for a frame gives its label, and where none asks there is
/// no label.
pub proof fn law_first_rule_asks(rules: Seq<HighlightRule>, to: Seq<char>, i: int)
    ensures
        asks_first(rules, to, i) ==> asking_rule(rules, to) == Some(rules[i].label@),
        (forall|j: int|
            0 <= j < rules.len() ==> !(#[trigger] rules[j]).enabled || !rules[j].notify
                || !lists_call(text::items_of(rules[j].pattern@, ',', '|'), to))
            ==> asking_rule(rules, to) is None,
    decreases rules.len(),
{
    if rules.len() > 0 && !rule_asks(rules[0], to) {
        let rest = rules.skip(1);
        law_first_rule_asks(rest, to, i - 1);
        assert forall|j: int| 0 <= j < rest.len() implies #[trigger] rest[j] == rules[j + 1] by {}
        if asks_first(rules, to, i) {
            assert(rest[i - 1] == rules[i]);
            assert(asks_first(rest, to, i - 1));
        }
    }
}

/// Traffic for the station raises a notification of its own, whatever the SSIDs and
/// the case, where that is wanted; other traffic raises the one of the first rule that
/// asks for it, where those are wanted.
pub proof fn law_what_is_raised(c: AppConfig, own: Seq<char>, to: Seq<char>)
    requires
        c.ui.default_call is Some,
        c.ui.default_call->0@ == own,
        text::trimmed(own).len() > 0,
    ensures
        ({
            let for_us = text::upper_text(qrz::base_call(text::trimmed(own)))
                == text::upper_text(qrz::base_call(to));
            &&& destination_match(c, to) == Some(MatchView::Directed) <==> for_us
                && c.notify.directed_enabled
            &&& !(for_us && c.notify.directed_enabled) && c.notify.custom_enabled ==> (
            destination_match(c, to) == match asking_rule(c.highlighting.rules@, to) {
                Some(label) => Some(MatchView::Custom(label)),
                None => None,
            })
            &&& !(for_us && c.notify.directed_enabled) && !c.notify.custom_enabled
                ==> destination_match(c, to) is None
        }),
{
}

} // verus!
