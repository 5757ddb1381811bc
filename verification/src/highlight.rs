//! Which parts of a line are colored: callsigns, the tags of frames, and what the
//! user's rules match.

use vstd::prelude::*;
use vstd::utf8::*;

use crate::config::{self, AppConfig, HighlightRule};
use crate::notify;
use crate::patterns;
use crate::qrz;
use crate::text;

verus! {

/// A callsign: one or two letters, a digit, up to four letters and an SSID.
pub open spec fn callsign_pattern() -> Seq<char> {
    "\\b[A-Za-z]{1,2}[0-9][A-Za-z]{1,4}(-[0-9]{1,2})?\\b"@
}

/// The bracketed tag of a frame.
pub open spec fn tag_pattern() -> Seq<char> {
    "\\[(?:[USTCDdGRHg]|UI|SABM|DISC|DM|UA|FRMR|unproto TX|I N\\(S\\)=\\d+ N\\(R\\)=\\d+|RR N\\(R\\)=\\d+|RNR N\\(R\\)=\\d+|REJ N\\(R\\)=\\d+)\\]"@
}

/// A rule with its pattern as a regular expression.
#[derive(Debug)]
pub struct ColorRule {
    pub pattern: String,
    pub color: String,
}

#[verifier::ext_equal]
pub struct ColorRuleView {
    pub pattern: Seq<char>,
    pub color: Seq<char>,
}

impl View for ColorRule {
    type V = ColorRuleView;

    open spec fn view(&self) -> ColorRuleView {
        ColorRuleView { pattern: self.pattern@, color: self.color@ }
    }
}

/// The user's colors, ready to be looked for.
#[derive(Debug)]
pub struct Highlighter {
    pub enabled: bool,
    pub callsign_color: String,
    pub known_color: String,
    pub known_bases: Vec<String>,
    pub my_call_color: String,
    pub my_call_base: Option<String>,
    pub ax25_color: String,
    pub rules: Vec<ColorRule>,
}

#[verifier::ext_equal]
pub struct HighlighterView {
    pub enabled: bool,
    pub callsign_color: Seq<char>,
    pub known_color: Seq<char>,
    pub known_bases: Seq<Seq<char>>,
    pub my_call_color: Seq<char>,
    pub my_call_base: Option<Seq<char>>,
    pub ax25_color: Seq<char>,
    pub rules: Seq<ColorRuleView>,
}

impl View for Highlighter {
    type V = HighlighterView;

    open spec fn view(&self) -> HighlighterView {
        HighlighterView {
            enabled: self.enabled,
            callsign_color: self.callsign_color@,
            known_color: self.known_color@,
            known_bases: text::texts(self.known_bases@),
            my_call_color: self.my_call_color@,
            my_call_base: text::opt_view(self.my_call_base),
            ax25_color: self.ax25_color@,
            rules: config::views(self.rules@),
        }
    }
}

// ---------------------------------------------------------------------------
// Rules
// ---------------------------------------------------------------------------

pub open spec fn escaped_all(items: Seq<Seq<char>>) -> Seq<Seq<char>> {
    items.map_values(|s: Seq<char>| patterns::escaped(s))
}

/// The regular expression of a rule: its own, or one that finds its words.
pub open spec fn rule_pattern(r: HighlightRule) -> Option<Seq<char>> {
    if r.regex {
        Some(r.pattern@)
    } else {
        let items = text::items_of(r.pattern@, ',', '|');
        if items.len() == 0 {
            None
        } else {
            Some("\\b("@ + text::joined(escaped_all(items), "|"@) + ")\\b"@)
        }
    }
}

pub fn pattern_of(r: &HighlightRule) -> (p: Option<String>)
    ensures
        text::opt_view(p) == rule_pattern(*r),
{
    if r.regex {
        return Some(r.pattern.clone());
    }
    let items = text::split_items(r.pattern.as_str(), ',', '|');
    let ghost all = text::texts(items@);
    assert(all.len() == items@.len());
    if items.len() == 0 {
        return None;
    }
    let mut words = text::no_texts();
    let mut i: usize = 0;
    assert(text::texts(words@) =~= escaped_all(all).take(0));
    while i < items.len()
        invariant
            i <= items.len(),
            all == text::texts(items@),
            text::texts(words@) == escaped_all(all).take(i as int),
        decreases items.len() - i,
    {
        let e = patterns::escape(items[i].as_str());
        text::add_text(&mut words, e);
        assert(escaped_all(all).take(i + 1) =~= escaped_all(all).take(i as int).push(
            patterns::escaped(items@[i as int]@),
        ));
        i += 1;
    }
    assert(escaped_all(all).take(i as int) =~= escaped_all(all));
    let mut p = text::owned("\\b(");
    let joined = text::join(&words, "|");
    p.append(joined.as_str());
    p.append(")\\b");
    Some(p)
}

/// The rule colors anything: it is enabled and its expression compiles.
pub open spec fn ready_rule(r: HighlightRule) -> Option<ColorRuleView> {
    match rule_pattern(r) {
        Some(p) => if r.enabled && patterns::regex_compiles(p, true) {
            Some(ColorRuleView { pattern: p, color: r.color@ })
        } else {
            None
        },
        None => None,
    }
}

pub open spec fn ready_rules(rules: Seq<HighlightRule>) -> Seq<ColorRuleView>
    decreases rules.len(),
{
    if rules.len() == 0 {
        Seq::empty()
    } else {
        match ready_rule(rules.last()) {
            Some(r) => ready_rules(rules.drop_last()).push(r),
            None => ready_rules(rules.drop_last()),
        }
    }
}

/// A callsign as stations are compared: without SSID, in upper case.
pub open spec fn base_text(call: Seq<char>) -> Seq<char> {
    text::upper_text(qrz::base_call(call))
}

pub fn base_of(call: &str) -> (r: String)
    ensures
        r@ == base_text(call@),
{
    let base = qrz::strip_ssid(call);
    text::to_uppercase(base.as_str())
}

pub open spec fn book_bases(book: Seq<config::EntryView>) -> Seq<Seq<char>> {
    book.map_values(|e: config::EntryView| base_text(e.callsign))
}

impl Highlighter {
    /// The colors of the current configuration.
    pub fn build(config: &AppConfig) -> (r: Self)
        ensures
            r@ == (HighlighterView {
                enabled: config.highlighting.enabled,
                callsign_color: config.highlighting.callsign_color@,
                known_color: config.highlighting.known_callsign_color@,
                known_bases: book_bases(config::views(config.address_book@)),
                my_call_color: config.highlighting.my_call_color@,
                my_call_base: notify::own_base(text::opt_view(config.ui.default_call)),
                ax25_color: config.highlighting.ax25_command_color@,
                rules: ready_rules(config.highlighting.rules@),
            }),
    {
        let hl = &config.highlighting;
        let ghost book = config::views(config.address_book@);
        let mut known = text::no_texts();
        let mut i: usize = 0;
        assert(text::texts(known@) =~= book_bases(book).take(0));
        while i < config.address_book.len()
            invariant
                i <= config.address_book.len(),
                book == config::views(config.address_book@),
                text::texts(known@) == book_bases(book).take(i as int),
            decreases config.address_book.len() - i,
        {
            let b = base_of(config.address_book[i].callsign.as_str());
            text::add_text(&mut known, b);
            assert(book[i as int] == config.address_book@[i as int]@);
            assert(book_bases(book).take(i + 1) =~= book_bases(book).take(i as int).push(b@));
            i += 1;
        }
        assert(book_bases(book).take(i as int) =~= book_bases(book));
        let ghost all = config.highlighting.rules@;
        let mut rules: Vec<ColorRule> = Vec::new();
        let mut k: usize = 0;
        assert(config::views(rules@) =~= ready_rules(all.take(0)));
        while k < hl.rules.len()
            invariant
                k <= hl.rules.len(),
                hl.rules@ == all,
                config::views(rules@) == ready_rules(all.take(k as int)),
            decreases hl.rules.len() - k,
        {
            assert(all.take(k + 1).drop_last() =~= all.take(k as int));
            let rule = &hl.rules[k];
            if let Some(p) = pattern_of(rule) {
                if rule.enabled && patterns::compiles(p.as_str(), true) {
                    let c = ColorRule { pattern: p, color: rule.color.clone() };
                    proof {
                        config::lemma_views_push(rules@, c);
                    }
                    rules.push(c);
                }
            }
            k += 1;
        }
        assert(all.take(k as int) =~= all);
        Highlighter {
            enabled: hl.enabled,
            callsign_color: hl.callsign_color.clone(),
            known_color: hl.known_callsign_color.clone(),
            known_bases: known,
            my_call_color: hl.my_call_color.clone(),
            my_call_base: notify::own_call_base(config),
            ax25_color: hl.ax25_command_color.clone(),
            rules,
        }
    }
}

// ---------------------------------------------------------------------------
// Spans
// ---------------------------------------------------------------------------

/// How many bytes a character takes.
pub open spec fn char_width(c: char) -> nat {
    if (c as u32) < 0x80 {
        1
    } else if (c as u32) < 0x800 {
        2
    } else if (c as u32) < 0x10000 {
        3
    } else {
        4
    }
}

/// How many characters stand before a byte offset.
pub open spec fn char_pos(line: Seq<char>, offset: nat) -> int
    decreases line.len(),
{
    if line.len() == 0 || offset == 0 {
        0
    } else if offset < char_width(line[0]) {
        1
    } else {
        1 + char_pos(line.skip(1), (offset - char_width(line[0])) as nat)
    }
}

proof fn lemma_char_pos(line: Seq<char>, a: nat, b: nat)
    requires
        a <= b,
    ensures
        0 <= char_pos(line, a) <= char_pos(line, b) <= line.len(),
    decreases line.len(),
{
    if line.len() > 0 {
        let w = char_width(line[0]);
        if a >= w {
            lemma_char_pos(line.skip(1), (a - w) as nat, (b - w) as nat);
        } else if b >= w {
            lemma_char_pos(line.skip(1), 0, (b - w) as nat);
        }
    }
}

fn count_chars(v: &Vec<char>, offset: usize) -> (r: usize)
    ensures
        r == char_pos(v@, offset as nat),
        r <= v@.len(),
{
    let mut left: usize = offset;
    let mut i: usize = 0;
    assert(v@.skip(0) =~= v@);
    while i < v.len() && left > 0
        invariant
            i <= v.len(),
            char_pos(v@, offset as nat) == i + char_pos(v@.skip(i as int), left as nat),
        decreases v.len() - i,
    {
        let c = v[i] as u32;
        let w: usize = if c < 0x80 {
            1
        } else if c < 0x800 {
            2
        } else if c < 0x10000 {
            3
        } else {
            4
        };
        assert(v@.skip(i as int)[0] == v@[i as int]);
        assert(v@.skip(i as int).skip(1) =~= v@.skip(i + 1));
        if left < w {
            return i + 1;
        }
        left -= w;
        i += 1;
    }
    assert(v@.skip(v@.len() as int) =~= Seq::<char>::empty());
    i
}

/// A part of a line, by the positions of its characters, and its color.
#[derive(Debug)]
pub struct Span {
    pub start: usize,
    pub end: usize,
    pub color: String,
}

#[verifier::ext_equal]
pub struct SpanView {
    pub start: int,
    pub end: int,
    pub color: Seq<char>,
}

impl View for Span {
    type V = SpanView;

    open spec fn view(&self) -> SpanView {
        SpanView { start: self.start as int, end: self.end as int, color: self.color@ }
    }
}

/// Whose color a callsign takes: one's own station comes before known ones.
pub open spec fn call_color(h: HighlighterView, call: Seq<char>) -> Seq<char> {
    let base = base_text(call);
    if h.my_call_base == Some(base) {
        h.my_call_color
    } else if h.known_bases.contains(base) {
        h.known_color
    } else {
        h.callsign_color
    }
}

pub open spec fn plain_span(line: Seq<char>, m: (usize, usize), color: Seq<char>) -> SpanView {
    SpanView { start: char_pos(line, m.0 as nat), end: char_pos(line, m.1 as nat), color }
}

pub open spec fn plain_spans(line: Seq<char>, found: Seq<(usize, usize)>, color: Seq<char>) -> Seq<
    SpanView,
> {
    found.map_values(|m: (usize, usize)| plain_span(line, m, color))
}

/// The span of a callsign, in its color.
pub open spec fn call_span(h: HighlighterView, line: Seq<char>, m: (usize, usize)) -> SpanView {
    let a = char_pos(line, m.0 as nat);
    let b = char_pos(line, m.1 as nat);
    SpanView { start: a, end: b, color: call_color(h, line.subrange(a, b)) }
}

pub open spec fn call_spans(h: HighlighterView, line: Seq<char>, found: Seq<(usize, usize)>) -> Seq<
    SpanView,
> {
    found.map_values(|m: (usize, usize)| call_span(h, line, m))
}

/// What the rules find: the matches of each, in its color.
pub open spec fn rule_spans(
    rules: Seq<ColorRuleView>,
    line: Seq<char>,
    found: Seq<Seq<(usize, usize)>>,
) -> Seq<SpanView>
    decreases found.len(),
{
    if found.len() == 0 {
        Seq::empty()
    } else {
        rule_spans(rules, line, found.drop_last()) + plain_spans(
            line,
            found.last(),
            rules[found.len() - 1].color,
        )
    }
}

/// What was found in a line: the tags of frames, the callsigns, and the matches of
/// each rule.
#[derive(Debug)]
pub struct Found {
    pub tags: Vec<(usize, usize)>,
    pub calls: Vec<(usize, usize)>,
    pub rules: Vec<Vec<(usize, usize)>>,
}

pub open spec fn found_rules(v: Seq<Vec<(usize, usize)>>) -> Seq<Seq<(usize, usize)>> {
    v.map_values(|m: Vec<(usize, usize)>| m@)
}

/// The spans of a line: tags, then callsigns, then the rules in their order.
pub open spec fn all_spans(
    h: HighlighterView,
    line: Seq<char>,
    tags: Seq<(usize, usize)>,
    calls: Seq<(usize, usize)>,
    rules: Seq<Seq<(usize, usize)>>,
) -> Seq<SpanView> {
    if h.enabled {
        plain_spans(line, tags, h.ax25_color) + call_spans(h, line, calls) + rule_spans(
            h.rules,
            line,
            rules,
        )
    } else {
        Seq::empty()
    }
}

fn add_plain(out: &mut Vec<Span>, v: &Vec<char>, found: &Vec<(usize, usize)>, color: &str)
    ensures
        config::views(final(out)@) == config::views(old(out)@) + plain_spans(v@, found@, color@),
{
    let ghost start = config::views(out@);
    let ghost all = plain_spans(v@, found@, color@);
    let mut i: usize = 0;
    assert(start + all.take(0) =~= start);
    while i < found.len()
        invariant
            i <= found.len(),
            all == plain_spans(v@, found@, color@),
            config::views(out@) == start + all.take(i as int),
        decreases found.len() - i,
    {
        let (a, b) = found[i];
        let span = Span {
            start: count_chars(v, a),
            end: count_chars(v, b),
            color: text::owned(color),
        };
        proof {
            config::lemma_views_push(out@, span);
            assert(span@ =~= all[i as int]);
            assert((start + all.take(i as int)).push(all[i as int]) =~= start + all.take(i + 1));
        }
        out.push(span);
        i += 1;
    }
    assert(all.take(i as int) =~= all);
}

impl Highlighter {
    /// The color of a callsign.
    pub fn color_of(&self, call: &str) -> (r: String)
        ensures
            r@ == call_color(self@, call@),
    {
        let base = base_of(call);
        if let Some(own) = &self.my_call_base {
            if text::eq_str(own.as_str(), base.as_str()) {
                return self.my_call_color.clone();
            }
        }
        if text::list_contains(&self.known_bases, base.as_str()) {
            self.known_color.clone()
        } else {
            self.callsign_color.clone()
        }
    }

    /// The spans that come of what was found in a line.
    pub fn spans_of(&self, line: &str, found: &Found) -> (r: Vec<Span>)
        requires
            found.rules@.len() <= self.rules@.len(),
            forall|i: int|
                0 <= i < found.calls@.len() ==> (#[trigger] found.calls@[i]).0 <= found.calls@[i].1,
        ensures
            config::views(r@) == all_spans(
                self@,
                line@,
                found.tags@,
                found.calls@,
                found_rules(found.rules@),
            ),
    {
        let mut out: Vec<Span> = Vec::new();
        assert(config::views(out@) =~= Seq::<SpanView>::empty());
        if !self.enabled {
            return out;
        }
        let v = text::chars_of(line);
        add_plain(&mut out, &v, &found.tags, self.ax25_color.as_str());
        let ghost tags = plain_spans(line@, found.tags@, self@.ax25_color);
        assert(config::views(out@) =~= tags);
        let ghost calls = call_spans(self@, line@, found.calls@);
        let mut i: usize = 0;
        assert(tags + calls.take(0) =~= tags);
        while i < found.calls.len()
            invariant
                i <= found.calls.len(),
                v@ == line@,
                calls == call_spans(self@, line@, found.calls@),
                config::views(out@) == tags + calls.take(i as int),
                forall|i: int|
                    0 <= i < found.calls@.len() ==> (#[trigger] found.calls@[i]).0
                        <= found.calls@[i].1,
            decreases found.calls.len() - i,
        {
            let (a, b) = found.calls[i];
            let start: usize = count_chars(&v, a);
            let end: usize = count_chars(&v, b);
            proof {
                assert(found.calls@[i as int].0 <= found.calls@[i as int].1);
                lemma_char_pos(line@, a as nat, b as nat);
            }
            let call = text::substring(&v, start, end);
            let span = Span { start, end, color: self.color_of(call.as_str()) };
            proof {
                config::lemma_views_push(out@, span);
                assert(span@ =~= calls[i as int]);
                assert((tags + calls.take(i as int)).push(calls[i as int]) =~= tags + calls.take(
                    i + 1,
                ));
            }
            out.push(span);
            i += 1;
        }
        assert(calls.take(i as int) =~= calls);
        let ghost rules = found_rules(found.rules@);
        let mut k: usize = 0;
        assert((tags + calls) + rule_spans(self@.rules, line@, rules.take(0)) =~= tags + calls);
        while k < found.rules.len()
            invariant
                k <= found.rules.len(),
                found.rules@.len() <= self.rules@.len(),
                v@ == line@,
                rules == found_rules(found.rules@),
                config::views(out@) == (tags + calls) + rule_spans(
                    self@.rules,
                    line@,
                    rules.take(k as int),
                ),
            decreases found.rules.len() - k,
        {
            proof {
                assert(rules.take(k + 1).drop_last() =~= rules.take(k as int));
                assert(rules.take(k + 1).last() == found.rules@[k as int]@);
                assert(self@.rules[k as int] == self.rules@[k as int]@);
            }
            let ghost before = rule_spans(self@.rules, line@, rules.take(k as int));
            add_plain(&mut out, &v, &found.rules[k], self.rules[k].color.as_str());
            assert(config::views(out@) =~= (tags + calls) + rule_spans(
                self@.rules,
                line@,
                rules.take(k + 1),
            ));
            k += 1;
        }
        assert(rules.take(k as int) =~= rules);
        out
    }
}

/// What is found of a pattern: nothing where it does not compile.
pub open spec fn found_spans(pattern: Seq<char>, ignore_case: bool, line: Seq<char>) -> Seq<
    (usize, usize),
> {
    if patterns::regex_compiles(pattern, ignore_case) {
        patterns::regex_spans(pattern, ignore_case, line)
    } else {
        Seq::empty()
    }
}

fn search(pattern: &str, ignore_case: bool, line: &str) -> (r: Vec<(usize, usize)>)
    ensures
        r@ == found_spans(pattern@, ignore_case, line@),
        patterns::spans_fit(r@, line@),
{
    match patterns::find_spans(pattern, ignore_case, line) {
        Some(v) => v,
        None => Vec::new(),
    }
}

pub open spec fn rules_found(rules: Seq<ColorRuleView>, line: Seq<char>) -> Seq<
    Seq<(usize, usize)>,
> {
    rules.map_values(|r: ColorRuleView| found_spans(r.pattern, true, line))
}

impl Highlighter {
    /// The parts of `line` to color.
    pub fn spans(&self, line: &str) -> (r: Vec<Span>)
        ensures
            config::views(r@) == all_spans(
                self@,
                line@,
                found_spans(tag_pattern(), false, line@),
                found_spans(callsign_pattern(), false, line@),
                rules_found(self@.rules, line@),
            ),
            self.enabled && all_found_whole(
                line@,
                found_spans(tag_pattern(), false, line@),
                found_spans(callsign_pattern(), false, line@),
                rules_found(self@.rules, line@),
            ) ==> colors_exactly(
                self@,
                line@,
                found_spans(tag_pattern(), false, line@),
                found_spans(callsign_pattern(), false, line@),
                rules_found(self@.rules, line@),
                config::views(r@),
            ),
            !self.enabled ==> config::views(r@).len() == 0,
    {
        let tags = search(
            "\\[(?:[USTCDdGRHg]|UI|SABM|DISC|DM|UA|FRMR|unproto TX|I N\\(S\\)=\\d+ N\\(R\\)=\\d+|RR N\\(R\\)=\\d+|RNR N\\(R\\)=\\d+|REJ N\\(R\\)=\\d+)\\]",
            false,
            line,
        );
        let calls = search(
            "\\b[A-Za-z]{1,2}[0-9][A-Za-z]{1,4}(-[0-9]{1,2})?\\b",
            false,
            line,
        );
        let ghost all = rules_found(self@.rules, line@);
        let mut rules: Vec<Vec<(usize, usize)>> = Vec::new();
        let mut i: usize = 0;
        assert(found_rules(rules@) =~= all.take(0));
        while i < self.rules.len()
            invariant
                i <= self.rules.len(),
                rules@.len() == i,
                all == rules_found(self@.rules, line@),
                found_rules(rules@) == all.take(i as int),
            decreases self.rules.len() - i,
        {
            let m = search(self.rules[i].pattern.as_str(), true, line);
            let ghost before = rules@;
            rules.push(m);
            assert(self@.rules[i as int] == self.rules@[i as int]@);
            assert(found_rules(rules@) =~= found_rules(before).push(m@));
            assert(all.take(i + 1) =~= all.take(i as int).push(m@));
            i += 1;
        }
        assert(all.take(i as int) =~= all);
        proof {
            if self.enabled && all_found_whole(line@, tags@, calls@, all) {
                law_found_is_colored(self@, line@, tags@, calls@, all);
            }
        }
        let found = Found { tags, calls, rules };
        self.spans_of(line, &found)
    }
}

/// The spans of a line that stands at `offset` in a longer text.
pub open spec fn shifted(spans: Seq<SpanView>, offset: int) -> Seq<SpanView> {
    spans.map_values(
        |s: SpanView|
            SpanView { start: s.start + offset, end: s.end + offset, color: s.color },
    )
}

proof fn lemma_spans_within(
    h: HighlighterView,
    line: Seq<char>,
    tags: Seq<(usize, usize)>,
    calls: Seq<(usize, usize)>,
    rules: Seq<Seq<(usize, usize)>>,
)
    ensures
        forall|i: int|
            0 <= i < all_spans(h, line, tags, calls, rules).len() ==> 0 <= (
            #[trigger] all_spans(h, line, tags, calls, rules)[i]).start <= line.len() && 0
                <= all_spans(h, line, tags, calls, rules)[i].end <= line.len(),
{
    let all = all_spans(h, line, tags, calls, rules);
    if h.enabled {
        let a = plain_spans(line, tags, h.ax25_color);
        let b = call_spans(h, line, calls);
        lemma_rule_spans_within(h.rules, line, rules);
        assert forall|i: int| 0 <= i < all.len() implies 0 <= (#[trigger] all[i]).start
            <= line.len() && 0 <= all[i].end <= line.len() by {
            if i < a.len() {
                assert(all[i] == plain_span(line, tags[i], h.ax25_color));
                lemma_char_pos(line, tags[i].0 as nat, tags[i].0 as nat);
                lemma_char_pos(line, tags[i].1 as nat, tags[i].1 as nat);
            } else if i < a.len() + b.len() {
                let m = calls[i - a.len()];
                assert(all[i] == call_span(h, line, m));
                lemma_char_pos(line, m.0 as nat, m.0 as nat);
                lemma_char_pos(line, m.1 as nat, m.1 as nat);
            } else {
                assert(all[i] == rule_spans(h.rules, line, rules)[i - a.len() - b.len()]);
            }
        }
    }
}

proof fn lemma_rule_spans_within(
    rules: Seq<ColorRuleView>,
    line: Seq<char>,
    found: Seq<Seq<(usize, usize)>>,
)
    ensures
        forall|i: int|
            0 <= i < rule_spans(rules, line, found).len() ==> 0 <= (
            #[trigger] rule_spans(rules, line, found)[i]).start <= line.len() && 0 <= rule_spans(
                rules,
                line,
                found,
            )[i].end <= line.len(),
    decreases found.len(),
{
    if found.len() > 0 {
        lemma_rule_spans_within(rules, line, found.drop_last());
        let front = rule_spans(rules, line, found.drop_last());
        let all = rule_spans(rules, line, found);
        assert forall|i: int| 0 <= i < all.len() implies 0 <= (#[trigger] all[i]).start
            <= line.len() && 0 <= all[i].end <= line.len() by {
            if i < front.len() {
                assert(all[i] == front[i]);
            } else {
                let m = found.last()[i - front.len()];
                assert(all[i] == plain_span(line, m, rules[found.len() - 1].color));
                lemma_char_pos(line, m.0 as nat, m.0 as nat);
                lemma_char_pos(line, m.1 as nat, m.1 as nat);
            }
        }
    }
}

/// The parts to color of a line that stands at `line_start` in a longer text.
pub fn highlight_line(highlighter: &Highlighter, line_start: usize, line: &str) -> (r: Vec<Span>)
    requires
        line_start + line@.len() <= usize::MAX,
    ensures
        config::views(r@) == shifted(
            all_spans(
                highlighter@,
                line@,
                found_spans(tag_pattern(), false, line@),
                found_spans(callsign_pattern(), false, line@),
                rules_found(highlighter@.rules, line@),
            ),
            line_start as int,
        ),
{
    let spans = highlighter.spans(line);
    let ghost all = config::views(spans@);
    proof {
        lemma_spans_within(
            highlighter@,
            line@,
            found_spans(tag_pattern(), false, line@),
            found_spans(callsign_pattern(), false, line@),
            rules_found(highlighter@.rules, line@),
        );
    }
    let mut r: Vec<Span> = Vec::new();
    let mut i: usize = 0;
    assert(config::views(r@) =~= shifted(all, line_start as int).take(0));
    while i < spans.len()
        invariant
            i <= spans.len(),
            line_start + line@.len() <= usize::MAX,
            all == config::views(spans@),
            forall|i: int|
                0 <= i < all.len() ==> 0 <= (#[trigger] all[i]).start <= line@.len() && 0
                    <= all[i].end <= line@.len(),
            config::views(r@) == shifted(all, line_start as int).take(i as int),
        decreases spans.len() - i,
    {
        let s = &spans[i];
        assert(all[i as int] == s@);
        let t = Span {
            start: line_start + s.start,
            end: line_start + s.end,
            color: s.color.clone(),
        };
        proof {
            config::lemma_views_push(r@, t);
            let out = shifted(all, line_start as int);
            assert(out.take(i + 1) =~= out.take(i as int).push(t@));
        }
        r.push(t);
        i += 1;
    }
    assert(shifted(all, line_start as int).take(i as int) =~= shifted(all, line_start as int));
    r
}

/// Every span stands within its line, whatever is found; with highlighting off
/// there is none.
pub proof fn law_spans_within_line(
    h: HighlighterView,
    line: Seq<char>,
    tags: Seq<(usize, usize)>,
    calls: Seq<(usize, usize)>,
    rules: Seq<Seq<(usize, usize)>>,
    i: int,
)
    requires
        0 <= i < all_spans(h, line, tags, calls, rules).len(),
    ensures
        h.enabled,
        0 <= all_spans(h, line, tags, calls, rules)[i].start <= line.len(),
        0 <= all_spans(h, line, tags, calls, rules)[i].end <= line.len(),
{
    lemma_spans_within(h, line, tags, calls, rules);
}

/// One's own station takes its own color even where it stands in the address book.
pub proof fn law_own_call_first(h: HighlighterView, call: Seq<char>)
    requires
        h.my_call_base == Some(base_text(call)),
    ensures
        call_color(h, call) == h.my_call_color,
{
}

/// The byte at which the character `k` of a line begins.
pub open spec fn byte_of(line: Seq<char>, k: int) -> nat {
    encode_utf8(line.take(k)).len()
}

/// A match begins and ends with characters of the line.
pub open spec fn is_whole(line: Seq<char>, m: (usize, usize)) -> bool {
    exists|a: int, b: int|
        0 <= a <= b <= line.len() && m.0 == #[trigger] byte_of(line, a) && m.1
            == #[trigger] byte_of(line, b)
}

pub open spec fn all_whole(line: Seq<char>, found: Seq<(usize, usize)>) -> bool {
    forall|i: int| 0 <= i < found.len() ==> is_whole(line, #[trigger] found[i])
}

/// A span covers exactly the characters of a match.
pub open spec fn covers(s: SpanView, line: Seq<char>, m: (usize, usize)) -> bool {
    &&& 0 <= s.start <= s.end <= line.len()
    &&& byte_of(line, s.start) == m.0
    &&& byte_of(line, s.end) == m.1
}

/// The spans cover the matches, one each, and all have the color.
pub open spec fn cover_all(
    spans: Seq<SpanView>,
    line: Seq<char>,
    found: Seq<(usize, usize)>,
    color: Seq<char>,
) -> bool {
    &&& spans.len() == found.len()
    &&& forall|i: int|
        0 <= i < found.len() ==> covers(#[trigger] spans[i], line, found[i]) && spans[i].color
            == color
}

/// The spans of `blocks`, one block behind another.
pub open spec fn blocks_of(spans: Seq<SpanView>, blocks: Seq<Seq<SpanView>>) -> bool {
    spans == blocks.flatten()
}

/// What is colored: each tag of a frame in its color, each callsign in one's own color
/// where it is one's own station, in that of known ones where it is in the address book,
/// and else in that of callsigns, each match of a rule in the color of the rule; and
/// nothing else.
pub open spec fn colors_exactly(
    h: HighlighterView,
    line: Seq<char>,
    tags: Seq<(usize, usize)>,
    calls: Seq<(usize, usize)>,
    rules: Seq<Seq<(usize, usize)>>,
    spans: Seq<SpanView>,
) -> bool {
    let t = tags.len() as int;
    let c = calls.len() as int;
    &&& spans.len() >= t + c
    &&& cover_all(spans.take(t), line, tags, h.ax25_color)
    &&& forall|i: int|
        0 <= i < c ==> covers(#[trigger] spans[t + i], line, calls[i]) && {
            let base = base_text(line.subrange(spans[t + i].start, spans[t + i].end));
            &&& h.my_call_base == Some(base) ==> spans[t + i].color == h.my_call_color
            &&& h.my_call_base != Some(base) && h.known_bases.contains(base) ==> spans[t + i].color
                == h.known_color
            &&& h.my_call_base != Some(base) && !h.known_bases.contains(base) ==> spans[t + i].color
                == h.callsign_color
        }
    &&& exists|blocks: Seq<Seq<SpanView>>|
        {
            &&& #[trigger] blocks_of(spans.skip(t + c), blocks)
            &&& blocks.len() == rules.len()
            &&& forall|r: int|
                0 <= r < rules.len() ==> cover_all(
                    #[trigger] blocks[r],
                    line,
                    rules[r],
                    h.rules[r].color,
                )
        }
}

pub open spec fn all_found_whole(
    line: Seq<char>,
    tags: Seq<(usize, usize)>,
    calls: Seq<(usize, usize)>,
    rules: Seq<Seq<(usize, usize)>>,
) -> bool {
    &&& all_whole(line, tags)
    &&& all_whole(line, calls)
    &&& forall|r: int| 0 <= r < rules.len() ==> all_whole(line, #[trigger] rules[r])
}

/// With highlighting on, exactly what is found is colored, and in its color.
pub proof fn law_found_is_colored(
    h: HighlighterView,
    line: Seq<char>,
    tags: Seq<(usize, usize)>,
    calls: Seq<(usize, usize)>,
    rules: Seq<Seq<(usize, usize)>>,
)
    requires
        h.enabled,
        all_found_whole(line, tags, calls, rules),
    ensures
        colors_exactly(h, line, tags, calls, rules, all_spans(h, line, tags, calls, rules)),
{
    let all = all_spans(h, line, tags, calls, rules);
    let t = tags.len() as int;
    let c = calls.len() as int;
    assert(all.take(t) =~= plain_spans(line, tags, h.ax25_color));
    lemma_plain_covers(line, tags, h.ax25_color);
    assert forall|i: int| 0 <= i < c implies covers(#[trigger] all[t + i], line, calls[i]) && all[t
        + i] == call_span(h, line, calls[i]) by {
        assert(is_whole(line, calls[i]));
        lemma_whole(line, calls[i]);
    }
    let blocks = Seq::new(
        rules.len(),
        |r: int| plain_spans(line, rules[r], h.rules[r].color),
    );
    lemma_rule_blocks(h.rules, line, rules);
    assert(all.skip(t + c) =~= rule_spans(h.rules, line, rules));
    assert(blocks_of(all.skip(t + c), blocks));
    assert forall|r: int| 0 <= r < rules.len() implies cover_all(
        #[trigger] blocks[r],
        line,
        rules[r],
        h.rules[r].color,
    ) by {
        assert(all_whole(line, rules[r]));
        lemma_plain_covers(line, rules[r], h.rules[r].color);
    }
}

proof fn lemma_plain_covers(line: Seq<char>, found: Seq<(usize, usize)>, color: Seq<char>)
    requires
        all_whole(line, found),
    ensures
        cover_all(plain_spans(line, found, color), line, found, color),
{
    let spans = plain_spans(line, found, color);
    assert forall|i: int| 0 <= i < found.len() implies covers(#[trigger] spans[i], line, found[i])
        && spans[i].color == color by {
        assert(is_whole(line, found[i]));
        lemma_whole(line, found[i]);
    }
}

proof fn lemma_whole(line: Seq<char>, m: (usize, usize))
    requires
        is_whole(line, m),
    ensures
        0 <= char_pos(line, m.0 as nat) <= char_pos(line, m.1 as nat) <= line.len(),
        byte_of(line, char_pos(line, m.0 as nat)) == m.0,
        byte_of(line, char_pos(line, m.1 as nat)) == m.1,
{
    let (a, b) = choose|a: int, b: int|
        0 <= a <= b <= line.len() && m.0 == #[trigger] byte_of(line, a) && m.1
            == #[trigger] byte_of(line, b);
    lemma_char_of_byte(line, a);
    lemma_char_of_byte(line, b);
}

proof fn lemma_char_of_byte(line: Seq<char>, k: int)
    requires
        0 <= k <= line.len(),
    ensures
        char_pos(line, byte_of(line, k)) == k,
    decreases k,
{
    let front = line.take(k);
    if k > 0 {
        let rest = line.skip(1);
        lemma_char_of_byte(rest, k - 1);
        assert(front.drop_first() =~= rest.take(k - 1));
        assert(front[0] == line[0]);
        char_is_scalar(line[0]);
        assert(encode_scalar(line[0] as u32).len() == char_width(line[0]));
    }
}

proof fn lemma_rule_blocks(
    rules: Seq<ColorRuleView>,
    line: Seq<char>,
    found: Seq<Seq<(usize, usize)>>,
)
    ensures
        rule_spans(rules, line, found) == Seq::new(
            found.len(),
            |r: int| plain_spans(line, found[r], rules[r].color),
        ).flatten(),
    decreases found.len(),
{
    let blocks = Seq::new(found.len(), |r: int| plain_spans(line, found[r], rules[r].color));
    if found.len() == 0 {
        assert(blocks =~= Seq::<Seq<SpanView>>::empty());
        assert(blocks.flatten() =~= Seq::<SpanView>::empty());
    } else {
        let less = found.drop_last();
        lemma_rule_blocks(rules, line, less);
        let front = Seq::new(less.len(), |r: int| plain_spans(line, less[r], rules[r].color));
        let last = plain_spans(line, found.last(), rules[found.len() - 1].color);
        assert(blocks =~= front.push(last));
        front.lemma_flatten_push(last);
    }
}

/// Which rules color anything: each enabled one whose expression can be used, in their
/// order and in its color; a rule of plain words looks for those words.
pub proof fn law_rules_ready(rules: Seq<HighlightRule>, i: int)
    requires
        0 <= i < rules.len(),
    ensures
        !rules[i].enabled ==> ready_rules(rules) == ready_rules(rules.remove(i)),
        rules[i].enabled && rules[i].regex && patterns::regex_compiles(rules[i].pattern@, true)
            ==> ready_rules(rules).contains(
            ColorRuleView { pattern: rules[i].pattern@, color: rules[i].color@ },
        ),
    decreases rules.len(),
{
    let less = rules.drop_last();
    let n = rules.len() - 1;
    if i == n {
        assert(rules.remove(i) =~= less);
        if ready_rule(rules[i]) is Some {
            let r = ready_rule(rules[i])->0;
            assert(ready_rules(rules)[ready_rules(less).len() as int] == r);
        }
    } else {
        law_rules_ready(less, i);
        assert(less[i] == rules[i]);
        assert(rules.remove(i).drop_last() =~= less.remove(i));
        assert(rules.remove(i).last() == rules.last());
        let r = ColorRuleView { pattern: rules[i].pattern@, color: rules[i].color@ };
        if ready_rules(less).contains(r) {
            let k = choose|k: int| 0 <= k < ready_rules(less).len() && ready_rules(less)[k] == r;
            assert(ready_rules(rules)[k] == r);
        }
    }
}

/// A callsign takes the color of the station's own where it is its own, whatever the
/// SSIDs, else that of known stations where the address book holds it under some SSID,
/// else that of the others.
pub proof fn law_station_colors(
    h: HighlighterView,
    book: Seq<config::EntryView>,
    own: Seq<char>,
    call: Seq<char>,
)
    requires
        h.known_bases == book_bases(book),
        text::trimmed(own).len() > 0,
        h.my_call_base == notify::own_base(Some(own)),
    ensures
        ({
            let ours = text::upper_text(qrz::base_call(call)) == text::upper_text(
                qrz::base_call(text::trimmed(own)),
            );
            let known = exists|i: int|
                0 <= i < book.len() && text::upper_text(
                    qrz::base_call((#[trigger] book[i]).callsign),
                ) == text::upper_text(qrz::base_call(call));
            &&& ours ==> call_color(h, call) == h.my_call_color
            &&& !ours && known ==> call_color(h, call) == h.known_color
            &&& !ours && !known ==> call_color(h, call) == h.callsign_color
        }),
{
    let base = base_text(call);
    if h.known_bases.contains(base) {
        let i = h.known_bases.index_of(base);
        assert(book_bases(book)[i] == base_text(book[i].callsign));
    }
    if exists|i: int|
        0 <= i < book.len() && text::upper_text(qrz::base_call((#[trigger] book[i]).callsign))
            == base {
        let i = choose|i: int|
            0 <= i < book.len() && text::upper_text(qrz::base_call((#[trigger] book[i]).callsign))
                == base;
        assert(book_bases(book)[i] == base);
    }
}

} // verus!
