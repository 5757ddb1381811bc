//! The live traffic view without its widgets: the lines it keeps, and which of
//! them are shown.

use vstd::prelude::*;

use crate::config;
use crate::patterns;
use crate::text;

verus! {

/// A line as it was shown when it came, and its content alone.
#[derive(Debug)]
pub struct StoredLine {
    pub port_id: String,
    pub prefixed: String,
    pub content: String,
}

#[verifier::ext_equal]
pub struct LineView {
    pub port_id: Seq<char>,
    pub prefixed: Seq<char>,
    pub content: Seq<char>,
}

impl View for StoredLine {
    type V = LineView;

    open spec fn view(&self) -> LineView {
        LineView {
            port_id: self.port_id@,
            prefixed: self.prefixed@,
            content: self.content@,
        }
    }
}

impl Clone for StoredLine {
    fn clone(&self) -> (r: Self)
        ensures
            r == *self,
    {
        StoredLine {
            port_id: self.port_id.clone(),
            prefixed: self.prefixed.clone(),
            content: self.content.clone(),
        }
    }
}

/// The text filter: in lower case, and as a regular expression where it is one.
#[derive(Debug)]
pub struct FilterState {
    pub raw: String,
    pub pattern: Option<String>,
}

#[derive(Debug)]
pub struct MonitorView {
    pub lines: Vec<StoredLine>,
    pub filter: FilterState,
    /// Ports whose lines are not shown.
    pub disabled_ports: Vec<String>,
    pub show_timestamps: bool,
}

#[verifier::ext_equal]
pub struct MonitorState {
    pub lines: Seq<LineView>,
    pub raw: Seq<char>,
    pub pattern: Option<Seq<char>>,
    pub disabled: Seq<Seq<char>>,
    pub show_timestamps: bool,
}

impl View for MonitorView {
    type V = MonitorState;

    open spec fn view(&self) -> MonitorState {
        MonitorState {
            lines: config::views(self.lines@),
            raw: self.filter.raw@,
            pattern: text::opt_view(self.filter.pattern),
            disabled: text::texts(self.disabled_ports@),
            show_timestamps: self.show_timestamps,
        }
    }
}

/// A line is shown: its port is, and it matches the filter. `verdict` is what the
/// filter says as a regular expression; as plain text it is looked for in any case.
pub open spec fn shows(
    s: MonitorState,
    verdict: Option<bool>,
    port_id: Seq<char>,
    prefixed: Seq<char>,
) -> bool {
    if s.disabled.contains(port_id) {
        false
    } else if s.raw.len() == 0 {
        true
    } else {
        match verdict {
            Some(b) => b,
            None => text::contains_text(text::lower_text(prefixed), s.raw),
        }
    }
}

/// What the filter says of a line as a regular expression.
pub open spec fn regex_verdict(s: MonitorState, prefixed: Seq<char>) -> Option<bool> {
    match s.pattern {
        Some(p) => if patterns::regex_compiles(p, true) {
            Some(patterns::regex_matches(p, true, prefixed))
        } else {
            None
        },
        None => None,
    }
}

pub open spec fn is_shown(s: MonitorState, line: LineView) -> bool {
    shows(s, regex_verdict(s, line.prefixed), line.port_id, line.prefixed)
}

/// The lines that are shown.
pub open spec fn shown_lines(s: MonitorState, lines: Seq<LineView>) -> Seq<LineView>
    decreases lines.len(),
{
    if lines.len() == 0 {
        lines
    } else if is_shown(s, lines.last()) {
        shown_lines(s, lines.drop_last()).push(lines.last())
    } else {
        shown_lines(s, lines.drop_last())
    }
}

/// A line as it is stored: without zero characters, after the time where times are
/// shown.
pub open spec fn stored(s: MonitorState, port_id: Seq<char>, line: Seq<char>, time: Seq<char>) -> LineView {
    let content = text::without(line, '\0');
    LineView {
        port_id,
        prefixed: if s.show_timestamps {
            time + " "@ + content
        } else {
            content
        },
        content,
    }
}

/// The last `max` lines.
pub open spec fn newest(lines: Seq<LineView>, max: nat) -> Seq<LineView> {
    if lines.len() > max {
        lines.skip(lines.len() - max)
    } else {
        lines
    }
}

/// A list without `s`.
pub open spec fn without_item(list: Seq<Seq<char>>, s: Seq<char>) -> Seq<Seq<char>>
    decreases list.len(),
{
    if list.len() == 0 {
        list
    } else if list.last() == s {
        without_item(list.drop_last(), s)
    } else {
        without_item(list.drop_last(), s).push(list.last())
    }
}

/// The hidden ports after one is shown or hidden.
pub open spec fn after_toggle(disabled: Seq<Seq<char>>, port_id: Seq<char>, shown: bool) -> Seq<
    Seq<char>,
> {
    if shown {
        without_item(disabled, port_id)
    } else if disabled.contains(port_id) {
        disabled
    } else {
        disabled.push(port_id)
    }
}

pub open spec fn after_toggles(disabled: Seq<Seq<char>>, ports: Seq<Seq<char>>, shown: bool) -> Seq<
    Seq<char>,
>
    decreases ports.len(),
{
    if ports.len() == 0 {
        disabled
    } else {
        after_toggle(after_toggles(disabled, ports.drop_last(), shown), ports.last(), shown)
    }
}

fn remove_item(list: &Vec<String>, s: &str) -> (r: Vec<String>)
    ensures
        text::texts(r@) == without_item(text::texts(list@), s@),
{
    let ghost all = text::texts(list@);
    let mut r = text::no_texts();
    let mut i: usize = 0;
    assert(text::texts(r@) =~= without_item(all.take(0), s@));
    while i < list.len()
        invariant
            i <= list.len(),
            all == text::texts(list@),
            text::texts(r@) == without_item(all.take(i as int), s@),
        decreases list.len() - i,
    {
        assert(all.take(i + 1).drop_last() =~= all.take(i as int));
        assert(all.take(i + 1).last() == list@[i as int]@);
        if !text::eq_str(list[i].as_str(), s) {
            text::add_text(&mut r, list[i].clone());
        }
        i += 1;
    }
    assert(all.take(i as int) =~= all);
    r
}

impl MonitorView {
    pub fn new() -> (r: Self)
        ensures
            r@ == (MonitorState {
                lines: Seq::empty(),
                raw: Seq::empty(),
                pattern: None,
                disabled: Seq::empty(),
                show_timestamps: true,
            }),
    {
        let r = MonitorView {
            lines: Vec::new(),
            filter: FilterState { raw: String::new(), pattern: None },
            disabled_ports: Vec::new(),
            show_timestamps: true,
        };
        assert(r@ =~= MonitorState {
            lines: Seq::empty(),
            raw: Seq::empty(),
            pattern: None,
            disabled: Seq::empty(),
            show_timestamps: true,
        });
        r
    }

    pub fn set_show_timestamps(&mut self, show: bool)
        ensures
            final(self)@ == (MonitorState { show_timestamps: show, ..old(self)@ }),
    {
        self.show_timestamps = show;
    }

    /// Sets the filter. Text that is no regular expression, such as one half typed,
    /// is looked for as it is.
    pub fn set_filter(&mut self, filter: &str)
        ensures
            final(self)@ == (MonitorState {
                raw: text::lower_text(filter@),
                pattern: if filter@.len() > 0 && patterns::regex_compiles(filter@, true) {
                    Some(filter@)
                } else {
                    None
                },
                ..old(self)@
            }),
    {
        let pattern = if !filter.is_empty() && patterns::compiles(filter, true) {
            Some(text::owned(filter))
        } else {
            None
        };
        self.filter = FilterState { raw: text::to_lowercase(filter), pattern };
    }

    /// Shows or hides the lines of a port.
    pub fn set_port_shown(&mut self, port_id: &str, shown: bool)
        ensures
            final(self)@ == (MonitorState {
                disabled: after_toggle(old(self)@.disabled, port_id@, shown),
                ..old(self)@
            }),
    {
        if shown {
            self.disabled_ports = remove_item(&self.disabled_ports, port_id);
        } else if !text::list_contains(&self.disabled_ports, port_id) {
            text::add_text(&mut self.disabled_ports, text::owned(port_id));
        }
    }

    /// Shows or hides the lines of all `ports`.
    pub fn set_all_shown(&mut self, ports: &Vec<String>, shown: bool)
        ensures
            final(self)@ == (MonitorState {
                disabled: after_toggles(old(self)@.disabled, text::texts(ports@), shown),
                ..old(self)@
            }),
    {
        let ghost all = text::texts(ports@);
        let ghost start = self@;
        let mut i: usize = 0;
        assert(all.take(0) =~= Seq::<Seq<char>>::empty());
        while i < ports.len()
            invariant
                i <= ports.len(),
                all == text::texts(ports@),
                self@ == (MonitorState {
                    disabled: after_toggles(start.disabled, all.take(i as int), shown),
                    ..start
                }),
            decreases ports.len() - i,
        {
            assert(all.take(i + 1).drop_last() =~= all.take(i as int));
            assert(all.take(i + 1).last() == ports@[i as int]@);
            self.set_port_shown(ports[i].as_str(), shown);
            i += 1;
        }
        assert(all.take(i as int) =~= all);
    }

    /// Whether every port is shown.
    pub fn all_shown(&self) -> (r: bool)
        ensures
            r == (self@.disabled.len() == 0),
    {
        self.disabled_ports.len() == 0
    }

    /// Whether a line is shown, given what the filter says as a regular expression.
    pub fn shows_line(&self, verdict: Option<bool>, port_id: &str, prefixed: &str) -> (r: bool)
        ensures
            r == shows(self@, verdict, port_id@, prefixed@),
    {
        if text::list_contains(&self.disabled_ports, port_id) {
            return false;
        }
        if self.filter.raw.as_str().is_empty() {
            return true;
        }
        match verdict {
            Some(b) => b,
            None => {
                let lower = text::to_lowercase(prefixed);
                text::contains(lower.as_str(), self.filter.raw.as_str())
            },
        }
    }

    /// Whether a line is shown.
    pub fn matches_filter(&self, port_id: &str, prefixed: &str) -> (r: bool)
        ensures
            r == shows(self@, regex_verdict(self@, prefixed@), port_id@, prefixed@),
    {
        let verdict = match &self.filter.pattern {
            Some(p) => patterns::is_match(p.as_str(), true, prefixed),
            None => None,
        };
        self.shows_line(verdict, port_id, prefixed)
    }

    /// Takes a line of a port. The oldest lines give way to keep `max_lines`. Gives
    /// the line as it was stored, and whether it is shown.
    pub fn append_line(&mut self, port_id: &str, line: &str, time: &str, max_lines: u32) -> (r: (
        StoredLine,
        bool,
    ))
        ensures
            r.0@ == stored(old(self)@, port_id@, line@, time@),
            r.1 == is_shown(old(self)@, r.0@),
            final(self)@ == (MonitorState {
                lines: newest(old(self)@.lines.push(r.0@), max_lines as nat),
                ..old(self)@
            }),
    {
        let content = text::remove_char(line, '\0');
        let prefixed = if self.show_timestamps {
            let mut p = text::owned(time);
            p.append(" ");
            p.append(content.as_str());
            p
        } else {
            content.clone()
        };
        let shown = self.matches_filter(port_id, prefixed.as_str());
        let stored_line = StoredLine { port_id: text::owned(port_id), prefixed, content };
        let copy = stored_line.clone();
        let ghost before = self@.lines;
        let ghost kept = self.lines@;
        self.lines.push(stored_line);
        proof {
            config::lemma_views_push(kept, stored_line);
        }
        let max: u64 = max_lines as u64;
        let ghost full = self.lines@;
        let len: usize = self.lines.len();
        if len as u64 > max {
            let excess: usize = len - max_lines as usize;
            let mut rest: Vec<StoredLine> = Vec::new();
            let mut i: usize = excess;
            assert(config::views(rest@) =~= config::views(full).subrange(
                excess as int,
                excess as int,
            ));
            while i < self.lines.len()
                invariant
                    excess <= i <= self.lines.len(),
                    self.lines@ == full,
                    self.filter == old(self).filter,
                    self.disabled_ports == old(self).disabled_ports,
                    self.show_timestamps == old(self).show_timestamps,
                    config::views(rest@) == config::views(full).subrange(excess as int, i as int),
                decreases self.lines.len() - i,
            {
                proof {
                    config::lemma_views_push(rest@, self.lines@[i as int]);
                    assert(config::views(full).subrange(excess as int, i + 1) =~= config::views(
                        full,
                    ).subrange(excess as int, i as int).push(self.lines@[i as int]@));
                }
                rest.push(self.lines[i].clone());
                i += 1;
            }
            assert(config::views(rest@) =~= config::views(full).skip(excess as int));
            self.lines = rest;
        }
        assert(self@.lines =~= newest(before.push(copy@), max_lines as nat));
        (copy, shown)
    }

    /// The lines that are shown now.
    pub fn visible(&self) -> (r: Vec<StoredLine>)
        ensures
            config::views(r@) == shown_lines(self@, self@.lines),
    {
        let ghost all = self@.lines;
        let mut r: Vec<StoredLine> = Vec::new();
        let mut i: usize = 0;
        assert(config::views(r@) =~= shown_lines(self@, all.take(0)));
        while i < self.lines.len()
            invariant
                i <= self.lines.len(),
                all == self@.lines,
                config::views(r@) == shown_lines(self@, all.take(i as int)),
            decreases self.lines.len() - i,
        {
            let line = &self.lines[i];
            proof {
                assert(all.take(i + 1).drop_last() =~= all.take(i as int));
                assert(all.take(i + 1).last() == line@);
                config::lemma_views_push(r@, *line);
            }
            if self.matches_filter(line.port_id.as_str(), line.prefixed.as_str()) {
                r.push(line.clone());
            }
            i += 1;
        }
        assert(all.take(i as int) =~= all);
        r
    }
}

/// How far the content of a line stands behind its start: it is what is colored.
pub fn content_offset(line: &StoredLine) -> (r: usize)
    requires
        line.prefixed@.len() >= line.content@.len(),
    ensures
        r == line.prefixed@.len() - line.content@.len(),
{
    let p = text::chars_of(line.prefixed.as_str());
    let c = text::chars_of(line.content.as_str());
    p.len() - c.len()
}

// ---------------------------------------------------------------------------
// Laws
// ---------------------------------------------------------------------------

/// The view never keeps more lines than it may, and what it keeps are the newest.
pub proof fn law_bounded(lines: Seq<LineView>, line: LineView, max: nat)
    requires
        lines.len() <= max,
        max > 0,
    ensures
        newest(lines.push(line), max).len() <= max,
        newest(lines.push(line), max).last() == line,
{
}

/// A hidden port shows nothing, whatever the filter; with no filter every line of
/// the other ports is shown.
pub proof fn law_hidden_port(s: MonitorState, verdict: Option<bool>, port: Seq<char>, p: Seq<char>)
    ensures
        s.disabled.contains(port) ==> !shows(s, verdict, port, p),
        !s.disabled.contains(port) && s.raw.len() == 0 ==> shows(s, verdict, port, p),
{
}

/// A stored line never holds a zero character, and its content stands at its end.
pub proof fn law_stored_line(s: MonitorState, port: Seq<char>, line: Seq<char>, time: Seq<char>)
    ensures
        !stored(s, port, line, time).content.contains('\0'),
        ({
            let l = stored(s, port, line, time);
            l.prefixed.len() >= l.content.len() && l.prefixed.skip(
                l.prefixed.len() - l.content.len(),
            ) == l.content
        }),
{
    lemma_without(line, '\0');
    let l = stored(s, port, line, time);
    assert(l.prefixed.skip(l.prefixed.len() - l.content.len()) =~= l.content);
}

proof fn lemma_without(s: Seq<char>, c: char)
    ensures
        !text::without(s, c).contains(c),
    decreases s.len(),
{
    if s.len() > 0 {
        lemma_without(s.drop_last(), c);
        let front = text::without(s.drop_last(), c);
        let all = text::without(s, c);
        if all.contains(c) {
            let i = all.index_of(c);
            if i < front.len() {
                assert(front[i] == c);
                assert(front.contains(c));
            }
        }
    }
}

proof fn lemma_shown_is_filter(s: MonitorState, lines: Seq<LineView>)
    ensures
        shown_lines(s, lines) == lines.filter(|l: LineView| is_shown(s, l)),
    decreases lines.len(),
{
    reveal(Seq::filter);
    if lines.len() > 0 {
        lemma_shown_is_filter(s, lines.drop_last());
    }
}

/// What is shown are the stored lines that their port and the filter let through, each
/// of them and in their order. A text filter that is no expression looks for its text
/// in any case.
pub proof fn law_shown_lines(s: MonitorState)
    ensures
        shown_lines(s, s.lines) == s.lines.filter(|l: LineView| is_shown(s, l)),
        forall|l: LineView|
            s.pattern is None ==> (#[trigger] is_shown(s, l) <==> !s.disabled.contains(l.port_id)
                && (s.raw.len() == 0 || text::contains_text(
                text::lower_text(l.prefixed),
                s.raw,
            ))),
        forall|l: LineView|
            s.raw.len() > 0 && s.pattern is Some && patterns::regex_compiles(s.pattern->0, true)
                ==> (#[trigger] is_shown(s, l) <==> !s.disabled.contains(l.port_id)
                && patterns::regex_matches(s.pattern->0, true, l.prefixed)),
{
    lemma_shown_is_filter(s, s.lines);
}

proof fn lemma_without_item(list: Seq<Seq<char>>, s: Seq<char>, x: Seq<char>)
    ensures
        without_item(list, s).contains(x) <==> list.contains(x) && x != s,
    decreases list.len(),
{
    if list.len() > 0 {
        let front = list.drop_last();
        lemma_without_item(front, s, x);
        assert(list =~= front.push(list.last()));
        lemma_pushed(front, list.last(), x);
        lemma_pushed(without_item(front, s), list.last(), x);
    }
}

proof fn lemma_pushed(list: Seq<Seq<char>>, y: Seq<char>, x: Seq<char>)
    ensures
        list.push(y).contains(x) <==> list.contains(x) || x == y,
{
    let all = list.push(y);
    if list.contains(x) {
        assert(all[list.index_of(x)] == x);
    }
    if x == y {
        assert(all[list.len() as int] == x);
    }
    if all.contains(x) && x != y {
        assert(list[all.index_of(x)] == x);
    }
}

/// A port is hidden after it was hidden and not after it was shown again; the other
/// ports stay as they were.
pub proof fn law_port_toggled(disabled: Seq<Seq<char>>, port_id: Seq<char>, shown: bool, other: Seq<char>)
    requires
        other != port_id,
    ensures
        after_toggle(disabled, port_id, shown).contains(port_id) == !shown,
        after_toggle(disabled, port_id, shown).contains(other) == disabled.contains(other),
{
    lemma_without_item(disabled, port_id, port_id);
    lemma_without_item(disabled, port_id, other);
    lemma_pushed(disabled, port_id, port_id);
    lemma_pushed(disabled, port_id, other);
}

/// A view keeps the newest lines in the order in which they came.
pub proof fn law_newest_kept(lines: Seq<LineView>, max: nat)
    ensures
        newest(lines, max).len() == (if lines.len() <= max {
            lines.len()
        } else {
            max
        }),
        forall|i: int|
            0 <= i < newest(lines, max).len() ==> #[trigger] newest(lines, max)[i]
                == lines[lines.len() - newest(lines, max).len() + i],
{
}

/// A line is stored under its port, with its text; the time stands before it exactly
/// where times are shown.
pub proof fn law_line_as_stored(s: MonitorState, port: Seq<char>, line: Seq<char>, time: Seq<char>)
    requires
        !line.contains('\0'),
    ensures
        stored(s, port, line, time).port_id == port,
        stored(s, port, line, time).content == line,
        s.show_timestamps ==> stored(s, port, line, time).prefixed == time + " "@ + line,
        !s.show_timestamps ==> stored(s, port, line, time).prefixed == line,
{
    text::lemma_without_none(line, '\0');
}

/// Showing or hiding several ports does so with each of them and with no other.
pub proof fn law_ports_toggled(
    disabled: Seq<Seq<char>>,
    ports: Seq<Seq<char>>,
    shown: bool,
    id: Seq<char>,
)
    ensures
        ports.contains(id) ==> after_toggles(disabled, ports, shown).contains(id) == !shown,
        !ports.contains(id) ==> after_toggles(disabled, ports, shown).contains(id)
            == disabled.contains(id),
    decreases ports.len(),
{
    if ports.len() > 0 {
        let front = ports.drop_last();
        law_ports_toggled(disabled, front, shown, id);
        assert(ports =~= front.push(ports.last()));
        lemma_pushed(front, ports.last(), id);
        let before = after_toggles(disabled, front, shown);
        if id == ports.last() {
            assert(id.push('x').len() != id.len());
            law_port_toggled(before, id, shown, id.push('x'));
        } else {
            law_port_toggled(before, ports.last(), shown, id);
        }
    }
}

} // verus!
