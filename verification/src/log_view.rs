//! The log of port and connection events.

use vstd::prelude::*;

use crate::text;

verus! {

/// The newest lines, each with the time at which it came.
#[derive(Debug)]
pub struct LogView {
    pub lines: Vec<String>,
}

/// The log after a line came: the oldest line gives way where there are `max`.
pub open spec fn after_line(lines: Seq<Seq<char>>, time: Seq<char>, line: Seq<char>, max: nat) -> Seq<
    Seq<char>,
> {
    (if lines.len() >= max && lines.len() > 0 {
        lines.skip(1)
    } else {
        lines
    }).push(time + " "@ + text::without(line, '\0'))
}

impl LogView {
    pub fn new() -> (r: Self)
        ensures
            r.lines@.len() == 0,
    {
        LogView { lines: Vec::new() }
    }

    pub fn append_line(&mut self, line: &str, time: &str, max_lines: u32)
        ensures
            text::texts(final(self).lines@) == after_line(
                text::texts(old(self).lines@),
                time@,
                line@,
                max_lines as nat,
            ),
    {
        let ghost before = text::texts(self.lines@);
        assert(before.len() == self.lines@.len());
        let mut t = text::owned(time);
        t.append(" ");
        t.append(text::remove_char(line, '\0').as_str());
        if self.lines.len() > 0 && self.lines.len() as u64 >= max_lines as u64 {
            self.lines.remove(0);
            assert(text::texts(self.lines@) =~= before.skip(1));
        }
        text::add_text(&mut self.lines, t);
    }
}

/// A log that holds at most `max` lines never holds more.
pub proof fn law_log_bounded(lines: Seq<Seq<char>>, time: Seq<char>, line: Seq<char>, max: nat)
    requires
        lines.len() <= max,
        max > 0,
    ensures
        after_line(lines, time, line, max).len() <= max,
        after_line(lines, time, line, max).last() == time + " "@ + text::without(line, '\0'),
{
}

/// A line joins the log behind the others, after its time. Only the oldest line goes,
/// and only where the log is full.
pub proof fn law_log_in_order(lines: Seq<Seq<char>>, time: Seq<char>, line: Seq<char>, max: nat)
    requires
        max > 0,
        !line.contains('\0'),
    ensures
        after_line(lines, time, line, max).last() == time + " "@ + line,
        lines.len() < max ==> after_line(lines, time, line, max).drop_last() == lines,
        lines.len() >= max ==> after_line(lines, time, line, max).drop_last() == lines.skip(1),
{
    text::lemma_without_none(line, '\0');
    assert(after_line(lines, time, line, max).drop_last() =~= (if lines.len() >= max {
        lines.skip(1)
    } else {
        lines
    }));
}

} // verus!
