//! How texts with several parts are read: paths, lists and lines.

use vstd::prelude::*;

use crate::highlight;
use crate::identifiers;
use crate::session_tab;
use crate::text;

verus! {

/// A word: something, without white space.
pub open spec fn is_word(w: Seq<char>) -> bool {
    &&& w.len() > 0
    &&& forall|i: int| 0 <= i < w.len() ==> !text::is_space(#[trigger] w[i])
}

proof fn lemma_word_at(w: Seq<char>, s: Seq<char>)
    requires
        forall|i: int| 0 <= i < w.len() ==> !text::is_space(#[trigger] w[i]),
        s.len() == 0 || text::is_space(s[0]),
    ensures
        text::word_len(w + s) == w.len(),
    decreases w.len(),
{
    if w.len() == 0 {
        assert(w + s =~= s);
    } else {
        assert((w + s).skip(1) =~= w.skip(1) + s);
        assert forall|i: int| 0 <= i < w.skip(1).len() implies !text::is_space(
            #[trigger] w.skip(1)[i],
        ) by {
            assert(w.skip(1)[i] == w[i + 1]);
        }
        lemma_word_at(w.skip(1), s);
    }
}

/// Text is read word by word, whatever white space stands between the words.
pub proof fn law_words(w: Seq<char>, c: char, rest: Seq<char>)
    requires
        text::is_space(c),
    ensures
        text::words_of(seq![c] + rest) == text::words_of(rest),
        is_word(w) ==> text::words_of(w + seq![c] + rest) == seq![w] + text::words_of(rest),
        is_word(w) ==> text::words_of(w) == seq![w],
        text::words_of(Seq::empty()) == Seq::<Seq<char>>::empty(),
{
    let s = seq![c] + rest;
    assert(s.drop_first() =~= rest);
    assert(text::trim_start_spec(s) == text::trim_start_spec(rest));
    if is_word(w) {
        let whole = w + s;
        assert(w + seq![c] + rest =~= whole);
        assert(whole[0] == w[0]);
        assert(!text::is_space(w[0]));
        assert(text::trim_start_spec(whole) == whole);
        lemma_word_at(w, s);
        assert(whole.take(w.len() as int) =~= w);
        assert(whole.skip(w.len() as int) =~= s);
        assert(text::words_of(s) == text::words_of(rest));
        assert(text::words_of(whole) == seq![w] + text::words_of(s));
        lemma_word_at(w, Seq::empty());
        assert(w + Seq::<char>::empty() =~= w);
        assert(text::trim_start_spec(w) == w);
        assert(w.take(w.len() as int) =~= w);
        assert(w.skip(w.len() as int) =~= Seq::<char>::empty());
        assert(text::words_of(Seq::empty()) =~= Seq::<Seq<char>>::empty());
        assert(seq![w] + Seq::<Seq<char>>::empty() =~= seq![w]);
    }
}

/// A path is read hop by hop: each name between commas or white space is a hop, in
/// upper case and in its place.
pub proof fn law_path_hops(w: Seq<char>, c: char, rest: Seq<char>)
    requires
        c == ',' || text::is_space(c),
    ensures
        is_word(w) && !w.contains(',') ==> session_tab::path_of(w + seq![c] + rest) == seq![
            text::upper_text(w),
        ] + session_tab::path_of(rest),
        is_word(w) && !w.contains(',') ==> session_tab::path_of(w) == seq![text::upper_text(w)],
        session_tab::path_of(seq![c] + rest) == session_tab::path_of(rest),
        session_tab::path_of(Seq::empty()) == Seq::<Seq<char>>::empty(),
{
    let space = if c == ',' {
        ' '
    } else {
        c
    };
    let tail = text::unified(rest, ' ', ',');
    law_words(w, space, tail);
    assert(text::unified(seq![c] + rest, ' ', ',') =~= seq![space] + tail);
    assert(text::unified(Seq::<char>::empty(), ' ', ',') =~= Seq::<char>::empty());
    assert(session_tab::path_of(Seq::empty()) =~= Seq::<Seq<char>>::empty());
    if is_word(w) && !w.contains(',') {
        assert forall|i: int| 0 <= i < w.len() implies w[i] != ',' by {
            assert(w.contains(w[i]));
        }
        assert(text::unified(w, ' ', ',') =~= w);
        assert(text::unified(w + seq![c] + rest, ' ', ',') =~= w + seq![space] + tail);
        assert(session_tab::path_of(w + seq![c] + rest) =~= seq![text::upper_text(w)]
            + session_tab::path_of(rest));
        assert(session_tab::path_of(w) =~= seq![text::upper_text(w)]);
    }
}

proof fn lemma_filled_first(p: Seq<char>, parts: Seq<Seq<char>>)
    ensures
        text::filled(seq![p] + parts) == text::filled(seq![p]) + text::filled(parts),
    decreases parts.len(),
{
    let all = seq![p] + parts;
    if parts.len() == 0 {
        assert(all =~= seq![p]);
        assert(text::filled(seq![p]) + text::filled(parts) =~= text::filled(seq![p]));
    } else {
        assert(all.drop_last() =~= seq![p] + parts.drop_last());
        assert(all.last() == parts.last());
        lemma_filled_first(p, parts.drop_last());
        assert(text::filled(all) =~= text::filled(seq![p]) + text::filled(parts));
    }
}

proof fn lemma_filled_one(p: Seq<char>)
    ensures
        text::filled(seq![p]) == (if text::trimmed(p).len() == 0 {
            Seq::empty()
        } else {
            seq![text::trimmed(p)]
        }),
{
    assert(seq![p].drop_last() =~= Seq::<Seq<char>>::empty());
    assert(text::filled(seq![p].drop_last()) =~= Seq::<Seq<char>>::empty());
    assert(Seq::<Seq<char>>::empty().push(text::trimmed(p)) =~= seq![text::trimmed(p)]);
}

/// A list is read item by item: what stands before a separator is the first item,
/// without white space around it, and is passed over where nothing is left.
pub proof fn law_list_items(p: Seq<char>, x: char, rest: Seq<char>, c: char, d: char)
    requires
        x == c || x == d,
        !p.contains(c),
        !p.contains(d),
    ensures
        text::trimmed(p).len() > 0 ==> text::items_of(p + seq![x] + rest, c, d) == seq![
            text::trimmed(p),
        ] + text::items_of(rest, c, d),
        text::trimmed(p).len() > 0 ==> text::items_of(p, c, d) == seq![text::trimmed(p)],
        text::trimmed(p).len() == 0 ==> text::items_of(p + seq![x] + rest, c, d)
            == text::items_of(rest, c, d),
        text::trimmed(p).len() == 0 ==> text::items_of(p, c, d).len() == 0,
{
    assert forall|i: int| 0 <= i < p.len() implies p[i] != c && p[i] != d by {
        assert(p.contains(p[i]));
    }
    let tail = text::unified(rest, c, d);
    assert(text::unified(p, c, d) =~= p);
    let whole = p + seq![c] + tail;
    assert(text::unified(p + seq![x] + rest, c, d) =~= whole);
    assert forall|j: int| 0 <= j < p.len() implies whole[j] != c by {
        assert(whole[j] == p[j]);
    }
    text::lemma_char_index_unique(whole, c, p.len() as int);
    assert(whole.take(p.len() as int) =~= p);
    assert(whole.skip(p.len() as int + 1) =~= tail);
    text::lemma_char_index(p, c);
    assert(text::char_index(p, c) >= p.len()) by {
        if text::char_index(p, c) < p.len() {
            assert(p[text::char_index(p, c)] == c);
        }
    }
    lemma_filled_first(p, text::pieces(tail, c));
    lemma_filled_one(p);
    assert(text::pieces(whole, c) == seq![p] + text::pieces(tail, c));
    assert(text::pieces(p, c) == seq![p]);
    assert(Seq::<Seq<char>>::empty() + text::filled(text::pieces(tail, c)) =~= text::filled(
        text::pieces(tail, c),
    ));
}

/// A line does not end within `l`, and `l` itself ends in no line end.
pub open spec fn is_line(l: Seq<char>) -> bool {
    !l.contains('\n') && (l.len() > 0 ==> l.last() != '\r')
}

proof fn lemma_line_index(l: Seq<char>, rest: Seq<char>)
    requires
        !l.contains('\n'),
    ensures
        text::char_index(l + seq!['\n'] + rest, '\n') == l.len(),
        text::char_index(l, '\n') >= l.len(),
{
    let s = l + seq!['\n'] + rest;
    assert forall|j: int| 0 <= j < l.len() implies s[j] != '\n' by {
        assert(s[j] == l[j]);
        assert(l.contains(l[j]));
    }
    text::lemma_char_index_unique(s, '\n', l.len() as int);
    text::lemma_char_index(l, '\n');
    if text::char_index(l, '\n') < l.len() {
        assert(l[text::char_index(l, '\n')] == '\n');
    }
}

/// Text that comes in is taken line by line: a line is complete with its end, whether
/// that is a line feed or a carriage return and a line feed, and what follows waits.
pub proof fn law_line_completed(l: Seq<char>, rest: Seq<char>)
    requires
        is_line(l),
    ensures
        session_tab::complete_lines(l + seq!['\n'] + rest) == seq![l]
            + session_tab::complete_lines(rest),
        session_tab::unfinished(l + seq!['\n'] + rest) == session_tab::unfinished(rest),
        session_tab::complete_lines(l + seq!['\r'] + seq!['\n'] + rest) == seq![l]
            + session_tab::complete_lines(rest),
        session_tab::unfinished(l + seq!['\r'] + seq!['\n'] + rest) == session_tab::unfinished(rest),
        session_tab::complete_lines(l).len() == 0,
        session_tab::unfinished(l) == l,
{
    lemma_line_index(l, rest);
    let s = l + seq!['\n'] + rest;
    let n = l.len() as int;
    assert(s.take(n + 1) =~= l.push('\n'));
    assert(l.push('\n').drop_last() =~= l);
    assert(s.skip(n + 1) =~= rest);
    assert(text::without_line_end(l) == l) by {
        if l.len() > 0 {
            assert(l.contains(l.last()));
        }
    }
    let m = l.push('\r');
    assert(l + seq!['\r'] =~= m);
    if m.contains('\n') {
        let i = m.index_of('\n');
        assert(l[i] == '\n');
    }
    lemma_line_index(m, rest);
    let r = m + seq!['\n'] + rest;
    assert(r.take(n + 2) =~= m.push('\n'));
    assert(m.push('\n').drop_last() =~= m);
    assert(m.drop_last() =~= l);
    assert(text::without_line_end(m) == text::without_line_end(l));
    assert(r.skip(n + 2) =~= rest);
}

/// A text is read line by line, whether its lines end in a line feed or in a carriage
/// return and a line feed; the last one may lack its end.
pub proof fn law_lines_read(l: Seq<char>, rest: Seq<char>)
    requires
        is_line(l),
    ensures
        text::lines_of(l + seq!['\n'] + rest) == seq![l] + text::lines_of(rest),
        text::lines_of(l + seq!['\r'] + seq!['\n'] + rest) == seq![l] + text::lines_of(rest),
        l.len() > 0 ==> text::lines_of(l) == seq![l],
        text::lines_of(Seq::empty()).len() == 0,
{
    lemma_line_index(l, rest);
    let s = l + seq!['\n'] + rest;
    let n = l.len() as int;
    assert(s.take(n) =~= l);
    assert(s.skip(n + 1) =~= rest);
    let m = l.push('\r');
    assert(l + seq!['\r'] =~= m);
    if m.contains('\n') {
        let i = m.index_of('\n');
        assert(l[i] == '\n');
    }
    lemma_line_index(m, rest);
    let r = m + seq!['\n'] + rest;
    assert(r.take(n + 1) =~= m);
    assert(m.drop_last() =~= l);
    assert(r.skip(n + 2) =~= rest);
    assert(m.take(m.len() - 1) =~= l);
}

proof fn lemma_trim_start_of(w: Seq<char>, s: Seq<char>)
    requires
        forall|i: int| 0 <= i < s.len() ==> text::is_space(#[trigger] s[i]),
        w.len() > 0 ==> !text::is_space(w[0]),
    ensures
        text::trim_start_spec(s + w) == w,
    decreases s.len(),
{
    if s.len() == 0 {
        assert(s + w =~= w);
    } else {
        assert((s + w)[0] == s[0]);
        assert((s + w).drop_first() =~= s.drop_first() + w);
        assert forall|i: int| 0 <= i < s.drop_first().len() implies text::is_space(
            #[trigger] s.drop_first()[i],
        ) by {
            assert(s.drop_first()[i] == s[i + 1]);
        }
        lemma_trim_start_of(w, s.drop_first());
    }
}

proof fn lemma_trim_end_of(w: Seq<char>, s: Seq<char>)
    requires
        forall|i: int| 0 <= i < s.len() ==> text::is_space(#[trigger] s[i]),
        w.len() > 0 ==> !text::is_space(w.last()),
    ensures
        text::trim_end_spec(w + s) == w,
    decreases s.len(),
{
    if s.len() == 0 {
        assert(w + s =~= w);
    } else {
        assert((w + s).last() == s.last());
        assert((w + s).drop_last() =~= w + s.drop_last());
        assert(text::is_space(s[s.len() - 1]));
        assert forall|i: int| 0 <= i < s.drop_last().len() implies text::is_space(
            #[trigger] s.drop_last()[i],
        ) by {
            assert(s.drop_last()[i] == s[i]);
        }
        lemma_trim_end_of(w, s.drop_last());
    }
}

/// White space around a text does not count, and within it stays.
pub proof fn law_trimmed(before: Seq<char>, w: Seq<char>, after: Seq<char>)
    requires
        forall|i: int| 0 <= i < before.len() ==> text::is_space(#[trigger] before[i]),
        forall|i: int| 0 <= i < after.len() ==> text::is_space(#[trigger] after[i]),
        w.len() > 0,
        !text::is_space(w[0]),
        !text::is_space(w.last()),
    ensures
        text::trimmed(before + w + after) == w,
{
    assert(before + w + after =~= before + (w + after));
    assert((w + after)[0] == w[0]);
    lemma_trim_start_of(w + after, before);
    lemma_trim_end_of(w, after);
}

/// A number below 100 in two digits.
pub open spec fn two_digits(n: nat) -> Seq<char> {
    if n < 10 {
        seq!['0'] + text::decimal(n)
    } else {
        text::decimal(n)
    }
}

/// A time is shown as hours, minutes and seconds, the last two in two digits.
pub proof fn law_duration_shown(h: nat, m: nat, s: nat)
    requires
        m < 60,
        s < 60,
    ensures
        session_tab::duration_text(3600 * h + 60 * m + s) == text::decimal(h) + ":"@ + two_digits(m)
            + ":"@ + two_digits(s),
{
    let t = 3600 * h + 60 * m + s;
    assert(t / 3600 == h);
    assert(t % 3600 == 60 * m + s);
    assert((t % 3600) / 60 == m);
    assert(t % 60 == s);
    lemma_two_digits(m);
    lemma_two_digits(s);
}

proof fn lemma_two_digits(n: nat)
    requires
        n < 60,
    ensures
        text::padded(text::decimal(n), 2, '0') == two_digits(n),
{
    identifiers::lemma_decimal(n);
    let d = text::decimal(n);
    if n < 10 {
        assert(d.len() == 1);
        assert(text::padded(d, 2, '0') =~= two_digits(n));
    } else {
        assert(text::decimal(n / 10).len() >= 1) by {
            identifiers::lemma_decimal(n / 10);
        }
        assert(d.len() >= 2);
    }
}

/// The colors of a text are those of its complete lines, each where its line stands.
pub proof fn law_lines_colored(
    h: highlight::HighlighterView,
    offset: int,
    l: Seq<char>,
    rest: Seq<char>,
)
    requires
        !l.contains('\n'),
    ensures
        ({
            let all = session_tab::block_spans(h, offset, l + seq!['\n'] + rest);
            let own = session_tab::line_spans(h, l);
            &&& all.len() == own.len() + session_tab::block_spans(
                h,
                offset + l.len() + 1,
                rest,
            ).len()
            &&& forall|i: int|
                0 <= i < own.len() ==> (#[trigger] all[i]).start == own[i].start + offset
                    && all[i].end == own[i].end + offset && all[i].color == own[i].color
            &&& all.skip(own.len() as int) == session_tab::block_spans(
                h,
                offset + l.len() + 1,
                rest,
            )
        }),
        session_tab::block_spans(h, offset, l).len() == 0,
{
    lemma_line_index(l, rest);
    let s = l + seq!['\n'] + rest;
    let n = l.len() as int;
    assert(s.take(n) =~= l);
    assert(s.skip(n + 1) =~= rest);
    let own = session_tab::line_spans(h, l);
    let all = session_tab::block_spans(h, offset, s);
    assert(all.skip(own.len() as int) =~= session_tab::block_spans(h, offset + n + 1, rest));
}

} // verus!
