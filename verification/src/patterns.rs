//! Regular expressions, by the `regex` crate.

use vstd::prelude::*;
use vstd::utf8::*;

verus! {

/// Whether `RegexBuilder::build` compiles a pattern.
pub uninterp spec fn regex_compiles(pattern: Seq<char>, ignore_case: bool) -> bool;

/// Where `Regex::find_iter` finds a pattern: the byte offsets at which each match
/// starts and ends.
pub uninterp spec fn regex_spans(pattern: Seq<char>, ignore_case: bool, line: Seq<char>) -> Seq<
    (usize, usize),
>;

/// Whether `Regex::is_match` finds a pattern.
pub uninterp spec fn regex_matches(pattern: Seq<char>, ignore_case: bool, line: Seq<char>) -> bool;

/// Matches stand within the line, in order and without overlap.
pub open spec fn spans_fit(spans: Seq<(usize, usize)>, line: Seq<char>) -> bool {
    &&& forall|i: int|
        0 <= i < spans.len() ==> (#[trigger] spans[i]).0 <= spans[i].1 <= encode_utf8(line).len()
    &&& forall|i: int, j: int|
        0 <= i < j < spans.len() ==> (#[trigger] spans[i]).1 <= (#[trigger] spans[j]).0
}

/// `RegexBuilder::new` with `case_insensitive`, and `build`: whether it gives a
/// regular expression, which is named by `regex_compiles`.
#[verifier::external_body]
pub(crate) fn compiles(pattern: &str, ignore_case: bool) -> (r: bool)
    ensures
        r == regex_compiles(pattern@, ignore_case),
{
    regex::RegexBuilder::new(pattern).case_insensitive(ignore_case).build().is_ok()
}

/// `Regex::find_iter`: the byte offsets of every match, in order and without
/// overlap, named by `regex_spans`; nothing for a pattern that does not compile.
#[verifier::external_body]
pub(crate) fn find_spans(pattern: &str, ignore_case: bool, line: &str) -> (r: Option<
    Vec<(usize, usize)>,
>)
    ensures
        r is Some == regex_compiles(pattern@, ignore_case),
        r is Some ==> r->0@ == regex_spans(pattern@, ignore_case, line@),
        r is Some ==> spans_fit(r->0@, line@),
{
    match regex::RegexBuilder::new(pattern).case_insensitive(ignore_case).build() {
        Ok(re) => Some(re.find_iter(line).map(|m| (m.start(), m.end())).collect()),
        Err(_) => None,
    }
}

/// `Regex::is_match`: whether there is a match, named by `regex_matches`; nothing
/// for a pattern that does not compile.
#[verifier::external_body]
pub(crate) fn is_match(pattern: &str, ignore_case: bool, line: &str) -> (r: Option<bool>)
    ensures
        r is Some == regex_compiles(pattern@, ignore_case),
        r is Some ==> r->0 == regex_matches(pattern@, ignore_case, line@),
{
    match regex::RegexBuilder::new(pattern).case_insensitive(ignore_case).build() {
        Ok(re) => Some(re.is_match(line)),
        Err(_) => None,
    }
}

/// A character with a meaning of its own in a regular expression.
pub open spec fn is_meta(c: char) -> bool {
    c == '\\' || c == '.' || c == '+' || c == '*' || c == '?' || c == '(' || c == ')' || c == '|'
        || c == '[' || c == ']' || c == '{' || c == '}' || c == '^' || c == '$' || c == '#' || c
        == '&' || c == '-' || c == '~'
}

/// `s` with a backslash before every such character.
pub open spec fn escaped(s: Seq<char>) -> Seq<char>
    decreases s.len(),
{
    if s.len() == 0 {
        s
    } else if is_meta(s.last()) {
        escaped(s.drop_last()).push('\\').push(s.last())
    } else {
        escaped(s.drop_last()).push(s.last())
    }
}

/// `regex::escape`: the text with a backslash before every character that has a
/// meaning of its own.
#[verifier::external_body]
pub(crate) fn escape(s: &str) -> (r: String)
    ensures
        r@ == escaped(s@),
{
    regex::escape(s)
}

} // verus!
