//! Names of the files that keep the history of a node.

use vstd::prelude::*;

use crate::config;
use crate::link;
use crate::text;

verus! {

/// `char::is_alphanumeric`: of an ASCII character whether it is a letter or a
/// digit; of others it is named by `unicode_alphanumeric`.
#[verifier::external_body]
pub(crate) fn is_alphanumeric(c: char) -> (r: bool)
    ensures
        (c as u32) < 128 ==> r == link::ascii_alphanumeric(c),
        (c as u32) >= 128 ==> r == link::unicode_alphanumeric(c),
{
    c.is_alphanumeric()
}

/// A character that a file name may hold.
pub open spec fn is_safe(c: char) -> bool {
    link::alphanumeric(c) || c == '-' || c == '_' || c == '.'
}

pub open spec fn safe_char(c: char) -> char {
    if is_safe(c) {
        c
    } else {
        '_'
    }
}

/// A name that stands for a directory itself or for the one above it.
pub open spec fn is_dots(s: Seq<char>) -> bool {
    s == seq!['.'] || s == seq!['.', '.']
}

/// `s` as the name of a file or directory: no white space around it, `_` for every
/// character that is not safe, and `_` for a name that is empty or means a directory.
pub open spec fn sanitized(s: Seq<char>) -> Seq<char> {
    let t = text::trimmed(s).map_values(|c: char| safe_char(c));
    if t.len() == 0 || is_dots(t) {
        seq!['_']
    } else {
        t
    }
}

/// Makes `s` the name of a file or directory.
pub fn sanitize_component(s: &str) -> (r: String)
    ensures
        r@ == sanitized(s@),
        r@.len() > 0,
        !is_dots(r@),
{
    let t = text::trim(s);
    let v = text::chars_of(t.as_str());
    let ghost all = text::trimmed(s@).map_values(|c: char| safe_char(c));
    let mut r = String::new();
    let mut i: usize = 0;
    while i < v.len()
        invariant
            i <= v.len(),
            v@ == text::trimmed(s@),
            all == v@.map_values(|c: char| safe_char(c)),
            r@ == all.take(i as int),
        decreases v.len() - i,
    {
        let c = v[i];
        if is_alphanumeric(c) || c == '-' || c == '_' || c == '.' {
            r.push(c);
        } else {
            r.push('_');
        }
        assert(r@ =~= all.take(i + 1));
        i += 1;
    }
    assert(r@ =~= all);
    proof {
        reveal_strlit(".");
        reveal_strlit("..");
        reveal_strlit("_");
        assert("."@ =~= seq!['.']);
        assert(".."@ =~= seq!['.', '.']);
        assert("_"@ =~= seq!['_']);
        assert(seq!['_'][0] != seq!['.'][0] && seq!['_'][0] != seq!['.', '.'][0]);
    }
    if v.len() == 0 || text::eq_str(r.as_str(), ".") || text::eq_str(r.as_str(), "..") {
        return text::owned("_");
    }
    r
}

/// The directory of a port's history.
pub open spec fn dir_of(config_dir: Seq<char>, port_name: Seq<char>) -> Seq<char> {
    config::path_in(config::path_in(config_dir, "history"@), sanitized(port_name))
}

/// The directory that holds every history file of one port.
pub fn history_dir(config_dir: &str, port_name: &str) -> (r: String)
    ensures
        r@ == dir_of(config_dir@, port_name@),
{
    let base = config::join_path(config_dir, "history");
    let name = sanitize_component(port_name);
    config::join_path(base.as_str(), name.as_str())
}

/// The history file of one node.
pub open spec fn file_of(config_dir: Seq<char>, port_name: Seq<char>, remote: Seq<char>) -> Seq<
    char,
> {
    config::path_in(dir_of(config_dir, port_name), sanitized(remote) + ".txt"@)
}

pub fn history_file_path(config_dir: &str, port_name: &str, remote: &str) -> (r: String)
    ensures
        r@ == file_of(config_dir@, port_name@, remote@),
{
    let mut node = sanitize_component(remote);
    node.append(".txt");
    let dir = history_dir(config_dir, port_name);
    config::join_path(dir.as_str(), node.as_str())
}

/// A sanitized name is never empty, never means a directory itself or the one above
/// it, and holds only characters that are safe in a file name; in particular no
/// separator of directories.
pub proof fn law_sanitized(s: Seq<char>)
    ensures
        sanitized(s).len() > 0,
        !is_dots(sanitized(s)),
        forall|i: int| 0 <= i < sanitized(s).len() ==> is_safe(#[trigger] sanitized(s)[i]),
        !sanitized(s).contains('/'),
{
    assert forall|i: int| 0 <= i < sanitized(s).len() implies is_safe(
        #[trigger] sanitized(s)[i],
    ) by {
        assert(is_safe('_'));
    }
    assert(seq!['_'][0] != seq!['.'][0] && seq!['_'][0] != seq!['.', '.'][0]);
    if sanitized(s).contains('/') {
        let i = choose|i: int| 0 <= i < sanitized(s).len() && sanitized(s)[i] == '/';
        assert(is_safe(sanitized(s)[i]));
        assert(false);
    }
}

/// Sanitizing a sanitized name changes nothing.
pub proof fn law_sanitized_twice(s: Seq<char>)
    ensures
        sanitized(sanitized(s)) == sanitized(s),
{
    let t = sanitized(s);
    law_sanitized(s);
    assert(!text::is_space(t[0])) by {
        lemma_trimmed_ends(s);
    }
    assert(!text::is_space(t.last())) by {
        lemma_trimmed_ends(s);
    }
    lemma_trimmed_fixed(t);
    assert(t.map_values(|c: char| safe_char(c)) =~= t);
}

proof fn lemma_trimmed_fixed(t: Seq<char>)
    requires
        t.len() > 0,
        !text::is_space(t[0]),
        !text::is_space(t.last()),
    ensures
        text::trimmed(t) == t,
{
    assert(text::trim_start_spec(t) == t);
    assert(text::trim_end_spec(t) == t);
}

proof fn lemma_trimmed_ends(s: Seq<char>)
    ensures
        sanitized(s).len() > 0,
        !text::is_space(sanitized(s)[0]),
        !text::is_space(sanitized(s).last()),
{
    let t = text::trimmed(s);
    lemma_trimmed_not_space(s);
    assert(!text::is_space('_'));
    if t.len() > 0 && !is_dots(t.map_values(|c: char| safe_char(c))) {
        let u = sanitized(s);
        assert(u[0] == safe_char(t[0]));
        assert(u.last() == safe_char(t.last()));
    }
}

proof fn lemma_trimmed_not_space(s: Seq<char>)
    ensures
        text::trimmed(s).len() > 0 ==> !text::is_space(text::trimmed(s)[0]) && !text::is_space(
            text::trimmed(s).last(),
        ),
{
    lemma_start_not_space(s);
    lemma_end_not_space(text::trim_start_spec(s));
    lemma_start_not_space(text::trim_end_spec(s));
    lemma_end_not_space(s);
}

proof fn lemma_start_not_space(s: Seq<char>)
    ensures
        text::trim_start_spec(s).len() > 0 ==> !text::is_space(text::trim_start_spec(s)[0]),
        text::trim_start_spec(s).len() > 0 ==> text::trim_start_spec(s).last() == s.last(),
    decreases s.len(),
{
    if s.len() > 0 && text::is_space(s[0]) {
        lemma_start_not_space(s.skip(1));
    }
}

proof fn lemma_end_not_space(s: Seq<char>)
    ensures
        text::trim_end_spec(s).len() > 0 ==> !text::is_space(text::trim_end_spec(s).last()),
        text::trim_end_spec(s).len() > 0 ==> text::trim_end_spec(s)[0] == s[0],
    decreases s.len(),
{
    if s.len() > 0 && text::is_space(s.last()) {
        lemma_end_not_space(s.drop_last());
    }
}

/// The history of a node stands in a file of its own, named after the node, in the
/// directory of its port, and that in the directory of the histories.
pub proof fn law_history_file(dir: Seq<char>, port_name: Seq<char>, remote: Seq<char>)
    requires
        dir.len() > 0,
        dir.last() != '/',
    ensures
        dir_of(dir, port_name) == dir + seq!['/'] + "history"@ + seq!['/'] + sanitized(port_name),
        file_of(dir, port_name, remote) == dir + seq!['/'] + "history"@ + seq!['/'] + sanitized(
            port_name,
        ) + seq!['/'] + sanitized(remote) + ".txt"@,
{
    reveal_strlit("history");
    law_sanitized(port_name);
    let a = dir + seq!['/'] + "history"@;
    assert(a.last() == 'y');
    let b = a + seq!['/'] + sanitized(port_name);
    assert(sanitized(port_name).len() > 0);
    let s = sanitized(port_name);
    assert(b.last() == s[s.len() - 1]);
    assert(file_of(dir, port_name, remote) =~= b + seq!['/'] + sanitized(remote) + ".txt"@);
}

/// A name that is safe already names its file as it is, so that two such names never
/// share one.
pub proof fn law_safe_name_kept(s: Seq<char>)
    requires
        s.len() > 0,
        forall|i: int| 0 <= i < s.len() ==> is_safe(#[trigger] s[i]),
        !is_dots(s),
        text::trimmed(s) == s,
    ensures
        sanitized(s) == s,
{
    assert(s.map_values(|c: char| safe_char(c)) =~= s);
}

} // verus!
