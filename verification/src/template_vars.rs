//! Placeholders in automated messages.

use vstd::prelude::*;

use crate::config::AppConfig;
use crate::text;

verus! {

/// What the placeholders stand for. `node` is the callsign of the feature that
/// sends the message.
#[derive(Debug)]
pub struct TemplateVars {
    pub node: String,
    pub name: String,
    pub loc: String,
    pub bbs_home: String,
}

#[verifier::ext_equal]
pub struct VarsView {
    pub node: Seq<char>,
    pub name: Seq<char>,
    pub loc: Seq<char>,
    pub bbs_home: Seq<char>,
}

impl View for TemplateVars {
    type V = VarsView;

    open spec fn view(&self) -> VarsView {
        VarsView {
            node: self.node@,
            name: self.name@,
            loc: self.loc@,
            bbs_home: self.bbs_home@,
        }
    }
}

impl VarsView {
    /// `s` with every placeholder replaced, one kind after another.
    pub open spec fn applied(self, s: Seq<char>) -> Seq<char> {
        let a = text::replaced(s, "$$NODE"@, self.node);
        let b = text::replaced(a, "$$NAME"@, self.name);
        let c = text::replaced(b, "$$LOC"@, self.loc);
        text::replaced(c, "$$BBSHOME"@, self.bbs_home)
    }
}

fn text_or_empty(o: &Option<String>) -> (r: String)
    ensures
        r@ == text::or_empty(text::opt_view(*o)),
{
    match o {
        Some(s) => s.clone(),
        None => String::new(),
    }
}

impl TemplateVars {
    pub fn from_config(cfg: &AppConfig, node: &str) -> (r: Self)
        ensures
            r@ == (VarsView {
                node: node@,
                name: text::or_empty(text::opt_view(cfg.ui.name)),
                loc: text::or_empty(text::opt_view(cfg.ui.location)),
                bbs_home: text::or_empty(text::opt_view(cfg.ui.home_bbs)),
            }),
    {
        TemplateVars {
            node: text::owned(node),
            name: text_or_empty(&cfg.ui.name),
            loc: text_or_empty(&cfg.ui.location),
            bbs_home: text_or_empty(&cfg.ui.home_bbs),
        }
    }

    /// Replaces every placeholder; one that is not known stays as it is.
    pub fn apply(&self, s: &str) -> (r: String)
        ensures
            r@ == self@.applied(s@),
    {
        proof {
            reveal_strlit("$$NODE");
            reveal_strlit("$$NAME");
            reveal_strlit("$$LOC");
            reveal_strlit("$$BBSHOME");
        }
        let a = text::replace(s, "$$NODE", self.node.as_str());
        let b = text::replace(a.as_str(), "$$NAME", self.name.as_str());
        let c = text::replace(b.as_str(), "$$LOC", self.loc.as_str());
        text::replace(c.as_str(), "$$BBSHOME", self.bbs_home.as_str())
    }
}

/// Replacing what does not occur changes nothing.
pub proof fn lemma_nothing_replaced(s: Seq<char>, p: Seq<char>, t: Seq<char>)
    requires
        !text::contains_text(s, p),
    ensures
        text::replaced(s, p, t) == s,
    decreases s.len(),
{
    if p.len() > 0 && s.len() >= p.len() {
        assert(s.subrange(0, p.len() as int) =~= s.take(p.len() as int));
        assert(!text::occurs_at(s, p, 0));
        assert forall|i: int| !text::occurs_at(s.skip(1), p, i) by {
            if text::occurs_at(s.skip(1), p, i) {
                assert(s.subrange(i + 1, i + 1 + p.len()) =~= s.skip(1).subrange(i, i + p.len()));
                assert(text::occurs_at(s, p, i + 1));
            }
        }
        lemma_nothing_replaced(s.skip(1), p, t);
        assert(seq![s[0]] + s.skip(1) =~= s);
    }
}

/// Text without placeholders is left as it is.
pub proof fn law_plain_text_kept(v: VarsView, s: Seq<char>)
    requires
        !text::contains_text(s, "$$NODE"@),
        !text::contains_text(s, "$$NAME"@),
        !text::contains_text(s, "$$LOC"@),
        !text::contains_text(s, "$$BBSHOME"@),
    ensures
        v.applied(s) == s,
{
    lemma_nothing_replaced(s, "$$NODE"@, v.node);
    lemma_nothing_replaced(s, "$$NAME"@, v.name);
    lemma_nothing_replaced(s, "$$LOC"@, v.loc);
    lemma_nothing_replaced(s, "$$BBSHOME"@, v.bbs_home);
}

proof fn lemma_first_replaced(a: Seq<char>, p: Seq<char>, b: Seq<char>, t: Seq<char>)
    requires
        p.len() > 0,
        forall|i: int| 0 <= i < a.len() ==> a[i] != p[0],
    ensures
        text::replaced(a + p + b, p, t) == a + t + text::replaced(b, p, t),
    decreases a.len(),
{
    let s = a + p + b;
    if a.len() == 0 {
        assert(s.take(p.len() as int) =~= p);
        assert(s.skip(p.len() as int) =~= b);
        assert(a + t + text::replaced(b, p, t) =~= t + text::replaced(b, p, t));
    } else {
        let rest = a.skip(1);
        assert(s.take(p.len() as int)[0] == a[0]);
        assert(s.skip(1) =~= rest + p + b);
        assert forall|i: int| 0 <= i < rest.len() implies rest[i] != p[0] by {
            assert(rest[i] == a[i + 1]);
        }
        lemma_first_replaced(rest, p, b, t);
        assert(seq![s[0]] + (rest + t + text::replaced(b, p, t)) =~= a + t + text::replaced(
            b,
            p,
            t,
        ));
    }
}

pub proof fn lemma_plain(s: Seq<char>, p: Seq<char>, t: Seq<char>)
    requires
        p.len() > 0,
        !s.contains(p[0]),
    ensures
        text::replaced(s, p, t) == s,
{
    if text::contains_text(s, p) {
        let i = choose|i: int| text::occurs_at(s, p, i);
        assert(s.subrange(i, i + p.len())[0] == s[i]);
        assert(s.contains(p[0]));
    }
    lemma_nothing_replaced(s, p, t);
}

pub proof fn lemma_one(a: Seq<char>, p: Seq<char>, b: Seq<char>, t: Seq<char>)
    requires
        p.len() > 0,
        !a.contains(p[0]),
        !b.contains(p[0]),
    ensures
        text::replaced(a + p + b, p, t) == a + t + b,
{
    assert forall|i: int| 0 <= i < a.len() implies a[i] != p[0] by {
        assert(a.contains(a[i]));
    }
    lemma_first_replaced(a, p, b, t);
    lemma_plain(b, p, t);
}

proof fn lemma_other(a: Seq<char>, p: Seq<char>, b: Seq<char>, q: Seq<char>, t: Seq<char>)
    requires
        p.len() > 1 && q.len() > 2,
        p[0] == '$' && p[1] == '$' && q[0] == '$' && q[1] == '$',
        forall|i: int| 2 <= i < p.len() ==> p[i] != '$',
        p.len() > 2 && p[2] != q[2] || p.len() > 3 && q.len() > 3 && p[3] != q[3],
        !a.contains('$'),
        !b.contains('$'),
    ensures
        text::replaced(a + p + b, q, t) == a + p + b,
{
    let s = a + p + b;
    if text::contains_text(s, q) {
        let i = choose|i: int| text::occurs_at(s, q, i);
        let piece = s.subrange(i, i + q.len());
        assert(piece[0] == s[i] && piece[1] == s[i + 1]);
        if i < a.len() {
            assert(s[i] == a[i]);
            assert(a.contains(a[i]));
        } else if i >= a.len() + p.len() {
            assert(s[i] == b[i - a.len() - p.len()]);
            assert(b.contains(b[i - a.len() - p.len()]));
        } else if i == a.len() {
            assert(piece[2] == s[i + 2]);
            if p.len() > 2 && p[2] != q[2] {
                assert(s[i + 2] == p[2]);
            } else {
                assert(piece[3] == s[i + 3]);
                assert(s[i + 3] == p[3]);
            }
        } else {
            assert(s[i] == p[i - a.len()]);
            if i == a.len() + 1 {
                if p.len() > 2 {
                    assert(s[i + 1] == p[2]);
                }
            }
        }
    }
    lemma_nothing_replaced(s, q, t);
}

/// A placeholder in plain text is replaced by what it stands for: the callsign, the
/// operator's name, the location or the home mailbox.
pub proof fn law_placeholder_replaced(v: VarsView, a: Seq<char>, b: Seq<char>)
    requires
        !a.contains('$'),
        !b.contains('$'),
        !v.node.contains('$'),
        !v.name.contains('$'),
        !v.loc.contains('$'),
    ensures
        v.applied(a + "$$NODE"@ + b) == a + v.node + b,
        v.applied(a + "$$NAME"@ + b) == a + v.name + b,
        v.applied(a + "$$LOC"@ + b) == a + v.loc + b,
        v.applied(a + "$$BBSHOME"@ + b) == a + v.bbs_home + b,
{
    reveal_strlit("$$NODE");
    reveal_strlit("$$NAME");
    reveal_strlit("$$LOC");
    reveal_strlit("$$BBSHOME");
    let (node, name, loc, home) = ("$$NODE"@, "$$NAME"@, "$$LOC"@, "$$BBSHOME"@);
    lemma_one(a, node, b, v.node);
    lemma_one(a, name, b, v.name);
    lemma_one(a, loc, b, v.loc);
    lemma_one(a, home, b, v.bbs_home);
    lemma_other(a, name, b, node, v.node);
    lemma_other(a, loc, b, node, v.node);
    lemma_other(a, home, b, node, v.node);
    lemma_other(a, loc, b, name, v.name);
    lemma_other(a, home, b, name, v.name);
    lemma_other(a, home, b, loc, v.loc);
    lemma_no_dollar(a, v.node, b);
    lemma_no_dollar(a, v.name, b);
    lemma_no_dollar(a, v.loc, b);
    lemma_plain(a + v.node + b, name, v.name);
    lemma_plain(a + v.node + b, loc, v.loc);
    lemma_plain(a + v.node + b, home, v.bbs_home);
    lemma_plain(a + v.name + b, loc, v.loc);
    lemma_plain(a + v.name + b, home, v.bbs_home);
    lemma_plain(a + v.loc + b, home, v.bbs_home);
}

proof fn lemma_no_dollar(a: Seq<char>, t: Seq<char>, b: Seq<char>)
    requires
        !a.contains('$'),
        !t.contains('$'),
        !b.contains('$'),
    ensures
        !(a + t + b).contains('$'),
{
    let s = a + t + b;
    if s.contains('$') {
        let i = s.index_of('$');
        if i < a.len() {
            assert(a[i] == '$');
        } else if i < a.len() + t.len() {
            assert(t[i - a.len()] == '$');
        } else {
            assert(b[i - a.len() - t.len()] == '$');
        }
    }
}

} // verus!
