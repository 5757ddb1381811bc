//! The order in which lists are shown: a stable sort of positions by their keys.

use vstd::prelude::*;

use crate::text;

verus! {

/// `a` comes before `b` by the numbers of their characters, a prefix first.
pub open spec fn text_before(a: Seq<char>, b: Seq<char>) -> bool
    decreases a.len(),
{
    if b.len() == 0 {
        false
    } else if a.len() == 0 {
        true
    } else if a[0] != b[0] {
        a[0] < b[0]
    } else {
        text_before(a.skip(1), b.skip(1))
    }
}

/// An absent text comes before every text.
pub open spec fn opt_before(a: Option<Seq<char>>, b: Option<Seq<char>>) -> bool {
    match (a, b) {
        (None, Some(_)) => true,
        (Some(x), Some(y)) => text_before(x, y),
        _ => false,
    }
}

pub proof fn lemma_text_order(a: Seq<char>, b: Seq<char>, c: Seq<char>)
    ensures
        !text_before(a, a),
        text_before(a, b) && text_before(b, c) ==> text_before(a, c),
        !text_before(a, b) && !text_before(b, a) ==> a == b,
    decreases a.len(),
{
    if a.len() > 0 {
        lemma_text_order(
            a.skip(1),
            if b.len() > 0 {
                b.skip(1)
            } else {
                b
            },
            if c.len() > 0 {
                c.skip(1)
            } else {
                c
            },
        );
    }
    if !text_before(a, b) && !text_before(b, a) {
        if a.len() > 0 && b.len() > 0 {
            assert(a =~= seq![a[0]] + a.skip(1));
            assert(b =~= seq![b[0]] + b.skip(1));
        } else {
            assert(a =~= b);
        }
    }
}

pub fn is_text_before(a: &str, b: &str) -> (r: bool)
    ensures
        r == text_before(a@, b@),
{
    let x = text::chars_of(a);
    let y = text::chars_of(b);
    let mut i: usize = 0;
    assert(a@.skip(0) =~= a@);
    assert(b@.skip(0) =~= b@);
    while i < x.len() && i < y.len()
        invariant
            i <= x.len(),
            i <= y.len(),
            x@ == a@,
            y@ == b@,
            text_before(a@, b@) == text_before(a@.skip(i as int), b@.skip(i as int)),
        decreases x.len() - i,
    {
        assert(a@.skip(i as int)[0] == x@[i as int]);
        assert(b@.skip(i as int)[0] == y@[i as int]);
        if x[i] != y[i] {
            return x[i] < y[i];
        }
        assert(a@.skip(i as int).skip(1) =~= a@.skip(i + 1));
        assert(b@.skip(i as int).skip(1) =~= b@.skip(i + 1));
        i += 1;
    }
    i < y.len()
}

/// What an item is sorted by: first the major key, then the minor key.
#[derive(Debug)]
pub struct SortKey {
    pub major: Option<String>,
    pub minor: String,
}

#[verifier::ext_equal]
pub struct KeyView {
    pub major: Option<Seq<char>>,
    pub minor: Seq<char>,
}

impl View for SortKey {
    type V = KeyView;

    open spec fn view(&self) -> KeyView {
        KeyView { major: text::opt_view(self.major), minor: self.minor@ }
    }
}

pub open spec fn key_views(keys: Seq<SortKey>) -> Seq<KeyView> {
    keys.map_values(|k: SortKey| k@)
}

/// `a` is shown before `b`: by its major key, downwards or upwards, and with equal
/// major keys by its minor key.
pub open spec fn key_before(a: KeyView, b: KeyView, descending: bool) -> bool {
    let up = opt_before(a.major, b.major);
    let down = opt_before(b.major, a.major);
    if up || down {
        if descending {
            down
        } else {
            up
        }
    } else {
        text_before(a.minor, b.minor)
    }
}

proof fn lemma_opt_order(a: Option<Seq<char>>, b: Option<Seq<char>>, c: Option<Seq<char>>)
    ensures
        !opt_before(a, a),
        opt_before(a, b) && opt_before(b, c) ==> opt_before(a, c),
        !opt_before(a, b) && !opt_before(b, a) ==> a == b,
{
    lemma_text_order(text::or_empty(a), text::or_empty(b), text::or_empty(c));
}

pub proof fn lemma_key_order(a: KeyView, b: KeyView, c: KeyView, descending: bool)
    ensures
        !key_before(a, a, descending),
        key_before(a, b, descending) && key_before(b, c, descending) ==> key_before(
            a,
            c,
            descending,
        ),
        !key_before(a, b, descending) && !key_before(b, c, descending) ==> !key_before(
            a,
            c,
            descending,
        ),
{
    lemma_opt_order(a.major, b.major, c.major);
    lemma_opt_order(a.major, c.major, b.major);
    lemma_opt_order(b.major, a.major, c.major);
    lemma_opt_order(b.major, c.major, a.major);
    lemma_opt_order(c.major, a.major, b.major);
    lemma_opt_order(c.major, b.major, a.major);
    lemma_text_order(a.minor, b.minor, c.minor);
    lemma_text_order(a.minor, c.minor, b.minor);
    lemma_text_order(b.minor, a.minor, c.minor);
    lemma_text_order(b.minor, c.minor, a.minor);
    lemma_text_order(c.minor, a.minor, b.minor);
    lemma_text_order(c.minor, b.minor, a.minor);
}

fn is_key_before(a: &SortKey, b: &SortKey, descending: bool) -> (r: bool)
    ensures
        r == key_before(a@, b@, descending),
{
    let (up, down) = match (&a.major, &b.major) {
        (None, None) => (false, false),
        (None, Some(_)) => (true, false),
        (Some(_), None) => (false, true),
        (Some(x), Some(y)) => (
            is_text_before(x.as_str(), y.as_str()),
            is_text_before(y.as_str(), x.as_str()),
        ),
    };
    if up || down {
        if descending {
            down
        } else {
            up
        }
    } else {
        is_text_before(a.minor.as_str(), b.minor.as_str())
    }
}

/// Where `k` goes among positions already in order: behind every position that it
/// does not come before.
pub open spec fn slot(keys: Seq<KeyView>, order: Seq<usize>, k: usize, descending: bool) -> int
    decreases order.len(),
{
    if order.len() == 0 || !key_before(keys[k as int], keys[order.last() as int], descending) {
        order.len() as int
    } else {
        slot(keys, order.drop_last(), k, descending)
    }
}

/// The first `n` positions in the order of their keys; positions with keys of one
/// rank keep their order.
pub open spec fn sorted_positions(keys: Seq<KeyView>, n: nat, descending: bool) -> Seq<usize>
    decreases n,
{
    if n == 0 {
        Seq::empty()
    } else {
        let before = sorted_positions(keys, (n - 1) as nat, descending);
        before.insert(
            slot(keys, before, (n - 1) as usize, descending),
            (n - 1) as usize,
        )
    }
}

proof fn lemma_slot(keys: Seq<KeyView>, order: Seq<usize>, k: usize, descending: bool)
    ensures
        0 <= slot(keys, order, k, descending) <= order.len(),
        forall|i: int|
            slot(keys, order, k, descending) <= i < order.len() ==> key_before(
                keys[k as int],
                keys[#[trigger] order[i] as int],
                descending,
            ),
        slot(keys, order, k, descending) > 0 ==> !key_before(
            keys[k as int],
            keys[order[slot(keys, order, k, descending) - 1] as int],
            descending,
        ),
    decreases order.len(),
{
    if order.len() > 0 && key_before(keys[k as int], keys[order.last() as int], descending) {
        let front = order.drop_last();
        lemma_slot(keys, front, k, descending);
        assert forall|i: int| slot(keys, order, k, descending) <= i < order.len() implies key_before(
            keys[k as int],
            keys[#[trigger] order[i] as int],
            descending,
        ) by {
            if i < front.len() {
                assert(front[i] == order[i]);
            }
        }
    }
}

/// The positions of `keys` in the order in which their items are shown.
pub fn stable_order(keys: &Vec<SortKey>, descending: bool) -> (order: Vec<usize>)
    ensures
        order@ == sorted_positions(key_views(keys@), keys@.len(), descending),
        forall|i: int| 0 <= i < order@.len() ==> #[trigger] order@[i] < keys@.len(),
        order@.len() == keys@.len(),
{
    let ghost views = key_views(keys@);
    let mut order: Vec<usize> = Vec::new();
    let mut k: usize = 0;
    while k < keys.len()
        invariant
            k <= keys.len(),
            views == key_views(keys@),
            order@ == sorted_positions(views, k as nat, descending),
            order@.len() == k,
            forall|i: int| 0 <= i < order@.len() ==> #[trigger] order@[i] < k,
        decreases keys.len() - k,
    {
        let mut at: usize = order.len();
        let ghost all = order@;
        assert(all.take(at as int) =~= all);
        while at > 0 && is_key_before(&keys[k], &keys[order[at - 1]], descending)
            invariant
                at <= order.len(),
                k < keys.len(),
                order@ == all,
                views == key_views(keys@),
                forall|i: int| 0 <= i < order@.len() ==> #[trigger] order@[i] < k,
                slot(views, all, k, descending) == slot(
                    views,
                    all.take(at as int),
                    k,
                    descending,
                ),
            decreases at,
        {
            assert(views[k as int] == keys@[k as int]@);
            assert(views[all[at - 1] as int] == keys@[all[at - 1] as int]@);
            assert(all.take(at as int).drop_last() =~= all.take(at - 1));
            at -= 1;
        }
        proof {
            assert(views[k as int] == keys@[k as int]@);
            if at > 0 {
                assert(views[all[at - 1] as int] == keys@[all[at - 1] as int]@);
                assert(all.take(at as int).last() == all[at - 1]);
            }
        }
        order.insert(at, k);
        k += 1;
    }
    order
}

/// Sorting shows every item once, in the order of the keys, and items whose keys
/// have one rank in the order in which they came.
pub proof fn law_sorted(keys: Seq<KeyView>, n: nat, descending: bool)
    requires
        n <= keys.len(),
        n <= usize::MAX,
    ensures
        sorted_positions(keys, n, descending).len() == n,
        forall|k: usize| k < n ==> #[trigger] sorted_positions(keys, n, descending).contains(k),
        forall|i: int, j: int|
            0 <= i < j < n ==> {
                let a = #[trigger] sorted_positions(keys, n, descending)[i];
                let b = #[trigger] sorted_positions(keys, n, descending)[j];
                &&& !key_before(keys[b as int], keys[a as int], descending)
                &&& key_before(keys[a as int], keys[b as int], descending) || a < b
            },
    decreases n,
{
    if n > 0 {
        let m = (n - 1) as nat;
        let before = sorted_positions(keys, m, descending);
        let k = m as usize;
        law_sorted(keys, m, descending);
        lemma_slot(keys, before, k, descending);
        lemma_positions_below(keys, m, descending);
        let s = slot(keys, before, k, descending);
        let after = sorted_positions(keys, n, descending);
        assert(after == before.insert(s, k));
        assert forall|x: usize| x < n implies #[trigger] after.contains(x) by {
            if x == k {
                assert(after[s] == k);
            } else {
                assert(before.contains(x));
                let i = before.index_of(x);
                if i < s {
                    assert(after[i] == x);
                } else {
                    assert(after[i + 1] == x);
                }
            }
        }
        assert forall|i: int, j: int| 0 <= i < j < n implies ({
            let a = #[trigger] after[i];
            let b = #[trigger] after[j];
            &&& !key_before(keys[b as int], keys[a as int], descending)
            &&& key_before(keys[a as int], keys[b as int], descending) || a < b
        }) by {
            let a = after[i];
            let b = after[j];
            let i0 = if i < s {
                i
            } else {
                i - 1
            };
            let j0 = if j < s {
                j
            } else {
                j - 1
            };
            if i != s && j != s {
                assert(a == before[i0] && b == before[j0]);
            } else if i == s {
                assert(b == before[j0]);
                lemma_key_order(
                    keys[a as int],
                    keys[b as int],
                    keys[a as int],
                    descending,
                );
            } else {
                assert(a == before[i0]);
                let c = before[s - 1];
                if i < s - 1 {
                    assert(!key_before(keys[c as int], keys[a as int], descending));
                }
                lemma_key_order(
                    keys[b as int],
                    keys[c as int],
                    keys[a as int],
                    descending,
                );
                assert(a < k);
            }
        }
    }
}

pub proof fn lemma_positions_below(keys: Seq<KeyView>, n: nat, descending: bool)
    requires
        n <= usize::MAX,
    ensures
        forall|i: int|
            0 <= i < sorted_positions(keys, n, descending).len() ==> #[trigger] sorted_positions(
                keys,
                n,
                descending,
            )[i] < n,
    decreases n,
{
    if n > 0 {
        let m = (n - 1) as nat;
        lemma_positions_below(keys, m, descending);
        let before = sorted_positions(keys, m, descending);
        lemma_slot(keys, before, m as usize, descending);
        let s = slot(keys, before, m as usize, descending);
        let after = sorted_positions(keys, n, descending);
        assert forall|i: int| 0 <= i < after.len() implies #[trigger] after[i] < n by {
            if i < s {
                assert(after[i] == before[i]);
            } else if i > s {
                assert(after[i] == before[i - 1]);
            }
        }
    }
}

/// Texts are ordered by the first character in which they differ, and a text comes
/// before those that go on behind it. No text comes before itself.
pub proof fn law_text_order(p: Seq<char>, a: char, x: Seq<char>, b: char, y: Seq<char>)
    ensures
        a < b ==> text_before(p + seq![a] + x, p + seq![b] + y),
        a < b ==> !text_before(p + seq![b] + y, p + seq![a] + x),
        text_before(p, p + seq![a] + x),
        !text_before(p + seq![a] + x, p),
        !text_before(p, p),
    decreases p.len(),
{
    let (s, t) = (p + seq![a] + x, p + seq![b] + y);
    if p.len() > 0 {
        let q = p.skip(1);
        law_text_order(q, a, x, b, y);
        assert(s.skip(1) =~= q + seq![a] + x);
        assert(t.skip(1) =~= q + seq![b] + y);
        assert(s[0] == p[0] && t[0] == p[0]);
    } else {
        assert(s[0] == a && t[0] == b);
    }
}

/// The first part of a key decides where it differs, the newest first where the order
/// is descending and what has none last; else the second part does, always ascending.
pub proof fn law_key_order(a: KeyView, b: KeyView, descending: bool)
    ensures
        a.major is Some && b.major is Some && text_before(a.major->0, b.major->0)
            && !text_before(b.major->0, a.major->0) ==> key_before(a, b, descending)
            == !descending && key_before(b, a, descending) == descending,
        a.major is None && b.major is Some ==> key_before(a, b, descending) == !descending
            && key_before(b, a, descending) == descending,
        a.major is None && b.major is None ==> key_before(a, b, descending) == text_before(
            a.minor,
            b.minor,
        ),
        a.major is Some && a.major == b.major ==> key_before(a, b, descending) == text_before(
            a.minor,
            b.minor,
        ),
{
    if a.major is Some {
        law_text_order(a.major->0, 'a', Seq::empty(), 'b', Seq::empty());
    }
}

} // verus!
