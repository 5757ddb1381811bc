//! Identifiers of configured items: a prefix and the first number that is free.

use vstd::prelude::*;

use crate::text;

verus! {

pub open spec fn numbered(prefix: Seq<char>, n: nat) -> Seq<char> {
    prefix + text::decimal(n)
}

/// `n` is the first number, from the length of the list on, whose identifier is not
/// in the list.
pub open spec fn first_free(ids: Seq<Seq<char>>, prefix: Seq<char>, n: nat) -> bool {
    &&& ids.len() <= n
    &&& !ids.contains(numbered(prefix, n))
    &&& forall|k: nat| ids.len() <= k < n ==> ids.contains(#[trigger] numbered(prefix, k))
}

/// A number in decimal is made of digits, and denotes itself.
pub proof fn lemma_decimal(n: nat)
    ensures
        text::decimal(n).len() > 0,
        text::all_digits(text::decimal(n)),
        text::digits_value(text::decimal(n)) == n,
    decreases n,
{
    if n < 10 {
        let s = seq![text::digit_char(n)];
        assert(s.drop_last() =~= Seq::<char>::empty());
        assert(text::digits_value(s.drop_last()) == 0);
        assert(text::digit_value(s.last()) == n);
    } else {
        lemma_decimal(n / 10);
        let s = text::decimal(n / 10).push(text::digit_char(n % 10));
        assert(s.drop_last() =~= text::decimal(n / 10));
        assert(text::digit_value(s.last()) == n % 10);
        assert(text::is_digit(s.last()));
    }
}

/// Different numbers give different identifiers.
pub proof fn lemma_numbered_injective(prefix: Seq<char>, a: nat, b: nat)
    requires
        numbered(prefix, a) == numbered(prefix, b),
    ensures
        a == b,
{
    lemma_decimal(a);
    lemma_decimal(b);
    let p = prefix.len() as int;
    assert(numbered(prefix, a).skip(p) =~= text::decimal(a));
    assert(numbered(prefix, b).skip(p) =~= text::decimal(b));
}

/// The identifiers of the numbers from `lo` up to `hi`.
pub open spec fn candidates(prefix: Seq<char>, lo: nat, hi: nat) -> Set<Seq<char>>
    decreases hi - lo,
{
    if hi <= lo {
        Set::empty()
    } else {
        candidates(prefix, lo, (hi - 1) as nat).insert(numbered(prefix, (hi - 1) as nat))
    }
}

proof fn lemma_candidates(prefix: Seq<char>, lo: nat, hi: nat)
    requires
        lo <= hi,
    ensures
        candidates(prefix, lo, hi).finite(),
        candidates(prefix, lo, hi).len() == hi - lo,
        forall|s: Seq<char>|
            candidates(prefix, lo, hi).contains(s) ==> exists|k: nat|
                lo <= k < hi && s == #[trigger] numbered(prefix, k),
    decreases hi - lo,
{
    if lo < hi {
        let m = (hi - 1) as nat;
        lemma_candidates(prefix, lo, m);
        let front = candidates(prefix, lo, m);
        if front.contains(numbered(prefix, m)) {
            let k = choose|k: nat|
                lo <= k < m && numbered(prefix, m) == #[trigger] numbered(prefix, k);
            lemma_numbered_injective(prefix, m, k);
            assert(false);
        }
        assert forall|s: Seq<char>| candidates(prefix, lo, hi).contains(s) implies exists|k: nat|
            lo <= k < hi && s == #[trigger] numbered(prefix, k) by {
            if s == numbered(prefix, m) {
                assert(lo <= m < hi);
            } else {
                assert(front.contains(s));
                let k = choose|k: nat| lo <= k < m && s == #[trigger] numbered(prefix, k);
                assert(lo <= k < hi);
            }
        }
    }
}

/// A list of `ids` holds at most as many candidates as it is long.
proof fn lemma_some_free(ids: Seq<Seq<char>>, prefix: Seq<char>, hi: nat)
    requires
        ids.len() <= hi,
        forall|k: nat| ids.len() <= k < hi ==> ids.contains(#[trigger] numbered(prefix, k)),
    ensures
        hi - ids.len() <= ids.len(),
{
    let lo = ids.len();
    let c = candidates(prefix, lo, hi);
    lemma_candidates(prefix, lo, hi);
    assert(c.subset_of(ids.to_set())) by {
        assert forall|s: Seq<char>| c.contains(s) implies ids.to_set().contains(s) by {
            let k = choose|k: nat| lo <= k < hi && s == #[trigger] numbered(prefix, k);
            assert(ids.contains(numbered(prefix, k)));
        }
    }
    ids.lemma_cardinality_of_set();
    vstd::seq_lib::seq_to_set_is_finite(ids);
    vstd::set_lib::lemma_len_subset(c, ids.to_set());
}

/// An identifier that no item has: `prefix` and a number.
pub fn free_id(ids: &Vec<String>, prefix: &str) -> (r: String)
    requires
        2 * ids@.len() < u64::MAX,
    ensures
        !text::texts(ids@).contains(r@),
        exists|n: nat|
            first_free(text::texts(ids@), prefix@, n) && r@ == #[trigger] numbered(prefix@, n),
{
    let ghost all = text::texts(ids@);
    let mut n: u64 = ids.len() as u64;
    loop
        invariant
            all == text::texts(ids@),
            all.len() == ids@.len(),
            2 * all.len() < u64::MAX,
            all.len() <= n,
            forall|k: nat| all.len() <= k < n ==> all.contains(#[trigger] numbered(prefix@, k)),
        decreases 2 * all.len() - n + 1,
    {
        proof {
            lemma_some_free(all, prefix@, n as nat);
        }
        let mut candidate = text::owned(prefix);
        let digits = text::decimal_text(n);
        candidate.append(digits.as_str());
        assert(candidate@ == numbered(prefix@, n as nat));
        if !text::list_contains(ids, candidate.as_str()) {
            assert(first_free(all, prefix@, n as nat));
            return candidate;
        }
        n = n + 1;
    }
}

} // verus!
