//! The per-frame fuzzy filter and sort: keep the candidates that the fuzzy
//! matcher scores against the current query, cap how many are shown, and
//! order them by name length, equal lengths keeping their original order.

use vstd::prelude::*;

use crate::views::lemma_views_of_insert;
use crate::views::lemma_views_of_push;
use crate::views::views_of;

verus! {

/// The score that `fuzzy_matcher`'s `SkimMatcherV2`, in its default
/// configuration, gives to `choice` against `pattern`; `None` when the
/// pattern does not match.
pub uninterp spec fn skim_score(choice: Seq<char>, pattern: Seq<char>) -> Option<i64>;

/// Relies on `fuzzy_matcher::skim::SkimMatcherV2::fuzzy_match` with the
/// default configuration: the score is a function of the two character
/// sequences alone, and an empty pattern always matches, with score zero.
#[verifier::external_body]
fn skim_match(choice: &Vec<char>, pattern: &Vec<char>) -> (r: Option<i64>)
    ensures
        r == skim_score(choice@, pattern@),
        pattern@.len() == 0 ==> r == Some(0i64),
{
    let c: String = choice.iter().collect();
    let p: String = pattern.iter().collect();
    fuzzy_matcher::FuzzyMatcher::fuzzy_match(&fuzzy_matcher::skim::SkimMatcherV2::default(), &c, &p)
}

/// A candidate is kept when the matcher gives it a score.
pub open spec fn matches_query(choice: Seq<char>, pattern: Seq<char>) -> bool {
    skim_score(choice, pattern) is Some
}

/// The candidates that match `pattern`, in their original order.
pub open spec fn matching_candidates(progs: Seq<Seq<char>>, pattern: Seq<char>) -> Seq<Seq<char>>
    decreases progs.len(),
{
    if progs.len() == 0 {
        Seq::empty()
    } else if matches_query(progs[0], pattern) {
        seq![progs[0]] + matching_candidates(progs.drop_first(), pattern)
    } else {
        matching_candidates(progs.drop_first(), pattern)
    }
}

/// At most the first `n` candidates.
pub open spec fn clipped(s: Seq<Seq<char>>, n: int) -> Seq<Seq<char>> {
    if s.len() <= n {
        s
    } else {
        s.take(n)
    }
}

/// `x` placed after every candidate whose length does not exceed its own.
pub open spec fn insert_by_len(s: Seq<Seq<char>>, x: Seq<char>) -> Seq<Seq<char>>
    decreases s.len(),
{
    if s.len() == 0 {
        seq![x]
    } else if s[0].len() <= x.len() {
        seq![s[0]] + insert_by_len(s.drop_first(), x)
    } else {
        seq![x] + s
    }
}

/// Stable sort by candidate length: shorter names first, equal lengths in
/// their original order.
pub open spec fn sort_by_len(s: Seq<Seq<char>>) -> Seq<Seq<char>>
    decreases s.len(),
{
    if s.len() == 0 {
        Seq::empty()
    } else {
        insert_by_len(sort_by_len(s.drop_last()), s.last())
    }
}

/// The display order: no name is longer than one below it.
pub open spec fn ordered_by_len(s: Seq<Seq<char>>) -> bool {
    forall|i: int, j: int|
        0 <= i < j < s.len() ==> #[trigger] s[i].len() <= #[trigger] s[j].len()
}

pub proof fn lemma_insert_by_len_multiset(s: Seq<Seq<char>>, x: Seq<char>)
    ensures
        insert_by_len(s, x).to_multiset() == s.to_multiset().insert(x),
    decreases s.len(),
{
    broadcast use vstd::seq_lib::group_to_multiset_ensures;
    broadcast use vstd::seq_lib::lemma_multiset_commutative;
    broadcast use vstd::multiset::group_multiset_axioms;

    if s.len() == 0 {
        assert(seq![x] =~= Seq::<Seq<char>>::empty().push(x));
        assert(s =~= Seq::<Seq<char>>::empty());
        assert(insert_by_len(s, x).to_multiset() =~= s.to_multiset().insert(x));
    } else if s[0].len() <= x.len() {
        lemma_insert_by_len_multiset(s.drop_first(), x);
        assert(s =~= seq![s[0]] + s.drop_first());
        assert(insert_by_len(s, x).to_multiset() =~= s.to_multiset().insert(x));
    } else {
        assert(seq![x] + s =~= (seq![x] + s).drop_first().insert(0, x));
        assert((seq![x] + s).drop_first() =~= s);
        assert(insert_by_len(s, x).to_multiset() =~= s.to_multiset().insert(x));
    }
}

/// The sort only reorders: the same names stay, with the same
/// multiplicities.
pub proof fn lemma_sort_by_len_permutes(s: Seq<Seq<char>>)
    ensures
        sort_by_len(s).to_multiset() == s.to_multiset(),
    decreases s.len(),
{
    broadcast use vstd::seq_lib::group_to_multiset_ensures;

    if s.len() > 0 {
        lemma_sort_by_len_permutes(s.drop_last());
        lemma_insert_by_len_multiset(sort_by_len(s.drop_last()), s.last());
        assert(s =~= s.drop_last().push(s.last()));
    }
}

pub proof fn lemma_insert_by_len_ordered(s: Seq<Seq<char>>, x: Seq<char>)
    requires
        ordered_by_len(s),
    ensures
        ordered_by_len(insert_by_len(s, x)),
    decreases s.len(),
{
    broadcast use vstd::seq_lib::group_to_multiset_ensures;

    if s.len() == 0 {
    } else if s[0].len() <= x.len() {
        assert(ordered_by_len(s.drop_first()));
        lemma_insert_by_len_ordered(s.drop_first(), x);
        lemma_insert_by_len_multiset(s.drop_first(), x);
        let r = insert_by_len(s, x);
        let t = insert_by_len(s.drop_first(), x);
        assert(r == seq![s[0]] + t);
        assert forall|i: int, j: int| 0 <= i < j < r.len() implies r[i].len() <= r[j].len() by {
            if i == 0 {
                assert(r[j] == t[j - 1]);
                assert(t.contains(t[j - 1]));
                assert(t.to_multiset().count(t[j - 1]) > 0);
                if t[j - 1] == x {
                    assert(r[i].len() <= x.len());
                } else {
                    assert(s.drop_first().to_multiset().count(t[j - 1]) > 0);
                    assert(s.drop_first().contains(t[j - 1]));
                    let k = choose|k: int|
                        0 <= k < s.drop_first().len() && s.drop_first()[k] == t[j - 1];
                    assert(s[k + 1] == t[j - 1]);
                }
            } else {
                assert(r[i] == t[i - 1] && r[j] == t[j - 1]);
            }
        }
    } else {
        let r = insert_by_len(s, x);
        assert(r == seq![x] + s);
        assert forall|i: int, j: int| 0 <= i < j < r.len() implies r[i].len() <= r[j].len() by {
            if i == 0 {
                assert(r[j] == s[j - 1]);
                if j - 1 > 0 {
                    assert(s[0].len() <= s[j - 1].len());
                }
            } else {
                assert(r[i] == s[i - 1] && r[j] == s[j - 1]);
            }
        }
    }
}

/// What sorting leaves behind is in display order: lengths never decrease
/// from one row to the next.
pub proof fn lemma_sort_by_len_ordered(s: Seq<Seq<char>>)
    ensures
        ordered_by_len(sort_by_len(s)),
    decreases s.len(),
{
    if s.len() > 0 {
        lemma_sort_by_len_ordered(s.drop_last());
        lemma_insert_by_len_ordered(sort_by_len(s.drop_last()), s.last());
    }
}

pub proof fn lemma_insert_by_len_len(s: Seq<Seq<char>>, x: Seq<char>)
    ensures
        insert_by_len(s, x).len() == s.len() + 1,
    decreases s.len(),
{
    if s.len() > 0 && s[0].len() <= x.len() {
        lemma_insert_by_len_len(s.drop_first(), x);
    }
}

pub proof fn lemma_sort_by_len_len(s: Seq<Seq<char>>)
    ensures
        sort_by_len(s).len() == s.len(),
    decreases s.len(),
{
    if s.len() > 0 {
        lemma_sort_by_len_len(s.drop_last());
        lemma_insert_by_len_len(sort_by_len(s.drop_last()), s.last());
    }
}

/// Keep, in their original order, the candidates that the fuzzy matcher
/// scores against `pattern`.
pub fn filter_programs(progs: &Vec<Vec<char>>, pattern: &Vec<char>) -> (r: Vec<Vec<char>>)
    ensures
        views_of(r@) == matching_candidates(views_of(progs@), pattern@),
{
    let ghost va: Seq<Seq<char>> = views_of(progs@);
    let mut kept: Vec<Vec<char>> = Vec::new();
    let mut i: usize = 0;
    proof {
        assert(va.skip(0) =~= va);
        assert(views_of(kept@) =~= Seq::<Seq<char>>::empty());
        assert(views_of(kept@) + matching_candidates(va, pattern@)
            =~= matching_candidates(va, pattern@));
    }
    while i < progs.len()
        invariant
            i <= va.len(),
            va == views_of(progs@),
            views_of(kept@) + matching_candidates(va.skip(i as int), pattern@)
                == matching_candidates(va, pattern@),
        decreases va.len() - i,
    {
        let p = &progs[i];
        proof {
            assert(va.skip(i as int)[0] == va[i as int]);
            assert(va.skip(i as int).drop_first() =~= va.skip(i as int + 1));
        }
        let ghost kept_before: Seq<Vec<char>> = kept@;
        if skim_match(p, pattern).is_some() {
            kept.push(p.clone());
            proof {
                assert(kept@.last()@ =~= p@);
                assert(kept@ == kept_before.push(kept@.last()));
                lemma_views_of_push(kept_before, kept@.last());
                assert(views_of(kept@) == views_of(kept_before).push(va[i as int]));
                assert(views_of(kept_before).push(va[i as int])
                    + matching_candidates(va.skip(i as int + 1), pattern@)
                    =~= views_of(kept_before)
                    + (seq![va[i as int]] + matching_candidates(va.skip(i as int + 1), pattern@)));
            }
        }
        i += 1;
    }
    proof {
        assert(va.skip(va.len() as int) =~= Seq::<Seq<char>>::empty());
        assert(views_of(kept@) + Seq::<Seq<char>>::empty() =~= views_of(kept@));
    }
    kept
}

/// Unfolds `insert_by_len` at the first index whose candidate is longer
/// than `x`.
proof fn lemma_insert_by_len_at(s: Seq<Seq<char>>, x: Seq<char>, j: int)
    requires
        0 <= j <= s.len(),
        forall|k: int| 0 <= k < j ==> (#[trigger] s[k]).len() <= x.len(),
        j < s.len() ==> s[j].len() > x.len(),
    ensures
        insert_by_len(s, x) == s.insert(j, x),
    decreases j,
{
    if j == 0 {
        if s.len() == 0 {
            assert(insert_by_len(s, x) =~= s.insert(0, x));
        } else {
            assert(insert_by_len(s, x) == seq![x] + s);
            assert(seq![x] + s =~= s.insert(0, x));
        }
    } else {
        lemma_insert_by_len_at(s.drop_first(), x, j - 1);
        assert(insert_by_len(s, x) == seq![s[0]] + insert_by_len(s.drop_first(), x));
        assert(seq![s[0]] + s.drop_first().insert(j - 1, x) =~= s.insert(j, x));
    }
}

/// Sort the candidates by name length with a stable insertion sort.
pub fn sort_programs(list: &Vec<Vec<char>>) -> (r: Vec<Vec<char>>)
    ensures
        views_of(r@) == sort_by_len(views_of(list@)),
{
    let ghost va: Seq<Seq<char>> = views_of(list@);
    let mut out: Vec<Vec<char>> = Vec::new();
    let mut i: usize = 0;
    proof {
        assert(va.take(0) =~= Seq::<Seq<char>>::empty());
        assert(views_of(out@) =~= Seq::<Seq<char>>::empty());
    }
    while i < list.len()
        invariant
            i <= va.len(),
            va == views_of(list@),
            views_of(out@) == sort_by_len(va.take(i as int)),
        decreases va.len() - i,
    {
        let x = list[i].clone();
        proof {
            assert(x@ =~= va[i as int]);
        }
        let mut j: usize = 0;
        while j < out.len() && out[j].len() <= x.len()
            invariant
                j <= out@.len(),
                forall|k: int| 0 <= k < j ==> (#[trigger] views_of(out@)[k]).len() <= x@.len(),
            decreases out@.len() - j,
        {
            j += 1;
        }
        let ghost out_before: Seq<Vec<char>> = out@;
        out.insert(j, x);
        proof {
            lemma_insert_by_len_at(views_of(out_before), x@, j as int);
            lemma_views_of_insert(out_before, j as int, x);
            assert(views_of(out@) == insert_by_len(sort_by_len(va.take(i as int)), va[i as int]));
            assert(va.take(i as int + 1).drop_last() =~= va.take(i as int));
            assert(va.take(i as int + 1).last() == va[i as int]);
            assert(sort_by_len(va.take(i as int + 1))
                == insert_by_len(sort_by_len(va.take(i as int)), va[i as int]));
        }
        i += 1;
    }
    proof {
        assert(va.take(va.len() as int) =~= va);
    }
    out
}

} // verus!
