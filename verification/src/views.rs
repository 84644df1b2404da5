//! The mathematical view of a list of character lists.

use vstd::prelude::*;

verus! {

/// The character sequences held by a sequence of character vectors.
pub open spec fn views_of(s: Seq<Vec<char>>) -> Seq<Seq<char>> {
    s.map_values(|v: Vec<char>| v@)
}

pub proof fn lemma_views_of_push(s: Seq<Vec<char>>, v: Vec<char>)
    ensures
        views_of(s.push(v)) == views_of(s).push(v@),
{
    assert(views_of(s.push(v)) =~= views_of(s).push(v@));
}

pub proof fn lemma_views_of_insert(s: Seq<Vec<char>>, i: int, v: Vec<char>)
    requires
        0 <= i <= s.len(),
    ensures
        views_of(s.insert(i, v)) == views_of(s).insert(i, v@),
{
    assert(views_of(s.insert(i, v)) =~= views_of(s).insert(i, v@));
}

pub proof fn lemma_views_of_take(s: Seq<Vec<char>>, n: int)
    requires
        0 <= n <= s.len(),
    ensures
        views_of(s.take(n)) == views_of(s).take(n),
{
    assert(views_of(s.take(n)) =~= views_of(s).take(n));
}

} // verus!
