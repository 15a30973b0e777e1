//! Lists of texts in order.

use crate::names::rank;
use crate::text::{before, comes_before, lemma_before_total, lemma_before_trans, to_chars, views};
use vstd::prelude::*;

verus! {

/// Whether no text of a list comes before an earlier one.
pub open spec fn in_order(s: Seq<Seq<char>>) -> bool {
    forall|i: int, j: int| 0 <= i < j < s.len() ==> !before(#[trigger] s[j], #[trigger] s[i])
}

/// The texts of a list, in order.
pub open spec fn sorted(s: Seq<Seq<char>>) -> Seq<Seq<char>>
    decreases s.len(),
{
    if s.len() == 0 {
        s
    } else {
        let rest = sorted(s.drop_last());
        rest.insert(rank(rest, s.last()), s.last())
    }
}

proof fn lemma_rank(s: Seq<Seq<char>>, x: Seq<char>)
    requires
        in_order(s),
    ensures
        0 <= rank(s, x) <= s.len(),
        forall|i: int| 0 <= i < rank(s, x) ==> before(#[trigger] s[i], x),
        forall|i: int| rank(s, x) <= i < s.len() ==> !before(#[trigger] s[i], x),
    decreases s.len(),
{
    if s.len() > 0 {
        let rest = s.drop_first();
        if before(s[0], x) {
            assert forall|i: int, j: int| 0 <= i < j < rest.len() implies !before(
                #[trigger] rest[j],
                #[trigger] rest[i],
            ) by {
                assert(rest[i] == s[i + 1] && rest[j] == s[j + 1]);
            }
            lemma_rank(rest, x);
            assert forall|i: int| 0 <= i < rank(s, x) implies before(#[trigger] s[i], x) by {
                if i > 0 {
                    assert(rest[i - 1] == s[i]);
                }
            }
            assert forall|i: int| rank(s, x) <= i < s.len() implies !before(#[trigger] s[i], x) by {
                assert(rest[i - 1] == s[i]);
            }
        } else {
            assert forall|i: int| 0 <= i < s.len() implies !before(#[trigger] s[i], x) by {
                if i > 0 && before(s[i], x) {
                    assert(!before(s[i], s[0]));
                    lemma_before_total(s[0], s[i]);
                    if s[0] != s[i] {
                        lemma_before_trans(s[0], s[i], x);
                    }
                }
            }
        }
    }
}

proof fn lemma_rank_is(s: Seq<Seq<char>>, x: Seq<char>, n: int)
    requires
        0 <= n <= s.len(),
        forall|i: int| 0 <= i < n ==> before(#[trigger] s[i], x),
        n < s.len() ==> !before(s[n], x),
    ensures
        rank(s, x) == n,
    decreases n,
{
    if n > 0 {
        let rest = s.drop_first();
        assert(before(s[0], x));
        assert forall|i: int| 0 <= i < n - 1 implies before(#[trigger] rest[i], x) by {
            assert(rest[i] == s[i + 1]);
        }
        lemma_rank_is(rest, x, n - 1);
    }
}

/// A sorted list is in order, and holds the same texts as often.
pub proof fn law_sorted(s: Seq<Seq<char>>)
    ensures
        in_order(sorted(s)),
        sorted(s).len() == s.len(),
        sorted(s).to_multiset() == s.to_multiset(),
    decreases s.len(),
{
    broadcast use vstd::seq_lib::group_to_multiset_ensures;

    if s.len() > 0 {
        law_sorted(s.drop_last());
        let rest = sorted(s.drop_last());
        let x = s.last();
        let k = rank(rest, x);
        lemma_rank(rest, x);
        let after = sorted(s);
        assert forall|i: int, j: int| 0 <= i < j < after.len() implies !before(
            #[trigger] after[j],
            #[trigger] after[i],
        ) by {
            if j < k {
                assert(after[i] == rest[i] && after[j] == rest[j]);
            } else if j == k {
                assert(after[i] == rest[i]);
                assert(before(rest[i], x));
                lemma_before_total(rest[i], x);
            } else {
                assert(after[j] == rest[j - 1]);
                if i < k {
                    assert(after[i] == rest[i]);
                } else if i == k {
                    assert(!before(rest[j - 1], x));
                } else {
                    assert(after[i] == rest[i - 1]);
                }
            }
        }
        assert(after.remove(k) =~= rest);
        assert(after[k] == x);
        assert(s =~= s.drop_last().push(x));
        assert(after.to_multiset().remove(x).insert(x) =~= after.to_multiset());
    }
}

/// Sorts texts by the order of their characters.
pub fn sort_texts(list: &Vec<String>) -> (r: Vec<String>)
    ensures
        views(r@) == sorted(views(list@)),
{
    let ghost all = views(list@);
    let mut r: Vec<String> = Vec::new();
    let mut i: usize = 0;
    assert(all.take(0) =~= Seq::empty());
    assert(views(r@) =~= Seq::empty());
    while i < list.len()
        invariant
            i <= list@.len(),
            all == views(list@),
            views(r@) == sorted(all.take(i as int)),
        decreases list.len() - i,
    {
        let x = to_chars(list[i].as_str());
        let mut k: usize = 0;
        let ghost s = views(r@);
        while k < r.len() && comes_before(&to_chars(r[k].as_str()), &x)
            invariant
                k <= r@.len(),
                s == views(r@),
                forall|j: int| 0 <= j < k ==> before(#[trigger] s[j], x@),
            decreases r.len() - k,
        {
            assert(before(s[k as int], x@));
            k += 1;
        }
        proof {
            lemma_rank_is(s, x@, k as int);
            assert(all.take(i + 1).drop_last() =~= all.take(i as int));
        }
        r.insert(k, list[i].clone());
        assert(views(r@) =~= s.insert(k as int, x@));
        i += 1;
    }
    assert(all.take(i as int) =~= all);
    r
}

} // verus!
