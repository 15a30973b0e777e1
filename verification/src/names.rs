//! Sets of names, kept in order.

use crate::text::{
    before, comes_before, holds, lemma_before_total, lemma_before_trans, to_chars, views,
};
use vstd::prelude::*;

verus! {

/// Whether texts are in strictly increasing order, so that none occurs twice.
pub open spec fn increasing(s: Seq<Seq<char>>) -> bool {
    forall|i: int, j: int| 0 <= i < j < s.len() ==> before(#[trigger] s[i], #[trigger] s[j])
}

/// A set of names.
#[derive(Debug)]
pub struct Names {
    /// The names in order.
    pub list: Vec<String>,
}

impl View for Names {
    type V = Seq<Seq<char>>;

    open spec fn view(&self) -> Seq<Seq<char>> {
        views(self.list@)
    }
}

/// The place of a text in a list in order: how many come before it.
pub open spec fn rank(s: Seq<Seq<char>>, x: Seq<char>) -> int
    decreases s.len(),
{
    if s.len() == 0 || !before(s[0], x) {
        0
    } else {
        1 + rank(s.drop_first(), x)
    }
}

/// A set of names with one more.
pub open spec fn with_name(s: Seq<Seq<char>>, x: Seq<char>) -> Seq<Seq<char>> {
    if s.contains(x) {
        s
    } else {
        s.insert(rank(s, x), x)
    }
}

/// The test for any other name.
pub open spec fn other_than(x: Seq<char>) -> spec_fn(Seq<char>) -> bool {
    |y: Seq<char>| y != x
}

/// A set of names without one.
pub open spec fn without_name(s: Seq<Seq<char>>, x: Seq<char>) -> Seq<Seq<char>> {
    s.filter(other_than(x))
}

/// The set of the names of a list.
pub open spec fn name_set(s: Seq<Seq<char>>) -> Seq<Seq<char>>
    decreases s.len(),
{
    if s.len() == 0 {
        s
    } else {
        with_name(name_set(s.drop_last()), s.last())
    }
}

/// The names of a set that a list holds.
pub open spec fn common(s: Seq<Seq<char>>, list: Seq<Seq<char>>) -> Seq<Seq<char>> {
    s.filter(|y: Seq<char>| list.contains(y))
}

proof fn lemma_rank(s: Seq<Seq<char>>, x: Seq<char>)
    requires
        increasing(s),
    ensures
        0 <= rank(s, x) <= s.len(),
        forall|i: int| 0 <= i < rank(s, x) ==> before(#[trigger] s[i], x),
        forall|i: int| rank(s, x) <= i < s.len() ==> !before(#[trigger] s[i], x),
    decreases s.len(),
{
    if s.len() > 0 {
        let rest = s.drop_first();
        if before(s[0], x) {
            assert forall|i: int, j: int| 0 <= i < j < rest.len() implies before(
                #[trigger] rest[i],
                #[trigger] rest[j],
            ) by {
                assert(rest[i] == s[i + 1] && rest[j] == s[j + 1]);
            }
            lemma_rank(rest, x);
            assert forall|i: int| 0 <= i < rank(s, x) implies before(#[trigger] s[i], x) by {
                if i > 0 {
                    assert(rest[i - 1] == s[i]);
                }
            }
            assert forall|i: int| rank(s, x) <= i < s.len() implies !before(#[trigger] s[i], x) by {
                assert(rest[i - 1] == s[i]);
            }
        } else {
            assert forall|i: int| 0 <= i < s.len() implies !before(#[trigger] s[i], x) by {
                if i > 0 && before(s[i], x) {
                    assert(before(s[0], s[i]));
                    lemma_before_trans(s[0], s[i], x);
                }
            }
        }
    }
}

proof fn lemma_rank_is(s: Seq<Seq<char>>, x: Seq<char>, n: int)
    requires
        0 <= n <= s.len(),
        forall|i: int| 0 <= i < n ==> before(#[trigger] s[i], x),
        n < s.len() ==> !before(s[n], x),
    ensures
        rank(s, x) == n,
    decreases n,
{
    if n > 0 {
        let rest = s.drop_first();
        assert(before(s[0], x));
        assert forall|i: int| 0 <= i < n - 1 implies before(#[trigger] rest[i], x) by {
            assert(rest[i] == s[i + 1]);
        }
        lemma_rank_is(rest, x, n - 1);
    }
}

/// A set with one more name is in order, and holds that name besides its own.
pub proof fn law_with_name(s: Seq<Seq<char>>, x: Seq<char>)
    requires
        increasing(s),
    ensures
        increasing(with_name(s, x)),
        forall|y: Seq<char>| #[trigger]
            with_name(s, x).contains(y) == (s.contains(y) || y == x),
{
    let after = with_name(s, x);
    if !s.contains(x) {
        let n = rank(s, x);
        lemma_rank(s, x);
        assert forall|i: int, j: int| 0 <= i < j < after.len() implies before(
            #[trigger] after[i],
            #[trigger] after[j],
        ) by {
            let a = if i < n {
                i
            } else {
                i - 1
            };
            let b = if j < n {
                j
            } else {
                j - 1
            };
            if i == n {
                assert(after[j] == s[b]);
                assert(!before(s[b], x));
                lemma_before_total(s[b], x);
                assert(s[b] != x);
            } else if j == n {
                assert(after[i] == s[a]);
            } else {
                assert(after[i] == s[a] && after[j] == s[b]);
            }
        }
        assert forall|y: Seq<char>| #[trigger] after.contains(y) == (s.contains(y) || y == x) by {
            if s.contains(y) {
                let i = choose|i: int| 0 <= i < s.len() && s[i] == y;
                if i < n {
                    assert(after[i] == y);
                } else {
                    assert(after[i + 1] == y);
                }
            }
            if y == x {
                assert(after[n] == x);
            }
            if after.contains(y) {
                let i = choose|i: int| 0 <= i < after.len() && after[i] == y;
                if i < n {
                    assert(s[i] == y);
                } else if i > n {
                    assert(s[i - 1] == y);
                }
            }
        }
    }
}

/// Filtering a set keeps it in order.
proof fn lemma_filter_increasing(s: Seq<Seq<char>>, p: spec_fn(Seq<char>) -> bool)
    requires
        increasing(s),
    ensures
        increasing(s.filter(p)),
        forall|y: Seq<char>| #[trigger] s.filter(p).contains(y) == (s.contains(y) && p(y)),
    decreases s.len(),
{
    reveal(Seq::filter);
    if s.len() > 0 {
        let rest = s.drop_last();
        let x = s.last();
        assert forall|i: int, j: int| 0 <= i < j < rest.len() implies before(
            #[trigger] rest[i],
            #[trigger] rest[j],
        ) by {
            assert(rest[i] == s[i] && rest[j] == s[j]);
        }
        lemma_filter_increasing(rest, p);
        let f = rest.filter(p);
        assert(s =~= rest.push(x));
        assert forall|y: Seq<char>| #[trigger] s.filter(p).contains(y) == (s.contains(y) && p(
            y,
        )) by {
            assert(f.contains(y) == (rest.contains(y) && p(y)));
            if s.contains(y) {
                let i = choose|i: int| 0 <= i < s.len() && s[i] == y;
                if i < rest.len() {
                    assert(rest[i] == y);
                }
            }
            if rest.contains(y) {
                let i = choose|i: int| 0 <= i < rest.len() && rest[i] == y;
                assert(s[i] == y);
            }
            if f.contains(y) {
                let i = choose|i: int| 0 <= i < f.len() && f[i] == y;
                assert(s.filter(p)[i] == y);
            }
            if p(x) && y == x {
                assert(s.filter(p)[f.len() as int] == x);
                assert(s[s.len() - 1] == x);
            }
            if s.filter(p).contains(y) {
                let i = choose|i: int| 0 <= i < s.filter(p).len() && s.filter(p)[i] == y;
                if i < f.len() {
                    assert(f[i] == y);
                }
            }
        }
        if p(x) {
            assert forall|i: int, j: int| 0 <= i < j < s.filter(p).len() implies before(
                #[trigger] s.filter(p)[i],
                #[trigger] s.filter(p)[j],
            ) by {
                if j < f.len() {
                    assert(s.filter(p)[i] == f[i] && s.filter(p)[j] == f[j]);
                } else {
                    assert(f.contains(f[i]));
                    let k = choose|k: int| 0 <= k < rest.len() && rest[k] == f[i];
                    assert(s[k] == f[i]);
                    assert(before(s[k], s[s.len() - 1]));
                }
            }
        }
    }
}

/// A set without a name is in order, and holds its other names.
pub proof fn law_without_name(s: Seq<Seq<char>>, x: Seq<char>)
    requires
        increasing(s),
    ensures
        increasing(without_name(s, x)),
        forall|y: Seq<char>| #[trigger]
            without_name(s, x).contains(y) == (s.contains(y) && y != x),
{
    lemma_filter_increasing(s, other_than(x));
}

/// What a set and a list have in common is in order.
pub proof fn law_common(s: Seq<Seq<char>>, list: Seq<Seq<char>>)
    requires
        increasing(s),
    ensures
        increasing(common(s, list)),
        forall|y: Seq<char>| #[trigger]
            common(s, list).contains(y) == (s.contains(y) && list.contains(y)),
{
    lemma_filter_increasing(s, |y: Seq<char>| list.contains(y));
}

/// The set of a list is in order and holds the names of the list.
pub proof fn law_name_set(s: Seq<Seq<char>>)
    ensures
        increasing(name_set(s)),
        forall|y: Seq<char>| #[trigger] name_set(s).contains(y) == s.contains(y),
    decreases s.len(),
{
    if s.len() > 0 {
        let rest = s.drop_last();
        law_name_set(rest);
        law_with_name(name_set(rest), s.last());
        assert(s =~= rest.push(s.last()));
        assert forall|y: Seq<char>| #[trigger] name_set(s).contains(y) == s.contains(y) by {
            assert(name_set(rest).contains(y) == rest.contains(y));
            if s.contains(y) {
                let i = choose|i: int| 0 <= i < s.len() && s[i] == y;
                if i < rest.len() {
                    assert(rest[i] == y);
                }
            }
            if rest.contains(y) {
                let i = choose|i: int| 0 <= i < rest.len() && rest[i] == y;
                assert(s[i] == y);
            }
            assert(s[s.len() - 1] == s.last());
        }
    }
}

impl Names {
    /// Whether the names are in order.
    pub open spec fn wf(&self) -> bool {
        increasing(self@)
    }

    /// No name.
    pub fn new() -> (r: Names)
        ensures
            r.wf(),
            r@ == Seq::<Seq<char>>::empty(),
    {
        let r = Names { list: Vec::new() };
        assert(r@ =~= Seq::empty());
        r
    }

    /// Tests whether a name is in the set.
    pub fn contains(&self, name: &str) -> (r: bool)
        ensures
            r == self@.contains(name@),
    {
        holds(&self.list, name)
    }

    /// Adds a name; tells whether it is new.
    pub fn insert(&mut self, name: &str) -> (new: bool)
        requires
            old(self).wf(),
        ensures
            final(self).wf(),
            new == !old(self)@.contains(name@),
            final(self)@ == with_name(old(self)@, name@),
    {
        let ghost s = self@;
        proof {
            law_with_name(s, name@);
        }
        if holds(&self.list, name) {
            return false;
        }
        let n = to_chars(name);
        let mut i: usize = 0;
        while i < self.list.len() && comes_before(&to_chars(self.list[i].as_str()), &n)
            invariant
                i <= self.list@.len(),
                s == views(self.list@),
                n@ == name@,
                forall|j: int| 0 <= j < i ==> before(#[trigger] s[j], name@),
            decreases self.list.len() - i,
        {
            i += 1;
        }
        proof {
            lemma_rank_is(s, name@, i as int);
        }
        self.list.insert(i, name.to_owned());
        assert(views(self.list@) =~= s.insert(i as int, name@));
        true
    }

    /// Takes a name out; tells whether it was there.
    pub fn remove(&mut self, name: &str) -> (was: bool)
        requires
            old(self).wf(),
        ensures
            final(self).wf(),
            was == old(self)@.contains(name@),
            final(self)@ == without_name(old(self)@, name@),
    {
        let ghost s = self@;
        let was = holds(&self.list, name);
        let mut kept: Vec<String> = Vec::new();
        let mut i: usize = 0;
        proof {
            reveal(Seq::filter);
            assert(s.take(0) =~= Seq::empty());
            assert(views(kept@) =~= without_name(s.take(0), name@));
        }
        while i < self.list.len()
            invariant
                i <= self.list@.len(),
                s == views(self.list@),
                views(kept@) == without_name(s.take(i as int), name@),
            decreases self.list.len() - i,
        {
            proof {
                reveal(Seq::filter);
                assert(s.take(i + 1).drop_last() =~= s.take(i as int));
            }
            let ghost before = views(kept@);
            if !crate::text::same_str(self.list[i].as_str(), name) {
                kept.push(self.list[i].clone());
                assert(views(kept@) =~= before.push(s[i as int]));
            }
            i += 1;
        }
        proof {
            assert(s.take(i as int) =~= s);
            law_without_name(s, name@);
        }
        self.list = kept;
        was
    }

    /// Keeps the names that a list holds.
    pub fn retain(&mut self, list: &Vec<String>)
        requires
            old(self).wf(),
        ensures
            final(self).wf(),
            final(self)@ == common(old(self)@, views(list@)),
    {
        let ghost s = self@;
        let ghost l = views(list@);
        let mut kept: Vec<String> = Vec::new();
        let mut i: usize = 0;
        proof {
            reveal(Seq::filter);
            assert(s.take(0) =~= Seq::empty());
            assert(views(kept@) =~= common(s.take(0), l));
        }
        while i < self.list.len()
            invariant
                i <= self.list@.len(),
                s == views(self.list@),
                l == views(list@),
                views(kept@) == common(s.take(i as int), l),
            decreases self.list.len() - i,
        {
            proof {
                reveal(Seq::filter);
                assert(s.take(i + 1).drop_last() =~= s.take(i as int));
            }
            let ghost before = views(kept@);
            if holds(list, self.list[i].as_str()) {
                kept.push(self.list[i].clone());
                assert(views(kept@) =~= before.push(s[i as int]));
            }
            i += 1;
        }
        proof {
            assert(s.take(i as int) =~= s);
            law_common(s, l);
        }
        self.list = kept;
    }

    /// The set of the names of a list.
    pub fn from_list(list: &Vec<String>) -> (r: Names)
        ensures
            r.wf(),
            r@ == name_set(views(list@)),
    {
        let ghost l = views(list@);
        let mut r = Names::new();
        let mut i: usize = 0;
        assert(l.take(0) =~= Seq::empty());
        while i < list.len()
            invariant
                i <= list@.len(),
                l == views(list@),
                r.wf(),
                r@ == name_set(l.take(i as int)),
            decreases list.len() - i,
        {
            assert(l.take(i + 1).drop_last() =~= l.take(i as int));
            r.insert(list[i].as_str());
            i += 1;
        }
        assert(l.take(i as int) =~= l);
        r
    }
}

} // verus!
