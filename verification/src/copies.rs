//! Names for copies: "Name (copy)", then "Name (copy 2)"...

use crate::text::{decimal, holds, law_decimal_read_back, push_numeral, views};
use vstd::prelude::*;

verus! {

/// The name of the n-th copy.
pub open spec fn candidate(name: Seq<char>, suffix: Seq<char>, n: nat) -> Seq<char> {
    if n <= 1 {
        name + " ("@ + suffix + ")"@
    } else {
        name + " ("@ + suffix + " "@ + decimal(n) + ")"@
    }
}

/// Copies have different names.
pub proof fn law_candidates_differ(name: Seq<char>, suffix: Seq<char>, a: nat, b: nat)
    requires
        1 <= a,
        1 <= b,
        candidate(name, suffix, a) == candidate(name, suffix, b),
    ensures
        a == b,
{
    reveal_strlit(" (");
    reveal_strlit(")");
    reveal_strlit(" ");
    law_decimal_read_back(a);
    law_decimal_read_back(b);
    let (x, y) = (candidate(name, suffix, a), candidate(name, suffix, b));
    let from: int = name.len() + 2 + suffix.len() as int;
    if a > 1 && b > 1 {
        assert(x.subrange(from + 1, x.len() - 1) =~= decimal(a));
        assert(y.subrange(from + 1, y.len() - 1) =~= decimal(b));
    } else if a > 1 {
        assert(x.len() == from + 2 + decimal(a).len());
        assert(y.len() == from + 1);
    } else if b > 1 {
        assert(y.len() == from + 2 + decimal(b).len());
        assert(x.len() == from + 1);
    }
}

/// The first names of copies.
spec fn candidates(name: Seq<char>, suffix: Seq<char>, n: nat) -> Seq<Seq<char>> {
    Seq::new(n, |i: int| candidate(name, suffix, (i + 1) as nat))
}

/// A list takes at most as many names of copies as it has names.
proof fn lemma_some_free(name: Seq<char>, suffix: Seq<char>, names: Seq<Seq<char>>, n: nat)
    requires
        forall|j: nat| 1 <= j <= n ==> names.contains(#[trigger] candidate(name, suffix, j)),
    ensures
        n <= names.len(),
{
    let c = candidates(name, suffix, n);
    assert(c.no_duplicates()) by {
        assert forall|i: int, j: int| 0 <= i < c.len() && 0 <= j < c.len() && i != j implies c[i]
            != c[j] by {
            if c[i] == c[j] {
                law_candidates_differ(name, suffix, (i + 1) as nat, (j + 1) as nat);
            }
        }
    }
    assert(c.to_set().subset_of(names.to_set())) by {
        assert forall|x: Seq<char>| c.to_set().contains(x) implies names.to_set().contains(x) by {
            let i = choose|i: int| 0 <= i < c.len() && c[i] == x;
            assert(names.contains(candidate(name, suffix, (i + 1) as nat)));
        }
    }
    c.unique_seq_to_set();
    names.lemma_cardinality_of_set();
    vstd::seq_lib::seq_to_set_is_finite(names);
    vstd::set_lib::lemma_len_subset(c.to_set(), names.to_set());
}

/// Whether a name is that of the first copy that is free.
pub open spec fn is_copy_name(
    name: Seq<char>,
    suffix: Seq<char>,
    names: Seq<Seq<char>>,
    r: Seq<char>,
) -> bool {
    exists|n: nat|
        1 <= n && r == #[trigger] candidate(name, suffix, n) && !names.contains(r) && forall|j: nat|
            1 <= j < n ==> names.contains(#[trigger] candidate(name, suffix, j))
}

/// There is one such name.
pub proof fn law_one_copy_name(
    name: Seq<char>,
    suffix: Seq<char>,
    names: Seq<Seq<char>>,
    a: Seq<char>,
    b: Seq<char>,
)
    requires
        is_copy_name(name, suffix, names, a),
        is_copy_name(name, suffix, names, b),
    ensures
        a == b,
{
    let i = choose|n: nat|
        1 <= n && a == #[trigger] candidate(name, suffix, n) && !names.contains(a) && forall|j: nat|
            1 <= j < n ==> names.contains(#[trigger] candidate(name, suffix, j));
    let k = choose|n: nat|
        1 <= n && b == #[trigger] candidate(name, suffix, n) && !names.contains(b) && forall|j: nat|
            1 <= j < n ==> names.contains(#[trigger] candidate(name, suffix, j));
    if i < k {
        assert(names.contains(candidate(name, suffix, i)));
    } else if k < i {
        assert(names.contains(candidate(name, suffix, k)));
    }
}

/// The name of a copy: the first one that is free.
pub open spec fn free_name(name: Seq<char>, suffix: Seq<char>, names: Seq<Seq<char>>) -> Seq<char> {
    choose|r: Seq<char>| is_copy_name(name, suffix, names, r)
}

/// There is always a name for a copy.
pub proof fn law_free_name(name: Seq<char>, suffix: Seq<char>, names: Seq<Seq<char>>)
    ensures
        is_copy_name(name, suffix, names, free_name(name, suffix, names)),
{
    lemma_free_from(name, suffix, names, 1);
}

proof fn lemma_free_from(name: Seq<char>, suffix: Seq<char>, names: Seq<Seq<char>>, n: nat)
    requires
        1 <= n <= names.len() + 1,
        forall|j: nat| 1 <= j < n ==> names.contains(#[trigger] candidate(name, suffix, j)),
    ensures
        exists|r: Seq<char>| is_copy_name(name, suffix, names, r),
    decreases names.len() + 1 - n,
{
    let r = candidate(name, suffix, n);
    if names.contains(r) {
        if n == names.len() + 1 {
            lemma_some_free(name, suffix, names, n);
        } else {
            lemma_free_from(name, suffix, names, n + 1);
        }
    } else {
        assert(is_copy_name(name, suffix, names, r));
    }
}

/// "Name (copy)", or "Name (copy 2)"... the first one not taken.
pub fn copy_name(name: &str, suffix: &str, taken: &Vec<String>) -> (r: String)
    requires
        taken@.len() < usize::MAX,
    ensures
        is_copy_name(name@, suffix@, views(taken@), r@),
        r@ == free_name(name@, suffix@, views(taken@)),
{
    let ghost names = views(taken@);
    let mut n: usize = 1;
    loop
        invariant
            1 <= n <= taken.len() + 1,
            taken@.len() < usize::MAX,
            names == views(taken@),
            forall|j: nat|
                1 <= j < n ==> names.contains(#[trigger] candidate(name@, suffix@, j)),
        decreases taken.len() + 1 - n,
    {
        let mut r = name.to_owned();
        r.push_str(" (");
        r.push_str(suffix);
        if n > 1 {
            r.push_str(" ");
            push_numeral(&mut r, n as u64, 10);
        }
        r.push_str(")");
        assert(r@ =~= candidate(name@, suffix@, n as nat));
        if !holds(taken, r.as_str()) {
            proof {
                assert(is_copy_name(name@, suffix@, names, r@));
                law_one_copy_name(
                    name@,
                    suffix@,
                    names,
                    r@,
                    free_name(name@, suffix@, names),
                );
            }
            return r;
        }
        proof {
            assert forall|j: nat| 1 <= j <= n implies names.contains(
                #[trigger] candidate(name@, suffix@, j),
            ) by {}
            lemma_some_free(name@, suffix@, names, n as nat);
        }
        n += 1;
    }
}

} // verus!
