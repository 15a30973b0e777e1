//! Lists of values seen through their models, and copies that keep them.

use vstd::prelude::*;

verus! {

/// The models of a list of values.
pub open spec fn models<T: View>(s: Seq<T>) -> Seq<T::V> {
    s.map_values(|t: T| t@)
}

/// A type whose values can be copied, the copy having the same model.
pub trait Duplicate: View + Sized {
    fn duplicate(&self) -> (r: Self)
        ensures
            r@ == self@,
    ;
}

/// Copies a list.
pub fn duplicate_all<T: Duplicate>(v: &Vec<T>) -> (r: Vec<T>)
    ensures
        models(r@) == models(v@),
{
    let mut r: Vec<T> = Vec::new();
    let mut i: usize = 0;
    while i < v.len()
        invariant
            i <= v@.len(),
            r@.len() == i,
            forall|j: int| 0 <= j < i ==> (#[trigger] r@[j])@ == v@[j]@,
        decreases v.len() - i,
    {
        r.push(v[i].duplicate());
        i += 1;
    }
    assert(models(r@) =~= models(v@));
    r
}

/// A type whose values can be compared through their models.
pub trait Same: View + Sized {
    /// When two models are those of equal values.
    spec fn equal(a: Self::V, b: Self::V) -> bool;

    fn same(&self, other: &Self) -> (r: bool)
        ensures
            r == Self::equal(self@, other@),
    ;
}

/// When two lists of models are those of equal lists.
pub open spec fn all_equal<T: Same>(a: Seq<T::V>, b: Seq<T::V>) -> bool {
    a.len() == b.len() && forall|i: int| 0 <= i < a.len() ==> T::equal(#[trigger] a[i], b[i])
}

/// Compares two lists.
pub fn same_all<T: Same>(a: &Vec<T>, b: &Vec<T>) -> (r: bool)
    ensures
        r == all_equal::<T>(models(a@), models(b@)),
{
    if a.len() != b.len() {
        return false;
    }
    let mut i: usize = 0;
    while i < a.len()
        invariant
            i <= a@.len(),
            a@.len() == b@.len(),
            forall|j: int| 0 <= j < i ==> T::equal(#[trigger] models(a@)[j], models(b@)[j]),
        decreases a.len() - i,
    {
        if !a[i].same(&b[i]) {
            assert(!T::equal(models(a@)[i as int], models(b@)[i as int]));
            return false;
        }
        i += 1;
    }
    true
}

/// Replacing a value in a list replaces its model.
pub proof fn lemma_update<T: View>(s: Seq<T>, i: int, t: T)
    requires
        0 <= i < s.len(),
    ensures
        models(s.update(i, t)) == models(s).update(i, t@),
{
    assert(models(s.update(i, t)) =~= models(s).update(i, t@));
}

/// Adding a value to a list adds its model.
pub proof fn lemma_push<T: View>(s: Seq<T>, t: T)
    ensures
        models(s.push(t)) == models(s).push(t@),
{
    assert(models(s.push(t)) =~= models(s).push(t@));
}

/// Taking a value out of a list takes its model out.
pub proof fn lemma_remove<T: View>(s: Seq<T>, i: int)
    requires
        0 <= i < s.len(),
    ensures
        models(s.remove(i)) == models(s).remove(i),
{
    assert(models(s.remove(i)) =~= models(s).remove(i));
}

/// Putting a value into a list puts its model there.
pub proof fn lemma_insert<T: View>(s: Seq<T>, i: int, t: T)
    requires
        0 <= i <= s.len(),
    ensures
        models(s.insert(i, t)) == models(s).insert(i, t@),
{
    assert(models(s.insert(i, t)) =~= models(s).insert(i, t@));
}

} // verus!
