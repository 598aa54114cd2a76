//! Sequences of values seen through their views.
use vstd::prelude::*;

verus! {

/// The views of a sequence's elements, in order.
pub open spec fn views<T: View>(s: Seq<T>) -> Seq<T::V> {
    Seq::new(s.len(), |i: int| s[i]@)
}

/// The view of an optional value.
pub open spec fn opt_view<T: View>(o: Option<T>) -> Option<T::V> {
    match o {
        Some(x) => Some(x@),
        None => None,
    }
}

/// Appending an element appends its view.
pub broadcast proof fn lemma_views_push<T: View>(s: Seq<T>, x: T)
    ensures
        #[trigger] views(s.push(x)) == views(s).push(x@),
{
    assert(views(s.push(x)) =~= views(s).push(x@));
}

/// Nothing has no views.
pub broadcast proof fn lemma_views_empty<T: View>(s: Seq<T>)
    requires
        s.len() == 0,
    ensures
        #[trigger] views(s) == Seq::<T::V>::empty(),
{
    assert(views(s) =~= Seq::<T::V>::empty());
}

/// Values that can be copied with their content intact.
pub trait Duplicate: View + Sized {
    /// A copy with the same content.
    fn duplicate(&self) -> (r: Self)
        ensures
            r@ == self@,
    ;
}

impl Duplicate for String {
    fn duplicate(&self) -> (r: Self) {
        self.clone()
    }
}

/// A copy of a vector, element by element.
pub fn duplicate_all<T: Duplicate>(v: &Vec<T>) -> (r: Vec<T>)
    ensures
        views(r@) == views(v@),
{
    let mut out: Vec<T> = Vec::new();
    let mut i: usize = 0;
    while i < v.len()
        invariant
            i <= v@.len(),
            out@.len() == i,
            forall|k: int| 0 <= k < i ==> (#[trigger] out@[k])@ == v@[k]@,
        decreases v@.len() - i,
    {
        out.push(v[i].duplicate());
        i = i + 1;
    }
    proof {
        assert(views(out@) =~= views(v@));
    }
    out
}

/// A copy of an optional value.
pub fn duplicate_opt<T: Duplicate>(o: &Option<T>) -> (r: Option<T>)
    ensures
        opt_view(r) == opt_view(*o),
{
    match o {
        Some(x) => Some(x.duplicate()),
        None => None,
    }
}

pub broadcast group group_views {
    lemma_views_push,
    lemma_views_empty,
}

} // verus!
