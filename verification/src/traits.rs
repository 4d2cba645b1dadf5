//! What the comparisons of the library have in common.
use vstd::prelude::*;
use crate::metrics::Ratio;

verus! {

/// A comparison of two values of one kind by a distance that is a quotient
/// of integers.
pub trait Comparison<A> {
    /// The distance of `a` and `b`.
    spec fn distance(a: &A, b: &A) -> Ratio;

    /// Computes the distance of `a` and `b`.
    fn compare(a: &A, b: &A) -> (r: Ratio)
        ensures
            r == Self::distance(a, b),
    ;
}

} // verus!
