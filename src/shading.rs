use vstd::prelude::*;

verus! {

/// The depth a reflected or refracted ray is traced with: `None` when the
/// surface has no such contribution (its coefficient is zero) or no depth
/// is left, in which case the contribution is black; otherwise one less
/// than `remaining`, so that every chain of secondary rays ends.
pub open spec fn secondary_depth_of(coefficient_is_zero: bool, remaining: nat) -> Option<nat> {
    if coefficient_is_zero || remaining == 0 {
        None
    } else {
        Some((remaining - 1) as nat)
    }
}

/// The depth to trace a secondary ray with, per `secondary_depth_of`.
pub fn secondary_depth(coefficient_is_zero: bool, remaining: usize) -> (r: Option<usize>)
    ensures
        r matches Some(d) ==> secondary_depth_of(coefficient_is_zero, remaining as nat) == Some(d as nat),
        r is None <==> secondary_depth_of(coefficient_is_zero, remaining as nat) is None,
{
    if coefficient_is_zero || remaining == 0 {
        None
    } else {
        Some(remaining - 1)
    }
}

/// With no depth left, neither a reflected nor a refracted ray is traced,
/// whatever the surface's material.
pub proof fn lemma_no_depth_is_black(coefficient_is_zero: bool)
    ensures
        secondary_depth_of(coefficient_is_zero, 0) is None,
{
}

/// Every secondary ray is traced with strictly less depth than the ray that
/// produced it, so that the recursion ends after at most `remaining` steps.
pub proof fn lemma_depth_decreases(coefficient_is_zero: bool, remaining: nat)
    ensures
        secondary_depth_of(coefficient_is_zero, remaining) matches Some(d) ==> d < remaining,
{
}

} // verus!
