use crate::width_height_depth::WidthHeightDepth;
use vstd::prelude::*;

verus! {

/// Whether `heuristic` can serve as a size heuristic: it accepts every extent, and
/// gives every extent one score only.
///
/// A larger score means a larger box. Incoming boxes are placed into the smallest hole
/// that fits them, and "small" is whatever the heuristic says it is.
pub open spec fn is_heuristic<H: Fn(WidthHeightDepth) -> u128>(heuristic: &H) -> bool {
    &&& forall|whd: WidthHeightDepth| #[trigger] heuristic.requires((whd,))
    &&& forall|whd: WidthHeightDepth, s1: u128, s2: u128|
        #[trigger] heuristic.ensures((whd,), s1) && #[trigger] heuristic.ensures((whd,), s2)
            ==> s1 == s2
}

/// The score that `heuristic` gives to `whd`.
pub open spec fn score_of<H: Fn(WidthHeightDepth) -> u128>(
    heuristic: &H,
    whd: WidthHeightDepth,
) -> u128 {
    choose|score: u128| heuristic.ensures((whd,), score)
}

/// The score of `whd` is one that a call of `heuristic` has given: what is known of the
/// results of the heuristic is known of [`score_of`] for this extent.
pub open spec fn was_scored<H: Fn(WidthHeightDepth) -> u128>(
    heuristic: &H,
    whd: WidthHeightDepth,
) -> bool {
    heuristic.ensures((whd,), score_of(heuristic, whd))
}

/// Calls the heuristic on one extent.
pub fn score<H: Fn(WidthHeightDepth) -> u128>(heuristic: &H, whd: WidthHeightDepth) -> (s: u128)
    requires
        is_heuristic(heuristic),
    ensures
        s == score_of(heuristic, whd),
        was_scored(heuristic, whd),
{
    heuristic(whd)
}

/// The heuristic that scores a box by its volume.
pub fn volume_heuristic(whd: WidthHeightDepth) -> (score: u128)
    ensures
        score == whd.spec_volume(),
{
    whd.volume()
}

} // verus!
