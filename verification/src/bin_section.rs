use crate::box_size_heuristics::is_heuristic;
use crate::box_size_heuristics::score;
use crate::box_size_heuristics::score_of;
use crate::box_size_heuristics::was_scored;
use crate::packed_location::PackedLocation;
use crate::packed_location::RotatedBy;
use crate::rect_to_insert::RectToInsert;
use crate::width_height_depth::WidthHeightDepth;
use crate::width_height_depth::lemma_volume_bound;
use core::cmp::Ordering;
use vstd::prelude::*;

pub mod overlaps;

verus! {

/// A free rectangular region inside a target bin.
#[derive(Debug, Eq, PartialEq, Structural, Copy, Clone, Ord, PartialOrd)]
pub struct BinSection {
    pub x: u32,
    pub y: u32,
    pub z: u32,
    pub whd: WidthHeightDepth,
}

/// Why a rectangle cannot be placed into a bin section.
#[derive(Debug, Eq, PartialEq, Structural, Copy, Clone)]
pub enum BinSectionError {
    PlacementWiderThanBinSection,
    PlacementTallerThanBinSection,
    PlacementDeeperThanBinSection,
}

/// Whether `comparison` can rank triples of leftover extents under `heuristic`: it
/// accepts every pair of triples, and gives every pair one answer only.
///
/// After a rectangle is placed, what is left of a section can be cut up in six ways.
/// The comparison decides between two of them: `Greater` means that the first triple is
/// the more suitable, `Less` that the second is.
pub open spec fn is_comparison<H, C>(comparison: &C, heuristic: &H) -> bool where
    H: Fn(WidthHeightDepth) -> u128,
    C: Fn([WidthHeightDepth; 3], [WidthHeightDepth; 3], &H) -> Ordering,
 {
    &&& forall|a: [WidthHeightDepth; 3], b: [WidthHeightDepth; 3]| #[trigger]
        comparison.requires((a, b, heuristic))
    &&& forall|a: [WidthHeightDepth; 3], b: [WidthHeightDepth; 3], o1: Ordering, o2: Ordering|
        #[trigger] comparison.ensures((a, b, heuristic), o1) && #[trigger] comparison.ensures(
            (a, b, heuristic),
            o2,
        ) ==> o1 == o2
}

/// The answer that `comparison` gives for the triples `a` and `b`.
pub open spec fn rank_of<H, C>(
    comparison: &C,
    heuristic: &H,
    a: [WidthHeightDepth; 3],
    b: [WidthHeightDepth; 3],
) -> Ordering where
    H: Fn(WidthHeightDepth) -> u128,
    C: Fn([WidthHeightDepth; 3], [WidthHeightDepth; 3], &H) -> Ordering,
 {
    choose|o: Ordering| comparison.ensures((a, b, heuristic), o)
}

/// The answer of `comparison` for `a` and `b` is one that a call of it has given: what
/// is known of the results of the comparison is known of [`rank_of`] for this pair.
pub open spec fn was_ranked<H, C>(
    comparison: &C,
    heuristic: &H,
    a: [WidthHeightDepth; 3],
    b: [WidthHeightDepth; 3],
) -> bool where
    H: Fn(WidthHeightDepth) -> u128,
    C: Fn([WidthHeightDepth; 3], [WidthHeightDepth; 3], &H) -> Ordering,
 {
    comparison.ensures((a, b, heuristic), rank_of(comparison, heuristic, a, b))
}

/// Calls the comparison on one pair of triples.
pub fn rank<H, C>(
    comparison: &C,
    heuristic: &H,
    a: [WidthHeightDepth; 3],
    b: [WidthHeightDepth; 3],
) -> (o: Ordering) where
    H: Fn(WidthHeightDepth) -> u128,
    C: Fn([WidthHeightDepth; 3], [WidthHeightDepth; 3], &H) -> Ordering,

    requires
        is_comparison(comparison, heuristic),
    ensures
        o == rank_of(comparison, heuristic, a, b),
        was_ranked(comparison, heuristic, a, b),
{
    comparison(a, b, heuristic)
}

/// The extents of three sections, in their order.
pub open spec fn extents_of(sections: [BinSection; 3]) -> [WidthHeightDepth; 3] {
    [sections[0].whd, sections[1].whd, sections[2].whd]
}

/// Of two candidate splits, the one that `comparison` ranks higher; the later one on a
/// tie.
pub open spec fn preferred<H, C>(
    comparison: &C,
    heuristic: &H,
    earlier: [BinSection; 3],
    later: [BinSection; 3],
) -> [BinSection; 3] where
    H: Fn(WidthHeightDepth) -> u128,
    C: Fn([WidthHeightDepth; 3], [WidthHeightDepth; 3], &H) -> Ordering,
 {
    if rank_of(comparison, heuristic, extents_of(later), extents_of(earlier)) is Less {
        earlier
    } else {
        later
    }
}

/// The best of `candidates[0]`, ..., `candidates[last]`: they are taken in their order,
/// and each one replaces the best so far unless `comparison` ranks it lower.
///
/// Under a comparison that is a total preorder this is the last of those candidates
/// that none of the others outranks: what is found at the end of the list after a
/// stable sort.
pub open spec fn best_of<H, C>(
    comparison: &C,
    heuristic: &H,
    candidates: Seq<[BinSection; 3]>,
    last: int,
) -> [BinSection; 3] where
    H: Fn(WidthHeightDepth) -> u128,
    C: Fn([WidthHeightDepth; 3], [WidthHeightDepth; 3], &H) -> Ordering,

    decreases last,
{
    if last <= 0 {
        candidates[0]
    } else {
        preferred(
            comparison,
            heuristic,
            best_of(comparison, heuristic, candidates, last - 1),
            candidates[last],
        )
    }
}

/// The best of some candidates is one of them.
pub proof fn lemma_best_is_a_candidate<H, C>(
    comparison: &C,
    heuristic: &H,
    candidates: Seq<[BinSection; 3]>,
    last: int,
) where
    H: Fn(WidthHeightDepth) -> u128,
    C: Fn([WidthHeightDepth; 3], [WidthHeightDepth; 3], &H) -> Ordering,

    requires
        0 <= last < candidates.len(),
    ensures
        exists|k: int|
            0 <= k <= last && best_of(comparison, heuristic, candidates, last)
                == #[trigger] candidates[k],
    decreases last,
{
    if last > 0 {
        lemma_best_is_a_candidate(comparison, heuristic, candidates, last - 1);
        let earlier = best_of(comparison, heuristic, candidates, last - 1);
        let k = choose|k: int| 0 <= k <= last - 1 && earlier == #[trigger] candidates[k];
        if preferred(comparison, heuristic, earlier, candidates[last]) == earlier {
            assert(best_of(comparison, heuristic, candidates, last) == candidates[k]);
        } else {
            assert(best_of(comparison, heuristic, candidates, last) == candidates[last]);
        }
    } else {
        assert(best_of(comparison, heuristic, candidates, last) == candidates[0]);
    }
}

/// Decides between the best split so far and the next candidate.
fn more_suitable<H, C>(
    comparison: &C,
    heuristic: &H,
    earlier: [BinSection; 3],
    later: [BinSection; 3],
) -> (best: [BinSection; 3]) where
    H: Fn(WidthHeightDepth) -> u128,
    C: Fn([WidthHeightDepth; 3], [WidthHeightDepth; 3], &H) -> Ordering,

    requires
        is_comparison(comparison, heuristic),
    ensures
        best == preferred(comparison, heuristic, earlier, later),
        was_ranked(comparison, heuristic, extents_of(later), extents_of(earlier)),
{
    let verdict = rank(
        comparison,
        heuristic,
        [later[0].whd, later[1].whd, later[2].whd],
        [earlier[0].whd, earlier[1].whd, earlier[2].whd],
    );
    match verdict {
        Ordering::Less => earlier,
        _ => later,
    }
}

/// The smallest of three scores.
pub open spec fn smallest_of(a: u128, b: u128, c: u128) -> u128 {
    if a <= b && a <= c {
        a
    } else if b <= c {
        b
    } else {
        c
    }
}

/// The middle one of three scores.
pub open spec fn second_smallest_of(a: u128, b: u128, c: u128) -> u128 {
    if a <= b {
        if b <= c {
            b
        } else if a <= c {
            c
        } else {
            a
        }
    } else {
        if a <= c {
            a
        } else if b <= c {
            c
        } else {
            b
        }
    }
}

/// How the score `a` stands to the score `b`.
pub open spec fn order_of(a: u128, b: u128) -> Ordering {
    if a < b {
        Ordering::Less
    } else if a == b {
        Ordering::Equal
    } else {
        Ordering::Greater
    }
}

/// The verdict of [`contains_smallest_box`]: the triple whose smallest box scores lower
/// is the better one, and if the smallest boxes score the same, the triple whose
/// second smallest box scores lower.
pub open spec fn smallest_box_order<H: Fn(WidthHeightDepth) -> u128>(
    heuristic: &H,
    container1: [WidthHeightDepth; 3],
    container2: [WidthHeightDepth; 3],
) -> Ordering {
    let a0 = score_of(heuristic, container1[0]);
    let a1 = score_of(heuristic, container1[1]);
    let a2 = score_of(heuristic, container1[2]);
    let b0 = score_of(heuristic, container2[0]);
    let b1 = score_of(heuristic, container2[1]);
    let b2 = score_of(heuristic, container2[2]);
    if smallest_of(b0, b1, b2) != smallest_of(a0, a1, a2) {
        order_of(smallest_of(b0, b1, b2), smallest_of(a0, a1, a2))
    } else {
        order_of(second_smallest_of(b0, b1, b2), second_smallest_of(a0, a1, a2))
    }
}

/// The smallest and the second smallest of three scores.
fn two_smallest(a: u128, b: u128, c: u128) -> (pair: (u128, u128))
    ensures
        pair.0 == smallest_of(a, b, c),
        pair.1 == second_smallest_of(a, b, c),
{
    if a <= b {
        if b <= c {
            (a, b)
        } else if a <= c {
            (a, c)
        } else {
            (c, a)
        }
    } else {
        if a <= c {
            (b, a)
        } else if b <= c {
            (b, c)
        } else {
            (c, b)
        }
    }
}

/// Compares two scores.
fn compare_scores(a: u128, b: u128) -> (o: Ordering)
    ensures
        o == order_of(a, b),
{
    if a < b {
        Ordering::Less
    } else if a == b {
        Ordering::Equal
    } else {
        Ordering::Greater
    }
}

/// Prefers the triple that contains the smallest box.
///
/// If the smallest boxes of both triples score the same, prefers the triple whose second
/// smallest box is the smaller.
///
/// Verified code hands this comparison on as a closure that repeats its contract, for
/// what a function promises is known of a closure where it is not known of the name of
/// a function that takes another function:
///
/// ```text
/// let comparison = |a: [WidthHeightDepth; 3], b: [WidthHeightDepth; 3], heuristic: &H| -> (o: Ordering)
///     requires
///         is_heuristic(heuristic),
///     ensures
///         o == smallest_box_order(heuristic, a, b),
///     { contains_smallest_box(a, b, heuristic) };
/// ```
pub fn contains_smallest_box<H: Fn(WidthHeightDepth) -> u128>(
    container1: [WidthHeightDepth; 3],
    container2: [WidthHeightDepth; 3],
    heuristic: &H,
) -> (o: Ordering)
    requires
        is_heuristic(heuristic),
    ensures
        o == smallest_box_order(heuristic, container1, container2),
        forall|i: int| 0 <= i < 3 ==> was_scored(heuristic, #[trigger] container1[i]),
        forall|i: int| 0 <= i < 3 ==> was_scored(heuristic, #[trigger] container2[i]),
{
    let (lowest1, second1) = two_smallest(
        score(heuristic, container1[0]),
        score(heuristic, container1[1]),
        score(heuristic, container1[2]),
    );
    let (lowest2, second2) = two_smallest(
        score(heuristic, container2[0]),
        score(heuristic, container2[1]),
        score(heuristic, container2[2]),
    );
    match compare_scores(lowest2, lowest1) {
        Ordering::Equal => compare_scores(second2, second1),
        o => o,
    }
}

impl BinSectionError {
    /// The text of [`BinSectionError::message`].
    pub open spec fn spec_message(&self) -> Seq<char> {
        match self {
            BinSectionError::PlacementWiderThanBinSection => {
                "Can not place a rectangle inside of a bin that is wider than that rectangle."@
            },
            BinSectionError::PlacementTallerThanBinSection => {
                "Can not place a rectangle inside of a bin that is taller than that rectangle."@
            },
            BinSectionError::PlacementDeeperThanBinSection => {
                "Can not place a rectangle inside of a bin that is deeper than that rectangle."@
            },
        }
    }

    /// Says what went wrong, for a reader.
    pub fn message(&self) -> (text: &'static str)
        ensures
            text@ == self.spec_message(),
    {
        match self {
            BinSectionError::PlacementWiderThanBinSection => {
                "Can not place a rectangle inside of a bin that is wider than that rectangle."
            },
            BinSectionError::PlacementTallerThanBinSection => {
                "Can not place a rectangle inside of a bin that is taller than that rectangle."
            },
            BinSectionError::PlacementDeeperThanBinSection => {
                "Can not place a rectangle inside of a bin that is deeper than that rectangle."
            },
        }
    }
}

impl Default for BinSection {
    fn default() -> (section: Self)
        ensures
            section == BinSection::spec_new_spread(0, 0, 0, 0, 0, 0),
    {
        BinSection { x: 0, y: 0, z: 0, whd: WidthHeightDepth { width: 0, height: 0, depth: 0 } }
    }
}

impl BinSection {
    pub open spec fn spec_new(x: u32, y: u32, z: u32, whd: WidthHeightDepth) -> Self {
        BinSection { x, y, z, whd }
    }

    pub open spec fn spec_new_spread(
        x: u32,
        y: u32,
        z: u32,
        width: u32,
        height: u32,
        depth: u32,
    ) -> Self {
        BinSection { x, y, z, whd: WidthHeightDepth { width, height, depth } }
    }

    /// The section of extent `whd` whose corner nearest the origin is `(x, y, z)`.
    #[verifier::when_used_as_spec(spec_new)]
    pub fn new(x: u32, y: u32, z: u32, whd: WidthHeightDepth) -> (section: Self)
        ensures
            section == Self::spec_new(x, y, z, whd),
    {
        BinSection { x, y, z, whd }
    }

    /// As [`BinSection::new`], with the extent given side by side.
    #[verifier::when_used_as_spec(spec_new_spread)]
    pub fn new_spread(x: u32, y: u32, z: u32, width: u32, height: u32, depth: u32) -> (section:
        Self)
        ensures
            section == Self::spec_new_spread(x, y, z, width, height, depth),
    {
        BinSection { x, y, z, whd: WidthHeightDepth { width, height, depth } }
    }

    /// The number of unit cells in the section.
    pub open spec fn spec_volume(&self) -> nat {
        self.whd.spec_volume()
    }

    /// The far corner of the section is still a point of the `u32` grid.
    pub open spec fn in_coordinate_range(&self) -> bool {
        &&& self.x + self.whd.width <= u32::MAX
        &&& self.y + self.whd.height <= u32::MAX
        &&& self.z + self.whd.depth <= u32::MAX
    }

    /// `incoming` is no larger than the section along any axis.
    pub open spec fn fits(&self, incoming: RectToInsert) -> bool {
        &&& incoming.whd.width <= self.whd.width
        &&& incoming.whd.height <= self.whd.height
        &&& incoming.whd.depth <= self.whd.depth
    }

    /// The first axis, in the order width, height, depth, along which `incoming` is
    /// larger than the section; `None` when it fits.
    pub open spec fn fit_error(&self, incoming: RectToInsert) -> Option<BinSectionError> {
        if incoming.whd.width > self.whd.width {
            Some(BinSectionError::PlacementWiderThanBinSection)
        } else if incoming.whd.height > self.whd.height {
            Some(BinSectionError::PlacementTallerThanBinSection)
        } else if incoming.whd.depth > self.whd.depth {
            Some(BinSectionError::PlacementDeeperThanBinSection)
        } else {
            None
        }
    }

    /// Placing `incoming` at the section's origin leaves strips whose origins are still
    /// points of the `u32` grid.
    pub open spec fn can_hold(&self, incoming: RectToInsert) -> bool {
        self.fits(incoming) ==> {
            &&& self.x + incoming.whd.width <= u32::MAX
            &&& self.y + incoming.whd.height <= u32::MAX
            &&& self.z + incoming.whd.depth <= u32::MAX
        }
    }

    /// `self` lies inside `outer`.
    pub open spec fn is_within(&self, outer: &BinSection) -> bool {
        &&& outer.x <= self.x
        &&& outer.y <= self.y
        &&& outer.z <= self.z
        &&& self.x + self.whd.width <= outer.x + outer.whd.width
        &&& self.y + self.whd.height <= outer.y + outer.whd.height
        &&& self.z + self.whd.depth <= outer.z + outer.whd.depth
    }

    /// The two sections share no unit cell.
    pub open spec fn is_disjoint_from(&self, other: &BinSection) -> bool {
        ||| self.spec_volume() == 0
        ||| other.spec_volume() == 0
        ||| self.x + self.whd.width <= other.x
        ||| other.x + other.whd.width <= self.x
        ||| self.y + self.whd.height <= other.y
        ||| other.y + other.whd.height <= self.y
        ||| self.z + self.whd.depth <= other.z
        ||| other.z + other.whd.depth <= self.z
    }

    /// The cells that `incoming` takes when it is placed at the section's origin.
    pub open spec fn taken_by(&self, incoming: RectToInsert) -> Self {
        BinSection { x: self.x, y: self.y, z: self.z, whd: incoming.whd }
    }

    /// The strip to the right of `incoming` once it sits at the section's origin, with
    /// the given height and depth.
    pub open spec fn strip_right(&self, incoming: RectToInsert, height: u32, depth: u32) -> Self {
        BinSection {
            x: (self.x + incoming.whd.width) as u32,
            y: self.y,
            z: self.z,
            whd: WidthHeightDepth {
                width: (self.whd.width - incoming.whd.width) as u32,
                height,
                depth,
            },
        }
    }

    /// The strip above `incoming`, with the given width and depth.
    pub open spec fn strip_above(&self, incoming: RectToInsert, width: u32, depth: u32) -> Self {
        BinSection {
            x: self.x,
            y: (self.y + incoming.whd.height) as u32,
            z: self.z,
            whd: WidthHeightDepth {
                width,
                height: (self.whd.height - incoming.whd.height) as u32,
                depth,
            },
        }
    }

    /// The strip behind `incoming`, with the given width and height.
    pub open spec fn strip_behind(&self, incoming: RectToInsert, width: u32, height: u32) -> Self {
        BinSection {
            x: self.x,
            y: self.y,
            z: (self.z + incoming.whd.depth) as u32,
            whd: WidthHeightDepth {
                width,
                height,
                depth: (self.whd.depth - incoming.whd.depth) as u32,
            },
        }
    }

    /// The six ways to cut what is left of the section, once `incoming` sits at its
    /// origin, into a strip to the right, a strip above and a strip behind.
    ///
    /// In each, one strip runs the section's full extent along both of its other axes,
    /// one is cut back to the rectangle along one of them, and one is cut back along both.
    pub open spec fn splits(&self, incoming: RectToInsert) -> Seq<[BinSection; 3]> {
        let s = self.whd;
        let i = incoming.whd;
        seq![
            [
                self.strip_right(incoming, s.height, s.depth),
                self.strip_above(incoming, i.width, s.depth),
                self.strip_behind(incoming, i.width, i.height),
            ],
            [
                self.strip_right(incoming, i.height, s.depth),
                self.strip_above(incoming, s.width, s.depth),
                self.strip_behind(incoming, i.width, i.height),
            ],
            [
                self.strip_right(incoming, s.height, s.depth),
                self.strip_above(incoming, i.width, i.depth),
                self.strip_behind(incoming, i.width, s.height),
            ],
            [
                self.strip_right(incoming, s.height, i.depth),
                self.strip_above(incoming, i.width, i.depth),
                self.strip_behind(incoming, s.width, s.height),
            ],
            [
                self.strip_right(incoming, i.height, i.depth),
                self.strip_above(incoming, s.width, s.depth),
                self.strip_behind(incoming, s.width, i.height),
            ],
            [
                self.strip_right(incoming, i.height, i.depth),
                self.strip_above(incoming, s.width, i.depth),
                self.strip_behind(incoming, s.width, s.height),
            ],
        ]
    }

    /// The split that [`BinSection::try_place`] returns: the best of the six candidates
    /// under `comparison`.
    pub open spec fn chosen_split<H, C>(
        &self,
        incoming: RectToInsert,
        comparison: &C,
        heuristic: &H,
    ) -> [BinSection; 3] where
        H: Fn(WidthHeightDepth) -> u128,
        C: Fn([WidthHeightDepth; 3], [WidthHeightDepth; 3], &H) -> Ordering,
     {
        best_of(comparison, heuristic, self.splits(incoming), 5)
    }

    /// Tries to place `incoming` at the origin of this section.
    ///
    /// The placement fails exactly when the rectangle is larger than the section along
    /// some axis, with the error of the first such axis. Otherwise the rectangle lands
    /// at the section's origin, unrotated, and what is left of the section is cut into
    /// three new sections, in the one of six ways that `container_comparison_fn` likes
    /// best. A section of the three may be empty. Together with the rectangle they
    /// fill the section exactly.
    pub fn try_place<H, C>(
        &self,
        incoming: &RectToInsert,
        container_comparison_fn: &C,
        heuristic_fn: &H,
    ) -> (placement: Result<(PackedLocation, [BinSection; 3]), BinSectionError>) where
        H: Fn(WidthHeightDepth) -> u128,
        C: Fn([WidthHeightDepth; 3], [WidthHeightDepth; 3], &H) -> Ordering,

        requires
            self.can_hold(*incoming),
            is_comparison(container_comparison_fn, heuristic_fn),
        ensures
            placement is Ok <==> self.fits(*incoming),
            placement matches Err(e) ==> self.fit_error(*incoming) == Some(e),
            placement matches Ok((location, sections)) ==> {
                &&& location == PackedLocation::unrotated(self.x, self.y, self.z, incoming.whd)
                &&& sections == self.chosen_split(
                    *incoming,
                    container_comparison_fn,
                    heuristic_fn,
                )
                &&& exists|k: int| 0 <= k < 6 && sections == #[trigger] self.splits(*incoming)[k]
                &&& sections[0].spec_volume() + sections[1].spec_volume()
                    + sections[2].spec_volume() + incoming.whd.spec_volume()
                    == self.spec_volume()
                &&& forall|k: int|
                    1 <= k < 6 ==> was_ranked(
                        container_comparison_fn,
                        heuristic_fn,
                        extents_of(#[trigger] self.splits(*incoming)[k]),
                        extents_of(
                            best_of(
                                container_comparison_fn,
                                heuristic_fn,
                                self.splits(*incoming),
                                k - 1,
                            ),
                        ),
                    )
            },
    {
        match self.incoming_can_fit(incoming) {
            Err(e) => {
                return Err(e);
            },
            Ok(()) => {},
        }
        let all_combinations = [
            self.depth_largest_height_second_largest_width_smallest(incoming),
            self.depth_largest_width_second_largest_height_smallest(incoming),
            self.height_largest_depth_second_largest_width_smallest(incoming),
            self.height_largest_width_second_largest_depth_smallest(incoming),
            self.width_largest_depth_second_largest_height_smallest(incoming),
            self.width_largest_height_second_largest_depth_smallest(incoming),
        ];
        let mut best = all_combinations[0];
        for i in 1..6
            invariant
                is_comparison(container_comparison_fn, heuristic_fn),
                all_combinations@ == self.splits(*incoming),
                best == best_of(container_comparison_fn, heuristic_fn, all_combinations@, i - 1),
                forall|k: int|
                    1 <= k < i ==> was_ranked(
                        container_comparison_fn,
                        heuristic_fn,
                        extents_of(#[trigger] all_combinations@[k]),
                        extents_of(
                            best_of(
                                container_comparison_fn,
                                heuristic_fn,
                                all_combinations@,
                                k - 1,
                            ),
                        ),
                    ),
        {
            best = more_suitable(container_comparison_fn, heuristic_fn, best, all_combinations[i]);
        }
        proof {
            lemma_best_is_a_candidate(
                container_comparison_fn,
                heuristic_fn,
                self.splits(*incoming),
                5,
            );
            let k = choose|k: int|
                0 <= k <= 5 && best == #[trigger] self.splits(*incoming)[k];
            lemma_split_conserves_volume(*self, *incoming, k);
        }
        let packed_location = PackedLocation {
            x: self.x,
            y: self.y,
            z: self.z,
            whd: WidthHeightDepth {
                width: incoming.width(),
                height: incoming.height(),
                depth: incoming.depth(),
            },
            x_axis_rotation: RotatedBy::ZeroDegrees,
            y_axis_rotation: RotatedBy::ZeroDegrees,
            z_axis_rotation: RotatedBy::ZeroDegrees,
        };
        Ok((packed_location, best))
    }

    /// Tells along which axis, if any, `incoming` is larger than the section.
    pub fn incoming_can_fit(&self, incoming: &RectToInsert) -> (outcome: Result<
        (),
        BinSectionError,
    >)
        ensures
            outcome is Ok <==> self.fits(*incoming),
            outcome matches Err(e) ==> self.fit_error(*incoming) == Some(e),
    {
        if incoming.width() > self.whd.width {
            return Err(BinSectionError::PlacementWiderThanBinSection);
        }
        if incoming.height() > self.whd.height {
            return Err(BinSectionError::PlacementTallerThanBinSection);
        }
        if incoming.depth() > self.whd.depth {
            return Err(BinSectionError::PlacementDeeperThanBinSection);
        }
        Ok(())
    }

    fn width_largest_height_second_largest_depth_smallest(&self, incoming: &RectToInsert) -> (split:
        [BinSection; 3])
        requires
            self.fits(*incoming),
            self.can_hold(*incoming),
        ensures
            split == self.splits(*incoming)[5],
    {
        [
            self.empty_space_directly_right(incoming),
            self.all_empty_space_above_excluding_behind(incoming),
            self.all_empty_space_behind(incoming),
        ]
    }

    fn width_largest_depth_second_largest_height_smallest(&self, incoming: &RectToInsert) -> (split:
        [BinSection; 3])
        requires
            self.fits(*incoming),
            self.can_hold(*incoming),
        ensures
            split == self.splits(*incoming)[4],
    {
        [
            self.empty_space_directly_right(incoming),
            self.all_empty_space_above(incoming),
            self.all_empty_space_behind_excluding_above(incoming),
        ]
    }

    fn height_largest_width_second_largest_depth_smallest(&self, incoming: &RectToInsert) -> (split:
        [BinSection; 3])
        requires
            self.fits(*incoming),
            self.can_hold(*incoming),
        ensures
            split == self.splits(*incoming)[3],
    {
        [
            self.all_empty_space_right_excluding_behind(incoming),
            self.empty_space_directly_above(incoming),
            self.all_empty_space_behind(incoming),
        ]
    }

    fn height_largest_depth_second_largest_width_smallest(&self, incoming: &RectToInsert) -> (split:
        [BinSection; 3])
        requires
            self.fits(*incoming),
            self.can_hold(*incoming),
        ensures
            split == self.splits(*incoming)[2],
    {
        [
            self.all_empty_space_right(incoming),
            self.empty_space_directly_above(incoming),
            self.all_empty_space_behind_excluding_right(incoming),
        ]
    }

    fn depth_largest_width_second_largest_height_smallest(&self, incoming: &RectToInsert) -> (split:
        [BinSection; 3])
        requires
            self.fits(*incoming),
            self.can_hold(*incoming),
        ensures
            split == self.splits(*incoming)[1],
    {
        [
            self.all_empty_space_right_excluding_above(incoming),
            self.all_empty_space_above(incoming),
            self.empty_space_directly_behind(incoming),
        ]
    }

    fn depth_largest_height_second_largest_width_smallest(&self, incoming: &RectToInsert) -> (split:
        [BinSection; 3])
        requires
            self.fits(*incoming),
            self.can_hold(*incoming),
        ensures
            split == self.splits(*incoming)[0],
    {
        [
            self.all_empty_space_right(incoming),
            self.all_empty_space_above_excluding_right(incoming),
            self.empty_space_directly_behind(incoming),
        ]
    }

    fn all_empty_space_above(&self, incoming: &RectToInsert) -> (strip: BinSection)
        requires
            self.fits(*incoming),
            self.can_hold(*incoming),
        ensures
            strip == self.strip_above(*incoming, self.whd.width, self.whd.depth),
    {
        BinSection::new_spread(
            self.x,
            self.y + incoming.height(),
            self.z,
            self.whd.width,
            self.whd.height - incoming.height(),
            self.whd.depth,
        )
    }

    fn all_empty_space_right(&self, incoming: &RectToInsert) -> (strip: BinSection)
        requires
            self.fits(*incoming),
            self.can_hold(*incoming),
        ensures
            strip == self.strip_right(*incoming, self.whd.height, self.whd.depth),
    {
        BinSection::new_spread(
            self.x + incoming.width(),
            self.y,
            self.z,
            self.whd.width - incoming.width(),
            self.whd.height,
            self.whd.depth,
        )
    }

    fn all_empty_space_behind(&self, incoming: &RectToInsert) -> (strip: BinSection)
        requires
            self.fits(*incoming),
            self.can_hold(*incoming),
        ensures
            strip == self.strip_behind(*incoming, self.whd.width, self.whd.height),
    {
        BinSection::new_spread(
            self.x,
            self.y,
            self.z + incoming.depth(),
            self.whd.width,
            self.whd.height,
            self.whd.depth - incoming.depth(),
        )
    }

    fn empty_space_directly_above(&self, incoming: &RectToInsert) -> (strip: BinSection)
        requires
            self.fits(*incoming),
            self.can_hold(*incoming),
        ensures
            strip == self.strip_above(*incoming, incoming.whd.width, incoming.whd.depth),
    {
        BinSection::new_spread(
            self.x,
            self.y + incoming.height(),
            self.z,
            incoming.width(),
            self.whd.height - incoming.height(),
            incoming.depth(),
        )
    }

    fn empty_space_directly_right(&self, incoming: &RectToInsert) -> (strip: BinSection)
        requires
            self.fits(*incoming),
            self.can_hold(*incoming),
        ensures
            strip == self.strip_right(*incoming, incoming.whd.height, incoming.whd.depth),
    {
        BinSection::new_spread(
            self.x + incoming.width(),
            self.y,
            self.z,
            self.whd.width - incoming.width(),
            incoming.height(),
            incoming.depth(),
        )
    }

    fn empty_space_directly_behind(&self, incoming: &RectToInsert) -> (strip: BinSection)
        requires
            self.fits(*incoming),
            self.can_hold(*incoming),
        ensures
            strip == self.strip_behind(*incoming, incoming.whd.width, incoming.whd.height),
    {
        BinSection::new(
            self.x,
            self.y,
            self.z + incoming.depth(),
            WidthHeightDepth {
                width: incoming.width(),
                height: incoming.height(),
                depth: self.whd.depth - incoming.depth(),
            },
        )
    }

    fn all_empty_space_above_excluding_right(&self, incoming: &RectToInsert) -> (strip: BinSection)
        requires
            self.fits(*incoming),
            self.can_hold(*incoming),
        ensures
            strip == self.strip_above(*incoming, incoming.whd.width, self.whd.depth),
    {
        BinSection::new(
            self.x,
            self.y + incoming.height(),
            self.z,
            WidthHeightDepth {
                width: incoming.width(),
                height: self.whd.height - incoming.height(),
                depth: self.whd.depth,
            },
        )
    }

    fn all_empty_space_above_excluding_behind(&self, incoming: &RectToInsert) -> (strip: BinSection)
        requires
            self.fits(*incoming),
            self.can_hold(*incoming),
        ensures
            strip == self.strip_above(*incoming, self.whd.width, incoming.whd.depth),
    {
        BinSection::new(
            self.x,
            self.y + incoming.height(),
            self.z,
            WidthHeightDepth {
                width: self.whd.width,
                height: self.whd.height - incoming.height(),
                depth: incoming.depth(),
            },
        )
    }

    fn all_empty_space_right_excluding_above(&self, incoming: &RectToInsert) -> (strip: BinSection)
        requires
            self.fits(*incoming),
            self.can_hold(*incoming),
        ensures
            strip == self.strip_right(*incoming, incoming.whd.height, self.whd.depth),
    {
        BinSection::new(
            self.x + incoming.width(),
            self.y,
            self.z,
            WidthHeightDepth {
                width: self.whd.width - incoming.width(),
                height: incoming.height(),
                depth: self.whd.depth,
            },
        )
    }

    fn all_empty_space_right_excluding_behind(&self, incoming: &RectToInsert) -> (strip: BinSection)
        requires
            self.fits(*incoming),
            self.can_hold(*incoming),
        ensures
            strip == self.strip_right(*incoming, self.whd.height, incoming.whd.depth),
    {
        BinSection::new(
            self.x + incoming.width(),
            self.y,
            self.z,
            WidthHeightDepth {
                width: self.whd.width - incoming.width(),
                height: self.whd.height,
                depth: incoming.depth(),
            },
        )
    }

    fn all_empty_space_behind_excluding_above(&self, incoming: &RectToInsert) -> (strip: BinSection)
        requires
            self.fits(*incoming),
            self.can_hold(*incoming),
        ensures
            strip == self.strip_behind(*incoming, self.whd.width, incoming.whd.height),
    {
        BinSection::new(
            self.x,
            self.y,
            self.z + incoming.depth(),
            WidthHeightDepth {
                width: self.whd.width,
                height: incoming.height(),
                depth: self.whd.depth - incoming.depth(),
            },
        )
    }

    fn all_empty_space_behind_excluding_right(&self, incoming: &RectToInsert) -> (strip: BinSection)
        requires
            self.fits(*incoming),
            self.can_hold(*incoming),
        ensures
            strip == self.strip_behind(*incoming, incoming.whd.width, self.whd.height),
    {
        BinSection::new(
            self.x,
            self.y,
            self.z + incoming.depth(),
            WidthHeightDepth {
                width: incoming.width(),
                height: self.whd.height,
                depth: self.whd.depth - incoming.depth(),
            },
        )
    }
}

/// Whichever of the six splits is taken, the three strips and the placed rectangle have
/// together the volume of the section.
pub proof fn lemma_split_conserves_volume(section: BinSection, incoming: RectToInsert, k: int)
    requires
        section.fits(incoming),
        0 <= k < 6,
    ensures
        ({
            let split = section.splits(incoming)[k];
            split[0].spec_volume() + split[1].spec_volume() + split[2].spec_volume()
                + incoming.whd.spec_volume() == section.spec_volume()
        }),
{
    let split = section.splits(incoming)[k];
    lemma_volume_bound(split[0].whd);
    lemma_volume_bound(split[1].whd);
    lemma_volume_bound(split[2].whd);
    lemma_volume_bound(incoming.whd);
    lemma_volume_bound(section.whd);
    let sw = section.whd.width as int;
    let sh = section.whd.height as int;
    let sd = section.whd.depth as int;
    let w = incoming.whd.width as int;
    let h = incoming.whd.height as int;
    let d = incoming.whd.depth as int;
    if k == 0 {
        lemma_cut_along_depth(w, h, sd - d, d);
        lemma_cut_along_height(w, sh - h, h, sd);
        lemma_cut_along_width(sw - w, w, sh, sd);
    } else if k == 1 {
        lemma_cut_along_depth(w, h, sd - d, d);
        lemma_cut_along_width(sw - w, w, h, sd);
        lemma_cut_along_height(sw, sh - h, h, sd);
    } else if k == 2 {
        lemma_cut_along_height(w, sh - h, h, d);
        lemma_cut_along_depth(w, sh, sd - d, d);
        lemma_cut_along_width(sw - w, w, sh, sd);
    } else if k == 3 {
        lemma_cut_along_height(w, sh - h, h, d);
        lemma_cut_along_width(sw - w, w, sh, d);
        lemma_cut_along_depth(sw, sh, sd - d, d);
    } else if k == 4 {
        lemma_cut_along_width(sw - w, w, h, d);
        lemma_cut_along_depth(sw, h, sd - d, d);
        lemma_cut_along_height(sw, sh - h, h, sd);
    } else {
        lemma_cut_along_width(sw - w, w, h, d);
        lemma_cut_along_height(sw, sh - h, h, d);
        lemma_cut_along_depth(sw, sh, sd - d, d);
    }
}

/// A box cut across its width has the volume of its two parts.
proof fn lemma_cut_along_width(w1: int, w2: int, h: int, d: int)
    ensures
        (w1 + w2) * h * d == w1 * h * d + w2 * h * d,
{
    assert((w1 + w2) * h * d == w1 * h * d + w2 * h * d) by (nonlinear_arith);
}

/// A box cut across its height has the volume of its two parts.
proof fn lemma_cut_along_height(w: int, h1: int, h2: int, d: int)
    ensures
        w * (h1 + h2) * d == w * h1 * d + w * h2 * d,
{
    assert(w * (h1 + h2) * d == w * h1 * d + w * h2 * d) by (nonlinear_arith);
}

/// A box cut across its depth has the volume of its two parts.
proof fn lemma_cut_along_depth(w: int, h: int, d1: int, d2: int)
    ensures
        w * h * (d1 + d2) == w * h * d1 + w * h * d2,
{
    assert(w * h * (d1 + d2) == w * h * d1 + w * h * d2) by (nonlinear_arith);
}

/// A strip of any of the six splits lies inside the section that was split, and so
/// ends at a point of the `u32` grid if the section does.
pub proof fn lemma_split_stays_inside(section: BinSection, incoming: RectToInsert, k: int, i: int)
    requires
        section.fits(incoming),
        section.in_coordinate_range(),
        0 <= k < 6,
        0 <= i < 3,
    ensures
        section.splits(incoming)[k][i].is_within(&section),
        section.splits(incoming)[k][i].in_coordinate_range(),
{
}

/// The three strips of any of the six splits and the placed rectangle share no cell
/// with one another, and the rectangle lies inside the section like the strips: with
/// the volumes adding up, they fill the section and nothing else.
pub proof fn lemma_split_is_a_partition(section: BinSection, incoming: RectToInsert, k: int)
    requires
        section.fits(incoming),
        section.in_coordinate_range(),
        0 <= k < 6,
    ensures
        ({
            let split = section.splits(incoming)[k];
            let taken = section.taken_by(incoming);
            &&& taken.is_within(&section)
            &&& split[0].is_disjoint_from(&split[1])
            &&& split[0].is_disjoint_from(&split[2])
            &&& split[1].is_disjoint_from(&split[2])
            &&& split[0].is_disjoint_from(&taken)
            &&& split[1].is_disjoint_from(&taken)
            &&& split[2].is_disjoint_from(&taken)
        }),
{
}

/// What shares no cell with a section shares none with a section inside it.
pub proof fn lemma_disjoint_from_part(part: BinSection, whole: BinSection, other: BinSection)
    requires
        part.is_within(&whole),
        other.is_disjoint_from(&whole),
    ensures
        other.is_disjoint_from(&part),
        part.is_disjoint_from(&other),
{
    lemma_volume_bound(part.whd);
    lemma_volume_bound(whole.whd);
    if whole.spec_volume() == 0 {
        let w = whole.whd.width as int;
        let h = whole.whd.height as int;
        let d = whole.whd.depth as int;
        assert(w == 0 || h == 0 || d == 0) by (nonlinear_arith)
            requires
                w * h * d == 0,
        ;
        let pw = part.whd.width as int;
        let ph = part.whd.height as int;
        let pd = part.whd.depth as int;
        assert(pw * ph * pd == 0) by (nonlinear_arith)
            requires
                pw == 0 || ph == 0 || pd == 0,
        ;
    }
}

/// How `comparison` ranks the candidate at `i` against the candidate at `j`.
pub open spec fn rank_between<H, C>(
    comparison: &C,
    heuristic: &H,
    candidates: Seq<[BinSection; 3]>,
    i: int,
    j: int,
) -> Ordering where
    H: Fn(WidthHeightDepth) -> u128,
    C: Fn([WidthHeightDepth; 3], [WidthHeightDepth; 3], &H) -> Ordering,
 {
    rank_of(comparison, heuristic, extents_of(candidates[i]), extents_of(candidates[j]))
}

/// `comparison` ranks the candidates as a total preorder does: one candidate is ranked
/// lower than another exactly when the other is ranked higher than it, and a candidate
/// that is ranked no lower than a second, which is ranked no lower than a third, is
/// ranked no lower than the third.
#[verifier::opaque]
pub open spec fn ranks_as_a_preorder<H, C>(
    comparison: &C,
    heuristic: &H,
    candidates: Seq<[BinSection; 3]>,
) -> bool where
    H: Fn(WidthHeightDepth) -> u128,
    C: Fn([WidthHeightDepth; 3], [WidthHeightDepth; 3], &H) -> Ordering,
 {
    &&& forall|i: int, j: int|
        0 <= i < candidates.len() && 0 <= j < candidates.len() ==> (#[trigger] rank_between(
            comparison,
            heuristic,
            candidates,
            i,
            j,
        ) is Less <==> rank_between(comparison, heuristic, candidates, j, i) is Greater)
    &&& forall|i: int, j: int, k: int|
        0 <= i < candidates.len() && 0 <= j < candidates.len() && 0 <= k < candidates.len() && !(
        #[trigger] rank_between(comparison, heuristic, candidates, i, j) is Less) && !(
        #[trigger] rank_between(comparison, heuristic, candidates, j, k) is Less) ==> !(
        rank_between(comparison, heuristic, candidates, i, k) is Less)
}

/// Under a total preorder, a candidate is ranked lower than another exactly when the
/// other is ranked higher than it.
pub proof fn lemma_rank_flips<H, C>(
    comparison: &C,
    heuristic: &H,
    candidates: Seq<[BinSection; 3]>,
    i: int,
    j: int,
) where
    H: Fn(WidthHeightDepth) -> u128,
    C: Fn([WidthHeightDepth; 3], [WidthHeightDepth; 3], &H) -> Ordering,

    requires
        ranks_as_a_preorder(comparison, heuristic, candidates),
        0 <= i < candidates.len(),
        0 <= j < candidates.len(),
    ensures
        rank_between(comparison, heuristic, candidates, i, j) is Less <==> rank_between(
            comparison,
            heuristic,
            candidates,
            j,
            i,
        ) is Greater,
{
    reveal(ranks_as_a_preorder);
}

/// Under a total preorder, being ranked no lower carries over from one pair of
/// candidates to the next.
pub proof fn lemma_rank_chains<H, C>(
    comparison: &C,
    heuristic: &H,
    candidates: Seq<[BinSection; 3]>,
    i: int,
    j: int,
    k: int,
) where
    H: Fn(WidthHeightDepth) -> u128,
    C: Fn([WidthHeightDepth; 3], [WidthHeightDepth; 3], &H) -> Ordering,

    requires
        ranks_as_a_preorder(comparison, heuristic, candidates),
        0 <= i < candidates.len(),
        0 <= j < candidates.len(),
        0 <= k < candidates.len(),
        !(rank_between(comparison, heuristic, candidates, i, j) is Less),
        !(rank_between(comparison, heuristic, candidates, j, k) is Less),
    ensures
        !(rank_between(comparison, heuristic, candidates, i, k) is Less),
{
    reveal(ranks_as_a_preorder);
}

/// Of `candidates[0]`, ..., `candidates[last]`, none outranks `candidates[k]`, and
/// those after it are ranked lower.
pub open spec fn is_last_greatest<H, C>(
    comparison: &C,
    heuristic: &H,
    candidates: Seq<[BinSection; 3]>,
    last: int,
    k: int,
) -> bool where
    H: Fn(WidthHeightDepth) -> u128,
    C: Fn([WidthHeightDepth; 3], [WidthHeightDepth; 3], &H) -> Ordering,
 {
    &&& 0 <= k <= last
    &&& forall|i: int|
        0 <= i <= last ==> !(#[trigger] rank_between(comparison, heuristic, candidates, i, k)
            is Greater)
    &&& forall|i: int|
        k < i <= last ==> #[trigger] rank_between(comparison, heuristic, candidates, i, k) is Less
}

/// Under a comparison that is a total preorder, the best candidate is the last of the
/// candidates that none outranks: it is what stands at the end of the list after a
/// stable sort from the lowest rank to the highest.
pub proof fn lemma_best_is_greatest<H, C>(
    comparison: &C,
    heuristic: &H,
    candidates: Seq<[BinSection; 3]>,
    last: int,
) -> (k: int) where
    H: Fn(WidthHeightDepth) -> u128,
    C: Fn([WidthHeightDepth; 3], [WidthHeightDepth; 3], &H) -> Ordering,

    requires
        0 <= last < candidates.len(),
        ranks_as_a_preorder(comparison, heuristic, candidates),
    ensures
        best_of(comparison, heuristic, candidates, last) == candidates[k],
        is_last_greatest(comparison, heuristic, candidates, last, k),
    decreases last,
{
    if last == 0 {
        lemma_rank_flips(comparison, heuristic, candidates, 0, 0);
        0
    } else {
        let k = lemma_best_is_greatest(comparison, heuristic, candidates, last - 1);
        let earlier = best_of(comparison, heuristic, candidates, last - 1);
        assert(best_of(comparison, heuristic, candidates, last) == preferred(
            comparison,
            heuristic,
            earlier,
            candidates[last],
        ));
        if rank_between(comparison, heuristic, candidates, last, k) is Less {
            lemma_rank_flips(comparison, heuristic, candidates, last, k);
            k
        } else {
            lemma_rank_flips(comparison, heuristic, candidates, last, last);
            assert forall|i: int| 0 <= i <= last implies !(#[trigger] rank_between(
                comparison,
                heuristic,
                candidates,
                i,
                last,
            ) is Greater) by {
                if i < last {
                    // `last` is ranked no lower than `k`, and `k` no lower than `i`.
                    lemma_rank_flips(comparison, heuristic, candidates, k, i);
                    lemma_rank_chains(comparison, heuristic, candidates, last, k, i);
                    lemma_rank_flips(comparison, heuristic, candidates, last, i);
                }
            }
            last
        }
    }
}

/// The order by the smallest box is a total preorder, under any heuristic.
pub proof fn lemma_smallest_box_order_is_a_preorder<H: Fn(WidthHeightDepth) -> u128>(
    heuristic: &H,
    a: [WidthHeightDepth; 3],
    b: [WidthHeightDepth; 3],
    c: [WidthHeightDepth; 3],
)
    ensures
        smallest_box_order(heuristic, a, a) is Equal,
        smallest_box_order(heuristic, a, b) is Less <==> smallest_box_order(
            heuristic,
            b,
            a,
        ) is Greater,
        !(smallest_box_order(heuristic, a, b) is Less) && !(smallest_box_order(
            heuristic,
            b,
            c,
        ) is Less) ==> !(smallest_box_order(heuristic, a, c) is Less),
{
}

} // verus!
