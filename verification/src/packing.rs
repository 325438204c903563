//! Placing groups of rectangles into bins.

use crate::bin_section::BinSection;
use crate::bin_section::is_comparison;
use crate::bin_section::lemma_best_is_a_candidate;
use crate::bin_section::lemma_split_stays_inside;
use crate::box_size_heuristics::is_heuristic;
use crate::box_size_heuristics::score;
use crate::box_size_heuristics::score_of;
use crate::grouped_rects_to_place::GroupedRectsToPlace;
use crate::grouped_rects_to_place::GroupedRectsView;
use crate::identifiers::duplicate;
use crate::identifiers::is_identifier;
use crate::identifiers::keys_in_order;
use crate::identifiers::keys_of;
use crate::identifiers::same;
use crate::packed_location::PackedLocation;
use crate::packing_laws::is_member_from;
use crate::packing_laws::lemma_groups_are_together;
use crate::packing_laws::lemma_locations_after_all;
use crate::packing_laws::lemma_packing_is_sound;
use crate::packing_laws::sections_are_tidy;
use crate::packing_laws::wholes_of;
use crate::rect_to_insert::RectToInsert;
use crate::stable_order::indices;
use crate::stable_order::lemma_stable_order;
use crate::stable_order::reordered;
use crate::stable_order::stable_order;
use crate::stable_order::stable_order_of;
use crate::target_bin::TargetBin;
use crate::target_bin::all_in_coordinate_range;
use crate::target_bin::keep_nonempty;
use crate::width_height_depth::WidthHeightDepth;
use core::cmp::Ordering;
use std::collections::BTreeMap;
use vstd::prelude::*;

verus! {

broadcast use vstd::std_specs::btree::group_btree_axioms;

/// The place in `sections` of the section that takes `rect`: the last section of the
/// list that the rectangle fits in, if it fits in any.
pub open spec fn section_for(sections: Seq<BinSection>, rect: RectToInsert) -> Option<int>
    decreases sections.len(),
{
    if sections.len() == 0 {
        None
    } else if sections.last().fits(rect) {
        Some(sections.len() - 1)
    } else {
        section_for(sections.drop_last(), rect)
    }
}

/// The section that takes `rect` is one it fits in, and it fits in none of the
/// sections after that one.
pub proof fn lemma_section_for(sections: Seq<BinSection>, rect: RectToInsert)
    ensures
        match section_for(sections, rect) {
            Some(k) => {
                &&& 0 <= k < sections.len()
                &&& sections[k].fits(rect)
                &&& forall|j: int| k < j < sections.len() ==> !(#[trigger] sections[j]).fits(rect)
            },
            None => forall|j: int| 0 <= j < sections.len() ==> !(#[trigger] sections[j]).fits(rect),
        },
    decreases sections.len(),
{
    if sections.len() > 0 && !sections.last().fits(rect) {
        let shorter = sections.drop_last();
        lemma_section_for(shorter, rect);
        match section_for(shorter, rect) {
            Some(k) => {
                assert(shorter[k] == sections[k]);
                assert forall|j: int| k < j < sections.len() implies !(#[trigger] sections[j]).fits(
                    rect,
                ) by {
                    if j < shorter.len() {
                        assert(shorter[j] == sections[j]);
                    }
                }
            },
            None => {
                assert forall|j: int| 0 <= j < sections.len() implies !(#[trigger] sections[j]).fits(
                    rect,
                ) by {
                    if j < shorter.len() {
                        assert(shorter[j] == sections[j]);
                    }
                }
            },
        }
    }
}

/// Looks for the section that takes `rect`, from the end of the list.
fn find_section(sections: &Vec<BinSection>, rect: &RectToInsert) -> (found: Option<usize>)
    ensures
        match found {
            Some(k) => k < sections@.len() && section_for(sections@, *rect) == Some(k as int),
            None => section_for(sections@, *rect) is None,
        },
{
    let mut k: usize = sections.len();
    assert(sections@.take(k as int) == sections@);
    while k > 0
        invariant
            k <= sections@.len(),
            section_for(sections@, *rect) == section_for(sections@.take(k as int), *rect),
        decreases k,
    {
        assert(sections@.take(k as int).drop_last() == sections@.take(k - 1));
        assert(sections@.take(k as int).last() == sections@[k - 1]);
        k = k - 1;
        if sections[k].incoming_can_fit(rect).is_ok() {
            return Some(k);
        }
    }
    None
}

/// The scores of the sections of a list.
pub open spec fn scores_of<H: Fn(WidthHeightDepth) -> u128>(
    sections: Seq<BinSection>,
    heuristic: &H,
) -> Seq<u128> {
    sections.map_values(|section: BinSection| score_of(heuristic, section.whd))
}

/// The sections of a list from the largest to the smallest; sections of equal score
/// keep their order.
pub open spec fn largest_first<H: Fn(WidthHeightDepth) -> u128>(
    sections: Seq<BinSection>,
    heuristic: &H,
) -> Seq<BinSection> {
    reordered(sections, stable_order(scores_of(sections, heuristic), true))
}

/// What a split adds to the free sections of a bin: its sections that are not empty,
/// from the largest to the smallest.
///
/// Sections are tried from the end of the list, so that of the sections of one split
/// the smallest is tried first.
pub open spec fn leftovers<H: Fn(WidthHeightDepth) -> u128>(
    split: [BinSection; 3],
    heuristic: &H,
) -> Seq<BinSection> {
    keep_nonempty(largest_first(split@, heuristic))
}

/// Sorts the three sections of a split from the largest to the smallest.
fn sort_by_size_largest_to_smallest<H: Fn(WidthHeightDepth) -> u128>(
    items: &mut [BinSection; 3],
    box_size_heuristic: &H,
)
    requires
        is_heuristic(box_size_heuristic),
    ensures
        final(items)@ == largest_first(old(items)@, box_size_heuristic),
{
    let mut scores: Vec<u128> = Vec::new();
    for i in 0..3
        invariant
            is_heuristic(box_size_heuristic),
            scores@ == scores_of(items@.take(i as int), box_size_heuristic),
    {
        scores.push(score(box_size_heuristic, items[i].whd));
        assert(scores@ =~= scores_of(items@.take(i + 1), box_size_heuristic));
    }
    assert(items@.take(3) == items@);
    let order = stable_order_of(&scores, true);
    let sorted = [items[order[0]], items[order[1]], items[order[2]]];
    assert(sorted@ =~= largest_first(items@, box_size_heuristic));
    *items = sorted;
}

/// The free sections of a bin after `rect` was placed into it: the section that took
/// the rectangle is gone, and what the split left of it stands at the end of the list.
pub open spec fn sections_after<H, C>(
    sections: Seq<BinSection>,
    rect: RectToInsert,
    comparison: &C,
    heuristic: &H,
) -> Seq<BinSection> where
    H: Fn(WidthHeightDepth) -> u128,
    C: Fn([WidthHeightDepth; 3], [WidthHeightDepth; 3], &H) -> Ordering,

    recommends
        section_for(sections, rect) is Some,
{
    let k = section_for(sections, rect).unwrap();
    sections.remove(k) + leftovers(sections[k].chosen_split(rect, comparison, heuristic), heuristic)
}

/// Where `rect` lands in a bin with the free sections `sections`: at the origin of the
/// section that takes it.
pub open spec fn location_in(sections: Seq<BinSection>, rect: RectToInsert) -> PackedLocation
    recommends
        section_for(sections, rect) is Some,
{
    let section = sections[section_for(sections, rect).unwrap()];
    PackedLocation::unrotated(section.x, section.y, section.z, rect.whd)
}

/// Placing a rectangle keeps the free sections of a bin inside the `u32` grid.
pub proof fn lemma_sections_after_in_range<H, C>(
    sections: Seq<BinSection>,
    rect: RectToInsert,
    comparison: &C,
    heuristic: &H,
) where
    H: Fn(WidthHeightDepth) -> u128,
    C: Fn([WidthHeightDepth; 3], [WidthHeightDepth; 3], &H) -> Ordering,

    requires
        all_in_coordinate_range(sections),
        section_for(sections, rect) is Some,
    ensures
        all_in_coordinate_range(sections_after(sections, rect, comparison, heuristic)),
{
    lemma_section_for(sections, rect);
    let k = section_for(sections, rect).unwrap();
    let section = sections[k];
    let split = section.chosen_split(rect, comparison, heuristic);
    lemma_best_is_a_candidate(comparison, heuristic, section.splits(rect), 5);
    let which = choose|which: int| 0 <= which <= 5 && split == #[trigger] section.splits(rect)[which];
    let order = stable_order(scores_of(split@, heuristic), true);
    lemma_stable_order(scores_of(split@, heuristic), true);
    let sorted = largest_first(split@, heuristic);
    let kept = leftovers(split, heuristic);
    let after = sections_after(sections, rect, comparison, heuristic);
    assert forall|i: int| 0 <= i < after.len() implies (#[trigger] after[i]).in_coordinate_range() by {
        if i < sections.len() - 1 {
            if i < k {
                assert(after[i] == sections[i]);
            } else {
                assert(after[i] == sections[i + 1]);
            }
        } else {
            let j = i - (sections.len() - 1);
            assert(after[i] == kept[j]);
            assert(kept.contains(kept[j]));
            sorted.lemma_filter_contains_rev(|s: BinSection| s.spec_volume() > 0, kept[j]);
            let t = choose|t: int| 0 <= t < sorted.len() && sorted[t] == kept[j];
            lemma_split_stays_inside(section, rect, which, order[t]);
        }
    }
}

/// Places `rect` into the last free section of the bin that it fits in, if there is
/// one: the section leaves the list, and the sections that the split made of it, but
/// for the empty ones, are added at its end from the largest to the smallest.
fn place_rect_in_bin<H, C>(
    bin: &mut TargetBin,
    rect: &RectToInsert,
    more_suitable_containers_fn: &C,
    box_size_heuristic: &H,
) -> (location: Option<PackedLocation>) where
    H: Fn(WidthHeightDepth) -> u128,
    C: Fn([WidthHeightDepth; 3], [WidthHeightDepth; 3], &H) -> Ordering,

    requires
        is_heuristic(box_size_heuristic),
        is_comparison(more_suitable_containers_fn, box_size_heuristic),
        all_in_coordinate_range(old(bin)@.sections),
    ensures
        final(bin)@.max_extent() == old(bin)@.max_extent(),
        all_in_coordinate_range(final(bin)@.sections),
        match location {
            Some(location) => {
                &&& section_for(old(bin)@.sections, *rect) is Some
                &&& location == location_in(old(bin)@.sections, *rect)
                &&& final(bin)@.sections == sections_after(
                    old(bin)@.sections,
                    *rect,
                    more_suitable_containers_fn,
                    box_size_heuristic,
                )
            },
            None => {
                &&& section_for(old(bin)@.sections, *rect) is None
                &&& final(bin)@.sections == old(bin)@.sections
            },
        },
{
    let found = find_section(bin.available_bin_sections(), rect);
    match found {
        None => None,
        Some(k) => {
            proof {
                lemma_section_for(bin@.sections, *rect);
                lemma_sections_after_in_range(
                    bin@.sections,
                    *rect,
                    more_suitable_containers_fn,
                    box_size_heuristic,
                );
            }
            let section = bin.available_bin_sections()[k];
            match section.try_place(rect, more_suitable_containers_fn, box_size_heuristic) {
                Err(_) => None,
                Ok((placement, mut new_sections)) => {
                    sort_by_size_largest_to_smallest(&mut new_sections, box_size_heuristic);
                    bin.remove_filled_section(k);
                    bin.add_new_sections(new_sections);
                    Some(placement)
                },
            }
        },
    }
}

/// The rectangles behind the identifiers `members`.
pub open spec fn rects_of<RectToPlaceId>(
    rects: Map<RectToPlaceId, RectToInsert>,
    members: Seq<RectToPlaceId>,
) -> Seq<RectToInsert> {
    members.map_values(|id: RectToPlaceId| rects[id])
}

/// The free sections of a bin after the rectangles `rects[from]`, `rects[from + 1]`,
/// ... were placed into it one after another; `None` if one of them, when its turn
/// comes, fits in no free section.
pub open spec fn sections_after_all<H, C>(
    sections: Seq<BinSection>,
    rects: Seq<RectToInsert>,
    from: int,
    comparison: &C,
    heuristic: &H,
) -> Option<Seq<BinSection>> where
    H: Fn(WidthHeightDepth) -> u128,
    C: Fn([WidthHeightDepth; 3], [WidthHeightDepth; 3], &H) -> Ordering,

    decreases rects.len() - from,
{
    if from < 0 || from >= rects.len() {
        Some(sections)
    } else if section_for(sections, rects[from]) is None {
        None
    } else {
        sections_after_all(
            sections_after(sections, rects[from], comparison, heuristic),
            rects,
            from + 1,
            comparison,
            heuristic,
        )
    }
}

/// The bin with the free sections `sections` has room for all of `rects`, placed one
/// after another.
pub open spec fn group_fits<H, C>(
    sections: Seq<BinSection>,
    rects: Seq<RectToInsert>,
    comparison: &C,
    heuristic: &H,
) -> bool where
    H: Fn(WidthHeightDepth) -> u128,
    C: Fn([WidthHeightDepth; 3], [WidthHeightDepth; 3], &H) -> Ordering,
 {
    sections_after_all(sections, rects, 0, comparison, heuristic) is Some
}

/// The recorded locations after the rectangles `members[from]`, `members[from + 1]`,
/// ... were placed one after another into the bin `bin`, whose free sections are
/// `sections`. The packing hands over members of which no place is recorded yet.
pub open spec fn locations_after_all<RectToPlaceId, BinId, H, C>(
    locations: Map<RectToPlaceId, (BinId, PackedLocation)>,
    bin: BinId,
    sections: Seq<BinSection>,
    members: Seq<RectToPlaceId>,
    from: int,
    rects: Map<RectToPlaceId, RectToInsert>,
    comparison: &C,
    heuristic: &H,
) -> Map<RectToPlaceId, (BinId, PackedLocation)> where
    H: Fn(WidthHeightDepth) -> u128,
    C: Fn([WidthHeightDepth; 3], [WidthHeightDepth; 3], &H) -> Ordering,

    decreases members.len() - from,
{
    if from < 0 || from >= members.len() {
        locations
    } else {
        let rect = rects[members[from]];
        locations_after_all(
            locations.insert(members[from], (bin, location_in(sections, rect))),
            bin,
            sections_after(sections, rect, comparison, heuristic),
            members,
            from + 1,
            rects,
            comparison,
            heuristic,
        )
    }
}

/// Whether the bin has room for the whole group: its rectangles are placed into the
/// bin one after another, and the answer is `false` as soon as one of them fits in
/// none of the sections that are free by then.
///
/// The bin is the caller's copy: the bin that it was copied from is not changed.
pub fn can_fit_entire_group_into_bin<RectToPlaceId, GroupId, H, C>(
    bin: TargetBin,
    group: &Vec<RectToPlaceId>,
    rects_to_place: &GroupedRectsToPlace<RectToPlaceId, GroupId>,
    box_size_heuristic: &H,
    more_suitable_containers_fn: &C,
) -> (fits: bool) where
    RectToPlaceId: Clone + Ord,
    GroupId: Clone + Ord,
    H: Fn(WidthHeightDepth) -> u128,
    C: Fn([WidthHeightDepth; 3], [WidthHeightDepth; 3], &H) -> Ordering,

    requires
        is_identifier::<RectToPlaceId>(),
        is_heuristic(box_size_heuristic),
        is_comparison(more_suitable_containers_fn, box_size_heuristic),
        all_in_coordinate_range(bin@.sections),
        forall|i: int| 0 <= i < group@.len() ==> rects_to_place@.rects.contains_key(group@[i]),
    ensures
        fits == group_fits(
            bin@.sections,
            rects_of(rects_to_place@.rects, group@),
            more_suitable_containers_fn,
            box_size_heuristic,
        ),
{
    let mut trial = bin;
    let ghost rects = rects_of(rects_to_place@.rects, group@);
    for i in it: 0..group.len()
        invariant
            is_identifier::<RectToPlaceId>(),
            is_heuristic(box_size_heuristic),
            is_comparison(more_suitable_containers_fn, box_size_heuristic),
            all_in_coordinate_range(trial@.sections),
            forall|i: int| 0 <= i < group@.len() ==> rects_to_place@.rects.contains_key(group@[i]),
            rects == rects_of(rects_to_place@.rects, group@),
            sections_after_all(
                bin@.sections,
                rects,
                0,
                more_suitable_containers_fn,
                box_size_heuristic,
            ) == sections_after_all(
                trial@.sections,
                rects,
                it.index(),
                more_suitable_containers_fn,
                box_size_heuristic,
            ),
    {
        let rect = rects_to_place.rect(&group[i]).unwrap();
        assert(rects[it.index()] == *rect);
        if place_rect_in_bin(
            &mut trial,
            rect,
            more_suitable_containers_fn,
            box_size_heuristic,
        ).is_none() {
            return false;
        }
    }
    true
}

/// Places the rectangles of a group into a bin that has room for all of them, and
/// records where each one landed.
fn place_group_in_bin<RectToPlaceId, BinId, GroupId, H, C>(
    bin: &mut TargetBin,
    bin_id: &BinId,
    group: &Vec<RectToPlaceId>,
    rects_to_place: &GroupedRectsToPlace<RectToPlaceId, GroupId>,
    packed_locations: &mut BTreeMap<RectToPlaceId, (BinId, PackedLocation)>,
    box_size_heuristic: &H,
    more_suitable_containers_fn: &C,
) where
    RectToPlaceId: Clone + Ord,
    BinId: Clone + Ord,
    GroupId: Clone + Ord,
    H: Fn(WidthHeightDepth) -> u128,
    C: Fn([WidthHeightDepth; 3], [WidthHeightDepth; 3], &H) -> Ordering,

    requires
        is_identifier::<RectToPlaceId>(),
        is_identifier::<BinId>(),
        is_heuristic(box_size_heuristic),
        is_comparison(more_suitable_containers_fn, box_size_heuristic),
        all_in_coordinate_range(old(bin)@.sections),
        forall|i: int| 0 <= i < group@.len() ==> rects_to_place@.rects.contains_key(group@[i]),
        group_fits(
            old(bin)@.sections,
            rects_of(rects_to_place@.rects, group@),
            more_suitable_containers_fn,
            box_size_heuristic,
        ),
    ensures
        final(bin)@.max_extent() == old(bin)@.max_extent(),
        all_in_coordinate_range(final(bin)@.sections),
        Some(final(bin)@.sections) == sections_after_all(
            old(bin)@.sections,
            rects_of(rects_to_place@.rects, group@),
            0,
            more_suitable_containers_fn,
            box_size_heuristic,
        ),
        final(packed_locations)@ == locations_after_all(
            old(packed_locations)@,
            *bin_id,
            old(bin)@.sections,
            group@,
            0,
            rects_to_place@.rects,
            more_suitable_containers_fn,
            box_size_heuristic,
        ),
{
    let ghost rects = rects_of(rects_to_place@.rects, group@);
    let ghost sections = sections_after_all(
        bin@.sections,
        rects,
        0,
        more_suitable_containers_fn,
        box_size_heuristic,
    );
    let ghost locations = locations_after_all(
        packed_locations@,
        *bin_id,
        bin@.sections,
        group@,
        0,
        rects_to_place@.rects,
        more_suitable_containers_fn,
        box_size_heuristic,
    );
    for i in it: 0..group.len()
        invariant
            is_identifier::<RectToPlaceId>(),
            is_identifier::<BinId>(),
            is_heuristic(box_size_heuristic),
            is_comparison(more_suitable_containers_fn, box_size_heuristic),
            bin@.max_extent() == old(bin)@.max_extent(),
            all_in_coordinate_range(bin@.sections),
            forall|i: int| 0 <= i < group@.len() ==> rects_to_place@.rects.contains_key(group@[i]),
            rects == rects_of(rects_to_place@.rects, group@),
            sections is Some,
            sections == sections_after_all(
                bin@.sections,
                rects,
                it.index(),
                more_suitable_containers_fn,
                box_size_heuristic,
            ),
            locations == locations_after_all(
                packed_locations@,
                *bin_id,
                bin@.sections,
                group@,
                it.index(),
                rects_to_place@.rects,
                more_suitable_containers_fn,
                box_size_heuristic,
            ),
    {
        let rect = rects_to_place.rect(&group[i]).unwrap();
        match place_rect_in_bin(bin, rect, more_suitable_containers_fn, box_size_heuristic) {
            Some(placement) => {
                packed_locations.insert(duplicate(&group[i]), (duplicate(bin_id), placement));
            },
            None => {},
        }
    }
}

/// The scores of the bins `ids`, each by the extent of the whole bin.
pub open spec fn bin_scores<BinId, H: Fn(WidthHeightDepth) -> u128>(
    bins: Map<BinId, TargetBin>,
    ids: Seq<BinId>,
    heuristic: &H,
) -> Seq<u128> {
    ids.map_values(|id: BinId| score_of(heuristic, bins[id]@.max_extent()))
}

/// The order in which the bins are tried: from the smallest to the largest, and by
/// their identifiers among bins of equal score.
pub open spec fn bin_order<BinId, H: Fn(WidthHeightDepth) -> u128>(
    bins: Map<BinId, TargetBin>,
    heuristic: &H,
) -> Seq<BinId> {
    let ids = keys_in_order(bins);
    reordered(ids, stable_order(bin_scores(bins, ids, heuristic), false))
}

/// The identifiers of the bins, from the smallest bin to the largest.
fn sort_bins_smallest_to_largest<BinId: Clone + Ord, H: Fn(WidthHeightDepth) -> u128>(
    bins: &BTreeMap<BinId, TargetBin>,
    box_size_heuristic: &H,
) -> (sorted: Vec<BinId>)
    requires
        is_identifier::<BinId>(),
        is_heuristic(box_size_heuristic),
    ensures
        sorted@ == bin_order(bins@, box_size_heuristic),
        forall|t: int| 0 <= t < sorted@.len() ==> bins@.contains_key(#[trigger] sorted@[t]),
{
    let ids = keys_of(bins);
    let mut scores: Vec<u128> = Vec::new();
    for i in 0..ids.len()
        invariant
            is_identifier::<BinId>(),
            is_heuristic(box_size_heuristic),
            ids@.to_set() == bins@.dom(),
            scores@ == bin_scores(bins@, ids@.take(i as int), box_size_heuristic),
    {
        assert(ids@.contains(ids@[i as int]));
        assert(bins@.dom().contains(ids@[i as int]));
        let bin = bins.get(&ids[i]).unwrap();
        scores.push(score(box_size_heuristic, bin.max_extent()));
        assert(scores@ =~= bin_scores(bins@, ids@.take(i + 1), box_size_heuristic));
    }
    assert(ids@.take(ids@.len() as int) == ids@);
    let order = stable_order_of(&scores, false);
    let mut sorted: Vec<BinId> = Vec::new();
    for t in 0..order.len()
        invariant
            is_identifier::<BinId>(),
            ids@.to_set() == bins@.dom(),
            order@.len() == ids@.len(),
            forall|p: int| 0 <= p < order@.len() ==> #[trigger] order@[p] < ids@.len(),
            sorted@ == reordered(ids@, indices(order@)).take(t as int),
            forall|p: int| 0 <= p < sorted@.len() ==> bins@.contains_key(#[trigger] sorted@[p]),
    {
        let id = duplicate(&ids[order[t]]);
        assert(ids@.contains(id));
        assert(bins@.dom().contains(id));
        sorted.push(id);
        assert(sorted@ =~= reordered(ids@, indices(order@)).take(t + 1));
    }
    assert(reordered(ids@, indices(order@)).take(order@.len() as int) == reordered(
        ids@,
        indices(order@),
    ));
    sorted
}

/// The size of a group: the sum of the scores of its rectangles.
pub open spec fn group_score<RectToPlaceId, H: Fn(WidthHeightDepth) -> u128>(
    rects: Map<RectToPlaceId, RectToInsert>,
    members: Seq<RectToPlaceId>,
    heuristic: &H,
) -> nat
    decreases members.len(),
{
    if members.len() == 0 {
        0
    } else {
        group_score(rects, members.drop_last(), heuristic) + score_of(
            heuristic,
            rects[members.last()].whd,
        ) as nat
    }
}

/// The sizes of the groups `groups`.
pub open spec fn group_scores<RectToPlaceId, H: Fn(WidthHeightDepth) -> u128>(
    rects: Map<RectToPlaceId, RectToInsert>,
    groups: Seq<Seq<RectToPlaceId>>,
    heuristic: &H,
) -> Seq<u128> {
    groups.map_values(|members: Seq<RectToPlaceId>| group_score(rects, members, heuristic) as u128)
}

/// The size of every group of the registry fits in 128 bits.
pub open spec fn group_scores_fit<RectToPlaceId, GroupId, H: Fn(WidthHeightDepth) -> u128>(
    registry: GroupedRectsView<RectToPlaceId, GroupId>,
    heuristic: &H,
) -> bool {
    &&& forall|id: RectToPlaceId|
        registry.ungrouped.contains_key(id) ==> group_score(
            registry.rects,
            #[trigger] registry.ungrouped[id],
            heuristic,
        ) <= u128::MAX
    &&& forall|id: GroupId|
        registry.grouped.contains_key(id) ==> group_score(
            registry.rects,
            #[trigger] registry.grouped[id],
            heuristic,
        ) <= u128::MAX
}

/// The order in which the groups are placed: from the largest to the smallest, and in
/// the order of the registry among groups of equal size.
pub open spec fn group_order<RectToPlaceId, GroupId, H: Fn(WidthHeightDepth) -> u128>(
    registry: GroupedRectsView<RectToPlaceId, GroupId>,
    heuristic: &H,
) -> Seq<Seq<RectToPlaceId>> {
    let groups = registry.groups_in_order();
    reordered(groups, stable_order(group_scores(registry.rects, groups, heuristic), true))
}

/// The size of a part of a group is at most the size of the group.
pub proof fn lemma_group_score_grows<RectToPlaceId, H: Fn(WidthHeightDepth) -> u128>(
    rects: Map<RectToPlaceId, RectToInsert>,
    members: Seq<RectToPlaceId>,
    count: int,
    heuristic: &H,
)
    requires
        0 <= count <= members.len(),
    ensures
        group_score(rects, members.take(count), heuristic) <= group_score(
            rects,
            members,
            heuristic,
        ),
    decreases members.len() - count,
{
    if count < members.len() {
        lemma_group_score_grows(rects, members, count + 1, heuristic);
        assert(members.take(count + 1).drop_last() == members.take(count));
    } else {
        assert(members.take(count) == members);
    }
}

/// A group of rectangles that each score `bound` at most scores at most `bound` times
/// the number of its members.
pub proof fn lemma_group_score_bound<RectToPlaceId, H: Fn(WidthHeightDepth) -> u128>(
    rects: Map<RectToPlaceId, RectToInsert>,
    members: Seq<RectToPlaceId>,
    heuristic: &H,
    bound: nat,
)
    requires
        forall|i: int|
            0 <= i < members.len() ==> score_of(heuristic, rects[#[trigger] members[i]].whd)
                <= bound,
    ensures
        group_score(rects, members, heuristic) <= members.len() * bound,
    decreases members.len(),
{
    if members.len() > 0 {
        let shorter = members.drop_last();
        assert forall|i: int| 0 <= i < shorter.len() implies score_of(
            heuristic,
            rects[#[trigger] shorter[i]].whd,
        ) <= bound by {
            assert(shorter[i] == members[i]);
        }
        lemma_group_score_bound(rects, shorter, heuristic, bound);
        assert(members[members.len() - 1] == members.last());
        assert(shorter.len() * bound + bound == members.len() * bound) by (nonlinear_arith)
            requires
                shorter.len() + 1 == members.len(),
        ;
    } else {
        assert(members.len() * bound == 0) by (nonlinear_arith)
            requires
                members.len() == 0,
        ;
    }
}

/// Adds up the scores of the rectangles of a group.
fn group_size<RectToPlaceId, GroupId, H>(
    members: &Vec<RectToPlaceId>,
    incoming_groups: &GroupedRectsToPlace<RectToPlaceId, GroupId>,
    box_size_heuristic: &H,
) -> (size: u128) where
    RectToPlaceId: Clone + Ord,
    GroupId: Clone + Ord,
    H: Fn(WidthHeightDepth) -> u128,

    requires
        is_identifier::<RectToPlaceId>(),
        is_heuristic(box_size_heuristic),
        forall|i: int| 0 <= i < members@.len() ==> incoming_groups@.rects.contains_key(members@[i]),
        group_score(incoming_groups@.rects, members@, box_size_heuristic) <= u128::MAX,
    ensures
        size == group_score(incoming_groups@.rects, members@, box_size_heuristic),
{
    let mut size: u128 = 0;
    for i in 0..members.len()
        invariant
            is_identifier::<RectToPlaceId>(),
            is_heuristic(box_size_heuristic),
            forall|i: int|
                0 <= i < members@.len() ==> incoming_groups@.rects.contains_key(members@[i]),
            group_score(incoming_groups@.rects, members@, box_size_heuristic) <= u128::MAX,
            size == group_score(
                incoming_groups@.rects,
                members@.take(i as int),
                box_size_heuristic,
            ),
    {
        let rect = incoming_groups.rect(&members[i]).unwrap();
        let rect_score = score(box_size_heuristic, rect.whd);
        proof {
            lemma_group_score_grows(
                incoming_groups@.rects,
                members@,
                i + 1,
                box_size_heuristic,
            );
            assert(members@.take(i + 1).drop_last() == members@.take(i as int));
        }
        size = size + rect_score;
    }
    assert(members@.take(members@.len() as int) == members@);
    size
}

/// The groups of the registry, each as the list of its members, from the largest
/// group to the smallest.
fn sort_groups_largest_to_smallest<'a, RectToPlaceId, GroupId, H>(
    incoming_groups: &'a GroupedRectsToPlace<RectToPlaceId, GroupId>,
    box_size_heuristic: &H,
) -> (sorted: Vec<&'a Vec<RectToPlaceId>>) where
    RectToPlaceId: Clone + Ord,
    GroupId: Clone + Ord,
    H: Fn(WidthHeightDepth) -> u128,

    requires
        is_identifier::<RectToPlaceId>(),
        is_identifier::<GroupId>(),
        is_heuristic(box_size_heuristic),
        incoming_groups@.is_complete(),
        group_scores_fit(incoming_groups@, box_size_heuristic),
    ensures
        sorted@.map_values(|members: &Vec<RectToPlaceId>| members@) == group_order(
            incoming_groups@,
            box_size_heuristic,
        ),
        forall|j: int, i: int|
            0 <= j < sorted@.len() && 0 <= i < sorted@[j]@.len()
                ==> incoming_groups@.rects.contains_key(#[trigger] sorted@[j]@[i]),
{
    let lists = incoming_groups.member_lists();
    let ghost groups = incoming_groups@.groups_in_order();
    let ghost rects = incoming_groups@.rects;
    proof {
        assert forall|j: int| 0 <= j < lists@.len() implies group_score(
            rects,
            #[trigger] lists@[j]@,
            box_size_heuristic,
        ) <= u128::MAX && forall|i: int|
            0 <= i < lists@[j]@.len() ==> rects.contains_key(#[trigger] lists@[j]@[i]) by {
            assert(incoming_groups@.has_group(lists@[j]@));
        }
    }
    let mut scores: Vec<u128> = Vec::new();
    for j in 0..lists.len()
        invariant
            is_identifier::<RectToPlaceId>(),
            is_heuristic(box_size_heuristic),
            groups == incoming_groups@.groups_in_order(),
            rects == incoming_groups@.rects,
            lists@.map_values(|members: &Vec<RectToPlaceId>| members@) == groups,
            forall|j: int|
                0 <= j < lists@.len() ==> group_score(
                    rects,
                    #[trigger] lists@[j]@,
                    box_size_heuristic,
                ) <= u128::MAX,
            forall|j: int, i: int|
                0 <= j < lists@.len() && 0 <= i < lists@[j]@.len() ==> rects.contains_key(
                    #[trigger] lists@[j]@[i],
                ),
            scores@ == group_scores(rects, groups.take(j as int), box_size_heuristic),
    {
        assert(lists@[j as int]@ == groups[j as int]);
        scores.push(group_size(lists[j], incoming_groups, box_size_heuristic));
        assert(scores@ =~= group_scores(rects, groups.take(j + 1), box_size_heuristic));
    }
    assert(groups.take(groups.len() as int) == groups);
    let order = stable_order_of(&scores, true);
    let mut sorted: Vec<&'a Vec<RectToPlaceId>> = Vec::new();
    for t in 0..order.len()
        invariant
            order@.len() == lists@.len(),
            groups.len() == lists@.len(),
            rects == incoming_groups@.rects,
            lists@.map_values(|members: &Vec<RectToPlaceId>| members@) == groups,
            forall|p: int| 0 <= p < order@.len() ==> #[trigger] order@[p] < lists@.len(),
            forall|j: int, i: int|
                0 <= j < lists@.len() && 0 <= i < lists@[j]@.len() ==> rects.contains_key(
                    #[trigger] lists@[j]@[i],
                ),
            sorted@.map_values(|members: &Vec<RectToPlaceId>| members@) == reordered(
                groups,
                indices(order@),
            ).take(t as int),
            forall|j: int, i: int|
                0 <= j < sorted@.len() && 0 <= i < sorted@[j]@.len() ==> rects.contains_key(
                    #[trigger] sorted@[j]@[i],
                ),
    {
        let members = lists[order[t]];
        assert(members@ == groups[order@[t as int] as int]);
        let ghost before = sorted@.map_values(|members: &Vec<RectToPlaceId>| members@);
        sorted.push(members);
        assert(sorted@.map_values(|members: &Vec<RectToPlaceId>| members@) =~= before.push(
            members@,
        ));
        assert(reordered(groups, indices(order@))[t as int] == members@);
        assert(sorted@.map_values(|members: &Vec<RectToPlaceId>| members@) =~= reordered(
            groups,
            indices(order@),
        ).take(t + 1));
    }
    assert(reordered(groups, indices(order@)).take(order@.len() as int) == reordered(
        groups,
        indices(order@),
    ));
    sorted
}

/// The locations of the rectangles that were packed.
#[derive(Debug, PartialEq)]
pub struct RectanglePackOk<RectToPlaceId, BinId> {
    packed_locations: BTreeMap<RectToPlaceId, (BinId, PackedLocation)>,
}

impl<RectToPlaceId, BinId> View for RectanglePackOk<RectToPlaceId, BinId> {
    type V = Map<RectToPlaceId, (BinId, PackedLocation)>;

    closed spec fn view(&self) -> Map<RectToPlaceId, (BinId, PackedLocation)> {
        self.packed_locations@
    }
}

impl<RectToPlaceId, BinId> RectanglePackOk<RectToPlaceId, BinId> {
    /// For each rectangle, the bin that it was placed into and its place there.
    pub fn packed_locations(&self) -> (locations: &BTreeMap<
        RectToPlaceId,
        (BinId, PackedLocation),
    >)
        ensures
            locations@ == self@,
    {
        &self.packed_locations
    }
}

/// Why rectangles could not be packed.
#[derive(Debug, PartialEq, Eq, Structural, Copy, Clone)]
pub enum RectanglePackError {
    /// Some group has room in none of the bins. More bin space is needed.
    NotEnoughBinSpace,
}

impl RectanglePackError {
    /// The text of [`RectanglePackError::message`].
    pub open spec fn spec_message(&self) -> Seq<char> {
        "Not enough space to place all of the rectangles."@
    }

    /// Says what went wrong, for a reader.
    pub fn message(&self) -> (text: &'static str)
        ensures
            text@ == self.spec_message(),
    {
        match self {
            RectanglePackError::NotEnoughBinSpace => {
                "Not enough space to place all of the rectangles."
            },
        }
    }
}

/// How far a packing has come: what is free in each bin, where the rectangles placed
/// so far have landed, and whether every group has found a bin.
#[verifier::reject_recursive_types(RectToPlaceId)]
#[verifier::reject_recursive_types(BinId)]
pub struct Packing<RectToPlaceId, BinId> {
    /// The free sections of each bin.
    pub sections: Map<BinId, Seq<BinSection>>,
    /// The bin and the place of each rectangle that was placed.
    pub locations: Map<RectToPlaceId, (BinId, PackedLocation)>,
    /// No group was left without a bin.
    pub complete: bool,
}

/// The free sections of each bin.
pub open spec fn sections_of<BinId>(bins: Map<BinId, TargetBin>) -> Map<BinId, Seq<BinSection>> {
    bins.map_values(|bin: TargetBin| bin@.sections)
}

/// The members of a group that are still to be placed: those of which no place is
/// recorded yet, each once, in the order of the group.
pub open spec fn still_to_place<RectToPlaceId, BinId>(
    members: Seq<RectToPlaceId>,
    locations: Map<RectToPlaceId, (BinId, PackedLocation)>,
) -> Seq<RectToPlaceId>
    decreases members.len(),
{
    if members.len() == 0 {
        Seq::empty()
    } else {
        let before = still_to_place(members.drop_last(), locations);
        if locations.contains_key(members.last()) || before.contains(members.last()) {
            before
        } else {
            before.push(members.last())
        }
    }
}

/// Every member of the group that has a place has it in the bin `bin`.
pub open spec fn is_home<RectToPlaceId, BinId>(
    locations: Map<RectToPlaceId, (BinId, PackedLocation)>,
    members: Seq<RectToPlaceId>,
    bin: BinId,
) -> bool {
    forall|i: int|
        0 <= i < members.len() && locations.contains_key(#[trigger] members[i])
            ==> locations[members[i]].0 == bin
}

/// The bin `bin` can take the group `members`: the members that an earlier group has
/// placed are all in this bin, and the bin has room for all the others.
pub open spec fn has_room<RectToPlaceId, BinId, H, C>(
    packing: Packing<RectToPlaceId, BinId>,
    bin: BinId,
    members: Seq<RectToPlaceId>,
    rects: Map<RectToPlaceId, RectToInsert>,
    comparison: &C,
    heuristic: &H,
) -> bool where
    H: Fn(WidthHeightDepth) -> u128,
    C: Fn([WidthHeightDepth; 3], [WidthHeightDepth; 3], &H) -> Ordering,
 {
    &&& is_home(packing.locations, members, bin)
    &&& group_fits(
        packing.sections[bin],
        rects_of(rects, still_to_place(members, packing.locations)),
        comparison,
        heuristic,
    )
}

/// The bin that takes a group: of `order[from]`, `order[from + 1]`, ..., the first bin
/// that can take it.
pub open spec fn bin_for<RectToPlaceId, BinId, H, C>(
    order: Seq<BinId>,
    from: int,
    packing: Packing<RectToPlaceId, BinId>,
    members: Seq<RectToPlaceId>,
    rects: Map<RectToPlaceId, RectToInsert>,
    comparison: &C,
    heuristic: &H,
) -> Option<BinId> where
    H: Fn(WidthHeightDepth) -> u128,
    C: Fn([WidthHeightDepth; 3], [WidthHeightDepth; 3], &H) -> Ordering,

    decreases order.len() - from,
{
    if from < 0 || from >= order.len() {
        None
    } else if has_room(packing, order[from], members, rects, comparison, heuristic) {
        Some(order[from])
    } else {
        bin_for(order, from + 1, packing, members, rects, comparison, heuristic)
    }
}

/// The packing after the group `members` was placed into the bin `bin`, which has
/// room for it.
pub open spec fn with_group<RectToPlaceId, BinId, H, C>(
    packing: Packing<RectToPlaceId, BinId>,
    bin: BinId,
    members: Seq<RectToPlaceId>,
    rects: Map<RectToPlaceId, RectToInsert>,
    comparison: &C,
    heuristic: &H,
) -> Packing<RectToPlaceId, BinId> where
    H: Fn(WidthHeightDepth) -> u128,
    C: Fn([WidthHeightDepth; 3], [WidthHeightDepth; 3], &H) -> Ordering,
 {
    Packing {
        sections: packing.sections.insert(
            bin,
            sections_after_all(
                packing.sections[bin],
                rects_of(rects, members),
                0,
                comparison,
                heuristic,
            ).unwrap(),
        ),
        locations: locations_after_all(
            packing.locations,
            bin,
            packing.sections[bin],
            members,
            0,
            rects,
            comparison,
            heuristic,
        ),
        complete: packing.complete,
    }
}

/// The packing after the groups `groups[from]`, `groups[from + 1]`, ... were placed
/// one after another, each into the first bin of `order` that can take the whole
/// group. A rectangle is placed once: a member that an earlier group has placed stays
/// where it is, and binds its group to its bin. The packing stops, incomplete, at the
/// first group that no bin can take: what was placed before stays placed.
pub open spec fn with_groups<RectToPlaceId, BinId, H, C>(
    packing: Packing<RectToPlaceId, BinId>,
    groups: Seq<Seq<RectToPlaceId>>,
    from: int,
    order: Seq<BinId>,
    rects: Map<RectToPlaceId, RectToInsert>,
    comparison: &C,
    heuristic: &H,
) -> Packing<RectToPlaceId, BinId> where
    H: Fn(WidthHeightDepth) -> u128,
    C: Fn([WidthHeightDepth; 3], [WidthHeightDepth; 3], &H) -> Ordering,

    decreases groups.len() - from,
{
    if from < 0 || from >= groups.len() {
        Packing { complete: true, ..packing }
    } else {
        match bin_for(order, 0, packing, groups[from], rects, comparison, heuristic) {
            None => Packing { complete: false, ..packing },
            Some(bin) => with_groups(
                with_group(
                    packing,
                    bin,
                    still_to_place(groups[from], packing.locations),
                    rects,
                    comparison,
                    heuristic,
                ),
                groups,
                from + 1,
                order,
                rects,
                comparison,
                heuristic,
            ),
        }
    }
}

/// What [`pack_rects`] makes of a registry and a set of bins.
///
/// The groups are taken from the largest to the smallest. Each is placed, whole, into
/// the smallest bin that can take it; a rectangle goes into the last free section
/// of the bin that it fits in, and is placed once, whatever the number of its groups.
pub open spec fn packed<RectToPlaceId, BinId, GroupId, H, C>(
    registry: GroupedRectsView<RectToPlaceId, GroupId>,
    bins: Map<BinId, TargetBin>,
    comparison: &C,
    heuristic: &H,
) -> Packing<RectToPlaceId, BinId> where
    H: Fn(WidthHeightDepth) -> u128,
    C: Fn([WidthHeightDepth; 3], [WidthHeightDepth; 3], &H) -> Ordering,
 {
    with_groups(
        Packing { sections: sections_of(bins), locations: Map::empty(), complete: false },
        group_order(registry, heuristic),
        0,
        bin_order(bins, heuristic),
        registry.rects,
        comparison,
        heuristic,
    )
}

/// `bins_after` and `outcome` are what [`pack_rects`] leaves of the bins `bins_before`
/// and returns for the registry `registry`.
pub open spec fn is_packing_outcome<RectToPlaceId, BinId, GroupId, H, C>(
    registry: GroupedRectsView<RectToPlaceId, GroupId>,
    bins_before: Map<BinId, TargetBin>,
    comparison: &C,
    heuristic: &H,
    bins_after: Map<BinId, TargetBin>,
    outcome: Result<RectanglePackOk<RectToPlaceId, BinId>, RectanglePackError>,
) -> bool where
    H: Fn(WidthHeightDepth) -> u128,
    C: Fn([WidthHeightDepth; 3], [WidthHeightDepth; 3], &H) -> Ordering,
 {
    let packing = packed(registry, bins_before, comparison, heuristic);
    &&& sections_of(bins_after) == packing.sections
    &&& keeps_extents(bins_after, bins_before)
    &&& outcome is Ok <==> packing.complete
    &&& outcome matches Ok(packed_rects) ==> packed_rects@ == packing.locations
}

/// Every place that is recorded is in one of the bins `bins`.
pub open spec fn is_placed_in<RectToPlaceId, BinId>(
    locations: Map<RectToPlaceId, (BinId, PackedLocation)>,
    bins: Map<BinId, TargetBin>,
) -> bool {
    forall|id: RectToPlaceId| #[trigger]
        locations.contains_key(id) ==> bins.contains_key(locations[id].0)
}

/// Every member of every group of the registry has a place, and the members of a
/// group have their places in one bin.
pub open spec fn groups_are_together<RectToPlaceId, BinId, GroupId>(
    registry: GroupedRectsView<RectToPlaceId, GroupId>,
    locations: Map<RectToPlaceId, (BinId, PackedLocation)>,
) -> bool {
    forall|members: Seq<RectToPlaceId>, i: int, j: int|
        #![trigger registry.has_group(members), members[i], members[j]]
        registry.has_group(members) && 0 <= i < members.len() && 0 <= j < members.len() ==> {
            &&& locations.contains_key(members[i])
            &&& locations.contains_key(members[j])
            &&& locations[members[i]].0 == locations[members[j]].0
        }
}

/// Every free section of every bin ends at a point of the `u32` grid.
pub open spec fn bins_in_coordinate_range<BinId>(bins: Map<BinId, TargetBin>) -> bool {
    forall|id: BinId| bins.contains_key(id) ==> all_in_coordinate_range(#[trigger] bins[id]@.sections)
}

/// In every bin, the free sections lie inside the bin and no two of them share a cell.
pub open spec fn bins_are_tidy<BinId>(bins: Map<BinId, TargetBin>) -> bool {
    forall|id: BinId| #[trigger] bins.contains_key(id) ==> bins[id]@.is_tidy()
}

/// The bins of `now` are bins of `before`, each with the extent it had.
pub open spec fn keeps_extents<BinId>(
    now: Map<BinId, TargetBin>,
    before: Map<BinId, TargetBin>,
) -> bool {
    forall|id: BinId| #[trigger]
        now.contains_key(id) ==> before.contains_key(id) && now[id]@.max_extent()
            == before[id]@.max_extent()
}

/// The members that are still to be placed are members of the group of which no place
/// is recorded, none of them twice, and they are all such members.
pub proof fn lemma_still_to_place<RectToPlaceId, BinId>(
    members: Seq<RectToPlaceId>,
    locations: Map<RectToPlaceId, (BinId, PackedLocation)>,
)
    ensures
        still_to_place(members, locations).no_duplicates(),
        forall|i: int|
            0 <= i < still_to_place(members, locations).len() ==> !locations.contains_key(
                #[trigger] still_to_place(members, locations)[i],
            ) && members.contains(still_to_place(members, locations)[i]),
        forall|i: int|
            0 <= i < members.len() && !locations.contains_key(#[trigger] members[i])
                ==> still_to_place(members, locations).contains(members[i]),
    decreases members.len(),
{
    let to_place = still_to_place(members, locations);
    if members.len() > 0 {
        let shorter = members.drop_last();
        let before = still_to_place(shorter, locations);
        lemma_still_to_place(shorter, locations);
        assert forall|i: int| 0 <= i < to_place.len() implies !locations.contains_key(
            #[trigger] to_place[i],
        ) && members.contains(to_place[i]) by {
            if i < before.len() {
                assert(to_place[i] == before[i]);
                let at = choose|at: int| 0 <= at < shorter.len() && shorter[at] == before[i];
                assert(members[at] == to_place[i]);
            } else {
                assert(members[members.len() - 1] == to_place[i]);
            }
        }
        assert forall|i: int|
            0 <= i < members.len() && !locations.contains_key(
                #[trigger] members[i],
            ) implies to_place.contains(members[i]) by {
            if i < shorter.len() {
                assert(shorter[i] == members[i]);
                let at = choose|at: int| 0 <= at < before.len() && before[at] == members[i];
                assert(to_place[at] == members[i]);
            } else if before.contains(members[i]) {
                let at = choose|at: int| 0 <= at < before.len() && before[at] == members[i];
                assert(to_place[at] == members[i]);
            } else {
                assert(to_place[before.len() as int] == members[i]);
            }
        }
        assert forall|i: int, j: int|
            0 <= i < to_place.len() && 0 <= j < to_place.len() && i != j implies to_place[i]
            != to_place[j] by {
            if i < before.len() && j < before.len() {
                assert(before[i] != before[j]);
            } else if i < before.len() {
                assert(before.contains(before[i]));
            } else {
                assert(before.contains(before[j]));
            }
        }
    }
}

/// The members of a part of a group that are still to be placed are among those of the
/// whole group that are.
proof fn lemma_still_to_place_take<RectToPlaceId, BinId>(
    members: Seq<RectToPlaceId>,
    locations: Map<RectToPlaceId, (BinId, PackedLocation)>,
    count: int,
)
    requires
        0 <= count < members.len(),
    ensures
        still_to_place(members.take(count + 1), locations) == ({
            let before = still_to_place(members.take(count), locations);
            if locations.contains_key(members[count]) || before.contains(members[count]) {
                before
            } else {
                before.push(members[count])
            }
        }),
{
    assert(members.take(count + 1).drop_last() == members.take(count));
    assert(members.take(count + 1).last() == members[count]);
}

/// Whether `id` is in the list.
fn is_listed<RectToPlaceId: Clone + Ord>(list: &Vec<RectToPlaceId>, id: &RectToPlaceId) -> (listed:
    bool)
    requires
        is_identifier::<RectToPlaceId>(),
    ensures
        listed == list@.contains(*id),
{
    for i in 0..list.len()
        invariant
            is_identifier::<RectToPlaceId>(),
            forall|j: int| 0 <= j < i ==> list@[j] != *id,
    {
        if same(&list[i], id) {
            return true;
        }
    }
    false
}

/// The members of the group that no place is recorded of yet, each once.
fn members_to_place<RectToPlaceId, BinId>(
    group: &Vec<RectToPlaceId>,
    packed_locations: &BTreeMap<RectToPlaceId, (BinId, PackedLocation)>,
) -> (to_place: Vec<RectToPlaceId>) where RectToPlaceId: Clone + Ord
    requires
        is_identifier::<RectToPlaceId>(),
    ensures
        to_place@ == still_to_place(group@, packed_locations@),
{
    let mut to_place: Vec<RectToPlaceId> = Vec::new();
    assert(group@.take(0) =~= Seq::<RectToPlaceId>::empty());
    for i in 0..group.len()
        invariant
            is_identifier::<RectToPlaceId>(),
            to_place@ == still_to_place(group@.take(i as int), packed_locations@),
    {
        proof {
            lemma_still_to_place_take(group@, packed_locations@, i as int);
        }
        if !packed_locations.contains_key(&group[i]) && !is_listed(&to_place, &group[i]) {
            to_place.push(duplicate(&group[i]));
        }
    }
    assert(group@.take(group@.len() as int) == group@);
    to_place
}

/// Whether every member of the group that has a place has it in the bin `bin_id`.
fn is_home_bin<RectToPlaceId, BinId>(
    group: &Vec<RectToPlaceId>,
    packed_locations: &BTreeMap<RectToPlaceId, (BinId, PackedLocation)>,
    bin_id: &BinId,
) -> (home: bool) where RectToPlaceId: Clone + Ord, BinId: Clone + Ord
    requires
        is_identifier::<RectToPlaceId>(),
        is_identifier::<BinId>(),
    ensures
        home == is_home(packed_locations@, group@, *bin_id),
{
    for i in 0..group.len()
        invariant
            is_identifier::<RectToPlaceId>(),
            is_identifier::<BinId>(),
            forall|j: int|
                0 <= j < i && packed_locations@.contains_key(#[trigger] group@[j])
                    ==> packed_locations@[group@[j]].0 == *bin_id,
    {
        match packed_locations.get(&group[i]) {
            Some(place) => {
                if !same(&place.0, bin_id) {
                    return false;
                }
            },
            None => {},
        }
    }
    true
}

/// Looks, from the smallest bin to the largest, for a bin that can take the group.
fn first_bin_with_room<'a, RectToPlaceId, BinId, GroupId, H, C>(
    target_bins: &BTreeMap<BinId, TargetBin>,
    bins: &'a Vec<BinId>,
    group: &Vec<RectToPlaceId>,
    to_place: &Vec<RectToPlaceId>,
    rects_to_place: &GroupedRectsToPlace<RectToPlaceId, GroupId>,
    packed_locations: &BTreeMap<RectToPlaceId, (BinId, PackedLocation)>,
    box_size_heuristic: &H,
    more_suitable_containers_fn: &C,
) -> (found: Option<&'a BinId>) where
    RectToPlaceId: Clone + Ord,
    BinId: Clone + Ord,
    GroupId: Clone + Ord,
    H: Fn(WidthHeightDepth) -> u128,
    C: Fn([WidthHeightDepth; 3], [WidthHeightDepth; 3], &H) -> Ordering,

    requires
        is_identifier::<RectToPlaceId>(),
        is_identifier::<BinId>(),
        is_heuristic(box_size_heuristic),
        is_comparison(more_suitable_containers_fn, box_size_heuristic),
        bins_in_coordinate_range(target_bins@),
        forall|t: int| 0 <= t < bins@.len() ==> target_bins@.contains_key(#[trigger] bins@[t]),
        to_place@ == still_to_place(group@, packed_locations@),
        forall|i: int| 0 <= i < to_place@.len() ==> rects_to_place@.rects.contains_key(to_place@[i]),
    ensures
        ({
            let packing = Packing {
                sections: sections_of(target_bins@),
                locations: packed_locations@,
                complete: false,
            };
            let chosen = bin_for(
                bins@,
                0,
                packing,
                group@,
                rects_to_place@.rects,
                more_suitable_containers_fn,
                box_size_heuristic,
            );
            match found {
                Some(id) => target_bins@.contains_key(*id) && Some(*id) == chosen && group_fits(
                    target_bins@[*id]@.sections,
                    rects_of(rects_to_place@.rects, to_place@),
                    more_suitable_containers_fn,
                    box_size_heuristic,
                ),
                None => chosen is None,
            }
        }),
{
    let ghost packing = Packing {
        sections: sections_of(target_bins@),
        locations: packed_locations@,
        complete: false,
    };
    for b in it: 0..bins.len()
        invariant
            is_identifier::<RectToPlaceId>(),
            is_identifier::<BinId>(),
            is_heuristic(box_size_heuristic),
            is_comparison(more_suitable_containers_fn, box_size_heuristic),
            bins_in_coordinate_range(target_bins@),
            forall|t: int| 0 <= t < bins@.len() ==> target_bins@.contains_key(#[trigger] bins@[t]),
            to_place@ == still_to_place(group@, packed_locations@),
            forall|i: int|
                0 <= i < to_place@.len() ==> rects_to_place@.rects.contains_key(to_place@[i]),
            packing == (Packing {
                sections: sections_of(target_bins@),
                locations: packed_locations@,
                complete: false,
            }),
            bin_for(
                bins@,
                0,
                packing,
                group@,
                rects_to_place@.rects,
                more_suitable_containers_fn,
                box_size_heuristic,
            ) == bin_for(
                bins@,
                it.index(),
                packing,
                group@,
                rects_to_place@.rects,
                more_suitable_containers_fn,
                box_size_heuristic,
            ),
    {
        let bin_id = &bins[b];
        assert(target_bins@.contains_key(bins@[it.index()]));
        let bin = target_bins.get(bin_id).unwrap();
        assert(packing.sections[*bin_id] == bin@.sections);
        if is_home_bin(group, packed_locations, bin_id) && can_fit_entire_group_into_bin(
            bin.clone(),
            to_place,
            rects_to_place,
            box_size_heuristic,
            more_suitable_containers_fn,
        ) {
            return Some(bin_id);
        }
    }
    None
}

/// Decides, for every rectangle of the registry, which bin it goes into and where.
///
/// The bins are ordered from the smallest to the largest by the score of their whole
/// extent, and the groups from the largest to the smallest by the sum of the scores
/// of their rectangles. Every group is then placed, whole, into the first bin that has
/// room for all of it: whether a bin has room is found out on a copy of the bin, and
/// only then are the rectangles placed in the bin itself. The call fails when some
/// group finds no bin: a group is never split over two bins. The bins keep what
/// the groups before that one took from them.
///
/// A rectangle is placed once. Where it is in several groups, the group that comes
/// first places it, and every later group of it must go into the bin that it is in:
/// the call fails where that bin cannot take the rest of the group, or where the
/// members of a group are already in two bins. So, when the call succeeds, the
/// members of every group are in one bin.
pub fn pack_rects<RectToPlaceId, BinId, GroupId, H, C>(
    rects_to_place: &GroupedRectsToPlace<RectToPlaceId, GroupId>,
    target_bins: &mut BTreeMap<BinId, TargetBin>,
    box_size_heuristic: &H,
    more_suitable_containers_fn: &C,
) -> (outcome: Result<RectanglePackOk<RectToPlaceId, BinId>, RectanglePackError>) where
    RectToPlaceId: Clone + Ord,
    BinId: Clone + Ord,
    GroupId: Clone + Ord,
    H: Fn(WidthHeightDepth) -> u128,
    C: Fn([WidthHeightDepth; 3], [WidthHeightDepth; 3], &H) -> Ordering,

    requires
        is_identifier::<RectToPlaceId>(),
        is_identifier::<BinId>(),
        is_identifier::<GroupId>(),
        is_heuristic(box_size_heuristic),
        is_comparison(more_suitable_containers_fn, box_size_heuristic),
        rects_to_place@.is_complete(),
        group_scores_fit(rects_to_place@, box_size_heuristic),
        bins_in_coordinate_range(old(target_bins)@),
    ensures
        is_packing_outcome(
            rects_to_place@,
            old(target_bins)@,
            more_suitable_containers_fn,
            box_size_heuristic,
            final(target_bins)@,
            outcome,
        ),
        bins_in_coordinate_range(final(target_bins)@),
        bins_are_tidy(old(target_bins)@) ==> bins_are_tidy(final(target_bins)@),
        outcome matches Ok(packing) ==> is_placed_in(packing@, old(target_bins)@),
        outcome matches Ok(packing) ==> groups_are_together(rects_to_place@, packing@),
{
    proof {
        if bins_are_tidy(old(target_bins)@) {
            lemma_packing_is_sound(
                rects_to_place@,
                &*old(target_bins),
                more_suitable_containers_fn,
                box_size_heuristic,
            );
        }
    }
    let mut packed_locations: BTreeMap<RectToPlaceId, (BinId, PackedLocation)> = BTreeMap::new();
    let bins = sort_bins_smallest_to_largest(target_bins, box_size_heuristic);
    let groups = sort_groups_largest_to_smallest(rects_to_place, box_size_heuristic);
    let ghost goal = packed(
        rects_to_place@,
        old(target_bins)@,
        more_suitable_containers_fn,
        box_size_heuristic,
    );
    let ghost group_lists = group_order(rects_to_place@, box_size_heuristic);
    let ghost rects = rects_to_place@.rects;
    for g in it: 0..groups.len()
        invariant
            is_identifier::<RectToPlaceId>(),
            is_identifier::<BinId>(),
            is_heuristic(box_size_heuristic),
            is_comparison(more_suitable_containers_fn, box_size_heuristic),
            rects == rects_to_place@.rects,
            groups@.map_values(|members: &Vec<RectToPlaceId>| members@) == group_lists,
            forall|j: int, i: int|
                0 <= j < groups@.len() && 0 <= i < groups@[j]@.len() ==> rects.contains_key(
                    #[trigger] groups@[j]@[i],
                ),
            bins_in_coordinate_range(target_bins@),
            forall|t: int| 0 <= t < bins@.len() ==> target_bins@.contains_key(#[trigger] bins@[t]),
            keeps_extents(target_bins@, old(target_bins)@),
            target_bins@.dom() == old(target_bins)@.dom(),
            is_placed_in(packed_locations@, target_bins@),
            bins_are_tidy(old(target_bins)@) ==> sections_are_tidy(
                goal.sections,
                wholes_of(old(target_bins)@),
            ),
            goal == packed(
                rects_to_place@,
                old(target_bins)@,
                more_suitable_containers_fn,
                box_size_heuristic,
            ),
            goal == with_groups(
                Packing {
                    sections: sections_of(target_bins@),
                    locations: packed_locations@,
                    complete: false,
                },
                group_lists,
                it.index(),
                bins@,
                rects,
                more_suitable_containers_fn,
                box_size_heuristic,
            ),
    {
        let group = groups[g];
        assert(group@ == group_lists[it.index()]);
        let ghost before = Packing {
            sections: sections_of(target_bins@),
            locations: packed_locations@,
            complete: false,
        };
        let to_place = members_to_place(group, &packed_locations);
        proof {
            lemma_still_to_place(group@, packed_locations@);
            assert forall|i: int| 0 <= i < to_place@.len() implies rects.contains_key(
                to_place@[i],
            ) by {
                let at = choose|at: int| 0 <= at < group@.len() && group@[at] == to_place@[i];
                assert(rects.contains_key(groups@[it.index()]@[at]));
            }
        }
        match first_bin_with_room(
            target_bins,
            &bins,
            group,
            &to_place,
            rects_to_place,
            &packed_locations,
            box_size_heuristic,
            more_suitable_containers_fn,
        ) {
            None => {
                proof {
                    if bins_are_tidy(old(target_bins)@) {
                        assert(goal.sections == sections_of(target_bins@));
                        lemma_tidy_sections_make_tidy_bins(target_bins@, old(target_bins)@);
                    }
                }
                return Err(RectanglePackError::NotEnoughBinSpace);
            },
            Some(bin_id) => {
                let ghost bins_before = target_bins@;
                let ghost locations_before = packed_locations@;
                let mut bin = target_bins.remove(bin_id).unwrap();
                place_group_in_bin(
                    &mut bin,
                    bin_id,
                    &to_place,
                    rects_to_place,
                    &mut packed_locations,
                    box_size_heuristic,
                    more_suitable_containers_fn,
                );
                target_bins.insert(duplicate(bin_id), bin);
                proof {
                    let after = with_group(
                        before,
                        *bin_id,
                        to_place@,
                        rects,
                        more_suitable_containers_fn,
                        box_size_heuristic,
                    );
                    assert(target_bins@ =~= bins_before.insert(*bin_id, bin));
                    assert(sections_of(target_bins@) =~= after.sections);
                    assert(target_bins@.dom() =~= bins_before.dom());
                    lemma_locations_after_all(
                        locations_before,
                        *bin_id,
                        bins_before[*bin_id]@.sections,
                        to_place@,
                        0,
                        rects,
                        more_suitable_containers_fn,
                        box_size_heuristic,
                    );
                    assert forall|id: RectToPlaceId| #[trigger]
                        packed_locations@.contains_key(id) implies target_bins@.contains_key(
                        packed_locations@[id].0,
                    ) by {
                        if !is_member_from(to_place@, 0, id) {
                            assert(locations_before.contains_key(id));
                        }
                    }
                }
            },
        }
    }
    proof {
        if bins_are_tidy(old(target_bins)@) {
            assert(goal.sections == sections_of(target_bins@));
            lemma_tidy_sections_make_tidy_bins(target_bins@, old(target_bins)@);
        }
        assert(goal.locations == packed_locations@);
        lemma_groups_are_together(
            rects_to_place,
            old(target_bins)@,
            more_suitable_containers_fn,
            box_size_heuristic,
        );
    }
    Ok(RectanglePackOk { packed_locations })
}

/// Bins that have kept their extents and whose free sections are tidy are tidy bins.
proof fn lemma_tidy_sections_make_tidy_bins<BinId>(
    now: Map<BinId, TargetBin>,
    before: Map<BinId, TargetBin>,
)
    requires
        keeps_extents(now, before),
        sections_are_tidy(sections_of(now), wholes_of(before)),
    ensures
        bins_are_tidy(now),
{
    assert forall|id: BinId| #[trigger] now.contains_key(id) implies now[id]@.is_tidy() by {
        assert(sections_of(now).contains_key(id));
        assert(sections_of(now)[id] == now[id]@.sections);
        assert(wholes_of(before)[id] == before[id]@.whole());
        assert(now[id]@.max_extent() == before[id]@.max_extent());
    }
}

} // verus!
