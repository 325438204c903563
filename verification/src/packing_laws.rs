//! What holds of every packing.

use crate::bin_section::BinSection;
use crate::bin_section::lemma_best_is_a_candidate;
use crate::bin_section::lemma_disjoint_from_part;
use crate::bin_section::lemma_split_is_a_partition;
use crate::bin_section::lemma_split_stays_inside;
use crate::box_size_heuristics::score_of;
use crate::grouped_rects_to_place::Group;
use crate::grouped_rects_to_place::GroupedRectsToPlace;
use crate::grouped_rects_to_place::GroupedRectsView;
use crate::identifiers::is_ordered;
use crate::identifiers::keys_in_order;
use crate::identifiers::lemma_keys_in_order;
use crate::identifiers::lemma_keys_of_ordered_map;
use crate::packed_location::PackedLocation;
use crate::packing::Packing;
use crate::packing::RectanglePackError;
use crate::packing::RectanglePackOk;
use crate::packing::bin_for;
use crate::packing::bin_order;
use crate::packing::bin_scores;
use crate::packing::group_fits;
use crate::packing::groups_are_together;
use crate::packing::has_room;
use crate::packing::lemma_still_to_place;
use crate::packing::still_to_place;
use crate::packing::group_order;
use crate::packing::group_scores;
use crate::packing::is_packing_outcome;
use crate::packing::largest_first;
use crate::packing::leftovers;
use crate::packing::lemma_section_for;
use crate::packing::location_in;
use crate::packing::locations_after_all;
use crate::packing::packed;
use crate::packing::rects_of;
use crate::packing::scores_of;
use crate::packing::section_for;
use crate::packing::sections_after;
use crate::packing::sections_after_all;
use crate::packing::sections_of;
use crate::packing::with_group;
use crate::packing::with_groups;
use crate::rect_to_insert::RectToInsert;
use crate::stable_order::lemma_stable_order;
use crate::stable_order::lemma_stable_order_has;
use crate::stable_order::precedes;
use crate::stable_order::stable_order;
use crate::target_bin::TargetBin;
use crate::target_bin::all_in_coordinate_range;
use crate::target_bin::is_clear_of;
use crate::target_bin::is_tidy;
use crate::target_bin::keep_nonempty;
use crate::target_bin::lemma_keep_nonempty_push;
use crate::width_height_depth::WidthHeightDepth;
use core::cmp::Ordering;
use std::collections::BTreeMap;
use vstd::prelude::*;
use vstd::std_specs::btree::increasing_seq;

verus! {

broadcast use vstd::std_specs::btree::group_btree_axioms;

/// Packing is a function of the registry, the bins and the two strategies: two calls
/// on the same registry and the same bins, with the same heuristic and the same
/// comparison, leave the same bins behind and return the same result.
pub proof fn lemma_packing_is_deterministic<RectToPlaceId, BinId, GroupId, H, C>(
    registry: GroupedRectsView<RectToPlaceId, GroupId>,
    bins: Map<BinId, TargetBin>,
    comparison: &C,
    heuristic: &H,
    first_bins: Map<BinId, TargetBin>,
    first: Result<RectanglePackOk<RectToPlaceId, BinId>, RectanglePackError>,
    second_bins: Map<BinId, TargetBin>,
    second: Result<RectanglePackOk<RectToPlaceId, BinId>, RectanglePackError>,
) where
    H: Fn(WidthHeightDepth) -> u128,
    C: Fn([WidthHeightDepth; 3], [WidthHeightDepth; 3], &H) -> Ordering,

    requires
        is_packing_outcome(registry, bins, comparison, heuristic, first_bins, first),
        is_packing_outcome(registry, bins, comparison, heuristic, second_bins, second),
    ensures
        first_bins.dom() == second_bins.dom(),
        forall|id: BinId| first_bins.contains_key(id) ==> first_bins[id]@ == second_bins[id]@,
        match (first, second) {
            (Ok(first), Ok(second)) => first@ == second@,
            (Err(first), Err(second)) => first == second,
            _ => false,
        },
{
    assert(first_bins.dom() =~= second_bins.dom()) by {
        assert forall|id: BinId| first_bins.contains_key(id) <==> second_bins.contains_key(id) by {
            assert(first_bins.contains_key(id) <==> sections_of(first_bins).contains_key(id));
            assert(second_bins.contains_key(id) <==> sections_of(second_bins).contains_key(id));
        }
    }
    assert forall|id: BinId| first_bins.contains_key(id) implies first_bins[id]@
        == second_bins[id]@ by {
        assert(sections_of(first_bins)[id] == first_bins[id]@.sections);
        assert(sections_of(second_bins)[id] == second_bins[id]@.sections);
        assert(first_bins[id]@.max_extent() == bins[id]@.max_extent());
        assert(second_bins[id]@.max_extent() == bins[id]@.max_extent());
    }
}

/// The bin that takes a group is the first bin of the order that can take it.
pub proof fn lemma_bin_for<RectToPlaceId, BinId, H, C>(
    order: Seq<BinId>,
    from: int,
    packing: Packing<RectToPlaceId, BinId>,
    members: Seq<RectToPlaceId>,
    rects: Map<RectToPlaceId, RectToInsert>,
    comparison: &C,
    heuristic: &H,
) where
    H: Fn(WidthHeightDepth) -> u128,
    C: Fn([WidthHeightDepth; 3], [WidthHeightDepth; 3], &H) -> Ordering,

    requires
        0 <= from,
    ensures
        match bin_for(order, from, packing, members, rects, comparison, heuristic) {
            Some(bin) => exists|t: int|
                {
                    &&& from <= t < order.len()
                    &&& #[trigger] order[t] == bin
                    &&& has_room(packing, bin, members, rects, comparison, heuristic)
                    &&& forall|u: int|
                        from <= u < t ==> !has_room(
                            packing,
                            #[trigger] order[u],
                            members,
                            rects,
                            comparison,
                            heuristic,
                        )
                },
            None => forall|u: int|
                from <= u < order.len() ==> !has_room(
                    packing,
                    #[trigger] order[u],
                    members,
                    rects,
                    comparison,
                    heuristic,
                ),
        },
    decreases order.len() - from,
{
    if from < order.len() {
        if has_room(packing, order[from], members, rects, comparison, heuristic) {
            assert(order[from] == bin_for(
                order,
                from,
                packing,
                members,
                rects,
                comparison,
                heuristic,
            ).unwrap());
        } else {
            lemma_bin_for(order, from + 1, packing, members, rects, comparison, heuristic);
            match bin_for(order, from + 1, packing, members, rects, comparison, heuristic) {
                Some(bin) => {
                    let t = choose|t: int|
                        {
                            &&& from + 1 <= t < order.len()
                            &&& #[trigger] order[t] == bin
                            &&& has_room(packing, bin, members, rects, comparison, heuristic)
                            &&& forall|u: int|
                                from + 1 <= u < t ==> !has_room(
                                    packing,
                                    #[trigger] order[u],
                                    members,
                                    rects,
                                    comparison,
                                    heuristic,
                                )
                        };
                    assert(order[t] == bin);
                },
                None => {},
            }
        }
    }
}

/// The bins in the order in which they are tried are the bins of the map, each once,
/// and none comes before a bin of lower score.
pub proof fn lemma_bin_order<BinId: Ord, H: Fn(WidthHeightDepth) -> u128>(
    bins: &BTreeMap<BinId, TargetBin>,
    heuristic: &H,
)
    requires
        is_ordered::<BinId>(),
    ensures
        forall|t: int|
            0 <= t < bin_order(bins@, heuristic).len() ==> bins@.contains_key(
                #[trigger] bin_order(bins@, heuristic)[t],
            ),
        forall|id: BinId|
            bins@.contains_key(id) ==> exists|t: int|
                0 <= t < bin_order(bins@, heuristic).len() && #[trigger] bin_order(
                    bins@,
                    heuristic,
                )[t] == id,
        forall|t: int, u: int|
            0 <= t < u < bin_order(bins@, heuristic).len() ==> score_of(
                heuristic,
                bins@[#[trigger] bin_order(bins@, heuristic)[t]]@.max_extent(),
            ) <= score_of(
                heuristic,
                bins@[#[trigger] bin_order(bins@, heuristic)[u]]@.max_extent(),
            ),
{
    lemma_keys_of_ordered_map(bins);
    let ids = keys_in_order(bins@);
    let scores = bin_scores(bins@, ids, heuristic);
    let order = stable_order(scores, false);
    let sorted = bin_order(bins@, heuristic);
    lemma_stable_order(scores, false);
    assert forall|t: int| 0 <= t < sorted.len() implies bins@.contains_key(#[trigger] sorted[t]) by {
        assert(ids.contains(ids[order[t]]));
        assert(ids.to_set().contains(ids[order[t]]));
    }
    assert forall|id: BinId| bins@.contains_key(id) implies exists|t: int|
        0 <= t < sorted.len() && #[trigger] sorted[t] == id by {
        assert(ids.to_set().contains(id));
        let i = choose|i: int| 0 <= i < ids.len() && ids[i] == id;
        lemma_stable_order_has(scores, false, i);
        let t = choose|t: int| 0 <= t < scores.len() && #[trigger] order[t] == i;
        assert(sorted[t] == id);
    }
    assert forall|t: int, u: int| 0 <= t < u < sorted.len() implies score_of(
        heuristic,
        bins@[#[trigger] sorted[t]]@.max_extent(),
    ) <= score_of(heuristic, bins@[#[trigger] sorted[u]]@.max_extent()) by {
        assert(precedes(scores, false, order[t], order[u]));
    }
}

/// A group that no bin has room for makes the packing fail, though each of its
/// rectangles alone may fit in some bin: a group is never split over two bins.
///
/// This is said of the group that is placed first. For a later group it holds of the
/// bins as the groups before it have left them, and of the members of the group that
/// are not placed yet.
pub proof fn lemma_group_without_room_fails<RectToPlaceId, BinId, GroupId, H, C>(
    registry: GroupedRectsView<RectToPlaceId, GroupId>,
    bins: &BTreeMap<BinId, TargetBin>,
    comparison: &C,
    heuristic: &H,
) where
    BinId: Ord,
    H: Fn(WidthHeightDepth) -> u128,
    C: Fn([WidthHeightDepth; 3], [WidthHeightDepth; 3], &H) -> Ordering,

    requires
        is_ordered::<BinId>(),
        group_order(registry, heuristic).len() > 0,
        forall|id: BinId|
            bins@.contains_key(id) ==> !group_fits(
                (#[trigger] bins@[id])@.sections,
                rects_of(
                    registry.rects,
                    still_to_place(
                        group_order(registry, heuristic)[0],
                        Map::<RectToPlaceId, (BinId, PackedLocation)>::empty(),
                    ),
                ),
                comparison,
                heuristic,
            ),
    ensures
        !packed(registry, bins@, comparison, heuristic).complete,
{
    let order = bin_order(bins@, heuristic);
    let members = group_order(registry, heuristic)[0];
    let start = Packing::<RectToPlaceId, BinId> {
        sections: sections_of(bins@),
        locations: Map::empty(),
        complete: false,
    };
    lemma_bin_order(bins, heuristic);
    lemma_bin_for(order, 0, start, members, registry.rects, comparison, heuristic);
    match bin_for(order, 0, start, members, registry.rects, comparison, heuristic) {
        Some(bin) => {
            assert(bins@.contains_key(bin));
            assert(sections_of(bins@)[bin] == bins@[bin]@.sections);
        },
        None => {},
    }
}

/// A rectangle that is packed alone into bins that are all empty goes into a bin that
/// it fits in and that scores lowest among the bins that it fits in, and lands at the
/// origin of that bin. The packing fails only if the rectangle fits in none of the bins.
pub proof fn lemma_lone_rect_takes_smallest_bin<RectToPlaceId, BinId, GroupId, H, C>(
    id: RectToPlaceId,
    rect: RectToInsert,
    bins: &BTreeMap<BinId, TargetBin>,
    comparison: &C,
    heuristic: &H,
) where
    RectToPlaceId: Ord,
    BinId: Ord,
    GroupId: Ord,
    H: Fn(WidthHeightDepth) -> u128,
    C: Fn([WidthHeightDepth; 3], [WidthHeightDepth; 3], &H) -> Ordering,

    requires
        is_ordered::<RectToPlaceId>(),
        is_ordered::<BinId>(),
        is_ordered::<GroupId>(),
        forall|bin: BinId| bins@.contains_key(bin) ==> (#[trigger] bins@[bin])@.is_fresh(),
    ensures
        ({
            let registry = GroupedRectsView::<RectToPlaceId, GroupId>::empty().with_rect(
                id,
                None,
                rect,
            );
            let packing = packed(registry, bins@, comparison, heuristic);
            &&& packing.complete <==> exists|bin: BinId|
                bins@.contains_key(bin) && (#[trigger] bins@[bin])@.whole().fits(rect)
            &&& packing.complete ==> {
                let chosen = packing.locations[id].0;
                &&& packing.locations.dom() == set![id]
                &&& bins@.contains_key(chosen)
                &&& bins@[chosen]@.whole().fits(rect)
                &&& packing.locations[id].1 == PackedLocation::unrotated(0, 0, 0, rect.whd)
                &&& forall|bin: BinId|
                    bins@.contains_key(bin) && (#[trigger] bins@[bin])@.whole().fits(rect)
                        ==> score_of(heuristic, bins@[chosen]@.max_extent()) <= score_of(
                        heuristic,
                        bins@[bin]@.max_extent(),
                    )
            }
        }),
{
    let registry = GroupedRectsView::<RectToPlaceId, GroupId>::empty().with_rect(id, None, rect);
    let packing = packed(registry, bins@, comparison, heuristic);
    let order = bin_order(bins@, heuristic);
    let sections = sections_of(bins@);
    let rects = seq![rect];
    // The registry holds one group, of the one rectangle.
    let singles = seq![id];
    assert(singles[0] == id);
    assert forall|other: RectToPlaceId| singles.to_set().contains(other) <==> other == id by {
        if other == id {
            assert(singles.contains(singles[0]));
        }
    }
    assert(singles.to_set() =~= registry.ungrouped.dom());
    assert(increasing_seq(singles));
    lemma_keys_in_order(registry.ungrouped, singles);
    assert(Seq::<GroupId>::empty().to_set() =~= registry.grouped.dom());
    assert(increasing_seq(Seq::<GroupId>::empty()));
    lemma_keys_in_order(registry.grouped, Seq::<GroupId>::empty());
    let groups = registry.groups_in_order();
    assert(groups =~= seq![seq![id]]);
    let scores = group_scores(registry.rects, groups, heuristic);
    lemma_stable_order(scores, true);
    assert(stable_order(scores, true) =~= seq![0int]);
    assert(group_order(registry, heuristic) =~= seq![seq![id]]);
    assert(rects_of(registry.rects, seq![id]) =~= rects);
    let start = Packing::<RectToPlaceId, BinId> {
        sections,
        locations: Map::empty(),
        complete: false,
    };
    reveal_with_fuel(still_to_place, 3);
    assert(seq![id].drop_last() =~= Seq::<RectToPlaceId>::empty());
    assert(still_to_place(seq![id], start.locations) =~= seq![id]);
    // A bin can take the group when the rectangle fits in the whole bin.
    assert forall|bin: BinId| bins@.contains_key(bin) implies (#[trigger] has_room(
        start,
        bin,
        seq![id],
        registry.rects,
        comparison,
        heuristic,
    ) <==> bins@[bin]@.whole().fits(rect)) by {
        assert(sections[bin] == bins@[bin]@.sections);
        lemma_lone_rect_fits(bins@[bin]@.whole(), rect, comparison, heuristic);
    }
    lemma_bin_order(bins, heuristic);
    lemma_bin_for(order, 0, start, seq![id], registry.rects, comparison, heuristic);
    assert(packing == with_groups(
        start,
        seq![seq![id]],
        0,
        order,
        registry.rects,
        comparison,
        heuristic,
    ));
    match bin_for(order, 0, start, seq![id], registry.rects, comparison, heuristic) {
        Some(chosen) => {
            let t = choose|t: int|
                {
                    &&& 0 <= t < order.len()
                    &&& #[trigger] order[t] == chosen
                    &&& has_room(start, chosen, seq![id], registry.rects, comparison, heuristic)
                    &&& forall|u: int|
                        0 <= u < t ==> !has_room(
                            start,
                            #[trigger] order[u],
                            seq![id],
                            registry.rects,
                            comparison,
                            heuristic,
                        )
                };
            let placed = with_group(
                start,
                chosen,
                seq![id],
                registry.rects,
                comparison,
                heuristic,
            );
            assert(packing == with_groups(
                placed,
                seq![seq![id]],
                1,
                order,
                registry.rects,
                comparison,
                heuristic,
            ));
            assert(packing.complete);
            assert(bins@.contains_key(chosen));
            lemma_lone_rect_fits(bins@[chosen]@.whole(), rect, comparison, heuristic);
            reveal_with_fuel(locations_after_all, 3);
            assert(packing.locations =~= Map::<RectToPlaceId, (BinId, PackedLocation)>::empty().insert(
                id,
                (chosen, location_in(sections[chosen], rect)),
            ));
            assert(packing.locations.dom() =~= set![id]);
            assert forall|bin: BinId|
                bins@.contains_key(bin) && (#[trigger] bins@[bin])@.whole().fits(
                    rect,
                ) implies score_of(heuristic, bins@[chosen]@.max_extent()) <= score_of(
                heuristic,
                bins@[bin]@.max_extent(),
            ) by {
                let u = choose|u: int| 0 <= u < order.len() && #[trigger] order[u] == bin;
                assert(has_room(start, order[u], seq![id], registry.rects, comparison, heuristic));
                assert(u >= t);
            }
        },
        None => {
            assert(!packing.complete);
            assert forall|bin: BinId| bins@.contains_key(bin) implies !(#[trigger] bins@[bin])@.whole().fits(
                rect,
            ) by {
                let u = choose|u: int| 0 <= u < order.len() && #[trigger] order[u] == bin;
                assert(!has_room(start, order[u], seq![id], registry.rects, comparison, heuristic));
            }
        },
    }
}

/// A bin that is one free section has room for a rectangle when the rectangle fits in
/// that section, and the rectangle then lands at the origin of the section.
proof fn lemma_lone_rect_fits<H, C>(
    whole: BinSection,
    rect: RectToInsert,
    comparison: &C,
    heuristic: &H,
) where
    H: Fn(WidthHeightDepth) -> u128,
    C: Fn([WidthHeightDepth; 3], [WidthHeightDepth; 3], &H) -> Ordering,

    ensures
        group_fits(seq![whole], seq![rect], comparison, heuristic) <==> whole.fits(rect),
        whole.fits(rect) ==> location_in(seq![whole], rect) == PackedLocation::unrotated(
            whole.x,
            whole.y,
            whole.z,
            rect.whd,
        ),
{
    reveal_with_fuel(section_for, 3);
    reveal_with_fuel(sections_after_all, 3);
    assert(seq![whole].last() == whole);
    assert(seq![whole].drop_last() =~= Seq::<BinSection>::empty());
}

/// The rectangle `id` is one of `members[from]`, `members[from + 1]`, ...
pub open spec fn is_member_from<RectToPlaceId>(
    members: Seq<RectToPlaceId>,
    from: int,
    id: RectToPlaceId,
) -> bool {
    exists|i: int| from <= i < members.len() && #[trigger] members[i] == id
}

/// The rectangle `id` is a member of one of `groups[from]`, `groups[from + 1]`, ...
pub open spec fn is_grouped_from<RectToPlaceId>(
    groups: Seq<Seq<RectToPlaceId>>,
    from: int,
    id: RectToPlaceId,
) -> bool {
    exists|j: int| from <= j < groups.len() && is_member_from(#[trigger] groups[j], 0, id)
}

/// The members of `groups[group]` are all recorded in the bin `bin`.
pub open spec fn group_is_in_bin<RectToPlaceId, BinId>(
    locations: Map<RectToPlaceId, (BinId, PackedLocation)>,
    groups: Seq<Seq<RectToPlaceId>>,
    group: int,
    bin: BinId,
) -> bool {
    forall|i: int|
        0 <= i < groups[group].len() ==> locations.contains_key(#[trigger] groups[group][i])
            && locations[groups[group][i]].0 == bin
}

/// The members of `groups[group]` are all recorded in one bin.
pub open spec fn group_is_in_one_bin<RectToPlaceId, BinId>(
    locations: Map<RectToPlaceId, (BinId, PackedLocation)>,
    groups: Seq<Seq<RectToPlaceId>>,
    group: int,
) -> bool {
    exists|bin: BinId| #[trigger] group_is_in_bin(locations, groups, group, bin)
}

/// `location` is a place of `rect`: it has the extent of the rectangle, and the
/// rectangle is not rotated.
pub open spec fn is_place_of(location: PackedLocation, rect: RectToInsert) -> bool {
    location == PackedLocation::unrotated(location.x, location.y, location.z, rect.whd)
}

/// Placing the members of a group into a bin records that bin for each of them, with
/// a place of the rectangle's own extent, and leaves what is recorded of other
/// rectangles as it was.
pub proof fn lemma_locations_after_all<RectToPlaceId, BinId, H, C>(
    locations: Map<RectToPlaceId, (BinId, PackedLocation)>,
    bin: BinId,
    sections: Seq<BinSection>,
    members: Seq<RectToPlaceId>,
    from: int,
    rects: Map<RectToPlaceId, RectToInsert>,
    comparison: &C,
    heuristic: &H,
) where
    H: Fn(WidthHeightDepth) -> u128,
    C: Fn([WidthHeightDepth; 3], [WidthHeightDepth; 3], &H) -> Ordering,

    requires
        0 <= from,
    ensures
        ({
            let after = locations_after_all(
                locations,
                bin,
                sections,
                members,
                from,
                rects,
                comparison,
                heuristic,
            );
            forall|id: RectToPlaceId|
                #![trigger is_member_from(members, from, id)]
                if is_member_from(members, from, id) {
                    &&& after.contains_key(id)
                    &&& after[id].0 == bin
                    &&& is_place_of(after[id].1, rects[id])
                } else {
                    &&& after.contains_key(id) == locations.contains_key(id)
                    &&& locations.contains_key(id) ==> after[id] == locations[id]
                }
        }),
    decreases members.len() - from,
{
    let after = locations_after_all(
        locations,
        bin,
        sections,
        members,
        from,
        rects,
        comparison,
        heuristic,
    );
    if from < members.len() {
        let rect = rects[members[from]];
        let next = locations.insert(members[from], (bin, location_in(sections, rect)));
        lemma_locations_after_all(
            next,
            bin,
            sections_after(sections, rect, comparison, heuristic),
            members,
            from + 1,
            rects,
            comparison,
            heuristic,
        );
        assert forall|id: RectToPlaceId|
            #![trigger is_member_from(members, from, id)]
            if is_member_from(members, from, id) {
                &&& after.contains_key(id)
                &&& after[id].0 == bin
                &&& is_place_of(after[id].1, rects[id])
            } else {
                &&& after.contains_key(id) == locations.contains_key(id)
                &&& locations.contains_key(id) ==> after[id] == locations[id]
            } by {
            if is_member_from(members, from + 1, id) {
                let i = choose|i: int| from + 1 <= i < members.len() && #[trigger] members[i] == id;
                assert(members[i] == id);
            } else if id == members[from] {
                assert(members[from] == id);
            } else if is_member_from(members, from, id) {
                let i = choose|i: int| from <= i < members.len() && #[trigger] members[i] == id;
                assert(members[i] == id);
            }
        }
    }
}

/// When a packing is complete, what was recorded before stays as it was, every
/// member of every group that was placed is recorded, the members of a group all in
/// one bin, and what is recorded anew is a member of such a group, with a place of its
/// own extent.
pub proof fn lemma_with_groups<RectToPlaceId, BinId, H, C>(
    packing: Packing<RectToPlaceId, BinId>,
    groups: Seq<Seq<RectToPlaceId>>,
    from: int,
    order: Seq<BinId>,
    rects: Map<RectToPlaceId, RectToInsert>,
    comparison: &C,
    heuristic: &H,
) where
    H: Fn(WidthHeightDepth) -> u128,
    C: Fn([WidthHeightDepth; 3], [WidthHeightDepth; 3], &H) -> Ordering,

    requires
        0 <= from,
        with_groups(packing, groups, from, order, rects, comparison, heuristic).complete,
    ensures
        ({
            let after = with_groups(packing, groups, from, order, rects, comparison, heuristic);
            &&& forall|id: RectToPlaceId| #[trigger]
                packing.locations.contains_key(id) ==> after.locations.contains_key(id)
                    && after.locations[id] == packing.locations[id]
            &&& forall|j: int|
                from <= j < groups.len() ==> #[trigger] group_is_in_one_bin(
                    after.locations,
                    groups,
                    j,
                )
            &&& forall|id: RectToPlaceId| #[trigger]
                after.locations.contains_key(id) && !packing.locations.contains_key(id) ==> {
                    &&& is_grouped_from(groups, from, id)
                    &&& is_place_of(after.locations[id].1, rects[id])
                    &&& exists|t: int|
                        0 <= t < order.len() && #[trigger] order[t] == after.locations[id].0
                }
        }),
    decreases groups.len() - from,
{
    let after = with_groups(packing, groups, from, order, rects, comparison, heuristic);
    if from < groups.len() {
        let members = groups[from];
        let to_place = still_to_place(members, packing.locations);
        lemma_bin_for(order, 0, packing, members, rects, comparison, heuristic);
        let chosen = bin_for(order, 0, packing, members, rects, comparison, heuristic).unwrap();
        let at = choose|t: int| 0 <= t < order.len() && #[trigger] order[t] == chosen;
        let placed = with_group(packing, chosen, to_place, rects, comparison, heuristic);
        assert(after == with_groups(
            placed,
            groups,
            from + 1,
            order,
            rects,
            comparison,
            heuristic,
        ));
        lemma_with_groups(placed, groups, from + 1, order, rects, comparison, heuristic);
        lemma_still_to_place(members, packing.locations);
        lemma_locations_after_all(
            packing.locations,
            chosen,
            packing.sections[chosen],
            to_place,
            0,
            rects,
            comparison,
            heuristic,
        );
        assert forall|id: RectToPlaceId| #[trigger]
            packing.locations.contains_key(id) implies after.locations.contains_key(id)
            && after.locations[id] == packing.locations[id] by {
            if is_member_from(to_place, 0, id) {
                let i = choose|i: int| 0 <= i < to_place.len() && #[trigger] to_place[i] == id;
                assert(!packing.locations.contains_key(to_place[i]));
            }
            assert(placed.locations.contains_key(id));
        }
        assert forall|j: int| from <= j < groups.len() implies #[trigger] group_is_in_one_bin(
            after.locations,
            groups,
            j,
        ) by {
            if j == from {
                assert forall|i: int| 0 <= i < members.len() implies after.locations.contains_key(
                    #[trigger] members[i],
                ) && after.locations[members[i]].0 == chosen by {
                    let id = members[i];
                    if !packing.locations.contains_key(id) {
                        assert(to_place.contains(members[i]));
                        let k = choose|k: int| 0 <= k < to_place.len() && to_place[k] == id;
                        assert(to_place[k] == id);
                        assert(is_member_from(to_place, 0, id));
                    } else {
                        if is_member_from(to_place, 0, id) {
                            let k = choose|k: int|
                                0 <= k < to_place.len() && #[trigger] to_place[k] == id;
                            assert(!packing.locations.contains_key(to_place[k]));
                        }
                        assert(!is_member_from(to_place, 0, id));
                        assert(packing.locations[members[i]].0 == chosen);
                    }
                    assert(placed.locations.contains_key(id));
                    assert(placed.locations[id].0 == chosen);
                }
                assert(group_is_in_bin(after.locations, groups, j, chosen));
            }
        }
        assert forall|id: RectToPlaceId| #[trigger]
            after.locations.contains_key(id) && !packing.locations.contains_key(id) implies {
            &&& is_grouped_from(groups, from, id)
            &&& is_place_of(after.locations[id].1, rects[id])
            &&& exists|t: int| 0 <= t < order.len() && #[trigger] order[t] == after.locations[id].0
        } by {
            if placed.locations.contains_key(id) {
                assert(is_member_from(to_place, 0, id));
                let k = choose|k: int| 0 <= k < to_place.len() && #[trigger] to_place[k] == id;
                assert(members.contains(to_place[k]));
                let i = choose|i: int| 0 <= i < members.len() && members[i] == id;
                assert(groups[from][i] == id);
                assert(is_member_from(groups[from], 0, id));
                assert(order[at] == after.locations[id].0);
            } else {
                assert(is_grouped_from(groups, from + 1, id));
                let j = choose|j: int|
                    from + 1 <= j < groups.len() && is_member_from(#[trigger] groups[j], 0, id);
                assert(is_member_from(groups[j], 0, id));
            }
        }
    }
}

/// A group is never split over two bins: when the packing succeeds, all rectangles of
/// a group are in the same bin, whatever other groups they are in.
pub proof fn lemma_group_lands_in_one_bin<RectToPlaceId, BinId, GroupId, H, C>(
    registry: GroupedRectsView<RectToPlaceId, GroupId>,
    bins: Map<BinId, TargetBin>,
    comparison: &C,
    heuristic: &H,
    group: int,
    first: int,
    second: int,
) where
    H: Fn(WidthHeightDepth) -> u128,
    C: Fn([WidthHeightDepth; 3], [WidthHeightDepth; 3], &H) -> Ordering,

    requires
        packed(registry, bins, comparison, heuristic).complete,
        0 <= group < group_order(registry, heuristic).len(),
        0 <= first < group_order(registry, heuristic)[group].len(),
        0 <= second < group_order(registry, heuristic)[group].len(),
    ensures
        ({
            let locations = packed(registry, bins, comparison, heuristic).locations;
            let members = group_order(registry, heuristic)[group];
            &&& locations.contains_key(members[first])
            &&& locations.contains_key(members[second])
            &&& locations[members[first]].0 == locations[members[second]].0
        }),
{
    let groups = group_order(registry, heuristic);
    let start = Packing::<RectToPlaceId, BinId> {
        sections: sections_of(bins),
        locations: Map::empty(),
        complete: false,
    };
    let order = bin_order(bins, heuristic);
    lemma_with_groups(start, groups, 0, order, registry.rects, comparison, heuristic);
    let after = packed(registry, bins, comparison, heuristic);
    assert(group_is_in_one_bin(after.locations, groups, group));
    let bin = choose|bin: BinId| #[trigger] group_is_in_bin(after.locations, groups, group, bin);
    assert(group_is_in_bin(after.locations, groups, group, bin));
}

/// When the packing succeeds, every member of every group of the registry has a
/// place, and the members of a group have their places in one bin.
pub proof fn lemma_groups_are_together<RectToPlaceId, BinId, GroupId, H, C>(
    registry: &GroupedRectsToPlace<RectToPlaceId, GroupId>,
    bins: Map<BinId, TargetBin>,
    comparison: &C,
    heuristic: &H,
) where
    RectToPlaceId: Clone + Ord,
    GroupId: Clone + Ord,
    H: Fn(WidthHeightDepth) -> u128,
    C: Fn([WidthHeightDepth; 3], [WidthHeightDepth; 3], &H) -> Ordering,

    requires
        is_ordered::<RectToPlaceId>(),
        is_ordered::<GroupId>(),
        packed(registry@, bins, comparison, heuristic).complete,
    ensures
        groups_are_together(registry@, packed(registry@, bins, comparison, heuristic).locations),
{
    let groups = group_order(registry@, heuristic);
    let locations = packed(registry@, bins, comparison, heuristic).locations;
    lemma_group_order(registry, heuristic);
    assert forall|members: Seq<RectToPlaceId>, i: int, j: int|
        #![trigger registry@.has_group(members), members[i], members[j]]
        registry@.has_group(members) && 0 <= i < members.len() && 0 <= j < members.len() implies {
        &&& locations.contains_key(members[i])
        &&& locations.contains_key(members[j])
        &&& locations[members[i]].0 == locations[members[j]].0
    } by {
        assert(groups.contains(members));
        let group = choose|group: int| 0 <= group < groups.len() && groups[group] == members;
        lemma_group_lands_in_one_bin(registry@, bins, comparison, heuristic, group, i, j);
    }
}

/// The groups in the order in which they are placed are the groups of the registry.
pub proof fn lemma_group_order<RectToPlaceId, GroupId, H>(
    registry: &GroupedRectsToPlace<RectToPlaceId, GroupId>,
    heuristic: &H,
) where RectToPlaceId: Clone + Ord, GroupId: Clone + Ord, H: Fn(WidthHeightDepth) -> u128
    requires
        is_ordered::<RectToPlaceId>(),
        is_ordered::<GroupId>(),
    ensures
        forall|members: Seq<RectToPlaceId>|
            registry@.has_group(members) <==> #[trigger] group_order(registry@, heuristic).contains(
                members,
            ),
{
    registry.lemma_groups_in_order();
    let walked = registry@.groups_in_order();
    let scores = group_scores(registry@.rects, walked, heuristic);
    let order = stable_order(scores, true);
    let sorted = group_order(registry@, heuristic);
    lemma_stable_order(scores, true);
    assert forall|members: Seq<RectToPlaceId>| registry@.has_group(members) implies sorted.contains(
        members,
    ) by {
        assert(walked.contains(members));
        let at = choose|at: int| 0 <= at < walked.len() && walked[at] == members;
        lemma_stable_order_has(scores, true, at);
        let t = choose|t: int| 0 <= t < scores.len() && #[trigger] order[t] == at;
        assert(sorted[t] == members);
    }
    assert forall|members: Seq<RectToPlaceId>| #[trigger]
        sorted.contains(members) implies registry@.has_group(members) by {
        let t = choose|t: int| 0 <= t < sorted.len() && sorted[t] == members;
        assert(walked[order[t]] == members);
        assert(walked.contains(members));
    }
}

/// When the packing succeeds, every rectangle of the registry has a place, and nothing
/// else has: the result names each rectangle that was pushed, with a place of the
/// rectangle's own extent, not rotated.
pub proof fn lemma_every_rect_is_placed<RectToPlaceId, BinId, GroupId, H, C>(
    registry: &GroupedRectsToPlace<RectToPlaceId, GroupId>,
    bins: Map<BinId, TargetBin>,
    comparison: &C,
    heuristic: &H,
) where
    RectToPlaceId: Clone + Ord,
    GroupId: Clone + Ord,
    H: Fn(WidthHeightDepth) -> u128,
    C: Fn([WidthHeightDepth; 3], [WidthHeightDepth; 3], &H) -> Ordering,

    requires
        is_ordered::<RectToPlaceId>(),
        is_ordered::<GroupId>(),
        registry@.is_complete(),
        registry@.is_grouped(),
        packed(registry@, bins, comparison, heuristic).complete,
    ensures
        packed(registry@, bins, comparison, heuristic).locations.dom() == registry@.rects.dom(),
        forall|id: RectToPlaceId| #[trigger]
            registry@.rects.contains_key(id) ==> is_place_of(
                packed(registry@, bins, comparison, heuristic).locations[id].1,
                registry@.rects[id],
            ),
{
    let view = registry@;
    let groups = group_order(view, heuristic);
    let start = Packing::<RectToPlaceId, BinId> {
        sections: sections_of(bins),
        locations: Map::empty(),
        complete: false,
    };
    let order = bin_order(bins, heuristic);
    let after = packed(view, bins, comparison, heuristic);
    lemma_group_order(registry, heuristic);
    lemma_with_groups(start, groups, 0, order, view.rects, comparison, heuristic);
    assert forall|id: RectToPlaceId| #[trigger]
        view.rects.contains_key(id) implies after.locations.contains_key(id) by {
        assert(view.memberships.contains_key(id) && view.memberships[id].len() > 0);
        let members = match view.memberships[id][0] {
            Group::Ungrouped(name) => view.ungrouped[name],
            Group::Grouped(name) => view.grouped[name],
        };
        let first = view.memberships[id][0];
        match first {
            Group::Ungrouped(name) => {
                assert(view.ungrouped.contains_key(id) && name == id);
                assert(members[0] == id);
            },
            Group::Grouped(name) => {
                assert(view.grouped.contains_key(name) && view.grouped[name].contains(id));
            },
        }
        assert(view.has_group(members));
        assert(members.contains(id));
        assert(groups.contains(members));
        let j = choose|j: int| 0 <= j < groups.len() && groups[j] == members;
        let i = choose|i: int| 0 <= i < members.len() && members[i] == id;
        assert(group_is_in_one_bin(after.locations, groups, j));
        let bin = choose|bin: BinId| #[trigger] group_is_in_bin(after.locations, groups, j, bin);
        assert(after.locations.contains_key(groups[j][i]));
    }
    assert forall|id: RectToPlaceId| #[trigger]
        after.locations.contains_key(id) implies view.rects.contains_key(id) by {
        assert(!start.locations.contains_key(id));
        assert(is_grouped_from(groups, 0, id));
        let j = choose|j: int|
            0 <= j < groups.len() && is_member_from(#[trigger] groups[j], 0, id);
        let i = choose|i: int| 0 <= i < groups[j].len() && #[trigger] groups[j][i] == id;
        assert(groups.contains(groups[j]));
        assert(view.has_group(groups[j]));
    }
    assert(after.locations.dom() =~= view.rects.dom());
    assert forall|id: RectToPlaceId| #[trigger] view.rects.contains_key(id) implies is_place_of(
        after.locations[id].1,
        view.rects[id],
    ) by {
        assert(after.locations.contains_key(id) && !start.locations.contains_key(id));
    }
}

/// `kept` holds the sections of `all` at the places `places`, which go up.
pub open spec fn is_kept_at(kept: Seq<BinSection>, all: Seq<BinSection>, places: Seq<int>) -> bool {
    &&& places.len() == kept.len()
    &&& forall|i: int|
        0 <= i < places.len() ==> 0 <= #[trigger] places[i] < all.len() && kept[i]
            == all[places[i]]
    &&& forall|i: int, j: int|
        0 <= i < j < places.len() ==> #[trigger] places[i] < #[trigger] places[j]
}

/// `kept` holds the strips of `split` at the places `strips`, none of them twice.
pub open spec fn is_made_of(kept: Seq<BinSection>, split: [BinSection; 3], strips: Seq<int>) -> bool {
    &&& strips.len() == kept.len()
    &&& forall|i: int|
        0 <= i < strips.len() ==> 0 <= #[trigger] strips[i] < 3 && kept[i] == split[strips[i]]
    &&& forall|i: int, j: int|
        0 <= i < j < strips.len() ==> #[trigger] strips[i] != #[trigger] strips[j]
}

/// What is kept of a list of sections is kept in order: the sections that are not
/// empty are sections of the list at places that go up.
pub proof fn lemma_kept_in_order(sections: Seq<BinSection>)
    ensures
        exists|places: Seq<int>| #[trigger] is_kept_at(keep_nonempty(sections), sections, places),
    decreases sections.len(),
{
    reveal(Seq::filter);
    if sections.len() == 0 {
        assert(is_kept_at(keep_nonempty(sections), sections, Seq::<int>::empty()));
    } else {
        let shorter = sections.drop_last();
        lemma_kept_in_order(shorter);
        let before = choose|places: Seq<int>| #[trigger]
            is_kept_at(keep_nonempty(shorter), shorter, places);
        lemma_keep_nonempty_push(shorter, sections.last());
        assert(shorter.push(sections.last()) == sections);
        if sections.last().spec_volume() > 0 {
            let places = before.push(sections.len() - 1);
            assert forall|i: int| 0 <= i < places.len() implies 0 <= #[trigger] places[i]
                < sections.len() && keep_nonempty(sections)[i] == sections[places[i]] by {
                if i < before.len() {
                    assert(places[i] == before[i]);
                    assert(shorter[before[i]] == sections[before[i]]);
                }
            }
            assert forall|i: int, j: int| 0 <= i < j < places.len() implies #[trigger] places[i]
                < #[trigger] places[j] by {
                assert(places[i] == before[i]);
                if j < before.len() {
                    assert(places[j] == before[j]);
                }
            }
            assert(is_kept_at(keep_nonempty(sections), sections, places));
        } else {
            assert forall|i: int| 0 <= i < before.len() implies 0 <= #[trigger] before[i]
                < sections.len() && keep_nonempty(sections)[i] == sections[before[i]] by {
                assert(shorter[before[i]] == sections[before[i]]);
            }
            assert(is_kept_at(keep_nonempty(sections), sections, before));
        }
    }
}

/// Different sections of what a split adds to the free sections of a bin are different
/// strips of the split.
pub proof fn lemma_leftovers<H: Fn(WidthHeightDepth) -> u128>(
    split: [BinSection; 3],
    heuristic: &H,
)
    ensures
        exists|strips: Seq<int>| #[trigger] is_made_of(leftovers(split, heuristic), split, strips),
{
    let scores = scores_of(split@, heuristic);
    let order = stable_order(scores, true);
    let sorted = largest_first(split@, heuristic);
    lemma_stable_order(scores, true);
    lemma_kept_in_order(sorted);
    let places = choose|places: Seq<int>| #[trigger]
        is_kept_at(keep_nonempty(sorted), sorted, places);
    let strips = Seq::new(places.len(), |i: int| order[places[i]]);
    assert forall|i: int| 0 <= i < strips.len() implies 0 <= #[trigger] strips[i] < 3
        && leftovers(split, heuristic)[i] == split[strips[i]] by {
        assert(0 <= places[i] < sorted.len());
        assert(0 <= order[places[i]] < 3);
        assert(sorted[places[i]] == split@[order[places[i]]]);
    }
    assert forall|i: int, j: int| 0 <= i < j < strips.len() implies #[trigger] strips[i]
        != #[trigger] strips[j] by {
        assert(places[i] < places[j]);
        assert(precedes(scores, true, order[places[i]], order[places[j]]));
    }
    assert(is_made_of(leftovers(split, heuristic), split, strips));
}

/// Placing a rectangle keeps the free sections of a bin tidy: the new sections lie
/// inside the bin like the old ones, and still no two share a cell. The rectangle
/// itself lies inside the bin and shares no cell with what is free after it.
pub proof fn lemma_placing_keeps_tidy<H, C>(
    sections: Seq<BinSection>,
    whole: BinSection,
    rect: RectToInsert,
    comparison: &C,
    heuristic: &H,
) where
    H: Fn(WidthHeightDepth) -> u128,
    C: Fn([WidthHeightDepth; 3], [WidthHeightDepth; 3], &H) -> Ordering,

    requires
        is_tidy(sections, whole),
        whole.in_coordinate_range(),
        section_for(sections, rect) is Some,
    ensures
        is_tidy(sections_after(sections, rect, comparison, heuristic), whole),
        location_in(sections, rect).cells().is_within(&whole),
        is_clear_of(
            location_in(sections, rect).cells(),
            sections_after(sections, rect, comparison, heuristic),
        ),
{
    lemma_section_for(sections, rect);
    let k = section_for(sections, rect).unwrap();
    let section = sections[k];
    let taken = location_in(sections, rect).cells();
    assert(taken == section.taken_by(rect));
    assert(section.is_within(&whole));
    let split = section.chosen_split(rect, comparison, heuristic);
    lemma_best_is_a_candidate(comparison, heuristic, section.splits(rect), 5);
    let which = choose|which: int| 0 <= which <= 5 && split == #[trigger] section.splits(rect)[which];
    lemma_split_is_a_partition(section, rect, which);
    lemma_split_stays_inside(section, rect, which, 0);
    lemma_split_stays_inside(section, rect, which, 1);
    lemma_split_stays_inside(section, rect, which, 2);
    lemma_leftovers(split, heuristic);
    let kept = leftovers(split, heuristic);
    let strips = choose|strips: Seq<int>| #[trigger] is_made_of(kept, split, strips);
    let after = sections_after(sections, rect, comparison, heuristic);
    let old_count = sections.len() - 1;
    assert(after.len() == old_count + kept.len());
    // Each section of `after` is an old section other than `section`, or a strip.
    assert forall|i: int| 0 <= i < after.len() implies {
        &&& (#[trigger] after[i]).is_within(&whole)
        &&& taken.is_disjoint_from(&after[i])
        &&& i < old_count ==> after[i] == sections[if i < k {
            i
        } else {
            i + 1
        }]
        &&& i >= old_count ==> after[i] == split[strips[i - old_count]]
    } by {
        if i < old_count {
            let j = if i < k {
                i
            } else {
                i + 1
            };
            assert(after[i] == sections[j]);
            assert(sections[j].is_disjoint_from(&sections[k]));
            lemma_disjoint_from_part(taken, section, sections[j]);
        } else {
            let t = strips[i - old_count];
            assert(after[i] == kept[i - old_count]);
            assert(after[i] == split[t]);
            assert(split[t].is_within(&section));
        }
    }
    assert forall|i: int, j: int|
        #![trigger after[i], after[j]]
        0 <= i < after.len() && 0 <= j < after.len() && i != j implies after[i].is_disjoint_from(
        &after[j],
    ) by {
        if i < old_count && j < old_count {
            let a = if i < k {
                i
            } else {
                i + 1
            };
            let b = if j < k {
                j
            } else {
                j + 1
            };
            assert(sections[a].is_disjoint_from(&sections[b]));
        } else if i < old_count {
            let a = if i < k {
                i
            } else {
                i + 1
            };
            assert(sections[a].is_disjoint_from(&sections[k]));
            lemma_disjoint_from_part(after[j], section, sections[a]);
        } else if j < old_count {
            let b = if j < k {
                j
            } else {
                j + 1
            };
            assert(sections[b].is_disjoint_from(&sections[k]));
            lemma_disjoint_from_part(after[i], section, sections[b]);
        } else {
            let a = strips[i - old_count];
            let b = strips[j - old_count];
            assert(a != b);
        }
    }
}

/// What shares no cell with the free sections of a bin shares none with a rectangle
/// that is placed into the bin, nor with what is free after that.
pub proof fn lemma_placing_stays_clear<H, C>(
    sections: Seq<BinSection>,
    rect: RectToInsert,
    comparison: &C,
    heuristic: &H,
    other: BinSection,
) where
    H: Fn(WidthHeightDepth) -> u128,
    C: Fn([WidthHeightDepth; 3], [WidthHeightDepth; 3], &H) -> Ordering,

    requires
        all_in_coordinate_range(sections),
        section_for(sections, rect) is Some,
        is_clear_of(other, sections),
    ensures
        other.is_disjoint_from(&location_in(sections, rect).cells()),
        is_clear_of(other, sections_after(sections, rect, comparison, heuristic)),
{
    lemma_section_for(sections, rect);
    let k = section_for(sections, rect).unwrap();
    let section = sections[k];
    let taken = location_in(sections, rect).cells();
    assert(taken == section.taken_by(rect));
    assert(other.is_disjoint_from(&sections[k]));
    let split = section.chosen_split(rect, comparison, heuristic);
    lemma_best_is_a_candidate(comparison, heuristic, section.splits(rect), 5);
    let which = choose|which: int| 0 <= which <= 5 && split == #[trigger] section.splits(rect)[which];
    lemma_split_is_a_partition(section, rect, which);
    lemma_split_stays_inside(section, rect, which, 0);
    lemma_split_stays_inside(section, rect, which, 1);
    lemma_split_stays_inside(section, rect, which, 2);
    lemma_disjoint_from_part(taken, section, other);
    lemma_leftovers(split, heuristic);
    let kept = leftovers(split, heuristic);
    let strips = choose|strips: Seq<int>| #[trigger] is_made_of(kept, split, strips);
    let after = sections_after(sections, rect, comparison, heuristic);
    let old_count = sections.len() - 1;
    assert forall|i: int| 0 <= i < after.len() implies other.is_disjoint_from(
        &#[trigger] after[i],
    ) by {
        if i < old_count {
            let j = if i < k {
                i
            } else {
                i + 1
            };
            assert(after[i] == sections[j]);
        } else {
            let t = strips[i - old_count];
            assert(after[i] == kept[i - old_count]);
            assert(after[i] == split[t]);
            lemma_disjoint_from_part(split[t], section, other);
        }
    }
}

/// The sections that span the bins.
pub open spec fn wholes_of<BinId>(bins: Map<BinId, TargetBin>) -> Map<BinId, BinSection> {
    bins.map_values(|bin: TargetBin| bin@.whole())
}

/// The free sections of every bin lie inside the bin, which spans `wholes[bin]`, and
/// no two of them share a cell.
pub open spec fn sections_are_tidy<BinId>(
    sections: Map<BinId, Seq<BinSection>>,
    wholes: Map<BinId, BinSection>,
) -> bool {
    forall|bin: BinId| #[trigger]
        sections.contains_key(bin) ==> wholes.contains_key(bin)
            && wholes[bin].in_coordinate_range() && is_tidy(sections[bin], wholes[bin])
}

/// Every rectangle whose place is recorded lies inside its bin and shares no cell with
/// what is free in that bin.
pub open spec fn locations_are_clear<RectToPlaceId, BinId>(
    sections: Map<BinId, Seq<BinSection>>,
    locations: Map<RectToPlaceId, (BinId, PackedLocation)>,
    wholes: Map<BinId, BinSection>,
) -> bool {
    forall|id: RectToPlaceId| #[trigger]
        locations.contains_key(id) ==> {
            &&& sections.contains_key(locations[id].0)
            &&& locations[id].1.cells().is_within(&wholes[locations[id].0])
            &&& is_clear_of(locations[id].1.cells(), sections[locations[id].0])
        }
}

/// No two rectangles that are recorded in the same bin share a cell.
pub open spec fn locations_are_apart<RectToPlaceId, BinId>(
    locations: Map<RectToPlaceId, (BinId, PackedLocation)>,
) -> bool {
    forall|id: RectToPlaceId, other: RectToPlaceId|
        #![trigger locations.contains_key(id), locations.contains_key(other)]
        locations.contains_key(id) && locations.contains_key(other) && id != other
            && locations[id].0 == locations[other].0 ==> locations[id].1.cells().is_disjoint_from(
            &locations[other].1.cells(),
        )
}

/// Nothing overlaps in a packing of bins that span the sections `wholes`.
///
/// The free sections of every bin lie inside the bin, and no two of them share a cell.
/// Every rectangle whose place is recorded lies inside its bin, shares no cell with
/// what is free in that bin, and shares none with another rectangle that is recorded
/// in the same bin.
pub open spec fn is_sound<RectToPlaceId, BinId>(
    packing: Packing<RectToPlaceId, BinId>,
    wholes: Map<BinId, BinSection>,
) -> bool {
    &&& sections_are_tidy(packing.sections, wholes)
    &&& locations_are_clear(packing.sections, packing.locations, wholes)
    &&& locations_are_apart(packing.locations)
}

/// Sections that lie inside a section that ends on the `u32` grid end there too.
pub proof fn lemma_tidy_is_in_range(sections: Seq<BinSection>, whole: BinSection)
    requires
        is_tidy(sections, whole),
        whole.in_coordinate_range(),
    ensures
        all_in_coordinate_range(sections),
{
    assert forall|i: int| 0 <= i < sections.len() implies (#[trigger] sections[i]).in_coordinate_range() by {
        assert(sections[i].is_within(&whole));
    }
}

/// Placing the rectangles of a group into a bin that has room for them keeps the
/// packing sound.
pub proof fn lemma_group_keeps_sound<RectToPlaceId, BinId, H, C>(
    sections: Map<BinId, Seq<BinSection>>,
    locations: Map<RectToPlaceId, (BinId, PackedLocation)>,
    complete: bool,
    wholes: Map<BinId, BinSection>,
    bin: BinId,
    members: Seq<RectToPlaceId>,
    from: int,
    rects: Map<RectToPlaceId, RectToInsert>,
    comparison: &C,
    heuristic: &H,
) where
    H: Fn(WidthHeightDepth) -> u128,
    C: Fn([WidthHeightDepth; 3], [WidthHeightDepth; 3], &H) -> Ordering,

    requires
        0 <= from,
        sections.contains_key(bin),
        is_sound(Packing { sections, locations, complete }, wholes),
        sections_after_all(
            sections[bin],
            rects_of(rects, members),
            from,
            comparison,
            heuristic,
        ) is Some,
    ensures
        is_sound(
            Packing {
                sections: sections.insert(
                    bin,
                    sections_after_all(
                        sections[bin],
                        rects_of(rects, members),
                        from,
                        comparison,
                        heuristic,
                    ).unwrap(),
                ),
                locations: locations_after_all(
                    locations,
                    bin,
                    sections[bin],
                    members,
                    from,
                    rects,
                    comparison,
                    heuristic,
                ),
                complete,
            },
            wholes,
        ),
    decreases members.len() - from,
{
    let free = sections[bin];
    if from < members.len() {
        let rect = rects[members[from]];
        assert(rects_of(rects, members)[from] == rect);
        let whole = wholes[bin];
        assert(is_tidy(sections[bin], whole));
        lemma_tidy_is_in_range(free, whole);
        lemma_placing_keeps_tidy(free, whole, rect, comparison, heuristic);
        let free_after = sections_after(free, rect, comparison, heuristic);
        let place = location_in(free, rect);
        let sections_next = sections.insert(bin, free_after);
        let locations_next = locations.insert(members[from], (bin, place));
        assert forall|b: BinId| #[trigger]
            sections_next.contains_key(b) implies (wholes.contains_key(b)
            && wholes[b].in_coordinate_range() && is_tidy(sections_next[b], wholes[b])) by {
            if b != bin {
                assert(sections.contains_key(b));
                assert(sections_next[b] == sections[b]);
                assert(is_tidy(sections[b], wholes[b]));
            } else {
                assert(sections_next[b] == free_after);
                assert(is_tidy(free_after, whole));
            }
        }
        assert(sections_are_tidy(sections_next, wholes));
        assert(locations_are_clear(sections_next, locations_next, wholes)) by {
            assert forall|id: RectToPlaceId| #[trigger]
                locations_next.contains_key(id) implies {
                &&& sections_next.contains_key(locations_next[id].0)
                &&& locations_next[id].1.cells().is_within(&wholes[locations_next[id].0])
                &&& is_clear_of(locations_next[id].1.cells(), sections_next[locations_next[id].0])
            } by {
                if id != members[from] {
                    assert(locations_next[id] == locations[id]);
                    let b = locations[id].0;
                    let cells = locations[id].1.cells();
                    assert(is_clear_of(cells, sections[b]));
                    if b == bin {
                        lemma_placing_stays_clear(free, rect, comparison, heuristic, cells);
                    } else {
                        assert(sections_next[b] == sections[b]);
                    }
                }
            }
        }
        assert(locations_are_apart(locations_next)) by {
            assert forall|id: RectToPlaceId, other: RectToPlaceId|
                #![trigger locations_next.contains_key(id), locations_next.contains_key(other)]
                locations_next.contains_key(id) && locations_next.contains_key(other) && id
                    != other && locations_next[id].0
                    == locations_next[other].0 implies locations_next[id].1.cells().is_disjoint_from(
                &locations_next[other].1.cells(),
            ) by {
                if id == members[from] {
                    assert(locations_next[other] == locations[other]);
                    let cells = locations[other].1.cells();
                    assert(is_clear_of(cells, sections[bin]));
                    lemma_placing_stays_clear(free, rect, comparison, heuristic, cells);
                } else if other == members[from] {
                    assert(locations_next[id] == locations[id]);
                    let cells = locations[id].1.cells();
                    assert(is_clear_of(cells, sections[bin]));
                    lemma_placing_stays_clear(free, rect, comparison, heuristic, cells);
                } else {
                    assert(locations_next[id] == locations[id]);
                    assert(locations_next[other] == locations[other]);
                }
            }
        }
        lemma_group_keeps_sound(
            sections_next,
            locations_next,
            complete,
            wholes,
            bin,
            members,
            from + 1,
            rects,
            comparison,
            heuristic,
        );
        assert(sections_next.insert(
            bin,
            sections_after_all(
                free_after,
                rects_of(rects, members),
                from + 1,
                comparison,
                heuristic,
            ).unwrap(),
        ) =~= sections.insert(
            bin,
            sections_after_all(
                free,
                rects_of(rects, members),
                from,
                comparison,
                heuristic,
            ).unwrap(),
        ));
    } else {
        assert(sections.insert(bin, free) =~= sections);
    }
}

/// Placing groups keeps a packing sound, where every bin that is tried is one of the
/// bins of the packing.
pub proof fn lemma_groups_keep_sound<RectToPlaceId, BinId, H, C>(
    packing: Packing<RectToPlaceId, BinId>,
    wholes: Map<BinId, BinSection>,
    groups: Seq<Seq<RectToPlaceId>>,
    from: int,
    order: Seq<BinId>,
    rects: Map<RectToPlaceId, RectToInsert>,
    comparison: &C,
    heuristic: &H,
) where
    H: Fn(WidthHeightDepth) -> u128,
    C: Fn([WidthHeightDepth; 3], [WidthHeightDepth; 3], &H) -> Ordering,

    requires
        0 <= from,
        is_sound(packing, wholes),
        forall|t: int| 0 <= t < order.len() ==> packing.sections.contains_key(#[trigger] order[t]),
    ensures
        is_sound(
            with_groups(packing, groups, from, order, rects, comparison, heuristic),
            wholes,
        ),
    decreases groups.len() - from,
{
    if from < groups.len() {
        let members = still_to_place(groups[from], packing.locations);
        lemma_bin_for(order, 0, packing, groups[from], rects, comparison, heuristic);
        match bin_for(order, 0, packing, groups[from], rects, comparison, heuristic) {
            Some(bin) => {
                let placed = with_group(packing, bin, members, rects, comparison, heuristic);
                lemma_group_keeps_sound(
                    packing.sections,
                    packing.locations,
                    packing.complete,
                    wholes,
                    bin,
                    members,
                    0,
                    rects,
                    comparison,
                    heuristic,
                );
                assert forall|t: int| 0 <= t < order.len() implies placed.sections.contains_key(
                    #[trigger] order[t],
                ) by {
                    assert(packing.sections.contains_key(order[t]));
                }
                lemma_groups_keep_sound(
                    placed,
                    wholes,
                    groups,
                    from + 1,
                    order,
                    rects,
                    comparison,
                    heuristic,
                );
            },
            None => {},
        }
    }
    let after = with_groups(packing, groups, from, order, rects, comparison, heuristic);
    assert(sections_are_tidy(after.sections, wholes));
    assert(locations_are_clear(after.sections, after.locations, wholes));
    assert(locations_are_apart(after.locations));
}

/// Nothing overlaps in what [`crate::packing::pack_rects`] makes of bins whose free
/// sections are tidy, as those of a new bin are: the rectangles that it places lie
/// inside their bins, no two rectangles that it reports in the same bin share a cell,
/// and none shares a cell with what it leaves free. This holds of a packing that fails
/// too.
pub proof fn lemma_packing_is_sound<RectToPlaceId, BinId, GroupId, H, C>(
    registry: GroupedRectsView<RectToPlaceId, GroupId>,
    bins: &BTreeMap<BinId, TargetBin>,
    comparison: &C,
    heuristic: &H,
) where
    BinId: Ord,
    H: Fn(WidthHeightDepth) -> u128,
    C: Fn([WidthHeightDepth; 3], [WidthHeightDepth; 3], &H) -> Ordering,

    requires
        is_ordered::<BinId>(),
        forall|bin: BinId| bins@.contains_key(bin) ==> (#[trigger] bins@[bin])@.is_tidy(),
    ensures
        is_sound(packed(registry, bins@, comparison, heuristic), wholes_of(bins@)),
{
    let start = Packing::<RectToPlaceId, BinId> {
        sections: sections_of(bins@),
        locations: Map::empty(),
        complete: false,
    };
    let wholes = wholes_of(bins@);
    lemma_bin_order(bins, heuristic);
    assert(sections_are_tidy(start.sections, wholes)) by {
        assert forall|bin: BinId| #[trigger]
            start.sections.contains_key(bin) implies wholes.contains_key(bin)
            && wholes[bin].in_coordinate_range() && is_tidy(start.sections[bin], wholes[bin]) by {
            assert(bins@[bin]@.is_tidy());
        }
    }
    lemma_groups_keep_sound(
        start,
        wholes,
        group_order(registry, heuristic),
        0,
        bin_order(bins@, heuristic),
        registry.rects,
        comparison,
        heuristic,
    );
}

} // verus!
