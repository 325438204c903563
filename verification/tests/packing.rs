use rectangle_pack::contains_smallest_box;
use rectangle_pack::pack_rects;
use rectangle_pack::packing::can_fit_entire_group_into_bin;
use rectangle_pack::volume_heuristic;
use rectangle_pack::BinSection;
use rectangle_pack::GroupedRectsToPlace;
use rectangle_pack::RectToInsert;
use rectangle_pack::RectanglePackError;
use rectangle_pack::TargetBin;
use rectangle_pack::WidthHeightDepth;
use std::collections::BTreeMap;

fn section(x: u32, y: u32, z: u32, width: u32, height: u32, depth: u32) -> BinSection {
    BinSection::new_spread(x, y, z, width, height, depth)
}

#[test]
fn packing_nothing_succeeds_and_leaves_the_bins_alone() {
    let registry: GroupedRectsToPlace<u32, u32> = GroupedRectsToPlace::new();
    let mut bins = BTreeMap::new();
    bins.insert(1, TargetBin::new(10, 10, 10));

    let packed = pack_rects(
        &registry,
        &mut bins,
        &volume_heuristic,
        &contains_smallest_box,
    )
    .unwrap();

    assert_eq!(packed.packed_locations().len(), 0);
    assert_eq!(
        bins[&1].available_bin_sections(),
        &vec![section(0, 0, 0, 10, 10, 10)]
    );
}

#[test]
fn packing_without_bins_fails_when_there_is_a_rectangle() {
    let mut registry: GroupedRectsToPlace<u32, u32> = GroupedRectsToPlace::new();
    registry.push_rect(1, None, RectToInsert::new(1, 1, 1));
    let mut bins: BTreeMap<u32, TargetBin> = BTreeMap::new();

    assert_eq!(
        pack_rects(
            &registry,
            &mut bins,
            &volume_heuristic,
            &contains_smallest_box
        ),
        Err(RectanglePackError::NotEnoughBinSpace)
    );
}

#[test]
fn packing_twice_gives_the_same_result_and_the_same_bins() {
    let mut registry = GroupedRectsToPlace::new();
    registry.push_rect("a", Some(vec![1]), RectToInsert::new(3, 4, 1));
    registry.push_rect("b", Some(vec![1]), RectToInsert::new(5, 2, 1));
    registry.push_rect("c", None, RectToInsert::new(6, 6, 1));
    registry.push_rect("d", None, RectToInsert::new(1, 1, 1));

    let mut first_bins = BTreeMap::new();
    first_bins.insert(10, TargetBin::new(8, 8, 1));
    first_bins.insert(20, TargetBin::new(8, 8, 1));
    let mut second_bins = first_bins.clone();

    let first = pack_rects(
        &registry,
        &mut first_bins,
        &volume_heuristic,
        &contains_smallest_box,
    );
    let second = pack_rects(
        &registry,
        &mut second_bins,
        &volume_heuristic,
        &contains_smallest_box,
    );

    assert!(first.is_ok());
    assert_eq!(first, second);
    for id in [10, 20] {
        assert_eq!(
            first_bins[&id].available_bin_sections(),
            second_bins[&id].available_bin_sections()
        );
    }
}

#[test]
fn group_that_fits_no_bin_fails_though_its_rectangles_fit_alone() {
    let mut registry = GroupedRectsToPlace::new();
    registry.push_rect("a", Some(vec!["together"]), RectToInsert::new(6, 10, 1));
    registry.push_rect("b", Some(vec!["together"]), RectToInsert::new(6, 10, 1));

    let mut bins = BTreeMap::new();
    bins.insert(1, TargetBin::new(10, 10, 1));
    bins.insert(2, TargetBin::new(10, 10, 1));

    assert_eq!(
        pack_rects(
            &registry,
            &mut bins,
            &volume_heuristic,
            &contains_smallest_box
        ),
        Err(RectanglePackError::NotEnoughBinSpace)
    );
    for id in [1, 2] {
        assert_eq!(
            bins[&id].available_bin_sections(),
            &vec![section(0, 0, 0, 10, 10, 1)]
        );
    }

    let mut alone = GroupedRectsToPlace::<_, ()>::new();
    alone.push_rect("a", None, RectToInsert::new(6, 10, 1));
    alone.push_rect("b", None, RectToInsert::new(6, 10, 1));

    let packed = pack_rects(
        &alone,
        &mut bins,
        &volume_heuristic,
        &contains_smallest_box,
    )
    .unwrap();
    assert_eq!(packed.packed_locations()[&"a"].0, 1);
    assert_eq!(packed.packed_locations()[&"b"].0, 2);
}

#[test]
fn group_lands_in_one_bin() {
    let mut registry = GroupedRectsToPlace::new();
    registry.push_rect("a", Some(vec!["together"]), RectToInsert::new(6, 10, 1));
    registry.push_rect("b", Some(vec!["together"]), RectToInsert::new(6, 10, 1));

    let mut bins = BTreeMap::new();
    bins.insert(1, TargetBin::new(10, 10, 1));
    bins.insert(2, TargetBin::new(12, 10, 1));
    bins.insert(3, TargetBin::new(100, 100, 1));

    let packed = pack_rects(
        &registry,
        &mut bins,
        &volume_heuristic,
        &contains_smallest_box,
    )
    .unwrap();
    let locations = packed.packed_locations();

    assert_eq!(locations[&"a"].0, 2);
    assert_eq!(locations[&"b"].0, 2);
    assert_eq!((locations[&"a"].1.x(), locations[&"a"].1.y()), (0, 0));
    assert_eq!((locations[&"b"].1.x(), locations[&"b"].1.y()), (6, 0));
    assert_eq!(bins[&2].available_bin_sections().len(), 0);
    assert_eq!(bins[&1].available_bin_sections().len(), 1);
}

#[test]
fn rectangle_goes_into_the_lowest_scored_bin_that_it_fits_in() {
    let mut registry: GroupedRectsToPlace<_, ()> = GroupedRectsToPlace::new();
    registry.push_rect("a", None, RectToInsert::new(4, 4, 1));

    let mut bins = BTreeMap::new();
    bins.insert("huge", TargetBin::new(50, 50, 1));
    bins.insert("long", TargetBin::new(30, 2, 1));
    bins.insert("right", TargetBin::new(5, 5, 1));
    bins.insert("small", TargetBin::new(3, 3, 1));

    let packed = pack_rects(
        &registry,
        &mut bins,
        &volume_heuristic,
        &contains_smallest_box,
    )
    .unwrap();

    assert_eq!(packed.packed_locations()[&"a"].0, "right");
    assert_eq!(
        bins["huge"].available_bin_sections(),
        &vec![section(0, 0, 0, 50, 50, 1)]
    );
}

#[test]
fn bins_of_equal_score_are_tried_by_identifier() {
    let mut registry: GroupedRectsToPlace<_, ()> = GroupedRectsToPlace::new();
    registry.push_rect("a", None, RectToInsert::new(2, 2, 1));

    let mut bins = BTreeMap::new();
    bins.insert(9, TargetBin::new(4, 4, 1));
    bins.insert(3, TargetBin::new(2, 8, 1));
    bins.insert(5, TargetBin::new(8, 2, 1));

    let packed = pack_rects(
        &registry,
        &mut bins,
        &volume_heuristic,
        &contains_smallest_box,
    )
    .unwrap();

    assert_eq!(packed.packed_locations()[&"a"].0, 3);
}

#[test]
fn largest_group_is_placed_first() {
    let mut registry = GroupedRectsToPlace::new();
    registry.push_rect("big", None, RectToInsert::new(5, 5, 1));
    registry.push_rect("p", Some(vec!["pair"]), RectToInsert::new(4, 4, 1));
    registry.push_rect("q", Some(vec!["pair"]), RectToInsert::new(4, 4, 1));

    let mut bins = BTreeMap::new();
    bins.insert(1, TargetBin::new(20, 20, 1));

    let packed = pack_rects(
        &registry,
        &mut bins,
        &volume_heuristic,
        &contains_smallest_box,
    )
    .unwrap();
    let locations = packed.packed_locations();

    assert_eq!((locations[&"p"].1.x(), locations[&"p"].1.y()), (0, 0));
    assert_eq!(locations.len(), 3);
    assert_ne!((locations[&"big"].1.x(), locations[&"big"].1.y()), (0, 0));
}

#[test]
fn groups_of_equal_size_are_placed_in_the_order_of_the_registry() {
    let mut registry: GroupedRectsToPlace<_, ()> = GroupedRectsToPlace::new();
    registry.push_rect(2, None, RectToInsert::new(4, 4, 1));
    registry.push_rect(1, None, RectToInsert::new(4, 4, 1));
    registry.push_rect(3, None, RectToInsert::new(4, 4, 1));

    let mut bins = BTreeMap::new();
    bins.insert("a", TargetBin::new(4, 4, 1));
    bins.insert("b", TargetBin::new(4, 4, 1));
    bins.insert("c", TargetBin::new(4, 4, 1));

    let packed = pack_rects(
        &registry,
        &mut bins,
        &volume_heuristic,
        &contains_smallest_box,
    )
    .unwrap();
    let locations = packed.packed_locations();

    assert_eq!(locations[&1].0, "a");
    assert_eq!(locations[&2].0, "b");
    assert_eq!(locations[&3].0, "c");
}

#[test]
fn failure_keeps_what_earlier_groups_took() {
    let mut registry: GroupedRectsToPlace<_, ()> = GroupedRectsToPlace::new();
    registry.push_rect("fits", None, RectToInsert::new(10, 10, 1));
    registry.push_rect("too wide", None, RectToInsert::new(11, 1, 1));

    let mut bins = BTreeMap::new();
    bins.insert(1, TargetBin::new(10, 20, 1));

    assert_eq!(
        pack_rects(
            &registry,
            &mut bins,
            &volume_heuristic,
            &contains_smallest_box
        ),
        Err(RectanglePackError::NotEnoughBinSpace)
    );
    assert_eq!(
        bins[&1].available_bin_sections(),
        &vec![section(0, 10, 0, 10, 10, 1)]
    );
}

#[test]
fn rectangle_in_two_groups_is_placed_once() {
    let mut registry = GroupedRectsToPlace::new();
    registry.push_rect("shared", Some(vec![1, 2]), RectToInsert::new(4, 4, 1));
    registry.push_rect("other", Some(vec![2]), RectToInsert::new(4, 4, 1));

    let mut bins = BTreeMap::new();
    bins.insert("only", TargetBin::new(12, 4, 1));

    let packed = pack_rects(
        &registry,
        &mut bins,
        &volume_heuristic,
        &contains_smallest_box,
    )
    .unwrap();
    let locations = packed.packed_locations();

    // The group of two is the larger one and goes first: "shared" at 0, "other" at 4.
    // The group of one finds its only member placed, and takes no room.
    assert_eq!(locations.len(), 2);
    assert_eq!(locations[&"shared"].1.x(), 0);
    assert_eq!(locations[&"other"].1.x(), 4);
    assert_eq!(
        bins["only"].available_bin_sections(),
        &vec![section(8, 0, 0, 4, 4, 1)]
    );

    let mut just_enough = BTreeMap::new();
    just_enough.insert("only", TargetBin::new(8, 4, 1));
    let packed = pack_rects(
        &registry,
        &mut just_enough,
        &volume_heuristic,
        &contains_smallest_box,
    )
    .unwrap();
    assert_eq!(packed.packed_locations().len(), 2);
    assert_eq!(just_enough["only"].available_bin_sections().len(), 0);
}

#[test]
fn groups_that_share_a_rectangle_land_in_one_bin_or_the_call_fails() {
    let mut registry = GroupedRectsToPlace::new();
    registry.push_rect("a", Some(vec![1, 2]), RectToInsert::new(10, 10, 1));
    registry.push_rect("b", Some(vec![1]), RectToInsert::new(10, 10, 1));
    registry.push_rect("c", Some(vec![2]), RectToInsert::new(10, 10, 1));

    // No bin holds three rectangles: the two groups cannot both be with "a".
    let mut bins_of_two = BTreeMap::new();
    bins_of_two.insert(1, TargetBin::new(20, 10, 1));
    bins_of_two.insert(2, TargetBin::new(20, 10, 1));
    assert_eq!(
        pack_rects(
            &registry,
            &mut bins_of_two,
            &volume_heuristic,
            &contains_smallest_box
        ),
        Err(RectanglePackError::NotEnoughBinSpace)
    );

    let mut bins_of_three = BTreeMap::new();
    bins_of_three.insert(1, TargetBin::new(30, 10, 1));
    bins_of_three.insert(2, TargetBin::new(30, 10, 1));
    let packed = pack_rects(
        &registry,
        &mut bins_of_three,
        &volume_heuristic,
        &contains_smallest_box,
    )
    .unwrap();
    let locations = packed.packed_locations();

    assert_eq!(locations.len(), 3);
    assert_eq!(locations[&"a"].0, 1);
    assert_eq!(locations[&"b"].0, 1);
    assert_eq!(locations[&"c"].0, 1);
    assert_eq!(locations[&"a"].1.x(), 0);
    assert_eq!(locations[&"b"].1.x(), 10);
    assert_eq!(locations[&"c"].1.x(), 20);
    assert_eq!(bins_of_three[&1].available_bin_sections().len(), 0);
    assert_eq!(
        bins_of_three[&2].available_bin_sections(),
        &vec![section(0, 0, 0, 30, 10, 1)]
    );
}

#[test]
fn group_whose_members_are_in_two_bins_already_fails() {
    let mut registry = GroupedRectsToPlace::new();
    registry.push_rect("a", Some(vec![1, 3]), RectToInsert::new(10, 10, 1));
    registry.push_rect("b", Some(vec![2, 3]), RectToInsert::new(10, 10, 1));
    registry.push_rect("filler", Some(vec![1]), RectToInsert::new(10, 10, 1));
    registry.push_rect("ballast", Some(vec![2]), RectToInsert::new(10, 10, 1));

    let mut bins = BTreeMap::new();
    bins.insert(1, TargetBin::new(20, 10, 1));
    bins.insert(2, TargetBin::new(20, 10, 1));

    // Groups 1 and 2 fill one bin each; group 3 then has "a" and "b" in two bins.
    assert_eq!(
        pack_rects(
            &registry,
            &mut bins,
            &volume_heuristic,
            &contains_smallest_box
        ),
        Err(RectanglePackError::NotEnoughBinSpace)
    );
}

#[test]
fn rectangle_that_is_twice_in_a_group_is_placed_once() {
    let mut registry = GroupedRectsToPlace::new();
    registry.push_rect("twice", Some(vec![1]), RectToInsert::new(4, 4, 1));
    registry.push_rect("twice", Some(vec![1]), RectToInsert::new(4, 4, 1));

    let mut bins = BTreeMap::new();
    bins.insert("only", TargetBin::new(4, 4, 1));

    let packed = pack_rects(
        &registry,
        &mut bins,
        &volume_heuristic,
        &contains_smallest_box,
    )
    .unwrap();

    assert_eq!(packed.packed_locations().len(), 1);
    assert_eq!(bins["only"].available_bin_sections().len(), 0);
}

#[test]
fn heuristic_of_the_caller_orders_bins_and_groups() {
    let narrowest_first = |whd: WidthHeightDepth| whd.width as u128;

    let mut registry: GroupedRectsToPlace<_, ()> = GroupedRectsToPlace::new();
    registry.push_rect("wide", None, RectToInsert::new(9, 1, 1));
    registry.push_rect("bulky", None, RectToInsert::new(3, 9, 1));

    let mut bins = BTreeMap::new();
    bins.insert("square", TargetBin::new(10, 10, 1));
    bins.insert("tower", TargetBin::new(9, 1000, 1));

    let packed = pack_rects(
        &registry,
        &mut bins,
        &narrowest_first,
        &contains_smallest_box,
    )
    .unwrap();
    let locations = packed.packed_locations();

    assert_eq!(locations[&"wide"].0, "tower");
    assert_eq!((locations[&"wide"].1.x(), locations[&"wide"].1.y()), (0, 0));
    assert_eq!(locations[&"bulky"].0, "tower");
    assert_eq!(
        (locations[&"bulky"].1.x(), locations[&"bulky"].1.y()),
        (0, 1)
    );
}

#[test]
fn whole_group_is_tried_on_a_copy_of_the_bin() {
    let mut registry = GroupedRectsToPlace::new();
    registry.push_rect(1, Some(vec!["g"]), RectToInsert::new(5, 5, 1));
    registry.push_rect(2, Some(vec!["g"]), RectToInsert::new(5, 5, 1));
    registry.push_rect(3, Some(vec!["g"]), RectToInsert::new(5, 5, 1));

    let bin = TargetBin::new(10, 5, 1);

    assert!(can_fit_entire_group_into_bin(
        bin.clone(),
        &vec![1, 2],
        &registry,
        &volume_heuristic,
        &contains_smallest_box
    ));
    assert!(!can_fit_entire_group_into_bin(
        bin.clone(),
        &vec![1, 2, 3],
        &registry,
        &volume_heuristic,
        &contains_smallest_box
    ));
    assert!(can_fit_entire_group_into_bin(
        bin.clone(),
        &vec![],
        &registry,
        &volume_heuristic,
        &contains_smallest_box
    ));
    assert_eq!(
        bin.available_bin_sections(),
        &vec![section(0, 0, 0, 10, 5, 1)]
    );
}

#[test]
fn bin_without_free_sections_takes_nothing() {
    let mut registry: GroupedRectsToPlace<_, ()> = GroupedRectsToPlace::new();
    registry.push_rect(1, None, RectToInsert::new(1, 1, 1));

    let mut full = TargetBin::new(10, 10, 1);
    full.remove_filled_section(0);
    let mut bins = BTreeMap::new();
    bins.insert("full", full);

    assert_eq!(
        pack_rects(
            &registry,
            &mut bins,
            &volume_heuristic,
            &contains_smallest_box
        ),
        Err(RectanglePackError::NotEnoughBinSpace)
    );
}

#[test]
fn sections_of_a_split_are_kept_from_the_largest_to_the_smallest() {
    let mut registry: GroupedRectsToPlace<_, ()> = GroupedRectsToPlace::new();
    registry.push_rect(1, None, RectToInsert::new(50, 90, 1));

    let mut bins = BTreeMap::new();
    bins.insert(1, TargetBin::new(100, 100, 1));

    pack_rects(
        &registry,
        &mut bins,
        &volume_heuristic,
        &contains_smallest_box,
    )
    .unwrap();

    assert_eq!(
        bins[&1].available_bin_sections(),
        &vec![section(50, 0, 0, 50, 100, 1), section(0, 90, 0, 50, 10, 1)]
    );
}

fn share_a_cell(
    a: &rectangle_pack::PackedLocation,
    b: &rectangle_pack::PackedLocation,
) -> bool {
    let apart = |a_start: u32, a_length: u32, b_start: u32, b_length: u32| {
        a_start + a_length <= b_start || b_start + b_length <= a_start
    };
    !(apart(a.x(), a.width(), b.x(), b.width())
        || apart(a.y(), a.height(), b.y(), b.height())
        || apart(a.z(), a.depth(), b.z(), b.depth()))
}

#[test]
fn placed_rectangles_lie_inside_their_bins_and_do_not_overlap() {
    let mut registry = GroupedRectsToPlace::new();
    let sizes = [
        (7, 3, 2),
        (2, 9, 1),
        (5, 5, 5),
        (1, 1, 1),
        (4, 6, 3),
        (8, 2, 2),
        (3, 3, 3),
        (6, 1, 4),
        (2, 2, 8),
        (9, 9, 1),
        (1, 7, 2),
        (5, 4, 1),
    ];
    for (id, (width, height, depth)) in sizes.iter().enumerate() {
        let groups = if id % 3 == 0 { Some(vec![id / 6]) } else { None };
        registry.push_rect(id, groups, RectToInsert::new(*width, *height, *depth));
    }

    let mut bins = BTreeMap::new();
    bins.insert("a", TargetBin::new(20, 20, 8));
    bins.insert("b", TargetBin::new(24, 24, 8));

    let packed = pack_rects(
        &registry,
        &mut bins,
        &volume_heuristic,
        &contains_smallest_box,
    )
    .unwrap();
    let locations = packed.packed_locations();

    assert_eq!(locations.len(), sizes.len());
    for (id, (bin, location)) in locations.iter() {
        let whole = bins[bin].max_extent();
        assert!(location.x() + location.width() <= whole.width);
        assert!(location.y() + location.height() <= whole.height);
        assert!(location.z() + location.depth() <= whole.depth);
        assert_eq!(
            (location.width(), location.height(), location.depth()),
            sizes[*id]
        );
        for (other, (other_bin, other_location)) in locations.iter() {
            if id != other && bin == other_bin {
                assert!(!share_a_cell(location, other_location));
            }
        }
    }
    assert_eq!(locations[&0].0, locations[&3].0);
    assert_eq!(locations[&6].0, locations[&9].0);
}

#[test]
fn free_and_taken_volume_add_up_to_the_bin() {
    let mut registry: GroupedRectsToPlace<_, ()> = GroupedRectsToPlace::new();
    let sizes = [(7, 3, 2), (2, 9, 1), (5, 5, 5), (1, 1, 1), (4, 6, 3)];
    for (id, (width, height, depth)) in sizes.iter().enumerate() {
        registry.push_rect(id, None, RectToInsert::new(*width, *height, *depth));
    }

    let mut bins = BTreeMap::new();
    bins.insert("only", TargetBin::new(20, 20, 8));

    pack_rects(
        &registry,
        &mut bins,
        &volume_heuristic,
        &contains_smallest_box,
    )
    .unwrap();

    let free: u128 = bins["only"]
        .available_bin_sections()
        .iter()
        .map(|section| section.whd.volume())
        .sum();
    let taken: u128 = sizes
        .iter()
        .map(|(width, height, depth)| (width * height * depth) as u128)
        .sum();
    assert_eq!(free + taken, 20 * 20 * 8);
    for section in bins["only"].available_bin_sections() {
        assert!(section.whd.volume() > 0);
    }
}

#[test]
fn rectangles_in_and_out_of_groups_are_all_placed() {
    let mut rects_to_place = GroupedRectsToPlace::new();
    rects_to_place.push_rect("one", Some(vec!["a group"]), RectToInsert::new(10, 20, 255));
    rects_to_place.push_rect("two", Some(vec!["a group"]), RectToInsert::new(5, 50, 255));
    rects_to_place.push_rect("three", None, RectToInsert::new(30, 30, 255));

    let mut target_bins = BTreeMap::new();
    target_bins.insert(1, TargetBin::new(2048, 2048, 255));
    target_bins.insert(2, TargetBin::new(4096, 4096, 1020));

    let placements = pack_rects(
        &rects_to_place,
        &mut target_bins,
        &volume_heuristic,
        &contains_smallest_box,
    )
    .unwrap();

    assert_eq!(placements.packed_locations().len(), 3);
    assert_eq!(placements.packed_locations()[&"one"].0, 1);
    assert_eq!(placements.packed_locations()[&"two"].0, 1);
    assert_eq!(placements.packed_locations()[&"three"].0, 1);
}

#[test]
fn identifiers_need_not_be_copied_bit_by_bit() {
    let mut registry = GroupedRectsToPlace::new();
    registry.push_rect(
        String::from("lid"),
        Some(vec![String::from("box")]),
        RectToInsert::new(4, 4, 1),
    );
    registry.push_rect(
        String::from("base"),
        Some(vec![String::from("box")]),
        RectToInsert::new(4, 4, 3),
    );

    let mut bins = BTreeMap::new();
    bins.insert(String::from("shelf"), TargetBin::new(4, 4, 4));

    let packed = pack_rects(
        &registry,
        &mut bins,
        &volume_heuristic,
        &contains_smallest_box,
    )
    .unwrap();
    let locations = packed.packed_locations();

    assert_eq!(locations["lid"].0, "shelf");
    assert_eq!(locations["base"].0, "shelf");
    assert_eq!(locations["lid"].1.z(), 0);
    assert_eq!(locations["base"].1.z(), 1);
    assert_eq!(bins["shelf"].available_bin_sections().len(), 0);
}
