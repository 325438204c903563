use rectangle_pack::contains_smallest_box;
use rectangle_pack::pack_rects;
use rectangle_pack::volume_heuristic;
use rectangle_pack::GroupedRectsToPlace;
use rectangle_pack::PackedLocation;
use rectangle_pack::RectToInsert;
use rectangle_pack::RectanglePackError;
use rectangle_pack::RotatedBy;
use rectangle_pack::TargetBin;
use rectangle_pack::WidthHeightDepth;
use std::collections::BTreeMap;

/// If the provided rectangles can't fit into the provided bins.
#[test]
fn error_if_the_rectangles_cannot_fit_into_target_bins() {
    let mut targets = BTreeMap::new();
    targets.insert(BinId::Three, TargetBin::new(2, 100, 1));

    let mut groups: GroupedRectsToPlace<_, ()> = GroupedRectsToPlace::new();
    groups.push_rect(RectToPlaceId::One, None, RectToInsert::new(3, 1, 1));

    match pack_rects(
        &groups,
        &mut targets,
        &volume_heuristic,
        &contains_smallest_box,
    )
    .unwrap_err()
    {
        RectanglePackError::NotEnoughBinSpace => {}
    };
}

/// Rectangles in the same group need to be placed in the same bin.
///
/// Here we create two Rectangles in the same group and create two bins that could fit them
/// individually but cannot fit them together.
///
/// Then we verify that we receive an error for being unable to place the group.
#[test]
fn error_if_cannot_fit_group() {
    let mut targets = BTreeMap::new();
    targets.insert(BinId::Three, TargetBin::new(100, 100, 1));
    targets.insert(BinId::Four, TargetBin::new(100, 100, 1));

    let mut groups = GroupedRectsToPlace::new();
    groups.push_rect(
        RectToPlaceId::One,
        Some(vec!["A Group"]),
        RectToInsert::new(100, 100, 1),
    );
    groups.push_rect(
        RectToPlaceId::Two,
        Some(vec!["A Group"]),
        RectToInsert::new(100, 100, 1),
    );

    match pack_rects(
        &groups,
        &mut targets,
        &volume_heuristic,
        &contains_smallest_box,
    )
    .unwrap_err()
    {
        RectanglePackError::NotEnoughBinSpace => {}
    };
}

/// If we provide a single inbound rectangle and a single bin - it should be placed into that
/// bin.
#[test]
fn one_inbound_rect_one_bin() {
    let mut groups: GroupedRectsToPlace<_, ()> = GroupedRectsToPlace::new();
    groups.push_rect(RectToPlaceId::One, None, RectToInsert::new(1, 2, 1));

    let mut targets = BTreeMap::new();
    targets.insert(BinId::Three, TargetBin::new(5, 5, 1));

    let packed = pack_rects(
        &groups,
        &mut targets,
        &volume_heuristic,
        &contains_smallest_box,
    )
    .unwrap();
    let locations = packed.packed_locations();

    assert_eq!(locations.len(), 1);

    assert_eq!(locations[&RectToPlaceId::One].0, BinId::Three,);
    assert_eq!(
        locations[&RectToPlaceId::One].1,
        PackedLocation {
            x: 0,
            y: 0,
            z: 0,
            whd: WidthHeightDepth {
                width: 1,
                height: 2,
                depth: 1
            },
            x_axis_rotation: RotatedBy::ZeroDegrees,
            y_axis_rotation: RotatedBy::ZeroDegrees,
            z_axis_rotation: RotatedBy::ZeroDegrees,
        }
    )
}

/// If we have one inbound rect and two bins, it should be placed into the smallest bin.
#[test]
fn one_inbound_rect_two_bins() {
    let mut groups: GroupedRectsToPlace<_, ()> = GroupedRectsToPlace::new();
    groups.push_rect(RectToPlaceId::One, None, RectToInsert::new(2, 2, 1));

    let mut targets = BTreeMap::new();
    targets.insert(BinId::Three, TargetBin::new(5, 5, 1));
    targets.insert(BinId::Four, TargetBin::new(5, 5, 2));

    let packed = pack_rects(
        &groups,
        &mut targets,
        &volume_heuristic,
        &contains_smallest_box,
    )
    .unwrap();
    let locations = packed.packed_locations();

    assert_eq!(locations[&RectToPlaceId::One].0, BinId::Three,);

    assert_eq!(locations.len(), 1);
    assert_eq!(
        locations[&RectToPlaceId::One].1,
        PackedLocation {
            x: 0,
            y: 0,
            z: 0,
            whd: WidthHeightDepth {
                width: 2,
                height: 2,
                depth: 1
            },
            x_axis_rotation: RotatedBy::ZeroDegrees,
            y_axis_rotation: RotatedBy::ZeroDegrees,
            z_axis_rotation: RotatedBy::ZeroDegrees,
        }
    )
}

/// If we have two inbound rects the largest one should be placed first.
#[test]
fn places_largest_rectangles_first() {
    let mut groups: GroupedRectsToPlace<_, ()> = GroupedRectsToPlace::new();
    groups.push_rect(RectToPlaceId::One, None, RectToInsert::new(10, 10, 1));
    groups.push_rect(RectToPlaceId::Two, None, RectToInsert::new(5, 5, 1));

    let mut targets = BTreeMap::new();
    targets.insert(BinId::Three, TargetBin::new(20, 20, 2));

    let packed = pack_rects(
        &groups,
        &mut targets,
        &volume_heuristic,
        &contains_smallest_box,
    )
    .unwrap();
    let locations = packed.packed_locations();

    assert_eq!(locations.len(), 2);

    assert_eq!(locations[&RectToPlaceId::One].0, BinId::Three,);
    assert_eq!(locations[&RectToPlaceId::Two].0, BinId::Three,);

    assert_eq!(
        locations[&RectToPlaceId::One].1,
        PackedLocation {
            x: 0,
            y: 0,
            z: 0,
            whd: WidthHeightDepth {
                width: 10,
                height: 10,
                depth: 1
            },
            x_axis_rotation: RotatedBy::ZeroDegrees,
            y_axis_rotation: RotatedBy::ZeroDegrees,
            z_axis_rotation: RotatedBy::ZeroDegrees,
        }
    );
    assert_eq!(
        locations[&RectToPlaceId::Two].1,
        PackedLocation {
            x: 10,
            y: 0,
            z: 0,
            whd: WidthHeightDepth {
                width: 5,
                height: 5,
                depth: 1
            },
            x_axis_rotation: RotatedBy::ZeroDegrees,
            y_axis_rotation: RotatedBy::ZeroDegrees,
            z_axis_rotation: RotatedBy::ZeroDegrees,
        }
    )
}

/// We have two rectangles and two bins. Each bin has enough space to fit one rectangle.
///
/// 1. First place the largest rectangle into the smallest bin.
///
/// 2. Second place the remaining rectangle into the next available bin (i.e. the largest one).
#[test]
fn two_rects_two_bins() {
    let mut groups: GroupedRectsToPlace<_, ()> = GroupedRectsToPlace::new();
    groups.push_rect(RectToPlaceId::One, None, RectToInsert::new(15, 15, 1));
    groups.push_rect(RectToPlaceId::Two, None, RectToInsert::new(20, 20, 1));

    let mut targets = BTreeMap::new();
    targets.insert(BinId::Three, TargetBin::new(20, 20, 1));
    targets.insert(BinId::Four, TargetBin::new(50, 50, 1));

    let packed = pack_rects(
        &groups,
        &mut targets,
        &volume_heuristic,
        &contains_smallest_box,
    )
    .unwrap();
    let locations = packed.packed_locations();

    assert_eq!(locations.len(), 2);

    assert_eq!(locations[&RectToPlaceId::One].0, BinId::Four,);
    assert_eq!(locations[&RectToPlaceId::Two].0, BinId::Three,);

    assert_eq!(
        locations[&RectToPlaceId::One].1,
        PackedLocation {
            x: 0,
            y: 0,
            z: 0,
            whd: WidthHeightDepth {
                width: 15,
                height: 15,
                depth: 1
            },
            x_axis_rotation: RotatedBy::ZeroDegrees,
            y_axis_rotation: RotatedBy::ZeroDegrees,
            z_axis_rotation: RotatedBy::ZeroDegrees,
        }
    );
    assert_eq!(
        locations[&RectToPlaceId::Two].1,
        PackedLocation {
            x: 0,
            y: 0,
            z: 0,
            whd: WidthHeightDepth {
                width: 20,
                height: 20,
                depth: 1
            },
            x_axis_rotation: RotatedBy::ZeroDegrees,
            y_axis_rotation: RotatedBy::ZeroDegrees,
            z_axis_rotation: RotatedBy::ZeroDegrees,
        }
    )
}

/// If there are two sections available to fill - the smaller one should be filled first
/// (if possible).
///
/// We test this by creating two incoming rectangles.
///
/// The largest one is placed and creates two new sections - after which the second, smaller one
/// should get placed into the smaller of the two new sections.
///
/// ```text
/// ┌──────────────┬──▲───────────────┐
/// │ Second Rect  │  │               │
/// ├──────────────┴──┤               │
/// │                 │               │
/// │  First Placed   │               │
/// │    Rectangle    │               │
/// │                 │               │
/// └─────────────────┴───────────────┘
/// ```
#[test]
fn fills_small_sections_before_large_ones() {
    let mut targets = BTreeMap::new();
    targets.insert(BinId::Three, TargetBin::new(100, 100, 1));

    let mut groups: GroupedRectsToPlace<_, ()> = GroupedRectsToPlace::new();

    groups.push_rect(RectToPlaceId::One, None, RectToInsert::new(50, 90, 1));
    groups.push_rect(RectToPlaceId::Two, None, RectToInsert::new(1, 1, 1));

    let packed = pack_rects(
        &groups,
        &mut targets,
        &volume_heuristic,
        &contains_smallest_box,
    )
    .unwrap();
    let locations = packed.packed_locations();

    assert_eq!(locations.len(), 2);

    assert_eq!(locations[&RectToPlaceId::One].0, BinId::Three,);
    assert_eq!(locations[&RectToPlaceId::Two].0, BinId::Three,);

    assert_eq!(
        locations[&RectToPlaceId::One].1,
        PackedLocation {
            x: 0,
            y: 0,
            z: 0,
            whd: WidthHeightDepth {
                width: 50,
                height: 90,
                depth: 1
            },
            x_axis_rotation: RotatedBy::ZeroDegrees,
            y_axis_rotation: RotatedBy::ZeroDegrees,
            z_axis_rotation: RotatedBy::ZeroDegrees,
        }
    );
    assert_eq!(
        locations[&RectToPlaceId::Two].1,
        PackedLocation {
            x: 0,
            y: 90,
            z: 0,
            whd: WidthHeightDepth {
                width: 1,
                height: 1,
                depth: 1
            },
            x_axis_rotation: RotatedBy::ZeroDegrees,
            y_axis_rotation: RotatedBy::ZeroDegrees,
            z_axis_rotation: RotatedBy::ZeroDegrees,
        }
    );
}

/// Say we have one bin and three rectangles to place within in.
///
/// The first one gets placed and creates two new splits.
///
/// We then attempt to place the second one into the smallest split. It's too big to fit, so
/// we place it into the largest split.
///
/// After that we place the third rectangle into the smallest split.
///
/// Here we verify that that actually occurs and that we didn't throw away that smallest split
/// when the second one couldn't fit in it.
///
/// ```text
/// ┌──────────────┬──────────────┐
/// │    Third     │              │
/// ├──────────────┤              │
/// │              │              │
/// │              │              │
/// │              ├──────────────┤
/// │   First      │              │
/// │              │    Second    │
/// │              │              │
/// └──────────────┴──────────────┘
/// ```
#[test]
fn saves_bin_sections_for_future_use() {
    let mut targets = BTreeMap::new();
    targets.insert(BinId::Three, TargetBin::new(100, 100, 1));

    let mut groups: GroupedRectsToPlace<_, ()> = GroupedRectsToPlace::new();

    groups.push_rect(RectToPlaceId::One, None, RectToInsert::new(60, 95, 1));
    groups.push_rect(RectToPlaceId::Two, None, RectToInsert::new(40, 10, 1));
    groups.push_rect(RectToPlaceId::Three, None, RectToInsert::new(60, 3, 1));

    let packed = pack_rects(
        &groups,
        &mut targets,
        &volume_heuristic,
        &contains_smallest_box,
    )
    .unwrap();
    let locations = packed.packed_locations();

    assert_eq!(
        locations[&RectToPlaceId::One].1,
        PackedLocation {
            x: 0,
            y: 0,
            z: 0,
            whd: WidthHeightDepth {
                width: 60,
                height: 95,
                depth: 1
            },
            x_axis_rotation: RotatedBy::ZeroDegrees,
            y_axis_rotation: RotatedBy::ZeroDegrees,
            z_axis_rotation: RotatedBy::ZeroDegrees,
        }
    );
    assert_eq!(
        locations[&RectToPlaceId::Two].1,
        PackedLocation {
            x: 60,
            y: 0,
            z: 0,
            whd: WidthHeightDepth {
                width: 40,
                height: 10,
                depth: 1
            },
            x_axis_rotation: RotatedBy::ZeroDegrees,
            y_axis_rotation: RotatedBy::ZeroDegrees,
            z_axis_rotation: RotatedBy::ZeroDegrees,
        }
    );
    assert_eq!(
        locations[&RectToPlaceId::Three].1,
        PackedLocation {
            x: 0,
            y: 95,
            z: 0,
            whd: WidthHeightDepth {
                width: 60,
                height: 3,
                depth: 1
            },
            x_axis_rotation: RotatedBy::ZeroDegrees,
            y_axis_rotation: RotatedBy::ZeroDegrees,
            z_axis_rotation: RotatedBy::ZeroDegrees,
        }
    );
}

/// Create a handful of rectangles that need to be placed, with two of them in the same group
/// and the rest ungrouped.
/// Try placing them many times and verify that each time they are placed the exact same way.
#[test]
fn deterministic_packing() {
    let mut previous_packed = None;

    for _ in 0..5 {
        let mut rects_to_place: GroupedRectsToPlace<&'static str, &str> =
            GroupedRectsToPlace::new();

        let mut target_bins = BTreeMap::new();
        for bin_id in 0..5 {
            target_bins.insert(bin_id, TargetBin::new(8, 8, 1));
        }

        let rectangles = vec![
            "some-rectangle-0",
            "some-rectangle-1",
            "some-rectangle-2",
            "some-rectangle-3",
            "some-rectangle-4",
        ];

        for rect_id in rectangles.iter() {
            rects_to_place.push_rect(rect_id, None, RectToInsert::new(4, 4, 1));
        }

        let packed = pack_rects(
            &rects_to_place,
            &mut target_bins.clone(),
            &volume_heuristic,
            &contains_smallest_box,
        )
        .unwrap();

        if let Some(previous_packed) = previous_packed.as_ref() {
            assert_eq!(&packed, previous_packed);
        }

        previous_packed = Some(packed);
    }
}

#[derive(Debug, Copy, Clone, PartialEq, Eq, Hash, Ord, PartialOrd)]
enum RectToPlaceId {
    One,
    Two,
    Three,
}

#[derive(Debug, Copy, Clone, PartialEq, Eq, Hash, Ord, PartialOrd)]
enum BinId {
    Three,
    Four,
}
