use core::cmp::Ordering;
use rectangle_pack::contains_smallest_box;
use rectangle_pack::volume_heuristic;
use rectangle_pack::BinSection;
use rectangle_pack::BinSectionError;
use rectangle_pack::PackedLocation;
use rectangle_pack::RectToInsert;
use rectangle_pack::RotatedBy;
use rectangle_pack::WidthHeightDepth;

fn whd(width: u32, height: u32, depth: u32) -> WidthHeightDepth {
    WidthHeightDepth {
        width,
        height,
        depth,
    }
}

fn always_less(
    _a: [WidthHeightDepth; 3],
    _b: [WidthHeightDepth; 3],
    _h: &fn(WidthHeightDepth) -> u128,
) -> Ordering {
    Ordering::Less
}

fn always_equal(
    _a: [WidthHeightDepth; 3],
    _b: [WidthHeightDepth; 3],
    _h: &fn(WidthHeightDepth) -> u128,
) -> Ordering {
    Ordering::Equal
}

fn always_greater(
    _a: [WidthHeightDepth; 3],
    _b: [WidthHeightDepth; 3],
    _h: &fn(WidthHeightDepth) -> u128,
) -> Ordering {
    Ordering::Greater
}

fn total_volume(sections: &[BinSection; 3]) -> u128 {
    sections[0].whd.volume() + sections[1].whd.volume() + sections[2].whd.volume()
}

#[test]
fn placement_lands_at_the_origin_of_the_section() {
    let section = BinSection::new(7, 11, 13, whd(20, 30, 40));
    let rect = RectToInsert::new(5, 6, 7);

    let (location, _) = section
        .try_place(&rect, &contains_smallest_box, &volume_heuristic)
        .unwrap();

    assert_eq!(
        location,
        PackedLocation {
            x: 7,
            y: 11,
            z: 13,
            whd: whd(5, 6, 7),
            x_axis_rotation: RotatedBy::ZeroDegrees,
            y_axis_rotation: RotatedBy::ZeroDegrees,
            z_axis_rotation: RotatedBy::ZeroDegrees,
        }
    );
}

#[test]
fn split_conserves_volume() {
    let section = BinSection::new(7, 11, 13, whd(20, 30, 40));
    let rect = RectToInsert::new(5, 6, 7);

    let (_, sections) = section
        .try_place(&rect, &contains_smallest_box, &volume_heuristic)
        .unwrap();

    assert_eq!(total_volume(&sections) + 5 * 6 * 7, 20 * 30 * 40);
}

#[test]
fn every_candidate_split_conserves_volume() {
    let section = BinSection::new(1, 2, 3, whd(9, 8, 7));
    let rect = RectToInsert::new(4, 5, 6);
    let heuristic: fn(WidthHeightDepth) -> u128 = volume_heuristic;

    let (_, first) = section.try_place(&rect, &always_less, &heuristic).unwrap();
    let (_, last) = section
        .try_place(&rect, &always_greater, &heuristic)
        .unwrap();

    assert_eq!(total_volume(&first) + 4 * 5 * 6, 9 * 8 * 7);
    assert_eq!(total_volume(&last) + 4 * 5 * 6, 9 * 8 * 7);
}

#[test]
fn comparison_that_never_prefers_a_later_split_keeps_the_first() {
    let section = BinSection::new(0, 0, 0, whd(100, 100, 100));
    let rect = RectToInsert::new(50, 25, 10);
    let heuristic: fn(WidthHeightDepth) -> u128 = volume_heuristic;

    let (_, sections) = section.try_place(&rect, &always_less, &heuristic).unwrap();

    assert_eq!(
        sections,
        [
            BinSection::new_spread(50, 0, 0, 50, 100, 100),
            BinSection::new_spread(0, 25, 0, 50, 75, 100),
            BinSection::new_spread(0, 0, 10, 50, 25, 90),
        ]
    );
}

#[test]
fn comparison_that_ranks_all_splits_equal_takes_the_last() {
    let section = BinSection::new(0, 0, 0, whd(100, 100, 100));
    let rect = RectToInsert::new(50, 25, 10);
    let heuristic: fn(WidthHeightDepth) -> u128 = volume_heuristic;

    let (_, sections) = section
        .try_place(&rect, &always_equal, &heuristic)
        .unwrap();

    assert_eq!(
        sections,
        [
            BinSection::new_spread(50, 0, 0, 50, 25, 10),
            BinSection::new_spread(0, 25, 0, 100, 75, 10),
            BinSection::new_spread(0, 0, 10, 100, 100, 90),
        ]
    );
}

#[test]
fn rectangle_that_fills_the_section_leaves_three_empty_sections() {
    let section = BinSection::new(3, 4, 5, whd(6, 7, 8));
    let rect = RectToInsert::new(6, 7, 8);

    let (location, sections) = section
        .try_place(&rect, &contains_smallest_box, &volume_heuristic)
        .unwrap();

    assert_eq!((location.x(), location.y(), location.z()), (3, 4, 5));
    for leftover in sections.iter() {
        assert_eq!(leftover.whd.volume(), 0);
    }
}

#[test]
fn width_is_checked_before_height_and_depth() {
    let section = BinSection::new(0, 0, 0, whd(5, 5, 5));

    let too_large_everywhere = RectToInsert::new(6, 6, 6);
    assert_eq!(
        section
            .try_place(
                &too_large_everywhere,
                &contains_smallest_box,
                &volume_heuristic
            )
            .unwrap_err(),
        BinSectionError::PlacementWiderThanBinSection
    );

    let too_tall_and_deep = RectToInsert::new(5, 6, 6);
    assert_eq!(
        section
            .try_place(&too_tall_and_deep, &contains_smallest_box, &volume_heuristic)
            .unwrap_err(),
        BinSectionError::PlacementTallerThanBinSection
    );
}

#[test]
fn each_axis_is_rejected_by_itself() {
    let section = BinSection::new(0, 0, 0, whd(5, 6, 7));

    assert_eq!(
        section.incoming_can_fit(&RectToInsert::new(6, 1, 1)),
        Err(BinSectionError::PlacementWiderThanBinSection)
    );
    assert_eq!(
        section.incoming_can_fit(&RectToInsert::new(1, 7, 1)),
        Err(BinSectionError::PlacementTallerThanBinSection)
    );
    assert_eq!(
        section.incoming_can_fit(&RectToInsert::new(1, 1, 8)),
        Err(BinSectionError::PlacementDeeperThanBinSection)
    );
    assert_eq!(
        section.incoming_can_fit(&RectToInsert::new(5, 6, 7)),
        Ok(())
    );
}

#[test]
fn smallest_box_decides() {
    let with_small_box = [whd(1, 1, 1), whd(10, 10, 10), whd(10, 10, 10)];
    let without = [whd(2, 2, 2), whd(3, 3, 3), whd(4, 4, 4)];

    assert_eq!(
        contains_smallest_box(with_small_box, without, &volume_heuristic),
        Ordering::Greater
    );
    assert_eq!(
        contains_smallest_box(without, with_small_box, &volume_heuristic),
        Ordering::Less
    );
}

#[test]
fn second_smallest_box_breaks_a_tie() {
    let first = [whd(5, 5, 5), whd(1, 1, 1), whd(2, 2, 2)];
    let second = [whd(3, 3, 3), whd(9, 9, 9), whd(1, 1, 1)];

    assert_eq!(
        contains_smallest_box(first, second, &volume_heuristic),
        Ordering::Greater
    );
    assert_eq!(
        contains_smallest_box(second, first, &volume_heuristic),
        Ordering::Less
    );
}

#[test]
fn equal_two_smallest_boxes_compare_equal() {
    let first = [whd(1, 1, 1), whd(2, 2, 2), whd(3, 3, 3)];
    let second = [whd(50, 50, 50), whd(2, 2, 2), whd(1, 1, 1)];

    assert_eq!(
        contains_smallest_box(first, second, &volume_heuristic),
        Ordering::Equal
    );
}

#[test]
fn origin_on_the_last_cell_of_the_other_section_overlaps() {
    let other = BinSection::new(2, 3, 4, whd(2, 3, 4));

    assert!(BinSection::new(3, 5, 7, whd(1, 1, 1)).overlaps(&other));
    assert!(BinSection::new(2, 3, 4, whd(9, 9, 9)).overlaps(&other));
    assert!(!BinSection::new(4, 5, 7, whd(1, 1, 1)).overlaps(&other));
    assert!(!BinSection::new(3, 6, 7, whd(1, 1, 1)).overlaps(&other));
    assert!(!BinSection::new(3, 5, 8, whd(1, 1, 1)).overlaps(&other));
    assert!(!BinSection::new(1, 3, 4, whd(5, 5, 5)).overlaps(&other));
}

#[test]
fn overlap_looks_at_the_origin_of_the_first_section_only() {
    let first = BinSection::new(0, 0, 0, whd(10, 10, 10));
    let second = BinSection::new(5, 5, 5, whd(10, 10, 10));

    assert!(second.overlaps(&first));
    assert!(!first.overlaps(&second));
}

#[test]
fn nothing_overlaps_an_empty_section() {
    let empty = BinSection::new_spread(0, 0, 0, 0, 5, 5);

    assert!(!BinSection::new(0, 0, 0, whd(1, 1, 1)).overlaps(&empty));
}

#[test]
fn overlap_at_the_end_of_the_coordinate_range() {
    let last = BinSection::new_spread(u32::MAX, u32::MAX, u32::MAX, 1, 1, 1);

    assert!(last.overlaps(&last));
    assert!(!BinSection::new_spread(0, 0, 0, 1, 1, 1).overlaps(&last));
}

#[test]
fn default_section_is_empty_and_at_the_origin() {
    assert_eq!(
        BinSection::default(),
        BinSection::new_spread(0, 0, 0, 0, 0, 0)
    );
}
