use rectangle_pack::box_size_heuristics::score;
use rectangle_pack::volume_heuristic;
use rectangle_pack::BinSectionError;
use rectangle_pack::PackedLocation;
use rectangle_pack::RectToInsert;
use rectangle_pack::RectanglePackError;
use rectangle_pack::RotatedBy;
use rectangle_pack::WidthHeightDepth;

#[test]
fn volume_is_the_product_of_the_sides() {
    assert_eq!(WidthHeightDepth::new(2, 3, 4).volume(), 24);
    assert_eq!(WidthHeightDepth::new(1, 1, 1).volume(), 1);
}

#[test]
fn volume_of_the_largest_extent_does_not_overflow() {
    let side = u32::MAX;
    let expected = (side as u128) * (side as u128) * (side as u128);
    assert_eq!(WidthHeightDepth::new(side, side, side).volume(), expected);
    assert_eq!(expected, 79228162458924105385300197375);
}

#[test]
fn volume_of_an_extent_with_a_zero_side_is_zero() {
    let flat = WidthHeightDepth {
        width: 7,
        height: 0,
        depth: 9,
    };
    assert_eq!(flat.volume(), 0);
}

#[test]
fn new_extent_keeps_its_sides() {
    let whd = WidthHeightDepth::new(10, 20, 30);
    assert_eq!(
        whd,
        WidthHeightDepth {
            width: 10,
            height: 20,
            depth: 30
        }
    );
}

#[test]
fn default_extent_is_empty() {
    let whd = WidthHeightDepth::default();
    assert_eq!((whd.width, whd.height, whd.depth), (0, 0, 0));
}

#[test]
fn rect_to_insert_reports_its_sides_and_no_rotation() {
    let rect = RectToInsert::new(3, 5, 7);
    assert_eq!(rect.width(), 3);
    assert_eq!(rect.height(), 5);
    assert_eq!(rect.depth(), 7);
    assert!(!rect.allow_global_x_axis_rotation);
    assert!(!rect.allow_global_y_axis_rotation);
    assert!(!rect.allow_global_z_axis_rotation);
}

#[test]
fn rect_to_insert_converts_into_its_extent() {
    let whd: WidthHeightDepth = RectToInsert::new(3, 5, 7).into();
    assert_eq!(
        whd,
        WidthHeightDepth {
            width: 3,
            height: 5,
            depth: 7
        }
    );
    assert_eq!(WidthHeightDepth::from(RectToInsert::new(1, 2, 3)).volume(), 6);
}

#[test]
fn packed_location_reports_its_fields() {
    let location = PackedLocation {
        x: 1,
        y: 2,
        z: 3,
        whd: WidthHeightDepth {
            width: 4,
            height: 5,
            depth: 6,
        },
        x_axis_rotation: RotatedBy::ZeroDegrees,
        y_axis_rotation: RotatedBy::ZeroDegrees,
        z_axis_rotation: RotatedBy::ZeroDegrees,
    };
    assert_eq!(location.x(), 1);
    assert_eq!(location.y(), 2);
    assert_eq!(location.z(), 3);
    assert_eq!(location.width(), 4);
    assert_eq!(location.height(), 5);
    assert_eq!(location.depth(), 6);
}

#[test]
fn volume_heuristic_scores_by_volume() {
    assert_eq!(volume_heuristic(WidthHeightDepth::new(10, 20, 255)), 51000);
    assert_eq!(
        volume_heuristic(WidthHeightDepth::new(4096, 4096, 1020)),
        17112760320
    );
}

#[test]
fn score_calls_the_heuristic() {
    let widest = |whd: WidthHeightDepth| whd.width as u128;
    assert_eq!(score(&widest, WidthHeightDepth::new(9, 100, 100)), 9);
    assert_eq!(score(&volume_heuristic, WidthHeightDepth::new(9, 10, 10)), 900);
}

#[test]
fn bin_section_errors_have_messages() {
    assert_eq!(
        BinSectionError::PlacementWiderThanBinSection.message(),
        "Can not place a rectangle inside of a bin that is wider than that rectangle."
    );
    assert_eq!(
        BinSectionError::PlacementTallerThanBinSection.message(),
        "Can not place a rectangle inside of a bin that is taller than that rectangle."
    );
    assert_eq!(
        BinSectionError::PlacementDeeperThanBinSection.message(),
        "Can not place a rectangle inside of a bin that is deeper than that rectangle."
    );
}

#[test]
fn pack_error_has_a_message() {
    assert_eq!(
        RectanglePackError::NotEnoughBinSpace.message(),
        "Not enough space to place all of the rectangles."
    );
}
