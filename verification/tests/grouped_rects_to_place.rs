use rectangle_pack::Group;
use rectangle_pack::GroupedRectsToPlace;
use rectangle_pack::RectToInsert;

/// Verify that if we insert a rectangle that doesn't have a group it is given a group ID based
/// on its RectToPlaceId.
#[test]
fn grouped_rects_to_place_ungrouped_rectangles_use_their_inbound_id_as_their_group_id() {
    let mut lrg: GroupedRectsToPlace<_, ()> = GroupedRectsToPlace::new();

    lrg.push_rect(RectToPlaceId::One, None, RectToInsert::new(10, 10, 1));

    assert_eq!(
        lrg.group_id_to_inbound_ids(&Group::Ungrouped(RectToPlaceId::One))
            .unwrap(),
        &vec![RectToPlaceId::One]
    );
}

/// When multiple different rects from the same group are pushed they should be present in the
/// map of group id -> inbound rect id
#[test]
fn grouped_rects_to_place_group_id_to_inbound_ids() {
    let mut lrg = GroupedRectsToPlace::new();

    lrg.push_rect(
        RectToPlaceId::One,
        Some(vec![0]),
        RectToInsert::new(10, 10, 1),
    );
    lrg.push_rect(
        RectToPlaceId::Two,
        Some(vec![0]),
        RectToInsert::new(10, 10, 1),
    );

    assert_eq!(
        lrg.group_id_to_inbound_ids(&Group::Grouped(0)).unwrap(),
        &vec![RectToPlaceId::One, RectToPlaceId::Two]
    );
}

/// Verify that we store the map of inbound id -> group ids
#[test]
fn grouped_rects_to_place_inbound_id_to_group_ids() {
    let mut lrg = GroupedRectsToPlace::new();

    lrg.push_rect(
        RectToPlaceId::One,
        Some(vec![0, 1]),
        RectToInsert::new(10, 10, 1),
    );

    lrg.push_rect(RectToPlaceId::Two, None, RectToInsert::new(10, 10, 1));

    assert_eq!(
        lrg.inbound_id_to_group_ids()[&RectToPlaceId::One],
        vec![Group::Grouped(0), Group::Grouped(1)]
    );

    assert_eq!(
        lrg.inbound_id_to_group_ids()[&RectToPlaceId::Two],
        vec![Group::Ungrouped(RectToPlaceId::Two)]
    );
}

/// Verify that we store in rectangle associated with its inbound ID
#[test]
fn grouped_rects_to_place_store_the_inbound_rectangle() {
    let mut lrg = GroupedRectsToPlace::new();

    lrg.push_rect(
        RectToPlaceId::One,
        Some(vec![0, 1]),
        RectToInsert::new(10, 10, 1),
    );

    assert_eq!(
        lrg.rects()[&RectToPlaceId::One],
        RectToInsert::new(10, 10, 1)
    );
}

#[derive(Debug, Copy, Clone, PartialEq, Eq, Hash, Ord, PartialOrd)]
enum RectToPlaceId {
    One,
    Two,
}
