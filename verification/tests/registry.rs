use rectangle_pack::Group;
use rectangle_pack::GroupedRectsToPlace;
use rectangle_pack::RectToInsert;

#[test]
fn new_registry_is_empty() {
    let registry: GroupedRectsToPlace<u32, u32> = GroupedRectsToPlace::new();

    assert_eq!(registry.rects().len(), 0);
    assert_eq!(registry.inbound_id_to_group_ids().len(), 0);
    assert_eq!(registry.member_lists().len(), 0);
    assert_eq!(registry.group_id_to_inbound_ids(&Group::Grouped(0)), None);
    assert_eq!(registry.group_id_to_inbound_ids(&Group::Ungrouped(0)), None);
    assert_eq!(registry.rect(&0), None);
}

#[test]
fn rectangle_joins_every_group_it_is_pushed_with() {
    let mut registry = GroupedRectsToPlace::new();

    registry.push_rect(1, Some(vec!["a", "b"]), RectToInsert::new(1, 1, 1));
    registry.push_rect(2, Some(vec!["b"]), RectToInsert::new(2, 2, 2));

    assert_eq!(
        registry.group_id_to_inbound_ids(&Group::Grouped("a")),
        Some(&vec![1])
    );
    assert_eq!(
        registry.group_id_to_inbound_ids(&Group::Grouped("b")),
        Some(&vec![1, 2])
    );
    assert_eq!(registry.group_id_to_inbound_ids(&Group::Ungrouped(1)), None);
    assert_eq!(registry.rect(&2), Some(&RectToInsert::new(2, 2, 2)));
}

#[test]
fn rectangle_pushed_again_replaces_the_rectangle_and_joins_again() {
    let mut registry = GroupedRectsToPlace::new();

    registry.push_rect(1, Some(vec!["a"]), RectToInsert::new(1, 1, 1));
    registry.push_rect(1, Some(vec!["a", "a"]), RectToInsert::new(9, 9, 9));

    assert_eq!(registry.rect(&1), Some(&RectToInsert::new(9, 9, 9)));
    assert_eq!(
        registry.group_id_to_inbound_ids(&Group::Grouped("a")),
        Some(&vec![1, 1, 1])
    );
    assert_eq!(
        registry.inbound_id_to_group_ids()[&1],
        vec![Group::Grouped("a"), Group::Grouped("a")]
    );
}

#[test]
fn rectangle_can_be_alone_and_in_a_group() {
    let mut registry = GroupedRectsToPlace::new();

    registry.push_rect(1, None, RectToInsert::new(1, 1, 1));
    registry.push_rect(1, Some(vec![7]), RectToInsert::new(1, 1, 1));

    assert_eq!(
        registry.group_id_to_inbound_ids(&Group::Ungrouped(1)),
        Some(&vec![1])
    );
    assert_eq!(
        registry.group_id_to_inbound_ids(&Group::Grouped(7)),
        Some(&vec![1])
    );
    assert_eq!(registry.inbound_id_to_group_ids()[&1], vec![Group::Grouped(7)]);
}

#[test]
fn groups_are_walked_single_rectangles_first_and_by_identifier() {
    let mut registry = GroupedRectsToPlace::new();

    registry.push_rect(30, Some(vec![2]), RectToInsert::new(1, 1, 1));
    registry.push_rect(20, None, RectToInsert::new(1, 1, 1));
    registry.push_rect(40, Some(vec![1, 2]), RectToInsert::new(1, 1, 1));
    registry.push_rect(10, None, RectToInsert::new(1, 1, 1));

    assert_eq!(
        registry.member_lists(),
        vec![&vec![10], &vec![20], &vec![40], &vec![30, 40]]
    );
}
