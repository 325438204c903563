use rectangle_pack::identifiers::duplicate;
use rectangle_pack::identifiers::keys_of;
use rectangle_pack::identifiers::same;
use rectangle_pack::stable_order::stable_order_of;
use std::collections::BTreeMap;

#[test]
fn ascending_order_keeps_equal_scores_in_place() {
    assert_eq!(
        stable_order_of(&vec![5, 1, 5, 3, 1], false),
        vec![1, 4, 3, 0, 2]
    );
}

#[test]
fn descending_order_keeps_equal_scores_in_place() {
    assert_eq!(
        stable_order_of(&vec![5, 1, 5, 3, 1], true),
        vec![0, 2, 3, 1, 4]
    );
}

#[test]
fn order_of_nothing_is_empty() {
    assert_eq!(stable_order_of(&vec![], false), Vec::<usize>::new());
    assert_eq!(stable_order_of(&vec![], true), Vec::<usize>::new());
}

#[test]
fn order_of_sorted_scores_is_the_identity() {
    assert_eq!(stable_order_of(&vec![1, 2, 3], false), vec![0, 1, 2]);
    assert_eq!(stable_order_of(&vec![1, 2, 3], true), vec![2, 1, 0]);
    assert_eq!(stable_order_of(&vec![u128::MAX, 0], false), vec![1, 0]);
}

#[test]
fn keys_come_from_the_smallest_to_the_largest() {
    let mut map = BTreeMap::new();
    map.insert("pear", 1);
    map.insert("apple", 2);
    map.insert("quince", 3);

    assert_eq!(keys_of(&map), vec!["apple", "pear", "quince"]);
}

#[test]
fn duplicate_is_the_same_identifier() {
    assert_eq!(duplicate(&String::from("bin")), String::from("bin"));
}

#[test]
fn same_tells_identifiers_apart() {
    assert!(same(&"bin", &"bin"));
    assert!(!same(&"bin", &"bun"));
    assert!(same(&7, &7));
    assert!(!same(&7, &8));
}
