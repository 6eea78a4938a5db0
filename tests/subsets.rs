use std::collections::{BTreeMap, BTreeSet};

use flydra2::subsets::set_of_subsets;

#[test]
fn test_set_of_subsets() {
    let mut orig = BTreeMap::new();
    orig.insert(1, 'a');
    orig.insert(2, 'b');
    orig.insert(3, 'c');

    let result = set_of_subsets(&orig);

    let expected = vec![
        vec![],
        vec![1],
        vec![2],
        vec![3],
        vec![1, 2],
        vec![1, 3],
        vec![2, 3],
        vec![1, 2, 3],
    ];

    assert_eq!(result.len(), expected.len());
    for e in expected.into_iter() {
        assert!(result.contains(&e.into_iter().collect::<BTreeSet<_>>()));
    }
}

#[test]
fn subsets_of_three_cameras_are_eight_distinct() {
    let mut cams: BTreeMap<u8, ()> = BTreeMap::new();
    cams.insert(1, ());
    cams.insert(2, ());
    cams.insert(3, ());
    let result = set_of_subsets(&cams);
    assert_eq!(result.len(), 8);
    let distinct: BTreeSet<BTreeSet<u8>> = result.iter().cloned().collect();
    assert_eq!(distinct.len(), 8);
    assert!(result.contains(&BTreeSet::new()));
    assert!(result.contains(&[1u8, 2, 3].into_iter().collect::<BTreeSet<_>>()));
}

#[test]
fn subsets_follow_bit_mask_order() {
    let mut cams: BTreeMap<u32, &str> = BTreeMap::new();
    cams.insert(10, "a");
    cams.insert(20, "b");
    let result = set_of_subsets(&cams);
    let expected: Vec<BTreeSet<u32>> = vec![
        BTreeSet::new(),
        [10].into_iter().collect(),
        [20].into_iter().collect(),
        [10, 20].into_iter().collect(),
    ];
    assert_eq!(result, expected);
}

#[test]
fn subsets_of_empty_set_is_only_empty_set() {
    let empty: BTreeMap<i32, i32> = BTreeMap::new();
    let result = set_of_subsets(&empty);
    assert_eq!(result.len(), 1);
    assert!(result[0].is_empty());
}
