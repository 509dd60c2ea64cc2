use photo::frequency::tally;

#[test]
fn tally_of_nothing_is_empty() {
    assert_eq!(tally(&vec![]), vec![]);
}

#[test]
fn tally_counts_equal_keys_together() {
    let keys = vec![vec![1u8, 2], vec![3], vec![1, 2], vec![], vec![3], vec![1, 2]];
    assert_eq!(tally(&keys), vec![(0, 3), (1, 2), (3, 1)]);
}

#[test]
fn tally_tells_keys_apart_by_every_element() {
    let keys = vec![vec![1u8, 2], vec![2, 1], vec![1], vec![1, 2, 0]];
    assert_eq!(tally(&keys), vec![(0, 1), (1, 1), (2, 1), (3, 1)]);
}

#[test]
fn tally_counts_add_up_to_the_number_of_keys() {
    let keys: Vec<Vec<u8>> = (0u8..50).map(|i| vec![i % 7, i % 3]).collect();
    let groups = tally(&keys);
    assert_eq!(groups.iter().map(|g| g.1).sum::<usize>(), 50);
    assert_eq!(groups.len(), 21);
    for (g, group) in groups.iter().enumerate() {
        assert_eq!(keys.iter().position(|k| *k == keys[group.0]), Some(group.0));
        assert_eq!(keys.iter().filter(|k| **k == keys[group.0]).count(), group.1);
        if g > 0 {
            assert!(groups[g - 1].0 < group.0);
        }
    }
}
