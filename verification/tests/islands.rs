use first_light::clusters::clusters;

#[test]
fn touching_rocks_form_one_island() {
    let groups = clusters(6, &vec![(0, 1), (1, 2), (5, 4)]);
    assert_eq!(groups, vec![vec![0, 1, 2], vec![3], vec![4, 5]]);
}

#[test]
fn islands_join_through_any_chain_and_list_rocks_in_order() {
    // 3 touches 0 and 2, so 0, 2 and 3 are one island even though 0 and 2 never touch.
    let groups = clusters(4, &vec![(2, 3), (0, 3)]);
    assert_eq!(groups, vec![vec![0, 2, 3], vec![1]]);
    // A pair may be listed twice or name one rock twice.
    let groups = clusters(3, &vec![(1, 1), (2, 0), (0, 2)]);
    assert_eq!(groups, vec![vec![0, 2], vec![1]]);
}

#[test]
fn lone_rocks_are_islands_of_their_own() {
    assert_eq!(clusters(3, &vec![]), vec![vec![0], vec![1], vec![2]]);
    assert!(clusters(0, &vec![]).is_empty());
}

#[test]
fn a_long_chain_built_backwards_is_one_island() {
    let links: Vec<(usize, usize)> = (1..10).rev().map(|k| (k, k - 1)).collect();
    assert_eq!(clusters(10, &links), vec![(0..10).collect::<Vec<usize>>()]);
}
