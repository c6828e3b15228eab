use ui_scene::layer_order;

#[test]
fn order_of_nothing_is_empty() {
    assert_eq!(layer_order(&vec![]), Vec::<usize>::new());
}

#[test]
fn order_of_one_is_itself() {
    assert_eq!(layer_order(&vec![7]), vec![0]);
}

#[test]
fn order_ascends_by_layer() {
    assert_eq!(layer_order(&vec![3, 1, 2]), vec![1, 2, 0]);
    assert_eq!(layer_order(&vec![5, 4, 3, 2, 1]), vec![4, 3, 2, 1, 0]);
    assert_eq!(layer_order(&vec![1, 2, 3]), vec![0, 1, 2]);
}

#[test]
fn order_keeps_ties_in_insertion_order() {
    assert_eq!(layer_order(&vec![0, 0, 0, 0]), vec![0, 1, 2, 3]);
    assert_eq!(layer_order(&vec![5, 0, 5, -1, 0, 5, 0]), vec![3, 1, 4, 6, 0, 2, 5]);
}

#[test]
fn order_handles_extreme_layers() {
    assert_eq!(layer_order(&vec![i32::MAX, i32::MIN, 0, i32::MIN]), vec![1, 3, 2, 0]);
}

#[test]
fn order_is_a_permutation() {
    let keys = vec![9, -3, 4, 4, 0, 9, -3, 1, 1, 1, 8];
    let mut order = layer_order(&keys);
    for pair in order.windows(2) {
        let (a, b) = (pair[0], pair[1]);
        assert!(keys[a] < keys[b] || (keys[a] == keys[b] && a < b));
    }
    order.sort();
    assert_eq!(order, (0..keys.len()).collect::<Vec<usize>>());
}

#[test]
fn order_agrees_with_a_stable_sort() {
    // a fixed sequence with many ties, long enough for several merges
    let mut state: u32 = 12345;
    let mut keys: Vec<i32> = Vec::new();
    for _ in 0..257 {
        state = state.wrapping_mul(1103515245).wrapping_add(12345);
        keys.push(((state >> 16) % 7) as i32 - 3);
    }
    let mut expected: Vec<usize> = (0..keys.len()).collect();
    expected.sort_by_key(|&position| keys[position]);
    assert_eq!(layer_order(&keys), expected);
}

#[test]
fn order_of_two() {
    assert_eq!(layer_order(&vec![1, 0]), vec![1, 0]);
    assert_eq!(layer_order(&vec![0, 1]), vec![0, 1]);
    assert_eq!(layer_order(&vec![4, 4]), vec![0, 1]);
}
