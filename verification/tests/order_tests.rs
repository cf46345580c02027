use bunker_stats::order::{arrange, extremes, ranks, sort_order};

#[test]
fn sort_order_of_nothing() {
    assert_eq!(sort_order(&[]), Vec::<usize>::new());
}

#[test]
fn sort_order_of_one_sample() {
    assert_eq!(sort_order(&[42]), vec![0usize]);
}

#[test]
fn sort_order_lists_smallest_key_first() {
    assert_eq!(sort_order(&[3, 1, 2]), vec![1usize, 2, 0]);
    assert_eq!(sort_order(&[5, 4, 3, 2, 1]), vec![4usize, 3, 2, 1, 0]);
    assert_eq!(sort_order(&[1, 2, 3, 4]), vec![0usize, 1, 2, 3]);
}

#[test]
fn sort_order_keeps_equal_keys_in_given_order() {
    assert_eq!(sort_order(&[2, 1, 2, 1, 2]), vec![1usize, 3, 0, 2, 4]);
    assert_eq!(sort_order(&[7, 7, 7]), vec![0usize, 1, 2]);
}

#[test]
fn sort_order_handles_extreme_keys() {
    assert_eq!(sort_order(&[i64::MAX, i64::MIN, 0, -1, 1]), vec![1usize, 3, 2, 4, 0]);
}

#[test]
fn sort_order_agrees_with_a_stable_sort() {
    let mut state: u64 = 0x9e37_79b9_7f4a_7c15;
    for len in 0..40usize {
        let mut keys: Vec<i64> = Vec::new();
        for _ in 0..len {
            state = state.wrapping_mul(6364136223846793005).wrapping_add(1442695040888963407);
            keys.push(((state >> 33) % 7) as i64 - 3);
        }
        let mut want: Vec<usize> = (0..len).collect();
        want.sort_by_key(|&i| keys[i]);
        assert_eq!(sort_order(&keys), want);
    }
}

#[test]
fn ranks_invert_the_sort_order() {
    assert_eq!(ranks(&[3, 1, 2]), vec![2usize, 0, 1]);
    assert_eq!(ranks(&[2, 1, 2, 1, 2]), vec![2usize, 0, 3, 1, 4]);
    assert_eq!(ranks(&[]), Vec::<usize>::new());
}

#[test]
fn rank_counts_the_samples_that_come_before() {
    let keys = [10i64, -4, 10, 3, -4, 0];
    let got = ranks(&keys);
    for i in 0..keys.len() {
        let before = (0..keys.len())
            .filter(|&j| keys[j] < keys[i] || (keys[j] == keys[i] && j < i))
            .count();
        assert_eq!(got[i], before);
    }
}

#[test]
fn extremes_of_nothing_are_absent() {
    assert_eq!(extremes(&[]), None);
}

#[test]
fn extremes_are_first_and_last_of_the_sort_order() {
    let keys = [4i64, -2, 9, -2, 9, 0];
    let order = sort_order(&keys);
    assert_eq!(extremes(&keys), Some((order[0], order[order.len() - 1])));
    assert_eq!(extremes(&keys), Some((1, 4)));
}

#[test]
fn extremes_of_equal_keys() {
    assert_eq!(extremes(&[5, 5, 5]), Some((0, 2)));
    assert_eq!(extremes(&[5]), Some((0, 0)));
}

#[test]
fn arrange_follows_the_order() {
    let items = [10.5f64, 20.5, 30.5];
    assert_eq!(arrange(&items, &[2, 0, 1]), Some(vec![30.5, 10.5, 20.5]));
}

#[test]
fn arrange_may_repeat_and_leave_out() {
    let items = ['a', 'b', 'c'];
    assert_eq!(arrange(&items, &[1, 1]), Some(vec!['b', 'b']));
    assert_eq!(arrange(&items, &[]), Some(vec![]));
}

#[test]
fn arrange_refuses_an_index_that_is_not_there() {
    let items = [1u8, 2, 3];
    assert_eq!(arrange(&items, &[0, 3]), None);
    assert_eq!(arrange::<u8>(&[], &[0]), None);
}

#[test]
fn arrange_by_sort_order_sorts() {
    let xs = [3.5f64, -1.0, 2.25, -1.0, 0.0];
    let keys: Vec<i64> = bunker_stats::sample::keys(&xs.iter().map(|x| x.to_bits()).collect::<Vec<u64>>()).unwrap();
    let sorted = arrange(&xs, &sort_order(&keys)).unwrap();
    assert_eq!(sorted, vec![-1.0, -1.0, 0.0, 2.25, 3.5]);
}
