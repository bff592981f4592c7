use simple_pagerank::rank_order;

#[test]
fn ranks_highest_key_first() {
    assert_eq!(vec![4usize, 1, 2, 0, 3], rank_order(&vec![1u64, 5, 5, 0, 9]));
}

#[test]
fn equal_keys_keep_index_order() {
    assert_eq!(vec![0usize, 1, 2, 3], rank_order(&vec![7u64, 7, 7, 7]));
    assert_eq!(vec![1usize, 3, 0, 2], rank_order(&vec![2u64, 8, 2, 8]));
}

#[test]
fn ranking_of_no_keys_is_empty() {
    assert!(rank_order(&Vec::new()).is_empty());
}

#[test]
fn ranking_extreme_keys() {
    assert_eq!(vec![2usize, 1, 0], rank_order(&vec![0u64, 1, u64::MAX]));
}

#[test]
fn ranking_again_gives_the_same_order() {
    let keys: Vec<u64> = (0..100u64).map(|i| (i * 37) % 11).collect();
    let first = rank_order(&keys);
    let second = rank_order(&keys);
    assert_eq!(first, second);
    assert_eq!(100, first.len());
    for w in first.windows(2) {
        let (a, b) = (w[0], w[1]);
        assert!(keys[a] > keys[b] || (keys[a] == keys[b] && a < b));
    }
}
