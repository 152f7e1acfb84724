use meta_indexer::ranking::{keep_first, sort_by_score_desc};

#[test]
fn scores_sorted_high_to_low_stably() {
    let v = vec![(0, 5), (1, 9), (2, 5), (3, -1), (4, 9)];
    assert_eq!(sort_by_score_desc(v), vec![(1, 9), (4, 9), (0, 5), (2, 5), (3, -1)]);
    assert!(sort_by_score_desc(vec![]).is_empty());
}

#[test]
fn keep_first_truncates_only_longer_lists() {
    let mut v = vec![1, 2, 3];
    keep_first(&mut v, 5);
    assert_eq!(v, vec![1, 2, 3]);
    keep_first(&mut v, 2);
    assert_eq!(v, vec![1, 2]);
    keep_first(&mut v, 0);
    assert!(v.is_empty());
}
