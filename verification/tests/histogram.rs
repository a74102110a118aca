use puc::seml::histogram::{cumulative, key_in_range};

#[test]
fn cumulative_merges_keys_and_runs_counts() {
    let hists = vec![
        vec![(700, Some(2)), (650, Some(1))],
        vec![(660, Some(5)), (700, None)],
    ];
    let t = cumulative(&hists);
    assert_eq!(t.keys, vec![650, 660, 700]);
    assert_eq!(t.rows, vec![vec![1, 0], vec![1, 5], vec![3, 5]]);
}

#[test]
fn cumulative_last_row_is_column_total() {
    let hists = vec![vec![(3, Some(4)), (1, Some(6)), (2, Some(10))]];
    let t = cumulative(&hists);
    assert_eq!(t.keys, vec![1, 2, 3]);
    assert_eq!(t.rows.last().unwrap(), &vec![20]);
}

#[test]
fn cumulative_of_nothing_is_empty() {
    let t = cumulative(&vec![]);
    assert!(t.keys.is_empty());
    assert!(t.rows.is_empty());
    let t = cumulative(&vec![vec![], vec![]]);
    assert!(t.keys.is_empty());
}

#[test]
fn cumulative_counts_are_exact_beyond_i64() {
    let hists = vec![vec![(1, Some(i64::MAX)), (2, Some(i64::MAX))]];
    let t = cumulative(&hists);
    assert_eq!(t.rows[1][0], 2 * (i64::MAX as i128));
}

#[test]
fn key_in_range_needs_counts_and_bounds() {
    assert!(key_in_range(3, 10, Some(400), Some(500), 450));
    assert!(key_in_range(3, 10, Some(400), Some(500), 500));
    assert!(!key_in_range(3, 10, Some(400), Some(500), 501));
    assert!(!key_in_range(0, 10, Some(400), Some(500), 450));
    assert!(!key_in_range(3, 0, Some(400), Some(500), 450));
    assert!(!key_in_range(3, 10, None, Some(500), 450));
}
