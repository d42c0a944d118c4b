use compactor::permits::{compute_permits, SINGLE_THREADED_COLUMN_COUNT};

#[test]
fn concurrency_limits() {
    assert_eq!(compute_permits(100, 1), 1); // 1 column still takes 1 permit
    assert_eq!(compute_permits(100, SINGLE_THREADED_COLUMN_COUNT / 10), 1); // 10% of the max column count takes 1% of total permits
    assert_eq!(
        compute_permits(100, SINGLE_THREADED_COLUMN_COUNT * 2 / 10),
        4
    ); // 20% of the max column count takes 4% of total permits
    assert_eq!(
        compute_permits(100, SINGLE_THREADED_COLUMN_COUNT * 3 / 10),
        9
    ); // 30% of the max column count takes 9% of total permits
    assert_eq!(
        compute_permits(100, SINGLE_THREADED_COLUMN_COUNT * 4 / 10),
        16
    ); // 40% of the max column count takes 16% of total permits
    assert_eq!(
        compute_permits(100, SINGLE_THREADED_COLUMN_COUNT * 5 / 10),
        25
    ); // 50% of the max column count takes 25% of total permits
    assert_eq!(
        compute_permits(100, SINGLE_THREADED_COLUMN_COUNT * 6 / 10),
        36
    ); // 60% of the max column count takes 36% of total permits
    assert_eq!(
        compute_permits(100, SINGLE_THREADED_COLUMN_COUNT * 7 / 10),
        49
    ); // 70% of the max column count takes 49% of total permits
    assert_eq!(
        compute_permits(100, SINGLE_THREADED_COLUMN_COUNT * 8 / 10),
        64
    ); // 80% of the max column count takes 64% of total permits
    assert_eq!(
        compute_permits(100, SINGLE_THREADED_COLUMN_COUNT * 9 / 10),
        81
    ); // 90% of the max column count takes 81% of total permits
    assert_eq!(compute_permits(100, SINGLE_THREADED_COLUMN_COUNT), 100); // 100% of the max column count takes 100% of total permits
    assert_eq!(compute_permits(100, 10000), 100); // huge column count takes exactly all permits (not more than the total)
}

#[test]
fn permits_never_shrink_with_more_columns() {
    let mut previous = 0;
    for columns in 0..250 {
        let permits = compute_permits(64, columns);
        assert!(permits >= previous);
        assert!(permits >= 1);
        previous = permits;
    }
    assert_eq!(previous, 64);
}

#[test]
fn permits_round_down_and_saturate() {
    assert_eq!(compute_permits(7, 99), 6); // 7 * 9801 / 10000 = 6.86
    assert_eq!(compute_permits(0, 5), 1);
    assert_eq!(compute_permits(0, 100), 0);
    assert_eq!(compute_permits(usize::MAX, 99), u32::MAX);
}
