use sscipher::cipher::levels::{fit_thresholds, LevelParams};

#[test]
fn fewer_blocks_than_the_threshold_form_one_column() {
    assert_eq!(fit_thresholds(1, 2), (1, 1));
    assert_eq!(fit_thresholds(3, 4), (3, 1));
    assert_eq!(fit_thresholds(0, 2), (0, 1));
}

#[test]
fn exact_multiples_give_up_one_column() {
    // 4 blocks, minimum 2: a = 4, b = 0, 2 < 4
    assert_eq!(fit_thresholds(4, 2), (2, 3));
    // 6 blocks, minimum 3: a = 3, b = 0, threshold 3 + 2 / 2 - 1
    assert_eq!(fit_thresholds(6, 3), (3, 2));
    // 4 blocks, minimum 3: a = 2, b = 0, threshold 3 + 2 / 1 - 1
    assert_eq!(fit_thresholds(4, 3), (4, 1));
    // 12 blocks, minimum 5: a = 3, b = 0, threshold 5 + 4 / 2 - 1
    assert_eq!(fit_thresholds(12, 5), (6, 2));
    // 9 blocks, minimum 4: a = 3, b = 0, threshold 4 + 3 / 2, not divisible
    assert_eq!(fit_thresholds(9, 4), (5, 2));
}

#[test]
fn remainders_are_dealt_over_the_columns() {
    assert_eq!(fit_thresholds(10, 4), (4, 3));
    assert_eq!(fit_thresholds(11, 4), (4, 3));
    assert_eq!(fit_thresholds(5, 4), (5, 1));
    assert_eq!(fit_thresholds(7, 5), (7, 1));
    assert_eq!(fit_thresholds(11, 5), (6, 2));
    assert_eq!(fit_thresholds(641, 4), (4, 213));
}

#[test]
fn blocks_are_full_and_short_columns() {
    for t_min in 2usize..=9 {
        for n in 1usize..=400 {
            let (t, p) = fit_thresholds(n, t_min);
            assert!(p >= 1);
            if n >= 2 {
                assert!(t >= 2, "n {n} t_min {t_min}");
            }
            let full = if n % p == 0 { p } else { n % p };
            assert_eq!(full * t + (p - full) * (t - 1), n, "n {n} t_min {t_min}");
            if n >= t_min {
                assert!(t >= t_min && t <= 2 * t_min - 2);
                assert!(p < n);
            }
        }
    }
}

#[test]
fn one_block_has_threshold_one() {
    assert_eq!(fit_thresholds(1, 5).0, 1);
}

#[test]
fn going_down_fits_the_columns() {
    let mut level = LevelParams {
        start: 0,
        end: 640,
        blocks_count: 641,
        threshold: 4,
        max_part_size: 213,
        last_part_size: 641 % 213,
    };
    level.go_down(4);
    assert_eq!(level.blocks_count, 213);
    assert_eq!((level.threshold, level.max_part_size), fit_thresholds(213, 4));
    assert_eq!(level.last_part_size, 213 % level.max_part_size);
    assert_eq!(level.end, level.max_part_size - 1);
    assert_eq!(level.start, 0);
}
