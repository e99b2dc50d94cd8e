use web_bench_ui::rounding::round_to_digit;

#[test]
fn test_rount_to_digit() {
    let res = round_to_digit(31323.1 as u64, 2);
    assert_eq!(res, 32000);
    let res = round_to_digit(3999.1 as u64, 2);
    assert_eq!(res, 4000);
    let res = round_to_digit(39.1 as u64, 3);
    assert_eq!(res, 39);
    let res = round_to_digit(39.1 as u64, 2);
    assert_eq!(res, 40);
    let res = round_to_digit(39.1 as u64, 1);
    assert_eq!(res, 40);
}

#[test]
fn rounds_one_hundred_to_one_ten() {
    assert_eq!(round_to_digit(100, 2), 110);
}

#[test]
fn single_digit_values_get_their_successor() {
    assert_eq!(round_to_digit(0, 2), 1);
    assert_eq!(round_to_digit(5, 2), 6);
    assert_eq!(round_to_digit(9, 1), 10);
}

#[test]
fn digit_position_beyond_the_value_returns_it_unchanged() {
    assert_eq!(round_to_digit(39, 3), 39);
    assert_eq!(round_to_digit(4711, 9), 4711);
}

#[test]
fn rerounding_is_idempotent_beyond_the_digit_count() {
    let r = round_to_digit(39, 3);
    assert_eq!(round_to_digit(r, 3), r);
    let r = round_to_digit(4711, 9);
    assert_eq!(round_to_digit(r, 9), r);
}

#[test]
fn rerounding_at_the_target_digit_moves_the_ceiling_again() {
    assert_eq!(round_to_digit(31323, 2), 32000);
    assert_eq!(round_to_digit(32000, 2), 33000);
}

#[test]
fn incrementing_a_nine_carries() {
    assert_eq!(round_to_digit(3999, 1), 4000);
    assert_eq!(round_to_digit(99, 2), 100);
    assert_eq!(round_to_digit(99, 1), 100);
}

#[test]
fn result_never_drops_below_the_value() {
    for v in [0u64, 1, 7, 10, 42, 99, 100, 101, 999, 12345, 31323] {
        for d in 1usize..5 {
            assert!(round_to_digit(v, d) >= v);
        }
    }
}

#[test]
fn largest_supported_value() {
    assert_eq!(
        round_to_digit(9_999_999_999_999_999_999, 2),
        10_000_000_000_000_000_000
    );
}
