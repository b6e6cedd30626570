use expense_bot::money::format_amount;

#[test]
fn groups_by_thousands() {
    assert_eq!(format_amount(0), "$0");
    assert_eq!(format_amount(7), "$7");
    assert_eq!(format_amount(999), "$999");
    assert_eq!(format_amount(1_000), "$1.000");
    assert_eq!(format_amount(4_500), "$4.500");
    assert_eq!(format_amount(104_500), "$104.500");
    assert_eq!(format_amount(1_234_567), "$1.234.567");
}

#[test]
fn negatives_keep_the_sign_outside_the_symbol() {
    assert_eq!(format_amount(-4_500), "-$4.500");
}

#[test]
fn handles_the_extremes_without_overflow() {
    assert_eq!(format_amount(i64::MIN), "-$9.223.372.036.854.775.808");
    assert_eq!(format_amount(i64::MAX), "$9.223.372.036.854.775.807");
}

#[test]
fn inner_groups_keep_their_zeros() {
    assert_eq!(format_amount(1_000_001), "$1.000.001");
    assert_eq!(format_amount(10_050), "$10.050");
    assert_eq!(format_amount(-1), "-$1");
}

#[test]
fn amounts_are_printed_in_groups_of_three() {
    for amount in [0_i64, 5, 42, 999, 1_000, 12_345, 100_000, 9_876_543, i64::MAX, i64::MIN, -1_001] {
        let shown = format_amount(amount);
        let digits = shown.trim_start_matches('-').strip_prefix('$').unwrap();
        let groups: Vec<&str> = digits.split('.').collect();
        assert!((1..=3).contains(&groups[0].len()));
        assert!(groups[1..].iter().all(|g| g.len() == 3));
        assert_eq!(digits.replace('.', ""), amount.unsigned_abs().to_string());
    }
}
