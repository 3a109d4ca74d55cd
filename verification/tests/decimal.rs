use inventory::decimal::{
    append_decimal, append_scaled_decimal, append_signed_decimal, decimal_text, digit_text,
    digits_of, scaled_digits,
};

#[test]
fn digit_text_is_the_digit() {
    let expected = ["0", "1", "2", "3", "4", "5", "6", "7", "8", "9"];
    for d in 0..10u8 {
        assert_eq!(digit_text(d), expected[d as usize]);
    }
}

#[test]
fn decimal_text_of_chosen_numbers() {
    assert_eq!(decimal_text(0), "0");
    assert_eq!(decimal_text(5), "5");
    assert_eq!(decimal_text(10), "10");
    assert_eq!(decimal_text(-1), "-1");
    assert_eq!(decimal_text(-120), "-120");
    assert_eq!(decimal_text(2147483647), "2147483647");
    assert_eq!(decimal_text(-2147483648), "-2147483648");
    assert_eq!(decimal_text(i64::MAX), "9223372036854775807");
    assert_eq!(decimal_text(i64::MIN), "-9223372036854775808");
}

#[test]
fn decimal_text_matches_the_standard_rendering() {
    let mut n: i64 = 1;
    for step in 0..2000i64 {
        assert_eq!(decimal_text(n), n.to_string());
        assert_eq!(decimal_text(-n), (-n).to_string());
        n = n.wrapping_mul(31).wrapping_add(step) % 1_000_000_000_000_000;
    }
    for n in -1100..1100i64 {
        assert_eq!(decimal_text(n), n.to_string());
    }
}

#[test]
fn append_decimal_keeps_what_was_there() {
    let mut out = String::from("n=");
    append_decimal(&mut out, 0);
    append_decimal(&mut out, 42);
    append_decimal(&mut out, u64::MAX);
    assert_eq!(out, "n=04218446744073709551615");
    let mut signed = String::from("x");
    append_signed_decimal(&mut signed, -7);
    append_signed_decimal(&mut signed, 7);
    assert_eq!(signed, "x-77");
}

#[test]
fn digits_stand_least_significant_first() {
    assert_eq!(digits_of(0), Vec::<u8>::new());
    assert_eq!(digits_of(7), vec![7]);
    assert_eq!(digits_of(120), vec![0, 2, 1]);
    assert_eq!(digits_of(u64::MAX).len(), 20);
    assert_eq!(scaled_digits(3, 0), vec![3]);
    assert_eq!(scaled_digits(3, 2), vec![2, 1]);
    assert_eq!(scaled_digits(5, 1), vec![0, 1]);
    assert_eq!(scaled_digits(0, 9), Vec::<u8>::new());
    assert_eq!(scaled_digits(1, 10), vec![4, 2, 0, 1]);
}

#[test]
fn append_scaled_decimal_writes_long_numbers() {
    let mut out = String::new();
    append_scaled_decimal(&mut out, 0, 70);
    assert_eq!(out, "0");
    let mut out = String::from("$");
    append_scaled_decimal(&mut out, 1, 64);
    assert_eq!(out, "$18446744073709551616");
    let mut out = String::new();
    append_scaled_decimal(&mut out, 1, 128);
    assert_eq!(out, "340282366920938463463374607431768211456");
    for shift in 0..64u32 {
        let mut out = String::new();
        append_scaled_decimal(&mut out, 12345, shift);
        assert_eq!(out, (12345u128 << shift).to_string());
    }
    let mut out = String::new();
    append_scaled_decimal(&mut out, u64::MAX, 60);
    assert_eq!(out, ((u64::MAX as u128) << 60).to_string());
}
