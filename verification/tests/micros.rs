use slow_pages::micros::{digit_of, mean, parse_micros};

#[test]
fn parse_micros_reads_whole_numbers_and_fractions() {
    assert_eq!(Some(0), parse_micros("0"));
    assert_eq!(Some(5_000), parse_micros("5"));
    assert_eq!(Some(5_000), parse_micros("5."));
    assert_eq!(Some(500), parse_micros(".5"));
    assert_eq!(Some(1_915_450), parse_micros("1915.45"));
    assert_eq!(Some(7_930), parse_micros("7.93"));
    assert_eq!(Some(1_841_200), parse_micros("1841.20"));
    assert_eq!(Some(12_003), parse_micros("0012.003"));
}

#[test]
fn parse_micros_reads_a_sign_and_an_exponent() {
    assert_eq!(Some(5_000), parse_micros("+5"));
    assert_eq!(Some(1_000_000), parse_micros("1e3"));
    assert_eq!(Some(100_000), parse_micros("1E2"));
    assert_eq!(Some(1_000_000), parse_micros("+1.0e+3"));
    assert_eq!(Some(5_000), parse_micros(".5e1"));
    assert_eq!(Some(5_000), parse_micros("5.e0"));
    assert_eq!(Some(500), parse_micros("5e-1"));
    assert_eq!(Some(1_234), parse_micros("1234e-3"));
    assert_eq!(Some(12), parse_micros("1234.5e-5"));
    assert_eq!(Some(1_915_450), parse_micros("0.191545E4"));
    assert_eq!(Some(1_000), parse_micros("0.000000000000000000000000000001e30"));
    assert_eq!(Some(1_000), parse_micros("1000000000000000000000000000000e-30"));
    assert_eq!(Some(0), parse_micros("0e99999999999999999999999999999999999999"));
    assert_eq!(Some(0), parse_micros("1e-99999999999999999999999999999999999999"));
    assert_eq!(Some(0), parse_micros("-0"));
    assert_eq!(Some(0), parse_micros("-0.000e5"));
}

#[test]
fn parse_micros_agrees_with_the_nearest_float() {
    for token in ["1915.45", "84.55", "1e3", "+5", "1E2", "7.93", ".5", "5.", "1841.20", "2.5e-1"] {
        let expected: f32 = token.parse().unwrap();
        let read = parse_micros(token).unwrap();
        assert_eq!(read as f32 / 1000.0, expected);
    }
}

#[test]
fn parse_micros_rounds_to_the_nearest_microsecond() {
    assert_eq!(Some(1_234), parse_micros("1.2344"));
    assert_eq!(Some(1_235), parse_micros("1.2345"));
    assert_eq!(Some(2_000), parse_micros("1.9999999"));
    assert_eq!(Some(1), parse_micros("0.0009"));
    assert_eq!(Some(1), parse_micros("0.0005"));
    assert_eq!(Some(0), parse_micros("0.0004999"));
    assert_eq!(Some(2), parse_micros("1.5e-3"));
    assert_eq!(Some(1), parse_micros(".5e-3"));
    assert_eq!(Some(0), parse_micros("5e-5"));
}

#[test]
fn parse_micros_rejects_what_is_no_number() {
    for token in [
        "", ".", "+", "-", "+.", "abc", "1.2.3", "1,5", "12ms", "1.5x", "NaN", "nan", "inf",
        "+inf", "infinity", "e5", ".e5", "1e", "1e+", "1e-", "1e3.5", "1e5e5", "--1", "+-1",
        "1 ", " 1", "0x10", "١٢", "1_000",
    ] {
        assert_eq!(None, parse_micros(token), "{:?}", token);
    }
}

#[test]
fn parse_micros_rejects_a_number_below_zero() {
    assert_eq!(None, parse_micros("-1"));
    assert_eq!(None, parse_micros("-0.001"));
    assert_eq!(None, parse_micros("-0.0001"));
    assert_eq!(None, parse_micros("-1e-30"));
    assert_eq!(None, parse_micros("-5e3"));
}

#[test]
fn parse_micros_stops_at_what_sixty_four_bits_hold() {
    assert_eq!(Some(u64::MAX), parse_micros("18446744073709551.615"));
    assert_eq!(Some(u64::MAX), parse_micros("18446744073709551.6154"));
    assert_eq!(Some(u64::MAX), parse_micros("18446744073709551615e-3"));
    assert_eq!(Some(10_000_000_000_000_000_000), parse_micros("1e16"));
    assert_eq!(None, parse_micros("18446744073709551.6155"));
    assert_eq!(None, parse_micros("18446744073709551.616"));
    assert_eq!(None, parse_micros("18446744073709552"));
    assert_eq!(None, parse_micros("1e17"));
    assert_eq!(None, parse_micros("99999999999999999999999999"));
    assert_eq!(None, parse_micros("99999999999999999999999999x"));
    assert_eq!(None, parse_micros("1e99999999999999999999999999999999999999"));
    assert_eq!(None, parse_micros("0.1e99999999999999999999999999999999999999"));
}

#[test]
fn digit_of_tells_digits_from_other_characters() {
    assert_eq!(Some(0), digit_of('0'));
    assert_eq!(Some(9), digit_of('9'));
    assert_eq!(None, digit_of('a'));
    assert_eq!(None, digit_of('/'));
    assert_eq!(None, digit_of(':'));
}

#[test]
fn mean_rounds_to_the_nearest_and_does_not_overflow() {
    assert_eq!(1_500, mean(1_000, 2_000));
    assert_eq!(1_500, mean(2_000, 1_000));
    assert_eq!(2, mean(1, 2));
    assert_eq!(2, mean(2, 1));
    assert_eq!(3, mean(2, 3));
    assert_eq!(3, mean(3, 3));
    assert_eq!(1, mean(0, 1));
    assert_eq!(0, mean(0, 0));
    assert_eq!(u64::MAX, mean(u64::MAX, u64::MAX));
    assert_eq!(u64::MAX, mean(u64::MAX, u64::MAX - 1));
    assert_eq!(u64::MAX / 2 + 1, mean(u64::MAX, 0));
}
