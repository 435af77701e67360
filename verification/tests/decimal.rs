use mnist_digits::decimal::parse_decimal;
use mnist_digits::fixed::floor_sqrt;
use mnist_digits::Fixed;

fn read(text: &str) -> Option<i64> {
    parse_decimal(text.as_bytes()).map(|number| number.units)
}

#[test]
fn plain_numbers_are_read() {
    assert_eq!(read("0"), Some(0));
    assert_eq!(read("7"), Some(7_000_000_000));
    assert_eq!(read("255"), Some(255_000_000_000));
    assert_eq!(read("0.2"), Some(200_000_000));
    assert_eq!(read("9.9"), Some(9_900_000_000));
    assert_eq!(read("00012.5000"), Some(12_500_000_000));
    assert_eq!(read("3."), Some(3_000_000_000));
    assert_eq!(read(".5"), Some(500_000_000));
    assert_eq!(read("0.000000001"), Some(1));
}

#[test]
fn signs_are_read() {
    assert_eq!(read("+1.5"), Some(1_500_000_000));
    assert_eq!(read("-1.5"), Some(-1_500_000_000));
    assert_eq!(read("-0"), Some(0));
    assert_eq!(read("-.25"), Some(-250_000_000));
    assert_eq!(read("-0.0000000019"), Some(-1));
}

#[test]
fn digits_beyond_the_ninth_place_are_cut() {
    assert_eq!(read("0.1234567891"), Some(123_456_789));
    assert_eq!(read("0.9999999999"), Some(999_999_999));
    assert_eq!(read("0.0000000009"), Some(0));
    assert_eq!(read("-0.9999999999"), Some(-999_999_999));
    assert_eq!(read("0.30000000000000004"), Some(300_000_000));
    assert_eq!(read("1.00000000000000000000000000000000000000000001"), Some(1_000_000_000));
}

#[test]
fn exponents_are_read() {
    assert_eq!(read("1e0"), Some(1_000_000_000));
    assert_eq!(read("1e3"), Some(1_000_000_000_000));
    assert_eq!(read("1E3"), Some(1_000_000_000_000));
    assert_eq!(read("1e+3"), Some(1_000_000_000_000));
    assert_eq!(read("12e-3"), Some(12_000_000));
    assert_eq!(read("1e-7"), Some(100));
    assert_eq!(read("1.5e-7"), Some(150));
    assert_eq!(read("1e-9"), Some(1));
    assert_eq!(read("1e-10"), Some(0));
    assert_eq!(read("123456e-14"), Some(1));
    assert_eq!(read("123456e-15"), Some(0));
    assert_eq!(read("-2.5e2"), Some(-250_000_000_000));
    assert_eq!(read(".5e1"), Some(5_000_000_000));
    assert_eq!(read("5.e1"), Some(50_000_000_000));
    assert_eq!(read("0.000000000000000000001e30"), Some(1_000_000_000_000_000_000));
    assert_eq!(read("1000000000000000000000e-21"), Some(1_000_000_000));
    assert_eq!(read("12345.678e-2"), Some(123_456_780_000));
    assert_eq!(read("12345.678e2"), Some(1_234_567_800_000_000));
}

#[test]
fn enormous_exponents_are_read() {
    assert_eq!(read("0e99999999999999999999999999999999999999999999"), Some(0));
    assert_eq!(read("0.000e340282366920938463463374607431768211456"), Some(0));
    assert_eq!(read("1e-99999999999999999999999999999999999999999999"), Some(0));
    assert_eq!(read("987654321e-340282366920938463463374607431768211457"), Some(0));
    assert_eq!(read("1e99999999999999999999999999999999999999999999"), None);
    assert_eq!(read("0.0001e18446744073709551616"), None);
}

#[test]
fn the_range_ends_at_the_limit() {
    assert_eq!(read("9223372036.854775807"), Some(i64::MAX));
    assert_eq!(read("-9223372036.854775807"), Some(-i64::MAX));
    assert_eq!(read("9223372036.8547758079"), Some(i64::MAX));
    assert_eq!(read("9223372036.854775808"), None);
    assert_eq!(read("-9223372036.854775808"), None);
    assert_eq!(read("9223372037"), None);
    assert_eq!(read("1e10"), None);
    assert_eq!(read("1e19"), None);
    assert_eq!(read("0.1e11"), None);
    assert_eq!(read("9e9"), Some(9_000_000_000_000_000_000));
    assert_eq!(read("99999999999999999999999999999999"), None);
    assert_eq!(read("922337203685477580700000e-14"), Some(i64::MAX));
}

#[test]
fn what_is_no_number_is_refused() {
    for text in ["", "+", "-", ".", "+.", "e5", ".e5", "1e", "1e+", "1e-", "1.2.3", "1,5", " 1",
        "1 ", "0x10", "abc", "1e5.0", "1e5e5", "--1", "+-1", "1-", "inf", "NaN", "infinity",
        "1_000", "१"]
    {
        assert_eq!(read(text), None, "{:?}", text);
    }
    assert_eq!(parse_decimal(&[49, 0]), None);
    assert_eq!(parse_decimal(&[255]), None);
    assert_eq!(parse_decimal(&[47]), None);
    assert_eq!(parse_decimal(&[58]), None);
}

#[test]
fn parsed_numbers_compare_as_values() {
    assert_eq!(parse_decimal(b"0.50"), Some(Fixed { units: 500_000_000 }));
    assert_eq!(parse_decimal(b"5e-1"), parse_decimal(b".5"));
    assert_eq!(Fixed::zero().units, 0);
    assert_eq!(Fixed::one(), Fixed { units: 1_000_000_000 });
}

#[test]
fn rounding_goes_to_the_nearest_whole() {
    for (units, whole) in [(0i64, 0i64), (499_999_999, 0), (500_000_000, 1), (999_999_999, 1),
        (1_000_000_000, 1), (1_499_999_999, 1), (1_500_000_000, 2), (-499_999_999, 0),
        (-500_000_000, -1), (-1_499_999_999, -1), (-1_500_000_000, -2),
        (i64::MAX, 9_223_372_037), (i64::MIN, -9_223_372_037)]
    {
        assert_eq!(Fixed { units }.round(), whole, "{}", units);
    }
}

#[test]
fn square_roots_are_rounded_down() {
    for (n, root) in [(0u64, 0u64), (1, 1), (2, 1), (3, 1), (4, 2), (8, 2), (9, 3), (99, 9),
        (100, 10), (9_250_000_000_000_000, 96_176_920), (1_000_000_000_000_000_000, 1_000_000_000),
        (999_999_999_999_999_999, 999_999_999), (u64::MAX, 4_294_967_295)]
    {
        assert_eq!(floor_sqrt(n), root, "{}", n);
    }
}
