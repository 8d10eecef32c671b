use counterparser::number::{i64_text, parse_i64, parse_u64, to_signed, u64_text};

fn chars(s: &str) -> Vec<char> {
    s.chars().collect()
}

#[test]
fn numbers_are_written_in_decimal() {
    assert_eq!(u64_text(0), "0");
    assert_eq!(u64_text(907), "907");
    assert_eq!(u64_text(u64::MAX), "18446744073709551615");
    assert_eq!(i64_text(-12), "-12");
    assert_eq!(i64_text(i64::MIN), "-9223372036854775808");
    assert_eq!(i64_text(i64::MAX), "9223372036854775807");
}

#[test]
fn numbers_are_read_as_they_are_written() {
    for n in [0, 7, 10, 1_000_000, u64::MAX] {
        assert_eq!(parse_u64(&chars(&u64_text(n))), Some(n));
    }
    for n in [0, -1, 42, i64::MIN, i64::MAX] {
        assert_eq!(parse_i64(&i64_text(n)), Some(n));
    }
}

#[test]
fn what_is_no_number_is_refused() {
    for s in ["", "+", "-", "-1", "1 ", "0x1", "1_0", "18446744073709551616"] {
        assert_eq!(parse_u64(&chars(s)), None);
    }
    assert_eq!(parse_u64(&chars("+007")), Some(7));
    for s in ["", "+", "-", "--1", "9223372036854775808", "-9223372036854775809", "\u{661}"] {
        assert_eq!(parse_i64(s), None);
    }
    assert_eq!(parse_i64("-007"), Some(-7));
    assert_eq!(parse_i64("-0"), Some(0));
}

#[test]
fn greater_numbers_turn_negative() {
    assert_eq!(to_signed(5), 5);
    assert_eq!(to_signed(u64::MAX), -1);
    assert_eq!(to_signed(1 << 63), i64::MIN);
}
