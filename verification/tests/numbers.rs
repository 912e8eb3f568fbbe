use mos_db::number::{decimal_text, is_integer};

#[test]
fn integer_literals_accepted() {
    for s in [
        "0",
        "7",
        "42",
        "-42",
        "-0",
        "007",
        "-007",
        "9223372036854775807",
        "-9223372036854775808",
        "0000000000000000000000000000000000000001",
        "-00000000000000000000009223372036854775808",
    ] {
        assert!(is_integer(s), "{:?}", s);
    }
}

#[test]
fn integer_literals_refused() {
    for s in [
        "",
        "-",
        "--1",
        "+",
        "+5",
        "abc",
        "1a",
        "a1",
        "1.0",
        "1e3",
        " 1",
        "1 ",
        "1-",
        "1_000",
        "0x10",
        "９",
        "١",
        "9223372036854775808",
        "-9223372036854775809",
        "99999999999999999999999999999999999999999999",
        "-99999999999999999999999999999999999999999999",
    ] {
        assert!(!is_integer(s), "{:?}", s);
    }
}

#[test]
fn integer_literals_are_those_that_parse() {
    let samples = [
        "", "-", "0", "-0", "12", "-12", "00", "1 ", " 1", "1x", "x", "--", "-1-", "٣",
        "9223372036854775806", "9223372036854775807", "9223372036854775808",
        "-9223372036854775807", "-9223372036854775808", "-9223372036854775809",
        "18446744073709551615", "18446744073709551616", "340282366920938463463374607431768211456",
    ];
    for s in samples {
        assert_eq!(is_integer(s), s.parse::<i64>().is_ok(), "{:?}", s);
    }
    for n in -1000i64..1000 {
        assert!(is_integer(&n.to_string()));
    }
}

#[test]
fn decimal_numerals() {
    assert_eq!(decimal_text(0), "0");
    assert_eq!(decimal_text(7), "7");
    assert_eq!(decimal_text(10), "10");
    assert_eq!(decimal_text(42), "42");
    assert_eq!(decimal_text(1005), "1005");
    assert_eq!(decimal_text(usize::MAX), usize::MAX.to_string());
    for n in 0..2000usize {
        assert_eq!(decimal_text(n), n.to_string());
    }
}
