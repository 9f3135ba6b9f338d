use planet_tiles::text::{
    chars_of, find_char, is_float, parse_u32, parse_u64, parse_unsigned, same_text, text_between,
    u64_text,
};

#[test]
fn chars_come_in_order() {
    assert_eq!(chars_of("a/ü"), vec!['a', '/', 'ü']);
    assert_eq!(chars_of(""), Vec::<char>::new());
}

#[test]
fn text_between_takes_the_range() {
    let chars = chars_of("héllo");
    assert_eq!(text_between(&chars, 1, 4), "éll");
    assert_eq!(text_between(&chars, 2, 2), "");
    assert_eq!(text_between(&chars, 0, 5), "héllo");
}

#[test]
fn parse_u64_reads_digits() {
    assert_eq!(parse_u64("0"), Some(0));
    assert_eq!(parse_u64("42"), Some(42));
    assert_eq!(parse_u64("007"), Some(7));
    assert_eq!(parse_u64("+15"), Some(15));
    assert_eq!(parse_u64("18446744073709551615"), Some(u64::MAX));
    assert_eq!(parse_u64("00018446744073709551615"), Some(u64::MAX));
}

#[test]
fn parse_u64_refuses_what_is_no_number() {
    assert_eq!(parse_u64(""), None);
    assert_eq!(parse_u64("+"), None);
    assert_eq!(parse_u64("-1"), None);
    assert_eq!(parse_u64("-0"), None);
    assert_eq!(parse_u64("++1"), None);
    assert_eq!(parse_u64("1+"), None);
    assert_eq!(parse_u64(" 1"), None);
    assert_eq!(parse_u64("1 "), None);
    assert_eq!(parse_u64("1_000"), None);
    assert_eq!(parse_u64("12a"), None);
    assert_eq!(parse_u64("1.0"), None);
    assert_eq!(parse_u64("٣"), None);
}

#[test]
fn parse_u64_refuses_what_is_too_large() {
    assert_eq!(parse_u64("18446744073709551616"), None);
    assert_eq!(parse_u64("99999999999999999999999999"), None);
    assert_eq!(parse_u64("184467440737095516150"), None);
}

#[test]
fn parse_u32_keeps_to_its_range() {
    assert_eq!(parse_u32("0"), Some(0));
    assert_eq!(parse_u32("4294967295"), Some(u32::MAX));
    assert_eq!(parse_u32("4294967296"), None);
    assert_eq!(parse_u32("+3"), Some(3));
    assert_eq!(parse_u32("3.5"), None);
    assert_eq!(parse_u32(""), None);
}

#[test]
fn parse_unsigned_respects_the_limit() {
    assert_eq!(parse_unsigned(&chars_of("255"), 255), Some(255));
    assert_eq!(parse_unsigned(&chars_of("256"), 255), None);
    assert_eq!(parse_unsigned(&chars_of("0"), 0), Some(0));
    assert_eq!(parse_unsigned(&chars_of("1"), 0), None);
}

#[test]
fn parse_u64_agrees_with_the_standard_parser() {
    let inputs = [
        "", "0", "1", "+1", "-1", "+", "-", "++1", "+-1", "01", "000", "12345678901234567890",
        "18446744073709551615", "18446744073709551616", "1e3", "0x10", " 5", "5 ", "5\n", "٥",
        "1,000", "+0", "9223372036854775808",
    ];
    for input in inputs.iter() {
        assert_eq!(parse_u64(input), input.parse::<u64>().ok(), "input {:?}", input);
        assert_eq!(parse_u32(input), input.parse::<u32>().ok(), "input {:?}", input);
    }
}

#[test]
fn u64_text_writes_the_shortest_decimal() {
    assert_eq!(u64_text(0), "0");
    assert_eq!(u64_text(7), "7");
    assert_eq!(u64_text(10), "10");
    assert_eq!(u64_text(1234), "1234");
    assert_eq!(u64_text(1000000), "1000000");
    assert_eq!(u64_text(u64::MAX), "18446744073709551615");
}

#[test]
fn decimal_text_reads_back() {
    let numbers = [0u64, 1, 9, 10, 11, 99, 100, 65535, 4294967296, u64::MAX - 1, u64::MAX];
    for n in numbers.iter() {
        assert_eq!(parse_u64(&u64_text(*n)), Some(*n));
        assert_eq!(u64_text(*n), n.to_string());
    }
}

#[test]
fn is_float_accepts_numbers() {
    for input in ["3.14", "-3.14", "2.5E10", "2.5e10", "2.5E-10", "5.", ".5", "0.5", "7", "007",
        "+1", "-0", "1e5", "1.e5", "1e+5", "1E-5", "0", "0.0", "123456789012345678901234567890",
        "1e99999"].iter()
    {
        assert!(is_float(input), "input {:?}", input);
    }
}

#[test]
fn is_float_accepts_the_named_values() {
    for input in ["inf", "-inf", "+inf", "infinity", "+infinity", "-Infinity", "INF", "NaN",
        "nan", "-nan", "+NAN", "iNfInItY"].iter()
    {
        assert!(is_float(input), "input {:?}", input);
    }
}

#[test]
fn is_float_refuses_what_is_no_number() {
    for input in ["", "+", "-", ".", "+.", "e5", ".e5", "1e", "1e+", "1e-", "1e5.0", "1.2.3",
        "1..2", " 1", "1 ", "1_0", "abc", "0x10", "in", "infinit", "infinityy", "na", "nane",
        "--1", "+-1", "1f", "1,5", "İnf", "1e5e5", "tiles"].iter()
    {
        assert!(!is_float(input), "input {:?}", input);
    }
}

#[test]
fn is_float_agrees_with_the_standard_parser() {
    let inputs = [
        "", "0", "-0", "+0", "1", "1.", ".1", ".", "1.5", "-1.5", "+1.5", "1e1", "1E1", "1e+1",
        "1e-1", "1e", "e1", "1e1.5", "1.5e1", "1.5e", ".e1", "1..", "..1", "inf", "Inf", "INF",
        "-inf", "+inf", "infinity", "Infinity", "-infinity", "infinit", "nan", "NaN", "NAN",
        "-nan", "+nan", "nann", " 1", "1 ", "\t1", "1\n", "1_000", "0x1p3", "1f64", "+", "-",
        "+-1", "-+1", "++1", "١", "1e٥", "−1", "1e400", "1e-400", "00.00", "0e0", "-.5", "+.5e-3",
        "５",
    ];
    for input in inputs.iter() {
        assert_eq!(is_float(input), input.parse::<f64>().is_ok(), "input {:?}", input);
    }
}

#[test]
fn same_text_compares_characters() {
    assert!(same_text("", ""));
    assert!(same_text("tiles", "tiles"));
    assert!(!same_text("tiles", "tile"));
    assert!(!same_text("tiles", "tileS"));
    assert!(!same_text("a", ""));
    assert!(same_text("é", "é"));
}

#[test]
fn find_char_gives_the_first_place() {
    assert_eq!(find_char(&chars_of("a.b.c"), '.'), 1);
    assert_eq!(find_char(&chars_of(".x"), '.'), 0);
    assert_eq!(find_char(&chars_of("abc"), '.'), 3);
    assert_eq!(find_char(&chars_of(""), '.'), 0);
}
