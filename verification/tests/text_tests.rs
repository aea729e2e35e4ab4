use plugin_doro::text::{parse_u64, trim_chars, trimmed_equals, u64_to_decimal, u64_to_padded_decimal, str_eq, concat3};

#[test]
fn decimal_rendering_matches_to_string() {
    for n in [0u64, 7, 10, 99, 100, 12345, u64::MAX] {
        assert_eq!(u64_to_decimal(n), n.to_string());
    }
}

#[test]
fn zero_padding_matches_format() {
    assert_eq!(u64_to_padded_decimal(1, 8), "00000001");
    assert_eq!(u64_to_padded_decimal(123456789, 8), "123456789");
    assert_eq!(u64_to_padded_decimal(5, 2), "05");
    assert_eq!(u64_to_padded_decimal(2024, 4), "2024");
    assert_eq!(u64_to_padded_decimal(0, 0), "0");
}

#[test]
fn parse_matches_std_parse() {
    let cases = [
        "0", "42", "+42", "+", "", "-1", " 1", "1 ", "12a", "007",
        "18446744073709551615", "18446744073709551616", "99999999999999999999",
    ];
    for c in cases {
        assert_eq!(parse_u64(c), c.parse::<u64>().ok(), "case {:?}", c);
    }
}

#[test]
fn parse_reads_back_decimal() {
    for n in [0u64, 1, 9, 10, 4096, u64::MAX] {
        assert_eq!(parse_u64(&u64_to_decimal(n)), Some(n));
    }
}

#[test]
fn trim_matches_std_trim() {
    let cases = ["  今日doro结局  ", "\t\nabc\r\n", "", "   ", "a b", "\u{3000}x\u{a0}", "\u{200b}x"];
    for c in cases {
        let got: String = trim_chars(c).into_iter().collect();
        assert_eq!(got, c.trim(), "case {:?}", c);
    }
    assert!(trimmed_equals(" doro结局帮助\n", "doro结局帮助"));
    assert!(!trimmed_equals("doro 结局帮助", "doro结局帮助"));
}

#[test]
fn string_helpers() {
    assert!(str_eq("abc", "abc"));
    assert!(!str_eq("abc", "abd"));
    assert_eq!(concat3("a", "中", "c"), "a中c");
}
