use block_duplicator::text::{decimal_string, parse_unsigned, to_wide};

#[test]
fn parses_unsigned_like_str_parse() {
    assert_eq!(parse_unsigned("0", u64::MAX), Some(0));
    assert_eq!(parse_unsigned("007", u64::MAX), Some(7));
    assert_eq!(parse_unsigned("+42", u64::MAX), Some(42));
    assert_eq!(parse_unsigned("18446744073709551615", u64::MAX), Some(u64::MAX));
    assert_eq!(parse_unsigned("18446744073709551616", u64::MAX), None);
    assert_eq!(parse_unsigned("65535", u16::MAX as u64), Some(65535));
    assert_eq!(parse_unsigned("65536", u16::MAX as u64), None);
    for bad in ["", "+", "-", "-0", "++1", " 1", "1 ", "1_000", "0x10", "١"] {
        assert_eq!(parse_unsigned(bad, u64::MAX), None, "{bad:?}");
        assert!(bad.parse::<u64>().is_err(), "{bad:?}");
    }
    for good in ["0", "1", "+9", "000123", "4294967295"] {
        assert_eq!(parse_unsigned(good, u64::MAX), good.parse::<u64>().ok());
    }
}

#[test]
fn decimal_string_matches_to_string() {
    for v in [0u64, 1, 9, 10, 99, 100, 123456789, u64::MAX] {
        assert_eq!(decimal_string(v), v.to_string());
        assert_eq!(parse_unsigned(&decimal_string(v), u64::MAX), Some(v));
    }
}

#[test]
fn to_wide_is_nul_terminated_utf16() {
    for s in ["", "runas", "C:\\Ünïcödé\\😀.exe"] {
        let expected: Vec<u16> = s.encode_utf16().chain(std::iter::once(0)).collect();
        assert_eq!(to_wide(s), expected);
    }
    assert_eq!(to_wide("a😀"), vec![0x61, 0xD83D, 0xDE00, 0]);
}
