use diary_app_lib::text::{
    join, parse_i32, parse_u32, push_decimal, push_padded_decimal, push_signed_decimal, str_chars,
    string_from_chars, string_from_range, trim, trim_bounds,
};

#[test]
fn trim_removes_surrounding_whitespace() {
    assert_eq!(trim("  hello world \n"), "hello world");
    assert_eq!(trim("\u{3000}abc\u{a0}"), "abc");
    assert_eq!(trim(" \t\n "), "");
    assert_eq!(trim(""), "");
    assert_eq!(trim("a b"), "a b");
}

#[test]
fn trim_is_idempotent() {
    for s in ["  x  ", "\tx y\n", "", "   ", "\u{2003}z\u{2003}"] {
        let once = trim(s);
        assert_eq!(trim(&once), once);
    }
}

#[test]
fn trim_bounds_locate_the_trimmed_text() {
    let v = str_chars("  ab c ");
    assert_eq!(trim_bounds(&v), (2, 6));
    let v = str_chars("   ");
    let (i, j) = trim_bounds(&v);
    assert_eq!(i, j);
}

#[test]
fn join_separates_neighbours() {
    let parts = vec!["a".to_string(), "b".to_string(), "c".to_string()];
    assert_eq!(join(&parts, ", "), "a, b, c");
    assert_eq!(join(&parts, ""), "abc");
    assert_eq!(join(&Vec::new(), "\n"), "");
    assert_eq!(join(&vec!["only".to_string()], "\n"), "only");
}

#[test]
fn decimal_rendering() {
    let mut s = String::new();
    push_decimal(&mut s, 0);
    assert_eq!(s, "0");
    let mut s = String::from("n=");
    push_decimal(&mut s, 1234);
    assert_eq!(s, "n=1234");
    let mut s = String::new();
    push_padded_decimal(&mut s, 7, 3);
    assert_eq!(s, "007");
    let mut s = String::new();
    push_padded_decimal(&mut s, 12345, 2);
    assert_eq!(s, "12345");
    let mut s = String::new();
    push_signed_decimal(&mut s, -42);
    assert_eq!(s, "-42");
    let mut s = String::new();
    push_signed_decimal(&mut s, i64::MIN);
    assert_eq!(s, "-9223372036854775808");
    let mut s = String::new();
    push_decimal(&mut s, u64::MAX);
    assert_eq!(s, "18446744073709551615");
}

#[test]
fn integer_parsing_follows_str_parse() {
    assert_eq!(parse_i32("2011"), Some(2011));
    assert_eq!(parse_i32("-5"), Some(-5));
    assert_eq!(parse_i32("+7"), Some(7));
    assert_eq!(parse_i32("2147483647"), Some(i32::MAX));
    assert_eq!(parse_i32("-2147483648"), Some(i32::MIN));
    assert_eq!(parse_i32("2147483648"), None);
    assert_eq!(parse_i32(""), None);
    assert_eq!(parse_i32("-"), None);
    assert_eq!(parse_i32("12a"), None);
    assert_eq!(parse_u32("06"), Some(6));
    assert_eq!(parse_u32("-6"), None);
    assert_eq!(parse_u32("4294967295"), Some(u32::MAX));
    assert_eq!(parse_u32("4294967296"), None);
    for s in ["0", "17", "-3", "+4", "x", "99999999999"] {
        assert_eq!(parse_i32(s), s.parse::<i32>().ok());
        assert_eq!(parse_u32(s), s.parse::<u32>().ok());
    }
}

#[test]
fn string_pieces() {
    let v = str_chars("héllo");
    assert_eq!(v.len(), 5);
    assert_eq!(string_from_range(&v, 1, 3), "él");
    assert_eq!(string_from_chars(&v), "héllo");
}

#[test]
fn decimals_read_back() {
    for n in [0u64, 7, 10, 99, 4_294_967_295] {
        let mut s = String::new();
        push_decimal(&mut s, n);
        assert_eq!(parse_u32(&s), Some(n as u32));
    }
    for i in [0i64, -1, 42, -2_147_483_648, 2_147_483_647] {
        let mut s = String::new();
        push_signed_decimal(&mut s, i);
        assert_eq!(parse_i32(&s), Some(i as i32));
    }
}
