use hibiscus_core::text::{
    chars_of, contains_chars, find_char, lower_chars, parse_i64_chars, parse_u16_chars,
    remove_spaces_chars, strip_leading_dots_chars, trim_chars, u64_to_chars,
};

#[test]
fn substring_search() {
    let h = chars_of("https://x/v1.m3u8?x=1");
    assert!(contains_chars(&h, &chars_of(".m3u8")));
    assert!(!contains_chars(&h, &chars_of(".mp4")));
    assert!(contains_chars(&h, &chars_of("")));
}

#[test]
fn trimming_and_case() {
    let s = chars_of("  Hello World\t\r\n");
    assert_eq!(trim_chars(&s), chars_of("Hello World"));
    assert_eq!(lower_chars(&chars_of("HttpOnly")), chars_of("httponly"));
    assert_eq!(trim_chars(&chars_of("   ")), chars_of(""));
}

#[test]
fn space_removal_and_dots() {
    assert_eq!(remove_spaces_chars(&chars_of("720 P x")), chars_of("720Px"));
    assert_eq!(strip_leading_dots_chars(&chars_of("..site.com")), chars_of("site.com"));
    assert_eq!(strip_leading_dots_chars(&chars_of("site.com")), chars_of("site.com"));
}

#[test]
fn number_parsing_matches_std() {
    assert_eq!(parse_u16_chars(&chars_of("120")), Some(120));
    assert_eq!(parse_u16_chars(&chars_of("+7")), Some(7));
    assert_eq!(parse_u16_chars(&chars_of("65536")), None);
    assert_eq!(parse_u16_chars(&chars_of("12a")), None);
    assert_eq!(parse_u16_chars(&chars_of("")), None);
    assert_eq!(parse_i64_chars(&chars_of("-100")), Some(-100));
    assert_eq!(parse_i64_chars(&chars_of("9223372036854775807")), Some(i64::MAX));
    assert_eq!(parse_i64_chars(&chars_of("-9223372036854775808")), Some(i64::MIN));
    assert_eq!(parse_i64_chars(&chars_of("9223372036854775808")), None);
    // the same strings parse the same through std
    assert_eq!("120".parse::<u16>().ok(), Some(120));
    assert_eq!("-100".parse::<i64>().ok(), Some(-100));
}

#[test]
fn decimal_rendering() {
    assert_eq!(u64_to_chars(0), chars_of("0"));
    assert_eq!(u64_to_chars(120), chars_of("120"));
    assert_eq!(u64_to_chars(u64::MAX), chars_of(&u64::MAX.to_string()));
}

#[test]
fn first_equals_sign() {
    assert_eq!(find_char(&chars_of("a=b=c"), '='), Some(1));
    assert_eq!(find_char(&chars_of("abc"), '='), None);
}
