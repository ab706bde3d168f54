use oxidized::text::{
    to_upper, to_lower, str_contains, trim_chars, str_chars, parse_line_list,
    remove_occurrences, u64_to_dec, i64_to_dec, chars_string,
};
use oxidized::hexstr::{hex_decode, hex_encode_upper};
use oxidized::search::{build_search_pattern, like_matches};

#[test]
fn upper_and_lower_fold_ascii_only() {
    assert_eq!(to_upper("abc XYZ 123 %"), "ABC XYZ 123 %");
    assert_eq!(to_lower("Abc XYZ 123 %"), "abc xyz 123 %");
    assert_eq!(to_upper(""), "");
}

#[test]
fn upper_lower_normalization_round_trips() {
    let h = "51a3B1d96b198C8bb6acde8ec357ae7359db2afc";
    assert_eq!(to_upper(&to_upper(h)), to_upper(h));
    assert_eq!(to_upper(&to_lower(h)), to_upper(h));
}

#[test]
fn substring_search_finds_and_rejects() {
    assert!(str_contains("the quick brown fox", "quick"));
    assert!(str_contains("abc", ""));
    assert!(!str_contains("abc", "abcd"));
    assert!(!str_contains("hello", "He"));
}

#[test]
fn trimming_strips_ascii_whitespace() {
    let cs = str_chars("  udp://tracker.example:80/announce \r");
    let trimmed = trim_chars(&cs);
    assert_eq!(chars_string(&trimmed), "udp://tracker.example:80/announce");
    let blank = trim_chars(&str_chars(" \t "));
    assert_eq!(chars_string(&blank), "");
}

#[test]
fn line_lists_drop_blanks_and_trim() {
    let body = "udp://a/announce\n\n  http://b/announce \n\nws://c\n";
    let lines = parse_line_list(body);
    assert_eq!(lines, vec!["udp://a/announce", "http://b/announce", "ws://c"]);
}

#[test]
fn removing_occurrences_strips_all() {
    assert_eq!(
        remove_occurrences("udp://tracker.example:80/announce", "udp://"),
        "tracker.example:80/announce"
    );
    assert_eq!(remove_occurrences("a/announce/announceb", "/announce"), "ab");
    assert_eq!(remove_occurrences("plain", "udp://"), "plain");
}

#[test]
fn decimal_rendering_matches() {
    assert_eq!(u64_to_dec(0), "0");
    assert_eq!(u64_to_dec(105), "105");
    assert_eq!(i64_to_dec(-42), "-42");
    assert_eq!(i64_to_dec(9_223_372_036_854_775_807), "9223372036854775807");
    assert_eq!(i64_to_dec(-9_223_372_036_854_775_808), "-9223372036854775808");
}

#[test]
fn hex_decode_and_encode_round_trip() {
    let bytes = hex_decode("51A3B1D96B198C8BB6ACDE8EC357AE7359DB2AFC").unwrap();
    assert_eq!(bytes.len(), 20);
    assert_eq!(bytes[0], 0x51);
    assert_eq!(bytes[19], 0xFC);
    assert_eq!(
        hex_encode_upper(&bytes),
        "51A3B1D96B198C8BB6ACDE8EC357AE7359DB2AFC"
    );
    let lower = hex_decode("deadbeef").unwrap();
    assert_eq!(hex_encode_upper(&lower), "DEADBEEF");
}

#[test]
fn hex_decode_rejects_bad_input() {
    assert!(hex_decode("abc").is_none());
    assert!(hex_decode("zz").is_none());
    assert!(hex_decode("").is_some());
}

#[test]
fn search_pattern_compiles_query() {
    assert_eq!(
        build_search_pattern("100% free linux iso"),
        "%100\\%%free%linux%iso%"
    );
    assert_eq!(build_search_pattern(""), "%%");
    assert_eq!(build_search_pattern("  Mixed Case  "), "%mixed%case%");
}

#[test]
fn like_matching_handles_wildcards_and_escapes() {
    assert!(like_matches("%free%", "100% free linux iso"));
    assert!(like_matches("%100\\%%", "100% free linux iso"));
    assert!(!like_matches("%100\\%%", "100 free linux iso"));
    assert!(like_matches("a_c", "abc"));
    assert!(!like_matches("a_c", "ac"));
    assert!(like_matches("%%", ""));
    let q = build_search_pattern("100% free linux iso");
    assert!(like_matches(&q, "my 100% free linux iso collection"));
    assert!(!like_matches(&q, "my 100 free linux iso collection"));
}
