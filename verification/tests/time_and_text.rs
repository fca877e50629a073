use chrono::{DateTime, Utc};
use todognome::text::{
    decimal, event_file_name, extract_links, fixed_width_decimal, fixed_width_hex, is_json_file_name, is_white_char, same_text,
    starts_with, trim,
};
use todognome::time::{same_utc_day, Timestamp, MAX_TIMESTAMP_SECS, MIN_TIMESTAMP_SECS};

fn ts(secs: i64) -> Timestamp {
    Timestamp::from_parts(secs, 0).unwrap()
}

#[test]
fn timestamp_accepts_chrono_range_only() {
    assert!(Timestamp::from_parts(0, 0).is_some());
    assert!(Timestamp::from_parts(MIN_TIMESTAMP_SECS, 0).is_some());
    assert!(Timestamp::from_parts(MAX_TIMESTAMP_SECS, 999_999_999).is_some());
    assert!(Timestamp::from_parts(MIN_TIMESTAMP_SECS - 1, 0).is_none());
    assert!(Timestamp::from_parts(MAX_TIMESTAMP_SECS + 1, 0).is_none());
    assert!(Timestamp::from_parts(0, 2_000_000_000).is_none());
    // a leap second is only allowed in the last second of a minute
    assert!(Timestamp::from_parts(59, 1_500_000_000).is_some());
    assert!(Timestamp::from_parts(-1, 1_000_000_000).is_some());
    assert!(Timestamp::from_parts(58, 1_000_000_000).is_none());
}

#[test]
fn timestamp_range_matches_chrono() {
    assert!(DateTime::<Utc>::from_timestamp(MIN_TIMESTAMP_SECS, 0).is_some());
    assert!(DateTime::<Utc>::from_timestamp(MIN_TIMESTAMP_SECS - 1, 0).is_none());
    assert!(DateTime::<Utc>::from_timestamp(MAX_TIMESTAMP_SECS, 0).is_some());
    assert!(DateTime::<Utc>::from_timestamp(MAX_TIMESTAMP_SECS + 1, 0).is_none());
    assert_eq!(DateTime::<Utc>::MIN_UTC.timestamp(), MIN_TIMESTAMP_SECS);
    assert_eq!(DateTime::<Utc>::MAX_UTC.timestamp(), MAX_TIMESTAMP_SECS);
}

#[test]
fn timestamp_order() {
    let a = Timestamp::from_parts(10, 5).unwrap();
    let b = Timestamp::from_parts(10, 6).unwrap();
    let c = Timestamp::from_parts(11, 0).unwrap();
    assert!(a.is_not_after(&b));
    assert!(!b.is_not_after(&a));
    assert!(b.is_not_after(&c));
    assert!(a.is_not_after(&a));
}

#[test]
fn same_utc_day_at_day_boundaries() {
    assert!(same_utc_day(ts(0), ts(86_399)));
    assert!(!same_utc_day(ts(86_399), ts(86_400)));
    assert!(same_utc_day(ts(-1), ts(-86_400)));
    assert!(!same_utc_day(ts(-1), ts(0)));
    assert!(same_utc_day(ts(MIN_TIMESTAMP_SECS), ts(MIN_TIMESTAMP_SECS + 86_399)));
    assert!(same_utc_day(ts(MAX_TIMESTAMP_SECS), ts(MAX_TIMESTAMP_SECS - 86_399)));
    let leap = Timestamp::from_parts(86_399, 1_200_000_000).unwrap();
    assert!(same_utc_day(leap, ts(0)));
}

#[test]
fn decimal_text() {
    assert_eq!(decimal(0), "0");
    assert_eq!(decimal(7), "7");
    assert_eq!(decimal(10), "10");
    assert_eq!(decimal(-1), "-1");
    assert_eq!(decimal(1_700_000_000), "1700000000");
    assert_eq!(decimal(i64::MAX), i64::MAX.to_string());
    assert_eq!(decimal(i64::MIN), i64::MIN.to_string());
}

#[test]
fn event_file_names() {
    assert_eq!(
        event_file_name(1_700_000_000, 123, 0xabc),
        "events_1700000000_0000000123_00000000000000000000000000000abc.json"
    );
    assert_eq!(event_file_name(0, 0, 0), "events_0_0000000000_00000000000000000000000000000000.json");
    assert_eq!(
        event_file_name(-5, 4_294_967_295, u128::MAX),
        "events_-5_4294967295_ffffffffffffffffffffffffffffffff.json"
    );
    assert_ne!(event_file_name(1, 0, 1), event_file_name(1, 0, 2));
    assert_ne!(event_file_name(1, 0, 1), event_file_name(1, 1, 1));
    assert_ne!(event_file_name(11, 0, 1), event_file_name(1, 10, 1));
}

#[test]
fn fixed_width_numbers() {
    assert_eq!(fixed_width_decimal(42, 5), "00042");
    assert_eq!(fixed_width_decimal(123456, 3), "456");
    assert_eq!(fixed_width_decimal(7, 0), "");
    assert_eq!(fixed_width_hex(0xbeef, 6), "00beef");
    assert_eq!(fixed_width_hex(u128::MAX, 32), format!("{:032x}", u128::MAX));
}

#[test]
fn json_extension_like_std_path() {
    for name in [
        "a.json", "events_1.json", ".json", "json", "a.JSON", "a.json.bak", "a..json", "x.jsonx",
        ".a.json", "ü.json", "",
    ] {
        let std_says = std::path::Path::new(name).extension().map(|e| e == "json").unwrap_or(false);
        assert_eq!(is_json_file_name(name), std_says, "{name}");
    }
    assert!(is_json_file_name("events_1700000000.json"));
    assert!(!is_json_file_name(".json"));
}

#[test]
fn whitespace_is_unicode_white_space() {
    for u in 0u32..0x11_0000 {
        if let Some(c) = char::from_u32(u) {
            assert_eq!(is_white_char(c), c.is_whitespace(), "U+{u:04X}");
        }
    }
}

#[test]
fn trim_like_std() {
    for s in ["", "  ", "a", " a ", "\t\na b\r\n", "\u{3000}x\u{85}", "x\u{200B}", " \u{A0}y"] {
        assert_eq!(trim(s), s.trim(), "{s:?}");
    }
}

#[test]
fn prefixes_and_equality() {
    assert!(starts_with("https://x", "https://"));
    assert!(!starts_with("http:/", "http://"));
    assert!(starts_with("abc", ""));
    assert!(same_text("Low", "Low"));
    assert!(!same_text("Low", "Lo"));
    assert!(!same_text("Low", "low"));
}

fn links_as_std_lines(text: &str) -> Vec<String> {
    text.lines()
        .filter(|line| line.starts_with("http://") || line.starts_with("https://"))
        .map(|s| s.trim().to_string())
        .collect()
}

#[test]
fn links_from_dropped_text() {
    let text = "http://a.example\nhttps://b.example \r\nftp://c\n  http://d\nhttp://e\r";
    assert_eq!(extract_links(text), vec!["http://a.example", "https://b.example", "http://e"]);
    assert_eq!(extract_links(""), Vec::<String>::new());
    assert_eq!(extract_links("\n\n"), Vec::<String>::new());
    assert_eq!(extract_links("https://only"), vec!["https://only"]);
}

#[test]
fn links_match_std_lines() {
    for text in [
        "",
        "\n",
        "http://x\n",
        "http://x\r\nhttps://y\r\n",
        "https://y\r",
        "http:/\r\nhttp://\r",
        "x\nhttp://a b c \t\n\nhttps://ü\u{3000}",
        "\r\n\r\nhttp://z",
        "HTTP://caps\nhttp://lower",
    ] {
        assert_eq!(extract_links(text), links_as_std_lines(text), "{text:?}");
    }
}

#[test]
fn links_are_trimmed_links() {
    let text = "https://a \t\n http://b\nhttp://c\u{2003}\nmailto:x";
    for link in extract_links(text) {
        assert!(link.starts_with("http://") || link.starts_with("https://"));
        assert_eq!(link.trim(), link);
    }
}
