use calrs::decimal::{i64_text, only_digits, parse_i64, parse_u64};
use calrs::json::Json;
use calrs::text::{
    chars_of, contains, find, find_char, is_whitespace, same, string_of, strip_prefix,
    strip_suffix, trim, trim_end_matches, trim_start_char,
};
use calrs::time::{epoch_seconds, is_before, is_representable_after, month_length, CivilDate, UtcDateTime};
use calrs::utils::{extract_vevent_field, parse_ical_datetime, split_vevents, unfold};

#[test]
fn white_space_is_unicode_white_space() {
    for n in 0..=0x10ffffu32 {
        if let Some(c) = char::from_u32(n) {
            assert_eq!(is_whitespace(c), c.is_whitespace(), "{:x}", n);
        }
    }
}

#[test]
fn trimming_and_stripping() {
    for s in ["", " ", "\u{3000}a b\t\n", "x", "\u{200b}y "] {
        assert_eq!(trim(s), s.trim());
    }
    assert_eq!(trim_end_matches("a.json.json", ".json"), "a");
    assert_eq!(trim_end_matches(".json", ".json"), "");
    assert_eq!(trim_start_char("//a/", '/'), "a/");
    assert_eq!(strip_prefix("bc-7", "bc-").as_deref(), Some("7"));
    assert_eq!(strip_prefix("b", "bc-"), None);
    assert_eq!(strip_suffix("7@x", "@x").as_deref(), Some("7"));
    assert_eq!(strip_suffix("x", "@x"), None);
}

#[test]
fn searching() {
    assert!(contains("aabaab", "baa"));
    assert!(!contains("aab", "abb"));
    assert!(contains("", ""));
    assert_eq!(find(&chars_of("ééab"), &chars_of("ab")), Some(2));
    assert_eq!(find(&chars_of("a"), &chars_of("ab")), None);
    assert_eq!(find_char(&chars_of("a]b]"), ']', 2), Some(3));
    assert_eq!(find_char(&chars_of("a"), 'a', 5), None);
    assert!(same("a", "a") && !same("a", "b"));
    assert_eq!(string_of(&chars_of("héllo"), 1, 3), "él");
}

#[test]
fn numerals_read_back() {
    for n in [0, 7, -7, 10, i64::MAX, i64::MIN] {
        assert_eq!(i64_text(n), n.to_string());
        assert_eq!(parse_i64(&i64_text(n)), Some(n));
    }
    for n in [0, 10, u64::MAX] {
        assert_eq!(parse_u64(&n.to_string()), Some(n));
    }
    for s in ["", "+", "-", "+5", "-0", "--1", "1 ", "9223372036854775808", "-9223372036854775809", "٣"] {
        assert_eq!(parse_i64(s), s.parse::<i64>().ok(), "{}", s);
        assert_eq!(parse_u64(s), s.parse::<u64>().ok(), "{}", s);
    }
    assert!(only_digits("0123456789") && only_digits(""));
    assert!(!only_digits("1٣"));
}

#[test]
fn timestamps_are_ordered_and_counted() {
    let t = |year, month, day, hour, minute, second, nanos| UtcDateTime {
        date: CivilDate { year, month, day },
        hour,
        minute,
        second,
        nanos,
    };
    let samples = [
        t(-262143, 1, 1, 0, 0, 0, 0),
        t(-400, 2, 29, 1, 2, 3, 4),
        t(0, 12, 31, 23, 59, 59, 999_999_999),
        t(1900, 3, 1, 0, 0, 0, 0),
        t(1970, 1, 1, 0, 0, 0, 0),
        t(2024, 2, 29, 12, 0, 0, 0),
        t(2024, 2, 29, 12, 0, 0, 1),
        t(2024, 11, 5, 6, 7, 8, 0),
        t(262142, 12, 31, 23, 59, 59, 1_999_999_999),
    ];
    for a in &samples {
        let c = chrono::NaiveDate::from_ymd_opt(a.date.year, a.date.month, a.date.day)
            .unwrap()
            .and_hms_nano_opt(a.hour, a.minute, a.second, a.nanos)
            .unwrap()
            .and_utc();
        assert_eq!(epoch_seconds(a), c.timestamp());
        for b in &samples {
            let d = chrono::NaiveDate::from_ymd_opt(b.date.year, b.date.month, b.date.day)
                .unwrap()
                .and_hms_nano_opt(b.hour, b.minute, b.second, b.nanos)
                .unwrap()
                .and_utc();
            assert_eq!(is_before(a, b), c < d);
        }
    }
    assert!(is_representable_after(&samples[0], 16_544_868_105_599));
    assert!(!is_representable_after(&samples[0], 16_544_868_105_600));
    assert_eq!(month_length(1900, 2), 28);
    assert_eq!(month_length(2000, 2), 29);
    assert_eq!(month_length(2001, 4), 30);
    assert_eq!(month_length(2001, 12), 31);
}

#[test]
fn content_lines_are_unfolded() {
    assert_eq!(unfold("A:1\r\n 2\r\n\t3\nB:4"), ["A:123", "B:4"]);
}

#[test]
fn events_are_split_and_read() {
    let events = split_vevents(
        "BEGIN:VCALENDAR\r\nDTSTART:0\r\nBEGIN:VEVENT\r\nDTSTART;TZID=\"a:b\":1\r\nDTSTART:2\r\n\
         END:VEVENT\r\nBEGIN:VEVENT\r\nSUMMARY:x:y\r\nEND:VEVENT\r\nEND:VCALENDAR\r\n",
    );
    assert_eq!(events.len(), 2);
    assert_eq!(extract_vevent_field(&events[0], "DTSTART").as_deref(), Some("1"));
    assert_eq!(extract_vevent_field(&events[0], "DTSTA"), None);
    assert_eq!(extract_vevent_field(&events[1], "SUMMARY").as_deref(), Some("x:y"));
    assert_eq!(extract_vevent_field(&events[1], "DTSTART"), None);
}

#[test]
fn ical_values_are_read_as_utc() {
    let t = parse_ical_datetime("20240229T235959Z").unwrap();
    assert_eq!((t.date.year, t.date.month, t.date.day), (2024, 2, 29));
    assert_eq!((t.hour, t.minute, t.second, t.nanos), (23, 59, 59, 0));
    assert_eq!(parse_ical_datetime("20240229T235959"), Some(t));
    assert_eq!(parse_ical_datetime(" 20240229 ").unwrap().hour, 0);
    for bad in ["", "2024022", "20230229", "20240229T2359", "20240229T240000Z", "20240229T000060Z", "20240229x000000"] {
        assert_eq!(parse_ical_datetime(bad), None, "{}", bad);
    }
}

#[test]
fn json_members_are_found_by_name() {
    let v = Json::Object(vec![
        ("a".to_string(), Json::Text("x".to_string())),
        ("b".to_string(), Json::Bool(true)),
    ]);
    assert_eq!(v.get_text("a"), Some("x"));
    assert_eq!(v.get_text("b"), None);
    assert!(v.get("c").is_none());
    assert!(Json::Null.get("a").is_none());
    assert_eq!(Json::Number("7".to_string()).as_text(), None);
}
