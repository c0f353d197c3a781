use moltis::clock::{now_ms, parse_stored, store, utc_now, Timestamp};
use moltis::integers::{clamp_to_zero, saturate, to_signed};
use moltis::json::{Json, Member};
use moltis::ordering::{order_of, OrderKey, TextOrder};
use moltis::text::{
    chars_of, cut_bytes, is_alphanumeric, is_blank, is_white_space, join, same_text, starts_with,
    text_of, to_decimal, trim, truncate_chars,
};

#[test]
fn white_space_follows_unicode() {
    for c in [' ', '\t', '\n', '\u{b}', '\u{c}', '\r', '\u{85}', '\u{a0}', '\u{2003}', '\u{3000}'] {
        assert!(is_white_space(c));
    }
    for c in ['a', '\u{1f}', '\u{8}', '\u{e}', 'é', '\u{200b}'] {
        assert!(!is_white_space(c));
    }
}

#[test]
fn classes_agree_with_std_and_are_disjoint() {
    let listed = |c: char| {
        matches!(
            c,
            '\u{9}'..='\u{d}'
                | ' '
                | '\u{85}'
                | '\u{a0}'
                | '\u{1680}'
                | '\u{2000}'..='\u{200a}'
                | '\u{2028}'
                | '\u{2029}'
                | '\u{202f}'
                | '\u{205f}'
                | '\u{3000}'
        )
    };
    for c in '\0'..=char::MAX {
        assert_eq!(is_white_space(c), listed(c));
        assert_eq!(is_alphanumeric(c), c.is_alphanumeric());
        assert!(!(is_white_space(c) && is_alphanumeric(c)));
    }
}

#[test]
fn alphanumerics_follow_unicode() {
    for c in ['0', '9', 'A', 'Z', 'a', 'z', 'é', 'ß', '日', '٣', '½'] {
        assert!(is_alphanumeric(c));
    }
    for c in ['-', '_', '@', '[', '`', '{', '/', ':', '→', '…', '😀'] {
        assert!(!is_alphanumeric(c));
    }
}

#[test]
fn texts_and_characters_convert() {
    assert_eq!(chars_of("a日"), vec!['a', '日']);
    assert_eq!(text_of(&vec!['a', '日', 'b']), "a日b");
    assert_eq!(text_of(&vec![]), "");
    assert!(same_text("open", "open"));
    assert!(!same_text("open", "opened"));
    assert!(starts_with("cron:job", "cron:"));
    assert!(starts_with("cron", ""));
    assert!(!starts_with("cro", "cron"));
    assert!(!starts_with("crop", "cron"));
}

#[test]
fn blank_texts() {
    assert!(is_blank(""));
    assert!(is_blank(" \t\u{a0}"));
    assert!(!is_blank(" x "));
}

#[test]
fn trimming_takes_both_ends() {
    assert_eq!(trim(&chars_of(" \ta b\u{3000}\n")), chars_of("a b"));
    assert_eq!(trim(&chars_of(" \t ")), Vec::<char>::new());
    assert_eq!(trim(&chars_of("x")), vec!['x']);
}

#[test]
fn joining_separates_neighbours() {
    let parts = |list: &[&str]| list.iter().map(|part| part.to_string()).collect::<Vec<String>>();
    assert_eq!(join(&parts(&[]), ", "), "");
    assert_eq!(join(&parts(&["a"]), ", "), "a");
    assert_eq!(join(&parts(&["a", "", "b"]), ", "), "a, , b");
}

#[test]
fn decimals_have_no_leading_zeros() {
    assert_eq!(to_decimal(0), "0");
    assert_eq!(to_decimal(7), "7");
    assert_eq!(to_decimal(1090), "1090");
}

#[test]
fn truncation_marks_the_cut() {
    assert_eq!(truncate_chars("abc", 3), "abc");
    assert_eq!(truncate_chars("日本語!", 3), "日本語…");
    assert_eq!(truncate_chars("abc", 0), "…");
    assert_eq!(truncate_chars("", 0), "");
}

#[test]
fn cuts_fall_between_characters() {
    assert_eq!(cut_bytes("aéb", 4), "aéb");
    assert_eq!(cut_bytes("aéb", 3), "aé");
    assert_eq!(cut_bytes("aéb", 2), "a");
    assert_eq!(cut_bytes("日x", 2), "");
    assert_eq!(cut_bytes("😀x", 4), "😀");
    assert_eq!(cut_bytes("", 0), "");
}

#[test]
fn integers_convert_at_their_limits() {
    assert_eq!(to_signed(0), 0);
    assert_eq!(to_signed(i64::MAX as u64), i64::MAX);
    assert_eq!(to_signed(i64::MAX as u64 + 1), i64::MIN);
    assert_eq!(to_signed(u64::MAX), -1);
    assert_eq!(clamp_to_zero(-5), 0);
    assert_eq!(clamp_to_zero(i64::MAX), i64::MAX as u64);
    assert_eq!(saturate(i64::MAX as i128 + 1), i64::MAX);
    assert_eq!(saturate(i64::MIN as i128 - 1), i64::MIN);
    assert_eq!(saturate(-3), -3);
}

#[test]
fn json_values_are_read() {
    let member = |key: &str, value: Json| Member { key: key.to_string(), value };
    let value = Json::Object(vec![
        member("a", Json::Text("first".to_string())),
        member("a", Json::Text("second".to_string())),
        member("n", Json::Unsigned(7)),
        member("l", Json::Array(vec![Json::Null, Json::Bool(true)])),
        member("f", Json::OtherNumber),
    ]);
    assert_eq!(value.get_str("a"), Some("first"));
    assert_eq!(value.get_str("n"), None);
    assert_eq!(value.get("n").unwrap().as_u64(), Some(7));
    assert_eq!(value.get("f").unwrap().as_u64(), None);
    assert_eq!(value.get("l").unwrap().as_array().unwrap().len(), 2);
    assert!(value.get("missing").is_none());
    assert!(Json::Null.get("a").is_none());
    assert!(Json::Bool(true).as_str().is_none());
    assert!(Json::Text("x".to_string()).as_array().is_none());
}

#[test]
fn stored_times_are_parsed_to_utc() {
    assert_eq!(
        parse_stored("2024-02-29T12:34:56.789+02:00"),
        Some(Timestamp { secs: 1_709_202_896, nanos: 789_000_000 })
    );
    assert_eq!(parse_stored("1970-01-01T00:00:00Z"), Some(Timestamp { secs: 0, nanos: 0 }));
    assert_eq!(
        parse_stored("1969-12-31T23:59:59.5Z"),
        Some(Timestamp { secs: -1, nanos: 500_000_000 })
    );
    assert_eq!(parse_stored("1970-01-01 00:00"), None);
    assert_eq!(parse_stored("yesterday"), None);
    assert_eq!(parse_stored(""), None);
}

#[test]
fn times_are_stored_as_text() {
    assert_eq!(store(Timestamp { secs: 0, nanos: 0 }), "1970-01-01T00:00:00+00:00");
    assert_eq!(
        store(Timestamp { secs: 1_709_202_896, nanos: 789_000_000 }),
        "2024-02-29T10:34:56.789+00:00"
    );
    assert_eq!(
        store(Timestamp { secs: 0, nanos: 1 }),
        "1970-01-01T00:00:00.000000001+00:00"
    );
}

#[test]
fn stored_times_read_back() {
    for instant in [
        Timestamp { secs: 0, nanos: 0 },
        Timestamp { secs: -1, nanos: 999_999_999 },
        Timestamp { secs: 253_402_300_799, nanos: 0 },
        Timestamp { secs: -62_167_219_200, nanos: 1_000 },
        // A leap second.
        Timestamp { secs: 59, nanos: 1_500_000_000 },
        utc_now(),
    ] {
        assert_eq!(parse_stored(&store(instant)), Some(instant));
    }
}

#[test]
fn stored_times_stand_in_order() {
    let at = |secs: i64, nanos: u32| Timestamp { secs, nanos };
    let instants = [
        at(-62_167_219_200, 0),
        at(-1, 999_999_999),
        at(0, 0),
        at(0, 1),
        at(0, 999),
        at(0, 1_000),
        at(0, 1_001),
        at(0, 499_999_999),
        at(0, 500_000_000),
        at(0, 500_000_001),
        at(0, 500_001_000),
        at(0, 501_000_000),
        at(1, 0),
        at(59, 0),
        at(59, 999_999_999),
        // A leap second.
        at(59, 1_000_000_000),
        at(59, 1_000_000_001),
        at(59, 1_500_000_000),
        at(60, 0),
        at(1_709_202_896, 789_000_000),
        at(253_402_300_799, 999_999_999),
    ];
    for (i, left) in instants.iter().enumerate() {
        for (j, right) in instants.iter().enumerate() {
            assert_eq!(store(*left) < store(*right), i < j);
        }
    }
}

#[test]
fn times_outside_the_four_digit_years_do_not_read_back() {
    let late = Timestamp { secs: 253_402_300_800, nanos: 0 };
    assert_eq!(store(late), "+10000-01-01T00:00:00+00:00");
    assert_eq!(parse_stored(&store(late)), None);
    for edge in [-8_334_601_228_800i64, 8_210_266_876_799] {
        assert!(!store(Timestamp { secs: edge, nanos: 0 }).is_empty());
    }
}

#[test]
fn clock_shows_the_present() {
    let before = now_ms();
    let now = utc_now();
    assert!(before > 1_600_000_000_000);
    assert!(now.nanos < 1_000_000_000);
    let millis = now.secs as u64 * 1000 + now.nanos as u64 / 1_000_000;
    assert!(millis + 60_000 > before);
}

#[test]
fn ordering_is_stable() {
    let key = |number: i64, text: &str| OrderKey { number, text: chars_of(text) };
    let keys = vec![key(2, "a"), key(1, "b"), key(1, "a"), key(1, "b"), key(1, "ba"), key(-1, "")];
    assert_eq!(order_of(&keys, TextOrder::Ascending), vec![5usize, 2, 1, 3, 4, 0]);
    assert_eq!(order_of(&keys, TextOrder::Descending), vec![5usize, 4, 1, 3, 2, 0]);
    assert!(order_of(&vec![], TextOrder::Ascending).is_empty());
}
