use codemao_core::json::Json;
use codemao_core::text::{
    contains_str, eq_ignore_ascii_case, fmt_i64, parse_i32, parse_i64, parse_u64, replace_all,
    starts_with, trim, truncate_chars, truncate_middle,
};
use codemao_core::types::{
    actions, bytes_to_human, html_to_text, status_mapping, timestamp_to_string, value_to_i64,
    value_to_string, ActionConfig,
};

fn num(n: i64) -> Json {
    Json::from_i64(n)
}

fn s(t: &str) -> Json {
    Json::Str(t.to_string())
}

#[test]
fn parse_integers_accepts_signs_and_rejects_junk() {
    assert_eq!(parse_i64("-42"), Some(-42));
    assert_eq!(parse_i64("+7"), Some(7));
    assert_eq!(parse_i64("9223372036854775807"), Some(i64::MAX));
    assert_eq!(parse_i64("9223372036854775808"), None);
    assert_eq!(parse_i64("-9223372036854775808"), Some(i64::MIN));
    assert_eq!(parse_i64(""), None);
    assert_eq!(parse_i64("12a"), None);
    assert_eq!(parse_u64("18446744073709551615"), Some(u64::MAX));
    assert_eq!(parse_u64("-1"), None);
    assert_eq!(parse_i32("2147483648"), None);
    assert_eq!(parse_i32("-2147483648"), Some(i32::MIN));
}

#[test]
fn decimal_text_round_trips() {
    for n in [0i64, 5, -5, 1234567890, i64::MIN, i64::MAX] {
        let t = fmt_i64(n);
        assert_eq!(t, n.to_string());
        assert_eq!(parse_i64(&t), Some(n));
    }
}

#[test]
fn truncation_counts_characters() {
    assert_eq!(truncate_chars("abcdef", 3), "abc...");
    assert_eq!(truncate_chars("abc", 3), "abc");
    assert_eq!(truncate_chars("中文字符串", 2), "中文...");
    assert_eq!(truncate_middle("abcdefghijklmnop", 9), "abc...nop");
    assert_eq!(truncate_middle("short", 9), "short");
}

#[test]
fn string_helpers_match_std() {
    assert_eq!(replace_all("a-b-c", "-", "+"), "a-b-c".replace('-', "+"));
    assert_eq!(replace_all("aaa", "aa", "b"), "aaa".replace("aa", "b"));
    assert!(contains_str("hello world", "o w"));
    assert!(!contains_str("hello", "world"));
    assert!(starts_with("prefix-rest", "prefix"));
    assert!(!starts_with("pre", "prefix"));
    assert_eq!(trim("  \t x y \n"), "x y");
    assert!(eq_ignore_ascii_case("HeLLo", "hello"));
    assert!(!eq_ignore_ascii_case("hello", "hellp"));
    // Case changes follow Unicode, as the standard library does them.
    assert_eq!(
        codemao_core::terminal::choose_answer(" straße ", &vec!["STRASSE"]),
        Some("STRASSE".to_string())
    );
    let item = Json::Object(vec![
        ("id".to_string(), Json::from_i64(1)),
        ("user_id".to_string(), Json::from_i64(2)),
        ("content".to_string(), Json::Str("ÀBC".to_string())),
    ]);
    assert_eq!(
        codemao_core::pipeline::process_single_comment(&item, "work", 3, 0, false, &vec![]),
        Some(codemao_core::pipeline::ViolationKind::Duplicate(
            "2".to_string(),
            "àbc".to_string(),
            "work:3:comment:0:1".to_string()
        ))
    );
}

#[test]
fn html_is_turned_into_text() {
    assert_eq!(
        html_to_text("<p>a&lt;b</p>c<br>d<br/>e<br />f&nbsp;&amp;&gt;"),
        "a<b\nc\nd\ne\nf &>"
    );
    assert_eq!(html_to_text("&amp;lt;"), "&lt;");
}

#[test]
fn sizes_print_like_float_formatting() {
    for b in [
        0u64,
        1,
        128,
        512,
        1023,
        1024,
        1536,
        10_000,
        1_048_575,
        1_048_576,
        5_242_880,
        123_456_789,
        9_007_199_254_740_993,
        u64::MAX,
    ] {
        let expected = if b >= 1024 * 1024 {
            format!("{:.2} MB", b as f64 / 1024.0 / 1024.0)
        } else {
            format!("{:.2} KB", b as f64 / 1024.0)
        };
        assert_eq!(bytes_to_human(b), expected, "size {}", b);
    }
    assert_eq!(bytes_to_human(1536), "1.50 KB");
    assert_eq!(bytes_to_human(1_048_576), "1.00 MB");
}

#[test]
fn fields_read_as_text_and_numbers() {
    assert_eq!(value_to_string(&s("abc")), "abc");
    assert_eq!(value_to_string(&num(-3)), "-3");
    assert_eq!(value_to_string(&Json::Null), "");
    assert_eq!(value_to_i64(&num(12)), Some(12));
    assert_eq!(value_to_i64(&s("34")), Some(34));
    assert_eq!(value_to_i64(&s("x")), None);
    assert_eq!(value_to_i64(&Json::Number("1.5".to_string())), None);
    assert_eq!(timestamp_to_string(&num(1700000000)), "1700000000");
    assert_eq!(timestamp_to_string(&num(0)), "0");
    assert_eq!(timestamp_to_string(&s("x")), "\"x\"");
}

#[test]
fn action_table_names_known_keys() {
    let d = ActionConfig::simple("D");
    assert_eq!(d.name, "删除");
    assert_eq!(d.status, "DELETE");
    assert!(d.enabled);
    let x = ActionConfig::simple("X");
    assert_eq!(x.name, "X");
    assert_eq!(x.status, "X");
    let all = actions(&["S", "T", "J"]);
    let keys: Vec<&str> = all.iter().map(|a| a.key.as_str()).collect();
    assert_eq!(keys, vec!["S", "T", "J"]);
    assert_eq!(all[1].status, "MUTE_THREE_MONTHS");
    let m = status_mapping();
    assert_eq!(m.len(), 5);
    assert!(m.contains(&("U", "UNLOAD")));
}
