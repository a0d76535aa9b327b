use qqmusic::text::{
    decimal_signed_text, decimal_text, join_texts, parse_u64, replace_text, safe_preview,
    split_text, strip_end_text, strip_start_text, trim_text,
};

#[test]
fn preview_never_cuts_a_character() {
    assert_eq!(safe_preview("hello", 10), "hello");
    assert_eq!(safe_preview("hello", 3), "hel");
    assert_eq!(safe_preview("中文", 4), "中");
    assert_eq!(safe_preview("中文", 2), "");
    assert_eq!(safe_preview("a中", 3), "a");
    assert_eq!(safe_preview("中文", 6), "中文");
}

#[test]
fn texts_are_split_and_joined() {
    assert_eq!(split_text("a;b;;c", ';'), vec!["a", "b", "", "c"]);
    assert_eq!(split_text("", ';'), vec![""]);
    assert_eq!(
        join_texts(&vec!["a".to_string(), "b".to_string()], "; "),
        "a; b"
    );
    assert_eq!(join_texts(&Vec::new(), "; "), "");
}

#[test]
fn texts_are_trimmed() {
    assert_eq!(trim_text(" \t a b \u{3000}\n"), "a b");
    assert_eq!(trim_text("   "), "");
    assert_eq!(strip_start_text("oo12o", 'o'), "12o");
    assert_eq!(strip_end_text("http://a//", '/'), "http://a");
}

#[test]
fn replacing_goes_from_the_left() {
    assert_eq!(replace_text("aaa", "aa", "b"), "ba");
    assert_eq!(replace_text("x<em>y</em>", "<em>", ""), "xy</em>");
    assert_eq!(replace_text("abc", "z", "y"), "abc");
}

#[test]
fn numbers_are_written_and_read() {
    assert_eq!(decimal_text(0), "0");
    assert_eq!(decimal_text(1234567890123456789012), "1234567890123456789012");
    assert_eq!(decimal_signed_text(-9223372036854775808), "-9223372036854775808");
    assert_eq!(decimal_signed_text(500005), "500005");
    assert_eq!(parse_u64("18446744073709551615"), Some(u64::MAX));
    assert_eq!(parse_u64("18446744073709551616"), None);
    assert_eq!(parse_u64("+7"), Some(7));
    assert_eq!(parse_u64(""), None);
    assert_eq!(parse_u64("+"), None);
    assert_eq!(parse_u64("-7"), None);
    assert_eq!(parse_u64("12a"), None);
    assert_eq!(parse_u64("007"), Some(7));
}
