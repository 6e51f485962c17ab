use gchat_takeout::text::{
    char_is_whitespace, chars_of, ends_with_chars, find_chars, replace_chars, starts_with_chars, string_of,
    strip_all_prefix_chars, text_greater, trim_chars,
};

fn v(s: &str) -> Vec<char> {
    s.chars().collect()
}

#[test]
fn chars_and_string_round_trip() {
    let s = "héllo, wörld";
    assert_eq!(string_of(&chars_of(s)), s);
}

#[test]
fn replace_is_left_to_right_without_overlap() {
    assert_eq!(replace_chars(&v("aaaa"), &v("aa"), &v("b")), v("bb"));
    assert_eq!(replace_chars(&v("x at y at z"), &v(" at "), &v(" ")), v("x y z"));
    assert_eq!(replace_chars(&v("abc"), &v("zz"), &v("q")), v("abc"));
    assert_eq!(
        string_of(&replace_chars(&v("a"), &v("a"), &v("xyz"))),
        "a".replace("a", "xyz")
    );
}

#[test]
fn find_reports_leftmost_position() {
    assert_eq!(find_chars(&v("a, b, c"), &v(", ")), Some(1));
    assert_eq!(find_chars(&v("abc"), &v(", ")), None);
    assert_eq!(find_chars(&v("ab"), &v("")), Some(0));
}

#[test]
fn prefix_and_suffix_tests() {
    assert!(starts_with_chars(&v("DM x"), &v("DM ")));
    assert!(!starts_with_chars(&v("DM"), &v("DM ")));
    assert!(ends_with_chars(&v("1 PM UTC"), &v(" UTC")));
    assert!(!ends_with_chars(&v("UTC"), &v(" UTC")));
}

#[test]
fn strip_removes_every_leading_repetition() {
    assert_eq!(strip_all_prefix_chars(&v("DM DM abc"), &v("DM ")), v("abc"));
    assert_eq!(strip_all_prefix_chars(&v("abc"), &v("DM ")), v("abc"));
    assert_eq!(
        string_of(&strip_all_prefix_chars(&v("DM DM abc"), &v("DM "))),
        "DM DM abc".trim_start_matches("DM ")
    );
}

#[test]
fn trim_matches_standard_library() {
    for s in ["  a b  ", "\u{3000}x\u{202F}", "", "   ", "\t\nq\u{85}", "\u{200B}z"] {
        assert_eq!(string_of(&trim_chars(&v(s))), s.trim());
    }
}

#[test]
fn text_order_matches_string_order() {
    let samples = ["", "a", "ab", "b", "é", "z", "2021-01-05", "2021-01-06", "\u{1F600}"];
    for a in samples {
        for b in samples {
            assert_eq!(text_greater(&v(a), &v(b)), a > b, "{a:?} vs {b:?}");
        }
    }
}

#[test]
fn white_space_matches_standard_library() {
    for n in (0u32..0x3100).chain([0xFEFF, 0x1F600, 0x10FFFF]) {
        if let Some(c) = char::from_u32(n) {
            assert_eq!(char_is_whitespace(c), c.is_whitespace(), "{n:#x}");
        }
    }
}
