use forgehx::order::{stable_sort_by_keys, text_less};
use forgehx::text::{fmt_hex, parse_num, split_lines, split_ws, trim_ws};

fn chars(s: &str) -> Vec<char> {
    s.chars().collect()
}

#[test]
fn lines_drop_carriage_returns_and_final_break() {
    let ls = split_lines(&chars("a\r\nb\n\nc\n"));
    let texts: Vec<String> = ls.iter().map(|l| l.iter().collect()).collect();
    assert_eq!(texts, vec!["a", "b", "", "c"]);
}

#[test]
fn words_split_on_whitespace_runs() {
    let ws = split_ws(&chars("  one\ttwo   three "));
    let texts: Vec<String> = ws.iter().map(|w| w.iter().collect()).collect();
    assert_eq!(texts, vec!["one", "two", "three"]);
    assert_eq!(trim_ws(&chars(" \t x y \n")), chars("x y"));
}

#[test]
fn numbers_parse_like_rust_integers() {
    assert_eq!(parse_num(&chars("+42"), 10, 255), Some(42));
    assert_eq!(parse_num(&chars("256"), 10, 255), None);
    assert_eq!(parse_num(&chars("ff"), 16, 255), Some(255));
    assert_eq!(parse_num(&chars(""), 10, 255), None);
    assert_eq!(parse_num(&chars("-1"), 10, 255), None);
    assert_eq!(fmt_hex(0xab, 4), chars("00ab"));
}

#[test]
fn text_order_matches_string_order() {
    let pairs = [("a", "b"), ("ab", "a"), ("", "a"), ("é", "z"), ("Z", "a"), ("same", "same")];
    for (a, b) in pairs {
        assert_eq!(text_less(&chars(a), &chars(b)), a < b, "{a} vs {b}");
    }
}

#[test]
fn stable_sort_keeps_equal_keys_in_order() {
    let items = vec![1, 2, 3, 4];
    let keys = vec![
        vec![chars("b")],
        vec![chars("a")],
        vec![chars("b")],
        vec![chars("a")],
    ];
    assert_eq!(stable_sort_by_keys(items, keys), vec![2, 4, 1, 3]);
}
