use cacutils::color::{colorize, ANSIColors};
use cacutils::text::{
    has_arg, join_exec, join_strings, parse_unsigned_exec, push_decimal, replace_all_exec,
    replace_str, split_on_exec, starts_with_exec, words_exec,
};

fn cv(s: &str) -> Vec<char> {
    s.chars().collect()
}

fn strings(v: &[&str]) -> Vec<String> {
    v.iter().map(|s| s.to_string()).collect()
}

fn string_of(v: &[char]) -> String {
    v.iter().collect()
}

fn texts(v: &[Vec<char>]) -> Vec<String> {
    v.iter().map(|c| c.iter().collect()).collect()
}

#[test]
fn colorize_wraps_text_in_color_and_reset() {
    assert_eq!(colorize("hi", ANSIColors::GREEN), "\u{1b}[32mhi\u{1b}[0m");
    assert_eq!(colorize("", ANSIColors::BLUE), "\u{1b}[34m\u{1b}[0m");
    assert_eq!(ANSIColors::RESET, "\u{1b}[0m");
    assert_eq!(ANSIColors::YELLOW, "\u{1b}[33m");
    assert_eq!(ANSIColors::MAGENTA, "\u{1b}[35m");
    assert_eq!(ANSIColors::CYAN, "\u{1b}[36m");
}

#[test]
fn replacing_in_text_with_patterns_given_as_strings() {
    let r = replace_str(&cv("héllo, wörld"), "ö", "oe");
    assert_eq!(string_of(&r), "héllo, woerld");
    let r = replace_str(&cv("a b"), " ", "");
    assert_eq!(string_of(&r), "ab");
}

#[test]
fn words_split_on_unicode_white_space() {
    let w = words_exec(&cv(" a\tb\nc\u{2003}d  "));
    assert_eq!(texts(&w), strings(&["a", "b", "c", "d"]));
}

#[test]
fn replace_behaves_like_str_replace() {
    let r = replace_all_exec(&cv("a-b-c"), &cv("-"), &cv("+="));
    assert_eq!(string_of(&r), "a+=b+=c");
    let r = replace_all_exec(&cv("aaa"), &cv("aa"), &cv("b"));
    assert_eq!(string_of(&r), "ba");
    let r = replace_all_exec(&cv("ab"), &cv(""), &cv("-"));
    assert_eq!(string_of(&r), "-a-b-");
    let r = replace_all_exec(&cv("abc"), &cv("x"), &cv("y"));
    assert_eq!(string_of(&r), "abc");
}

#[test]
fn split_behaves_like_str_split() {
    let parts = split_on_exec(&cv("a,b,,c"), &cv(","));
    assert_eq!(texts(&parts), strings(&["a", "b", "", "c"]));
    let parts = split_on_exec(&cv(""), &cv(","));
    assert_eq!(texts(&parts), strings(&[""]));
    let parts = split_on_exec(&cv("a\n"), &cv("\n"));
    assert_eq!(texts(&parts), strings(&["a", ""]));
    let parts = split_on_exec(&cv("ab"), &cv(""));
    assert_eq!(texts(&parts), strings(&["", "a", "b", ""]));
    let parts = split_on_exec(&cv("x::y::"), &cv("::"));
    assert_eq!(texts(&parts), strings(&["x", "y", ""]));
}

#[test]
fn join_of_split_gives_back_the_text() {
    for (s, sep) in [("a,b,,c", ","), ("", ","), (",,", ","), ("one::two", "::"), ("no sep", "|")] {
        let parts = split_on_exec(&cv(s), &cv(sep));
        let joined = join_exec(&parts, &cv(sep));
        assert_eq!(string_of(&joined), s);
    }
}

#[test]
fn join_strings_puts_separator_between() {
    assert_eq!(join_strings(&strings(&["a", "b", "c"]), ", "), "a, b, c");
    assert_eq!(join_strings(&strings(&["only"]), "-"), "only");
    assert_eq!(join_strings(&strings(&[]), "-"), "");
}

#[test]
fn words_are_runs_of_non_whitespace() {
    let w = words_exec(&cv("  ls   -l\t/tmp \n"));
    assert_eq!(texts(&w), strings(&["ls", "-l", "/tmp"]));
    let w = words_exec(&cv("   "));
    assert!(w.is_empty());
}

#[test]
fn decimal_digits() {
    let mut out: Vec<char> = Vec::new();
    push_decimal(&mut out, 0);
    assert_eq!(string_of(&out), "0");
    let mut out: Vec<char> = cv("n=");
    push_decimal(&mut out, 18446744073709551615);
    assert_eq!(string_of(&out), "n=18446744073709551615");
}

#[test]
fn unsigned_numbers_parse_as_from_str() {
    assert_eq!(parse_unsigned_exec(&cv("123"), u64::MAX), Some(123));
    assert_eq!(parse_unsigned_exec(&cv("+5"), u64::MAX), Some(5));
    assert_eq!(parse_unsigned_exec(&cv("007"), u64::MAX), Some(7));
    assert_eq!(parse_unsigned_exec(&cv(""), u64::MAX), None);
    assert_eq!(parse_unsigned_exec(&cv("+"), u64::MAX), None);
    assert_eq!(parse_unsigned_exec(&cv("12a"), u64::MAX), None);
    assert_eq!(parse_unsigned_exec(&cv("-1"), u64::MAX), None);
    assert_eq!(parse_unsigned_exec(&cv("256"), 255), None);
    assert_eq!(parse_unsigned_exec(&cv("18446744073709551616"), u64::MAX), None);
}

#[test]
fn argument_tests() {
    let args = strings(&["-n", "file"]);
    assert!(has_arg(&args, "-n"));
    assert!(!has_arg(&args, "-b"));
    assert!(starts_with_exec("--block-size=4", "--block-size="));
    assert!(!starts_with_exec("--block", "--block-size="));
    assert!(starts_with_exec("abc", ""));
}
