use varde::output::{property, strip_ansi};
use varde::text::{
    chars_of, digit, ends_with, is_whitespace, lines_of, parse_digits, push_decimal,
    push_signed_decimal, starts_with, trimmed, words_of,
};

fn chars(s: &str) -> Vec<char> {
    s.chars().collect()
}

fn text(cs: &[char]) -> String {
    cs.iter().collect()
}

#[test]
fn strips_terminal_escape_sequences() {
    assert_eq!(strip_ansi("\u{1b}[1;32mgreen\u{1b}[0m text"), "green text");
    assert_eq!(strip_ansi("plain"), "plain");
    assert_eq!(strip_ansi("\u{1b}x"), "\u{1b}");
}

#[test]
fn reads_properties_by_line_prefix() {
    let text = "  Powered: yes\n  Alias:  desktop \nEmpty:\n";
    assert_eq!(property(text, "Alias:"), Some("desktop".into()));
    assert_eq!(property(text, "Powered:"), Some("yes".into()));
    assert_eq!(property(text, "Empty:"), None);
    assert_eq!(property(text, "Missing"), None);
}

#[test]
fn splits_lines_and_words() {
    let lines = lines_of(&chars("one\r\ntwo\n\nthree"));
    let lines: Vec<String> = lines.iter().map(|l| text(l)).collect();
    assert_eq!(lines, vec!["one", "two", "", "three"]);
    let words = words_of(&chars("  a\tbb  ccc \n"));
    let words: Vec<String> = words.iter().map(|w| text(w)).collect();
    assert_eq!(words, vec!["a", "bb", "ccc"]);
    assert_eq!(text(&trimmed(&chars("\u{a0} x y \t"))), "x y");
}

#[test]
fn compares_prefixes_and_suffixes() {
    assert!(starts_with(&chars("file:///a"), &chars("file://")));
    assert!(!starts_with(&chars("fil"), &chars("file://")));
    assert!(ends_with(&chars("name.png"), &chars(".png")));
    assert!(!ends_with(&chars("png"), &chars(".png")));
}

#[test]
fn writes_and_reads_decimals() {
    let mut s = String::from("n=");
    push_decimal(&mut s, 0);
    push_decimal(&mut s, 1905);
    assert_eq!(s, "n=01905");
    let mut s = String::new();
    push_signed_decimal(&mut s, -42);
    assert_eq!(s, "-42");
    assert_eq!(digit(7), '7');
    assert_eq!(parse_digits(&chars("x123"), 1, 4, 1000), Some(123));
    assert_eq!(parse_digits(&chars("1234"), 0, 4, 1000), None);
    assert_eq!(parse_digits(&chars("12a"), 0, 3, 1000), None);
    assert_eq!(parse_digits(&chars(""), 0, 0, 1000), None);
}

#[test]
fn classifies_unicode_whitespace() {
    assert!(is_whitespace(' '));
    assert!(is_whitespace('\u{2003}'));
    assert!(!is_whitespace('x'));
    assert_eq!(chars_of("ab"), vec!['a', 'b']);
}
