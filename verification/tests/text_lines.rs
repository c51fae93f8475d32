use character_sheet::lines::split_lines;
use std::io::BufRead;

#[test]
fn split_lines_of_nothing_is_nothing() {
    assert_eq!(split_lines(""), Vec::<&str>::new());
}

#[test]
fn split_lines_cuts_at_line_feeds() {
    assert_eq!(split_lines("a\nbc\ndef\n"), vec!["a", "bc", "def"]);
}

#[test]
fn split_lines_keeps_an_unfinished_last_line() {
    assert_eq!(split_lines("a\nbc"), vec!["a", "bc"]);
    assert_eq!(split_lines("abc"), vec!["abc"]);
}

#[test]
fn split_lines_keeps_empty_lines() {
    assert_eq!(split_lines("\n"), vec![""]);
    assert_eq!(split_lines("\n\n"), vec!["", ""]);
    assert_eq!(split_lines("a\n\nb\n"), vec!["a", "", "b"]);
}

#[test]
fn split_lines_drops_a_carriage_return_before_a_line_feed() {
    assert_eq!(split_lines("a\r\nb\r\n"), vec!["a", "b"]);
    assert_eq!(split_lines("\r\n"), vec![""]);
    assert_eq!(split_lines("a\r\r\nb"), vec!["a\r", "b"]);
}

#[test]
fn split_lines_keeps_other_carriage_returns() {
    assert_eq!(split_lines("a\rb\n"), vec!["a\rb"]);
    assert_eq!(split_lines("a\nb\r"), vec!["a", "b\r"]);
    assert_eq!(split_lines("\r"), vec!["\r"]);
}

#[test]
fn split_lines_counts_characters_not_bytes() {
    assert_eq!(split_lines("\u{674e}\u{5c0f}\u{9f99}\n\u{e9}t\u{e9}\r\nz"), vec![
        "\u{674e}\u{5c0f}\u{9f99}",
        "\u{e9}t\u{e9}",
        "z"
    ]);
}

fn buffered_lines(text: &str) -> Vec<String> {
    let mut out = Vec::new();
    for line in text.as_bytes().lines() {
        out.push(line.unwrap());
    }
    out
}

#[test]
fn split_lines_agrees_with_a_buffered_reader() {
    let samples = [
        "", "\n", "\r", "\r\n", "\n\r", "a", "a\n", "a\r\n", "a\r", "a\n\n", "\na", "\r\na",
        "a\r\r\n", "a\rb\nc", "x\ny\nz", "x\r\ny\r\nz\r\n", "Mei\n10\n7\n5\n2\n3\n0\n",
        "\u{e9}\n\u{1f600}\r\n\u{674e}",
    ];
    for s in samples {
        assert_eq!(split_lines(s), buffered_lines(s), "on {:?}", s);
    }
}
