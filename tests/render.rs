use hunt::render::{decimal_chars, highlight, max_line_number_length, max_path_length};
use hunt::scan::Match;

fn at(path: &str, line_number: usize, line: &str) -> Match {
    Match { file_path: String::from(path), line_number, line: String::from(line) }
}

#[test]
fn decimal_digits() {
    assert_eq!(decimal_chars(0), vec!['0']);
    assert_eq!(decimal_chars(42), vec!['4', '2']);
    assert_eq!(decimal_chars(1007), vec!['1', '0', '0', '7']);
}

#[test]
fn highlight_replaces_every_occurrence() {
    assert_eq!(highlight("a hello b hello", "hello", "<hello>"), "a <hello> b <hello>");
    assert_eq!(highlight("nothing here", "hello", "<hello>"), "nothing here");
}

#[test]
fn highlight_is_left_to_right_without_overlap() {
    assert_eq!(highlight("aaa", "aa", "[aa]"), "[aa]a");
    assert_eq!(highlight("aaaa", "aa", "[aa]"), "[aa][aa]");
}

#[test]
fn widths_of_empty_set_are_absent() {
    assert_eq!(max_path_length(&Vec::new()), None);
    assert_eq!(max_line_number_length(&Vec::new()), None);
}

#[test]
fn widths_over_match_set() {
    let ms = vec![at("abc", 1, "x"), at("0123456789", 42, "y")];
    assert_eq!(max_path_length(&ms), Some(10));
    assert_eq!(max_line_number_length(&ms), Some(2));
}

#[test]
fn path_width_counts_bytes() {
    let ms = vec![at("\u{e9}t\u{e9}", 0, "x")];
    assert_eq!(max_path_length(&ms), Some(5));
}

#[test]
fn reference_columns_align() {
    let ms = vec![at("abc", 1, "x hello"), at("0123456789", 42, "hello y")];
    let wp = max_path_length(&ms);
    let wl = max_line_number_length(&ms);
    let a = ms[0].padded_reference(wp, wl);
    let b = ms[1].padded_reference(wp, wl);
    assert_eq!(a, "abc:1        \u{2502}");
    assert_eq!(b, "0123456789:42\u{2502}");
    assert_eq!(a.chars().count(), b.chars().count());
    assert_eq!(a.chars().count(), 14);
}

#[test]
fn reference_without_widths_is_not_cut() {
    let m = at("some/long/path.txt", 123, "x");
    assert_eq!(m.padded_reference(None, None), "some/long/path.txt:123\u{2502}");
}

#[test]
fn formatted_result_holds_reference_and_line() {
    let m = at("abc", 1, "x hello y");
    let out = m.format_as_result("hello", Some(3), Some(1));
    assert!(out.contains("abc:1"));
    assert!(out.contains("\u{2502}"));
    assert!(out.contains("hello"));
    assert!(out.ends_with(" y"));
    assert!(out.contains("x "));
}
