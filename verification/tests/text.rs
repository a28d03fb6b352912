use aquatui::text::{art_lines, chars_of, is_white_space_char, lines, trim, trim_end};

#[test]
fn lines_split_on_newlines() {
    assert_eq!(lines("a\nb\nc"), vec!["a", "b", "c"]);
}

#[test]
fn lines_final_newline_is_optional() {
    assert_eq!(lines("a\nb\n"), vec!["a", "b"]);
    assert_eq!(lines("a\nb"), vec!["a", "b"]);
}

#[test]
fn lines_keep_empty_lines() {
    assert_eq!(lines("\nx\n\ny"), vec!["", "x", "", "y"]);
    assert_eq!(lines("\n"), vec![""]);
}

#[test]
fn lines_of_empty_text_is_empty() {
    assert_eq!(lines(""), Vec::<&str>::new());
}

#[test]
fn lines_strip_carriage_return_before_newline() {
    assert_eq!(lines("a\r\nb\r\n"), vec!["a", "b"]);
    assert_eq!(lines("a\rb\nc\r"), vec!["a\rb", "c\r"]);
}

#[test]
fn lines_agree_with_std() {
    for t in ["", "\n", "x", "x\n", "\n\n", "a\r\n\r\nb", "é\nñ°\n ", "  \\\n / \\\n"] {
        assert_eq!(lines(t), t.lines().collect::<Vec<_>>(), "text {:?}", t);
    }
}

#[test]
fn trim_end_cuts_trailing_white_space_only() {
    assert_eq!(trim_end("  ab \t "), "  ab");
    assert_eq!(trim_end("   "), "");
    assert_eq!(trim_end(""), "");
}

#[test]
fn trim_cuts_both_sides() {
    assert_eq!(trim("   (  "), "(");
    assert_eq!(trim(" \u{3000}x y\u{a0}"), "x y");
    assert_eq!(trim("\n\t"), "");
}

#[test]
fn white_space_matches_std() {
    for c in [' ', '\t', '\n', '\r', '\u{b}', '\u{c}', '\u{85}', '\u{a0}', '\u{1680}', '\u{2000}', '\u{200a}', '\u{2028}', '\u{2029}', '\u{202f}', '\u{205f}', '\u{3000}', 'a', '°', '\u{200b}', '_'] {
        assert_eq!(is_white_space_char(c), c.is_whitespace(), "char {:?}", c);
    }
}

#[test]
fn chars_of_keeps_every_character() {
    assert_eq!(chars_of("><((°>"), vec!['>', '<', '(', '(', '°', '>']);
}

#[test]
fn art_lines_trim_each_line_end() {
    assert_eq!(art_lines("\n ab  \ncd\n"), vec!["".to_string(), " ab".to_string(), "cd".to_string()]);
}
