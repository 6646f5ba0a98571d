use crustdown::text::{
    chars_of, find_char, find_last_char, has_prefix, is_space_char, split_lines, split_trimmed,
    string_of, trim_bounds,
};

#[test]
fn chars_are_decoded_in_order() {
    assert_eq!(chars_of("añb"), vec!['a', 'ñ', 'b']);
    assert_eq!(chars_of(""), Vec::<char>::new());
}

#[test]
fn string_of_copies_the_range() {
    let cs = chars_of("hello world");
    assert_eq!(string_of(&cs, 6, 11), "world");
    assert_eq!(string_of(&cs, 3, 3), "");
    assert_eq!(string_of(&cs, 0, 11), "hello world");
}

#[test]
fn white_space_is_the_unicode_set() {
    for c in [
        '\t', '\n', '\u{0B}', '\u{0C}', '\r', ' ', '\u{85}', '\u{A0}', '\u{1680}', '\u{2000}',
        '\u{200A}', '\u{2028}', '\u{2029}', '\u{202F}', '\u{205F}', '\u{3000}',
    ] {
        assert!(is_space_char(c), "{:?}", c);
    }
    for c in ['a', '-', ':', '\u{08}', '\u{0E}', '\u{200B}', '\u{1FFF}', '\u{3001}'] {
        assert!(!is_space_char(c), "{:?}", c);
    }
}

#[test]
fn white_space_agrees_with_std_on_every_char() {
    let mut c = 0u32;
    while c <= 0x10FFFF {
        if let Some(ch) = char::from_u32(c) {
            assert_eq!(is_space_char(ch), ch.is_whitespace(), "{:x}", c);
        }
        c += 1;
    }
}

#[test]
fn find_char_gives_first_and_last() {
    let cs = chars_of("a:b:c");
    assert_eq!(find_char(&cs, 0, 5, ':'), 1);
    assert_eq!(find_char(&cs, 2, 5, ':'), 3);
    assert_eq!(find_char(&cs, 4, 5, ':'), 5);
    assert_eq!(find_last_char(&cs, 0, 5, ':'), Some(3));
    assert_eq!(find_last_char(&cs, 0, 3, ':'), Some(1));
    assert_eq!(find_last_char(&cs, 0, 1, ':'), None);
}

#[test]
fn trim_bounds_leave_out_white_space_at_both_ends() {
    let cs = chars_of("  a b\t\n");
    assert_eq!(trim_bounds(&cs, 0, cs.len()), (2, 5));
    let blank = chars_of(" \t ");
    let (from, to) = trim_bounds(&blank, 0, blank.len());
    assert_eq!(from, to);
    let none = chars_of("ab");
    assert_eq!(trim_bounds(&none, 0, 2), (0, 2));
}

#[test]
fn has_prefix_compares_the_front() {
    let cs = chars_of("---x");
    let marker = chars_of("---");
    assert!(has_prefix(&cs, 0, 4, &marker));
    assert!(!has_prefix(&cs, 1, 4, &marker));
    assert!(!has_prefix(&cs, 0, 2, &marker));
    assert!(has_prefix(&cs, 0, 4, &Vec::new()));
}

#[test]
fn lines_end_at_line_feeds() {
    assert_eq!(split_lines("a\nb\nc"), vec!["a", "b", "c"]);
    assert_eq!(split_lines("a\nb\n"), vec!["a", "b"]);
    assert_eq!(split_lines("a\n\nb"), vec!["a", "", "b"]);
    assert_eq!(split_lines("\n"), vec![""]);
    assert_eq!(split_lines(""), Vec::<String>::new());
}

#[test]
fn lines_drop_a_carriage_return_before_the_line_feed() {
    assert_eq!(split_lines("a\r\nb\r\n"), vec!["a", "b"]);
    assert_eq!(split_lines("a\rb\nc\r"), vec!["a\rb", "c\r"]);
    assert_eq!(split_lines("a\r\r\nb"), vec!["a\r", "b"]);
}

#[test]
fn lines_agree_with_std() {
    for text in ["", "\n", "a", "a\n", "a\r\n", "\r\n\r\n", "x\ny\r\nz\r", "\r", "a\n\n\nb\n"] {
        let expected: Vec<String> = text.lines().map(|line| line.to_string()).collect();
        assert_eq!(split_lines(text), expected, "{:?}", text);
    }
}

#[test]
fn split_trimmed_cuts_at_each_separator() {
    assert_eq!(split_trimmed("tag1, tag2", ','), vec!["tag1", "tag2"]);
    assert_eq!(split_trimmed("tag1,tag2", ','), vec!["tag1", "tag2"]);
    assert_eq!(split_trimmed(" a ,, b ,", ','), vec!["a", "", "b", ""]);
    assert_eq!(split_trimmed("", ','), vec![""]);
    assert_eq!(split_trimmed("one", ','), vec!["one"]);
}

#[test]
fn trimming_agrees_with_std() {
    for text in [
        "", " ", "a", " a", "a ", "\t a b \r\n", "\u{3000}x\u{A0}", "  \u{200B} ", "a\u{85}",
    ] {
        let cs = chars_of(text);
        let (from, to) = trim_bounds(&cs, 0, cs.len());
        assert_eq!(string_of(&cs, from, to), text.trim(), "{:?}", text);
    }
}

#[test]
fn splitting_agrees_with_std() {
    for text in ["", ",", "a,b", " a , b ", ",,", "tag1, tag2", "x"] {
        let expected: Vec<String> = text.split(',').map(|tag| tag.trim().to_string()).collect();
        assert_eq!(split_trimmed(text, ','), expected, "{:?}", text);
    }
}
