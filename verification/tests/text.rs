use gambling_bot::text::{text_lines, trim_str};

#[test]
fn lines_split_like_std() {
    assert_eq!(text_lines("foo\r\nbar\n\nbaz\r"), vec!["foo", "bar", "", "baz\r"]);
    assert_eq!(text_lines(""), Vec::<&str>::new());
    assert_eq!(text_lines("a\n"), vec!["a"]);
    assert_eq!(text_lines("\n"), vec![""]);
    assert_eq!(text_lines("a\r\n\r\nb"), vec!["a", "", "b"]);
    for s in ["x\ny\r\nz", "\r\r\n", "one", "two\n\n"] {
        assert_eq!(text_lines(s), s.lines().collect::<Vec<_>>());
    }
}

#[test]
fn trim_removes_white_space_like_std() {
    assert_eq!(trim_str("\u{a0} x y\t\n"), "x y");
    assert_eq!(trim_str("   "), "");
    assert_eq!(trim_str(""), "");
    assert_eq!(trim_str("\u{3000}12\u{2028}"), "12");
    for s in [" 1,2 ", "\u{85}a\u{200b}", "\r\n b \u{205f}"] {
        assert_eq!(trim_str(s), s.trim());
    }
}
