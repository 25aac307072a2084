use dip::print::{bottom, chars, left, right, spaces, top};

#[test]
fn dip_test_print_left_right() {
    assert_eq!(left(5, "AB"), "AB   ");
    assert_eq!(right(5, "AB"), "   AB");
}

#[test]
fn dip_test_print_top_bottom() {
    assert_eq!(top(5, "AB"), vec!["A", "B", " ", " ", " "]);
    assert_eq!(bottom(5, "AB"), vec![" ", " ", " ", "A", "B"]);
}

#[test]
fn print_test_print_left_right() {
    assert_eq!(left(5, "AB"), "AB   ");
    assert_eq!(right(5, "AB"), "   AB");
}

#[test]
fn print_test_print_top_bottom() {
    assert_eq!(top(5, "AB"), vec!["A", "B", " ", " ", " "]);
    assert_eq!(bottom(5, "AB"), vec![" ", " ", " ", "A", "B"]);
}

#[test]
fn runs_of_characters() {
    assert_eq!(chars(3, '_'), "___");
    assert_eq!(chars(0, '_'), "");
    assert_eq!(spaces(4), "    ");
}

#[test]
fn a_text_as_wide_as_asked_is_not_padded() {
    assert_eq!(left(2, "AB"), "AB");
    assert_eq!(right(2, "AB"), "AB");
    assert_eq!(left(0, ""), "");
    assert_eq!(right(3, ""), "   ");
}

#[test]
fn a_wider_text_comes_back_whole() {
    assert_eq!(left(1, "ABC"), "ABC");
    assert_eq!(right(1, "ABC"), "ABC");
    assert_eq!(top(1, "ABC"), vec!["A", "B", "C"]);
    assert_eq!(bottom(1, "ABC"), vec!["A", "B", "C"]);
}

#[test]
fn stacks_of_nothing() {
    assert_eq!(top(2, ""), vec![" ", " "]);
    assert_eq!(bottom(2, ""), vec![" ", " "]);
    assert!(top(0, "").is_empty());
    assert!(bottom(0, "").is_empty());
}

#[test]
fn clusters_are_measured_and_stacked_whole() {
    assert_eq!(left(3, "e\u{301}"), "e\u{301}  ");
    assert_eq!(right(3, "e\u{301}"), "  e\u{301}");
    assert_eq!(left(4, "\u{b5}C"), "\u{b5}C  ");
    assert_eq!(top(3, "a\u{308}b"), vec!["a\u{308}", "b", " "]);
    assert_eq!(bottom(3, "a\u{308}b"), vec![" ", "a\u{308}", "b"]);
    assert_eq!(top(1, "\r\n"), vec!["\r\n"]);
    assert_eq!(
        top(0, "a\u{310}e\u{301}o\u{308}\u{332}"),
        vec!["a\u{310}", "e\u{301}", "o\u{308}\u{332}"]
    );
    assert_eq!(bottom(0, "a\r\nb"), vec!["a", "\r\n", "b"]);
}

#[test]
fn padding_is_undone_by_trimming() {
    for text in ["", "AB", "a b", " lead", "e\u{301}", "\u{b5}C"] {
        for width in 0..8 {
            assert_eq!(left(width, text).trim_end_matches(' '), text);
            assert_eq!(right(width, text).trim_start_matches(' '), text.trim_start_matches(' '));
        }
    }
    assert_eq!(left(4, "A ").trim_end_matches(' '), "A");
}
