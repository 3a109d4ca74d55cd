use inventory::text::{char_is_whitespace, try_truncate, StringExt};

#[test]
fn truncate_cuts_long_text() {
    let long_string = "This is a very long string that needs truncation";
    assert_eq!(long_string.truncate(10), "This is a ...");
    assert_eq!("abcdef".truncate(0), "...");
    assert_eq!("abcdef".truncate(5), "abcde...");
}

#[test]
fn truncate_leaves_short_text() {
    assert_eq!("abcdef".truncate(6), "abcdef");
    assert_eq!("abcdef".truncate(7), "abcdef");
    assert_eq!("abcdef".truncate(usize::MAX), "abcdef");
    assert_eq!("".truncate(0), "");
    assert_eq!("".truncate(3), "");
}

#[test]
fn truncate_counts_bytes() {
    let text = "h\u{e9}llo";
    assert_eq!(text.len(), 6);
    assert_eq!(text.truncate(6), text);
    assert_eq!(text.truncate(5), "h\u{e9}ll...");
    assert_eq!(text.truncate(3), "h\u{e9}...");
    assert_eq!(text.truncate(1), "h...");
    assert_eq!("\u{1f600}!".truncate(4), "\u{1f600}...");
}

#[test]
fn truncate_twice_is_truncate_once_for_short_text() {
    let text = "short";
    let once = text.truncate(5);
    assert_eq!(once.as_str().truncate(5), once);
}

#[test]
fn word_count_ignores_runs_of_char_is_whitespace() {
    assert_eq!("  a   b  ".word_count(), 2);
    assert_eq!("".word_count(), 0);
    assert_eq!("   ".word_count(), 0);
    assert_eq!("a".word_count(), 1);
    assert_eq!("This is a very long string that needs truncation".word_count(), 9);
    assert_eq!("one\ttwo\nthree\r\nfour".word_count(), 4);
    assert_eq!("a\u{a0}b\u{3000}c\u{2003}d".word_count(), 4);
    assert_eq!("a\u{200b}b".word_count(), 1);
}

#[test]
fn word_count_matches_the_standard_split() {
    let texts = [
        "",
        " ",
        "x",
        " x",
        "x ",
        "x y",
        "\u{85}x\u{1680}y\u{2028}z\u{2029}",
        "\u{202f}\u{205f}w",
        "tab\u{b}vertical\u{c}feed",
        "\u{feff}bom \u{180e}mongolian",
        "mixed \u{e9}\u{4e2d}\u{6587} text\u{2009}here",
    ];
    for text in texts {
        assert_eq!(text.word_count(), text.split_whitespace().count(), "{:?}", text);
    }
}

#[test]
fn white_space_is_the_unicode_property() {
    let mut count = 0;
    for code in 0..=0x10_ffffu32 {
        if let Some(c) = char::from_u32(code) {
            assert_eq!(char_is_whitespace(c), c.is_whitespace(), "{:#x}", code);
            if char_is_whitespace(c) {
                count += 1;
            }
        }
    }
    assert_eq!(count, 25);
}

#[test]
fn try_truncate_refuses_a_cut_inside_a_character() {
    let text = "h\u{e9}llo";
    assert_eq!(try_truncate(text, 2), None);
    assert_eq!(try_truncate(text, 3), Some("h\u{e9}...".to_string()));
    assert_eq!(try_truncate(text, 1), Some("h...".to_string()));
    assert_eq!(try_truncate(text, 0), Some("...".to_string()));
    assert_eq!(try_truncate(text, 6), Some(text.to_string()));
    assert_eq!(try_truncate(text, 60), Some(text.to_string()));
    assert_eq!(try_truncate("\u{1f600}", 1), None);
    assert_eq!(try_truncate("\u{1f600}", 2), None);
    assert_eq!(try_truncate("\u{1f600}", 3), None);
    assert_eq!(try_truncate("\u{1f600}", 4), Some("\u{1f600}".to_string()));
    assert_eq!(try_truncate("", 0), Some(String::new()));
}

#[test]
fn try_truncate_agrees_with_slicing() {
    let text = "a\u{df}\u{4e2d}\u{1f600}z";
    for max_length in 0..text.len() + 2 {
        let expected = if text.len() <= max_length {
            Some(text.to_string())
        } else if text.is_char_boundary(max_length) {
            Some(format!("{}...", &text[..max_length]))
        } else {
            None
        };
        assert_eq!(try_truncate(text, max_length), expected);
    }
}
