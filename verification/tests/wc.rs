use textutils::wc::{count, format_counts, format_report, format_summary, FileInfo, WcFlags};

#[test]
fn test_count() {
    let text = "I don't want the world.\nI just want your half.\r\n";
    let info = count(text);
    assert!(info.is_ok());
    let expected = FileInfo {
        num_lines: 2,
        num_words: 10,
        num_chars: 48,
        num_bytes: 48,
    };
    assert_eq!(info.unwrap(), expected);
}

#[test]
fn count_empty_text() {
    let info = count("").unwrap();
    assert_eq!(info, FileInfo { num_lines: 0, num_words: 0, num_bytes: 0, num_chars: 0 });
}

#[test]
fn count_last_line_without_terminator() {
    let info = count("a\nb").unwrap();
    assert_eq!(info.num_lines, 2);
    assert_eq!(info.num_words, 2);
    let info = count("\n\n").unwrap();
    assert_eq!(info.num_lines, 2);
    assert_eq!(info.num_words, 0);
}

#[test]
fn count_multibyte_text() {
    let info = count("héllo wörld\n").unwrap();
    assert_eq!(info.num_chars, 12);
    assert_eq!(info.num_bytes, 14);
    assert_eq!(info.num_words, 2);
    assert_eq!(info.num_lines, 1);
}

#[test]
fn count_unicode_whitespace_separates_words() {
    // U+3000 IDEOGRAPHIC SPACE and U+00A0 NO-BREAK SPACE are whitespace.
    let info = count("a\u{3000}b\u{a0}c\td\u{b}e").unwrap();
    assert_eq!(info.num_words, 5);
    assert_eq!(info.num_lines, 1);
}

#[test]
fn count_agrees_with_std() {
    let samples = ["", " x ", "one two\nthree\r\n\n four", "\u{2028}x\u{85}y z\u{200b}w"];
    for s in samples {
        let info = count(s).unwrap();
        assert_eq!(info.num_lines, s.lines().count());
        assert_eq!(info.num_words, s.split_whitespace().count());
        assert_eq!(info.num_bytes, s.len());
        assert_eq!(info.num_chars, s.chars().count());
    }
}

#[test]
fn flags_default_to_lines_words_bytes() {
    let none = WcFlags { lines: false, words: false, bytes: false, chars: false };
    assert_eq!(none.resolved(), WcFlags { lines: true, words: true, bytes: true, chars: false });
    let chars = WcFlags { lines: false, words: false, bytes: false, chars: true };
    assert_eq!(chars.resolved(), chars);
}

#[test]
fn report_columns_are_eight_wide() {
    let info = FileInfo { num_lines: 2, num_words: 10, num_bytes: 48, num_chars: 47 };
    let all = WcFlags { lines: true, words: true, bytes: true, chars: false };
    assert_eq!(format_counts(&info, all), "       2      10      48");
    let chars = WcFlags { lines: false, words: false, bytes: false, chars: true };
    assert_eq!(format_counts(&info, chars), "      47");
    assert_eq!(format_report(&info, all, "fox.txt"), "       2      10      48 fox.txt\n");
    // Standard input gets no name and no line break.
    assert_eq!(format_report(&info, all, "-"), "       2      10      48");
}

#[test]
fn summary_only_for_several_inputs() {
    let total = FileInfo { num_lines: 3, num_words: 4, num_bytes: 5, num_chars: 5 };
    let flags = WcFlags { lines: true, words: false, bytes: false, chars: false };
    assert_eq!(format_summary(&total, flags, 1), None);
    assert_eq!(format_summary(&total, flags, 2), Some("       3 total\n".to_string()));
}

#[test]
fn totals_add_up() {
    let mut total = FileInfo::zero();
    let a = FileInfo { num_lines: 1, num_words: 2, num_bytes: 3, num_chars: 4 };
    assert!(total.can_add(&a));
    total.add(&a);
    total.add(&a);
    assert_eq!(total, FileInfo { num_lines: 2, num_words: 4, num_bytes: 6, num_chars: 8 });
    let big = FileInfo { num_lines: usize::MAX, num_words: 0, num_bytes: 0, num_chars: 0 };
    assert!(!total.can_add(&big));
}
