use textutils::text::{format_right_aligned, is_dash, is_space_char};

#[test]
fn right_alignment() {
    assert_eq!(format_right_aligned(42, 6), "    42");
    assert_eq!(format_right_aligned(0, 4), "   0");
    assert_eq!(format_right_aligned(123456, 6), "123456");
    assert_eq!(format_right_aligned(u64::MAX, 8), u64::MAX.to_string());
    for n in [0u64, 7, 10, 99, 100, 65535, 1 << 40] {
        assert_eq!(format_right_aligned(n, 8), format!("{:>8}", n));
    }
}

#[test]
fn whitespace_agrees_with_std() {
    for u in 0u32..0x3100 {
        if let Some(c) = char::from_u32(u) {
            assert_eq!(is_space_char(c), c.is_whitespace(), "{:x}", u);
        }
    }
}

#[test]
fn dash_names_stdin() {
    assert!(is_dash("-"));
    assert!(!is_dash("--"));
    assert!(!is_dash(""));
}
