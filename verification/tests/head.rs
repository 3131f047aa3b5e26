use textutils::head::{bytes_text, header, LineBudget};

#[test]
fn headers_for_several_inputs() {
    assert_eq!(header("one.txt", 0, 1), None);
    assert_eq!(header("one.txt", 0, 2), Some("==> one.txt <==\n".to_string()));
    assert_eq!(header("two.txt", 1, 2), Some("\n==> two.txt <==\n".to_string()));
}

#[test]
fn bytes_are_decoded() {
    let buf = "héllo".as_bytes().to_vec();
    assert_eq!(bytes_text(&buf, 1), "h");
    assert_eq!(bytes_text(&buf, 3), "hé");
    // A cut through a character leaves a replacement character.
    assert_eq!(bytes_text(&buf, 2), "h\u{fffd}");
    assert_eq!(bytes_text(&vec![b'h', 0xc3], 2), "h\u{fffd}");
    assert_eq!(bytes_text(&buf, 0), "");
}

#[test]
fn budget_counts_down() {
    let mut b = LineBudget::new(2);
    assert!(b.wants_line());
    b.spend();
    assert!(b.wants_line());
    b.spend();
    assert!(!b.wants_line());
}
