use textutils::cat::{numbering, LineNumberer, Numbering};

#[test]
fn number_flag_wins() {
    assert_eq!(numbering(true, true), Numbering::All);
    assert_eq!(numbering(false, true), Numbering::NonBlank);
    assert_eq!(numbering(false, false), Numbering::Off);
}

#[test]
fn numbers_every_line() {
    let mut n = LineNumberer::new(Numbering::All);
    assert_eq!(n.render("a"), "     1\ta");
    assert_eq!(n.render(""), "     2\t");
    assert_eq!(n.render("b"), "     3\tb");
}

#[test]
fn numbers_nonblank_lines() {
    let mut n = LineNumberer::new(Numbering::NonBlank);
    assert_eq!(n.render("a"), "     1\ta");
    assert_eq!(n.render(""), "");
    assert_eq!(n.render("b"), "     2\tb");
    assert_eq!(n.next, 3);
}

#[test]
fn copies_without_numbering() {
    let mut n = LineNumberer::new(Numbering::Off);
    assert_eq!(n.render("The quick brown fox"), "The quick brown fox");
    assert_eq!(n.render(""), "");
}

#[test]
fn wide_numbers_are_not_cut() {
    let mut n = LineNumberer { mode: Numbering::All, next: 1234567 };
    assert_eq!(n.render("x"), "1234567\tx");
}
