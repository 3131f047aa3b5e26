use textutils::uniq::{format_group, Uniq};

fn collapse(lines: &[&str], show_count: bool) -> Vec<String> {
    let mut u = Uniq::new(show_count);
    let mut out = Vec::new();
    for line in lines {
        if let Some(s) = u.push(line) {
            out.push(s);
        }
    }
    if let Some(s) = u.finish() {
        out.push(s);
    }
    out
}

#[test]
fn collapses_adjacent_runs() {
    let out = collapse(&["a\n", "a\n", "b\n", "a\n"], false);
    assert_eq!(out, vec!["a\n", "b\n", "a\n"]);
}

#[test]
fn counts_runs() {
    let out = collapse(&["a\n", "a\n", "b\n", "a\n"], true);
    assert_eq!(out, vec!["   2 a\n", "   1 b\n", "   1 a\n"]);
    let total: usize = out.iter().map(|s| s[..4].trim().parse::<usize>().unwrap()).sum();
    assert_eq!(total, 4);
}

#[test]
fn trailing_whitespace_is_ignored() {
    let out = collapse(&["a \n", "a\n", "a\t\r\n"], true);
    assert_eq!(out, vec!["   3 a \n"]);
}

#[test]
fn last_line_without_terminator_joins_its_run() {
    let out = collapse(&["a\n", "a"], true);
    assert_eq!(out, vec!["   2 a\n"]);
}

#[test]
fn leading_blank_lines_print_empty_text() {
    let out = collapse(&["\n", "\n", "a\n"], true);
    assert_eq!(out, vec!["   2 ", "   1 a\n"]);
    let out = collapse(&["\n", "x\n"], false);
    assert_eq!(out, vec!["", "x\n"]);
}

#[test]
fn empty_input_prints_nothing() {
    assert!(collapse(&[], true).is_empty());
    assert_eq!(format_group(true, 0, "a\n"), None);
    assert_eq!(format_group(true, 12345, "a\n"), Some("12345 a\n".to_string()));
}
