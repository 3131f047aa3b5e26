use textutils::comm::{check_inputs, comm, compare_lines, merge, render, Args, Column, Order};

fn lines(v: &[&str]) -> Vec<String> {
    v.iter().map(|s| s.to_string()).collect()
}

fn args(show: [bool; 3], insensitive: bool, delimiter: &str) -> Args {
    Args {
        file1: "a".to_string(),
        file2: "b".to_string(),
        show_col1: show[0],
        show_col2: show[1],
        show_col3: show[2],
        insensitive,
        delimiter: delimiter.to_string(),
    }
}

#[test]
fn refuses_two_stdins() {
    assert_eq!(check_inputs("-", "-"), Err(r#"Both input files cannot be STDIN ("-")"#.to_string()));
    assert_eq!(check_inputs("-", "b"), Ok(()));
}

#[test]
fn compares_like_string_ord() {
    let words = ["", "a", "B", "b", "ab", "é", "e", "\u{10000}", "\u{ffff}"];
    for x in words {
        for y in words {
            let expected = match x.cmp(y) {
                std::cmp::Ordering::Less => Order::Less,
                std::cmp::Ordering::Equal => Order::Equal,
                std::cmp::Ordering::Greater => Order::Greater,
            };
            assert_eq!(compare_lines(x, y), expected, "{x:?} {y:?}");
        }
    }
}

#[test]
fn merges_sorted_inputs() {
    let cols = merge(&lines(&["a", "b", "c"]), &lines(&["b", "c", "d"]));
    let shown: Vec<String> = cols
        .iter()
        .map(|c| match c {
            Column::Col1(s) => format!("1{s}"),
            Column::Col2(s) => format!("2{s}"),
            Column::Col3(s) => format!("3{s}"),
        })
        .collect();
    assert_eq!(shown, vec!["1a", "3b", "3c", "2d"]);
}

#[test]
fn prints_columns() {
    let out = comm(&args([true, true, true], false, "\t"), &lines(&["a", "b", "c"]), &lines(&["b", "c", "d"]));
    assert_eq!(out, lines(&["a", "\t\tb", "\t\tc", "\td"]));
    let out = comm(&args([false, true, true], false, ":"), &lines(&["a", "b"]), &lines(&["b", "d"]));
    assert_eq!(out, lines(&[":b", "d"]));
    let out = comm(&args([false, false, false], false, "\t"), &lines(&["a"]), &lines(&["a"]));
    assert!(out.is_empty());
}

#[test]
fn insensitive_lowers_lines() {
    let out = comm(&args([true, true, true], true, "\t"), &lines(&["A", "Ω"]), &lines(&["a", "ω"]));
    assert_eq!(out, lines(&["\t\ta", "\t\tω"]));
    let out = comm(&args([true, true, true], false, "\t"), &lines(&["A"]), &lines(&["a"]));
    assert_eq!(out, lines(&["A", "\ta"]));
}

#[test]
fn each_line_lands_once() {
    let l1 = lines(&["a", "c", "e"]);
    let l2 = lines(&["b", "c", "f", "g"]);
    let cols = merge(&l1, &l2);
    let mut left = vec![];
    let mut right = vec![];
    for c in &cols {
        match c {
            Column::Col1(s) => left.push(s.clone()),
            Column::Col2(s) => right.push(s.clone()),
            Column::Col3(s) => {
                left.push(s.clone());
                right.push(s.clone());
            }
        }
    }
    assert_eq!(left, l1);
    assert_eq!(right, l2);
    assert_eq!(render(&Column::Col2("x".to_string()), &args([false, true, true], false, "|")), Some("x".to_string()));
    assert_eq!(render(&Column::Col1("x".to_string()), &args([false, true, true], false, "|")), None);
}

#[test]
fn flags_only_filter_the_full_output() {
    let l1 = lines(&["a", "b", "c", "x"]);
    let l2 = lines(&["b", "d", "x", "y"]);
    let full = comm(&args([true, true, true], false, "\t"), &l1, &l2);
    for show in [[true, true, true], [false, true, true], [true, false, true], [true, true, false], [false, false, true], [true, false, false]] {
        let out = comm(&args(show, false, "::"), &l1, &l2);
        let mut expected = vec![];
        for l in &full {
            let col = l.chars().take_while(|c| *c == '\t').count().min(2);
            let val = l.trim_start_matches('\t');
            if show[col] {
                let left = (0..col).filter(|j| show[*j]).count();
                expected.push(format!("{}{}", "::".repeat(left), val));
            }
        }
        assert_eq!(out, expected, "{show:?}");
    }
}
