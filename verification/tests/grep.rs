use textutils::find::EntryKind;
use textutils::grep::{
    find_lines, format_report, resolve_path, select_marked, uses_prefix, walked_files, PathAction,
    PathInfo,
};
use textutils::pattern::Pattern;

fn lines(v: &[&str]) -> Vec<String> {
    v.iter().map(|s| s.to_string()).collect()
}

#[test]
fn stdin_is_searched() {
    match resolve_path("-", &PathInfo::Error("gone".to_string()), false) {
        PathAction::Search(p) => assert_eq!(p, "-"),
        other => panic!("{:?}", other),
    }
}

#[test]
fn directories_need_recursion() {
    match resolve_path("./tests/inputs", &PathInfo::Dir, false) {
        PathAction::Fail(msg) => assert_eq!(msg, "./tests/inputs is a directory"),
        other => panic!("{:?}", other),
    }
    assert!(matches!(resolve_path("./tests/inputs", &PathInfo::Dir, true), PathAction::Walk));
}

#[test]
fn files_others_and_errors() {
    match resolve_path("./tests/inputs/fox.txt", &PathInfo::File, false) {
        PathAction::Search(p) => assert_eq!(p, "./tests/inputs/fox.txt"),
        other => panic!("{:?}", other),
    }
    assert!(matches!(resolve_path("/dev/null", &PathInfo::Other, true), PathAction::Ignore));
    match resolve_path("blargh", &PathInfo::Error("No such file".to_string()), false) {
        PathAction::Fail(msg) => assert_eq!(msg, "blargh: No such file"),
        other => panic!("{:?}", other),
    }
}

#[test]
fn finds_matching_lines() {
    let text = lines(&["Lorem ipsum\n", "dolor sit amet\n", "lorem again\n"]);
    let re = Pattern::new("or", false).unwrap();
    assert_eq!(find_lines(&text, &re, false), text);
    let re = Pattern::new("Lorem", false).unwrap();
    assert_eq!(find_lines(&text, &re, false), lines(&["Lorem ipsum\n"]));
    assert_eq!(find_lines(&text, &re, true), lines(&["dolor sit amet\n", "lorem again\n"]));
    let re = Pattern::new("lorem", true).unwrap();
    assert_eq!(find_lines(&text, &re, false), lines(&["Lorem ipsum\n", "lorem again\n"]));
}

#[test]
fn invert_splits_the_lines() {
    let text = lines(&["a", "b", "c", "d"]);
    let marks = vec![true, false, false, true];
    let kept = select_marked(&text, &marks, false);
    let dropped = select_marked(&text, &marks, true);
    assert_eq!(kept, lines(&["a", "d"]));
    assert_eq!(dropped, lines(&["b", "c"]));
    assert_eq!(kept.len() + dropped.len(), text.len());
}

#[test]
fn invalid_pattern_message() {
    let err = Pattern::new("*foo", false).err().unwrap();
    assert_eq!(err.message(), r#"Invalid pattern "*foo""#);
    assert!(Pattern::new("(", true).is_err());
}

#[test]
fn reports() {
    let ms = lines(&["fox\n", "dog\n"]);
    assert!(uses_prefix(2, false));
    assert!(uses_prefix(1, true));
    assert!(!uses_prefix(1, false));
    assert_eq!(format_report("f.txt", true, true, &ms), "f.txt:2\n");
    assert_eq!(format_report("f.txt", false, true, &ms), "2\n");
    assert_eq!(format_report("f.txt", true, false, &ms), "f.txt:fox\nf.txt:dog\n");
    assert_eq!(format_report("f.txt", false, false, &ms), "fox\ndog\n");
    assert_eq!(format_report("f.txt", true, true, &vec![]), "f.txt:0\n");
}

#[test]
fn walk_keeps_regular_files() {
    let file = EntryKind { is_dir: false, is_file: true, is_symlink: false };
    let dir = EntryKind { is_dir: true, is_file: false, is_symlink: false };
    let link = EntryKind { is_dir: false, is_file: false, is_symlink: true };
    let entries = vec![
        ("./tests/inputs".to_string(), dir),
        ("./tests/inputs/fox.txt".to_string(), file),
        ("./tests/inputs/link".to_string(), link),
        ("./tests/inputs/empty.txt".to_string(), file),
    ];
    assert_eq!(walked_files(&entries), lines(&["./tests/inputs/fox.txt", "./tests/inputs/empty.txt"]));
    assert!(walked_files(&vec![]).is_empty());
}
