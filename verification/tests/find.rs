use textutils::find::{any_type_matches, is_selected, passes_filters, EntryKind, EntryType};
use textutils::pattern::Pattern;

const FILE: EntryKind = EntryKind { is_dir: false, is_file: true, is_symlink: false };
const DIR: EntryKind = EntryKind { is_dir: true, is_file: false, is_symlink: false };
const LINK: EntryKind = EntryKind { is_dir: false, is_file: false, is_symlink: true };

#[test]
fn letters_name_types() {
    let all = EntryType::value_variants();
    assert_eq!(all, vec![EntryType::Dir, EntryType::File, EntryType::Link]);
    for t in all {
        assert_eq!(EntryType::from_letter(t.letter()), Some(t));
    }
    assert_eq!(EntryType::Dir.letter(), 'd');
    assert_eq!(EntryType::from_letter('x'), None);
}

#[test]
fn no_filters_select_everything() {
    assert!(is_selected(&vec![], &vec![], "a.txt", FILE));
    assert!(is_selected(&vec![], &vec![], "dir", DIR));
}

#[test]
fn names_filter_by_regex() {
    let names = vec![Pattern::new(r"\.csv$", false).unwrap(), Pattern::new("^a", false).unwrap()];
    assert!(is_selected(&names, &vec![], "b.csv", FILE));
    assert!(is_selected(&names, &vec![], "a.txt", FILE));
    assert!(!is_selected(&names, &vec![], "b.txt", FILE));
    assert!(!is_selected(&names, &vec![], "b.CSV", FILE));
}

#[test]
fn types_filter_by_kind() {
    let types = vec![EntryType::Dir, EntryType::Link];
    assert!(is_selected(&vec![], &types, "x", DIR));
    assert!(is_selected(&vec![], &types, "x", LINK));
    assert!(!is_selected(&vec![], &types, "x", FILE));
    assert!(any_type_matches(&vec![EntryType::File], FILE));
    assert!(!any_type_matches(&vec![], FILE));
}

#[test]
fn both_filters_must_pass() {
    let names = vec![Pattern::new("a", false).unwrap()];
    let types = vec![EntryType::File];
    assert!(is_selected(&names, &types, "a", FILE));
    assert!(!is_selected(&names, &types, "a", DIR));
    assert!(!is_selected(&names, &types, "b", FILE));
    assert!(passes_filters(false, false, &types, FILE));
    assert!(!passes_filters(true, false, &types, FILE));
}
