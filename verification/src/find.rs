//! `find`: selecting directory entries by name and by type.
use vstd::prelude::*;
use crate::pattern::{pattern_matches, Pattern};

verus! {

/// The kinds of entry that `-t` selects: `d`, `f` and `l`.
#[derive(Debug, Clone, Copy, PartialEq, Eq, Structural)]
pub enum EntryType {
    Dir,
    File,
    Link,
}

/// The letter that names an entry type on the command line.
pub open spec fn type_letter(t: EntryType) -> char {
    match t {
        EntryType::Dir => 'd',
        EntryType::File => 'f',
        EntryType::Link => 'l',
    }
}

/// The type that the letter `c` names, if any.
pub open spec fn letter_type(c: char) -> Option<EntryType> {
    if c == 'd' {
        Some(EntryType::Dir)
    } else if c == 'f' {
        Some(EntryType::File)
    } else if c == 'l' {
        Some(EntryType::Link)
    } else {
        None
    }
}

impl EntryType {
    /// The entry types, in the order they are offered.
    pub fn value_variants() -> (v: Vec<EntryType>)
        ensures
            v@ == seq![EntryType::Dir, EntryType::File, EntryType::Link],
    {
        let mut v = Vec::new();
        v.push(EntryType::Dir);
        v.push(EntryType::File);
        v.push(EntryType::Link);
        v
    }

    /// The letter that names this type.
    pub fn letter(&self) -> (c: char)
        ensures
            c == type_letter(*self),
    {
        match self {
            EntryType::Dir => 'd',
            EntryType::File => 'f',
            EntryType::Link => 'l',
        }
    }

    /// The type that the letter `c` names, if any.
    pub fn from_letter(c: char) -> (t: Option<EntryType>)
        ensures
            t == letter_type(c),
    {
        if c == 'd' {
            Some(EntryType::Dir)
        } else if c == 'f' {
            Some(EntryType::File)
        } else if c == 'l' {
            Some(EntryType::Link)
        } else {
            None
        }
    }
}

/// Reading a type's letter back gives the type, and every letter that
/// names a type is the letter of that type.
pub proof fn law_letter_roundtrip(t: EntryType, c: char)
    ensures
        letter_type(type_letter(t)) == Some(t),
        letter_type(c) matches Some(u) ==> type_letter(u) == c,
{
}

/// What the file system says an entry is.
#[derive(Debug, Clone, Copy, PartialEq, Eq, Structural)]
pub struct EntryKind {
    pub is_dir: bool,
    pub is_file: bool,
    pub is_symlink: bool,
}

/// Whether an entry of kind `k` is of type `t`.
pub open spec fn type_matches(t: EntryType, k: EntryKind) -> bool {
    match t {
        EntryType::Dir => k.is_dir,
        EntryType::File => k.is_file,
        EntryType::Link => k.is_symlink,
    }
}

/// Whether some pattern of `names` matches `name`.
pub open spec fn some_name_matches(names: Seq<(Seq<char>, bool)>, name: Seq<char>) -> bool {
    exists|i: int| 0 <= i < names.len() && pattern_matches(#[trigger] names[i], name)
}

/// Whether some type of `types` is the kind `k`.
pub open spec fn some_type_matches(types: Seq<EntryType>, k: EntryKind) -> bool {
    exists|i: int| 0 <= i < types.len() && type_matches(#[trigger] types[i], k)
}

/// The patterns of `names` as their sources and flags.
pub open spec fn pattern_views(names: Seq<Pattern>) -> Seq<(Seq<char>, bool)> {
    names.map_values(|p: Pattern| p@)
}

/// Whether an entry is printed: with names given, one of them must match
/// the entry's file name; with types given, the entry must be one of them.
pub open spec fn selected(
    names: Seq<(Seq<char>, bool)>,
    types: Seq<EntryType>,
    file_name: Seq<char>,
    kind: EntryKind,
) -> bool {
    &&& (names.len() == 0 || some_name_matches(names, file_name))
    &&& (types.len() == 0 || some_type_matches(types, kind))
}

/// Whether some pattern of `names` matches `file_name`.
pub fn any_name_matches(names: &Vec<Pattern>, file_name: &str) -> (b: bool)
    ensures
        b == some_name_matches(pattern_views(names@), file_name@),
{
    let ghost views = pattern_views(names@);
    let mut i: usize = 0;
    while i < names.len()
        invariant
            i <= names@.len(),
            views == pattern_views(names@),
            forall|k: int| 0 <= k < i ==> !pattern_matches(#[trigger] views[k], file_name@),
        decreases names@.len() - i,
    {
        if names[i].is_match(file_name) {
            assert(pattern_matches(views[i as int], file_name@));
            return true;
        }
        i = i + 1;
    }
    false
}

/// Whether some type of `types` is the kind `kind`.
pub fn any_type_matches(types: &Vec<EntryType>, kind: EntryKind) -> (b: bool)
    ensures
        b == some_type_matches(types@, kind),
{
    let mut i: usize = 0;
    while i < types.len()
        invariant
            i <= types@.len(),
            forall|k: int| 0 <= k < i ==> !type_matches(#[trigger] types@[k], kind),
        decreases types@.len() - i,
    {
        let hit = match types[i] {
            EntryType::Dir => kind.is_dir,
            EntryType::File => kind.is_file,
            EntryType::Link => kind.is_symlink,
        };
        if hit {
            return true;
        }
        i = i + 1;
    }
    false
}

/// Whether an entry passes the filters, given whether names were given
/// and, if so, whether one of them matched the file name.
pub fn passes_filters(
    names_given: bool,
    name_matched: bool,
    types: &Vec<EntryType>,
    kind: EntryKind,
) -> (b: bool)
    ensures
        b == ((!names_given || name_matched) && (types@.len() == 0 || some_type_matches(
            types@,
            kind,
        ))),
{
    if names_given && !name_matched {
        return false;
    }
    types.len() == 0 || any_type_matches(types, kind)
}

/// Whether the entry whose file name is `file_name` and whose kind is
/// `kind` is printed.
pub fn is_selected(
    names: &Vec<Pattern>,
    types: &Vec<EntryType>,
    file_name: &str,
    kind: EntryKind,
) -> (b: bool)
    ensures
        b == selected(pattern_views(names@), types@, file_name@, kind),
{
    let names_given = names.len() > 0;
    let name_matched = names_given && any_name_matches(names, file_name);
    passes_filters(names_given, name_matched, types, kind)
}

} // verus!
