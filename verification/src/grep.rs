//! `grep`: choosing the inputs to search and the lines that match.
use vstd::prelude::*;
use crate::find::EntryKind;
use crate::pattern::{pattern_matches, Pattern};
use crate::text::{decimal, decimal_digits, is_dash, is_stdin_name, push_char, push_chars, push_str, views};

verus! {

/// What the file system says of a path named on the command line.
#[derive(Debug)]
pub enum PathInfo {
    Dir,
    File,
    /// Neither a directory nor a regular file.
    Other,
    /// The path could not be looked up; the text of the error.
    Error(String),
}

/// What is done with a path named on the command line.
#[derive(Debug)]
pub enum PathAction {
    /// Search this input.
    Search(String),
    /// Search every regular file below this directory.
    Walk,
    /// Report this error.
    Fail(String),
    /// Leave the path out.
    Ignore,
}

/// The spec view of a `PathAction`.
pub enum PathActionView {
    Search(Seq<char>),
    Walk,
    Fail(Seq<char>),
    Ignore,
}

/// The view of `a`.
pub open spec fn action_view(a: PathAction) -> PathActionView {
    match a {
        PathAction::Search(s) => PathActionView::Search(s@),
        PathAction::Walk => PathActionView::Walk,
        PathAction::Fail(s) => PathActionView::Fail(s@),
        PathAction::Ignore => PathActionView::Ignore,
    }
}

/// The text ` is a directory`.
pub open spec fn is_a_directory() -> Seq<char> {
    seq![' ', 'i', 's', ' ', 'a', ' ', 'd', 'i', 'r', 'e', 'c', 't', 'o', 'r', 'y']
}

/// What is done with `path`: standard input is searched; a directory is
/// walked when searching recursively and an error otherwise; a regular
/// file is searched; anything else is left out; a path that cannot be
/// looked up is reported as `path: error`.
pub open spec fn resolve_spec(path: Seq<char>, info: PathInfo, recursive: bool) -> PathActionView {
    if is_stdin_name(path) {
        PathActionView::Search(path)
    } else {
        match info {
            PathInfo::Dir => if recursive {
                PathActionView::Walk
            } else {
                PathActionView::Fail(path + is_a_directory())
            },
            PathInfo::File => PathActionView::Search(path),
            PathInfo::Other => PathActionView::Ignore,
            PathInfo::Error(e) => PathActionView::Fail(path + seq![':', ' '] + e@),
        }
    }
}

/// What becomes of each path named on the command line: `-` is always
/// searched; a regular file is always searched, with or without `-r`; a
/// directory is walked under `-r` and refused with `path is a directory`
/// otherwise; a path that cannot be looked up is refused with
/// `path: error`; anything else is left out. The recursive flag changes
/// only what happens to directories.
pub proof fn law_resolve(path: Seq<char>, info: PathInfo, recursive: bool)
    ensures
        is_stdin_name(path) ==> resolve_spec(path, info, recursive) == PathActionView::Search(path),
        !is_stdin_name(path) ==> match info {
            PathInfo::File => resolve_spec(path, info, recursive) == PathActionView::Search(path),
            PathInfo::Dir => resolve_spec(path, info, recursive) == if recursive {
                PathActionView::Walk
            } else {
                PathActionView::Fail(path + is_a_directory())
            },
            PathInfo::Other => resolve_spec(path, info, recursive) == PathActionView::Ignore,
            PathInfo::Error(e) => resolve_spec(path, info, recursive) == PathActionView::Fail(
                path + seq![':', ' '] + e@,
            ),
        },
        !(info is Dir) ==> resolve_spec(path, info, true) == resolve_spec(path, info, false),
{
}

/// Decides what is done with `path`, given what the file system says of
/// it (which is not consulted for `-`).
pub fn resolve_path(path: &str, info: &PathInfo, recursive: bool) -> (a: PathAction)
    ensures
        action_view(a) == resolve_spec(path@, *info, recursive),
{
    let mut named = String::new();
    push_str(&mut named, path);
    if is_dash(path) {
        return PathAction::Search(named);
    }
    match info {
        PathInfo::Dir => {
            if recursive {
                PathAction::Walk
            } else {
                push_char(&mut named, ' ');
                push_char(&mut named, 'i');
                push_char(&mut named, 's');
                push_char(&mut named, ' ');
                push_char(&mut named, 'a');
                push_char(&mut named, ' ');
                push_char(&mut named, 'd');
                push_char(&mut named, 'i');
                push_char(&mut named, 'r');
                push_char(&mut named, 'e');
                push_char(&mut named, 'c');
                push_char(&mut named, 't');
                push_char(&mut named, 'o');
                push_char(&mut named, 'r');
                push_char(&mut named, 'y');
                assert(named@ =~= path@ + is_a_directory());
                PathAction::Fail(named)
            }
        },
        PathInfo::File => PathAction::Search(named),
        PathInfo::Other => PathAction::Ignore,
        PathInfo::Error(e) => {
            push_char(&mut named, ':');
            push_char(&mut named, ' ');
            push_str(&mut named, e.as_str());
            assert(named@ =~= path@ + seq![':', ' '] + e@);
            PathAction::Fail(named)
        },
    }
}

/// The paths and kinds of the entries `es`, as their texts and kinds.
pub open spec fn entry_views(es: Seq<(String, EntryKind)>) -> Seq<(Seq<char>, EntryKind)> {
    es.map_values(|e: (String, EntryKind)| (e.0@, e.1))
}

/// The paths of the regular files among the entries `es`, in order.
pub open spec fn regular_files(es: Seq<(Seq<char>, EntryKind)>) -> Seq<Seq<char>>
    decreases es.len(),
{
    if es.len() == 0 {
        seq![]
    } else if es.last().1.is_file {
        regular_files(es.drop_last()).push(es.last().0)
    } else {
        regular_files(es.drop_last())
    }
}

/// The inputs that a recursive search takes from the entries found below
/// a directory: the regular files, in the order they were found.
pub fn walked_files(entries: &Vec<(String, EntryKind)>) -> (r: Vec<String>)
    ensures
        views(r@) == regular_files(entry_views(entries@)),
{
    let ghost es = entry_views(entries@);
    let mut r: Vec<String> = Vec::new();
    let mut i: usize = 0;
    while i < entries.len()
        invariant
            i <= entries@.len(),
            es == entry_views(entries@),
            views(r@) == regular_files(es.take(i as int)),
        decreases entries@.len() - i,
    {
        assert(es.take(i + 1).drop_last() =~= es.take(i as int));
        assert(es.take(i + 1).last() == (entries@[i as int].0@, entries@[i as int].1));
        if entries[i].1.is_file {
            let mut path = String::new();
            push_str(&mut path, entries[i].0.as_str());
            let ghost before = r@;
            r.push(path);
            assert(views(r@) =~= views(before).push(entries@[i as int].0@));
        }
        i = i + 1;
    }
    assert(es.take(entries@.len() as int) =~= es);
    r
}

/// The lines of `lines` whose mark differs from `invert`, in order.
pub open spec fn keep_marked(lines: Seq<Seq<char>>, marks: Seq<bool>, invert: bool) -> Seq<Seq<char>>
    decreases lines.len(),
{
    if lines.len() == 0 || marks.len() == 0 {
        seq![]
    } else if marks.last() != invert {
        keep_marked(lines.drop_last(), marks.drop_last(), invert).push(lines.last())
    } else {
        keep_marked(lines.drop_last(), marks.drop_last(), invert)
    }
}

/// Selecting with and without `-v` splits the lines in two: each line is
/// kept by exactly one of the two selections.
pub proof fn law_invert_partitions(lines: Seq<Seq<char>>, marks: Seq<bool>)
    requires
        marks.len() == lines.len(),
    ensures
        keep_marked(lines, marks, false).len() + keep_marked(lines, marks, true).len()
            == lines.len(),
    decreases lines.len(),
{
    if lines.len() > 0 {
        law_invert_partitions(lines.drop_last(), marks.drop_last());
    }
}

/// Selection goes line by line: a line is kept exactly when its mark
/// differs from `invert` (with `invert` off, exactly the lines the pattern
/// matched), and the lines of two stretches are kept as each stretch is.
pub proof fn law_keep_marked(
    l1: Seq<Seq<char>>,
    m1: Seq<bool>,
    l2: Seq<Seq<char>>,
    m2: Seq<bool>,
    x: Seq<char>,
    mark: bool,
    invert: bool,
)
    requires
        l1.len() == m1.len(),
        l2.len() == m2.len(),
    ensures
        keep_marked(seq![x], seq![mark], invert) == if mark != invert {
            seq![x]
        } else {
            Seq::<Seq<char>>::empty()
        },
        keep_marked(Seq::<Seq<char>>::empty(), Seq::<bool>::empty(), invert).len() == 0,
        keep_marked(l1 + l2, m1 + m2, invert) == keep_marked(l1, m1, invert) + keep_marked(
            l2,
            m2,
            invert,
        ),
    decreases l2.len(),
{
    let one = seq![x];
    assert(one.drop_last() =~= Seq::<Seq<char>>::empty());
    assert(seq![mark].drop_last() =~= Seq::<bool>::empty());
    assert(keep_marked(Seq::<Seq<char>>::empty(), Seq::<bool>::empty(), invert) =~= Seq::<
        Seq<char>,
    >::empty());
    if mark != invert {
        assert(Seq::<Seq<char>>::empty().push(x) =~= one);
    }
    if l2.len() == 0 {
        assert(l1 + l2 =~= l1);
        assert(m1 + m2 =~= m1);
        assert(keep_marked(l2, m2, invert) =~= Seq::<Seq<char>>::empty());
        assert(keep_marked(l1, m1, invert) + keep_marked(l2, m2, invert) =~= keep_marked(
            l1,
            m1,
            invert,
        ));
    } else {
        law_keep_marked(l1, m1, l2.drop_last(), m2.drop_last(), x, mark, invert);
        assert((l1 + l2).drop_last() =~= l1 + l2.drop_last());
        assert((m1 + m2).drop_last() =~= m1 + m2.drop_last());
        assert((l1 + l2).last() == l2.last());
        assert((m1 + m2).last() == m2.last());
        let k1 = keep_marked(l1, m1, invert);
        let k2 = keep_marked(l2.drop_last(), m2.drop_last(), invert);
        assert((k1 + k2).push(l2.last()) =~= k1 + k2.push(l2.last()));
    }
}

/// Whether the pattern `p` matches each line of `lines`.
pub open spec fn match_marks(p: (Seq<char>, bool), lines: Seq<Seq<char>>) -> Seq<bool> {
    lines.map_values(|l: Seq<char>| pattern_matches(p, l))
}

/// The lines whose mark (whether the pattern matched them) differs from
/// `invert`: the matching lines, or with `invert` the others.
pub fn select_marked(lines: &Vec<String>, marks: &Vec<bool>, invert: bool) -> (r: Vec<String>)
    requires
        marks@.len() == lines@.len(),
    ensures
        views(r@) == keep_marked(views(lines@), marks@, invert),
{
    let mut r: Vec<String> = Vec::new();
    let mut i: usize = 0;
    while i < lines.len()
        invariant
            i <= lines@.len(),
            marks@.len() == lines@.len(),
            views(r@) == keep_marked(views(lines@).take(i as int), marks@.take(i as int), invert),
        decreases lines@.len() - i,
    {
        let ghost pre_l = views(lines@).take(i as int);
        let ghost pre_m = marks@.take(i as int);
        assert(views(lines@).take(i + 1).drop_last() =~= pre_l);
        assert(marks@.take(i + 1).drop_last() =~= pre_m);
        if marks[i] != invert {
            let mut copy = String::new();
            push_str(&mut copy, lines[i].as_str());
            r.push(copy);
            assert(views(r@) =~= keep_marked(pre_l, pre_m, invert).push(lines@[i as int]@));
        } else {
            assert(views(r@) =~= keep_marked(pre_l, pre_m, invert));
        }
        i = i + 1;
    }
    assert(views(lines@).take(lines@.len() as int) =~= views(lines@));
    assert(marks@.take(lines@.len() as int) =~= marks@);
    r
}

/// The lines that `pattern` matches, or with `invert` the lines it does
/// not match, in order.
pub fn find_lines(lines: &Vec<String>, pattern: &Pattern, invert: bool) -> (r: Vec<String>)
    ensures
        views(r@) == keep_marked(views(lines@), match_marks(pattern@, views(lines@)), invert),
{
    let mut marks: Vec<bool> = Vec::new();
    let mut i: usize = 0;
    while i < lines.len()
        invariant
            i <= lines@.len(),
            marks@ == match_marks(pattern@, views(lines@)).take(i as int),
        decreases lines@.len() - i,
    {
        let m = pattern.is_match(lines[i].as_str());
        marks.push(m);
        assert(marks@ =~= match_marks(pattern@, views(lines@)).take(i + 1));
        i = i + 1;
    }
    assert(marks@ =~= match_marks(pattern@, views(lines@)));
    select_marked(lines, &marks, invert)
}

/// Whether each output line is prefixed with its input's name: when
/// there are several inputs or the search is recursive.
pub fn uses_prefix(num_files: usize, recursive: bool) -> (b: bool)
    ensures
        b == (num_files > 1 || recursive),
{
    num_files > 1 || recursive
}

/// The prefix before output lines: the input's name and a colon, or
/// nothing.
pub open spec fn prefix_text(filename: Seq<char>, with_prefix: bool) -> Seq<char> {
    if with_prefix {
        filename + seq![':']
    } else {
        seq![]
    }
}

/// The lines `ms`, each after `prefix`, one after the other.
pub open spec fn prefixed_lines(prefix: Seq<char>, ms: Seq<Seq<char>>) -> Seq<char>
    decreases ms.len(),
{
    if ms.len() == 0 {
        seq![]
    } else {
        prefixed_lines(prefix, ms.drop_last()) + prefix + ms.last()
    }
}

/// The printed lines are the selected lines in order, each after the
/// prefix: one line prints as the prefix and the line, and two stretches
/// print one after the other.
pub proof fn law_prefixed_lines(prefix: Seq<char>, a: Seq<Seq<char>>, b: Seq<Seq<char>>, x: Seq<char>)
    ensures
        prefixed_lines(prefix, seq![x]) == prefix + x,
        prefixed_lines(prefix, Seq::<Seq<char>>::empty()).len() == 0,
        prefixed_lines(prefix, a + b) == prefixed_lines(prefix, a) + prefixed_lines(prefix, b),
    decreases b.len(),
{
    assert(seq![x].drop_last() =~= Seq::<Seq<char>>::empty());
    assert(prefixed_lines(prefix, Seq::<Seq<char>>::empty()) =~= Seq::<char>::empty());
    assert(prefixed_lines(prefix, seq![x]) =~= prefix + x);
    if b.len() == 0 {
        assert(a + b =~= a);
        assert(prefixed_lines(prefix, a) + prefixed_lines(prefix, b) =~= prefixed_lines(prefix, a));
    } else {
        law_prefixed_lines(prefix, a, b.drop_last(), x);
        assert((a + b).drop_last() =~= a + b.drop_last());
        assert((a + b).last() == b.last());
        assert(prefixed_lines(prefix, a + b) =~= prefixed_lines(prefix, a) + prefixed_lines(
            prefix,
            b,
        ));
    }
}

/// What is printed for one input: with `count_only`, the prefix, the
/// number of selected lines and a line break; otherwise each selected
/// line (line terminator included) after the prefix.
pub open spec fn report_spec(
    filename: Seq<char>,
    with_prefix: bool,
    count_only: bool,
    ms: Seq<Seq<char>>,
) -> Seq<char> {
    if count_only {
        prefix_text(filename, with_prefix) + decimal(ms.len()) + seq!['\n']
    } else {
        prefixed_lines(prefix_text(filename, with_prefix), ms)
    }
}

/// The output for the input `filename` whose selected lines are `matches`.
pub fn format_report(
    filename: &str,
    with_prefix: bool,
    count_only: bool,
    matches: &Vec<String>,
) -> (s: String)
    ensures
        s@ == report_spec(filename@, with_prefix, count_only, views(matches@)),
{
    let mut prefix = String::new();
    if with_prefix {
        push_str(&mut prefix, filename);
        push_char(&mut prefix, ':');
    }
    assert(prefix@ =~= prefix_text(filename@, with_prefix));
    let mut s = String::new();
    if count_only {
        push_str(&mut s, prefix.as_str());
        let digits = decimal_digits(matches.len() as u64);
        push_chars(&mut s, digits.as_slice());
        push_char(&mut s, '\n');
        assert(s@ =~= report_spec(filename@, with_prefix, count_only, views(matches@)));
    } else {
        let mut i: usize = 0;
        while i < matches.len()
            invariant
                i <= matches@.len(),
                prefix@ == prefix_text(filename@, with_prefix),
                s@ == prefixed_lines(prefix@, views(matches@).take(i as int)),
            decreases matches@.len() - i,
        {
            push_str(&mut s, prefix.as_str());
            push_str(&mut s, matches[i].as_str());
            assert(views(matches@).take(i + 1).drop_last() =~= views(matches@).take(i as int));
            i = i + 1;
        }
        assert(views(matches@).take(matches@.len() as int) =~= views(matches@));
    }
    s
}

} // verus!
