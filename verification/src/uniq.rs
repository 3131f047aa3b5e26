//! `uniq`: collapsing runs of adjacent equal lines.
use vstd::prelude::*;
use crate::text::{
    decimal, is_space, pad_left,
    chars_of, format_right_aligned, is_space_char, opt_text, push_char, push_str, right_aligned,
    trim_end,
};

verus! {

broadcast use vstd::string::group_string_axioms;

/// The text under which lines are compared: the line without its
/// trailing whitespace, line terminator included.
pub open spec fn key(line: Seq<char>) -> Seq<char> {
    trim_end(line)
}

/// The width of the count column.
pub const COUNT_WIDTH: usize = 4;

/// What is printed for a run of `count` lines whose first line is `text`:
/// nothing for an empty run; with counts, the count right-aligned in four
/// characters, a space and the text; otherwise the text alone.
pub open spec fn group_text(show_count: bool, count: nat, text: Seq<char>) -> Option<Seq<char>> {
    if count == 0 {
        None
    } else if show_count {
        Some(right_aligned(count, COUNT_WIDTH as nat) + seq![' '] + text)
    } else {
        Some(text)
    }
}

/// A run prints only when it holds lines; with counts it prints its
/// count right-aligned in four characters, a space and its first line,
/// and otherwise its first line alone.
pub proof fn law_group_text(show_count: bool, count: nat, text: Seq<char>)
    ensures
        group_text(show_count, count, text) is None <==> count == 0,
        count > 0 && show_count ==> group_text(show_count, count, text) == Some(
            pad_left(decimal(count), 4) + seq![' '] + text,
        ),
        count > 0 && !show_count ==> group_text(show_count, count, text) == Some(text),
{
}

/// The runs that the lines `lines` form, each as its first line and its
/// length, when the run in progress starts with `first` and holds `count`
/// lines; runs of no lines are left out.
pub open spec fn runs(first: Seq<char>, count: nat, lines: Seq<Seq<char>>) -> Seq<(Seq<char>, nat)>
    decreases lines.len(),
{
    if lines.len() == 0 {
        if count > 0 {
            seq![(first, count)]
        } else {
            seq![]
        }
    } else if key(lines[0]) != key(first) {
        (if count > 0 {
            seq![(first, count)]
        } else {
            seq![]
        }) + runs(lines[0], 1, lines.drop_first())
    } else {
        runs(first, count + 1, lines.drop_first())
    }
}

/// The runs of an input: its lines compared with an empty line before
/// the first, so that leading blank lines make a run whose text is empty.
pub open spec fn input_runs(lines: Seq<Seq<char>>) -> Seq<(Seq<char>, nat)> {
    runs(seq![], 0, lines)
}

/// The number of lines that the runs `rs` hold together.
pub open spec fn total_count(rs: Seq<(Seq<char>, nat)>) -> nat
    decreases rs.len(),
{
    if rs.len() == 0 {
        0
    } else {
        rs[0].1 + total_count(rs.drop_first())
    }
}

proof fn lemma_total_count_concat(a: Seq<(Seq<char>, nat)>, b: Seq<(Seq<char>, nat)>)
    ensures
        total_count(a + b) == total_count(a) + total_count(b),
    decreases a.len(),
{
    if a.len() == 0 {
        assert(a + b =~= b);
    } else {
        lemma_total_count_concat(a.drop_first(), b);
        assert((a + b).drop_first() =~= a.drop_first() + b);
    }
}

proof fn lemma_runs_count(first: Seq<char>, count: nat, lines: Seq<Seq<char>>)
    ensures
        total_count(runs(first, count, lines)) == count + lines.len(),
    decreases lines.len(),
{
    let single: Seq<(Seq<char>, nat)> = if count > 0 {
        seq![(first, count)]
    } else {
        seq![]
    };
    assert(total_count(single) == count) by {
        if count > 0 {
            assert(single.drop_first() =~= Seq::<(Seq<char>, nat)>::empty());
            assert(total_count(single.drop_first()) == 0);
            assert(single[0].1 == count);
        } else {
            assert(single.len() == 0);
        }
    }
    if lines.len() > 0 {
        if key(lines[0]) != key(first) {
            lemma_runs_count(lines[0], 1, lines.drop_first());
            lemma_total_count_concat(single, runs(lines[0], 1, lines.drop_first()));
        } else {
            lemma_runs_count(first, count + 1, lines.drop_first());
        }
    }
}

proof fn lemma_runs_first(first: Seq<char>, count: nat, lines: Seq<Seq<char>>)
    requires
        count > 0,
    ensures
        runs(first, count, lines).len() > 0,
        runs(first, count, lines)[0].0 == first,
    decreases lines.len(),
{
    if lines.len() > 0 && key(lines[0]) == key(first) {
        lemma_runs_first(first, count + 1, lines.drop_first());
    }
}

proof fn lemma_runs_shape(first: Seq<char>, count: nat, lines: Seq<Seq<char>>)
    ensures
        forall|i: int|
            0 <= i < runs(first, count, lines).len() ==> #[trigger] runs(first, count, lines)[i].1
                >= 1,
        forall|i: int|
            0 <= i < runs(first, count, lines).len() - 1 ==> key(
                #[trigger] runs(first, count, lines)[i].0,
            ) != key(runs(first, count, lines)[i + 1].0),
    decreases lines.len(),
{
    let r = runs(first, count, lines);
    let single: Seq<(Seq<char>, nat)> = if count > 0 {
        seq![(first, count)]
    } else {
        seq![]
    };
    if lines.len() > 0 {
        if key(lines[0]) != key(first) {
            let rest = runs(lines[0], 1, lines.drop_first());
            lemma_runs_shape(lines[0], 1, lines.drop_first());
            lemma_runs_first(lines[0], 1, lines.drop_first());
            assert(r == single + rest);
            assert forall|i: int| 0 <= i < r.len() - 1 implies key(#[trigger] r[i].0) != key(
                r[i + 1].0,
            ) by {
                if i >= single.len() {
                    assert(r[i] == rest[i - single.len()]);
                    assert(r[i + 1] == rest[i + 1 - single.len()]);
                } else {
                    assert(r[i] == (first, count));
                    assert(r[i + 1] == rest[0]);
                }
            }
            assert forall|i: int| 0 <= i < r.len() implies #[trigger] r[i].1 >= 1 by {
                if i >= single.len() {
                    assert(r[i] == rest[i - single.len()]);
                }
            }
        } else {
            let rest = runs(first, count + 1, lines.drop_first());
            lemma_runs_shape(first, count + 1, lines.drop_first());
            assert(r == rest);
            assert forall|i: int| 0 <= i < r.len() - 1 implies key(#[trigger] r[i].0) != key(
                r[i + 1].0,
            ) by {
                assert(r[i] == rest[i]);
            }
            assert forall|i: int| 0 <= i < r.len() implies #[trigger] r[i].1 >= 1 by {
                assert(r[i] == rest[i]);
            }
        }
    } else {
        assert(r == single);
        assert forall|i: int| 0 <= i < r.len() implies #[trigger] r[i].1 >= 1 by {
            assert(r[i] == (first, count));
        }
    }
}

/// What `uniq` promises of an input's runs: together they hold every
/// line exactly once (with `-c` the counts add up to the number of
/// lines), none is empty, and two adjacent runs never have the same key.
pub proof fn law_runs(lines: Seq<Seq<char>>)
    ensures
        total_count(input_runs(lines)) == lines.len(),
        forall|i: int|
            0 <= i < input_runs(lines).len() ==> #[trigger] input_runs(lines)[i].1 >= 1,
        forall|i: int|
            0 <= i < input_runs(lines).len() - 1 ==> key(#[trigger] input_runs(lines)[i].0) != key(
                input_runs(lines)[i + 1].0,
            ),
{
    lemma_runs_count(seq![], 0, lines);
    lemma_runs_shape(seq![], 0, lines);
}

/// Taking the next line continues the runs: a line with a new key closes
/// the run in progress (when it holds lines) and starts its own; a line
/// with the same key joins the run. `Uniq::push` makes these steps, and
/// `Uniq::finish` closes the last run.
pub proof fn law_push_continues_runs(
    first: Seq<char>,
    count: nat,
    line: Seq<char>,
    rest: Seq<Seq<char>>,
)
    ensures
        key(line) != key(first) ==> runs(first, count, seq![line] + rest) == (if count > 0 {
            seq![(first, count)]
        } else {
            seq![]
        }) + runs(line, 1, rest),
        key(line) == key(first) ==> runs(first, count, seq![line] + rest) == runs(
            first,
            count + 1,
            rest,
        ),
        runs(first, count, seq![]) == if count > 0 {
            seq![(first, count)]
        } else {
            seq![]
        },
{
    let lines = seq![line] + rest;
    assert(lines[0] == line);
    assert(lines.drop_first() =~= rest);
}

/// The key of a line is the line up to its last non-whitespace
/// character: a prefix of the line, followed only by whitespace, and
/// either empty or ending in a non-whitespace character. So two lines
/// fall in one run exactly when they agree up to their trailing
/// whitespace.
pub proof fn law_key(line: Seq<char>)
    ensures
        key(line).len() <= line.len(),
        key(line) == line.take(key(line).len() as int),
        forall|i: int| key(line).len() <= i < line.len() ==> is_space(#[trigger] line[i]),
        key(line).len() > 0 ==> !is_space(key(line).last()),
{
    lemma_trim_end_shape(line);
}

proof fn lemma_trim_end_shape(s: Seq<char>)
    ensures
        trim_end(s).len() <= s.len(),
        trim_end(s) == s.take(trim_end(s).len() as int),
        forall|i: int| trim_end(s).len() <= i < s.len() ==> is_space(#[trigger] s[i]),
        trim_end(s).len() > 0 ==> !is_space(trim_end(s).last()),
    decreases s.len(),
{
    if s.len() > 0 && is_space(s.last()) {
        let d = s.drop_last();
        lemma_trim_end_shape(d);
        let t = trim_end(d);
        assert(d.take(t.len() as int) =~= s.take(t.len() as int));
        assert forall|i: int| t.len() <= i < s.len() implies is_space(#[trigger] s[i]) by {
            if i < d.len() {
                assert(s[i] == d[i]);
            }
        }
    } else {
        assert(s.take(s.len() as int) =~= s);
    }
}

/// The state of collapsing one input.
pub struct Uniq {
    pub show_count: bool,
    /// The first line of the run in progress.
    pub previous: String,
    /// The number of lines in the run in progress.
    pub count: u64,
}

/// Whether `a` and `b` are equal once their trailing whitespace is removed.
fn same_key(a: &str, b: &str) -> (r: bool)
    ensures
        r == (key(a@) == key(b@)),
{
    let ca = chars_of(a);
    let cb = chars_of(b);
    let la = trimmed_len(&ca);
    let lb = trimmed_len(&cb);
    if la != lb {
        assert(key(a@).len() != key(b@).len());
        return false;
    }
    let mut i: usize = 0;
    while i < la
        invariant
            la == lb,
            la <= ca@.len(),
            lb <= cb@.len(),
            ca@.take(la as int) == key(a@),
            cb@.take(lb as int) == key(b@),
            i <= la,
            forall|k: int| 0 <= k < i ==> ca@[k] == cb@[k],
        decreases la - i,
    {
        if ca[i] != cb[i] {
            assert(key(a@)[i as int] != key(b@)[i as int]);
            return false;
        }
        i = i + 1;
    }
    assert(key(a@) =~= key(b@));
    true
}

proof fn lemma_trim_end_prefix(s: Seq<char>, n: int)
    requires
        0 <= n <= s.len(),
        forall|k: int| n <= k < s.len() ==> crate::text::is_space(#[trigger] s[k]),
    ensures
        trim_end(s) == trim_end(s.take(n)),
    decreases s.len() - n,
{
    if n < s.len() {
        assert(s.drop_last() =~= s.take(s.len() - 1));
        lemma_trim_end_prefix(s.take(s.len() - 1), n);
        assert(s.take(s.len() - 1).take(n) =~= s.take(n));
    } else {
        assert(s.take(n) =~= s);
    }
}

/// The length of `cs` without its trailing whitespace.
fn trimmed_len(cs: &Vec<char>) -> (n: usize)
    ensures
        n <= cs@.len(),
        cs@.take(n as int) == trim_end(cs@),
{
    let mut n = cs.len();
    while n > 0 && is_space_char(cs[n - 1])
        invariant
            n <= cs@.len(),
            forall|k: int| n <= k < cs@.len() ==> crate::text::is_space(#[trigger] cs@[k]),
        decreases n,
    {
        n = n - 1;
    }
    proof {
        lemma_trim_end_prefix(cs@, n as int);
        let t = cs@.take(n as int);
        if n > 0 {
            assert(t.last() == cs@[n - 1]);
        }
    }
    n
}

/// The text printed for a run.
pub fn format_group(show_count: bool, count: u64, text: &str) -> (r: Option<String>)
    ensures
        opt_text(r) == group_text(show_count, count as nat, text@),
{
    if count == 0 {
        None
    } else if show_count {
        let mut s = format_right_aligned(count, COUNT_WIDTH);
        push_char(&mut s, ' ');
        push_str(&mut s, text);
        Some(s)
    } else {
        let mut s = String::new();
        push_str(&mut s, text);
        Some(s)
    }
}

impl Uniq {
    /// Before the first line: an empty run whose text is empty.
    pub fn new(show_count: bool) -> (u: Uniq)
        ensures
            u.show_count == show_count,
            u.previous@ == Seq::<char>::empty(),
            u.count == 0,
    {
        Uniq { show_count, previous: String::new(), count: 0 }
    }

    /// Takes the next line, line terminator included. When it ends the
    /// run in progress, returns what is printed for that run and starts a
    /// run with `line`; otherwise the line joins the run.
    pub fn push(&mut self, line: &str) -> (out: Option<String>)
        requires
            old(self).count < u64::MAX,
        ensures
            final(self).show_count == old(self).show_count,
            key(line@) != key(old(self).previous@) ==> {
                &&& opt_text(out) == group_text(
                    old(self).show_count,
                    old(self).count as nat,
                    old(self).previous@,
                )
                &&& final(self).previous@ == line@
                &&& final(self).count == 1
            },
            key(line@) == key(old(self).previous@) ==> {
                &&& out is None
                &&& final(self).previous@ == old(self).previous@
                &&& final(self).count == old(self).count + 1
            },
    {
        if !same_key(line, self.previous.as_str()) {
            let out = format_group(self.show_count, self.count, self.previous.as_str());
            let mut next = String::new();
            push_str(&mut next, line);
            self.previous = next;
            self.count = 1;
            out
        } else {
            self.count = self.count + 1;
            None
        }
    }

    /// After the last line: what is printed for the run in progress.
    pub fn finish(&self) -> (out: Option<String>)
        ensures
            opt_text(out) == group_text(self.show_count, self.count as nat, self.previous@),
    {
        format_group(self.show_count, self.count, self.previous.as_str())
    }
}

} // verus!
