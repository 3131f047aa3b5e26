//! `cat`: copying lines, optionally numbered.
use vstd::prelude::*;
use crate::text::{decimal, format_right_aligned, pad_left, push_char, push_str, right_aligned};

verus! {

/// How lines are numbered.
#[derive(Debug, Clone, Copy, PartialEq, Eq, Structural)]
pub enum Numbering {
    /// Lines are copied as they are.
    Off,
    /// Every line is numbered (`-n`).
    All,
    /// Lines that are not empty are numbered (`-b`); empty lines are
    /// copied and take no number.
    NonBlank,
}

/// The numbering that the two flags ask for; `-n` wins over `-b`.
pub open spec fn numbering_spec(number_lines: bool, number_nonblank_lines: bool) -> Numbering {
    if number_lines {
        Numbering::All
    } else if number_nonblank_lines {
        Numbering::NonBlank
    } else {
        Numbering::Off
    }
}

/// The numbering that the flags `-n` and `-b` ask for.
pub fn numbering(number_lines: bool, number_nonblank_lines: bool) -> (m: Numbering)
    ensures
        m == numbering_spec(number_lines, number_nonblank_lines),
{
    if number_lines {
        Numbering::All
    } else if number_nonblank_lines {
        Numbering::NonBlank
    } else {
        Numbering::Off
    }
}

/// `-n` alone asks for every line to be numbered and wins over `-b`;
/// `-b` alone asks for the non-empty lines; neither leaves lines as they
/// are. Under `-n` every line takes a number, under `-b` exactly the
/// non-empty ones, and otherwise none.
pub proof fn law_numbering_flags(number_lines: bool, number_nonblank_lines: bool, line: Seq<char>)
    ensures
        number_lines ==> numbering_spec(number_lines, number_nonblank_lines) == Numbering::All,
        !number_lines && number_nonblank_lines ==> numbering_spec(
            number_lines,
            number_nonblank_lines,
        ) == Numbering::NonBlank,
        !number_lines && !number_nonblank_lines ==> numbering_spec(
            number_lines,
            number_nonblank_lines,
        ) == Numbering::Off,
        takes_number(Numbering::All, line),
        takes_number(Numbering::NonBlank, line) == (line.len() > 0),
        !takes_number(Numbering::Off, line),
{
}

/// A numbered line is its number right-aligned in six characters, a tab
/// and the line, and uses up one number; a line that takes no number is
/// printed as it is and leaves the number unchanged.
pub proof fn law_render_line(mode: Numbering, n: nat, line: Seq<char>)
    ensures
        takes_number(mode, line) ==> render_spec(mode, n, line) == pad_left(decimal(n), 6)
            + seq!['\t'] + line,
        takes_number(mode, line) ==> next_number(mode, n, line) == n + 1,
        !takes_number(mode, line) ==> render_spec(mode, n, line) == line,
        !takes_number(mode, line) ==> next_number(mode, n, line) == n,
{
}

/// The width of the number column.
pub const NUMBER_WIDTH: usize = 6;

/// A line with the number `n`: the number right-aligned in six
/// characters, a tab, then the line.
pub open spec fn numbered_line(n: nat, line: Seq<char>) -> Seq<char> {
    right_aligned(n, NUMBER_WIDTH as nat) + seq!['\t'] + line
}

/// Whether `line` takes a number under `mode`.
pub open spec fn takes_number(mode: Numbering, line: Seq<char>) -> bool {
    match mode {
        Numbering::Off => false,
        Numbering::All => true,
        Numbering::NonBlank => line.len() > 0,
    }
}

/// What is printed for `line` when the next number is `n`.
pub open spec fn render_spec(mode: Numbering, n: nat, line: Seq<char>) -> Seq<char> {
    if takes_number(mode, line) {
        numbered_line(n, line)
    } else {
        line
    }
}

/// The number after `line` has been printed with the next number `n`.
pub open spec fn next_number(mode: Numbering, n: nat, line: Seq<char>) -> nat {
    if takes_number(mode, line) {
        n + 1
    } else {
        n
    }
}

/// What is printed for the lines `lines` when the next number is `n`.
pub open spec fn render_all(mode: Numbering, n: nat, lines: Seq<Seq<char>>) -> Seq<Seq<char>>
    decreases lines.len(),
{
    if lines.len() == 0 {
        seq![]
    } else {
        seq![render_spec(mode, n, lines[0])] + render_all(
            mode,
            next_number(mode, n, lines[0]),
            lines.drop_first(),
        )
    }
}

/// The number of lines of `lines` that take a number under `mode`.
pub open spec fn numbered_count(mode: Numbering, lines: Seq<Seq<char>>) -> nat
    decreases lines.len(),
{
    if lines.len() == 0 {
        0
    } else {
        numbered_count(mode, lines.drop_last()) + if takes_number(mode, lines.last()) {
            1nat
        } else {
            0nat
        }
    }
}

/// The state of numbering through one input.
pub struct LineNumberer {
    pub mode: Numbering,
    /// The number that the next numbered line takes.
    pub next: u64,
}

impl LineNumberer {
    /// Numbering from 1.
    pub fn new(mode: Numbering) -> (r: LineNumberer)
        ensures
            r.mode == mode,
            r.next == 1,
    {
        LineNumberer { mode, next: 1 }
    }

    /// What is printed for the next line `line` (without its line break);
    /// advances the number when the line takes one.
    pub fn render(&mut self, line: &str) -> (out: String)
        requires
            old(self).next < u64::MAX,
        ensures
            final(self).mode == old(self).mode,
            out@ == render_spec(old(self).mode, old(self).next as nat, line@),
            final(self).next == next_number(old(self).mode, old(self).next as nat, line@),
    {
        let numbered = match self.mode {
            Numbering::Off => false,
            Numbering::All => true,
            Numbering::NonBlank => !line.is_empty(),
        };
        if numbered {
            let mut out = format_right_aligned(self.next, NUMBER_WIDTH);
            push_char(&mut out, '\t');
            push_str(&mut out, line);
            self.next = self.next + 1;
            out
        } else {
            let mut out = String::new();
            push_str(&mut out, line);
            out
        }
    }
}

/// Rendering the lines of an input one at a time, each with the number
/// that the earlier lines left, gives each line the number one more than
/// the count of earlier numbered lines: with `-n` the line at index `i`
/// has the number `i + 1`; with `-b` empty lines have none and the others
/// are numbered 1, 2, 3, … in order.
pub proof fn law_numbering(mode: Numbering, lines: Seq<Seq<char>>, i: int)
    requires
        0 <= i < lines.len(),
    ensures
        render_all(mode, 1, lines).len() == lines.len(),
        render_all(mode, 1, lines)[i] == render_spec(
            mode,
            1 + numbered_count(mode, lines.take(i)),
            lines[i],
        ),
        mode == Numbering::All ==> render_all(mode, 1, lines)[i] == numbered_line(
            (i + 1) as nat,
            lines[i],
        ),
{
    lemma_render_all(mode, 1, lines, i);
    if mode == Numbering::All {
        lemma_all_count(lines.take(i));
    }
}

proof fn lemma_all_count(lines: Seq<Seq<char>>)
    ensures
        numbered_count(Numbering::All, lines) == lines.len(),
    decreases lines.len(),
{
    if lines.len() > 0 {
        lemma_all_count(lines.drop_last());
    }
}

proof fn lemma_count_prepend(mode: Numbering, x: Seq<char>, rest: Seq<Seq<char>>)
    ensures
        numbered_count(mode, seq![x] + rest) == numbered_count(mode, rest) + if takes_number(
            mode,
            x,
        ) {
            1nat
        } else {
            0nat
        },
    decreases rest.len(),
{
    if rest.len() == 0 {
        assert((seq![x] + rest).drop_last() =~= Seq::<Seq<char>>::empty());
        assert((seq![x] + rest).last() == x);
        assert(numbered_count(mode, Seq::<Seq<char>>::empty()) == 0);
    } else {
        lemma_count_prepend(mode, x, rest.drop_last());
        assert((seq![x] + rest).drop_last() =~= seq![x] + rest.drop_last());
        assert((seq![x] + rest).last() == rest.last());
    }
}

proof fn lemma_render_all(mode: Numbering, n: nat, lines: Seq<Seq<char>>, i: int)
    requires
        0 <= i < lines.len(),
    ensures
        render_all(mode, n, lines).len() == lines.len(),
        render_all(mode, n, lines)[i] == render_spec(
            mode,
            n + numbered_count(mode, lines.take(i)),
            lines[i],
        ),
    decreases lines.len(),
{
    lemma_render_len(mode, n, lines);
    if i == 0 {
        assert(lines.take(0) =~= Seq::<Seq<char>>::empty());
    } else {
        let rest = lines.drop_first();
        let n2 = next_number(mode, n, lines[0]);
        lemma_render_all(mode, n2, rest, i - 1);
        assert(lines.take(i) =~= seq![lines[0]] + rest.take(i - 1));
        lemma_count_prepend(mode, lines[0], rest.take(i - 1));
    }
}

proof fn lemma_render_len(mode: Numbering, n: nat, lines: Seq<Seq<char>>)
    ensures
        render_all(mode, n, lines).len() == lines.len(),
    decreases lines.len(),
{
    if lines.len() > 0 {
        lemma_render_len(mode, next_number(mode, n, lines[0]), lines.drop_first());
    }
}

} // verus!
