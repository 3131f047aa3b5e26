//! `wc`: counting lines, words, bytes and characters.
use vstd::prelude::*;
use vstd::utf8::encode_utf8;
use crate::text::{
    chars_of, format_right_aligned, is_dash, is_space, is_space_char, is_stdin_name, push_char,
    push_str, right_aligned,
};

verus! {

broadcast use vstd::string::group_string_axioms;

/// The four counts of one input.
#[derive(Debug, Clone, Copy, PartialEq, Eq, Structural)]
pub struct FileInfo {
    pub num_lines: usize,
    pub num_words: usize,
    pub num_bytes: usize,
    pub num_chars: usize,
}

/// The number of `'\n'` characters in `s`.
pub open spec fn newline_count(s: Seq<char>) -> nat
    decreases s.len(),
{
    if s.len() == 0 {
        0
    } else {
        newline_count(s.drop_last()) + if s.last() == '\n' {
            1nat
        } else {
            0nat
        }
    }
}

/// A text has no more line terminators than characters.
proof fn lemma_newline_count_bound(s: Seq<char>)
    ensures
        newline_count(s) <= s.len(),
    decreases s.len(),
{
    if s.len() > 0 {
        lemma_newline_count_bound(s.drop_last());
    }
}

/// The number of lines of `s` as `str::lines` yields them: one per line
/// terminator, and one more for a last line that has none.
pub open spec fn line_count(s: Seq<char>) -> nat {
    newline_count(s) + if s.len() > 0 && s.last() != '\n' {
        1nat
    } else {
        0nat
    }
}

/// Whether a word of `s` (a maximal run of non-whitespace) begins at `i`.
pub open spec fn starts_word(s: Seq<char>, i: int) -> bool {
    &&& !is_space(s[i])
    &&& (i == 0 || is_space(s[i - 1]))
}

/// The number of words of `s`, as `str::split_whitespace` yields them.
pub open spec fn word_count(s: Seq<char>) -> nat
    decreases s.len(),
{
    if s.len() == 0 {
        0
    } else {
        word_count(s.drop_last()) + if starts_word(s, s.len() - 1) {
            1nat
        } else {
            0nat
        }
    }
}

/// The counts of a text whose characters are `s` and whose UTF-8
/// encoding is `bytes`.
pub open spec fn file_info_of(s: Seq<char>, bytes: Seq<u8>) -> (int, int, int, int) {
    (line_count(s) as int, word_count(s) as int, bytes.len() as int, s.len() as int)
}

/// Whether `info` holds the counts of the text `text`.
pub open spec fn counts_match(info: FileInfo, text: &str) -> bool {
    (info.num_lines as int, info.num_words as int, info.num_bytes as int, info.num_chars as int)
        == file_info_of(text@, encode_utf8(text@))
}

/// Counts the lines, words, bytes and characters of `text`. It never
/// fails.
pub fn count(text: &str) -> (r: Result<FileInfo, String>)
    ensures
        r matches Ok(info) && counts_match(info, text),
{
    let cs = chars_of(text);
    let n = cs.len();
    let mut newlines: usize = 0;
    let mut words: usize = 0;
    let mut i: usize = 0;
    while i < n
        invariant
            n == cs@.len(),
            cs@ == text@,
            i <= n,
            newlines == newline_count(cs@.take(i as int)),
            words == word_count(cs@.take(i as int)),
            newlines <= i,
            words <= i,
        decreases n - i,
    {
        let c = cs[i];
        let ghost pre = cs@.take(i as int);
        let ghost post = cs@.take(i + 1);
        assert(post.drop_last() == pre);
        if c == '\n' {
            newlines = newlines + 1;
        }
        let start = !is_space_char(c) && (i == 0 || is_space_char(cs[i - 1]));
        assert(start == starts_word(post, post.len() - 1));
        if start {
            words = words + 1;
        }
        i = i + 1;
    }
    assert(cs@.take(n as int) == cs@);
    proof {
        if n > 0 {
            lemma_newline_count_bound(cs@.drop_last());
        }
    }
    let lines = if n > 0 && cs[n - 1] != '\n' {
        newlines + 1
    } else {
        newlines
    };
    let bytes = text.as_bytes();
    Ok(FileInfo { num_lines: lines, num_words: words, num_bytes: bytes.len(), num_chars: n })
}

proof fn lemma_utf8_len(s: Seq<char>)
    ensures
        s.len() <= encode_utf8(s).len() <= 4 * s.len(),
        (forall|i: int| 0 <= i < s.len() ==> (#[trigger] s[i] as u32) < 0x80) ==> encode_utf8(s).len()
            == s.len(),
    decreases s.len(),
{
    if s.len() > 0 {
        lemma_utf8_len(s.drop_first());
        let c = s[0] as u32;
        assert(1 <= vstd::utf8::encode_scalar(c).len() <= 4);
        if forall|i: int| 0 <= i < s.len() ==> (#[trigger] s[i] as u32) < 0x80 {
            assert((s[0] as u32) < 0x80);
            assert forall|i: int| 0 <= i < s.drop_first().len() implies (#[trigger] s.drop_first()[i] as u32)
                < 0x80 by {
                assert(s.drop_first()[i] == s[i + 1]);
            }
        }
    }
}

proof fn lemma_word_count_bound(s: Seq<char>)
    ensures
        word_count(s) <= s.len(),
    decreases s.len(),
{
    if s.len() > 0 {
        lemma_word_count_bound(s.drop_last());
    }
}

/// How the four counts of a text relate: every character takes one to
/// four bytes (exactly one for ASCII text, so that bytes and characters
/// then agree), and there are no more lines or words than characters.
pub proof fn law_counts(s: Seq<char>)
    ensures
        s.len() <= encode_utf8(s).len() <= 4 * s.len(),
        (forall|i: int| 0 <= i < s.len() ==> (#[trigger] s[i] as u32) < 0x80) ==> encode_utf8(s).len()
            == s.len(),
        line_count(s) <= s.len(),
        word_count(s) <= s.len(),
{
    lemma_utf8_len(s);
    lemma_word_count_bound(s);
    lemma_newline_count_bound(s);
    if s.len() > 0 {
        lemma_newline_count_bound(s.drop_last());
    }
}

/// Which counts to print.
#[derive(Debug, Clone, Copy, PartialEq, Eq, Structural)]
pub struct WcFlags {
    pub lines: bool,
    pub words: bool,
    pub bytes: bool,
    pub chars: bool,
}

impl WcFlags {
    /// The flags in force: with none of them given, lines, words and
    /// bytes are printed.
    pub open spec fn resolved_spec(self) -> WcFlags {
        if !self.lines && !self.words && !self.bytes && !self.chars {
            WcFlags { lines: true, words: true, bytes: true, chars: false }
        } else {
            self
        }
    }

    /// The flags in force.
    pub fn resolved(self) -> (r: WcFlags)
        ensures
            r == self.resolved_spec(),
    {
        if !self.lines && !self.words && !self.bytes && !self.chars {
            WcFlags { lines: true, words: true, bytes: true, chars: false }
        } else {
            self
        }
    }
}

proof fn lemma_newline_concat(a: Seq<char>, b: Seq<char>)
    ensures
        newline_count(a + b) == newline_count(a) + newline_count(b),
    decreases b.len(),
{
    if b.len() == 0 {
        assert(a + b =~= a);
    } else {
        lemma_newline_concat(a, b.drop_last());
        assert((a + b).drop_last() =~= a + b.drop_last());
        assert((a + b).last() == b.last());
    }
}

proof fn lemma_no_newline(s: Seq<char>)
    requires
        forall|i: int| 0 <= i < s.len() ==> #[trigger] s[i] != '\n',
    ensures
        newline_count(s) == 0,
    decreases s.len(),
{
    if s.len() > 0 {
        assert forall|i: int| 0 <= i < s.drop_last().len() implies #[trigger] s.drop_last()[i]
            != '\n' by {
            assert(s.drop_last()[i] == s[i]);
        }
        lemma_no_newline(s.drop_last());
    }
}

/// Lines are counted as `str::lines` yields them: an empty text has none,
/// a non-empty text without a line feed has one, and each line feed ends
/// one line, the text after it counting on its own.
pub proof fn law_line_count(a: Seq<char>, b: Seq<char>)
    ensures
        line_count(seq![]) == 0,
        (a.len() > 0 && forall|i: int| 0 <= i < a.len() ==> #[trigger] a[i] != '\n') ==> line_count(
            a,
        ) == 1,
        line_count(a + seq!['\n'] + b) == line_count(a + seq!['\n']) + line_count(b),
        line_count(a + seq!['\n']) == line_count(a) + if a.len() > 0 && a.last() != '\n' {
            0int
        } else {
            1int
        },
{
    if a.len() > 0 && forall|i: int| 0 <= i < a.len() ==> #[trigger] a[i] != '\n' {
        lemma_no_newline(a);
        assert(a[a.len() - 1] != '\n');
    }
    let an = a + seq!['\n'];
    lemma_newline_concat(an, b);
    lemma_newline_concat(a, seq!['\n']);
    assert(newline_count(seq!['\n']) == 1) by {
        assert(seq!['\n'].drop_last() =~= Seq::<char>::empty());
        assert(newline_count(Seq::<char>::empty()) == 0);
        assert(seq!['\n'].last() == '\n');
    }
    assert(an + b =~= a + seq!['\n'] + b);
    if b.len() > 0 {
        assert((an + b).last() == b.last());
    }
}

proof fn lemma_word_count_concat(a: Seq<char>, c: char, b: Seq<char>)
    requires
        is_space(c),
    ensures
        word_count(a + seq![c] + b) == word_count(a) + word_count(b),
    decreases b.len(),
{
    let ac = a + seq![c];
    if b.len() == 0 {
        assert(ac + b =~= ac);
        assert(ac.drop_last() =~= a);
        assert(!starts_word(ac, ac.len() - 1));
    } else {
        lemma_word_count_concat(a, c, b.drop_last());
        let s = ac + b;
        assert(s.drop_last() =~= ac + b.drop_last());
        let i = s.len() - 1;
        let j = b.len() - 1;
        assert(s[i] == b[j]);
        if j > 0 {
            assert(s[i - 1] == b[j - 1]);
        } else {
            assert(s[i - 1] == c);
        }
        assert(starts_word(s, i) == starts_word(b, j));
        assert(a + seq![c] + b =~= s);
    }
}

proof fn lemma_word_count_spaces(s: Seq<char>)
    requires
        forall|i: int| 0 <= i < s.len() ==> is_space(#[trigger] s[i]),
    ensures
        word_count(s) == 0,
    decreases s.len(),
{
    if s.len() > 0 {
        assert forall|i: int| 0 <= i < s.drop_last().len() implies is_space(
            #[trigger] s.drop_last()[i],
        ) by {
            assert(s.drop_last()[i] == s[i]);
        }
        lemma_word_count_spaces(s.drop_last());
        assert(is_space(s[s.len() - 1]));
    }
}

proof fn lemma_word_count_solid(s: Seq<char>)
    requires
        s.len() > 0,
        forall|i: int| 0 <= i < s.len() ==> !is_space(#[trigger] s[i]),
    ensures
        word_count(s) == 1,
    decreases s.len(),
{
    if s.len() == 1 {
        assert(s.drop_last() =~= Seq::<char>::empty());
        assert(word_count(Seq::<char>::empty()) == 0);
        assert(!is_space(s[0]));
        assert(starts_word(s, 0));
    } else {
        assert forall|i: int| 0 <= i < s.drop_last().len() implies !is_space(
            #[trigger] s.drop_last()[i],
        ) by {
            assert(s.drop_last()[i] == s[i]);
        }
        lemma_word_count_solid(s.drop_last());
        assert(!is_space(s[s.len() - 2]));
        assert(!starts_word(s, s.len() - 1));
    }
}

/// Words are counted as `str::split_whitespace` yields them: whitespace
/// alone holds no word, a run without whitespace is one word, and a
/// whitespace character splits a text into two parts counted apart.
pub proof fn law_word_count(a: Seq<char>, c: char, b: Seq<char>)
    ensures
        (forall|i: int| 0 <= i < a.len() ==> is_space(#[trigger] a[i])) ==> word_count(a) == 0,
        (a.len() > 0 && forall|i: int| 0 <= i < a.len() ==> !is_space(#[trigger] a[i]))
            ==> word_count(a) == 1,
        is_space(c) ==> word_count(a + seq![c] + b) == word_count(a) + word_count(b),
{
    if forall|i: int| 0 <= i < a.len() ==> is_space(#[trigger] a[i]) {
        lemma_word_count_spaces(a);
    }
    if a.len() > 0 && forall|i: int| 0 <= i < a.len() ==> !is_space(#[trigger] a[i]) {
        lemma_word_count_solid(a);
    }
    if is_space(c) {
        lemma_word_count_concat(a, c, b);
    }
}

/// Flags given on the command line stand as they are; only when none is
/// given are the lines, words and bytes printed (and not the characters).
pub proof fn law_flags(f: WcFlags)
    ensures
        (f.lines || f.words || f.bytes || f.chars) ==> f.resolved_spec() == f,
        !(f.lines || f.words || f.bytes || f.chars) ==> {
            &&& f.resolved_spec().lines
            &&& f.resolved_spec().words
            &&& f.resolved_spec().bytes
            &&& !f.resolved_spec().chars
        },
{
}

/// The width of each count column.
pub const COLUMN_WIDTH: usize = 8;

/// A count column: the number right-aligned in eight characters, when
/// `shown`; nothing otherwise.
pub open spec fn column(shown: bool, n: nat) -> Seq<char> {
    if shown {
        right_aligned(n, COLUMN_WIDTH as nat)
    } else {
        seq![]
    }
}

/// The count columns for `info`: lines, words, then bytes or, when bytes
/// are not asked for, characters.
pub open spec fn counts_text(info: FileInfo, flags: WcFlags) -> Seq<char> {
    column(flags.lines, info.num_lines as nat) + column(flags.words, info.num_words as nat) + if flags.bytes {
        column(true, info.num_bytes as nat)
    } else {
        column(flags.chars, info.num_chars as nat)
    }
}

fn push_column(out: &mut String, shown: bool, n: usize)
    ensures
        final(out)@ == old(out)@ + column(shown, n as nat),
{
    if shown {
        let col = format_right_aligned(n as u64, COLUMN_WIDTH);
        push_str(out, col.as_str());
    } else {
        assert(old(out)@ + column(shown, n as nat) =~= old(out)@);
    }
}

/// The count columns for `info` under `flags`.
pub fn format_counts(info: &FileInfo, flags: WcFlags) -> (s: String)
    ensures
        s@ == counts_text(*info, flags),
{
    let mut s = String::new();
    push_column(&mut s, flags.lines, info.num_lines);
    push_column(&mut s, flags.words, info.num_words);
    if flags.bytes {
        push_column(&mut s, true, info.num_bytes);
    } else {
        push_column(&mut s, flags.chars, info.num_chars);
    }
    assert(s@ =~= counts_text(*info, flags));
    s
}

/// What is printed for one input: its columns, then a space, its name and
/// a line break, except for standard input (`-`), after which nothing
/// follows the columns.
pub open spec fn report_text(info: FileInfo, flags: WcFlags, filename: Seq<char>) -> Seq<char> {
    counts_text(info, flags) + if is_stdin_name(filename) {
        seq![]
    } else {
        seq![' '] + filename + seq!['\n']
    }
}

/// The report for one input named `filename`.
pub fn format_report(info: &FileInfo, flags: WcFlags, filename: &str) -> (s: String)
    ensures
        s@ == report_text(*info, flags, filename@),
{
    let mut s = format_counts(info, flags);
    if !is_dash(filename) {
        push_char(&mut s, ' ');
        push_str(&mut s, filename);
        push_char(&mut s, '\n');
    }
    assert(s@ =~= report_text(*info, flags, filename@));
    s
}

/// The line of totals: the columns, then ` total` and a line break.
pub open spec fn total_text(total: FileInfo, flags: WcFlags) -> Seq<char> {
    counts_text(total, flags) + seq![' ', 't', 'o', 't', 'a', 'l', '\n']
}

/// The line of totals.
fn format_total(total: &FileInfo, flags: WcFlags) -> (s: String)
    ensures
        s@ == total_text(*total, flags),
{
    let mut s = format_counts(total, flags);
    push_char(&mut s, ' ');
    push_char(&mut s, 't');
    push_char(&mut s, 'o');
    push_char(&mut s, 't');
    push_char(&mut s, 'a');
    push_char(&mut s, 'l');
    push_char(&mut s, '\n');
    assert(s@ =~= total_text(*total, flags));
    s
}

/// What follows the reports of `num_files` inputs: the line of totals
/// when there are several of them, nothing otherwise.
pub fn format_summary(total: &FileInfo, flags: WcFlags, num_files: usize) -> (r: Option<String>)
    ensures
        num_files > 1 ==> (r matches Some(s) && s@ == total_text(*total, flags)),
        num_files <= 1 ==> r is None,
{
    if num_files > 1 {
        Some(format_total(total, flags))
    } else {
        None
    }
}

/// Whether adding `b` to `a` keeps every count within `usize`.
pub open spec fn can_add(a: FileInfo, b: FileInfo) -> bool {
    &&& a.num_lines + b.num_lines <= usize::MAX
    &&& a.num_words + b.num_words <= usize::MAX
    &&& a.num_bytes + b.num_bytes <= usize::MAX
    &&& a.num_chars + b.num_chars <= usize::MAX
}

impl FileInfo {
    /// All counts zero: the totals before any input.
    pub fn zero() -> (r: FileInfo)
        ensures
            r.num_lines == 0 && r.num_words == 0 && r.num_bytes == 0 && r.num_chars == 0,
    {
        FileInfo { num_lines: 0, num_words: 0, num_bytes: 0, num_chars: 0 }
    }

    /// Whether the counts of `other` can be added to these.
    pub fn can_add(&self, other: &FileInfo) -> (b: bool)
        ensures
            b == can_add(*self, *other),
    {
        self.num_lines <= usize::MAX - other.num_lines && self.num_words <= usize::MAX
            - other.num_words && self.num_bytes <= usize::MAX - other.num_bytes
            && self.num_chars <= usize::MAX - other.num_chars
    }

    /// Adds the counts of `other` to these, as the running totals do.
    pub fn add(&mut self, other: &FileInfo)
        requires
            can_add(*old(self), *other),
        ensures
            final(self).num_lines == old(self).num_lines + other.num_lines,
            final(self).num_words == old(self).num_words + other.num_words,
            final(self).num_bytes == old(self).num_bytes + other.num_bytes,
            final(self).num_chars == old(self).num_chars + other.num_chars,
    {
        self.num_lines = self.num_lines + other.num_lines;
        self.num_words = self.num_words + other.num_words;
        self.num_bytes = self.num_bytes + other.num_bytes;
        self.num_chars = self.num_chars + other.num_chars;
    }
}

} // verus!
