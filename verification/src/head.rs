//! `head`: the first lines or bytes of each input.
use vstd::prelude::*;
use vstd::utf8::{decode_utf8, valid_utf8};
use crate::text::{opt_text, push_char, push_str};

verus! {

/// The text before an input's first lines when there are several inputs:
/// a blank line unless it is the first named input, then `==> name <==`.
pub open spec fn header_spec(filename: Seq<char>, file_num: nat, num_files: nat) -> Option<
    Seq<char>,
> {
    if num_files > 1 {
        Some(
            (if file_num > 0 {
                seq!['\n']
            } else {
                seq![]
            }) + seq!['=', '=', '>', ' '] + filename + seq![' ', '<', '=', '=', '\n'],
        )
    } else {
        None
    }
}

/// The header printed before the input `filename`, which is the
/// `file_num`-th (from 0) of `num_files` named inputs.
pub fn header(filename: &str, file_num: usize, num_files: usize) -> (r: Option<String>)
    ensures
        opt_text(r) == header_spec(filename@, file_num as nat, num_files as nat),
{
    if num_files <= 1 {
        return None;
    }
    let mut s = String::new();
    if file_num > 0 {
        push_char(&mut s, '\n');
    }
    push_char(&mut s, '=');
    push_char(&mut s, '=');
    push_char(&mut s, '>');
    push_char(&mut s, ' ');
    push_str(&mut s, filename);
    push_char(&mut s, ' ');
    push_char(&mut s, '<');
    push_char(&mut s, '=');
    push_char(&mut s, '=');
    push_char(&mut s, '\n');
    assert(s@ =~= header_spec(filename@, file_num as nat, num_files as nat)->0);
    Some(s)
}

/// How many more lines of the current input are printed.
pub struct LineBudget {
    pub remaining: u64,
}

impl LineBudget {
    /// A budget of `lines` lines (`-n`).
    pub fn new(lines: u64) -> (b: LineBudget)
        ensures
            b.remaining == lines,
    {
        LineBudget { remaining: lines }
    }

    /// Whether another line is read and printed.
    pub fn wants_line(&self) -> (b: bool)
        ensures
            b == (self.remaining > 0),
    {
        self.remaining > 0
    }

    /// Records that a line was printed.
    pub fn spend(&mut self)
        requires
            old(self).remaining > 0,
        ensures
            final(self).remaining == old(self).remaining - 1,
    {
        self.remaining = self.remaining - 1;
    }
}

/// The text that `String::from_utf8_lossy` makes of `bytes`: their
/// UTF-8 decoding, with U+FFFD in place of each invalid sequence.
pub uninterp spec fn utf8_lossy(bytes: Seq<u8>) -> Seq<char>;

/// `String::from_utf8_lossy`, made owned. Claimed: the text is
/// `utf8_lossy` of the bytes, and for valid UTF-8 it is their decoding.
/// Which replacement characters stand for invalid bytes is left unsaid.
#[verifier::external_body]
fn from_utf8_lossy(bytes: &[u8]) -> (s: String)
    ensures
        s@ == utf8_lossy(bytes@),
        valid_utf8(bytes@) ==> s@ == decode_utf8(bytes@),
{
    String::from_utf8_lossy(bytes).into_owned()
}

/// The text printed for the first `bytes_read` bytes of `buffer`.
pub fn bytes_text(buffer: &Vec<u8>, bytes_read: usize) -> (s: String)
    requires
        bytes_read <= buffer@.len(),
    ensures
        s@ == utf8_lossy(buffer@.take(bytes_read as int)),
        valid_utf8(buffer@.take(bytes_read as int)) ==> s@ == decode_utf8(
            buffer@.take(bytes_read as int),
        ),
{
    let mut chunk: Vec<u8> = Vec::new();
    let mut i: usize = 0;
    while i < bytes_read
        invariant
            i <= bytes_read,
            bytes_read <= buffer@.len(),
            chunk@ == buffer@.take(i as int),
        decreases bytes_read - i,
    {
        chunk.push(buffer[i]);
        assert(chunk@ =~= buffer@.take(i + 1));
        i = i + 1;
    }
    from_utf8_lossy(chunk.as_slice())
}

} // verus!
