//! Regular expressions, compiled and matched by the `regex` crate.
use vstd::prelude::*;
use crate::text::{push_char, push_str};

verus! {

/// `regex::Regex`, carried through opaque.
#[verifier::external_type_specification]
#[verifier::external_body]
pub struct ExRegex(regex::Regex);

/// `regex::Error`, carried through opaque.
#[verifier::external_type_specification]
#[verifier::external_body]
pub struct ExRegexError(regex::Error);

/// Whether `regex` accepts `pattern` (with case-insensitive matching when
/// `case_insensitive`) as a regular expression within its default limits.
pub uninterp spec fn regex_compiles(pattern: Seq<char>, case_insensitive: bool) -> bool;

/// Whether the regular expression `pattern`, compiled by `regex` (case
/// insensitive when `case_insensitive`), matches somewhere in `haystack`.
pub uninterp spec fn regex_matches(
    pattern: Seq<char>,
    case_insensitive: bool,
    haystack: Seq<char>,
) -> bool;

/// A compiled regular expression, with the text and the flag it was
/// compiled from.
#[derive(Debug)]
pub struct Pattern {
    source: String,
    case_insensitive: bool,
    regex: regex::Regex,
}

impl View for Pattern {
    type V = (Seq<char>, bool);

    /// The source text and the case-insensitivity flag.
    closed spec fn view(&self) -> (Seq<char>, bool) {
        (self.source@, self.case_insensitive)
    }
}

/// Whether the pattern `p` matches somewhere in `text`.
pub open spec fn pattern_matches(p: (Seq<char>, bool), text: Seq<char>) -> bool {
    regex_matches(p.0, p.1, text)
}

/// The error for a pattern that does not compile.
#[derive(Debug)]
pub struct InvalidPattern {
    pub pattern: String,
    /// What `regex` said of it.
    pub error: regex::Error,
}

/// Compiles `pattern` with `regex::RegexBuilder` (`new`, then
/// `case_insensitive`, then `build`). Claimed: it succeeds exactly when
/// `regex_compiles` holds of the text and the flag, and the pattern
/// returned holds that text and flag beside the regex built from them.
#[verifier::external_body]
fn build_regex(pattern: &str, case_insensitive: bool) -> (r: Result<Pattern, regex::Error>)
    ensures
        r is Ok <==> regex_compiles(pattern@, case_insensitive),
        r matches Ok(p) ==> p@ == (pattern@, case_insensitive),
{
    match regex::RegexBuilder::new(pattern).case_insensitive(case_insensitive).build() {
        Ok(regex) => Ok(Pattern { source: pattern.to_string(), case_insensitive, regex }),
        Err(e) => Err(e),
    }
}

/// `regex::Regex::is_match` on the regex of `p`. Claimed: the answer is
/// `regex_matches` of the source text and flag that `p` was built from.
#[verifier::external_body]
fn regex_is_match(p: &Pattern, text: &str) -> (b: bool)
    ensures
        b == regex_matches(p@.0, p@.1, text@),
{
    p.regex.is_match(text)
}

impl Pattern {
    /// Compiles `pattern`; case-insensitive when `case_insensitive`.
    pub fn new(pattern: &str, case_insensitive: bool) -> (r: Result<Pattern, InvalidPattern>)
        ensures
            r is Ok <==> regex_compiles(pattern@, case_insensitive),
            r matches Ok(p) ==> p@ == (pattern@, case_insensitive),
            r matches Err(e) ==> e.pattern@ == pattern@,
    {
        match build_regex(pattern, case_insensitive) {
            Ok(p) => Ok(p),
            Err(error) => {
                let mut text = String::new();
                push_str(&mut text, pattern);
                Err(InvalidPattern { pattern: text, error })
            },
        }
    }

    /// Whether the pattern matches somewhere in `text`.
    pub fn is_match(&self, text: &str) -> (b: bool)
        ensures
            b == pattern_matches(self@, text@),
    {
        regex_is_match(self, text)
    }
}

/// The message for an invalid pattern: `Invalid pattern "…"`.
pub open spec fn invalid_pattern_text(pattern: Seq<char>) -> Seq<char> {
    seq!['I', 'n', 'v', 'a', 'l', 'i', 'd', ' ', 'p', 'a', 't', 't', 'e', 'r', 'n', ' ', '"'] + pattern
        + seq!['"']
}

impl InvalidPattern {
    /// The message printed for this error.
    pub fn message(&self) -> (s: String)
        ensures
            s@ == invalid_pattern_text(self.pattern@),
    {
        let mut s = String::new();
        push_char(&mut s, 'I');
        push_char(&mut s, 'n');
        push_char(&mut s, 'v');
        push_char(&mut s, 'a');
        push_char(&mut s, 'l');
        push_char(&mut s, 'i');
        push_char(&mut s, 'd');
        push_char(&mut s, ' ');
        push_char(&mut s, 'p');
        push_char(&mut s, 'a');
        push_char(&mut s, 't');
        push_char(&mut s, 't');
        push_char(&mut s, 'e');
        push_char(&mut s, 'r');
        push_char(&mut s, 'n');
        push_char(&mut s, ' ');
        push_char(&mut s, '"');
        push_str(&mut s, self.pattern.as_str());
        push_char(&mut s, '"');
        assert(s@ =~= invalid_pattern_text(self.pattern@));
        s
    }
}

} // verus!
