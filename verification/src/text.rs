//! Character-level helpers shared by the utilities: whitespace, decimal
//! numbers, right alignment, and conversions between `String` and `Vec<char>`.
use vstd::prelude::*;

verus! {

broadcast use vstd::string::group_string_axioms;

/// Unicode `White_Space`, the property behind `char::is_whitespace`.
pub open spec fn is_space(c: char) -> bool {
    let u = c as u32;
    ||| 0x9 <= u <= 0xD
    ||| u == 0x20
    ||| u == 0x85
    ||| u == 0xA0
    ||| u == 0x1680
    ||| 0x2000 <= u <= 0x200A
    ||| u == 0x2028
    ||| u == 0x2029
    ||| u == 0x202F
    ||| u == 0x205F
    ||| u == 0x3000
}

/// Whether `c` is a whitespace character.
pub fn is_space_char(c: char) -> (b: bool)
    ensures
        b == is_space(c),
{
    let u = c as u32;
    (0x9 <= u && u <= 0xD) || u == 0x20 || u == 0x85 || u == 0xA0 || u == 0x1680 || (0x2000 <= u
        && u <= 0x200A) || u == 0x2028 || u == 0x2029 || u == 0x202F || u == 0x205F || u == 0x3000
}

/// `s` with its trailing whitespace removed, as `str::trim_end` does.
pub open spec fn trim_end(s: Seq<char>) -> Seq<char>
    decreases s.len(),
{
    if s.len() > 0 && is_space(s.last()) {
        trim_end(s.drop_last())
    } else {
        s
    }
}

/// The digit character for `d < 10`.
pub open spec fn digit_char(d: nat) -> char {
    (48 + d) as char
}

/// The decimal representation of `n`, without leading zeros.
pub open spec fn decimal(n: nat) -> Seq<char>
    decreases n,
{
    if n < 10 {
        seq![digit_char(n)]
    } else {
        decimal(n / 10).push(digit_char(n % 10))
    }
}

/// The number that the decimal digits `s` spell.
pub open spec fn digits_value(s: Seq<char>) -> int
    decreases s.len(),
{
    if s.len() == 0 {
        0
    } else {
        digits_value(s.drop_last()) * 10 + ((s.last() as u32) - 48)
    }
}

/// Whether `c` is one of `0` to `9`.
pub open spec fn is_digit(c: char) -> bool {
    48 <= (c as u32) <= 57
}

/// The decimal form of `n` is made of digits, spells `n`, and has no
/// leading zero except for `0` itself.
pub proof fn law_decimal(n: nat)
    ensures
        decimal(n).len() >= 1,
        forall|i: int| 0 <= i < decimal(n).len() ==> is_digit(#[trigger] decimal(n)[i]),
        digits_value(decimal(n)) == n,
        decimal(n)[0] == '0' ==> n == 0 && decimal(n).len() == 1,
    decreases n,
{
    let d = digit_char(n % 10);
    assert((d as u32) == 48 + n % 10);
    if n < 10 {
        assert(seq![d].drop_last() =~= Seq::<char>::empty());
        assert(digits_value(Seq::<char>::empty()) == 0);
    } else {
        law_decimal(n / 10);
        let p = decimal(n / 10);
        let s = p.push(d);
        assert(s.drop_last() =~= p);
        assert(forall|i: int| 0 <= i < p.len() ==> s[i] == p[i]);
        assert(s[0] == p[0]);
        assert(n == (n / 10) * 10 + n % 10) by (nonlinear_arith);
    }
}

/// Padding puts spaces before `s` up to `width` characters and keeps `s`
/// whole at the end; it never cuts.
pub proof fn law_pad_left(s: Seq<char>, width: nat)
    ensures
        pad_left(s, width).len() == if s.len() < width {
            width
        } else {
            s.len()
        },
        pad_left(s, width).skip(pad_left(s, width).len() - s.len()) == s,
        forall|i: int|
            0 <= i < pad_left(s, width).len() - s.len() ==> #[trigger] pad_left(s, width)[i] == ' ',
{
    let p = pad_left(s, width);
    assert(p.skip(p.len() - s.len()) =~= s);
}

/// `s` preceded by as many spaces as make it `width` characters long;
/// `s` itself when it is already that long.
pub open spec fn pad_left(s: Seq<char>, width: nat) -> Seq<char> {
    if s.len() < width {
        Seq::new((width - s.len()) as nat, |i: int| ' ') + s
    } else {
        s
    }
}

/// `n` in decimal, right-aligned in a field of `width` characters.
pub open spec fn right_aligned(n: nat, width: nat) -> Seq<char> {
    pad_left(decimal(n), width)
}

/// The characters of `s`, in order, as a vector.
pub fn chars_of(s: &str) -> (v: Vec<char>)
    ensures
        v@ == s@,
{
    let mut v: Vec<char> = Vec::new();
    for c in it: s.chars()
        invariant
            it.seq() == s@,
            v@ == it.seq().take(it.index()),
    {
        v.push(c);
    }
    v
}

/// Appends `c` to `s`: `String::push`.
#[verifier::external_body]
pub fn push_char(s: &mut String, c: char)
    ensures
        final(s)@ == old(s)@.push(c),
{
    s.push(c);
}

/// Appends the characters of `cs` to `s`.
pub fn push_chars(s: &mut String, cs: &[char])
    ensures
        final(s)@ == old(s)@ + cs@,
{
    let ghost start = s@;
    for i in 0..cs.len()
        invariant
            s@ == start + cs@.take(i as int),
    {
        push_char(s, cs[i]);
        assert(cs@.take(i + 1) == cs@.take(i as int).push(cs@[i as int]));
    }
    assert(cs@.take(cs.len() as int) == cs@);
}

/// Appends `t` to `s`.
pub fn push_str(s: &mut String, t: &str)
    ensures
        final(s)@ == old(s)@ + t@,
{
    let cs = chars_of(t);
    push_chars(s, cs.as_slice());
}

/// The digit character for `d`.
fn digit(d: u64) -> (c: char)
    requires
        d < 10,
    ensures
        c == digit_char(d as nat),
{
    match d {
        0 => '0',
        1 => '1',
        2 => '2',
        3 => '3',
        4 => '4',
        5 => '5',
        6 => '6',
        7 => '7',
        8 => '8',
        _ => '9',
    }
}

/// The decimal digits of `n`.
pub fn decimal_digits(n: u64) -> (v: Vec<char>)
    ensures
        v@ == decimal(n as nat),
{
    let mut digits: Vec<char> = Vec::new();
    digits.push(digit(n % 10));
    let mut m: u64 = n / 10;
    while m > 0
        invariant
            m > 0 ==> decimal(n as nat) == decimal(m as nat) + digits@,
            m == 0 ==> decimal(n as nat) == digits@,
        decreases m,
    {
        let ghost before = digits@;
        digits.insert(0, digit(m % 10));
        assert(digits@ == seq![digit_char((m % 10) as nat)] + before);
        m = m / 10;
    }
    digits
}

/// `n` in decimal, right-aligned in a field of `width` characters, as
/// the format `{:>width}` writes it.
pub fn format_right_aligned(n: u64, width: usize) -> (s: String)
    ensures
        s@ == right_aligned(n as nat, width as nat),
{
    let digits = decimal_digits(n);
    let mut s = String::new();
    if digits.len() < width {
        let pad = width - digits.len();
        for i in 0..pad
            invariant
                s@ == Seq::new(i as nat, |k: int| ' '),
        {
            push_char(&mut s, ' ');
            assert(s@ =~= Seq::new((i + 1) as nat, |k: int| ' '));
        }
    }
    push_chars(&mut s, digits.as_slice());
    s
}

/// The characters of an optional string.
pub open spec fn opt_text(o: Option<String>) -> Option<Seq<char>> {
    match o {
        Some(s) => Some(s@),
        None => None,
    }
}

/// The characters of each string of `v`.
pub open spec fn views(v: Seq<String>) -> Seq<Seq<char>> {
    v.map_values(|s: String| s@)
}

/// The name `-`, which the utilities read as standard input.
pub open spec fn is_stdin_name(s: Seq<char>) -> bool {
    s == seq!['-']
}

/// Whether `s` is `-`.
pub fn is_dash(s: &str) -> (b: bool)
    ensures
        b == is_stdin_name(s@),
{
    let cs = chars_of(s);
    let b = cs.len() == 1 && cs[0] == '-';
    assert(b ==> cs@ =~= seq!['-']);
    b
}

} // verus!
