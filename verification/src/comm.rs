//! `comm`: comparing two sorted inputs line by line.
use vstd::prelude::*;
use vstd::string::StringExecFns;
use vstd::utf8::encode_utf8;
use crate::text::{is_dash, is_stdin_name, opt_text, push_str, views};

verus! {

broadcast use vstd::utf8::encode_utf8_decode_utf8;

/// What the command line asks of `comm`.
#[derive(Debug)]
pub struct Args {
    pub file1: String,
    pub file2: String,
    /// Print the lines found only in the first input.
    pub show_col1: bool,
    /// Print the lines found only in the second input.
    pub show_col2: bool,
    /// Print the lines found in both inputs.
    pub show_col3: bool,
    /// Compare lines in lower case.
    pub insensitive: bool,
    /// The text printed between columns.
    pub delimiter: String,
}

/// The message when both inputs are standard input.
pub open spec fn both_stdin_message() -> Seq<char> {
    "Both input files cannot be STDIN (\"-\")"@
}

/// Refuses to read standard input twice.
pub fn check_inputs(file1: &str, file2: &str) -> (r: Result<(), String>)
    ensures
        r is Err <==> is_stdin_name(file1@) && is_stdin_name(file2@),
        r matches Err(msg) ==> msg@ == both_stdin_message(),
{
    if is_dash(file1) && is_dash(file2) {
        Err(String::from_str("Both input files cannot be STDIN (\"-\")"))
    } else {
        Ok(())
    }
}

/// Whether the byte string `a` comes before `b`: lexicographic order,
/// a proper prefix first.
pub open spec fn bytes_less(a: Seq<u8>, b: Seq<u8>) -> bool
    decreases a.len(),
{
    if a.len() == 0 {
        b.len() > 0
    } else if b.len() == 0 {
        false
    } else if a[0] != b[0] {
        a[0] < b[0]
    } else {
        bytes_less(a.drop_first(), b.drop_first())
    }
}

/// The order of `String`: the lexicographic order of the UTF-8 bytes.
pub open spec fn line_less(a: Seq<char>, b: Seq<char>) -> bool {
    bytes_less(encode_utf8(a), encode_utf8(b))
}

/// The outcome of comparing two lines.
#[derive(Debug, Clone, Copy, PartialEq, Eq, Structural)]
pub enum Order {
    Less,
    Equal,
    Greater,
}

proof fn lemma_bytes_less_skip(a: Seq<u8>, b: Seq<u8>, i: int)
    requires
        0 <= i <= a.len(),
        i <= b.len(),
        a.take(i) == b.take(i),
    ensures
        bytes_less(a, b) == bytes_less(a.skip(i), b.skip(i)),
    decreases i,
{
    if i > 0 {
        assert(a[0] == a.take(i)[0]);
        assert(b[0] == b.take(i)[0]);
        assert(a.drop_first().take(i - 1) =~= a.take(i).drop_first());
        assert(b.drop_first().take(i - 1) =~= b.take(i).drop_first());
        lemma_bytes_less_skip(a.drop_first(), b.drop_first(), i - 1);
        assert(a.drop_first().skip(i - 1) =~= a.skip(i));
        assert(b.drop_first().skip(i - 1) =~= b.skip(i));
    } else {
        assert(a.skip(0) =~= a);
        assert(b.skip(0) =~= b);
    }
}

proof fn lemma_bytes_less_irreflexive(a: Seq<u8>)
    ensures
        !bytes_less(a, a),
    decreases a.len(),
{
    if a.len() > 0 {
        lemma_bytes_less_irreflexive(a.drop_first());
    }
}

/// Compares two lines as `String`'s `Ord` does.
pub fn compare_lines(a: &str, b: &str) -> (o: Order)
    ensures
        o == Order::Less <==> line_less(a@, b@),
        o == Order::Equal <==> a@ == b@,
        o == Order::Greater <==> line_less(b@, a@),
{
    let ab = a.as_bytes();
    let bb = b.as_bytes();
    let ghost x = encode_utf8(a@);
    let ghost y = encode_utf8(b@);
    let mut i: usize = 0;
    while i < ab.len() && i < bb.len() && ab[i] == bb[i]
        invariant
            ab@ == x,
            bb@ == y,
            i <= ab@.len(),
            i <= bb@.len(),
            x.take(i as int) == y.take(i as int),
        decreases ab@.len() - i,
    {
        assert(x.take(i + 1) =~= x.take(i as int).push(x[i as int]));
        assert(y.take(i + 1) =~= y.take(i as int).push(y[i as int]));
        i = i + 1;
    }
    proof {
        lemma_bytes_less_skip(x, y, i as int);
        lemma_bytes_less_skip(y, x, i as int);
    }
    if i < ab.len() && i < bb.len() {
        assert(x.skip(i as int)[0] == x[i as int]);
        assert(y.skip(i as int)[0] == y[i as int]);
        assert(x != y);
        if ab[i] < bb[i] {
            Order::Less
        } else {
            Order::Greater
        }
    } else if i < ab.len() {
        assert(x != y) by {
            assert(x.len() != y.len());
        }
        assert(y.skip(i as int).len() == 0);
        Order::Greater
    } else if i < bb.len() {
        assert(x != y) by {
            assert(x.len() != y.len());
        }
        Order::Less
    } else {
        assert(x =~= x.take(i as int));
        assert(y =~= y.take(i as int));
        assert(vstd::utf8::decode_utf8(x) == a@);
        assert(vstd::utf8::decode_utf8(y) == b@);
        proof {
            lemma_bytes_less_irreflexive(x);
        }
        Order::Equal
    }
}

/// A line of output, in the column that says where it was found.
#[derive(Debug)]
pub enum Column {
    /// Only in the first input.
    Col1(String),
    /// Only in the second input.
    Col2(String),
    /// In both inputs.
    Col3(String),
}

/// The three columns.
#[derive(Debug, Clone, Copy, PartialEq, Eq, Structural)]
pub enum Side {
    Col1,
    Col2,
    Col3,
}

/// A column as its side and its text.
pub open spec fn column_view(c: Column) -> (Side, Seq<char>) {
    match c {
        Column::Col1(s) => (Side::Col1, s@),
        Column::Col2(s) => (Side::Col2, s@),
        Column::Col3(s) => (Side::Col3, s@),
    }
}

/// The views of the columns `cs`.
pub open spec fn column_views(cs: Seq<Column>) -> Seq<(Side, Seq<char>)> {
    cs.map_values(|c: Column| column_view(c))
}

/// The merge of two inputs: while both have lines, the smaller of the two
/// current lines goes to its input's column and is passed, and equal lines
/// go together to the third column; when one input is spent, the other's
/// remaining lines go to its column.
pub open spec fn merge_spec(a: Seq<Seq<char>>, b: Seq<Seq<char>>) -> Seq<(Side, Seq<char>)>
    decreases a.len() + b.len(),
{
    if a.len() == 0 && b.len() == 0 {
        seq![]
    } else if b.len() == 0 {
        seq![(Side::Col1, a[0])] + merge_spec(a.drop_first(), b)
    } else if a.len() == 0 {
        seq![(Side::Col2, b[0])] + merge_spec(a, b.drop_first())
    } else if line_less(a[0], b[0]) {
        seq![(Side::Col1, a[0])] + merge_spec(a.drop_first(), b)
    } else if a[0] == b[0] {
        seq![(Side::Col3, a[0])] + merge_spec(a.drop_first(), b.drop_first())
    } else {
        seq![(Side::Col2, b[0])] + merge_spec(a, b.drop_first())
    }
}

fn copy_string(s: &String) -> (r: String)
    ensures
        r@ == s@,
{
    let mut r = String::new();
    push_str(&mut r, s.as_str());
    r
}

/// Merges the lines of two inputs into columns.
pub fn merge(lines1: &Vec<String>, lines2: &Vec<String>) -> (r: Vec<Column>)
    ensures
        column_views(r@) == merge_spec(views(lines1@), views(lines2@)),
{
    let ghost a = views(lines1@);
    let ghost b = views(lines2@);
    let mut r: Vec<Column> = Vec::new();
    let mut i: usize = 0;
    let mut j: usize = 0;
    assert(a.skip(0) =~= a);
    assert(b.skip(0) =~= b);
    while i < lines1.len() || j < lines2.len()
        invariant
            a == views(lines1@),
            b == views(lines2@),
            i <= lines1@.len(),
            j <= lines2@.len(),
            column_views(r@) + merge_spec(a.skip(i as int), b.skip(j as int)) == merge_spec(a, b),
        decreases lines1@.len() + lines2@.len() - i - j,
    {
        let ghost sa = a.skip(i as int);
        let ghost sb = b.skip(j as int);
        let ghost before = column_views(r@);
        if i < lines1.len() {
            assert(sa[0] == lines1@[i as int]@);
            assert(sa.drop_first() =~= a.skip(i + 1));
        }
        if j < lines2.len() {
            assert(sb[0] == lines2@[j as int]@);
            assert(sb.drop_first() =~= b.skip(j + 1));
        }
        if j >= lines2.len() {
            r.push(Column::Col1(copy_string(&lines1[i])));
            i = i + 1;
        } else if i >= lines1.len() {
            r.push(Column::Col2(copy_string(&lines2[j])));
            j = j + 1;
        } else {
            match compare_lines(lines1[i].as_str(), lines2[j].as_str()) {
                Order::Less => {
                    r.push(Column::Col1(copy_string(&lines1[i])));
                    i = i + 1;
                },
                Order::Equal => {
                    r.push(Column::Col3(copy_string(&lines1[i])));
                    i = i + 1;
                    j = j + 1;
                },
                Order::Greater => {
                    r.push(Column::Col2(copy_string(&lines2[j])));
                    j = j + 1;
                },
            }
        }
        assert(column_views(r@) =~= before + seq![column_view(r@.last())]);
        assert(column_views(r@) + merge_spec(a.skip(i as int), b.skip(j as int)) =~= before
            + merge_spec(sa, sb));
    }
    assert(a.skip(i as int) =~= Seq::<Seq<char>>::empty());
    assert(b.skip(j as int) =~= Seq::<Seq<char>>::empty());
    assert(column_views(r@) + merge_spec(a.skip(i as int), b.skip(j as int)) =~= column_views(r@));
    r
}

/// The lines of the first input among the merged columns: those of the
/// first and third columns, in order.
pub open spec fn left_of(m: Seq<(Side, Seq<char>)>) -> Seq<Seq<char>>
    decreases m.len(),
{
    if m.len() == 0 {
        seq![]
    } else {
        (if m[0].0 != Side::Col2 {
            seq![m[0].1]
        } else {
            seq![]
        }) + left_of(m.drop_first())
    }
}

/// The lines of the second input among the merged columns: those of the
/// second and third columns, in order.
pub open spec fn right_of(m: Seq<(Side, Seq<char>)>) -> Seq<Seq<char>>
    decreases m.len(),
{
    if m.len() == 0 {
        seq![]
    } else {
        (if m[0].0 != Side::Col1 {
            seq![m[0].1]
        } else {
            seq![]
        }) + right_of(m.drop_first())
    }
}

proof fn lemma_sides_cons(x: (Side, Seq<char>), rest: Seq<(Side, Seq<char>)>)
    ensures
        left_of(seq![x] + rest) == (if x.0 != Side::Col2 {
            seq![x.1]
        } else {
            seq![]
        }) + left_of(rest),
        right_of(seq![x] + rest) == (if x.0 != Side::Col1 {
            seq![x.1]
        } else {
            seq![]
        }) + right_of(rest),
{
    assert((seq![x] + rest).drop_first() =~= rest);
}

/// While both inputs have lines, String order alone decides what is
/// output first: the first input's line, in the first column, when it is
/// the smaller; the shared line, once, in the third column, when the two
/// are equal; the second input's line, in the second column, otherwise.
/// When one input is spent, the other's next line comes first in its own
/// column.
pub proof fn law_merge_head(a: Seq<Seq<char>>, b: Seq<Seq<char>>)
    requires
        a.len() > 0 || b.len() > 0,
    ensures
        merge_spec(a, b).len() > 0,
        a.len() > 0 && b.len() > 0 && line_less(a[0], b[0]) ==> merge_spec(a, b)[0] == (
            Side::Col1,
            a[0],
        ),
        a.len() > 0 && b.len() > 0 && a[0] == b[0] ==> merge_spec(a, b)[0] == (Side::Col3, a[0]),
        a.len() > 0 && b.len() > 0 && line_less(b[0], a[0]) ==> merge_spec(a, b)[0] == (
            Side::Col2,
            b[0],
        ),
        a.len() > 0 && b.len() == 0 ==> merge_spec(a, b)[0] == (Side::Col1, a[0]),
        a.len() == 0 && b.len() > 0 ==> merge_spec(a, b)[0] == (Side::Col2, b[0]),
{
    if a.len() > 0 && b.len() > 0 {
        lemma_bytes_less_asym(encode_utf8(b[0]), encode_utf8(a[0]));
        lemma_bytes_less_irreflexive(encode_utf8(a[0]));
    }
}

/// Exactly one of `a < b`, `a == b` and `b < a` holds.
proof fn lemma_bytes_less_asym(a: Seq<u8>, b: Seq<u8>)
    ensures
        bytes_less(a, b) ==> !bytes_less(b, a),
    decreases a.len(),
{
    if a.len() > 0 && b.len() > 0 && a[0] == b[0] {
        lemma_bytes_less_asym(a.drop_first(), b.drop_first());
    }
}

proof fn lemma_bytes_less_total(a: Seq<u8>, b: Seq<u8>)
    ensures
        a != b ==> bytes_less(a, b) || bytes_less(b, a),
    decreases a.len(),
{
    if a.len() > 0 && b.len() > 0 && a[0] == b[0] {
        lemma_bytes_less_total(a.drop_first(), b.drop_first());
        if a != b {
            assert(a =~= seq![a[0]] + a.drop_first());
            assert(b =~= seq![b[0]] + b.drop_first());
        }
    } else if a.len() == 0 && b.len() == 0 {
        assert(a =~= b);
    }
}

/// The order of lines is lexicographic on their UTF-8 bytes: `a` comes
/// before `b` exactly when, after a common prefix of `k` bytes, either
/// `a` ends and `b` goes on, or `a`'s next byte is smaller than `b`'s. It
/// is a strict total order on texts.
pub proof fn law_line_order(a: Seq<char>, b: Seq<char>, c: Seq<char>)
    ensures
        line_less(a, b) <==> exists|k: int|
            #![trigger encode_utf8(a).take(k)]
            0 <= k <= encode_utf8(a).len() && k <= encode_utf8(b).len() && encode_utf8(a).take(k)
                == encode_utf8(b).take(k) && ((k == encode_utf8(a).len() && k < encode_utf8(
                b,
            ).len()) || (k < encode_utf8(a).len() && k < encode_utf8(b).len() && encode_utf8(a)[k]
                < encode_utf8(b)[k])),
        !line_less(a, a),
        line_less(a, b) ==> !line_less(b, a),
        a != b ==> line_less(a, b) || line_less(b, a),
        line_less(a, b) && line_less(b, c) ==> line_less(a, c),
{
    let x = encode_utf8(a);
    let y = encode_utf8(b);
    lemma_bytes_less_witness(x, y);
    lemma_bytes_less_irreflexive(x);
    lemma_bytes_less_asym(x, y);
    lemma_bytes_less_total(x, y);
    lemma_bytes_less_trans(x, y, encode_utf8(c));
    assert(vstd::utf8::decode_utf8(x) == a);
    assert(vstd::utf8::decode_utf8(y) == b);
}

proof fn lemma_bytes_less_trans(a: Seq<u8>, b: Seq<u8>, c: Seq<u8>)
    ensures
        bytes_less(a, b) && bytes_less(b, c) ==> bytes_less(a, c),
    decreases a.len(),
{
    if a.len() > 0 && b.len() > 0 && c.len() > 0 {
        lemma_bytes_less_trans(a.drop_first(), b.drop_first(), c.drop_first());
    }
}

proof fn lemma_bytes_less_witness(a: Seq<u8>, b: Seq<u8>)
    ensures
        bytes_less(a, b) <==> exists|k: int|
            #![trigger a.take(k)]
            0 <= k <= a.len() && k <= b.len() && a.take(k) == b.take(k) && ((k == a.len() && k
                < b.len()) || (k < a.len() && k < b.len() && a[k] < b[k])),
    decreases a.len(),
{
    if a.len() == 0 {
        if b.len() > 0 {
            assert(a.take(0) =~= b.take(0));
        }
    } else if b.len() == 0 {
    } else if a[0] != b[0] {
        assert(a.take(0) =~= b.take(0));
        if exists|k: int|
            #![trigger a.take(k)]
            0 <= k <= a.len() && k <= b.len() && a.take(k) == b.take(k) && ((k == a.len() && k
                < b.len()) || (k < a.len() && k < b.len() && a[k] < b[k])) {
            let k = choose|k: int|
                #![trigger a.take(k)]
                0 <= k <= a.len() && k <= b.len() && a.take(k) == b.take(k) && ((k == a.len() && k
                    < b.len()) || (k < a.len() && k < b.len() && a[k] < b[k]));
            if k > 0 {
                assert(a.take(k)[0] == b.take(k)[0]);
            }
        }
    } else {
        let a2 = a.drop_first();
        let b2 = b.drop_first();
        lemma_bytes_less_witness(a2, b2);
        if bytes_less(a, b) {
            let k = choose|k: int|
                #![trigger a2.take(k)]
                0 <= k <= a2.len() && k <= b2.len() && a2.take(k) == b2.take(k) && ((k == a2.len()
                    && k < b2.len()) || (k < a2.len() && k < b2.len() && a2[k] < b2[k]));
            assert(a.take(k + 1) =~= seq![a[0]] + a2.take(k));
            assert(b.take(k + 1) =~= seq![b[0]] + b2.take(k));
            assert(a.take(k + 1) == b.take(k + 1));
        }
        if exists|k: int|
            #![trigger a.take(k)]
            0 <= k <= a.len() && k <= b.len() && a.take(k) == b.take(k) && ((k == a.len() && k
                < b.len()) || (k < a.len() && k < b.len() && a[k] < b[k])) {
            let k = choose|k: int|
                #![trigger a.take(k)]
                0 <= k <= a.len() && k <= b.len() && a.take(k) == b.take(k) && ((k == a.len() && k
                    < b.len()) || (k < a.len() && k < b.len() && a[k] < b[k]));
            if k == 0 {
            } else {
                assert(a2.take(k - 1) =~= a.take(k).drop_first());
                assert(b2.take(k - 1) =~= b.take(k).drop_first());
                assert(a2.take(k - 1) == b2.take(k - 1));
                assert(bytes_less(a2, b2));
            }
        }
    }
}

/// Every line of each input appears exactly once in the output columns,
/// in its input's order: the first and third columns together give back
/// the first input, the second and third the second input. So a line is
/// in the third column only when both inputs hold it there.
pub proof fn law_merge_partitions(a: Seq<Seq<char>>, b: Seq<Seq<char>>)
    ensures
        left_of(merge_spec(a, b)) == a,
        right_of(merge_spec(a, b)) == b,
    decreases a.len() + b.len(),
{
    if a.len() == 0 && b.len() == 0 {
    } else if b.len() == 0 {
        law_merge_partitions(a.drop_first(), b);
        lemma_sides_cons((Side::Col1, a[0]), merge_spec(a.drop_first(), b));
        assert(a =~= seq![a[0]] + a.drop_first());
    } else if a.len() == 0 {
        law_merge_partitions(a, b.drop_first());
        lemma_sides_cons((Side::Col2, b[0]), merge_spec(a, b.drop_first()));
        assert(b =~= seq![b[0]] + b.drop_first());
    } else if line_less(a[0], b[0]) {
        law_merge_partitions(a.drop_first(), b);
        lemma_sides_cons((Side::Col1, a[0]), merge_spec(a.drop_first(), b));
        assert(a =~= seq![a[0]] + a.drop_first());
    } else if a[0] == b[0] {
        law_merge_partitions(a.drop_first(), b.drop_first());
        lemma_sides_cons((Side::Col3, a[0]), merge_spec(a.drop_first(), b.drop_first()));
        assert(a =~= seq![a[0]] + a.drop_first());
        assert(b =~= seq![b[0]] + b.drop_first());
    } else {
        law_merge_partitions(a, b.drop_first());
        lemma_sides_cons((Side::Col2, b[0]), merge_spec(a, b.drop_first()));
        assert(b =~= seq![b[0]] + b.drop_first());
    }
}

/// The cells of the output line for a line in the column `side`: a
/// hidden column prints nothing; a shown one is preceded by an empty cell
/// for each shown column to its left.
pub open spec fn cells(side: Side, text: Seq<char>, show1: bool, show2: bool, show3: bool) -> Seq<
    Seq<char>,
> {
    let empty = Seq::<char>::empty();
    match side {
        Side::Col1 => if show1 {
            seq![text]
        } else {
            seq![]
        },
        Side::Col2 => if show2 {
            (if show1 {
                seq![empty]
            } else {
                seq![]
            }) + seq![text]
        } else {
            seq![]
        },
        Side::Col3 => if show3 {
            (if show1 {
                seq![empty]
            } else {
                seq![]
            }) + (if show2 {
                seq![empty]
            } else {
                seq![]
            }) + seq![text]
        } else {
            seq![]
        },
    }
}

/// The parts `parts` with `sep` between each two, as `join` writes them.
pub open spec fn join(parts: Seq<Seq<char>>, sep: Seq<char>) -> Seq<char>
    decreases parts.len(),
{
    if parts.len() == 0 {
        seq![]
    } else if parts.len() == 1 {
        parts[0]
    } else {
        join(parts.drop_last(), sep) + sep + parts.last()
    }
}

/// What is printed for the column `c`: its cells joined by the
/// delimiter, or nothing when it has no cells.
pub open spec fn render_spec(
    c: (Side, Seq<char>),
    show1: bool,
    show2: bool,
    show3: bool,
    delimiter: Seq<char>,
) -> Option<Seq<char>> {
    let parts = cells(c.0, c.1, show1, show2, show3);
    if parts.len() == 0 {
        None
    } else {
        Some(join(parts, delimiter))
    }
}

/// What a line prints in each column: in the first column the line
/// itself; in the second, after one delimiter when the first column is
/// shown; in the third, after one delimiter for each of the first two
/// columns that is shown; and nothing when its own column is hidden.
pub proof fn law_render(
    t: Seq<char>,
    show1: bool,
    show2: bool,
    show3: bool,
    delimiter: Seq<char>,
)
    ensures
        render_spec((Side::Col1, t), show1, show2, show3, delimiter) == if show1 {
            Some(t)
        } else {
            None::<Seq<char>>
        },
        render_spec((Side::Col2, t), show1, show2, show3, delimiter) == if show2 {
            Some(
                (if show1 {
                    delimiter
                } else {
                    Seq::<char>::empty()
                }) + t,
            )
        } else {
            None::<Seq<char>>
        },
        render_spec((Side::Col3, t), show1, show2, show3, delimiter) == if show3 {
            Some(
                (if show1 {
                    delimiter
                } else {
                    Seq::<char>::empty()
                }) + (if show2 {
                    delimiter
                } else {
                    Seq::<char>::empty()
                }) + t,
            )
        } else {
            None::<Seq<char>>
        },
{
    let e = Seq::<char>::empty();
    let d = delimiter;
    reveal_with_fuel(join, 4);
    let p1 = cells(Side::Col1, t, show1, show2, show3);
    let p2 = cells(Side::Col2, t, show1, show2, show3);
    let p3 = cells(Side::Col3, t, show1, show2, show3);
    if show2 {
        if show1 {
            assert(p2 =~= seq![e, t]);
            assert(p2.drop_last() =~= seq![e]);
            assert(join(p2, d) =~= d + t);
        } else {
            assert(p2 =~= seq![t]);
            assert(join(p2, d) =~= e + t);
        }
    }
    if show3 {
        if show1 && show2 {
            assert(p3 =~= seq![e, e, t]);
            assert(p3.drop_last() =~= seq![e, e]);
            assert(p3.drop_last().drop_last() =~= seq![e]);
            assert(join(p3, d) =~= d + d + t);
        } else if show1 || show2 {
            assert(p3 =~= seq![e, t]);
            assert(p3.drop_last() =~= seq![e]);
            assert(join(p3, d) =~= (if show1 {
                d
            } else {
                e
            }) + (if show2 {
                d
            } else {
                e
            }) + t);
        } else {
            assert(p3 =~= seq![t]);
            assert(join(p3, d) =~= e + e + t);
        }
    }
    if show1 {
        assert(p1 =~= seq![t]);
    }
}

/// The text printed for `col` under `args` (without the line break), if
/// anything.
pub fn render(col: &Column, args: &Args) -> (r: Option<String>)
    ensures
        opt_text(r) == render_spec(
            column_view(*col),
            args.show_col1,
            args.show_col2,
            args.show_col3,
            args.delimiter@,
        ),
{
    let (shown, empties, text) = match col {
        Column::Col1(t) => (args.show_col1, 0usize, t),
        Column::Col2(t) => (args.show_col2, if args.show_col1 {
            1usize
        } else {
            0usize
        }, t),
        Column::Col3(t) => (args.show_col3, (if args.show_col1 {
            1usize
        } else {
            0usize
        }) + (if args.show_col2 {
            1usize
        } else {
            0usize
        }), t),
    };
    if !shown {
        return None;
    }
    let mut s = String::new();
    let mut k: usize = 0;
    while k < empties
        invariant
            k <= empties,
            empties <= 2,
            s@ == if k == 0 {
                Seq::<char>::empty()
            } else if k == 1 {
                args.delimiter@
            } else {
                args.delimiter@ + args.delimiter@
            },
        decreases empties - k,
    {
        push_str(&mut s, args.delimiter.as_str());
        k = k + 1;
    }
    push_str(&mut s, text.as_str());
    proof {
        let c = column_view(*col);
        let parts = cells(c.0, c.1, args.show_col1, args.show_col2, args.show_col3);
        let e = Seq::<char>::empty();
        let d = args.delimiter@;
        reveal_with_fuel(join, 4);
        if parts.len() == 2 {
            assert(parts.drop_last() =~= seq![e]);
            assert(join(parts, d) =~= d + text@);
        } else if parts.len() == 3 {
            assert(parts.drop_last() =~= seq![e, e]);
            assert(parts.drop_last().drop_last() =~= seq![e]);
            assert(join(parts, d) =~= d + d + text@);
        }
        assert(s@ =~= join(parts, d));
    }
    Some(s)
}

/// The lower-case form of `s`, as `str::to_lowercase` gives it.
pub uninterp spec fn lowercase(s: Seq<char>) -> Seq<char>;

/// `str::to_lowercase`. Claimed: its result is `lowercase` of the
/// characters of `s`.
#[verifier::external_body]
fn to_lowercase(s: &str) -> (r: String)
    ensures
        r@ == lowercase(s@),
{
    s.to_lowercase()
}

/// The lines as they are compared: in lower case when `insensitive`.
pub open spec fn case_fold(lines: Seq<Seq<char>>, insensitive: bool) -> Seq<Seq<char>> {
    if insensitive {
        lines.map_values(|l: Seq<char>| lowercase(l))
    } else {
        lines
    }
}

/// With `-i` each line is compared in lower case, one for one and in
/// order; without it the lines are compared as they are.
pub proof fn law_case_fold(lines: Seq<Seq<char>>, insensitive: bool)
    ensures
        case_fold(lines, insensitive).len() == lines.len(),
        insensitive ==> forall|i: int|
            0 <= i < lines.len() ==> #[trigger] case_fold(lines, insensitive)[i] == lowercase(
                lines[i],
            ),
        !insensitive ==> case_fold(lines, insensitive) == lines,
{
}

/// The lines of an input as they are compared.
pub fn fold_case(lines: &Vec<String>, insensitive: bool) -> (r: Vec<String>)
    ensures
        views(r@) == case_fold(views(lines@), insensitive),
{
    let mut r: Vec<String> = Vec::new();
    let mut i: usize = 0;
    while i < lines.len()
        invariant
            i <= lines@.len(),
            views(r@) == case_fold(views(lines@), insensitive).take(i as int),
        decreases lines@.len() - i,
    {
        let line = if insensitive {
            to_lowercase(lines[i].as_str())
        } else {
            copy_string(&lines[i])
        };
        assert(views(lines@)[i as int] == lines@[i as int]@);
        assert(case_fold(views(lines@), insensitive)[i as int] == line@);
        let ghost lv = line@;
        let ghost before = r@;
        r.push(line);
        assert(r@ == before.push(line));
        assert(views(r@) =~= views(before).push(lv));
        assert(views(r@) =~= case_fold(views(lines@), insensitive).take(i + 1));
        i = i + 1;
    }
    assert(case_fold(views(lines@), insensitive).take(lines@.len() as int) =~= case_fold(
        views(lines@),
        insensitive,
    ));
    r
}

/// The output lines for the merged columns `m`, in order, leaving out
/// those with nothing to print.
pub open spec fn rendered(
    m: Seq<(Side, Seq<char>)>,
    show1: bool,
    show2: bool,
    show3: bool,
    delimiter: Seq<char>,
) -> Seq<Seq<char>>
    decreases m.len(),
{
    if m.len() == 0 {
        seq![]
    } else {
        let rest = rendered(m.drop_last(), show1, show2, show3, delimiter);
        match render_spec(m.last(), show1, show2, show3, delimiter) {
            Some(t) => rest.push(t),
            None => rest,
        }
    }
}

/// The number of tabs that `l` begins with.
pub open spec fn leading_tabs(l: Seq<char>) -> nat
    decreases l.len(),
{
    if l.len() > 0 && l[0] == '\t' {
        1 + leading_tabs(l.drop_first())
    } else {
        0
    }
}

/// `l` without the tabs it begins with.
pub open spec fn strip_tabs(l: Seq<char>) -> Seq<char>
    decreases l.len(),
{
    if l.len() > 0 && l[0] == '\t' {
        strip_tabs(l.drop_first())
    } else {
        l
    }
}

/// The column that a line of the all-columns, tab-delimited output
/// belongs to: one more than its leading tabs.
pub open spec fn column_of(l: Seq<char>) -> Side {
    let k = leading_tabs(l);
    if k == 0 {
        Side::Col1
    } else if k == 1 {
        Side::Col2
    } else {
        Side::Col3
    }
}

/// The lines of the all-columns, tab-delimited output `ls` as they are
/// printed under other flags and another delimiter: each goes back to its
/// column, lines of hidden columns are dropped, and the rest are printed
/// after one delimiter for each shown column to their left.
pub open spec fn refiltered(
    ls: Seq<Seq<char>>,
    show1: bool,
    show2: bool,
    show3: bool,
    delimiter: Seq<char>,
) -> Seq<Seq<char>>
    decreases ls.len(),
{
    if ls.len() == 0 {
        seq![]
    } else {
        let rest = refiltered(ls.drop_last(), show1, show2, show3, delimiter);
        let l = ls.last();
        match render_spec((column_of(l), strip_tabs(l)), show1, show2, show3, delimiter) {
            Some(t) => rest.push(t),
            None => rest,
        }
    }
}

/// Whether `l` does not begin with a tab.
pub open spec fn no_leading_tab(l: Seq<char>) -> bool {
    l.len() == 0 || l[0] != '\t'
}

proof fn lemma_merge_texts(a: Seq<Seq<char>>, b: Seq<Seq<char>>)
    requires
        forall|i: int| 0 <= i < a.len() ==> no_leading_tab(#[trigger] a[i]),
        forall|i: int| 0 <= i < b.len() ==> no_leading_tab(#[trigger] b[i]),
    ensures
        forall|i: int|
            0 <= i < merge_spec(a, b).len() ==> no_leading_tab(#[trigger] merge_spec(a, b)[i].1),
    decreases a.len() + b.len(),
{
    let m = merge_spec(a, b);
    if a.len() == 0 && b.len() == 0 {
    } else {
        let (head, rest) = if b.len() == 0 || (a.len() > 0 && line_less(a[0], b[0])) {
            lemma_merge_texts(a.drop_first(), b);
            ((Side::Col1, a[0]), merge_spec(a.drop_first(), b))
        } else if a.len() == 0 {
            lemma_merge_texts(a, b.drop_first());
            ((Side::Col2, b[0]), merge_spec(a, b.drop_first()))
        } else if a[0] == b[0] {
            lemma_merge_texts(a.drop_first(), b.drop_first());
            ((Side::Col3, a[0]), merge_spec(a.drop_first(), b.drop_first()))
        } else {
            lemma_merge_texts(a, b.drop_first());
            ((Side::Col2, b[0]), merge_spec(a, b.drop_first()))
        };
        assert(m == seq![head] + rest);
        assert forall|i: int| 0 <= i < m.len() implies no_leading_tab(#[trigger] m[i].1) by {
            if i > 0 {
                assert(m[i] == rest[i - 1]);
            }
        }
    }
}

/// What the all-columns, tab-delimited output prints for one column.
proof fn lemma_full_render(c: (Side, Seq<char>))
    requires
        no_leading_tab(c.1),
    ensures
        render_spec(c, true, true, true, seq!['\t']) matches Some(l) && column_of(l) == c.0
            && strip_tabs(l) == c.1,
{
    let t = c.1;
    let tab = seq!['\t'];
    let e = Seq::<char>::empty();
    reveal_with_fuel(join, 4);
    reveal_with_fuel(leading_tabs, 3);
    reveal_with_fuel(strip_tabs, 3);
    match c.0 {
        Side::Col1 => {
            assert(cells(c.0, t, true, true, true) =~= seq![t]);
        },
        Side::Col2 => {
            let parts = cells(c.0, t, true, true, true);
            assert(parts =~= seq![e, t]);
            assert(parts.drop_last() =~= seq![e]);
            let l = tab + t;
            assert(join(parts, tab) =~= l);
            assert(l.drop_first() =~= t);
        },
        Side::Col3 => {
            let parts = cells(c.0, t, true, true, true);
            assert(parts =~= seq![e, e, t]);
            assert(parts.drop_last() =~= seq![e, e]);
            assert(parts.drop_last().drop_last() =~= seq![e]);
            let l = tab + tab + t;
            assert(join(parts, tab) =~= l);
            assert(l.drop_first() =~= tab + t);
            assert(l.drop_first().drop_first() =~= t);
        },
    }
}

proof fn lemma_rendered_refiltered(
    m: Seq<(Side, Seq<char>)>,
    show1: bool,
    show2: bool,
    show3: bool,
    delimiter: Seq<char>,
)
    requires
        forall|i: int| 0 <= i < m.len() ==> no_leading_tab(#[trigger] m[i].1),
    ensures
        rendered(m, show1, show2, show3, delimiter) == refiltered(
            rendered(m, true, true, true, seq!['\t']),
            show1,
            show2,
            show3,
            delimiter,
        ),
    decreases m.len(),
{
    if m.len() > 0 {
        let init = m.drop_last();
        assert forall|i: int| 0 <= i < init.len() implies no_leading_tab(#[trigger] init[i].1) by {
            assert(init[i] == m[i]);
        }
        lemma_rendered_refiltered(init, show1, show2, show3, delimiter);
        assert(no_leading_tab(m.last().1));
        lemma_full_render(m.last());
        let full = rendered(m, true, true, true, seq!['\t']);
        let l = render_spec(m.last(), true, true, true, seq!['\t'])->0;
        assert(full == rendered(init, true, true, true, seq!['\t']).push(l));
        assert(full.drop_last() =~= rendered(init, true, true, true, seq!['\t']));
        assert(full.last() == l);
        assert((column_of(l), strip_tabs(l)) == m.last());
    }
}

/// The flags and the delimiter only choose and dress the lines of the
/// all-columns, tab-delimited output: when no compared line begins with a
/// tab, the output under any flags and delimiter is that output with the
/// lines of hidden columns dropped and each remaining line's leading tabs
/// replaced by one delimiter for each shown column to its left. (With
/// `-i` the compared lines are the lower-case ones.)
pub proof fn law_column_filter(
    lines1: Seq<Seq<char>>,
    lines2: Seq<Seq<char>>,
    insensitive: bool,
    show1: bool,
    show2: bool,
    show3: bool,
    delimiter: Seq<char>,
)
    requires
        forall|i: int|
            0 <= i < lines1.len() ==> no_leading_tab(
                #[trigger] case_fold(lines1, insensitive)[i],
            ),
        forall|i: int|
            0 <= i < lines2.len() ==> no_leading_tab(
                #[trigger] case_fold(lines2, insensitive)[i],
            ),
    ensures
        ({
            let m = merge_spec(case_fold(lines1, insensitive), case_fold(lines2, insensitive));
            rendered(m, show1, show2, show3, delimiter) == refiltered(
                rendered(m, true, true, true, seq!['\t']),
                show1,
                show2,
                show3,
                delimiter,
            )
        }),
{
    let a = case_fold(lines1, insensitive);
    let b = case_fold(lines2, insensitive);
    assert(a.len() == lines1.len());
    assert(b.len() == lines2.len());
    lemma_merge_texts(a, b);
    lemma_rendered_refiltered(merge_spec(a, b), show1, show2, show3, delimiter);
}

/// The output of `comm` for two inputs whose lines are `lines1` and
/// `lines2` (without line breaks).
pub open spec fn comm_spec(args: &Args, lines1: Seq<Seq<char>>, lines2: Seq<Seq<char>>) -> Seq<
    Seq<char>,
> {
    rendered(
        merge_spec(case_fold(lines1, args.insensitive), case_fold(lines2, args.insensitive)),
        args.show_col1,
        args.show_col2,
        args.show_col3,
        args.delimiter@,
    )
}

/// The lines printed by `comm` for the inputs `lines1` and `lines2`.
pub fn comm(args: &Args, lines1: &Vec<String>, lines2: &Vec<String>) -> (r: Vec<String>)
    ensures
        views(r@) == comm_spec(args, views(lines1@), views(lines2@)),
{
    let a = fold_case(lines1, args.insensitive);
    let b = fold_case(lines2, args.insensitive);
    let cols = merge(&a, &b);
    let ghost m = column_views(cols@);
    let mut r: Vec<String> = Vec::new();
    let mut i: usize = 0;
    while i < cols.len()
        invariant
            i <= cols@.len(),
            m == column_views(cols@),
            views(r@) == rendered(
                m.take(i as int),
                args.show_col1,
                args.show_col2,
                args.show_col3,
                args.delimiter@,
            ),
        decreases cols@.len() - i,
    {
        assert(m.take(i + 1).drop_last() =~= m.take(i as int));
        assert(m.take(i + 1).last() == column_view(cols@[i as int]));
        match render(&cols[i], args) {
            Some(t) => {
                r.push(t);
                assert(views(r@) =~= rendered(
                    m.take(i as int),
                    args.show_col1,
                    args.show_col2,
                    args.show_col3,
                    args.delimiter@,
                ).push(r@.last()@));
            },
            None => {},
        }
        i = i + 1;
    }
    assert(m.take(cols@.len() as int) =~= m);
    r
}

} // verus!
