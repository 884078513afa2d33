//! Aligned tables of text: every column padded to its widest cell.
use vstd::prelude::*;

use crate::text::{join_strings, seq_join, spaces, spaces_seq, strings_view};

verus! {

/// The displayed width of a text, in terminal columns, as `unicode-width` counts it.
pub uninterp spec fn text_width(s: Seq<char>) -> usize;

/// `unicode_width::UnicodeWidthStr::width`: claimed to return the displayed width of `s`,
/// named [`text_width`], a function of the text alone.
#[verifier::external_body]
fn display_width(s: &str) -> (r: usize)
    ensures
        r == text_width(s@),
{
    unicode_width::UnicodeWidthStr::width(s)
}

/// A value that can stand in a table cell.
pub trait Cell {
    spec fn cell_view(&self) -> Seq<char>;

    fn cell(&self) -> (r: &str)
        ensures
            r@ == self.cell_view(),
    ;
}

impl Cell for String {
    open spec fn cell_view(&self) -> Seq<char> {
        self@
    }

    fn cell(&self) -> (r: &str) {
        self.as_str()
    }
}

impl<'a> Cell for &'a str {
    open spec fn cell_view(&self) -> Seq<char> {
        (*self)@
    }

    fn cell(&self) -> (r: &str) {
        *self
    }
}

/// The cells of a table, by content.
pub open spec fn rows_view<I: Cell, const S: usize>(a: Seq<[I; S]>) -> Seq<Seq<Seq<char>>> {
    a.map_values(|row: [I; S]| row@.map_values(|c: I| c.cell_view()))
}

/// The widest cell of column `i`.
pub open spec fn column_width(rows: Seq<Seq<Seq<char>>>, i: int) -> int
    decreases rows.len(),
{
    if rows.len() == 0 {
        0
    } else {
        let prev = column_width(rows.drop_last(), i);
        let w = text_width(rows.last()[i]) as int;
        if w > prev { w } else { prev }
    }
}

/// A cell padded with spaces to width `w`.
pub open spec fn padded(cell: Seq<char>, w: int) -> Seq<char> {
    cell + spaces_seq((w - text_width(cell)) as nat)
}

/// One row of a table: each cell padded to its column's width, cells separated by a space.
pub open spec fn table_line(rows: Seq<Seq<Seq<char>>>, row: Seq<Seq<char>>) -> Seq<char> {
    seq_join(Seq::new(row.len(), |i: int| padded(row[i], column_width(rows, i))), seq![' '])
}

/// The lines of the table; no line at all when there is no row.
pub open spec fn table_lines(rows: Seq<Seq<Seq<char>>>) -> Seq<Seq<char>> {
    Seq::new(rows.len(), |k: int| table_line(rows, rows[k]))
}

proof fn lemma_column_width_bound(rows: Seq<Seq<Seq<char>>>, i: int, k: int)
    requires
        0 <= k < rows.len(),
    ensures
        text_width(rows[k][i]) <= column_width(rows, i),
        column_width(rows, i) >= 0,
    decreases rows.len(),
{
    if k < rows.len() - 1 {
        lemma_column_width_bound(rows.drop_last(), i, k);
        assert(rows.drop_last()[k] == rows[k]);
    }
}

/// Lays the rows out as aligned lines: each cell padded with spaces to the widest cell of
/// its column, the cells of a row separated by one space.
pub fn to_lines<const S: usize, I: Cell>(a: &[[I; S]]) -> (r: Vec<String>)
    ensures
        strings_view(r@) == table_lines(rows_view(a@)),
{
    let ghost rv = rows_view(a@);
    if a.len() == 0 {
        let e: Vec<String> = Vec::new();
        assert(strings_view(e@) =~= table_lines(rv));
        return e;
    }
    let mut w: Vec<usize> = Vec::new();
    let mut i: usize = 0;
    while i < S
        invariant
            i <= S,
            a@.len() > 0,
            rv == rows_view(a@),
            w@.len() == i,
            forall|j: int| 0 <= j < i ==> w@[j] == column_width(rv, j),
        decreases S - i,
    {
        let mut m: usize = 0;
        let mut k: usize = 0;
        while k < a.len()
            invariant
                i < S,
                k <= a@.len(),
                rv == rows_view(a@),
                m == column_width(rv.take(k as int), i as int),
            decreases a.len() - k,
        {
            let x = display_width(a[k][i].cell());
            assert(rv.take(k + 1).drop_last() =~= rv.take(k as int));
            assert(rv.take(k + 1).last()[i as int] == a@[k as int]@[i as int].cell_view());
            if x > m {
                m = x;
            }
            k += 1;
        }
        assert(rv.take(a@.len() as int) =~= rv);
        w.push(m);
        i += 1;
    }
    let mut out: Vec<String> = Vec::new();
    let mut k: usize = 0;
    while k < a.len()
        invariant
            k <= a@.len(),
            rv == rows_view(a@),
            w@.len() == S,
            forall|j: int| 0 <= j < S ==> w@[j] == column_width(rv, j),
            strings_view(out@) =~= table_lines(rv).take(k as int),
        decreases a.len() - k,
    {
        let row = &a[k];
        let mut cells: Vec<String> = Vec::new();
        let mut i: usize = 0;
        while i < S
            invariant
                k < a@.len(),
                i <= S,
                rv == rows_view(a@),
                *row == a@[k as int],
                w@.len() == S,
                forall|j: int| 0 <= j < S ==> w@[j] == column_width(rv, j),
                strings_view(cells@) =~= Seq::new(
                    i as nat,
                    |j: int| padded(rv[k as int][j], column_width(rv, j)),
                ),
            decreases S - i,
        {
            let s = row[i].cell();
            let x = display_width(s);
            proof {
                lemma_column_width_bound(rv, i as int, k as int);
            }
            assert(s@ == rv[k as int][i as int]);
            let mut c = s.to_owned();
            let pad = spaces(w[i] - x);
            c.append(pad.as_str());
            assert(c@ == padded(rv[k as int][i as int], column_width(rv, i as int)));
            let ghost before = cells@;
            cells.push(c);
            assert(strings_view(cells@) =~= strings_view(before).push(c@));
            i += 1;
        }
        proof {
            reveal_strlit(" ");
        }
        let line = join_strings(&cells, " ");
        assert(" "@ =~= seq![' ']);
        assert(rv[k as int].len() == S);
        assert(strings_view(cells@) =~= Seq::new(
            rv[k as int].len(),
            |j: int| padded(rv[k as int][j], column_width(rv, j)),
        ));
        assert(line@ == table_line(rv, rv[k as int]));
        let ghost before = out@;
        out.push(line);
        assert(strings_view(out@) =~= strings_view(before).push(line@));
        k += 1;
    }
    out
}

/// The text of a table: its aligned lines, separated by newlines.
pub open spec fn table_text<I: Cell, const S: usize>(a: Seq<[I; S]>) -> Seq<char> {
    seq_join(table_lines(rows_view(a)), seq!['\n'])
}

/// The aligned lines of the table, separated by newlines.
pub fn to_table<const S: usize, I: Cell>(a: &[[I; S]]) -> (r: String)
    ensures
        r@ == table_text(a@),
{
    let lines = to_lines(a);
    proof {
        reveal_strlit("\n");
    }
    assert("\n"@ =~= seq!['\n']);
    join_strings(&lines, "\n")
}

/// The length of a text in bytes, encoded as UTF-8.
pub open spec fn byte_len(s: Seq<char>) -> int {
    vstd::utf8::encode_utf8(s).len() as int
}

/// The largest byte length in one column of a two-column table.
pub open spec fn widest(d: Seq<(String, String)>, first: bool) -> int
    decreases d.len(),
{
    if d.len() == 0 {
        0
    } else {
        let prev = widest(d.drop_last(), first);
        let w = if first { byte_len(d.last().0@) } else { byte_len(d.last().1@) };
        if w > prev { w } else { prev }
    }
}

/// A text padded with spaces to at least `w` characters.
pub open spec fn pad_to(s: Seq<char>, w: int) -> Seq<char> {
    if s.len() < w { s + spaces_seq((w - s.len()) as nat) } else { s }
}

/// The two-column table: each row's cells padded to the byte length of their column's
/// longest cell, separated by a space; rows separated by newlines.
pub open spec fn two_column_text(d: Seq<(String, String)>) -> Seq<char> {
    seq_join(
        Seq::new(
            d.len(),
            |k: int|
                pad_to(d[k].0@, widest(d, true)) + seq![' '] + pad_to(d[k].1@, widest(d, false)),
        ),
        seq!['\n'],
    )
}

/// `s` padded with spaces to at least `w` characters.
fn pad_text(s: &str, w: usize) -> (r: String)
    ensures
        r@ == pad_to(s@, w as int),
{
    let n = crate::text::chars_of(s).len();
    let mut r = s.to_owned();
    if n < w {
        let sp = spaces(w - n);
        r.append(sp.as_str());
    }
    r
}

/// Lays out a two-column table, each column as wide as its longest cell in bytes.
pub fn print_table(d: &Vec<(String, String)>) -> (r: String)
    requires
        d@.len() > 0,
    ensures
        r@ == two_column_text(d@),
{
    let mut r0: usize = 0;
    let mut r1: usize = 0;
    let mut k: usize = 0;
    while k < d.len()
        invariant
            k <= d@.len(),
            r0 == widest(d@.take(k as int), true),
            r1 == widest(d@.take(k as int), false),
        decreases d.len() - k,
    {
        assert(d@.take(k + 1).drop_last() =~= d@.take(k as int));
        assert(d@.take(k + 1).last() == d@[k as int]);
        let a = d[k].0.as_str().as_bytes().len();
        let b = d[k].1.as_str().as_bytes().len();
        if a > r0 {
            r0 = a;
        }
        if b > r1 {
            r1 = b;
        }
        k += 1;
    }
    assert(d@.take(d@.len() as int) =~= d@);
    let mut lines: Vec<String> = Vec::new();
    let mut k: usize = 0;
    proof {
        reveal_strlit(" ");
        reveal_strlit("\n");
    }
    while k < d.len()
        invariant
            k <= d@.len(),
            r0 == widest(d@, true),
            r1 == widest(d@, false),
            " "@ == seq![' '],
            strings_view(lines@) =~= Seq::new(
                k as nat,
                |x: int|
                    pad_to(d@[x].0@, widest(d@, true)) + seq![' '] + pad_to(
                        d@[x].1@,
                        widest(d@, false),
                    ),
            ),
        decreases d.len() - k,
    {
        let mut line = pad_text(d[k].0.as_str(), r0);
        line.append(" ");
        let b = pad_text(d[k].1.as_str(), r1);
        line.append(b.as_str());
        let ghost l0 = lines@;
        lines.push(line);
        assert(strings_view(lines@) =~= strings_view(l0).push(line@));
        k += 1;
    }
    assert("\n"@ =~= seq!['\n']);
    join_strings(&lines, "\n")
}

} // verus!
