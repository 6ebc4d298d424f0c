//! Chat-friendly text rendering.
//!
//! Chat platforms do not render Markdown tables: the pipes show literally and
//! misalign on a phone screen. [`tables_to_aligned`] rewrites each table into a
//! monospace code block whose columns are aligned by visual width, where a CJK
//! glyph takes two cells.

use crate::text::{
    chars_of, contains_char, count_of, first_of, is_space, join, joined,
    law_split_at_each_separator, law_trimmed_stands_in_the_text, lemma_count_concat,
    lemma_count_none, lemma_first_of, lemma_first_of_bounds, lemma_split_joined, lemma_texts_push,
    skip, split, split_on, texts, trim, trim_end, trim_start, trimmed,
};
use vstd::prelude::*;
use vstd::string::*;
use vstd::utf8::*;

verus! {

// ---------------------------------------------------------------------------
// Visual width
// ---------------------------------------------------------------------------

/// The characters that a monospace font shows two cells wide.
pub open spec fn wide(c: char) -> bool {
    ||| '\u{1100}' <= c <= '\u{115f}'
    ||| '\u{2e80}' <= c <= '\u{303e}'
    ||| '\u{3041}' <= c <= '\u{33ff}'
    ||| '\u{3400}' <= c <= '\u{4dbf}'
    ||| '\u{4e00}' <= c <= '\u{9fff}'
    ||| '\u{a000}' <= c <= '\u{a4cf}'
    ||| '\u{ac00}' <= c <= '\u{d7a3}'
    ||| '\u{f900}' <= c <= '\u{faff}'
    ||| '\u{fe30}' <= c <= '\u{fe4f}'
    ||| '\u{ff00}' <= c <= '\u{ff60}'
    ||| '\u{ffe0}' <= c <= '\u{ffe6}'
    ||| '\u{1f300}' <= c <= '\u{1faff}'
}

/// Whether a character is rendered two cells wide: Hangul, CJK, kana, Yi,
/// fullwidth forms and emoji.
pub fn is_wide(c: char) -> (r: bool)
    ensures
        r == wide(c),
{
    ('\u{1100}' <= c && c <= '\u{115f}') || ('\u{2e80}' <= c && c <= '\u{303e}') || ('\u{3041}' <= c
        && c <= '\u{33ff}') || ('\u{3400}' <= c && c <= '\u{4dbf}') || ('\u{4e00}' <= c && c
        <= '\u{9fff}') || ('\u{a000}' <= c && c <= '\u{a4cf}') || ('\u{ac00}' <= c && c
        <= '\u{d7a3}') || ('\u{f900}' <= c && c <= '\u{faff}') || ('\u{fe30}' <= c && c
        <= '\u{fe4f}') || ('\u{ff00}' <= c && c <= '\u{ff60}') || ('\u{ffe0}' <= c && c
        <= '\u{ffe6}') || ('\u{1f300}' <= c && c <= '\u{1faff}')
}

/// The emphasis markers, which do not show inside a code block.
pub open spec fn marker(c: char) -> bool {
    c == '*' || c == '`' || c == '_'
}

/// The cells that one character takes.
pub open spec fn cells(c: char) -> nat {
    if marker(c) {
        0
    } else if wide(c) {
        2
    } else {
        1
    }
}

/// The cells that a text takes.
pub open spec fn width(s: Seq<char>) -> nat
    decreases s.len(),
{
    if s.len() == 0 {
        0
    } else {
        cells(s[0]) + width(s.drop_first())
    }
}

proof fn lemma_width_within_bytes(s: Seq<char>)
    ensures
        width(s) <= encode_utf8(s).len(),
    decreases s.len(),
{
    if s.len() > 0 {
        lemma_width_within_bytes(s.drop_first());
    }
}

proof fn lemma_bytes_of_suffix(s: Seq<char>, i: int)
    requires
        0 <= i <= s.len(),
    ensures
        encode_utf8(s.skip(i)).len() <= encode_utf8(s).len(),
    decreases i,
{
    if i > 0 {
        lemma_bytes_of_suffix(s.drop_first(), i - 1);
        assert(s.drop_first().skip(i - 1) =~= s.skip(i));
    } else {
        assert(s.skip(0) =~= s);
    }
}

/// The visual width of a cell; emphasis markers take no room.
pub fn visual_width(s: &str) -> (r: usize)
    ensures
        r == width(s@),
{
    let v: Vec<char> = chars_of(s);
    let bytes: usize = s.as_bytes().len();
    let mut i: usize = v.len();
    let mut w: usize = 0;
    assert(v@.skip(i as int) =~= Seq::<char>::empty());
    while i > 0
        invariant
            i <= v.len(),
            v@ == s@,
            w == width(v@.skip(i as int)),
            bytes == encode_utf8(s@).len(),
        decreases i,
    {
        i -= 1;
        proof {
            assert(v@.skip(i as int).drop_first() =~= v@.skip(i + 1));
            lemma_width_within_bytes(v@.skip(i as int));
            lemma_bytes_of_suffix(v@, i as int);
        }
        let c: char = v[i];
        if !(c == '*' || c == '`' || c == '_') {
            w += if is_wide(c) {
                2
            } else {
                1
            };
        }
    }
    assert(v@.skip(0) =~= v@);
    w
}

/// A text without its emphasis markers.
pub open spec fn unmarked(s: Seq<char>) -> Seq<char> {
    s.filter(|c: char| !marker(c))
}

pub fn strip_markers(s: &str) -> (r: String)
    ensures
        r@ == unmarked(s@),
{
    let v: Vec<char> = chars_of(s);
    let mut r: String = String::new();
    let mut i: usize = 0;
    assert(unmarked(v@.take(0)) =~= Seq::<char>::empty()) by {
        reveal(Seq::filter);
    }
    while i < v.len()
        invariant
            i <= v.len(),
            v@ == s@,
            r@ == unmarked(v@.take(i as int)),
        decreases v.len() - i,
    {
        let c: char = v[i];
        proof {
            reveal(Seq::filter);
            assert(v@.take(i + 1).drop_last() =~= v@.take(i as int));
        }
        if !(c == '*' || c == '`' || c == '_') {
            r.push(c);
        }
        i += 1;
    }
    assert(v@.take(v.len() as int) =~= v@);
    r
}

// ---------------------------------------------------------------------------
// Recognising a table
// ---------------------------------------------------------------------------

/// The text between the bordering pipes of a row.
pub open spec fn unbordered(line: Seq<char>) -> Seq<char> {
    let t = trimmed(line);
    let t = if t.len() > 0 && t[0] == '|' {
        t.skip(1)
    } else {
        t
    };
    if t.len() > 0 && t.last() == '|' {
        t.drop_last()
    } else {
        t
    }
}

/// The trimmed cells of a row.
pub open spec fn row_cells(line: Seq<char>) -> Seq<Seq<char>> {
    split(unbordered(line), '|').map_values(|c: Seq<char>| trimmed(c))
}

/// A line with a pipe in it.
pub open spec fn table_row(line: Seq<char>) -> bool {
    trimmed(line).len() > 0 && trimmed(line).contains('|')
}

/// A cell of the separator row: dashes, with or without colons.
pub open spec fn dashes(c: Seq<char>) -> bool {
    let t = trimmed(c);
    &&& t.len() > 0
    &&& forall|k: int| 0 <= k < t.len() ==> (#[trigger] t[k] == '-' || t[k] == ':')
    &&& t.contains('-')
}

/// A row whose cells are all dashes.
pub open spec fn separator_row(line: Seq<char>) -> bool {
    forall|k: int| 0 <= k < row_cells(line).len() ==> dashes(#[trigger] row_cells(line)[k])
}

/// A line that looks like a table row.
pub fn is_table_row(line: &str) -> (r: bool)
    ensures
        r == table_row(line@),
{
    let t: &str = trim(line);
    !t.is_empty() && contains_char(t, '|')
}

/// Splits a table row into trimmed cells, without the empty cells that the
/// bordering pipes would give.
pub fn split_row(line: &str) -> (r: Vec<String>)
    ensures
        texts(r@) == row_cells(line@),
{
    let t: &str = trim(line);
    let t1: &str = if !t.is_empty() && t.get_char(0) == '|' {
        skip(t, 1)
    } else {
        t
    };
    let n: usize = t1.unicode_len();
    let t2: &str = if n > 0 && t1.get_char(n - 1) == '|' {
        assert(t1@.subrange(0, n - 1) =~= t1@.drop_last());
        t1.substring_char(0, n - 1)
    } else {
        t1
    };
    assert(t2@ == unbordered(line@));
    let parts: Vec<String> = split_on(t2, '|');
    let ghost all = split(t2@, '|');
    let mut r: Vec<String> = Vec::new();
    let mut i: usize = 0;
    while i < parts.len()
        invariant
            i <= parts.len(),
            texts(parts@) == all,
            texts(r@) == all.take(i as int).map_values(|c: Seq<char>| trimmed(c)),
        decreases parts.len() - i,
    {
        let cell: String = trim(parts[i].as_str()).to_owned();
        proof {
            assert(all[i as int] == parts[i as int]@);
            lemma_texts_push(r@, cell);
            assert(all.take(i + 1).map_values(|c: Seq<char>| trimmed(c)) =~= all.take(
                i as int,
            ).map_values(|c: Seq<char>| trimmed(c)).push(cell@));
        }
        r.push(cell);
        i += 1;
    }
    assert(all.take(parts.len() as int) =~= all);
    r
}

fn is_dashes(cell: &str) -> (r: bool)
    ensures
        r == dashes(cell@),
{
    let t: &str = trim(cell);
    let v: Vec<char> = chars_of(t);
    let mut dash: bool = false;
    let mut i: usize = 0;
    while i < v.len()
        invariant
            i <= v.len(),
            v@ == trimmed(cell@),
            dash == v@.take(i as int).contains('-'),
            forall|k: int| 0 <= k < i ==> (#[trigger] v@[k] == '-' || v@[k] == ':'),
        decreases v.len() - i,
    {
        if v[i] != '-' && v[i] != ':' {
            return false;
        }
        proof {
            assert(v@.take(i + 1) =~= v@.take(i as int).push(v@[i as int]));
            if dash {
                let k = choose|k: int| 0 <= k < i && v@.take(i as int)[k] == '-';
                assert(v@.take(i + 1)[k] == '-');
            }
            if v@[i as int] == '-' {
                assert(v@.take(i + 1)[i as int] == '-');
            }
        }
        if v[i] == '-' {
            dash = true;
        }
        i += 1;
    }
    assert(v@.take(v.len() as int) =~= v@);
    dash
}

/// The separator row: every cell is dashes, optionally anchored by colons.
pub fn is_separator_row(line: &str) -> (r: bool)
    ensures
        r == separator_row(line@),
{
    let row: Vec<String> = split_row(line);
    let mut i: usize = 0;
    while i < row.len()
        invariant
            i <= row.len(),
            texts(row@) == row_cells(line@),
            forall|k: int| 0 <= k < i ==> dashes(#[trigger] row_cells(line@)[k]),
        decreases row.len() - i,
    {
        assert(row_cells(line@)[i as int] == row[i as int]@);
        if !is_dashes(row[i].as_str()) {
            return false;
        }
        i += 1;
    }
    true
}


// ---------------------------------------------------------------------------
// Rendering a table
// ---------------------------------------------------------------------------

/// `n` times the character `c`.
pub open spec fn repeated(c: char, n: nat) -> Seq<char> {
    Seq::new(n, |i: int| c)
}

fn repeat(c: char, n: usize) -> (r: String)
    ensures
        r@ == repeated(c, n as nat),
{
    let mut r: String = String::new();
    let mut i: usize = 0;
    assert(r@ =~= repeated(c, 0));
    while i < n
        invariant
            i <= n,
            r@ == repeated(c, i as nat),
        decreases n - i,
    {
        assert(repeated(c, i as nat).push(c) =~= repeated(c, (i + 1) as nat));
        r.push(c);
        i += 1;
    }
    r
}

/// The cells of each row in a list.
pub open spec fn grid(rows: Seq<Vec<String>>) -> Seq<Seq<Seq<char>>> {
    rows.map_values(|r: Vec<String>| texts(r@))
}

/// The number of columns: the length of the longest row.
pub open spec fn columns(rows: Seq<Seq<Seq<char>>>) -> nat
    decreases rows.len(),
{
    if rows.len() == 0 {
        0
    } else if columns(rows.drop_last()) < rows.last().len() {
        rows.last().len()
    } else {
        columns(rows.drop_last())
    }
}

/// The cell of a row in column `k`; a short row has empty cells at its end.
pub open spec fn cell_at(row: Seq<Seq<char>>, k: int) -> Seq<char> {
    if 0 <= k < row.len() {
        row[k]
    } else {
        Seq::empty()
    }
}

/// The width of the widest cell in column `k`.
pub open spec fn column_width(rows: Seq<Seq<Seq<char>>>, k: int) -> nat
    decreases rows.len(),
{
    if rows.len() == 0 {
        0
    } else if column_width(rows.drop_last(), k) < width(cell_at(rows.last(), k)) {
        width(cell_at(rows.last(), k))
    } else {
        column_width(rows.drop_last(), k)
    }
}

/// The widths of all columns.
pub open spec fn column_widths(rows: Seq<Seq<Seq<char>>>) -> Seq<nat> {
    Seq::new(columns(rows), |k: int| column_width(rows, k))
}

/// A cell without markers, filled up with spaces to `w` cells.
pub open spec fn padded(cell: Seq<char>, w: nat) -> Seq<char> {
    unmarked(cell) + repeated(
        ' ',
        if width(cell) < w {
            (w - width(cell)) as nat
        } else {
            0
        },
    )
}

/// One row with its cells padded to the columns' widths.
pub open spec fn aligned_row(row: Seq<Seq<char>>, widths: Seq<nat>) -> Seq<char> {
    joined(Seq::new(widths.len(), |k: int| padded(cell_at(row, k), widths[k])), " | "@)
}

/// The line under the header.
pub open spec fn rule(widths: Seq<nat>) -> Seq<char> {
    joined(Seq::new(widths.len(), |k: int| repeated('-', widths[k])), "-+-"@)
}

/// The lines of the code block that stands for a table.
pub open spec fn code_block(headers: Seq<Seq<char>>, rows: Seq<Seq<Seq<char>>>) -> Seq<Seq<char>> {
    let widths = column_widths(seq![headers] + rows);
    if widths.len() == 0 {
        Seq::empty()
    } else {
        seq!["```"@, aligned_row(headers, widths), rule(widths)] + rows.map_values(
            |r: Seq<Seq<char>>| aligned_row(r, widths),
        ) + seq!["```"@]
    }
}

fn cell_of<'a>(row: &'a Vec<String>, k: usize) -> (r: &'a str)
    ensures
        r@ == cell_at(texts(row@), k as int),
{
    if k < row.len() {
        row[k].as_str()
    } else {
        proof {
            reveal_strlit("");
            assert(""@ =~= Seq::<char>::empty());
        }
        ""
    }
}

fn width_of_column(headers: &Vec<String>, rows: &Vec<Vec<String>>, k: usize) -> (w: usize)
    ensures
        w == column_width(seq![texts(headers@)] + grid(rows@), k as int),
{
    let ghost all = seq![texts(headers@)] + grid(rows@);
    let mut w: usize = visual_width(cell_of(headers, k));
    proof {
        assert(all.take(1).drop_last() =~= Seq::empty());
        assert(all.take(1).last() == texts(headers@));
        assert(column_width(all.take(1).drop_last(), k as int) == 0);
    }
    let mut i: usize = 0;
    while i < rows.len()
        invariant
            i <= rows.len(),
            all == seq![texts(headers@)] + grid(rows@),
            w == column_width(all.take(i + 1), k as int),
        decreases rows.len() - i,
    {
        let c: usize = visual_width(cell_of(&rows[i], k));
        proof {
            assert(all.take(i + 2).drop_last() =~= all.take(i + 1));
            assert(all.take(i + 2).last() == texts(rows@[i as int]@));
        }
        if c > w {
            w = c;
        }
        i += 1;
    }
    assert(all.take(rows.len() + 1) =~= all);
    w
}

fn count_columns(headers: &Vec<String>, rows: &Vec<Vec<String>>) -> (n: usize)
    ensures
        n == columns(seq![texts(headers@)] + grid(rows@)),
{
    let ghost all = seq![texts(headers@)] + grid(rows@);
    let mut n: usize = headers.len();
    proof {
        assert(all.take(1).drop_last() =~= Seq::empty());
        assert(all.take(1).last() == texts(headers@));
        assert(columns(all.take(1).drop_last()) == 0);
    }
    let mut i: usize = 0;
    while i < rows.len()
        invariant
            i <= rows.len(),
            all == seq![texts(headers@)] + grid(rows@),
            n == columns(all.take(i + 1)),
        decreases rows.len() - i,
    {
        proof {
            assert(all.take(i + 2).drop_last() =~= all.take(i + 1));
            assert(all.take(i + 2).last() == texts(rows@[i as int]@));
        }
        if rows[i].len() > n {
            n = rows[i].len();
        }
        i += 1;
    }
    assert(all.take(rows.len() + 1) =~= all);
    n
}

/// The numbers of a list, without bounds.
pub open spec fn numbers(v: Seq<usize>) -> Seq<nat> {
    v.map_values(|x: usize| x as nat)
}

fn align_row(row: &Vec<String>, widths: &Vec<usize>) -> (r: String)
    ensures
        r@ == aligned_row(texts(row@), numbers(widths@)),
{
    let ghost ws = numbers(widths@);
    let ghost want = Seq::new(ws.len(), |k: int| padded(cell_at(texts(row@), k), ws[k]));
    let mut parts: Vec<String> = Vec::new();
    let mut k: usize = 0;
    while k < widths.len()
        invariant
            k <= widths.len(),
            ws == numbers(widths@),
            want == Seq::new(ws.len(), |k: int| padded(cell_at(texts(row@), k), ws[k])),
            texts(parts@) == want.take(k as int),
        decreases widths.len() - k,
    {
        let cell: &str = cell_of(row, k);
        let w: usize = visual_width(cell);
        let mut part: String = strip_markers(cell);
        let fill: usize = if w < widths[k] {
            widths[k] - w
        } else {
            0
        };
        let spaces: String = repeat(' ', fill);
        part.append(spaces.as_str());
        proof {
            lemma_texts_push(parts@, part);
            assert(part@ == want[k as int]);
            assert(want.take(k as int).push(part@) =~= want.take(k + 1));
        }
        parts.push(part);
        k += 1;
    }
    assert(want.take(widths.len() as int) =~= want);
    join(&parts, " | ")
}

fn draw_rule(widths: &Vec<usize>) -> (r: String)
    ensures
        r@ == rule(numbers(widths@)),
{
    let ghost ws = numbers(widths@);
    let ghost want = Seq::new(ws.len(), |k: int| repeated('-', ws[k]));
    let mut parts: Vec<String> = Vec::new();
    let mut k: usize = 0;
    while k < widths.len()
        invariant
            k <= widths.len(),
            ws == numbers(widths@),
            want == Seq::new(ws.len(), |k: int| repeated('-', ws[k])),
            texts(parts@) == want.take(k as int),
        decreases widths.len() - k,
    {
        let part: String = repeat('-', widths[k]);
        proof {
            lemma_texts_push(parts@, part);
            assert(want.take(k as int).push(part@) =~= want.take(k + 1));
        }
        parts.push(part);
        k += 1;
    }
    assert(want.take(widths.len() as int) =~= want);
    join(&parts, "-+-")
}

/// Appends to `out` the table as an aligned monospace code block: the header,
/// a rule beneath it and the rows, padded to the widest cell of each column.
pub fn render_aligned(headers: &Vec<String>, rows: &Vec<Vec<String>>, out: &mut Vec<String>)
    ensures
        texts(final(out)@) == texts(old(out)@) + code_block(texts(headers@), grid(rows@)),
{
    let num_cols: usize = count_columns(headers, rows);
    let ghost all = seq![texts(headers@)] + grid(rows@);
    let ghost before = texts(out@);
    if num_cols == 0 {
        assert(texts(out@) + Seq::<Seq<char>>::empty() =~= texts(out@));
        return;
    }
    let mut widths: Vec<usize> = Vec::new();
    let mut k: usize = 0;
    while k < num_cols
        invariant
            k <= num_cols,
            num_cols == columns(all),
            all == seq![texts(headers@)] + grid(rows@),
            numbers(widths@) == column_widths(all).take(k as int),
        decreases num_cols - k,
    {
        let w: usize = width_of_column(headers, rows, k);
        proof {
            assert(numbers(widths@.push(w)) =~= numbers(widths@).push(w as nat));
            assert(column_widths(all).take(k as int).push(w as nat) =~= column_widths(all).take(
                k + 1,
            ));
        }
        widths.push(w);
        k += 1;
    }
    let ghost ws = column_widths(all);
    assert(ws.take(num_cols as int) =~= ws);
    let fence: String = "```".to_owned();
    let first: String = align_row(headers, &widths);
    let line: String = draw_rule(&widths);
    proof {
        lemma_texts_push(out@, fence);
        lemma_texts_push(out@.push(fence), first);
        lemma_texts_push(out@.push(fence).push(first), line);
    }
    out.push(fence);
    out.push(first);
    out.push(line);
    let ghost head = seq!["```"@, aligned_row(texts(headers@), ws), rule(ws)];
    let ghost body = grid(rows@).map_values(|r: Seq<Seq<char>>| aligned_row(r, ws));
    assert(texts(out@) =~= before + head + body.take(0));
    let mut i: usize = 0;
    while i < rows.len()
        invariant
            i <= rows.len(),
            numbers(widths@) == ws,
            body == grid(rows@).map_values(|r: Seq<Seq<char>>| aligned_row(r, ws)),
            texts(out@) == before + head + body.take(i as int),
        decreases rows.len() - i,
    {
        let row: String = align_row(&rows[i], &widths);
        proof {
            lemma_texts_push(out@, row);
            assert(body[i as int] == row@);
            assert((before + head + body.take(i as int)).push(row@) =~= before + head + body.take(
                i + 1,
            ));
        }
        out.push(row);
        i += 1;
    }
    let end: String = "```".to_owned();
    proof {
        lemma_texts_push(out@, end);
        assert(body.take(rows.len() as int) =~= body);
        assert((before + head + body).push(end@) =~= before + (head + body + seq!["```"@]));
    }
    out.push(end);
}

// ---------------------------------------------------------------------------
// Rewriting a text
// ---------------------------------------------------------------------------

/// The number of table rows that `ls` starts with.
pub open spec fn body_len(ls: Seq<Seq<char>>) -> nat
    decreases ls.len(),
{
    if ls.len() > 0 && table_row(ls[0]) && !separator_row(ls[0]) {
        1 + body_len(ls.skip(1))
    } else {
        0
    }
}

/// Whether `ls` starts with a table: a header, a separator and at least one
/// row.
pub open spec fn starts_table(ls: Seq<Seq<char>>) -> bool {
    ls.len() >= 2 && table_row(ls[0]) && separator_row(ls[1]) && body_len(ls.skip(2)) > 0
}

/// The lines with every table replaced by its code block.
pub open spec fn rewritten(ls: Seq<Seq<char>>) -> Seq<Seq<char>>
    decreases ls.len(),
{
    if ls.len() == 0 {
        Seq::empty()
    } else if starts_table(ls) {
        let n = body_len(ls.skip(2)) as int;
        proof {
            lemma_body_len_within(ls.skip(2));
        }
        code_block(
            row_cells(ls[0]),
            ls.skip(2).take(n).map_values(|l: Seq<char>| row_cells(l)),
        ) + rewritten(ls.skip(2 + n))
    } else {
        seq![ls[0]] + rewritten(ls.skip(1))
    }
}

/// A table's rows are among the lines that are left.
pub proof fn lemma_body_len_within(ls: Seq<Seq<char>>)
    ensures
        body_len(ls) <= ls.len(),
    decreases ls.len(),
{
    if ls.len() > 0 && table_row(ls[0]) && !separator_row(ls[0]) {
        lemma_body_len_within(ls.skip(1));
    }
}

proof fn lemma_body_len(ls: Seq<Seq<char>>, n: int)
    requires
        0 <= n <= ls.len(),
        forall|k: int| 0 <= k < n ==> table_row(#[trigger] ls[k]) && !separator_row(ls[k]),
        n < ls.len() ==> !(table_row(ls[n]) && !separator_row(ls[n])),
    ensures
        body_len(ls) == n,
    decreases n,
{
    if n > 0 {
        assert(table_row(ls[0]) && !separator_row(ls[0]));
        let t = ls.skip(1);
        assert forall|k: int| 0 <= k < n - 1 implies table_row(#[trigger] t[k]) && !separator_row(
            t[k],
        ) by {
            assert(t[k] == ls[k + 1]);
        }
        lemma_body_len(t, n - 1);
    }
}

/// A text with every table rewritten. The text is taken apart at its line
/// feeds alone, so that a line outside tables keeps its own end.
pub open spec fn aligned(text: Seq<char>) -> Seq<char> {
    joined(rewritten(split(text, '\n')), "\n"@)
}

/// Rewrites every Markdown table in `text` into an aligned monospace code
/// block and leaves all other text untouched, the ends of its lines included.
///
/// A table is a header row with a pipe, a separator row of dashes right under
/// it and one or more rows; anything else keeps its lines.
pub fn tables_to_aligned(text: &str) -> (r: String)
    ensures
        r@ == aligned(text@),
{
    let ls: Vec<String> = split_on(text, '\n');
    let ghost all = split(text@, '\n');
    let mut out: Vec<String> = Vec::new();
    let mut i: usize = 0;
    assert(all.skip(0) =~= all);
    assert(texts(out@) + rewritten(all) =~= rewritten(all));
    while i < ls.len()
        invariant
            i <= ls.len(),
            all == split(text@, '\n'),
            texts(ls@) == all,
            rewritten(all) == texts(out@) + rewritten(all.skip(i as int)),
        decreases ls.len() - i,
    {
        let ghost rest = all.skip(i as int);
        assert(all[i as int] == ls[i as int]@);
        if i + 1 < ls.len() {
            assert(all[i + 1] == ls[i + 1]@);
            if is_table_row(ls[i].as_str()) && is_separator_row(ls[i + 1].as_str()) {
                let headers: Vec<String> = split_row(ls[i].as_str());
                let mut j: usize = i + 2;
                let mut rows: Vec<Vec<String>> = Vec::new();
                let ghost below = rest.skip(2);
                while j < ls.len() && is_table_row(ls[j].as_str()) && !is_separator_row(
                    ls[j].as_str(),
                )
                    invariant
                        i + 2 <= j <= ls.len(),
                        texts(ls@) == all,
                        rest == all.skip(i as int),
                        below == rest.skip(2),
                        forall|k: int|
                            0 <= k < j - i - 2 ==> table_row(#[trigger] below[k]) && !separator_row(
                                below[k],
                            ),
                        grid(rows@) == below.take(j - i - 2).map_values(
                            |l: Seq<char>| row_cells(l),
                        ),
                    decreases ls.len() - j,
                {
                    let row: Vec<String> = split_row(ls[j].as_str());
                    proof {
                        assert(below[j - i - 2] == ls[j as int]@) by {
                            assert(all[j as int] == ls[j as int]@);
                        }
                        assert(grid(rows@.push(row)) =~= grid(rows@).push(texts(row@)));
                        assert(below.take(j - i - 2).map_values(|l: Seq<char>| row_cells(l)).push(
                            row_cells(below[j - i - 2]),
                        ) =~= below.take(j - i - 1).map_values(|l: Seq<char>| row_cells(l)));
                    }
                    rows.push(row);
                    j += 1;
                }
                proof {
                    if j < ls.len() {
                        assert(below[j - i - 2] == ls[j as int]@) by {
                            assert(all[j as int] == ls[j as int]@);
                        }
                    }
                    lemma_body_len(below, j - i - 2);
                    assert(grid(rows@).len() == rows@.len());
                }
                if rows.len() > 0 {
                    proof {
                        assert(starts_table(rest));
                        assert(rest.skip(2 + (j - i - 2)) =~= all.skip(j as int));
                        let block = code_block(texts(headers@), grid(rows@));
                        assert(texts(out@) + (block + rewritten(all.skip(j as int))) =~= (texts(
                            out@,
                        ) + block) + rewritten(all.skip(j as int)));
                    }
                    render_aligned(&headers, &rows, &mut out);
                    i = j;
                    continue ;
                }
            }
        }
        let line: String = ls[i].clone();
        proof {
            assert(!starts_table(rest));
            assert(rest.skip(1) =~= all.skip(i + 1));
            lemma_texts_push(out@, line);
            assert(texts(out@) + (seq![line@] + rewritten(all.skip(i + 1))) =~= texts(out@).push(
                line@,
            ) + rewritten(all.skip(i + 1)));
        }
        out.push(line);
        i += 1;
    }
    proof {
        assert(all.skip(ls.len() as int) =~= Seq::empty());
        assert(texts(out@) + Seq::<Seq<char>>::empty() =~= texts(out@));
    }
    join(&out, "\n")
}


// ---------------------------------------------------------------------------
// Laws
// ---------------------------------------------------------------------------

proof fn lemma_width_concat(a: Seq<char>, b: Seq<char>)
    ensures
        width(a + b) == width(a) + width(b),
    decreases a.len(),
{
    if a.len() == 0 {
        assert(a + b =~= b);
    } else {
        lemma_width_concat(a.drop_first(), b);
        assert((a + b).drop_first() =~= a.drop_first() + b);
    }
}

proof fn lemma_width_of_spaces(n: nat)
    ensures
        width(repeated(' ', n)) == n,
    decreases n,
{
    if n > 0 {
        lemma_width_of_spaces((n - 1) as nat);
        assert(repeated(' ', n).drop_first() =~= repeated(' ', (n - 1) as nat));
    }
}

proof fn lemma_width_of_unmarked(s: Seq<char>)
    ensures
        width(unmarked(s)) == width(s),
    decreases s.len(),
{
    reveal(Seq::filter);
    if s.len() == 0 {
        assert(unmarked(s) =~= s);
    } else {
        let front = s.drop_last();
        let end = seq![s.last()];
        assert(s =~= front + end);
        lemma_width_of_unmarked(front);
        lemma_width_concat(front, end);
        if marker(s.last()) {
            assert(width(end) == 0) by {
                assert(end.drop_first() =~= Seq::<char>::empty());
                assert(width(Seq::<char>::empty()) == 0);
            }
            assert(unmarked(s) == unmarked(front));
        } else {
            assert(unmarked(s) =~= unmarked(front) + end);
            lemma_width_concat(unmarked(front), end);
        }
    }
}

proof fn lemma_cell_within_column(rows: Seq<Seq<Seq<char>>>, i: int, k: int)
    requires
        0 <= i < rows.len(),
    ensures
        width(cell_at(rows[i], k)) <= column_width(rows, k),
    decreases rows.len(),
{
    if i < rows.len() - 1 {
        lemma_cell_within_column(rows.drop_last(), i, k);
    }
}

/// Columns align: every cell of a column, of the header and of each row, takes
/// exactly the column's width once padded.
pub proof fn law_columns_align(rows: Seq<Seq<Seq<char>>>, i: int, k: int)
    requires
        0 <= i < rows.len(),
        0 <= k < columns(rows),
    ensures
        width(padded(cell_at(rows[i], k), column_widths(rows)[k])) == column_widths(rows)[k],
{
    let cell = cell_at(rows[i], k);
    let w = column_widths(rows)[k];
    lemma_cell_within_column(rows, i, k);
    let fill = (w - width(cell)) as nat;
    lemma_width_concat(unmarked(cell), repeated(' ', fill));
    lemma_width_of_unmarked(cell);
    lemma_width_of_spaces(fill);
}

/// The total of the first widths, with the room of a separator between two.
spec fn span(widths: Seq<nat>, sep: nat) -> nat
    decreases widths.len(),
{
    if widths.len() == 0 {
        0
    } else if widths.len() == 1 {
        widths[0]
    } else {
        span(widths.drop_last(), sep) + sep + widths.last()
    }
}

proof fn lemma_width_of_joined(parts: Seq<Seq<char>>, sep: Seq<char>, widths: Seq<nat>)
    requires
        parts.len() == widths.len(),
        forall|k: int| 0 <= k < parts.len() ==> width(#[trigger] parts[k]) == widths[k],
    ensures
        width(joined(parts, sep)) == span(widths, width(sep)),
    decreases parts.len(),
{
    if parts.len() > 1 {
        let front = parts.drop_last();
        assert forall|k: int| 0 <= k < front.len() implies width(#[trigger] front[k])
            == widths.drop_last()[k] by {
            assert(front[k] == parts[k]);
        }
        lemma_width_of_joined(front, sep, widths.drop_last());
        lemma_width_concat(joined(front, sep), sep);
        lemma_width_concat(joined(front, sep) + sep, parts.last());
        assert(parts.last() == parts[parts.len() - 1]);
    }
}

/// Rows align: any two rows of a table, the header among them, are rendered
/// with the same visual width.
pub proof fn law_rows_align(rows: Seq<Seq<Seq<char>>>, i: int, j: int)
    requires
        0 <= i < rows.len(),
        0 <= j < rows.len(),
    ensures
        width(aligned_row(rows[i], column_widths(rows))) == width(
            aligned_row(rows[j], column_widths(rows)),
        ),
{
    let ws = column_widths(rows);
    let a = Seq::new(ws.len(), |k: int| padded(cell_at(rows[i], k), ws[k]));
    let b = Seq::new(ws.len(), |k: int| padded(cell_at(rows[j], k), ws[k]));
    assert forall|k: int| 0 <= k < a.len() implies width(#[trigger] a[k]) == ws[k] by {
        law_columns_align(rows, i, k);
    }
    assert forall|k: int| 0 <= k < b.len() implies width(#[trigger] b[k]) == ws[k] by {
        law_columns_align(rows, j, k);
    }
    lemma_width_of_joined(a, " | "@, ws);
    lemma_width_of_joined(b, " | "@, ws);
}

/// No emphasis marker is left in a padded cell.
pub proof fn law_markers_are_stripped(cell: Seq<char>, w: nat)
    ensures
        forall|i: int| 0 <= i < padded(cell, w).len() ==> !marker(#[trigger] padded(cell, w)[i]),
{
    let shown = unmarked(cell);
    assert forall|i: int| 0 <= i < padded(cell, w).len() implies !marker(
        #[trigger] padded(cell, w)[i],
    ) by {
        if i < shown.len() {
            cell.lemma_filter_pred(|c: char| !marker(c), i);
            assert(shown[i] == padded(cell, w)[i]);
        }
    }
}

/// Whether no table starts at any line.
pub open spec fn without_tables(ls: Seq<Seq<char>>) -> bool {
    forall|i: int| 0 <= i < ls.len() ==> !starts_table(#[trigger] ls.skip(i))
}

proof fn lemma_rewritten_without_tables(ls: Seq<Seq<char>>)
    requires
        without_tables(ls),
    ensures
        rewritten(ls) == ls,
    decreases ls.len(),
{
    if ls.len() > 0 {
        assert(ls.skip(0) =~= ls);
        let t = ls.skip(1);
        assert forall|i: int| 0 <= i < t.len() implies !starts_table(#[trigger] t.skip(i)) by {
            assert(t.skip(i) =~= ls.skip(i + 1));
        }
        lemma_rewritten_without_tables(t);
        assert(seq![ls[0]] + t =~= ls);
    } else {
        assert(rewritten(ls) =~= ls);
    }
}

/// Text without a table is left untouched, the ends of its lines included.
pub proof fn law_text_without_tables_is_untouched(text: Seq<char>)
    requires
        without_tables(split(text, '\n')),
    ensures
        aligned(text) == text,
{
    reveal_strlit("\n");
    assert("\n"@ =~= seq!['\n']);
    lemma_rewritten_without_tables(split(text, '\n'));
    lemma_split_joined(text, '\n');
}

/// Rewriting text without a table again changes nothing.
pub proof fn law_rewriting_is_idempotent_without_tables(text: Seq<char>)
    requires
        without_tables(split(text, '\n')),
    ensures
        aligned(aligned(text)) == aligned(text),
{
    law_text_without_tables_is_untouched(text);
}

/// A header and a separator without a row under them are no table.
pub proof fn law_header_alone_is_no_table(header: Seq<char>, separator: Seq<char>)
    ensures
        rewritten(seq![header, separator]) == seq![header, separator],
{
    let ls = seq![header, separator];
    assert forall|i: int| 0 <= i < ls.len() implies !starts_table(#[trigger] ls.skip(i)) by {
        if i == 0 {
            assert(ls.skip(0).skip(2) =~= Seq::empty());
        }
    }
    lemma_rewritten_without_tables(ls);
}

// ---------------------------------------------------------------------------
// What a table keeps
// ---------------------------------------------------------------------------

/// What of a text is neither a pipe nor white space.
pub open spec fn ink(s: Seq<char>) -> Seq<char>
    decreases s.len(),
{
    if s.len() == 0 {
        Seq::empty()
    } else if s[0] == '|' || is_space(s[0]) {
        ink(s.skip(1))
    } else {
        seq![s[0]] + ink(s.skip(1))
    }
}

/// The same of all cells of a row, one behind the other.
pub open spec fn ink_of_all(cells: Seq<Seq<char>>) -> Seq<char>
    decreases cells.len(),
{
    if cells.len() == 0 {
        Seq::empty()
    } else {
        ink(cells[0]) + ink_of_all(cells.skip(1))
    }
}

proof fn lemma_ink_concat(a: Seq<char>, b: Seq<char>)
    ensures
        ink(a + b) == ink(a) + ink(b),
    decreases a.len(),
{
    if a.len() == 0 {
        assert(a + b =~= b);
        assert(ink(a) + ink(b) =~= ink(b));
    } else {
        assert((a + b).skip(1) =~= a.skip(1) + b);
        lemma_ink_concat(a.skip(1), b);
        assert(ink(a + b) =~= ink(a) + ink(b));
    }
}

proof fn lemma_no_ink(s: Seq<char>)
    requires
        forall|i: int| 0 <= i < s.len() ==> (#[trigger] s[i]) == '|' || is_space(s[i]),
    ensures
        ink(s).len() == 0,
    decreases s.len(),
{
    if s.len() > 0 {
        let t = s.skip(1);
        assert forall|i: int| 0 <= i < t.len() implies (#[trigger] t[i]) == '|' || is_space(
            t[i],
        ) by {
            assert(t[i] == s[i + 1]);
        }
        assert(s[0] == '|' || is_space(s[0]));
        lemma_no_ink(t);
    }
}

proof fn lemma_ink_of_trimmed(s: Seq<char>)
    ensures
        ink(trimmed(s)) == ink(s),
{
    let (a, b) = law_trimmed_stands_in_the_text(s);
    lemma_no_ink(a);
    lemma_no_ink(b);
    lemma_ink_concat(a + trimmed(s), b);
    lemma_ink_concat(a, trimmed(s));
    assert(ink(a) + ink(trimmed(s)) + ink(b) =~= ink(trimmed(s)));
}

proof fn lemma_ink_of_unbordered(line: Seq<char>)
    ensures
        ink(unbordered(line)) == ink(line),
{
    let t = trimmed(line);
    lemma_ink_of_trimmed(line);
    let u = if t.len() > 0 && t[0] == '|' {
        t.skip(1)
    } else {
        t
    };
    assert(ink(u) == ink(t));
    if u.len() > 0 && u.last() == '|' {
        assert(u =~= u.drop_last() + seq!['|']);
        lemma_ink_concat(u.drop_last(), seq!['|']);
        lemma_no_ink(seq!['|']);
        assert(ink(u.drop_last()) + ink(seq!['|']) =~= ink(u.drop_last()));
    }
}

proof fn lemma_ink_of_parts(s: Seq<char>)
    ensures
        ink_of_all(split(s, '|').map_values(|c: Seq<char>| trimmed(c))) == ink(s),
    decreases s.len(),
{
    let trim = |c: Seq<char>| trimmed(c);
    let all = split(s, '|').map_values(trim);
    let i = first_of(s, '|');
    lemma_first_of_bounds(s, '|');
    if i < s.len() {
        let rest = s.skip(i + 1);
        lemma_ink_of_parts(rest);
        lemma_ink_of_trimmed(s.take(i));
        assert(all.skip(1) =~= split(rest, '|').map_values(trim));
        assert(all[0] == trimmed(s.take(i)));
        assert(s =~= s.take(i) + s.skip(i));
        lemma_ink_concat(s.take(i), s.skip(i));
        assert(s.skip(i).skip(1) =~= rest);
    } else {
        lemma_ink_of_trimmed(s);
        assert(all[0] == trimmed(s));
        assert(all.skip(1) =~= Seq::empty());
        assert(ink_of_all(Seq::empty()) =~= Seq::empty());
        assert(ink(s) + Seq::<char>::empty() =~= ink(s));
    }
}

/// The cells of a row hold everything of it but pipes and white space, in its
/// order; none has a pipe in it or white space around it, and they are as many
/// as the pipes between them make them.
pub proof fn law_cells_hold_the_row(line: Seq<char>)
    ensures
        ink_of_all(row_cells(line)) == ink(line),
        forall|k: int|
            0 <= k < row_cells(line).len() ==> !(#[trigger] row_cells(line)[k]).contains('|')
                && trimmed(row_cells(line)[k]) == row_cells(line)[k],
        ({
            let t = trimmed(line);
            let opened = t.len() > 0 && t[0] == '|';
            let closed = t.len() > 1 && t.last() == '|';
            row_cells(line).len() == count_of(line, '|') + 1 - (if opened {
                1int
            } else {
                0
            }) - (if closed {
                1int
            } else {
                0
            })
        }),
{
    let u = unbordered(line);
    lemma_ink_of_unbordered(line);
    lemma_ink_of_parts(u);
    law_split_at_each_separator(u, '|');
    assert forall|k: int| 0 <= k < row_cells(line).len() implies !(#[trigger] row_cells(
        line,
    )[k]).contains('|') && trimmed(row_cells(line)[k]) == row_cells(line)[k] by {
        let part = split(u, '|')[k];
        let (a, b) = law_trimmed_stands_in_the_text(part);
        if trimmed(part).contains('|') {
            let i = choose|i: int| 0 <= i < trimmed(part).len() && trimmed(part)[i] == '|';
            assert(part[a.len() + i] == '|');
        }
        lemma_trimmed_twice(part);
    }
    let t = trimmed(line);
    let (a, b) = law_trimmed_stands_in_the_text(line);
    assert(!a.contains('|') && !b.contains('|')) by {
        if a.contains('|') {
            let i = choose|i: int| 0 <= i < a.len() && a[i] == '|';
            assert(is_space(a[i]));
        }
        if b.contains('|') {
            let i = choose|i: int| 0 <= i < b.len() && b[i] == '|';
            assert(is_space(b[i]));
        }
    }
    lemma_count_none(a, '|');
    lemma_count_none(b, '|');
    lemma_count_concat(a + t, b, '|');
    lemma_count_concat(a, t, '|');
    let v = if t.len() > 0 && t[0] == '|' {
        t.skip(1)
    } else {
        t
    };
    if v.len() > 0 && v.last() == '|' {
        assert(v =~= v.drop_last() + seq!['|']);
        lemma_count_concat(v.drop_last(), seq!['|'], '|');
        assert(count_of(seq!['|'], '|') == 1) by {
            assert(seq!['|'].skip(1) =~= Seq::<char>::empty());
            assert(count_of(Seq::<char>::empty(), '|') == 0);
        }
        assert(v.last() == t.last());
    } else if t.len() > 1 && t.last() == '|' {
        assert(v.last() == t.last());
    }
}

proof fn lemma_trimmed_twice(s: Seq<char>)
    ensures
        trimmed(trimmed(s)) == trimmed(s),
{
    let (a, b) = law_trimmed_stands_in_the_text(s);
    let t = trimmed(s);
    if t.len() > 0 {
        assert(trim_start(t) == t);
        assert(trim_end(t) == t);
    }
}

/// A row that does not start with a pipe starts with its first cell: the text
/// before the first pipe.
pub proof fn law_first_cell_starts_the_row(line: Seq<char>)
    requires
        trimmed(line).len() > 0,
        trimmed(line)[0] != '|',
    ensures
        row_cells(line)[0] == trimmed(trimmed(line).take(first_of(trimmed(line), '|'))),
{
    let t = trimmed(line);
    let u = unbordered(line);
    lemma_first_of_bounds(t, '|');
    lemma_first_of_bounds(u, '|');
    let i = first_of(t, '|');
    if t.last() == '|' {
        assert(u =~= t.drop_last());
        let j = if i < u.len() {
            i
        } else {
            u.len() as int
        };
        assert forall|k: int| 0 <= k < j implies #[trigger] u[k] != '|' by {
            assert(u[k] == t[k]);
        }
        lemma_first_of(u, '|', j);
        if i >= u.len() {
            assert(i == u.len());
        }
        assert(u.take(j) =~= t.take(i));
        if j == u.len() {
            assert(u.take(j) =~= u);
        }
    } else {
        assert(u =~= t);
        if i == t.len() {
            assert(t.take(i) =~= t);
        }
    }
}

/// What of a text shows in a code block: neither pipes, nor white space, nor
/// emphasis markers.
pub open spec fn letters(s: Seq<char>) -> Seq<char>
    decreases s.len(),
{
    if s.len() == 0 {
        Seq::empty()
    } else if s[0] == '|' || is_space(s[0]) || s[0] == '*' || s[0] == '`' || s[0] == '_' {
        letters(s.skip(1))
    } else {
        seq![s[0]] + letters(s.skip(1))
    }
}

/// The same of the first `n` cells of a row, one behind the other.
pub open spec fn letters_of_all(row: Seq<Seq<char>>, n: int) -> Seq<char>
    decreases n,
{
    if n <= 0 {
        Seq::empty()
    } else {
        letters_of_all(row, n - 1) + letters(cell_at(row, n - 1))
    }
}

proof fn lemma_letters_concat(a: Seq<char>, b: Seq<char>)
    ensures
        letters(a + b) == letters(a) + letters(b),
    decreases a.len(),
{
    if a.len() == 0 {
        assert(a + b =~= b);
        assert(letters(a) + letters(b) =~= letters(b));
    } else {
        assert((a + b).skip(1) =~= a.skip(1) + b);
        lemma_letters_concat(a.skip(1), b);
        assert(letters(a + b) =~= letters(a) + letters(b));
    }
}

proof fn lemma_letters_of_spaces(n: nat)
    ensures
        letters(repeated(' ', n)).len() == 0,
    decreases n,
{
    if n > 0 {
        assert(repeated(' ', n).skip(1) =~= repeated(' ', (n - 1) as nat));
        lemma_letters_of_spaces((n - 1) as nat);
    }
}

proof fn lemma_letters_of_unmarked(s: Seq<char>)
    ensures
        letters(unmarked(s)) == letters(s),
    decreases s.len(),
{
    reveal(Seq::filter);
    if s.len() == 0 {
        assert(unmarked(s) =~= s);
    } else {
        let front = s.drop_last();
        let end = seq![s.last()];
        assert(s =~= front + end);
        lemma_letters_of_unmarked(front);
        lemma_letters_concat(front, end);
        if marker(s.last()) {
            assert(end.skip(1) =~= Seq::<char>::empty());
            assert(letters(Seq::<char>::empty()) =~= Seq::<char>::empty());
            assert(letters(end) =~= Seq::<char>::empty());
            assert(letters(front) + letters(end) =~= letters(front));
        } else {
            assert(unmarked(s) =~= unmarked(front) + end);
            lemma_letters_concat(unmarked(front), end);
        }
    }
}

proof fn lemma_letters_of_padded(cell: Seq<char>, w: nat)
    ensures
        letters(padded(cell, w)) == letters(cell),
{
    let n = if width(cell) < w {
        (w - width(cell)) as nat
    } else {
        0
    };
    lemma_letters_concat(unmarked(cell), repeated(' ', n));
    lemma_letters_of_spaces(n);
    lemma_letters_of_unmarked(cell);
    assert(letters(cell) + letters(repeated(' ', n)) =~= letters(cell));
}

proof fn lemma_letters_of_row(row: Seq<Seq<char>>, widths: Seq<nat>, n: int)
    requires
        0 <= n <= widths.len(),
    ensures
        letters(
            joined(Seq::new(n as nat, |k: int| padded(cell_at(row, k), widths[k])), " | "@),
        ) == letters_of_all(row, n),
    decreases n,
{
    let parts = Seq::new(n as nat, |k: int| padded(cell_at(row, k), widths[k]));
    if n == 0 {
        assert(joined(parts, " | "@) =~= Seq::<char>::empty());
    } else {
        let front = Seq::new((n - 1) as nat, |k: int| padded(cell_at(row, k), widths[k]));
        lemma_letters_of_row(row, widths, n - 1);
        lemma_letters_of_padded(cell_at(row, n - 1), widths[n - 1]);
        assert(parts.drop_last() =~= front);
        if n == 1 {
            assert(letters_of_all(row, 0) =~= Seq::<char>::empty());
            assert(letters_of_all(row, 1) =~= letters(cell_at(row, 0)));
        } else {
            reveal_strlit(" | ");
            let sep = " | "@;
            lemma_letters_concat(joined(front, sep) + sep, parts.last());
            lemma_letters_concat(joined(front, sep), sep);
            assert(letters(sep).len() == 0) by {
                assert(sep.skip(1).skip(1).skip(1) =~= Seq::<char>::empty());
                reveal_with_fuel(letters, 4);
            }
            assert(letters(joined(front, sep)) + letters(sep) + letters(parts.last())
                =~= letters_of_all(row, n));
        }
    }
}

/// A row in the code block shows what its cells hold, in their order, and
/// nothing else: all but pipes, white space and emphasis markers.
pub proof fn law_rows_keep_their_text(row: Seq<Seq<char>>, widths: Seq<nat>)
    ensures
        letters(aligned_row(row, widths)) == letters_of_all(row, widths.len() as int),
{
    lemma_letters_of_row(row, widths, widths.len() as int);
}

/// The table as a whole: a fence, the header, a rule as wide as the header, a
/// line for each row, and a fence; no cell of a row is left out.
pub proof fn law_code_block_shows_the_table(headers: Seq<Seq<char>>, rows: Seq<Seq<Seq<char>>>)
    requires
        headers.len() > 0,
    ensures
        ({
            let b = code_block(headers, rows);
            let widths = column_widths(seq![headers] + rows);
            &&& b.len() == rows.len() + 4
            &&& b[0] == "```"@ && b.last() == "```"@
            &&& widths.len() >= headers.len()
            &&& letters(b[1]) == letters_of_all(headers, widths.len() as int)
            &&& b[2].len() == width(b[1])
            &&& forall|c: char| b[2].contains(c) ==> c == '-' || c == '+'
            &&& forall|i: int|
                0 <= i < rows.len() ==> letters(#[trigger] b[i + 3]) == letters_of_all(
                    rows[i],
                    widths.len() as int,
                ) && rows[i].len() <= widths.len()
        }),
{
    let all = seq![headers] + rows;
    let widths = column_widths(all);
    let b = code_block(headers, rows);
    lemma_columns_bound(all, 0);
    assert(all[0] == headers);
    law_rows_keep_their_text(headers, widths);
    assert forall|i: int| 0 <= i < rows.len() implies letters(#[trigger] b[i + 3])
        == letters_of_all(rows[i], widths.len() as int) && rows[i].len() <= widths.len() by {
        lemma_columns_bound(all, i + 1);
        assert(all[i + 1] == rows[i]);
        law_rows_keep_their_text(rows[i], widths);
        assert(b[i + 3] == aligned_row(rows[i], widths));
    }
    lemma_rule(widths, widths.len() as int);
    assert forall|k: int| 0 <= k < widths.len() implies width(
        padded(cell_at(headers, k), widths[k]),
    ) == #[trigger] widths[k] by {
        law_columns_align(all, 0, k);
    }
    lemma_row_width(headers, widths, widths.len() as int);
}

proof fn lemma_columns_bound(rows: Seq<Seq<Seq<char>>>, i: int)
    requires
        0 <= i < rows.len(),
    ensures
        rows[i].len() <= columns(rows),
    decreases rows.len(),
{
    if i < rows.len() - 1 {
        lemma_columns_bound(rows.drop_last(), i);
    }
}

/// The width of the first `n` columns with what stands between them.
spec fn columns_span(widths: Seq<nat>, n: int) -> nat
    decreases n,
{
    if n <= 0 {
        0
    } else if n == 1 {
        widths[0]
    } else {
        columns_span(widths, n - 1) + 3 + widths[n - 1]
    }
}

proof fn lemma_rule(widths: Seq<nat>, n: int)
    requires
        0 <= n <= widths.len(),
    ensures
        ({
            let r = joined(Seq::new(n as nat, |k: int| repeated('-', widths[k])), "-+-"@);
            &&& r.len() == columns_span(widths, n)
            &&& forall|c: char| r.contains(c) ==> c == '-' || c == '+'
        }),
    decreases n,
{
    let parts = Seq::new(n as nat, |k: int| repeated('-', widths[k]));
    let r = joined(parts, "-+-"@);
    if n > 0 {
        reveal_strlit("-+-");
        let front = Seq::new((n - 1) as nat, |k: int| repeated('-', widths[k]));
        lemma_rule(widths, n - 1);
        assert(parts.drop_last() =~= front);
        let before = joined(front, "-+-"@);
        assert forall|c: char| r.contains(c) implies c == '-' || c == '+' by {
            let i = choose|i: int| 0 <= i < r.len() && r[i] == c;
            if n > 1 && i < before.len() {
                assert(before.contains(before[i]));
            }
        }
    }
}

proof fn lemma_row_width(row: Seq<Seq<char>>, widths: Seq<nat>, n: int)
    requires
        0 <= n <= widths.len(),
        forall|k: int|
            0 <= k < widths.len() ==> width(padded(cell_at(row, k), widths[k]))
                == #[trigger] widths[k],
    ensures
        width(joined(Seq::new(n as nat, |k: int| padded(cell_at(row, k), widths[k])), " | "@))
            == columns_span(widths, n),
    decreases n,
{
    let parts = Seq::new(n as nat, |k: int| padded(cell_at(row, k), widths[k]));
    if n > 0 {
        let front = Seq::new((n - 1) as nat, |k: int| padded(cell_at(row, k), widths[k]));
        lemma_row_width(row, widths, n - 1);
        assert(parts.drop_last() =~= front);
        assert(width(parts.last()) == widths[n - 1]);
        if n > 1 {
            reveal_strlit(" | ");
            let sep = " | "@;
            lemma_width_concat(joined(front, sep) + sep, parts.last());
            lemma_width_concat(joined(front, sep), sep);
            assert(width(sep) == 3) by {
                assert(sep.drop_first().drop_first().drop_first() =~= Seq::<char>::empty());
                reveal_with_fuel(width, 4);
            }
        }
    }
}

/// ASCII and the other alphabets before Hangul take one cell for each character,
/// but for emphasis markers, which take none; ideographs, kana, Hangul syllables
/// and full-width forms take two.
pub proof fn law_wide_characters(c: char)
    ensures
        c < '\u{1100}' ==> cells(c) == if c == '*' || c == '`' || c == '_' {
            0nat
        } else {
            1
        },
        '\u{4e00}' <= c <= '\u{9fff}' || '\u{3041}' <= c <= '\u{4dbf}' || '\u{ac00}' <= c
            <= '\u{d7a3}' || '\u{ff00}' <= c <= '\u{ff60}' || '\u{1f300}' <= c <= '\u{1faff}'
            ==> cells(c) == 2,
{
}

/// A separator is made of dashes, colons, pipes and white space, and has a dash.
pub proof fn law_separator_is_drawn(line: Seq<char>)
    requires
        separator_row(line),
    ensures
        forall|i: int| 0 <= i < ink(line).len() ==> (#[trigger] ink(line)[i]) == '-' || ink(line)[i]
            == ':',
        ink(line).contains('-'),
{
    law_cells_hold_the_row(line);
    let cells = row_cells(line);
    lemma_ink_of_dashes(cells);
    law_split_at_each_separator(unbordered(line), '|');
    assert(cells.len() > 0);
    assert(dashes(cells[0]));
    let c = cells[0];
    assert(trimmed(c) == c);
    lemma_ink_holds(c, '-');
    let i = choose|i: int| 0 <= i < ink(c).len() && ink(c)[i] == '-';
    assert(ink_of_all(cells)[i] == '-');
}

proof fn lemma_ink_holds(s: Seq<char>, c: char)
    requires
        s.contains(c),
        c != '|',
        !is_space(c),
    ensures
        ink(s).contains(c),
    decreases s.len(),
{
    let t = s.skip(1);
    if s[0] == c {
        assert(ink(s)[0] == c);
    } else {
        let i = choose|i: int| 0 <= i < s.len() && s[i] == c;
        assert(t[i - 1] == c);
        lemma_ink_holds(t, c);
        let j = choose|j: int| 0 <= j < ink(t).len() && ink(t)[j] == c;
        if ink(s).len() == ink(t).len() {
            assert(ink(s)[j] == c);
        } else {
            assert(ink(s)[j + 1] == c);
        }
    }
}

proof fn lemma_ink_within(s: Seq<char>)
    ensures
        forall|i: int| 0 <= i < ink(s).len() ==> s.contains(#[trigger] ink(s)[i]),
    decreases s.len(),
{
    if s.len() > 0 {
        let t = s.skip(1);
        lemma_ink_within(t);
        assert forall|i: int| 0 <= i < ink(s).len() implies s.contains(#[trigger] ink(s)[i]) by {
            if s[0] == '|' || is_space(s[0]) {
                let k = choose|k: int| 0 <= k < t.len() && t[k] == ink(t)[i];
                assert(s[k + 1] == ink(s)[i]);
            } else if i > 0 {
                assert(ink(s)[i] == ink(t)[i - 1]);
                let k = choose|k: int| 0 <= k < t.len() && t[k] == ink(t)[i - 1];
                assert(s[k + 1] == ink(s)[i]);
            } else {
                assert(s[0] == ink(s)[0]);
            }
        }
    }
}

proof fn lemma_ink_of_dashes(cells: Seq<Seq<char>>)
    requires
        forall|k: int|
            0 <= k < cells.len() ==> dashes(#[trigger] cells[k]) && trimmed(cells[k]) == cells[k],
    ensures
        forall|i: int|
            0 <= i < ink_of_all(cells).len() ==> (#[trigger] ink_of_all(cells)[i]) == '-'
                || ink_of_all(cells)[i] == ':',
    decreases cells.len(),
{
    if cells.len() > 0 {
        let t = cells.skip(1);
        assert forall|k: int| 0 <= k < t.len() implies dashes(#[trigger] t[k]) && trimmed(t[k])
            == t[k] by {
            assert(t[k] == cells[k + 1]);
        }
        lemma_ink_of_dashes(t);
        lemma_ink_within(cells[0]);
        let a = ink(cells[0]);
        assert(dashes(cells[0]));
        assert forall|i: int| 0 <= i < ink_of_all(cells).len() implies (#[trigger] ink_of_all(
            cells,
        )[i]) == '-' || ink_of_all(cells)[i] == ':' by {
            if i < a.len() {
                assert(ink_of_all(cells)[i] == a[i]);
                let k = choose|k: int| 0 <= k < cells[0].len() && cells[0][k] == a[i];
                assert(cells[0][k] == '-' || cells[0][k] == ':');
            } else {
                assert(ink_of_all(cells)[i] == ink_of_all(t)[i - a.len()]);
            }
        }
    }
}

} // verus!
