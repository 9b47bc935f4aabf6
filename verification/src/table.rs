//! The fixed-width table formatter.
//!
//! A table block is a run of raw row strings. Each row is split on `'|'`
//! after the delimiter characters at both ends are dropped, every cell is
//! trimmed, and all rows are normalized to the header's column count.
//! Column widths are the maximum cell length per column over all rows,
//! the header included. The header renders bold, the second row is
//! replaced by a dash separator whatever its content held, and the rest
//! render as plain padded text. A block of fewer than two rows renders a
//! diagnostic line instead of a table.

use vstd::prelude::*;
use vstd::string::*;
use crate::ansi_styles::{Style, code_seq, code_str, reset_seq, reset_str};
use crate::scan::{
    append_repeat, lemma_first_at_is, nl, repeat_char, split_on, trim_of, trim_spec, views_of,
};

verus! {

/// `s` without its leading run of `'|'` characters.
pub open spec fn trim_pipes_start(s: Seq<char>) -> Seq<char>
    decreases s.len(),
{
    if s.len() > 0 && s[0] == '|' {
        trim_pipes_start(s.skip(1))
    } else {
        s
    }
}

/// `s` without its trailing run of `'|'` characters.
pub open spec fn trim_pipes_end(s: Seq<char>) -> Seq<char>
    decreases s.len(),
{
    if s.len() > 0 && s.last() == '|' {
        trim_pipes_end(s.drop_last())
    } else {
        s
    }
}

/// `s` without the delimiter characters at either end.
pub open spec fn trim_pipes(s: Seq<char>) -> Seq<char> {
    trim_pipes_end(trim_pipes_start(s))
}

/// The trimmed cells of one raw row: delimiters at the ends dropped,
/// split on `'|'`, each cell trimmed of whitespace.
pub open spec fn split_cells_spec(l: Seq<char>) -> Seq<Seq<char>> {
    split_on(trim_pipes(l), '|').map_values(|c: Seq<char>| trim_spec(c))
}

/// `cells` brought to exactly `k` columns: extra cells are dropped and
/// missing ones filled with the empty cell.
pub open spec fn norm_row(cells: Seq<Seq<char>>, k: nat) -> Seq<Seq<char>> {
    Seq::new(
        k,
        |j: int|
            if j < cells.len() {
                cells[j]
            } else {
                Seq::empty()
            },
    )
}

/// Every row of the block as cells, normalized to the header's column
/// count.
pub open spec fn table_cells(lines: Seq<Seq<char>>) -> Seq<Seq<Seq<char>>> {
    let k = split_cells_spec(lines[0]).len();
    lines.map_values(|l: Seq<char>| norm_row(split_cells_spec(l), k))
}

/// The width of column `j`: the longest cell in it over all rows.
pub open spec fn col_width(rows: Seq<Seq<Seq<char>>>, j: int) -> nat
    decreases rows.len(),
{
    if rows.len() == 0 {
        0
    } else {
        let w = col_width(rows.drop_last(), j);
        let c = rows.last()[j].len();
        if c > w {
            c
        } else {
            w
        }
    }
}

/// All column widths of the block.
pub open spec fn col_widths(rows: Seq<Seq<Seq<char>>>) -> Seq<nat> {
    Seq::new(rows[0].len(), |j: int| col_width(rows, j))
}

/// A cell padded to its column's width with trailing spaces.
pub open spec fn pad_cell(c: Seq<char>, w: nat) -> Seq<char> {
    c + repeat_char(
        ' ',
        if w >= c.len() {
            (w - c.len()) as nat
        } else {
            0
        },
    )
}

/// What joins two padded cells.
pub open spec fn cell_sep() -> Seq<char> {
    seq![' ', '|', ' ']
}

/// What joins two dash runs of the separator line.
pub open spec fn sep_joint() -> Seq<char> {
    seq!['-', '+', '-']
}

/// The first `n` cells of one row, padded and joined.
pub open spec fn row_text(cells: Seq<Seq<char>>, widths: Seq<nat>, n: nat) -> Seq<char>
    decreases n,
{
    if n == 0 {
        Seq::empty()
    } else if n == 1 {
        pad_cell(cells[0], widths[0])
    } else {
        row_text(cells, widths, (n - 1) as nat) + cell_sep() + pad_cell(
            cells[n - 1],
            widths[n - 1],
        )
    }
}

/// The separator line over the first `n` columns: one dash run per
/// column width, joined.
pub open spec fn sep_text(widths: Seq<nat>, n: nat) -> Seq<char>
    decreases n,
{
    if n == 0 {
        Seq::empty()
    } else if n == 1 {
        repeat_char('-', widths[0])
    } else {
        sep_text(widths, (n - 1) as nat) + sep_joint() + repeat_char('-', widths[n - 1])
    }
}

/// The data rows before index `n`: every row from the third on, padded,
/// joined and ended with a line break.
pub open spec fn data_rows_text(rows: Seq<Seq<Seq<char>>>, widths: Seq<nat>, n: nat) -> Seq<char>
    decreases n,
{
    if n <= 2 {
        Seq::empty()
    } else {
        data_rows_text(rows, widths, (n - 1) as nat) + row_text(
            rows[n - 1],
            widths,
            widths.len() as nat,
        ) + nl()
    }
}

/// The diagnostic emitted for a block of fewer than two rows.
pub open spec fn invalid_table_msg() -> Seq<char> {
    seq![
        'I', 'n', 'v', 'a', 'l', 'i', 'd', ' ', 't', 'a', 'b', 'l', 'e', ' ', 'f', 'o', 'r', 'm',
        'a', 't', '.',
    ]
}

/// The full rendering of one table block: a bold header line, a dash
/// separator line in place of the second row, then the remaining rows as
/// plain padded text; or the diagnostic line when the block has fewer
/// than two rows.
pub open spec fn render_table_spec(lines: Seq<Seq<char>>) -> Seq<char> {
    if lines.len() < 2 {
        invalid_table_msg() + nl()
    } else {
        let rows = table_cells(lines);
        let widths = col_widths(rows);
        let k = widths.len() as nat;
        code_seq(Style::Bold) + row_text(rows[0], widths, k) + reset_seq() + nl() + sep_text(
            widths,
            k,
        ) + nl() + data_rows_text(rows, widths, rows.len() as nat)
    }
}

/// Trimming the leading delimiters drops exactly the leading run.
proof fn lemma_trim_pipes_start_skip(s: Seq<char>, k: int)
    requires
        0 <= k <= s.len(),
        forall|j: int| 0 <= j < k ==> s[j] == '|',
        k < s.len() ==> s[k] != '|',
    ensures
        trim_pipes_start(s) == s.skip(k),
    decreases k,
{
    if k > 0 {
        lemma_trim_pipes_start_skip(s.skip(1), k - 1);
        assert(s.skip(1).skip(k - 1) =~= s.skip(k));
    } else {
        assert(s.skip(0) =~= s);
    }
}

/// Trimming the trailing delimiters drops exactly the trailing run.
proof fn lemma_trim_pipes_end_take(s: Seq<char>, k: int)
    requires
        0 <= k <= s.len(),
        forall|j: int| k <= j < s.len() ==> s[j] == '|',
        k > 0 ==> s[k - 1] != '|',
    ensures
        trim_pipes_end(s) == s.take(k),
    decreases s.len(),
{
    if s.len() > k {
        lemma_trim_pipes_end_take(s.drop_last(), k);
    } else {
        assert(s.take(k) =~= s);
    }
}

/// `s` with the delimiter characters at both ends removed, owned.
fn trim_pipes_of(s: &str) -> (r: String)
    ensures
        r@ == trim_pipes(s@),
{
    let n = s.unicode_len();
    let mut a: usize = 0;
    while a < n && s.get_char(a) == '|'
        invariant
            a <= n,
            n == s@.len(),
            forall|j: int| 0 <= j < a ==> s@[j] == '|',
        decreases n - a,
    {
        a = a + 1;
    }
    let mut b: usize = n;
    while b > a && s.get_char(b - 1) == '|'
        invariant
            a <= b <= n,
            n == s@.len(),
            forall|j: int| b <= j < n ==> s@[j] == '|',
        decreases b,
    {
        b = b - 1;
    }
    proof {
        lemma_trim_pipes_start_skip(s@, a as int);
        let t = s@.skip(a as int);
        lemma_trim_pipes_end_take(t, (b - a) as int);
        assert(t.take((b - a) as int) =~= s@.subrange(a as int, b as int));
    }
    String::from_str(s.substring_char(a, b))
}

/// One raw row as trimmed cells.
pub fn split_cells(line: &str) -> (cells: Vec<String>)
    ensures
        views_of(cells@) == split_cells_spec(line@),
{
    let t = trim_pipes_of(line);
    let s = t.as_str();
    let n = s.unicode_len();
    let mut cells: Vec<String> = Vec::new();
    let mut start: usize = 0;
    let mut i: usize = 0;
    proof {
        assert(s@.skip(0) =~= s@);
        assert(views_of(cells@) =~= Seq::<Seq<char>>::empty());
        assert(Seq::<Seq<char>>::empty() + split_on(s@, '|').map_values(
            |c: Seq<char>| trim_spec(c),
        ) =~= split_on(s@, '|').map_values(|c: Seq<char>| trim_spec(c)));
    }
    while i < n
        invariant
            start <= i <= n,
            n == s@.len(),
            s@ == trim_pipes(line@),
            forall|j: int| start <= j < i ==> s@[j] != '|',
            split_cells_spec(line@) == views_of(cells@) + split_on(
                s@.skip(start as int),
                '|',
            ).map_values(|c: Seq<char>| trim_spec(c)),
        decreases n - i,
    {
        if s.get_char(i) == '|' {
            let ghost before = cells@;
            let cell = trim_of(s.substring_char(start, i));
            cells.push(cell);
            proof {
                let rest = s@.skip(start as int);
                lemma_first_at_is(rest, '|', (i - start) as int);
                assert(rest.take((i - start) as int) =~= s@.subrange(start as int, i as int));
                assert(rest.skip((i - start) as int + 1) =~= s@.skip(i as int + 1));
                let f = |c: Seq<char>| trim_spec(c);
                assert(split_on(rest, '|') == seq![s@.subrange(start as int, i as int)] + split_on(
                    s@.skip(i as int + 1),
                    '|',
                ));
                assert(split_on(rest, '|').map_values(f) =~= seq![cell@] + split_on(
                    s@.skip(i as int + 1),
                    '|',
                ).map_values(f));
                assert(views_of(cells@) =~= views_of(before).push(cell@));
                assert(views_of(before) + (seq![cell@] + split_on(s@.skip(i as int + 1), '|').map_values(f))
                    =~= views_of(cells@) + split_on(s@.skip(i as int + 1), '|').map_values(f));
            }
            start = i + 1;
        }
        i = i + 1;
    }
    let ghost before = cells@;
    let cell = trim_of(s.substring_char(start, n));
    cells.push(cell);
    proof {
        let rest = s@.skip(start as int);
        lemma_first_at_is(rest, '|', (n - start) as int);
        assert(rest =~= s@.subrange(start as int, n as int));
        let f = |c: Seq<char>| trim_spec(c);
        assert(split_on(rest, '|') == seq![rest]);
        assert(split_on(rest, '|').map_values(f) =~= seq![cell@]);
        assert(views_of(cells@) =~= views_of(before).push(cell@));
        assert(views_of(before) + seq![cell@] =~= views_of(cells@));
        assert(views_of(cells@) =~= split_cells_spec(line@));
    }
    cells
}

/// The character views of a sequence of cell rows.
pub open spec fn views2(v: Seq<Vec<String>>) -> Seq<Seq<Seq<char>>> {
    v.map_values(|r: Vec<String>| views_of(r@))
}

/// The usize widths as their mathematical values.
pub open spec fn nat_views(v: Seq<usize>) -> Seq<nat> {
    v.map_values(|w: usize| w as nat)
}

/// No cell is wider than its column.
proof fn lemma_col_width_bound(rows: Seq<Seq<Seq<char>>>, j: int, r: int)
    requires
        0 <= r < rows.len(),
    ensures
        rows[r][j].len() <= col_width(rows, j),
    decreases rows.len(),
{
    if r < rows.len() - 1 {
        lemma_col_width_bound(rows.drop_last(), j, r);
    }
}

/// Appends one row: its cells padded to their columns' widths, joined.
fn append_row(out: &mut String, cells: &Vec<String>, widths: &Vec<usize>)
    requires
        cells@.len() == widths@.len(),
        forall|j: int| 0 <= j < cells@.len() ==> (#[trigger] cells@[j])@.len() <= widths@[j],
    ensures
        final(out)@ == old(out)@ + row_text(
            views_of(cells@),
            nat_views(widths@),
            widths@.len() as nat,
        ),
{
    let ghost base = out@;
    let ghost cv = views_of(cells@);
    let ghost wv = nat_views(widths@);
    let k = widths.len();
    let mut j: usize = 0;
    while j < k
        invariant
            j <= k,
            k == widths@.len(),
            cells@.len() == widths@.len(),
            cv == views_of(cells@),
            wv == nat_views(widths@),
            forall|x: int| 0 <= x < cells@.len() ==> (#[trigger] cells@[x])@.len() <= widths@[x],
            out@ == base + row_text(cv, wv, j as nat),
        decreases k - j,
    {
        if j > 0 {
            out.append(" | ");
            proof {
                reveal_strlit(" | ");
                assert(" | "@ =~= cell_sep());
            }
        }
        let cell = &cells[j];
        let len = cell.as_str().unicode_len();
        out.append(cell.as_str());
        proof {
            reveal_strlit(" ");
        }
        append_repeat(out, " ", widths[j] - len);
        proof {
            assert(" "@[0] == ' ');
            assert(cv[j as int] + repeat_char(' ', (widths@[j as int] - cv[j as int].len()) as nat)
                =~= pad_cell(cv[j as int], wv[j as int]));
            if j == 0 {
                assert(row_text(cv, wv, 1) == pad_cell(cv[0], wv[0]));
            }
            assert(out@ =~= base + row_text(cv, wv, (j + 1) as nat));
        }
        j = j + 1;
    }
}

/// Appends the separator line: one dash run per column width, joined.
fn append_sep(out: &mut String, widths: &Vec<usize>)
    ensures
        final(out)@ == old(out)@ + sep_text(nat_views(widths@), widths@.len() as nat),
{
    let ghost base = out@;
    let ghost wv = nat_views(widths@);
    let k = widths.len();
    let mut j: usize = 0;
    while j < k
        invariant
            j <= k,
            k == widths@.len(),
            wv == nat_views(widths@),
            out@ == base + sep_text(wv, j as nat),
        decreases k - j,
    {
        if j > 0 {
            out.append("-+-");
            proof {
                reveal_strlit("-+-");
                assert("-+-"@ =~= sep_joint());
            }
        }
        proof {
            reveal_strlit("-");
        }
        append_repeat(out, "-", widths[j]);
        proof {
            assert("-"@[0] == '-');
            assert(out@ =~= base + sep_text(wv, (j + 1) as nat));
        }
        j = j + 1;
    }
}

/// Renders one table block, aligned and padded; a block of fewer than
/// two rows yields the diagnostic line instead.
pub fn render_table(lines: &Vec<String>) -> (out: String)
    ensures
        out@ == render_table_spec(views_of(lines@)),
{
    let ghost lv = views_of(lines@);
    let mut out = String::new();
    if lines.len() < 2 {
        out.append("Invalid table format.");
        out.append("\n");
        proof {
            reveal_strlit("Invalid table format.");
            reveal_strlit("\n");
            assert("Invalid table format."@ =~= invalid_table_msg());
            assert("\n"@ =~= nl());
            assert(out@ =~= invalid_table_msg() + nl());
        }
        return out;
    }
    // split and normalize every row to the header's column count
    let first_cells = split_cells(lines[0].as_str());
    let k = first_cells.len();
    proof {
        assert(lv[0] == lines@[0]@);
        assert(k == split_cells_spec(lv[0]).len());
    }
    let mut rows: Vec<Vec<String>> = Vec::new();
    let mut r: usize = 0;
    while r < lines.len()
        invariant
            r <= lines@.len(),
            rows@.len() == r,
            lv == views_of(lines@),
            2 <= lines@.len(),
            k == split_cells_spec(lv[0]).len(),
            forall|t: int|
                0 <= t < r ==> views_of((#[trigger] rows@[t])@) == norm_row(
                    split_cells_spec(lv[t]),
                    k as nat,
                ),
        decreases lines@.len() - r,
    {
        let cells = split_cells(lines[r].as_str());
        let mut norm: Vec<String> = Vec::new();
        let mut j: usize = 0;
        while j < k
            invariant
                j <= k,
                norm@.len() == j,
                views_of(cells@) == split_cells_spec(lv[r as int]),
                r < lines@.len(),
                lv == views_of(lines@),
                forall|x: int|
                    0 <= x < j ==> views_of(norm@)[x] == norm_row(
                        split_cells_spec(lv[r as int]),
                        k as nat,
                    )[x],
            decreases k - j,
        {
            let ghost before = norm@;
            if j < cells.len() {
                norm.push(cells[j].clone());
            } else {
                norm.push(String::new());
            }
            proof {
                assert(views_of(norm@) =~= views_of(before).push(norm@.last()@));
                if j < cells@.len() {
                    assert(views_of(cells@)[j as int] == cells@[j as int]@);
                }
                assert(views_of(norm@)[j as int] == norm_row(
                    split_cells_spec(lv[r as int]),
                    k as nat,
                )[j as int]);
            }
            j = j + 1;
        }
        rows.push(norm);
        proof {
            assert(views_of(rows@[r as int]@) =~= norm_row(split_cells_spec(lv[r as int]), k as nat));
        }
        r = r + 1;
    }
    let ghost rv = views2(rows@);
    proof {
        assert(rv =~~= table_cells(lv));
        assert(rv[0].len() == k);
        assert(forall|t: int| 0 <= t < rv.len() ==> (#[trigger] rv[t]).len() == k);
    }
    // column widths: the longest cell per column over all rows
    let mut widths: Vec<usize> = Vec::new();
    let mut j: usize = 0;
    while j < k
        invariant
            j <= k,
            widths@.len() == j,
            rv == views2(rows@),
            rows@.len() == lines@.len() >= 2,
            k == rv[0].len(),
            forall|t: int| 0 <= t < rv.len() ==> (#[trigger] rv[t]).len() == k,
            forall|x: int| 0 <= x < j ==> widths@[x] as nat == col_width(rv, x),
        decreases k - j,
    {
        let mut w: usize = 0;
        let mut t: usize = 0;
        proof {
            assert(rv.take(0) =~= Seq::<Seq<Seq<char>>>::empty());
        }
        while t < rows.len()
            invariant
                t <= rows@.len(),
                j < k,
                rv == views2(rows@),
                k == rv[0].len(),
                forall|x: int| 0 <= x < rv.len() ==> (#[trigger] rv[x]).len() == k,
                w as nat == col_width(rv.take(t as int), j as int),
            decreases rows@.len() - t,
        {
            proof {
                assert(rv[t as int] == views_of(rows@[t as int]@));
                assert(rows@[t as int]@.len() == k);
            }
            let c = rows[t][j].as_str().unicode_len();
            proof {
                assert(rv.take(t + 1).drop_last() =~= rv.take(t as int));
                assert(rv.take(t + 1).last() == rv[t as int]);
                assert(rv[t as int][j as int] == rows@[t as int]@[j as int]@);
            }
            if c > w {
                w = c;
            }
            t = t + 1;
        }
        proof {
            assert(rv.take(rows@.len() as int) =~= rv);
        }
        widths.push(w);
        j = j + 1;
    }
    let ghost wv = nat_views(widths@);
    proof {
        assert(wv =~= col_widths(rv));
    }
    // header row in bold
    out.append(code_str(Style::Bold));
    let ghost after_bold = out@;
    proof {
        assert(views_of(rows@[0]@) == rv[0]);
        assert forall|x: int| 0 <= x < rows@[0]@.len() implies (#[trigger] rows@[0]@[x])@.len()
            <= widths@[x] by {
            lemma_col_width_bound(rv, x, 0);
        }
    }
    append_row(&mut out, &rows[0], &widths);
    out.append(reset_str());
    out.append("\n");
    // separator line
    append_sep(&mut out, &widths);
    out.append("\n");
    let ghost after_sep = out@;
    proof {
        reveal_strlit("\n");
        assert("\n"@ =~= nl());
        assert(after_sep =~= code_seq(Style::Bold) + row_text(rv[0], wv, k as nat) + reset_seq()
            + nl() + sep_text(wv, k as nat) + nl());
        assert(out@ =~= after_sep + data_rows_text(rv, wv, 2));
    }
    // remaining rows as plain padded text
    let mut t: usize = 2;
    while t < rows.len()
        invariant
            2 <= t <= rows@.len(),
            rv == views2(rows@),
            wv == nat_views(widths@),
            widths@.len() == k,
            k == rv[0].len(),
            forall|x: int| 0 <= x < rv.len() ==> (#[trigger] rv[x]).len() == k,
            forall|x: int| 0 <= x < k ==> widths@[x] as nat == col_width(rv, x),
            out@ == after_sep + data_rows_text(rv, wv, t as nat),
        decreases rows@.len() - t,
    {
        proof {
            assert(views_of(rows@[t as int]@) == rv[t as int]);
            assert forall|x: int| 0 <= x < rows@[t as int]@.len() implies (#[trigger] rows@[t as int]@[x])@.len() <= widths@[x] by {
                lemma_col_width_bound(rv, x, t as int);
            }
        }
        append_row(&mut out, &rows[t], &widths);
        out.append("\n");
        proof {
            reveal_strlit("\n");
            assert("\n"@ =~= nl());
            assert(out@ =~= after_sep + data_rows_text(rv, wv, (t + 1) as nat));
        }
        t = t + 1;
    }
    proof {
        assert(out@ =~= render_table_spec(lv));
    }
    out
}

} // verus!
