//! Table building and rendering: rows, column widths, borders and padding.

use vstd::prelude::*;
use vstd::arithmetic::power2::{
    lemma2_to64, lemma2_to64_rest, lemma_pow2_strictly_increases, pow2,
};
use vstd::string::{StrSliceExecFns, StringExecFns};
use crate::assign::{assignment, assignment_seq};

verus! {

/// The canonical display text of a boolean value.
pub open spec fn bool_text(b: bool) -> Seq<char> {
    if b {
        "true"@
    } else {
        "false"@
    }
}

/// The fixed label of the result column.
pub open spec fn result_label() -> Seq<char> {
    "F"@
}

/// The header row: the variable names followed by the result label.
pub open spec fn header_cells(vars: Seq<Seq<char>>) -> Seq<Seq<char>> {
    vars.push(result_label())
}

/// The data row for one assignment and its result: the display text of each
/// bound value, then the display text of the result.
pub open spec fn data_cells(a: Seq<bool>, res: bool) -> Seq<Seq<char>> {
    a.map_values(|b: bool| bool_text(b)).push(bool_text(res))
}

/// All rows of the table: the header first, then one data row per result,
/// row `i + 1` showing assignment `i`.
pub open spec fn table_cells(vars: Seq<Seq<char>>, results: Seq<bool>) -> Seq<Seq<Seq<char>>> {
    Seq::new(
        results.len() + 1,
        |r: int|
            if r == 0 {
                header_cells(vars)
            } else {
                data_cells(assignment_seq((r - 1) as nat, vars.len()), results[r - 1])
            },
    )
}

/// The width of column `j`: the length of the longest cell at position `j`
/// over all rows.
pub open spec fn col_width(rows: Seq<Seq<Seq<char>>>, j: int) -> nat
    decreases rows.len(),
{
    if rows.len() == 0 {
        0
    } else {
        let rest = col_width(rows.drop_last(), j);
        if rows.last()[j].len() > rest {
            rows.last()[j].len()
        } else {
            rest
        }
    }
}

/// The column-width vector of a table with `ncols` columns.
pub open spec fn widths_of(rows: Seq<Seq<Seq<char>>>, ncols: nat) -> Seq<nat> {
    Seq::new(ncols, |j: int| col_width(rows, j))
}

/// Every cell fits within its column's width.
pub proof fn lemma_col_width_bound(rows: Seq<Seq<Seq<char>>>, r: int, j: int)
    requires
        0 <= r < rows.len(),
    ensures
        rows[r][j].len() <= col_width(rows, j),
    decreases rows.len(),
{
    if r == rows.len() - 1 {
    } else {
        lemma_col_width_bound(rows.drop_last(), r, j);
    }
}

/// `n` copies of one character.
pub open spec fn char_run(c: char, n: nat) -> Seq<char> {
    Seq::new(n, |x: int| c)
}

/// One padded cell: a space, the cell text, a space, then blanks up to the
/// column width.
pub open spec fn padded_cell(text: Seq<char>, w: nat) -> Seq<char>
    recommends
        text.len() <= w,
{
    seq![' '] + text + seq![' '] + char_run(' ', (w - text.len()) as nat)
}

/// The middle of a row line: the padded cells joined by the separator.
pub open spec fn row_middle(cells: Seq<Seq<char>>, ws: Seq<nat>) -> Seq<char>
    recommends
        cells.len() == ws.len(),
    decreases cells.len(),
{
    if cells.len() == 0 {
        Seq::empty()
    } else if cells.len() == 1 {
        padded_cell(cells[0], ws[0])
    } else {
        row_middle(cells.drop_last(), ws.drop_last()) + seq!['|'] + padded_cell(
            cells.last(),
            ws.last(),
        )
    }
}

/// A full row line: the middle wrapped in the border character.
pub open spec fn row_line(cells: Seq<Seq<char>>, ws: Seq<nat>) -> Seq<char> {
    seq!['|'] + row_middle(cells, ws) + seq!['|']
}

/// The middle of a border line: one dash run per column, two dashes longer
/// than the column width, joined by the corner character.
pub open spec fn sep_middle(ws: Seq<nat>) -> Seq<char>
    decreases ws.len(),
{
    if ws.len() == 0 {
        Seq::empty()
    } else if ws.len() == 1 {
        char_run('-', (ws[0] + 2) as nat)
    } else {
        sep_middle(ws.drop_last()) + seq!['+'] + char_run('-', (ws.last() + 2) as nat)
    }
}

/// A full border line.
pub open spec fn sep_line(ws: Seq<nat>) -> Seq<char> {
    seq!['|'] + sep_middle(ws) + seq!['|']
}

/// The length shared by the middle of every line of a table with the given
/// column widths.
pub open spec fn middle_len(ws: Seq<nat>) -> nat
    decreases ws.len(),
{
    if ws.len() == 0 {
        0
    } else if ws.len() == 1 {
        (ws[0] + 2) as nat
    } else {
        (middle_len(ws.drop_last()) + 1 + ws.last() + 2) as nat
    }
}

/// A border line's middle has the shared middle length.
pub proof fn lemma_sep_middle_len(ws: Seq<nat>)
    ensures
        sep_middle(ws).len() == middle_len(ws),
    decreases ws.len(),
{
    if ws.len() > 1 {
        lemma_sep_middle_len(ws.drop_last());
    }
}

/// A row line's middle has the shared middle length, as long as every cell
/// fits within its column's width.
pub proof fn lemma_row_middle_len(cells: Seq<Seq<char>>, ws: Seq<nat>)
    requires
        cells.len() == ws.len(),
        forall|j: int| 0 <= j < cells.len() ==> cells[j].len() <= ws[j],
    ensures
        row_middle(cells, ws).len() == middle_len(ws),
    decreases cells.len(),
{
    if cells.len() > 1 {
        lemma_row_middle_len(cells.drop_last(), ws.drop_last());
    }
}

/// The lines of the rendered table, in order: a top border, the header row,
/// a second border under the header, one line per data row, and a bottom
/// border. Line `l + 3` shows assignment `l`.
pub open spec fn table_lines(vars: Seq<Seq<char>>, results: Seq<bool>) -> Seq<Seq<char>> {
    let rows = table_cells(vars, results);
    let ws = widths_of(rows, vars.len() + 1);
    Seq::new(
        results.len() + 4,
        |l: int|
            if l == 0 || l == 2 || l == results.len() + 3 {
                sep_line(ws)
            } else if l == 1 {
                row_line(rows[0], ws)
            } else {
                row_line(rows[l - 2], ws)
            },
    )
}

/// The lines joined by newlines: each line but the last is followed by one
/// newline character, and nothing follows the last.
pub open spec fn join_lines(lines: Seq<Seq<char>>) -> Seq<char>
    decreases lines.len(),
{
    if lines.len() == 0 {
        Seq::empty()
    } else if lines.len() == 1 {
        lines[0]
    } else {
        join_lines(lines.drop_last()) + seq!['\n'] + lines.last()
    }
}

/// The full rendered table text.
pub open spec fn table_text_spec(vars: Seq<Seq<char>>, results: Seq<bool>) -> Seq<char> {
    join_lines(table_lines(vars, results))
}

/// Every row of the table has one cell per variable plus the result cell.
pub proof fn lemma_table_cells_row_len(vars: Seq<Seq<char>>, results: Seq<bool>, r: int)
    requires
        0 <= r < table_cells(vars, results).len(),
    ensures
        table_cells(vars, results)[r].len() == vars.len() + 1,
{
}

/// Every line of a rendered table has the same total character width: the
/// header line, every data line and all three border lines.
pub proof fn lemma_uniform_line_width(vars: Seq<Seq<char>>, results: Seq<bool>)
    ensures
        forall|l: int|
            0 <= l < table_lines(vars, results).len() ==> #[trigger] table_lines(
                vars,
                results,
            )[l].len() == middle_len(
                widths_of(table_cells(vars, results), vars.len() + 1),
            ) + 2,
{
    let rows = table_cells(vars, results);
    let ws = widths_of(rows, vars.len() + 1);
    lemma_sep_middle_len(ws);
    assert forall|l: int|
        0 <= l < table_lines(vars, results).len() implies #[trigger] table_lines(
        vars,
        results,
    )[l].len() == middle_len(ws) + 2 by {
        if l == 0 || l == 2 || l == results.len() + 3 {
        } else {
            let r = if l == 1 {
                0int
            } else {
                l - 2
            };
            lemma_table_cells_row_len(vars, results, r);
            assert forall|j: int| 0 <= j < rows[r].len() implies rows[r][j].len() <= ws[j] by {
                lemma_col_width_bound(rows, r, j);
            }
            lemma_row_middle_len(rows[r], ws);
        }
    }
}

/// A rendered table has one line per data row plus four: the header line
/// and the three border lines. With `2^n` results there are exactly `2^n`
/// data lines, and with no variables exactly one.
pub proof fn lemma_line_count(vars: Seq<Seq<char>>, results: Seq<bool>)
    ensures
        table_lines(vars, results).len() == results.len() + 4,
        results.len() == pow2(vars.len()) ==> table_lines(vars, results).len() == pow2(vars.len())
            + 4,
{
}

/// The width vector as mathematical naturals.
pub open spec fn nats_of(ws: Seq<usize>) -> Seq<nat> {
    ws.map_values(|w: usize| w as nat)
}

/// The display text of a boolean value.
fn bool_str(b: bool) -> (r: &'static str)
    ensures
        r@ == bool_text(b),
{
    if b {
        "true"
    } else {
        "false"
    }
}

/// Appends a dash run two longer than the column width.
fn push_dashes(out: &mut String, w: usize)
    ensures
        final(out)@ == old(out)@ + char_run('-', (w + 2) as nat),
{
    proof {
        reveal_strlit("-");
    }
    let ghost base: Seq<char> = out@;
    out.append("-");
    out.append("-");
    proof {
        assert(out@ =~= base + char_run('-', 2));
    }
    for k in 0..w
        invariant
            out@ == base + char_run('-', (k + 2) as nat),
    {
        out.append("-");
        proof {
            reveal_strlit("-");
            assert(base + char_run('-', (k + 3) as nat) =~= base + char_run('-', (k + 2) as nat)
                + "-"@);
        }
    }
}

/// Appends `w` blanks.
fn push_blanks(out: &mut String, w: usize)
    ensures
        final(out)@ == old(out)@ + char_run(' ', w as nat),
{
    proof {
        reveal_strlit(" ");
    }
    let ghost base: Seq<char> = out@;
    proof {
        assert(out@ =~= base + char_run(' ', 0));
    }
    for k in 0..w
        invariant
            out@ == base + char_run(' ', k as nat),
    {
        out.append(" ");
        proof {
            reveal_strlit(" ");
            assert(base + char_run(' ', (k + 1) as nat) =~= base + char_run(' ', k as nat)
                + " "@);
        }
    }
}

/// Renders one border line for the given column widths.
fn render_sep(ws: &Vec<usize>) -> (r: String)
    ensures
        r@ == sep_line(nats_of(ws@)),
{
    proof {
        reveal_strlit("|");
        reveal_strlit("+");
    }
    let mut out = String::new();
    out.append("|");
    proof {
        assert(out@ =~= seq!['|'] + sep_middle(nats_of(ws@).take(0)));
    }
    let n = ws.len();
    for j in 0..n
        invariant
            n == ws@.len(),
            out@ == seq!['|'] + sep_middle(nats_of(ws@).take(j as int)),
    {
        let ghost before: Seq<char> = out@;
        if j > 0 {
            out.append("+");
        }
        push_dashes(&mut out, ws[j]);
        proof {
            reveal_strlit("+");
            let wsn = nats_of(ws@);
            let run = char_run('-', (ws@[j as int] as nat + 2) as nat);
            assert(wsn.take(j + 1).drop_last() =~= wsn.take(j as int));
            assert(wsn.take(j + 1).last() == ws@[j as int] as nat);
            assert(char_run('-', (ws@[j as int] + 2) as nat) =~= run);
            if j == 0 {
                assert(wsn.take(1).len() == 1);
                assert(sep_middle(wsn.take(1)) == char_run('-', (wsn.take(1)[0] + 2) as nat));
                assert(out@ == before + char_run('-', (ws@[0] + 2) as nat));
                assert(out@ =~= seq!['|'] + sep_middle(wsn.take(j + 1)));
            } else {
                assert(wsn.take(j + 1).len() == j + 1);
                assert(sep_middle(wsn.take(j + 1)) == sep_middle(wsn.take(j as int)) + seq!['+']
                    + run);
                assert(out@ == (before + "+"@) + char_run('-', (ws@[j as int] + 2) as nat));
                assert("+"@ =~= seq!['+']);
                assert(out@ =~= seq!['|'] + sep_middle(wsn.take(j + 1)));
            }
        }
    }
    out.append("|");
    proof {
        assert(nats_of(ws@).take(n as int) =~= nats_of(ws@));
        assert(out@ =~= sep_line(nats_of(ws@)));
    }
    out
}

/// Renders one row line: each cell padded to its column width, joined by
/// the separator and wrapped in the border character.
fn render_row(cells: &Vec<String>, ws: &Vec<usize>) -> (r: String)
    requires
        cells@.len() == ws@.len(),
        forall|j: int| 0 <= j < cells@.len() ==> cells.deep_view()[j].len() <= ws@[j] as nat,
    ensures
        r@ == row_line(cells.deep_view(), nats_of(ws@)),
{
    proof {
        reveal_strlit("|");
        reveal_strlit(" ");
    }
    let mut out = String::new();
    out.append("|");
    proof {
        assert(out@ =~= seq!['|'] + row_middle(cells.deep_view().take(0), nats_of(ws@).take(0)));
    }
    let n = cells.len();
    for j in 0..n
        invariant
            n == cells@.len(),
            cells@.len() == ws@.len(),
            forall|t: int| 0 <= t < cells@.len() ==> cells.deep_view()[t].len() <= ws@[t] as nat,
            out@ == seq!['|'] + row_middle(
                cells.deep_view().take(j as int),
                nats_of(ws@).take(j as int),
            ),
    {
        let ghost before: Seq<char> = out@;
        if j > 0 {
            out.append("|");
        }
        out.append(" ");
        out.append(cells[j].as_str());
        out.append(" ");
        let len = cells[j].as_str().unicode_len();
        push_blanks(&mut out, ws[j] - len);
        proof {
            reveal_strlit(" ");
            reveal_strlit("|");
            let cv = cells.deep_view();
            let wsn = nats_of(ws@);
            let cell = cv[j as int];
            let w = ws@[j as int] as nat;
            assert(cell == cells@[j as int]@);
            assert(cv.take(j + 1).drop_last() =~= cv.take(j as int));
            assert(wsn.take(j + 1).drop_last() =~= wsn.take(j as int));
            assert(cv.take(j + 1).last() == cell);
            assert(wsn.take(j + 1).last() == w);
            assert(" "@ =~= seq![' ']);
            assert("|"@ =~= seq!['|']);
            if j == 0 {
                assert(cv.take(1).len() == 1);
                assert(row_middle(cv.take(1), wsn.take(1)) == padded_cell(
                    cv.take(1)[0],
                    wsn.take(1)[0],
                ));
                assert(out@ == ((before + " "@) + cells@[j as int]@ + " "@) + char_run(
                    ' ',
                    (ws@[j as int] - len) as nat,
                ));
                assert(out@ =~= seq!['|'] + padded_cell(cell, w));
                assert(out@ =~= seq!['|'] + row_middle(cv.take(j + 1), wsn.take(j + 1)));
            } else {
                assert(cv.take(j + 1).len() == j + 1);
                assert(row_middle(cv.take(j + 1), wsn.take(j + 1)) == row_middle(
                    cv.take(j as int),
                    wsn.take(j as int),
                ) + seq!['|'] + padded_cell(cell, w));
                assert(out@ == (((before + "|"@) + " "@) + cells@[j as int]@ + " "@) + char_run(
                    ' ',
                    (ws@[j as int] - len) as nat,
                ));
                assert(out@ =~= seq!['|'] + row_middle(cv.take(j + 1), wsn.take(j + 1)));
            }
        }
    }
    out.append("|");
    proof {
        assert(cells.deep_view().take(n as int) =~= cells.deep_view());
        assert(nats_of(ws@).take(n as int) =~= nats_of(ws@));
        assert(out@ =~= row_line(cells.deep_view(), nats_of(ws@)));
    }
    out
}

/// Computes the column widths of the table: for each column, the longest
/// cell in it over every row.
fn col_widths(rows: &Vec<Vec<String>>, ncols: usize) -> (ws: Vec<usize>)
    requires
        forall|r: int| 0 <= r < rows@.len() ==> (#[trigger] rows@[r])@.len() == ncols,
    ensures
        ws@.len() == ncols,
        forall|j: int| 0 <= j < ncols ==> ws@[j] as nat == col_width(rows.deep_view(), j),
{
    let mut ws: Vec<usize> = Vec::new();
    let nrows = rows.len();
    for j in 0..ncols
        invariant
            nrows == rows@.len(),
            forall|r: int| 0 <= r < rows@.len() ==> (#[trigger] rows@[r])@.len() == ncols,
            ws@.len() == j,
            forall|t: int| 0 <= t < j ==> ws@[t] as nat == col_width(rows.deep_view(), t),
    {
        let mut w: usize = 0;
        for r in 0..nrows
            invariant
                nrows == rows@.len(),
                j < ncols,
                forall|r0: int| 0 <= r0 < rows@.len() ==> (#[trigger] rows@[r0])@.len() == ncols,
                w as nat == col_width(rows.deep_view().take(r as int), j as int),
        {
            let len = rows[r][j].as_str().unicode_len();
            proof {
                let dv = rows.deep_view();
                assert(dv.take(r + 1).drop_last() =~= dv.take(r as int));
                assert(dv.take(r + 1).last() == dv[r as int]);
                assert(dv[r as int][j as int] == rows@[r as int]@[j as int]@);
            }
            if len > w {
                w = len;
            }
        }
        proof {
            assert(rows.deep_view().take(nrows as int) =~= rows.deep_view());
        }
        ws.push(w);
    }
    ws
}

/// Joins the rendered lines: a newline after every line but the last.
fn join_with_newlines(lines: &Vec<String>) -> (r: String)
    ensures
        r@ == join_lines(lines.deep_view()),
{
    proof {
        reveal_strlit("\n");
    }
    let mut out = String::new();
    let n = lines.len();
    for l in 0..n
        invariant
            n == lines@.len(),
            out@ == join_lines(lines.deep_view().take(l as int)),
    {
        let ghost before: Seq<char> = out@;
        if l > 0 {
            out.append("\n");
        }
        out.append(lines[l].as_str());
        proof {
            reveal_strlit("\n");
            let dv = lines.deep_view();
            assert(dv.take(l + 1).drop_last() =~= dv.take(l as int));
            assert(dv.take(l + 1).last() == dv[l as int]);
            assert(dv[l as int] == lines@[l as int]@);
            if l == 0 {
                assert(dv.take(1).len() == 1);
                assert(join_lines(dv.take(1)) == dv.take(1)[0]);
                assert(out@ == before + lines@[0]@);
                assert(out@ =~= join_lines(dv.take(1)));
            } else {
                assert(dv.take(l + 1).len() == l + 1);
                assert(join_lines(dv.take(l + 1)) == join_lines(dv.take(l as int)) + seq!['\n']
                    + dv[l as int]);
                assert(out@ == (before + "\n"@) + lines@[l as int]@);
                assert("\n"@ =~= seq!['\n']);
                assert(out@ =~= join_lines(dv.take(l + 1)));
            }
        }
    }
    proof {
        assert(lines.deep_view().take(n as int) =~= lines.deep_view());
    }
    out
}

/// Builds and renders the whole truth table for the given variable names
/// and evaluation results, one result per assignment in enumeration order.
pub fn table_text(vars: &Vec<String>, results: &Vec<bool>) -> (r: String)
    requires
        results@.len() == pow2(vars@.len() as nat),
    ensures
        r@ == table_text_spec(vars.deep_view(), results@),
{
    let n = vars.len();
    let count = results.len();
    proof {
        lemma2_to64();
        lemma2_to64_rest();
        if n >= 64 {
            if n > 64 {
                lemma_pow2_strictly_increases(64, n as nat);
            }
            assert(count < pow2(64));
            assert(false);
        }
    }
    // the header row: the variable names, then the result label
    let mut header: Vec<String> = Vec::new();
    for j in 0..n
        invariant
            n == vars@.len(),
            header@.len() == j,
            forall|t: int| 0 <= t < j ==> (#[trigger] header@[t])@ == vars.deep_view()[t],
    {
        header.push(vars[j].clone());
        proof {
            assert((header@[j as int])@ == vars.deep_view()[j as int]);
        }
    }
    header.push(String::from_str("F"));
    proof {
        assert(header.deep_view() =~= header_cells(vars.deep_view()));
    }
    let mut rows: Vec<Vec<String>> = Vec::new();
    rows.push(header);
    let ghost tc = table_cells(vars.deep_view(), results@);
    proof {
        assert((rows@[0]).deep_view() == tc[0]);
    }
    // one data row per assignment, in enumeration order
    for i in 0..count
        invariant
            n == vars@.len(),
            n < 64,
            count == results@.len(),
            results@.len() == pow2(vars@.len() as nat),
            tc == table_cells(vars.deep_view(), results@),
            rows@.len() == i + 1,
            forall|t: int| 0 <= t < i + 1 ==> (#[trigger] rows@[t]).deep_view() == tc[t],
    {
        let a = assignment(i as u64, n);
        let mut row: Vec<String> = Vec::new();
        for j in 0..n
            invariant
                n < 64,
                a@ == assignment_seq(i as nat, n as nat),
                a@.len() == n,
                row@.len() == j,
                forall|t: int| 0 <= t < j ==> (#[trigger] row@[t])@ == bool_text(a@[t]),
        {
            let cell = String::from_str(bool_str(a[j]));
            proof {
                assert(cell@ == bool_text(a@[j as int]));
            }
            row.push(cell);
            proof {
                assert((row@[j as int])@ == bool_text(a@[j as int]));
            }
        }
        let last = String::from_str(bool_str(results[i]));
        row.push(last);
        proof {
            let want = data_cells(assignment_seq(i as nat, n as nat), results@[i as int]);
            assert(row@.len() == n + 1);
            assert(want.len() == n + 1);
            assert((row@[n as int])@ == bool_text(results@[i as int]));
            assert forall|t: int| 0 <= t < n + 1 implies row.deep_view()[t] == want[t] by {
                assert(row.deep_view()[t] == (row@[t])@);
                if t < n {
                    assert((row@[t])@ == bool_text(a@[t]));
                }
            }
            assert(row.deep_view() =~= want);
        }
        rows.push(row);
        proof {
            assert((rows@[i + 1]).deep_view() == tc[i + 1]);
        }
    }
    proof {
        assert forall|r0: int| 0 <= r0 < rows@.len() implies rows.deep_view()[r0] == tc[r0] by {
            assert(rows.deep_view()[r0] == (rows@[r0]).deep_view());
        }
        assert(rows.deep_view() =~= tc);
        assert forall|r0: int|
            0 <= r0 < rows@.len() implies (#[trigger] rows@[r0])@.len() == n + 1 by {
            assert((rows@[r0]).deep_view() == tc[r0]);
            assert(tc[r0].len() == n + 1);
            assert((rows@[r0]).deep_view().len() == rows@[r0]@.len());
        }
    }
    let ws = col_widths(&rows, n + 1);
    proof {
        assert(nats_of(ws@) =~= widths_of(table_cells(vars.deep_view(), results@), (n + 1) as nat));
    }
    let sep = render_sep(&ws);
    let ghost tl = table_lines(vars.deep_view(), results@);
    let mut lines: Vec<String> = Vec::new();
    lines.push(sep.clone());
    proof {
        assert forall|j: int| 0 <= j < rows@[0]@.len() implies (rows@[0]).deep_view()[j].len()
            <= ws@[j] as nat by {
            lemma_col_width_bound(rows.deep_view(), 0, j);
            assert((rows@[0]).deep_view()[j] == rows.deep_view()[0][j]);
        }
    }
    lines.push(render_row(&rows[0], &ws));
    lines.push(sep.clone());
    proof {
        assert((lines@[0])@ == tl[0]);
        assert((lines@[1])@ == tl[1]);
        assert((lines@[2])@ == tl[2]);
    }
    for i in 0..count
        invariant
            n == vars@.len(),
            count == results@.len(),
            rows@.len() == count + 1,
            rows.deep_view() == tc,
            tc == table_cells(vars.deep_view(), results@),
            forall|r0: int| 0 <= r0 < rows@.len() ==> (#[trigger] rows@[r0])@.len() == n + 1,
            ws@.len() == n + 1,
            forall|j: int| 0 <= j < n + 1 ==> ws@[j] as nat == col_width(rows.deep_view(), j),
            sep@ == sep_line(nats_of(ws@)),
            nats_of(ws@) == widths_of(table_cells(vars.deep_view(), results@), (n + 1) as nat),
            tl == table_lines(vars.deep_view(), results@),
            lines@.len() == i + 3,
            forall|t: int| 0 <= t < i + 3 ==> (#[trigger] lines@[t])@ == tl[t],
    {
        proof {
            assert((rows@[i + 1]).deep_view() == tc[i + 1]);
            assert forall|j: int|
                0 <= j < rows@[i + 1]@.len() implies (rows@[i + 1]).deep_view()[j].len() <= ws@[j]
                as nat by {
                lemma_col_width_bound(rows.deep_view(), i + 1, j);
                assert((rows@[i + 1]).deep_view()[j] == rows.deep_view()[i + 1][j]);
            }
        }
        lines.push(render_row(&rows[i + 1], &ws));
        proof {
            assert((lines@[i + 3])@ == row_line(tc[i + 1], nats_of(ws@)));
            assert(tl[i + 3] == row_line(tc[i + 1], widths_of(tc, (n + 1) as nat)));
            assert((lines@[i + 3])@ == tl[i + 3]);
        }
    }
    lines.push(sep);
    proof {
        assert((lines@[count as int + 3])@ == tl[count as int + 3]);
        assert forall|t: int| 0 <= t < lines@.len() implies lines.deep_view()[t] == tl[t] by {
            assert(lines.deep_view()[t] == (lines@[t])@);
        }
        assert(lines.deep_view() =~= tl);
    }
    join_with_newlines(&lines)
}

/// The rendered text is a pure function of the discovered variables and the
/// evaluation results: two runs of the core on the same program, with the
/// evaluator answering alike, yield byte-identical table text.
pub proof fn lemma_table_text_deterministic(
    vars: Seq<Seq<char>>,
    results: Seq<bool>,
    out1: Seq<char>,
    out2: Seq<char>,
)
    requires
        out1 == table_text_spec(vars, results),
        out2 == table_text_spec(vars, results),
    ensures
        out1 == out2,
{
}

} // verus!
