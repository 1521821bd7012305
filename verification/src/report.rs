//! Tables of training figures and the reports that compare them.

use crate::text;
use crate::text::{chars_of, push_decimal, push_text, string_of};
use crate::train_plan::parse_u32;
use vstd::prelude::*;

verus! {

/// Texts one after the other with a separator between them.
pub open spec fn joined(parts: Seq<Seq<char>>, sep: Seq<char>) -> Seq<char>
    decreases parts.len(),
{
    if parts.len() == 0 {
        Seq::empty()
    } else if parts.len() == 1 {
        parts[0]
    } else {
        joined(parts.drop_last(), sep) + sep + parts.last()
    }
}

/// Views of a list of texts.
pub open spec fn texts(v: Seq<String>) -> Seq<Seq<char>> {
    v.map_values(|s: String| s@)
}

/// Joins texts with a separator.
pub fn join(parts: &Vec<String>, sep: &str) -> (r: Vec<char>)
    ensures
        r@ == joined(texts(parts@), sep@),
{
    let ghost p = texts(parts@);
    if parts.len() == 0 {
        return Vec::new();
    }
    let mut r: Vec<char> = chars_of(parts[0].as_str());
    let mut i: usize = 1;
    assert(p.take(1)[0] == p[0]);
    while i < parts.len()
        invariant
            1 <= i <= parts@.len(),
            p == texts(parts@),
            r@ == joined(p.take(i as int), sep@),
        decreases parts@.len() - i,
    {
        push_text(&mut r, sep);
        push_text(&mut r, parts[i].as_str());
        assert(p.take(i + 1).drop_last() =~= p.take(i as int));
        assert(p.take(i + 1).last() == p[i as int]);
        i += 1;
    }
    assert(p.take(i as int) =~= p);
    r
}

/// A row of a table: cells with commas between them.
pub fn csv_row(cells: &Vec<String>) -> (r: String)
    ensures
        r@ == joined(texts(cells@), ","@),
{
    let c = join(cells, ",");
    string_of(c.as_slice())
}

/// The text of a file: lines with line feeds between them and at the end.
pub open spec fn file_text(lines: Seq<Seq<char>>) -> Seq<char> {
    joined(lines, "\n"@) + "\n"@
}

/// The text of a file.
pub fn file_of(lines: &Vec<String>) -> (r: String)
    ensures
        r@ == file_text(texts(lines@)),
{
    let mut c = join(lines, "\n");
    push_text(&mut c, "\n");
    string_of(c.as_slice())
}

/// Splitting at the separator undoes joining, if no part holds the separator.
proof fn split_undoes_join(parts: Seq<Seq<char>>, c: char)
    requires
        parts.len() >= 1,
        forall|k: int, i: int|
            0 <= k < parts.len() && 0 <= i < parts[k].len() ==> #[trigger] parts[k][i] != c,
    ensures
        text::split(joined(parts, seq![c]), c) == parts,
    decreases parts.len(),
{
    if parts.len() == 1 {
        text::split_plain(parts[0], c);
        assert(parts =~= seq![parts[0]]);
    } else {
        let rest = parts.drop_last();
        assert forall|k: int, i: int|
            0 <= k < rest.len() && 0 <= i < rest[k].len() implies #[trigger] rest[k][i] != c by {
            assert(parts[k][i] != c);
        }
        split_undoes_join(rest, c);
        let a = joined(rest, seq![c]);
        let b = parts.last();
        assert forall|i: int| 0 <= i < b.len() implies b[i] != c by {
            assert(parts[parts.len() - 1][i] != c);
        }
        text::split_append(a, c, b);
        assert(a.push(c) + b =~= a + seq![c] + b);
        assert(rest.push(b) =~= parts);
    }
}

/// The cells of a row are found again, if none of them holds a comma.
pub proof fn cells_read_back(cells: Seq<Seq<char>>)
    requires
        cells.len() >= 1,
        forall|k: int, i: int|
            0 <= k < cells.len() && 0 <= i < cells[k].len() ==> #[trigger] cells[k][i] != ',',
    ensures
        text::split(joined(cells, ","@), ',') == cells,
{
    reveal_strlit(",");
    assert(","@ =~= seq![',']);
    split_undoes_join(cells, ',');
}

/// The lines of a file are found again, with nothing behind the last, if none of them holds a
/// line feed.
pub proof fn lines_read_back(lines: Seq<Seq<char>>)
    requires
        lines.len() >= 1,
        forall|k: int, i: int|
            0 <= k < lines.len() && 0 <= i < lines[k].len() ==> #[trigger] lines[k][i] != '\n',
    ensures
        text::split(file_text(lines), '\n') == lines.push(Seq::empty()),
{
    reveal_strlit("\n");
    assert("\n"@ =~= seq!['\n']);
    split_undoes_join(lines, '\n');
    let a = joined(lines, seq!['\n']);
    text::split_append(a, '\n', Seq::empty());
    assert(a.push('\n') + Seq::empty() =~= a + seq!['\n']);
}

/// Header of the table of a run of the evolution strategy.
pub fn es_header() -> (s: &'static str)
    ensures
        s@ == "epoch,train_top1,train_loglik,val_top1,best_val,epoch_time,cum_time"@,
{
    "epoch,train_top1,train_loglik,val_top1,best_val,epoch_time,cum_time"
}

/// Header of the table of a mixed run.
pub fn mixed_header() -> (s: &'static str)
    ensures
        s@ == "epoch,sgd_loss,es_loglik,val_top1,best_val,epoch_time,cum_time"@,
{
    "epoch,sgd_loss,es_loglik,val_top1,best_val,epoch_time,cum_time"
}

/// Header of the table of a run by gradients.
pub fn train_header() -> (s: &'static str)
    ensures
        s@ == "epoch,train_loss,val_top1"@,
{
    "epoch,train_loss,val_top1"
}

/// A row of training figures; the real numbers are kept as they are written.
pub struct CsvRow {
    pub epoch: u32,
    pub train_loss: String,
    pub val_top1: String,
}

/// What is wrong with a table of training figures.
#[derive(Clone, Copy, Debug, PartialEq, Eq, Structural)]
pub enum CsvError {
    /// A line with fewer than three cells.
    ShortLine,
    BadEpoch,
    /// No rows.
    Empty,
}

/// A row as a value.
pub struct RowModel {
    pub epoch: u32,
    pub train_loss: Seq<char>,
    pub val_top1: Seq<char>,
}

impl View for CsvRow {
    type V = RowModel;

    open spec fn view(&self) -> RowModel {
        RowModel {
            epoch: self.epoch,
            train_loss: self.train_loss@,
            val_top1: self.val_top1@,
        }
    }
}

/// What a trimmed line that is not empty stands for.
pub open spec fn row_of(line: Seq<char>) -> Result<RowModel, CsvError> {
    let cells = text::split(line, ',');
    if cells.len() < 3 {
        Err(CsvError::ShortLine)
    } else {
        match text::number_of(text::trimmed(cells[0]), u32::MAX as int) {
            Some(n) => Ok(
                RowModel {
                    epoch: n as u32,
                    train_loss: text::trimmed(cells[1]),
                    val_top1: text::trimmed(cells[2]),
                },
            ),
            None => Err(CsvError::BadEpoch),
        }
    }
}

/// The rows of the first `n` lines: the first line is a header, and empty lines count for
/// nothing.
pub open spec fn rows_of(lines: Seq<Seq<char>>, n: int) -> Result<Seq<RowModel>, CsvError>
    decreases n,
{
    if n <= 1 {
        Ok(Seq::empty())
    } else {
        match rows_of(lines, n - 1) {
            Err(e) => Err(e),
            Ok(rows) => if text::trimmed(lines[n - 1]).len() == 0 {
                Ok(rows)
            } else {
                match row_of(text::trimmed(lines[n - 1])) {
                    Ok(r) => Ok(rows.push(r)),
                    Err(e) => Err(e),
                }
            },
        }
    }
}

/// The rows of a table: an error for the first line that is wrong, or if there are no rows.
pub open spec fn table_of(s: Seq<char>) -> Result<Seq<RowModel>, CsvError> {
    let lines = text::split(s, '\n');
    match rows_of(lines, lines.len() as int) {
        Err(e) => Err(e),
        Ok(rows) => if rows.len() == 0 {
            Err(CsvError::Empty)
        } else {
            Ok(rows)
        },
    }
}

/// Views of rows.
pub open spec fn row_views(v: Seq<CsvRow>) -> Seq<RowModel> {
    v.map_values(|r: CsvRow| r@)
}

/// An error at one line is an error of the whole.
proof fn errors_stay(lines: Seq<Seq<char>>, n: int, m: int, e: CsvError)
    requires
        n <= m,
        rows_of(lines, n) == Err::<Seq<RowModel>, CsvError>(e),
    ensures
        rows_of(lines, m) == Err::<Seq<RowModel>, CsvError>(e),
    decreases m - n,
{
    if n < m {
        errors_stay(lines, n, m - 1, e);
    }
}

/// Reads one row.
fn read_row(line: &Vec<char>) -> (r: Result<CsvRow, CsvError>)
    ensures
        match (r, row_of(line@)) {
            (Ok(a), Ok(b)) => a@ == b,
            (Err(a), Err(b)) => a == b,
            _ => false,
        },
{
    let cells = text::split_at(line.as_slice(), ',');
    let ghost views = text::views(cells@);
    if cells.len() < 3 {
        return Err(CsvError::ShortLine);
    }
    assert(cells@[0]@ == views[0] && cells@[1]@ == views[1] && cells@[2]@ == views[2]);
    let c0 = text::trim(cells[0].as_slice());
    let epoch: u32 = match parse_u32(string_of(c0.as_slice()).as_str()) {
        Some(n) => n,
        None => {
            return Err(CsvError::BadEpoch);
        }
    };
    let c1 = text::trim(cells[1].as_slice());
    let c2 = text::trim(cells[2].as_slice());
    Ok(
        CsvRow {
            epoch,
            train_loss: string_of(c1.as_slice()),
            val_top1: string_of(c2.as_slice()),
        },
    )
}

/// Reads a table of training figures: a header and rows of an epoch, a loss and an accuracy.
pub fn parse_train_csv(s: &str) -> (r: Result<Vec<CsvRow>, CsvError>)
    ensures
        match (r, table_of(s@)) {
            (Ok(a), Ok(b)) => row_views(a@) == b,
            (Err(a), Err(b)) => a == b,
            _ => false,
        },
{
    let c = chars_of(s);
    let lines = text::split_at(c.as_slice(), '\n');
    let ghost views = text::views(lines@);
    let mut rows: Vec<CsvRow> = Vec::new();
    let mut i: usize = 1;
    assert(row_views(rows@) =~= Seq::<RowModel>::empty());
    while i < lines.len()
        invariant
            1 <= i <= lines@.len(),
            views == text::views(lines@),
            views == text::split(s@, '\n'),
            rows_of(views, i as int) == Ok::<Seq<RowModel>, CsvError>(row_views(rows@)),
        decreases lines@.len() - i,
    {
        assert(lines@[i as int]@ == views[i as int]);
        let t = text::trim(lines[i].as_slice());
        if t.len() > 0 {
            match read_row(&t) {
                Ok(row) => {
                    let ghost before = row_views(rows@);
                    rows.push(row);
                    assert(row_views(rows@) =~= before.push(row@));
                }
                Err(e) => {
                    proof {
                        assert(rows_of(views, i + 1) == Err::<Seq<RowModel>, CsvError>(e));
                        errors_stay(views, i + 1, views.len() as int, e);
                    }
                    return Err(e);
                }
            }
        }
        i += 1;
    }
    if rows.len() == 0 {
        return Err(CsvError::Empty);
    }
    Ok(rows)
}

/// The row of an epoch, as it is written to a table.
pub open spec fn written_row(r: RowModel) -> Seq<char> {
    joined(seq![text::decimal(r.epoch as nat), r.train_loss, r.val_top1], ","@)
}

/// A text that stands in a cell as it is: not empty, without commas and line feeds, and with no
/// white space at its ends.
pub open spec fn plain_cell(s: Seq<char>) -> bool {
    &&& s.len() > 0
    &&& forall|i: int| 0 <= i < s.len() ==> (#[trigger] s[i]) != ',' && s[i] != '\n'
    &&& !text::is_white(s[0])
    &&& !text::is_white(s.last())
}

/// A row of plain cells.
pub open spec fn plain_row(r: RowModel) -> bool {
    plain_cell(r.train_loss) && plain_cell(r.val_top1)
}

/// Digits stand in a cell as they are.
proof fn decimals_are_plain(n: nat)
    requires
        n <= u32::MAX,
    ensures
        plain_cell(text::decimal(n)),
        text::number_of(text::decimal(n), u32::MAX as int) == Some(n as int),
{
    text::decimal_reads_back(n, u32::MAX as int);
    let d = text::decimal(n);
    assert forall|i: int| 0 <= i < d.len() implies (#[trigger] d[i]) != ',' && d[i] != '\n' by {
        assert(text::is_digit(d[i]));
    }
    assert(text::is_digit(d[0]));
    assert(text::is_digit(d[d.len() - 1]));
}

/// Three cells with commas between them.
proof fn three_joined(a: Seq<char>, b: Seq<char>, c: Seq<char>)
    ensures
        joined(seq![a, b, c], ","@) == a + ","@ + b + ","@ + c,
{
    let one = seq![a];
    let two = seq![a, b];
    let three = seq![a, b, c];
    assert(three.drop_last() =~= two);
    assert(two.drop_last() =~= one);
    assert(joined(one, ","@) == a);
    assert(two.last() == b);
    assert(joined(two, ","@) == joined(one, ","@) + ","@ + b);
}

/// A row of plain cells is read as it was written, and holds no line feed.
proof fn row_reads_back(r: RowModel)
    requires
        plain_row(r),
    ensures
        written_row(r).len() > 0,
        forall|i: int| 0 <= i < written_row(r).len() ==> (#[trigger] written_row(r)[i]) != '\n',
        text::trimmed(written_row(r)) == written_row(r),
        row_of(written_row(r)) == Ok::<RowModel, CsvError>(r),
{
    let d = text::decimal(r.epoch as nat);
    decimals_are_plain(r.epoch as nat);
    let cells = seq![d, r.train_loss, r.val_top1];
    let w = written_row(r);
    reveal_strlit(",");
    assert(","@ =~= seq![',']);
    three_joined(d, r.train_loss, r.val_top1);
    assert(w == d + ","@ + r.train_loss + ","@ + r.val_top1);
    assert forall|i: int| 0 <= i < w.len() implies (#[trigger] w[i]) != '\n' by {
        if i < d.len() {
            assert(w[i] == d[i]);
        } else if i == d.len() {
            assert(w[i] == ',');
        } else if i < d.len() + 1 + r.train_loss.len() {
            assert(w[i] == r.train_loss[i - d.len() - 1]);
        } else if i == d.len() + 1 + r.train_loss.len() {
            assert(w[i] == ',');
        } else {
            assert(w[i] == r.val_top1[i - d.len() - 2 - r.train_loss.len()]);
        }
    }
    assert(w[0] == d[0]);
    assert(w.last() == r.val_top1.last());
    text::trimmed_inner(w);
    assert forall|k: int, i: int|
        0 <= k < cells.len() && 0 <= i < cells[k].len() implies #[trigger] cells[k][i] != ',' by {
        if k == 0 {
            assert(d[i] != ',');
        } else if k == 1 {
            assert(r.train_loss[i] != ',');
        } else {
            assert(r.val_top1[i] != ',');
        }
    }
    cells_read_back(cells);
    text::trimmed_inner(d);
    text::trimmed_inner(r.train_loss);
    text::trimmed_inner(r.val_top1);
}

/// Lines of a table: a header and the rows.
pub open spec fn table_lines(header: Seq<char>, rows: Seq<RowModel>) -> Seq<Seq<char>> {
    seq![header] + rows.map_values(|r: RowModel| written_row(r))
}

/// The rows of the first lines of a table that was written.
proof fn rows_read_back(header: Seq<char>, rows: Seq<RowModel>, lines: Seq<Seq<char>>, n: int)
    requires
        forall|k: int| 0 <= k < rows.len() ==> plain_row(#[trigger] rows[k]),
        lines == table_lines(header, rows).push(Seq::empty()),
        1 <= n <= rows.len() + 1,
    ensures
        rows_of(lines, n) == Ok::<Seq<RowModel>, CsvError>(rows.take(n - 1)),
    decreases n,
{
    if n == 1 {
        assert(rows.take(0) =~= Seq::empty());
    } else {
        rows_read_back(header, rows, lines, n - 1);
        let r = rows[n - 2];
        assert(plain_row(rows[n - 2]));
        row_reads_back(r);
        assert(lines[n - 1] == written_row(r));
        assert(rows.take(n - 1) =~= rows.take(n - 2).push(r));
    }
}

/// A table of training figures is read as it was written.
pub proof fn table_reads_back(header: Seq<char>, rows: Seq<RowModel>)
    requires
        rows.len() > 0,
        forall|i: int| 0 <= i < header.len() ==> (#[trigger] header[i]) != '\n',
        forall|k: int| 0 <= k < rows.len() ==> plain_row(#[trigger] rows[k]),
    ensures
        table_of(file_text(table_lines(header, rows))) == Ok::<Seq<RowModel>, CsvError>(rows),
{
    let lines = table_lines(header, rows);
    assert forall|k: int, i: int|
        0 <= k < lines.len() && 0 <= i < lines[k].len() implies #[trigger] lines[k][i] != '\n' by {
        if k > 0 {
            assert(plain_row(rows[k - 1]));
            row_reads_back(rows[k - 1]);
            assert(lines[k] == written_row(rows[k - 1]));
        } else {
            assert(lines[k] == header);
        }
    }
    lines_read_back(lines);
    let all = lines.push(Seq::empty());
    rows_read_back(header, rows, all, lines.len() as int);
    assert(rows.take(rows.len() as int) =~= rows);
    assert(all[all.len() - 1] == Seq::<char>::empty());
    assert(text::trimmed(Seq::<char>::empty()) == Seq::<char>::empty());
    assert(rows_of(all, all.len() as int) == Ok::<Seq<RowModel>, CsvError>(rows));
}

/// A row of a table of training figures.
pub fn train_row(r: &CsvRow) -> (s: String)
    ensures
        s@ == written_row(r@),
{
    let mut c: Vec<char> = Vec::new();
    push_decimal(&mut c, r.epoch as u64);
    let ghost d = text::decimal(r.epoch as nat);
    assert(c@ =~= d);
    push_text(&mut c, ",");
    push_text(&mut c, r.train_loss.as_str());
    push_text(&mut c, ",");
    push_text(&mut c, r.val_top1.as_str());
    proof {
        three_joined(d, r.train_loss@, r.val_top1@);
    }
    string_of(c.as_slice())
}

/// Words for a decision.
pub open spec fn verdict(ok: bool) -> Seq<char> {
    if ok {
        "PASS"@
    } else {
        "FAIL"@
    }
}

/// Appends the words for a decision.
fn push_verdict(s: &mut Vec<char>, ok: bool)
    ensures
        final(s)@ == old(s)@ + verdict(ok),
{
    if ok {
        push_text(s, "PASS");
    } else {
        push_text(s, "FAIL");
    }
}

/// Figures of two training runs, written out, and the decisions on them.
pub struct Comparison {
    pub burn_csv: String,
    pub pytorch_csv: String,
    pub top1_tol: String,
    pub loss_tol: String,
    /// Loss and accuracy of each epoch.
    pub burn: Vec<(String, String)>,
    pub pytorch: Vec<(String, String)>,
    pub burn_epoch: u32,
    pub pytorch_epoch: u32,
    pub burn_top1: String,
    pub pytorch_top1: String,
    pub top1_diff: String,
    pub top1_rel: String,
    pub top1_limit: String,
    pub burn_loss: String,
    pub pytorch_loss: String,
    pub loss_diff: String,
    pub loss_limit: String,
    pub top1_ok: bool,
    pub loss_ok: bool,
}

/// A cell of the table of epochs: a dash where a run has fewer epochs.
pub open spec fn epoch_cell(v: Seq<(String, String)>, i: int) -> Seq<char> {
    if i < v.len() {
        v[i].0@ + " / "@ + v[i].1@
    } else {
        "-"@
    }
}

/// A line of the table of epochs.
pub open spec fn epoch_line(c: Comparison, i: int) -> Seq<char> {
    text::decimal((i + 1) as nat) + " | "@ + epoch_cell(c.burn@, i) + " | "@ + epoch_cell(
        c.pytorch@,
        i,
    )
}

/// The number of lines of the table of epochs: that of the longer run.
pub open spec fn epoch_count(c: Comparison) -> nat {
    if c.burn@.len() >= c.pytorch@.len() {
        c.burn@.len()
    } else {
        c.pytorch@.len()
    }
}

/// The lines before the table of epochs.
pub open spec fn compare_head(c: Comparison) -> Seq<Seq<char>> {
    seq![
        "== 训练结果对照报告 =="@,
        "burn_csv: "@ + c.burn_csv@,
        "pytorch_csv: "@ + c.pytorch_csv@,
        "判定口径：val_top1 相对偏差 ≤"@ + c.top1_tol@ + "%（分母=pytorch）；train_loss 绝对差 ≤"@
            + c.loss_tol@,
        Seq::empty(),
        "-- 逐 epoch 指标 --"@,
        "epoch | burn: train_loss / val_top1% | pytorch: train_loss / val_top1%"@,
    ]
}

/// The lines behind the table of epochs.
pub open spec fn compare_tail(c: Comparison) -> Seq<Seq<char>> {
    seq![
        Seq::empty(),
        "-- 最终判定（burn epoch="@ + text::decimal(c.burn_epoch as nat) + " vs pytorch epoch="@
            + text::decimal(c.pytorch_epoch as nat) + "） --"@,
        "val_top1: burn="@ + c.burn_top1@ + "% pytorch="@ + c.pytorch_top1@ + "% 绝对差="@
            + c.top1_diff@ + "pp 相对差="@ + c.top1_rel@ + "% 允许=≤"@ + c.top1_limit@ + "% 判定="@
            + verdict(c.top1_ok),
        "train_loss: burn="@ + c.burn_loss@ + " pytorch="@ + c.pytorch_loss@ + " 绝对差="@
            + c.loss_diff@ + " 允许=≤"@ + c.loss_limit@ + " 判定="@ + verdict(c.loss_ok),
        "最终判定: "@ + verdict(c.top1_ok && c.loss_ok),
    ]
}

/// The report on two training runs.
pub open spec fn compare_lines(c: Comparison) -> Seq<Seq<char>> {
    compare_head(c) + Seq::new(epoch_count(c), |i: int| epoch_line(c, i)) + compare_tail(c)
}

/// Appends a text to the lines.
fn push_line(lines: &mut Vec<String>, s: &Vec<char>)
    ensures
        texts(final(lines)@) == texts(old(lines)@).push(s@),
{
    let line = string_of(s.as_slice());
    lines.push(line);
    assert(texts(lines@) =~= texts(old(lines)@).push(s@));
}

/// Appends a cell of the table of epochs.
fn push_cell(s: &mut Vec<char>, v: &Vec<(String, String)>, i: usize)
    ensures
        final(s)@ == old(s)@ + epoch_cell(v@, i as int),
{
    let ghost before = s@;
    if i < v.len() {
        push_text(s, v[i].0.as_str());
        push_text(s, " / ");
        push_text(s, v[i].1.as_str());
        assert(s@ =~= before + epoch_cell(v@, i as int));
    } else {
        push_text(s, "-");
    }
}

/// The lines before the table of epochs.
fn compare_head_lines(c: &Comparison) -> (r: Vec<String>)
    ensures
        texts(r@) == compare_head(*c),
{
    let mut r: Vec<String> = Vec::new();
    push_line(&mut r, &chars_of("== 训练结果对照报告 =="));
    let mut s = chars_of("burn_csv: ");
    push_text(&mut s, c.burn_csv.as_str());
    push_line(&mut r, &s);
    let mut s = chars_of("pytorch_csv: ");
    push_text(&mut s, c.pytorch_csv.as_str());
    push_line(&mut r, &s);
    let mut s = chars_of("判定口径：val_top1 相对偏差 ≤");
    push_text(&mut s, c.top1_tol.as_str());
    push_text(&mut s, "%（分母=pytorch）；train_loss 绝对差 ≤");
    push_text(&mut s, c.loss_tol.as_str());
    push_line(&mut r, &s);
    let none: Vec<char> = Vec::new();
    push_line(&mut r, &none);
    push_line(&mut r, &chars_of("-- 逐 epoch 指标 --"));
    push_line(
        &mut r,
        &chars_of("epoch | burn: train_loss / val_top1% | pytorch: train_loss / val_top1%"),
    );
    assert(none@ =~= Seq::empty());
    assert(texts(r@) =~= compare_head(*c));
    r
}

/// Appends the lines behind the table of epochs.
fn push_compare_tail(r: &mut Vec<String>, c: &Comparison)
    ensures
        texts(final(r)@) == texts(old(r)@) + compare_tail(*c),
{
    let ghost before = texts(r@);
    let none: Vec<char> = Vec::new();
    push_line(r, &none);
    let mut s = chars_of("-- 最终判定（burn epoch=");
    push_decimal(&mut s, c.burn_epoch as u64);
    push_text(&mut s, " vs pytorch epoch=");
    push_decimal(&mut s, c.pytorch_epoch as u64);
    push_text(&mut s, "） --");
    push_line(r, &s);
    let mut s = chars_of("val_top1: burn=");
    push_text(&mut s, c.burn_top1.as_str());
    push_text(&mut s, "% pytorch=");
    push_text(&mut s, c.pytorch_top1.as_str());
    push_text(&mut s, "% 绝对差=");
    push_text(&mut s, c.top1_diff.as_str());
    push_text(&mut s, "pp 相对差=");
    push_text(&mut s, c.top1_rel.as_str());
    push_text(&mut s, "% 允许=≤");
    push_text(&mut s, c.top1_limit.as_str());
    push_text(&mut s, "% 判定=");
    push_verdict(&mut s, c.top1_ok);
    push_line(r, &s);
    let mut s = chars_of("train_loss: burn=");
    push_text(&mut s, c.burn_loss.as_str());
    push_text(&mut s, " pytorch=");
    push_text(&mut s, c.pytorch_loss.as_str());
    push_text(&mut s, " 绝对差=");
    push_text(&mut s, c.loss_diff.as_str());
    push_text(&mut s, " 允许=≤");
    push_text(&mut s, c.loss_limit.as_str());
    push_text(&mut s, " 判定=");
    push_verdict(&mut s, c.loss_ok);
    push_line(r, &s);
    let mut s = chars_of("最终判定: ");
    push_verdict(&mut s, c.top1_ok && c.loss_ok);
    push_line(r, &s);
    assert(none@ =~= Seq::empty());
    assert(texts(r@) =~= before + compare_tail(*c));
}

/// The report on two training runs.
pub fn compare_report(c: &Comparison) -> (r: Vec<String>)
    ensures
        texts(r@) == compare_lines(*c),
{
    let mut r = compare_head_lines(c);
    let n: usize = if c.burn.len() >= c.pytorch.len() {
        c.burn.len()
    } else {
        c.pytorch.len()
    };
    let mut i: usize = 0;
    let ghost head = compare_head(*c);
    assert(texts(r@) =~= head + Seq::new(0, |i: int| epoch_line(*c, i)));
    while i < n
        invariant
            i <= n,
            n == epoch_count(*c),
            head == compare_head(*c),
            texts(r@) == head + Seq::new(i as nat, |k: int| epoch_line(*c, k)),
        decreases n - i,
    {
        let mut s: Vec<char> = Vec::new();
        push_decimal(&mut s, i as u64 + 1);
        assert(s@ =~= text::decimal((i + 1) as nat));
        push_text(&mut s, " | ");
        push_cell(&mut s, &c.burn, i);
        push_text(&mut s, " | ");
        push_cell(&mut s, &c.pytorch, i);
        let ghost before = texts(r@);
        push_line(&mut r, &s);
        assert(before.push(s@) =~= head + Seq::new((i + 1) as nat, |k: int| epoch_line(*c, k)));
        i += 1;
    }
    push_compare_tail(&mut r, c);
    r
}

/// Whether two runs agree: both the accuracy and the loss do.
pub open spec fn runs_agree(c: Comparison) -> bool {
    c.top1_ok && c.loss_ok
}

/// Whether two runs agree.
pub fn agree(c: &Comparison) -> (r: bool)
    ensures
        r == runs_agree(*c),
{
    c.top1_ok && c.loss_ok
}

/// Which rule lets a forward pass count as agreeing.
#[derive(Clone, Copy, Debug, PartialEq, Eq, Structural)]
pub enum Rule {
    /// Errors are small everywhere.
    Regular,
    /// Errors are small on the whole and hardly any element differs.
    FewElements,
    /// Neither.
    Fail,
}

/// The rule by which a forward pass agrees, by whether the relative error is small, the greatest
/// error is small and hardly any element differs.
pub open spec fn rule_of(small_rel: bool, small_abs: bool, few_differ: bool) -> Rule {
    if small_rel && small_abs {
        Rule::Regular
    } else if small_rel && few_differ {
        Rule::FewElements
    } else {
        Rule::Fail
    }
}

/// Decides whether a forward pass agrees, by whether the relative error is small, the greatest
/// error is small and hardly any element differs.
pub fn judge(small_rel: bool, small_abs: bool, few_differ: bool) -> (r: Rule)
    ensures
        r == rule_of(small_rel, small_abs, few_differ),
{
    if small_rel && small_abs {
        Rule::Regular
    } else if small_rel && few_differ {
        Rule::FewElements
    } else {
        Rule::Fail
    }
}

/// Words for a rule.
pub open spec fn rule_text(r: Rule) -> Seq<char> {
    match r {
        Rule::Regular => "常规(rel_l2<0.05 且 max_abs<0.05)"@,
        Rule::FewElements => "边界补偿(mismatch_ratio<1e-3 且 rel_l2<0.05)"@,
        Rule::Fail => "FAIL"@,
    }
}

/// Appends the words for a rule.
fn push_rule(s: &mut Vec<char>, r: Rule)
    ensures
        final(s)@ == old(s)@ + rule_text(r),
{
    match r {
        Rule::Regular => {
            push_text(s, "常规(rel_l2<0.05 且 max_abs<0.05)");
        }
        Rule::FewElements => {
            push_text(s, "边界补偿(mismatch_ratio<1e-3 且 rel_l2<0.05)");
        }
        Rule::Fail => {
            push_text(s, "FAIL");
        }
    }
}

/// Figures of a forward pass, written out, and the decision on it.
pub struct ForwardFigures {
    pub npz: String,
    pub shape: String,
    pub max_abs: String,
    pub mean_abs: String,
    pub rel_l2: String,
    pub mismatch_ratio: String,
    pub rule: Rule,
}

/// The report on a forward pass.
pub open spec fn forward_lines(f: ForwardFigures) -> Seq<Seq<char>> {
    let ok = !(f.rule is Fail);
    seq![
        "== Burn 前向对照报告 =="@,
        "NPZ: "@ + f.npz@,
        Seq::empty(),
        "-- 整体判定 --"@,
        "logits: shape="@ + f.shape@ + " max_abs="@ + f.max_abs@ + " mean_abs="@ + f.mean_abs@
            + " rel_l2="@ + f.rel_l2@ + " mismatch_ratio="@ + f.mismatch_ratio@ + " 判定="@
            + verdict(ok) + "（"@ + rule_text(f.rule) + "）"@,
        "最终判定: "@ + verdict(ok) + "（整体 logits "@ + verdict(ok) + "）"@,
        Seq::empty(),
        "判定说明: 常规判定 rel_l2<0.05 且 max_abs<0.05；"@,
        "若个别层因 LIF 阈值边界（h 恰在阈值附近导致 step 翻转）出现少量元素差异，"@,
        "改用不匹配元素占比 mismatch_ratio（|diff|>1e-4 计）< 1e-3 且 rel_l2<0.05 判 PASS。"@,
    ]
}

/// The report on a forward pass.
pub fn forward_report(f: &ForwardFigures) -> (r: Vec<String>)
    ensures
        texts(r@) == forward_lines(*f),
{
    let ok = match f.rule {
        Rule::Fail => false,
        _ => true,
    };
    let none: Vec<char> = Vec::new();
    let mut r: Vec<String> = Vec::new();
    push_line(&mut r, &chars_of("== Burn 前向对照报告 =="));
    let mut s = chars_of("NPZ: ");
    push_text(&mut s, f.npz.as_str());
    push_line(&mut r, &s);
    push_line(&mut r, &none);
    push_line(&mut r, &chars_of("-- 整体判定 --"));
    let mut s = chars_of("logits: shape=");
    push_text(&mut s, f.shape.as_str());
    push_text(&mut s, " max_abs=");
    push_text(&mut s, f.max_abs.as_str());
    push_text(&mut s, " mean_abs=");
    push_text(&mut s, f.mean_abs.as_str());
    push_text(&mut s, " rel_l2=");
    push_text(&mut s, f.rel_l2.as_str());
    push_text(&mut s, " mismatch_ratio=");
    push_text(&mut s, f.mismatch_ratio.as_str());
    push_text(&mut s, " 判定=");
    push_verdict(&mut s, ok);
    push_text(&mut s, "（");
    push_rule(&mut s, f.rule);
    push_text(&mut s, "）");
    push_line(&mut r, &s);
    let mut s = chars_of("最终判定: ");
    push_verdict(&mut s, ok);
    push_text(&mut s, "（整体 logits ");
    push_verdict(&mut s, ok);
    push_text(&mut s, "）");
    push_line(&mut r, &s);
    push_line(&mut r, &none);
    push_line(&mut r, &chars_of("判定说明: 常规判定 rel_l2<0.05 且 max_abs<0.05；"));
    push_line(
        &mut r,
        &chars_of("若个别层因 LIF 阈值边界（h 恰在阈值附近导致 step 翻转）出现少量元素差异，"),
    );
    push_line(
        &mut r,
        &chars_of("改用不匹配元素占比 mismatch_ratio（|diff|>1e-4 计）< 1e-3 且 rel_l2<0.05 判 PASS。"),
    );
    assert(none@ =~= Seq::empty());
    assert(texts(r@) =~= forward_lines(*f));
    r
}

/// Whether a line ends in the word for success.
proof fn verdict_ends(a: Seq<char>, ok: bool)
    ensures
        ({
            let l = a + verdict(ok);
            l.len() >= 4 && (l.skip(l.len() - 4) == "PASS"@) == ok
        }),
{
    reveal_strlit("PASS");
    reveal_strlit("FAIL");
    let l = a + verdict(ok);
    assert(verdict(ok).len() == 4);
    assert(l.skip(l.len() - 4) =~= verdict(ok));
    assert("PASS"@[0] == 'P' && "FAIL"@[0] == 'F');
}

/// Two runs agree if and only if no single decision fails, and the report says so: its last line
/// ends in `PASS` exactly if both decision lines before it do, of which the first is on the
/// accuracy and the second on the loss.
pub proof fn runs_agree_if_no_decision_fails(c: Comparison)
    ensures
        runs_agree(c) ==> c.top1_ok && c.loss_ok,
        c.top1_ok && c.loss_ok ==> runs_agree(c),
        ({
            let lines = compare_lines(c);
            let n = lines.len() as int;
            let passes = |k: int|
                lines[k].len() >= 4 && lines[k].skip(lines[k].len() - 4) == "PASS"@;
            &&& n >= 3
            &&& passes(n - 3) == c.top1_ok
            &&& passes(n - 2) == c.loss_ok
            &&& passes(n - 1) == (passes(n - 3) && passes(n - 2))
            &&& passes(n - 1) == runs_agree(c)
        }),
{
    let lines = compare_lines(c);
    let tail = compare_tail(c);
    let n = lines.len() as int;
    assert(lines[n - 3] == tail[2] && lines[n - 2] == tail[3] && lines[n - 1] == tail[4]);
    verdict_ends(
        "val_top1: burn="@ + c.burn_top1@ + "% pytorch="@ + c.pytorch_top1@ + "% 绝对差="@
            + c.top1_diff@ + "pp 相对差="@ + c.top1_rel@ + "% 允许=≤"@ + c.top1_limit@ + "% 判定="@,
        c.top1_ok,
    );
    verdict_ends(
        "train_loss: burn="@ + c.burn_loss@ + " pytorch="@ + c.pytorch_loss@ + " 绝对差="@
            + c.loss_diff@ + " 允许=≤"@ + c.loss_limit@ + " 判定="@,
        c.loss_ok,
    );
    verdict_ends("最终判定: "@, c.top1_ok && c.loss_ok);
}

/// A forward pass fails exactly if the relative error is not small, or neither is the greatest
/// error nor the share of elements that differ. It is the regular rule that decides wherever it
/// holds.
pub proof fn rules_need_small_errors(small_rel: bool, small_abs: bool, few_differ: bool)
    ensures
        rule_of(small_rel, small_abs, few_differ) is Fail <==> !small_rel || !small_abs
            && !few_differ,
        rule_of(small_rel, small_abs, few_differ) is Regular <==> small_rel && small_abs,
        rule_of(small_rel, small_abs, few_differ) is FewElements ==> few_differ,
{
}

/// The report on a forward pass says `PASS` exactly if a rule holds: in the line of the figures
/// and twice in the last decision.
pub proof fn forward_report_passes_by_the_rule(f: ForwardFigures)
    ensures
        ({
            let ok = if f.rule is Fail {
                "FAIL"@
            } else {
                "PASS"@
            };
            let lines = forward_lines(f);
            &&& lines[5] == "最终判定: "@ + ok + "（整体 logits "@ + ok + "）"@
            &&& exists|front: Seq<char>|
                lines[4] == #[trigger] (front + " 判定="@) + ok + "（"@ + (match f.rule {
                    Rule::Regular => "常规(rel_l2<0.05 且 max_abs<0.05)"@,
                    Rule::FewElements => "边界补偿(mismatch_ratio<1e-3 且 rel_l2<0.05)"@,
                    Rule::Fail => "FAIL"@,
                }) + "）"@
        }),
{
    let front = "logits: shape="@ + f.shape@ + " max_abs="@ + f.max_abs@ + " mean_abs="@
        + f.mean_abs@ + " rel_l2="@ + f.rel_l2@ + " mismatch_ratio="@ + f.mismatch_ratio@;
    let lines = forward_lines(f);
    assert(lines[4] == (front + " 判定="@) + verdict(!(f.rule is Fail)) + "（"@ + rule_text(f.rule)
        + "）"@);
}

/// The table of epochs in the report on two runs has a line for each epoch of the longer run,
/// numbered from 1, with loss and accuracy of the first run before those of the second, and a dash
/// where a run has no such epoch.
pub proof fn epochs_are_listed(c: Comparison, i: int)
    requires
        0 <= i < c.burn@.len() || 0 <= i < c.pytorch@.len(),
    ensures
        ({
            let lines = compare_lines(c);
            let n = if c.burn@.len() < c.pytorch@.len() {
                c.pytorch@.len()
            } else {
                c.burn@.len()
            };
            let first = if i < c.burn@.len() {
                c.burn@[i].0@ + " / "@ + c.burn@[i].1@
            } else {
                "-"@
            };
            let second = if i < c.pytorch@.len() {
                c.pytorch@[i].0@ + " / "@ + c.pytorch@[i].1@
            } else {
                "-"@
            };
            &&& lines.len() == 7 + n + 5
            &&& lines[7 + i] == text::decimal((i + 1) as nat) + " | "@ + first + " | "@ + second
        }),
{
    let lines = compare_lines(c);
    assert(lines[7 + i] == epoch_line(c, i));
}

/// The head of the report names the two files and the limits, each in its own line.
pub proof fn reports_name_their_files(c: Comparison)
    ensures
        compare_lines(c)[1] == "burn_csv: "@ + c.burn_csv@,
        compare_lines(c)[2] == "pytorch_csv: "@ + c.pytorch_csv@,
        compare_lines(c)[3] == "判定口径：val_top1 相对偏差 ≤"@ + c.top1_tol@
            + "%（分母=pytorch）；train_loss 绝对差 ≤"@ + c.loss_tol@,
        ({
            let n = compare_lines(c).len() as int;
            &&& compare_lines(c)[n - 4] == "-- 最终判定（burn epoch="@ + text::decimal(
                c.burn_epoch as nat,
            ) + " vs pytorch epoch="@ + text::decimal(c.pytorch_epoch as nat) + "） --"@
            &&& compare_lines(c)[n - 3] == "val_top1: burn="@ + c.burn_top1@ + "% pytorch="@
                + c.pytorch_top1@ + "% 绝对差="@ + c.top1_diff@ + "pp 相对差="@ + c.top1_rel@
                + "% 允许=≤"@ + c.top1_limit@ + "% 判定="@ + (if c.top1_ok {
                "PASS"@
            } else {
                "FAIL"@
            })
            &&& compare_lines(c)[n - 2] == "train_loss: burn="@ + c.burn_loss@ + " pytorch="@
                + c.pytorch_loss@ + " 绝对差="@ + c.loss_diff@ + " 允许=≤"@ + c.loss_limit@
                + " 判定="@ + (if c.loss_ok {
                "PASS"@
            } else {
                "FAIL"@
            })
        }),
{
    let lines = compare_lines(c);
    let head = compare_head(c);
    let tail = compare_tail(c);
    let n = lines.len() as int;
    assert(lines[1] == head[1] && lines[2] == head[2] && lines[3] == head[3]);
    assert(lines[n - 4] == tail[1] && lines[n - 3] == tail[2] && lines[n - 2] == tail[3]);
}

/// What a line of a table is read as: three cells at least, the first a number for the epoch, the
/// second the loss and the third the accuracy, each without white space around it.
pub proof fn rows_in_full(line: Seq<char>)
    ensures
        ({
            let cells = text::split(line, ',');
            let n = text::number_of(text::trimmed(cells[0]), 0xFFFF_FFFF);
            &&& row_of(line) == Err::<RowModel, CsvError>(CsvError::ShortLine) <==> cells.len() < 3
            &&& row_of(line) == Err::<RowModel, CsvError>(CsvError::BadEpoch) <==> cells.len() >= 3
                && n is None
            &&& row_of(line) is Ok ==> {
                let r = row_of(line)->Ok_0;
                &&& Some(r.epoch as int) == n
                &&& r.train_loss == text::trimmed(cells[1])
                &&& r.val_top1 == text::trimmed(cells[2])
            }
        }),
{
    let cells = text::split(line, ',');
    if cells.len() >= 3 {
        let d = text::without_plus(text::trimmed(cells[0]));
        if text::all_digits(d) {
            digits_are_positive(d);
        }
    }
}

proof fn digits_are_positive(d: Seq<char>)
    requires
        text::all_digits(d),
    ensures
        text::digits_value(d) >= 0,
    decreases d.len(),
{
    if d.len() > 0 {
        assert(text::is_digit(d[d.len() - 1]));
        assert forall|i: int| 0 <= i < d.drop_last().len() implies text::is_digit(
            #[trigger] d.drop_last()[i],
        ) by {
            assert(text::is_digit(d[i]));
        }
        digits_are_positive(d.drop_last());
    }
}

} // verus!
