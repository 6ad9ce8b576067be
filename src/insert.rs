use vstd::prelude::*;

use crate::convert::{column_len, literal, push_char, to_sql_value, Column, ConvertError, Failure};

verus! {

/// Statements that save the session's character set, time zone and SQL mode and
/// set them for loading; written once before the first statement.
pub const MYSQLDUMP_HEADER: &'static str = "/*!40101 SET @OLD_CHARACTER_SET_CLIENT=@@CHARACTER_SET_CLIENT */;
/*!40101 SET @OLD_CHARACTER_SET_RESULTS=@@CHARACTER_SET_RESULTS */;
/*!40101 SET @OLD_COLLATION_CONNECTION=@@COLLATION_CONNECTION */;
/*!50503 SET NAMES utf8mb4 */;
/*!40103 SET @OLD_TIME_ZONE=@@TIME_ZONE */;
/*!40103 SET TIME_ZONE='+00:00' */;
/*!40101 SET @OLD_SQL_MODE=@@SQL_MODE, SQL_MODE='NO_AUTO_VALUE_ON_ZERO' */;";

/// Statements that restore what the header saved; written once after the last statement.
pub const MYSQLDUMP_FOOTER: &'static str = "/*!40103 SET TIME_ZONE=@OLD_TIME_ZONE */;
/*!40101 SET SQL_MODE=@OLD_SQL_MODE */;
/*!40101 SET CHARACTER_SET_CLIENT=@OLD_CHARACTER_SET_CLIENT */;
/*!40101 SET CHARACTER_SET_RESULTS=@OLD_CHARACTER_SET_RESULTS */;
/*!40101 SET COLLATION_CONNECTION=@OLD_COLLATION_CONNECTION */;";

/// Columns of equal length that together hold `num_rows` rows.
pub struct RowBlock {
    pub columns: Vec<Column>,
    pub num_rows: usize,
}

impl RowBlock {
    /// Every column has one value per row.
    pub open spec fn wf(&self) -> bool {
        forall|j: int| 0 <= j < self.columns@.len() ==> column_len(&#[trigger] self.columns@[j]) == self.num_rows
    }

    /// A block of the given columns, or `None` where one of them has a length
    /// other than `num_rows`.
    pub fn new(columns: Vec<Column>, num_rows: usize) -> (r: Option<RowBlock>)
        ensures
            r is Some <==> (forall|j: int|
                0 <= j < columns@.len() ==> column_len(&#[trigger] columns@[j]) == num_rows),
            r matches Some(b) ==> b.columns == columns && b.num_rows == num_rows && b.wf(),
    {
        let mut j: usize = 0;
        while j < columns.len()
            invariant
                j <= columns@.len(),
                forall|k: int| 0 <= k < j ==> column_len(&#[trigger] columns@[k]) == num_rows,
            decreases columns@.len() - j,
        {
            if columns[j].len() != num_rows {
                return None;
            }
            j = j + 1;
        }
        Some(RowBlock { columns, num_rows })
    }
}

/// The parts joined with `sep` between them.
pub open spec fn join(parts: Seq<Seq<char>>, sep: char) -> Seq<char>
    decreases parts.len(),
{
    if parts.len() == 0 {
        seq![]
    } else if parts.len() == 1 {
        parts[0]
    } else {
        join(parts.drop_last(), sep) + seq![sep] + parts.last()
    }
}

/// `(` + text + `)`.
pub open spec fn parens(t: Seq<char>) -> Seq<char> {
    seq!['('] + t + seq![')']
}

/// `` `name` ``.
pub open spec fn backticked(t: Seq<char>) -> Seq<char> {
    seq!['`'] + t + seq!['`']
}

/// The literals of the first `k` columns at row `r`, or the first failure among them.
pub open spec fn row_cells(cols: Seq<Column>, r: int, k: nat) -> Result<Seq<Seq<char>>, Failure>
    decreases k,
{
    if k == 0 {
        Ok(seq![])
    } else {
        match row_cells(cols, r, (k - 1) as nat) {
            Err(e) => Err(e),
            Ok(p) => match literal(&cols[k - 1], r) {
                Err(e) => Err(e),
                Ok(t) => Ok(p.push(t)),
            },
        }
    }
}

/// The tuple `(v0,v1,...)` of row `r`.
pub open spec fn row_tuple(cols: Seq<Column>, r: int) -> Result<Seq<char>, Failure> {
    match row_cells(cols, r, cols.len()) {
        Err(e) => Err(e),
        Ok(p) => Ok(parens(join(p, ','))),
    }
}

/// The tuples of the first `n` rows, in row order, or the first failure among them.
pub open spec fn tuples(cols: Seq<Column>, n: nat) -> Result<Seq<Seq<char>>, Failure>
    decreases n,
{
    if n == 0 {
        Ok(seq![])
    } else {
        match tuples(cols, (n - 1) as nat) {
            Err(e) => Err(e),
            Ok(p) => match row_tuple(cols, n - 1) {
                Err(e) => Err(e),
                Ok(t) => Ok(p.push(t)),
            },
        }
    }
}

pub open spec fn insert_into() -> Seq<char> {
    seq!['I', 'N', 'S', 'E', 'R', 'T', ' ', 'I', 'N', 'T', 'O', ' ']
}

pub open spec fn values_kw() -> Seq<char> {
    seq!['V', 'A', 'L', 'U', 'E', 'S', ' ']
}

/// ``INSERT INTO `table` (names) VALUES values;``, without `(names) ` where there are none.
pub open spec fn statement(table: Seq<char>, names: Option<Seq<char>>, values: Seq<char>) -> Seq<char> {
    let head = insert_into() + backticked(table) + seq![' '];
    let cols = match names {
        Some(n) => parens(n) + seq![' '],
        None => seq![],
    };
    head + cols + values_kw() + values + seq![';']
}

pub open spec fn min(a: int, b: int) -> int {
    if a < b { a } else { b }
}

/// One statement per run of at most `batch` consecutive tuples, in order.
pub open spec fn batches(
    ts: Seq<Seq<char>>,
    batch: nat,
    table: Seq<char>,
    names: Option<Seq<char>>,
) -> Seq<Seq<char>>
    decreases ts.len(),
{
    if ts.len() == 0 || batch == 0 {
        seq![]
    } else {
        let c = min(batch as int, ts.len() as int);
        seq![statement(table, names, join(ts.take(c), ','))] + batches(ts.skip(c), batch, table, names)
    }
}

/// The statements for a block, or the first failure in row-major order.
pub open spec fn statements(
    cols: Seq<Column>,
    n: nat,
    batch: nat,
    table: Seq<char>,
    names: Option<Seq<char>>,
) -> Result<Seq<Seq<char>>, Failure> {
    if batch == 0 {
        Err(Failure::InvalidBatchSize)
    } else {
        match tuples(cols, n) {
            Err(e) => Err(e),
            Ok(ts) => Ok(batches(ts, batch, table, names)),
        }
    }
}

pub open spec fn strings_view(v: Seq<String>) -> Seq<Seq<char>> {
    v.map_values(|s: String| s@)
}

proof fn lemma_row_cells_err(cols: Seq<Column>, r: int, k: nat, m: nat)
    requires
        k <= m <= cols.len(),
        row_cells(cols, r, k) is Err,
    ensures
        row_cells(cols, r, m) == row_cells(cols, r, k),
    decreases m - k,
{
    if k < m {
        lemma_row_cells_err(cols, r, (k + 1) as nat, m);
    }
}

proof fn lemma_tuples_err(cols: Seq<Column>, k: nat, m: nat)
    requires
        k <= m,
        tuples(cols, k) is Err,
    ensures
        tuples(cols, m) == tuples(cols, k),
    decreases m - k,
{
    if k < m {
        lemma_tuples_err(cols, (k + 1) as nat, m);
    }
}

proof fn lemma_join_push(parts: Seq<Seq<char>>, t: Seq<char>, sep: char)
    ensures
        join(parts.push(t), sep) == if parts.len() == 0 {
            t
        } else {
            join(parts, sep) + seq![sep] + t
        },
{
    assert(parts.push(t).drop_last() =~= parts);
}

fn append_str(out: &mut String, t: &String)
    ensures
        final(out)@ == old(out)@ + t@,
{
    out.append(t.as_str());
}

/// Joins the strings with `sep` between them.
fn join_strings(parts: &Vec<String>, sep: char) -> (r: String)
    ensures
        r@ == join(strings_view(parts@), sep),
{
    let mut out = String::new();
    let mut i: usize = 0;
    while i < parts.len()
        invariant
            i <= parts@.len(),
            out@ == join(strings_view(parts@.take(i as int)), sep),
        decreases parts@.len() - i,
    {
        proof {
            let pre = strings_view(parts@.take(i as int));
            lemma_join_push(pre, parts@[i as int]@, sep);
            assert(strings_view(parts@.take(i + 1)) =~= pre.push(parts@[i as int]@));
        }
        if i > 0 {
            push_char(&mut out, sep);
        }
        append_str(&mut out, &parts[i]);
        i = i + 1;
    }
    assert(parts@.take(i as int) =~= parts@);
    out
}

fn push_str(out: &mut String, lit: &str)
    ensures
        final(out)@ == old(out)@ + lit@,
{
    out.append(lit);
}

/// The backtick-quoted names joined with `,`, for the column list of a statement.
pub fn column_names(names: &Vec<String>) -> (r: String)
    ensures
        r@ == join(strings_view(names@).map_values(|n: Seq<char>| backticked(n)), ','),
{
    let mut quoted: Vec<String> = Vec::new();
    let mut i: usize = 0;
    while i < names.len()
        invariant
            i <= names@.len(),
            strings_view(quoted@) =~= strings_view(names@.take(i as int)).map_values(
                |n: Seq<char>| backticked(n),
            ),
        decreases names@.len() - i,
    {
        let mut q = String::new();
        push_char(&mut q, '`');
        append_str(&mut q, &names[i]);
        push_char(&mut q, '`');
        assert(q@ =~= backticked(names@[i as int]@));
        let ghost before = quoted@;
        quoted.push(q);
        assert(strings_view(quoted@) =~= strings_view(before).push(q@));
        assert(strings_view(names@.take(i + 1)) =~= strings_view(names@.take(i as int)).push(
            names@[i as int]@,
        ));
        i = i + 1;
    }
    assert(names@.take(i as int) =~= names@);
    join_strings(&quoted, ',')
}

/// The tuple `(v0,v1,...)` of row `r` of the block.
fn row_text(block: &RowBlock, r: usize) -> (res: Result<String, ConvertError>)
    requires
        block.wf(),
        r < block.num_rows,
    ensures
        match res {
            Ok(t) => row_tuple(block.columns@, r as int) == Ok::<Seq<char>, Failure>(t@),
            Err(e) => row_tuple(block.columns@, r as int) == Err::<Seq<char>, Failure>(e@),
        },
{
    let cols = &block.columns;
    let mut cells: Vec<String> = Vec::new();
    let mut j: usize = 0;
    assert(strings_view(cells@) =~= Seq::<Seq<char>>::empty());
    while j < cols.len()
        invariant
            block.wf(),
            r < block.num_rows,
            cols == &block.columns,
            j <= cols@.len(),
            row_cells(cols@, r as int, j as nat) == Ok::<Seq<Seq<char>>, Failure>(strings_view(cells@)),
        decreases cols@.len() - j,
    {
        assert(column_len(&cols@[j as int]) == block.num_rows);
        let ghost before = cells@;
        match to_sql_value(&cols[j], r) {
            Ok(t) => {
                cells.push(t);
                assert(strings_view(cells@) =~= strings_view(before).push(t@));
            },
            Err(e) => {
                proof {
                    lemma_row_cells_err(cols@, r as int, (j + 1) as nat, cols@.len());
                }
                return Err(e);
            },
        }
        j = j + 1;
    }
    let joined = join_strings(&cells, ',');
    let mut out = String::new();
    push_char(&mut out, '(');
    append_str(&mut out, &joined);
    push_char(&mut out, ')');
    assert(out@ =~= parens(joined@));
    Ok(out)
}

/// The tuples of all rows of the block, in row order.
fn all_tuples(block: &RowBlock) -> (res: Result<Vec<String>, ConvertError>)
    requires
        block.wf(),
    ensures
        match res {
            Ok(v) => tuples(block.columns@, block.num_rows as nat) == Ok::<Seq<Seq<char>>, Failure>(
                strings_view(v@),
            ),
            Err(e) => tuples(block.columns@, block.num_rows as nat) == Err::<Seq<Seq<char>>, Failure>(
                e@,
            ),
        },
{
    let mut out: Vec<String> = Vec::new();
    let mut r: usize = 0;
    assert(strings_view(out@) =~= Seq::<Seq<char>>::empty());
    while r < block.num_rows
        invariant
            block.wf(),
            r <= block.num_rows,
            tuples(block.columns@, r as nat) == Ok::<Seq<Seq<char>>, Failure>(strings_view(out@)),
        decreases block.num_rows - r,
    {
        let ghost before = out@;
        match row_text(block, r) {
            Ok(t) => {
                out.push(t);
                assert(strings_view(out@) =~= strings_view(before).push(t@));
            },
            Err(e) => {
                proof {
                    lemma_tuples_err(block.columns@, (r + 1) as nat, block.num_rows as nat);
                }
                return Err(e);
            },
        }
        r = r + 1;
    }
    Ok(out)
}

pub open spec fn opt_view(o: Option<&str>) -> Option<Seq<char>> {
    match o {
        Some(s) => Some(s@),
        None => None,
    }
}

/// ``INSERT INTO `table` (names) VALUES values;``.
fn statement_text(table_name: &str, column_names: Option<&str>, values: &String) -> (r: String)
    ensures
        r@ == statement(table_name@, opt_view(column_names), values@),
{
    let mut out = String::new();
    push_str(&mut out, "INSERT INTO `");
    push_str(&mut out, table_name);
    push_str(&mut out, "` ");
    proof {
        reveal_strlit("INSERT INTO `");
        reveal_strlit("` ");
        reveal_strlit("VALUES ");
    }
    let ghost head = out@;
    assert(head =~= insert_into() + backticked(table_name@) + seq![' ']);
    match column_names {
        Some(n) => {
            push_char(&mut out, '(');
            push_str(&mut out, n);
            push_char(&mut out, ')');
            push_char(&mut out, ' ');
        },
        None => {},
    }
    push_str(&mut out, "VALUES ");
    append_str(&mut out, values);
    push_char(&mut out, ';');
    assert(out@ =~= statement(table_name@, opt_view(column_names), values@));
    out
}

/// Copies `v[from..to]`.
fn slice_strings(v: &Vec<String>, from: usize, to: usize) -> (r: Vec<String>)
    requires
        from <= to <= v@.len(),
    ensures
        strings_view(r@) == strings_view(v@).subrange(from as int, to as int),
{
    let mut out: Vec<String> = Vec::new();
    let mut i: usize = from;
    while i < to
        invariant
            from <= i <= to <= v@.len(),
            strings_view(out@) =~= strings_view(v@).subrange(from as int, i as int),
        decreases to - i,
    {
        let ghost before = out@;
        let c = v[i].clone();
        out.push(c);
        assert(strings_view(out@) =~= strings_view(before).push(c@));
        i = i + 1;
    }
    out
}

proof fn lemma_batches_step(
    ts: Seq<Seq<char>>,
    i: int,
    batch: nat,
    table: Seq<char>,
    names: Option<Seq<char>>,
)
    requires
        0 <= i < ts.len(),
        batch > 0,
    ensures
        ({
            let c = min(batch as int, ts.len() - i);
            batches(ts.skip(i), batch, table, names) == seq![
                statement(table, names, join(ts.subrange(i, i + c), ','))
            ] + batches(ts.skip(i + c), batch, table, names)
        }),
{
    let c = min(batch as int, ts.len() - i);
    assert(ts.skip(i).take(c) =~= ts.subrange(i, i + c));
    assert(ts.skip(i).skip(c) =~= ts.skip(i + c));
}

/// The `INSERT` statements for a block: its rows as tuples, in row order, at most
/// `batch_size` tuples to a statement, with the column list where one is given.
/// A batch size of zero, an unsupported column or an out-of-range timestamp fails,
/// the first such cell in row-major order deciding which.
pub fn assemble(
    block: &RowBlock,
    table_name: &str,
    column_names: Option<&str>,
    batch_size: usize,
) -> (res: Result<Vec<String>, ConvertError>)
    requires
        block.wf(),
    ensures
        match res {
            Ok(v) => statements(
                block.columns@,
                block.num_rows as nat,
                batch_size as nat,
                table_name@,
                opt_view(column_names),
            ) == Ok::<Seq<Seq<char>>, Failure>(strings_view(v@)),
            Err(e) => statements(
                block.columns@,
                block.num_rows as nat,
                batch_size as nat,
                table_name@,
                opt_view(column_names),
            ) == Err::<Seq<Seq<char>>, Failure>(e@),
        },
{
    if batch_size == 0 {
        return Err(ConvertError::InvalidBatchSize);
    }
    let rows = match all_tuples(block) {
        Ok(v) => v,
        Err(e) => {
            return Err(e);
        },
    };
    let ghost ts = strings_view(rows@);
    let ghost table = table_name@;
    let ghost names = opt_view(column_names);
    let mut out: Vec<String> = Vec::new();
    let mut i: usize = 0;
    assert(ts.skip(0) =~= ts);
    assert(strings_view(out@) =~= Seq::<Seq<char>>::empty());
    while i < rows.len()
        invariant
            batch_size > 0,
            ts == strings_view(rows@),
            table == table_name@,
            names == opt_view(column_names),
            i <= rows@.len(),
            strings_view(out@) + batches(ts.skip(i as int), batch_size as nat, table, names)
                == batches(ts, batch_size as nat, table, names),
        decreases rows@.len() - i,
    {
        let end: usize = if rows.len() - i < batch_size {
            rows.len()
        } else {
            i + batch_size
        };
        proof {
            lemma_batches_step(ts, i as int, batch_size as nat, table, names);
        }
        let chunk = slice_strings(&rows, i, end);
        let values = join_strings(&chunk, ',');
        let st = statement_text(table_name, column_names, &values);
        let ghost before = out@;
        out.push(st);
        assert(strings_view(out@) =~= strings_view(before).push(st@));
        assert(strings_view(out@) + batches(ts.skip(end as int), batch_size as nat, table, names)
            =~= strings_view(before) + batches(ts.skip(i as int), batch_size as nat, table, names));
        i = end;
    }
    assert(ts.skip(i as int).len() == 0);
    assert(strings_view(out@) =~= batches(ts, batch_size as nat, table, names));
    Ok(out)
}

/// The statements of `assemble` joined with line breaks.
pub fn record_batch_to_sql_inserts(
    block: &RowBlock,
    table_name: &str,
    column_names: Option<&str>,
    rows_batch_size: usize,
) -> (res: Result<String, ConvertError>)
    requires
        block.wf(),
    ensures
        match res {
            Ok(t) => exists|v: Seq<Seq<char>>|
                statements(
                    block.columns@,
                    block.num_rows as nat,
                    rows_batch_size as nat,
                    table_name@,
                    opt_view(column_names),
                ) == Ok::<Seq<Seq<char>>, Failure>(v) && t@ == join(v, '\n'),
            Err(e) => statements(
                block.columns@,
                block.num_rows as nat,
                rows_batch_size as nat,
                table_name@,
                opt_view(column_names),
            ) == Err::<Seq<Seq<char>>, Failure>(e@),
        },
{
    match assemble(block, table_name, column_names, rows_batch_size) {
        Ok(v) => Ok(join_strings(&v, '\n')),
        Err(e) => Err(e),
    }
}

/// What every statement begins with: ``INSERT INTO `table` ``, the column list
/// where one is given, then `VALUES `.
pub open spec fn statement_prefix(table: Seq<char>, names: Option<Seq<char>>) -> Seq<char> {
    let cols = match names {
        Some(n) => parens(n) + seq![' '],
        None => seq![],
    };
    insert_into() + backticked(table) + seq![' '] + cols + values_kw()
}

proof fn lemma_batches_shape(
    ts: Seq<Seq<char>>,
    batch: nat,
    table: Seq<char>,
    names: Option<Seq<char>>,
)
    ensures
        forall|k: int|
            0 <= k < batches(ts, batch, table, names).len() ==> {
                let st = #[trigger] batches(ts, batch, table, names)[k];
                let p = statement_prefix(table, names);
                st.len() > p.len() && st.take(p.len() as int) == p && st.last() == ';'
            },
    decreases ts.len(),
{
    if ts.len() > 0 && batch > 0 {
        let c = min(batch as int, ts.len() as int);
        lemma_batches_shape(ts.skip(c), batch, table, names);
        let st = statement(table, names, join(ts.take(c), ','));
        let p = statement_prefix(table, names);
        assert(st.take(p.len() as int) =~= p);
        let rest = batches(ts.skip(c), batch, table, names);
        assert forall|k: int| 0 <= k < batches(ts, batch, table, names).len() implies {
            let st = #[trigger] batches(ts, batch, table, names)[k];
            st.len() > p.len() && st.take(p.len() as int) == p && st.last() == ';'
        } by {
            if k > 0 {
                assert(batches(ts, batch, table, names)[k] == rest[k - 1]);
            }
        }
    }
}

/// A block of `n` rows gives `n / batch` statements, rounded up.
pub proof fn statement_count(
    ts: Seq<Seq<char>>,
    batch: nat,
    table: Seq<char>,
    names: Option<Seq<char>>,
)
    requires
        batch > 0,
    ensures
        batches(ts, batch, table, names).len() == (ts.len() + batch - 1) / batch as int,
    decreases ts.len(),
{
    let l = ts.len() as int;
    let b = batch as int;
    if l == 0 {
        assert((b - 1) / b == 0) by (nonlinear_arith)
            requires
                b > 0,
        ;
    } else {
        let c = min(b, l);
        statement_count(ts.skip(c), batch, table, names);
        if l <= b {
            assert((l + b - 1) / b == 1) by (nonlinear_arith)
                requires
                    0 < l <= b,
            ;
        } else {
            assert((l + b - 1) / b == (l - b + b - 1) / b + 1) by (nonlinear_arith)
                requires
                    b > 0,
                    l > b,
            ;
        }
    }
}

/// Without column names, every statement is ``INSERT INTO `table` VALUES ...;``:
/// no column list stands between the table and `VALUES`.
pub proof fn no_column_list_without_names(cols: Seq<Column>, n: nat, batch: nat, table: Seq<char>)
    requires
        statements(cols, n, batch, table, None) is Ok,
    ensures
        forall|k: int|
            0 <= k < statements(cols, n, batch, table, None)->Ok_0.len() ==> {
                let st = #[trigger] statements(cols, n, batch, table, None)->Ok_0[k];
                let p = insert_into() + backticked(table) + seq![' '] + values_kw();
                st.len() > p.len() && st.take(p.len() as int) == p && st.last() == ';'
            },
{
    let ts = tuples(cols, n)->Ok_0;
    lemma_batches_shape(ts, batch, table, None);
    assert(statement_prefix(table, None) =~= insert_into() + backticked(table) + seq![' '] + values_kw());
}

/// With column names, every statement is ``INSERT INTO `table` (names) VALUES ...;``.
pub proof fn column_list_with_names(
    cols: Seq<Column>,
    n: nat,
    batch: nat,
    table: Seq<char>,
    names: Seq<char>,
)
    requires
        statements(cols, n, batch, table, Some(names)) is Ok,
    ensures
        forall|k: int|
            0 <= k < statements(cols, n, batch, table, Some(names))->Ok_0.len() ==> {
                let st = #[trigger] statements(cols, n, batch, table, Some(names))->Ok_0[k];
                let p = insert_into() + backticked(table) + seq![' '] + parens(names) + seq![' ']
                    + values_kw();
                st.len() > p.len() && st.take(p.len() as int) == p && st.last() == ';'
            },
{
    let ts = tuples(cols, n)->Ok_0;
    lemma_batches_shape(ts, batch, table, Some(names));
}

} // verus!
