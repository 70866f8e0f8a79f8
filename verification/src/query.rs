//! Read-only query pagination and counting: the statements that describe a
//! query, fetch one page of it with every column rendered as text, and count
//! its rows, and how their results become a [`PageResult`].

use crate::error::{AppError, AppResult};
use crate::guardrail::{is_single_read_only_query, ValidatedQuery};
use crate::model::{ColumnInfo, PageResult};
use crate::text::{
    decimal, decimal_string, join_strings, join_with, quote_ident, quoted_ident, string_texts,
};
use vstd::prelude::*;
use vstd::string::*;

verus! {

/// The statement that lists the columns of `query` without running it.
pub fn describe_statement(query: &ValidatedQuery) -> (r: String)
    ensures
        r@ == "DESCRIBE "@ + query@,
        is_single_read_only_query(query@),
{
    String::from_str("DESCRIBE ").concat(query.as_str())
}

/// The select-list item that renders column `name` as text.
pub open spec fn cast_item(name: Seq<char>) -> Seq<char> {
    "CAST("@ + quoted_ident(name) + " AS VARCHAR) AS "@ + quoted_ident(name)
}

/// The select list that renders every column as text, in order.
pub open spec fn select_list(columns: Seq<ColumnInfo>) -> Seq<char> {
    join_with(Seq::new(columns.len(), |i: int| cast_item(columns[i].name@)), ", "@)
}

/// The zero-based row offset of a page (saturating at `u64::MAX`).
pub open spec fn page_offset(page: u64, page_size: u64) -> u64 {
    if page * page_size > u64::MAX {
        u64::MAX
    } else {
        (page * page_size) as u64
    }
}

/// The statement that fetches one page of `query` with every column as text.
pub open spec fn page_statement_text(columns: Seq<ColumnInfo>, query: Seq<char>, page: u64, page_size: u64) -> Seq<char> {
    "SELECT "@ + select_list(columns) + " FROM ("@ + query + ") AS _tb_src LIMIT "@ + decimal(
        page_size as nat,
    ) + " OFFSET "@ + decimal(page_offset(page, page_size) as nat)
}

fn select_list_sql(columns: &Vec<ColumnInfo>) -> (r: String)
    ensures
        r@ == select_list(columns@),
{
    let n = columns.len();
    let mut items: Vec<String> = Vec::new();
    let mut i: usize = 0;
    while i < n
        invariant
            n == columns@.len(),
            i <= n,
            items@.len() == i,
            forall|k: int| 0 <= k < i ==> (#[trigger] items@[k])@ == cast_item(columns@[k].name@),
        decreases n - i,
    {
        let ident = quote_ident(columns[i].name.as_str());
        let item = String::from_str("CAST(").concat(ident.as_str()).concat(" AS VARCHAR) AS ").concat(
            ident.as_str(),
        );
        items.push(item);
        i = i + 1;
    }
    assert(string_texts(items@) =~= Seq::new(n as nat, |i: int| cast_item(columns@[i].name@)));
    join_strings(&items, ", ")
}

/// The statement for page `page` (zero-based) of `query`, or `None` when the
/// query has no columns and there is nothing to fetch.
pub fn page_statement(columns: &Vec<ColumnInfo>, query: &ValidatedQuery, page: u64, page_size: u64) -> (r: Option<String>)
    ensures
        columns@.len() == 0 <==> r is None,
        r matches Some(s) ==> s@ == page_statement_text(columns@, query@, page, page_size),
        is_single_read_only_query(query@),
{
    let q = query.as_str();
    if columns.len() == 0 {
        return None;
    }
    let offset = match page.checked_mul(page_size) {
        Some(o) => o,
        None => u64::MAX,
    };
    let s = String::from_str("SELECT ").concat(select_list_sql(columns).as_str()).concat(" FROM (").concat(
        q,
    ).concat(") AS _tb_src LIMIT ").concat(decimal_string(page_size as u128).as_str()).concat(
        " OFFSET ",
    ).concat(decimal_string(offset as u128).as_str());
    Some(s)
}

/// The reader `read` may give `value` for column `i` of the current row.
pub open spec fn reads<F: Fn(usize) -> Result<Option<String>, String>>(
    read: F,
    i: int,
    value: Result<Option<String>, String>,
) -> bool {
    0 <= i <= usize::MAX && call_ensures(read, (i as usize,), value)
}

/// One result row, read column by column: the text of each of the `ncols`
/// columns in order (`None` for SQL NULL), or the error of the first column
/// that could not be read.
pub fn read_record<F: Fn(usize) -> Result<Option<String>, String>>(ncols: usize, read: F) -> (r: AppResult<Vec<Option<String>>>)
    requires
        forall|i: usize| i < ncols ==> #[trigger] call_requires(read, (i,)),
    ensures
        r matches Ok(record) ==> record@.len() == ncols && forall|i: int|
            0 <= i < ncols ==> #[trigger] reads(read, i, Ok(record@[i])),
        r is Err ==> r->Err_0 is Database && exists|i: int|
            0 <= i < ncols && #[trigger] reads(read, i, Err(r->Err_0->Database_0)),
{
    let mut record: Vec<Option<String>> = Vec::new();
    let mut i: usize = 0;
    while i < ncols
        invariant
            i <= ncols,
            record@.len() == i,
            forall|j: usize| j < ncols ==> #[trigger] call_requires(read, (j,)),
            forall|k: int| 0 <= k < i ==> #[trigger] reads(read, k, Ok(record@[k])),
        decreases ncols - i,
    {
        let value = read(i);
        assert(reads(read, i as int, value));
        match value {
            Ok(v) => {
                let ghost before = record@;
                record.push(v);
                assert forall|k: int| 0 <= k < i + 1 implies #[trigger] reads(read, k, Ok(record@[k])) by {
                    if k < i {
                        assert(record@[k] == before[k]);
                    }
                }
            },
            Err(m) => {
                let ghost gm = m;
                assert(reads(read, i as int, Err::<Option<String>, String>(gm)));
                let out: AppResult<Vec<Option<String>>> = Err(AppError::Database(m));
                assert(out->Err_0->Database_0 == gm);
                assert(reads(read, i as int, Err(out->Err_0->Database_0)));
                assert(0 <= i < ncols);
                return out;
            },
        }
        i = i + 1;
    }
    Ok(record)
}

/// One page of results from the rows the page statement returned (none when
/// the query has no columns). Every row holds one value per column.
pub fn page_result(
    columns: Vec<ColumnInfo>,
    rows: Vec<Vec<Option<String>>>,
    page: u64,
    page_size: u64,
) -> (r: PageResult)
    requires
        forall|i: int| 0 <= i < rows@.len() ==> (#[trigger] rows@[i])@.len() == columns@.len(),
    ensures
        forall|i: int| 0 <= i < r.rows@.len() ==> (#[trigger] r.rows@[i])@.len() == r.columns@.len(),
        r.columns@ == columns@,
        r.rows@ == rows@,
        r.page == page,
        r.page_size == page_size,
        r.returned == rows@.len(),
{
    let returned = rows.len() as u64;
    PageResult { columns, rows, page, page_size, returned }
}

/// The empty page returned for a query without columns.
pub fn empty_page(columns: Vec<ColumnInfo>, page: u64, page_size: u64) -> (r: PageResult)
    ensures
        r.columns@ == columns@,
        r.rows@.len() == 0,
        r.page == page,
        r.page_size == page_size,
        r.returned == 0,
{
    PageResult { columns, rows: Vec::new(), page, page_size, returned: 0 }
}

/// Pages tile the result: page 0 starts at row 0, and each page starts where
/// the one before it ends, while the offsets fit in `u64`.
pub proof fn law_pages_are_adjacent(page: u64, page_size: u64)
    requires
        page < u64::MAX,
        (page + 1) * page_size <= u64::MAX,
    ensures
        page_offset(0, page_size) == 0,
        page_offset((page + 1) as u64, page_size) == page_offset(page, page_size) + page_size,
{
    assert((page + 1) * page_size == page * page_size + page_size) by (nonlinear_arith);
    assert(0 * page_size == 0) by (nonlinear_arith);
}

/// The statement that counts the rows of the full, unpaginated query.
pub fn count_statement(query: &ValidatedQuery) -> (r: String)
    ensures
        r@ == "SELECT count(*) FROM ("@ + query@ + ") AS _tb_src"@,
        is_single_read_only_query(query@),
{
    String::from_str("SELECT count(*) FROM (").concat(query.as_str()).concat(") AS _tb_src")
}

} // verus!
