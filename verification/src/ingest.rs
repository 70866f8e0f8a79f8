//! Delimited-file ingestion: the statements that load a source file into a
//! persistent columnar table named [`TABLE`] through the database's own
//! `read_csv`, and how their results are read back.

use crate::model::{ColumnInfo, ImportOptions};
use crate::text::{sql_str, sql_string_body};
use vstd::prelude::*;
use vstd::string::*;

verus! {

/// The table every file is loaded into.
pub const TABLE: &'static str = "data";

/// What an ingest produced.
pub struct IngestResult {
    pub columns: Vec<ColumnInfo>,
    pub row_count: u64,
}

/// `true` or `false`, as a boolean is displayed.
pub open spec fn bool_text(b: bool) -> Seq<char> {
    if b {
        "true"@
    } else {
        "false"@
    }
}

/// The `read_csv` arguments after the source path, each preceded by `, `.
pub open spec fn read_csv_options(options: ImportOptions) -> Seq<char> {
    ", auto_detect=true"@ + match options.delimiter {
        Some(d) => ", delim='"@ + sql_string_body(d@) + "'"@,
        None => Seq::empty(),
    } + match options.header {
        Some(h) => ", header="@ + bool_text(h),
        None => Seq::empty(),
    }
}

/// The statement that creates the table from a delimited source file.
pub open spec fn create_table_statement(source: Seq<char>, options: ImportOptions) -> Seq<char> {
    "CREATE TABLE data AS SELECT * FROM read_csv('"@ + sql_string_body(source) + "'"@
        + read_csv_options(options) + ")"@
}

/// Builds the statement that loads `source` into [`TABLE`], letting the
/// database auto-detect what `options` leaves open.
pub fn ingest_statement(source: &str, options: &ImportOptions) -> (r: String)
    ensures
        r@ == create_table_statement(source@, *options),
{
    let mut s = String::from_str("CREATE TABLE data AS SELECT * FROM read_csv('");
    s.append(sql_str(source).as_str());
    s.append("'");
    s.append(", auto_detect=true");
    match &options.delimiter {
        Some(d) => {
            s.append(", delim='");
            s.append(sql_str(d.as_str()).as_str());
            s.append("'");
        },
        None => {},
    }
    match options.header {
        Some(h) => {
            s.append(", header=");
            s.append(if h { "true" } else { "false" });
        },
        None => {},
    }
    s.append(")");
    s
}

/// How the options end the `read_csv` call, for every source: a present
/// header row gives `header=true` and an absent one `header=false`, right
/// before the closing bracket; with the header auto-detected, the call ends
/// with the delimiter argument, or with `auto_detect=true` when the
/// delimiter is auto-detected too.
pub proof fn law_ingest_options(source: Seq<char>, options: ImportOptions)
    ensures
        ({
            let st = create_table_statement(source, options);
            &&& options.header == Some(true) ==> st.len() >= 14 && st.subrange(st.len() - 14, st.len() as int)
                == ", header=true)"@
            &&& options.header == Some(false) ==> st.len() >= 15 && st.subrange(st.len() - 15, st.len() as int)
                == ", header=false)"@
            &&& options.header is None && options.delimiter is None ==> st.len() >= 19 && st.subrange(
                st.len() - 19,
                st.len() as int,
            ) == ", auto_detect=true)"@
            &&& options.header is None && options.delimiter is Some ==> ({
                let tail = ", delim='"@ + sql_string_body(options.delimiter->Some_0@) + "')"@;
                st.len() >= tail.len() && st.subrange(st.len() - tail.len(), st.len() as int) == tail
            })
        }),
{
    reveal_strlit(", header=true)");
    reveal_strlit(", header=false)");
    reveal_strlit(", auto_detect=true)");
    reveal_strlit(", auto_detect=true");
    reveal_strlit(", header=");
    reveal_strlit("true");
    reveal_strlit("false");
    reveal_strlit(")");
    reveal_strlit("')");
    reveal_strlit("'");
    reveal_strlit(", delim='");
    let st = create_table_statement(source, options);
    let head = "CREATE TABLE data AS SELECT * FROM read_csv('"@ + sql_string_body(source) + "'"@
        + ", auto_detect=true"@;
    let d = match options.delimiter {
        Some(x) => ", delim='"@ + sql_string_body(x@) + "'"@,
        None => Seq::empty(),
    };
    let h = match options.header {
        Some(b) => ", header="@ + bool_text(b),
        None => Seq::empty(),
    };
    assert(st =~= head + d + h + ")"@);
    let tail = h + ")"@;
    assert(st.subrange(st.len() - tail.len(), st.len() as int) =~= tail);
    match options.header {
        Some(true) => {
            assert(tail =~= ", header=true)"@);
        },
        Some(false) => {
            assert(tail =~= ", header=false)"@);
        },
        None => {
            match options.delimiter {
                Some(x) => {
                    let t2 = ", delim='"@ + sql_string_body(x@) + "')"@;
                    assert(d + h + ")"@ =~= t2);
                    assert(st.subrange(st.len() - t2.len(), st.len() as int) =~= t2);
                },
                None => {
                    assert(st.subrange(st.len() - 19, st.len() as int) =~= ", auto_detect=true)"@);
                },
            }
        },
    }
}

/// The statement that counts the rows of [`TABLE`].
pub fn count_statement() -> (r: String)
    ensures
        r@ == "SELECT count(*) FROM data"@,
{
    String::from_str("SELECT count(*) FROM data")
}

/// The statement that lists a table's columns (`PRAGMA table_info`).
pub fn table_info_statement(table: &str) -> (r: String)
    ensures
        r@ == "PRAGMA table_info('"@ + sql_string_body(table@) + "')"@,
{
    String::from_str("PRAGMA table_info('").concat(sql_str(table).as_str()).concat("')")
}

/// A row count reported by the database, negative values read as zero.
pub fn row_count_from(count: i64) -> (r: u64)
    ensures
        r == if count < 0 { 0 } else { count as u64 },
{
    if count < 0 {
        0
    } else {
        count as u64
    }
}

} // verus!
