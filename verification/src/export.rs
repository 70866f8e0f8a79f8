//! Export of a full query result to a CSV file through `COPY ... TO`.

use crate::guardrail::{is_single_read_only_query, ValidatedQuery};
use crate::model::ExportInfo;
use crate::text::{sql_str, sql_string_body};
use vstd::prelude::*;
use vstd::string::*;

verus! {

/// The statement that streams the full result of `query` to `dest` as CSV
/// with a header row.
pub open spec fn export_statement_text(query: Seq<char>, dest: Seq<char>) -> Seq<char> {
    "COPY ("@ + query + ") TO '"@ + sql_string_body(dest) + "' (FORMAT CSV, HEADER)"@
}

/// Builds the export statement. Taking a [`ValidatedQuery`] makes guardrail
/// validation mandatory.
pub fn export_statement(query: &ValidatedQuery, dest: &str) -> (r: String)
    ensures
        r@ == export_statement_text(query@, dest@),
        is_single_read_only_query(query@),
{
    String::from_str("COPY (").concat(query.as_str()).concat(") TO '").concat(
        sql_str(dest).as_str(),
    ).concat("' (FORMAT CSV, HEADER)")
}

/// What a successful export reports.
pub fn export_info(dest: &str) -> (r: ExportInfo)
    ensures
        r.path@ == dest@,
        r.format@ == "CSV"@,
{
    ExportInfo { path: String::from_str(dest), format: String::from_str("CSV") }
}

} // verus!
