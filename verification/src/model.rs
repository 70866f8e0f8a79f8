//! Plain data-transfer types shared between modules and handed to the user
//! interface.

use vstd::prelude::*;

verus! {

/// One column of a table or query result.
#[derive(Debug)]
pub struct ColumnInfo {
    pub name: String,
    /// Database type name, e.g. `VARCHAR`, `BIGINT`, `TIMESTAMP`.
    pub data_type: String,
}

impl Clone for ColumnInfo {
    fn clone(&self) -> (r: Self)
        ensures
            r == *self,
    {
        ColumnInfo { name: self.name.clone(), data_type: self.data_type.clone() }
    }
}

/// Optional overrides for delimited-file import. A `None` field is
/// auto-detected.
#[derive(Debug, Default, PartialEq, Eq, Hash)]
pub struct ImportOptions {
    /// Field delimiter, e.g. `,` or a tab. `None` means auto-detect.
    pub delimiter: Option<String>,
    /// Whether the first row is a header. `None` means auto-detect.
    pub header: Option<bool>,
}

impl Clone for ImportOptions {
    fn clone(&self) -> (r: Self)
        ensures
            r == *self,
    {
        let delimiter = match &self.delimiter {
            Some(d) => Some(d.clone()),
            None => None,
        };
        ImportOptions { delimiter, header: self.header }
    }
}

impl ImportOptions {
    /// Options that let every setting be auto-detected.
    pub fn auto_detect() -> (r: Self)
        ensures
            r.delimiter is None,
            r.header is None,
    {
        ImportOptions { delimiter: None, header: None }
    }
}

/// Summary of one file open inside a window's environment.
#[derive(Debug)]
pub struct FileInfo {
    /// Stable identity inside the window.
    pub id: u64,
    pub source_path: String,
    pub file_name: String,
    /// The SQL name the file is queried as within its window.
    pub table: String,
    pub columns: Vec<ColumnInfo>,
    pub row_count: u64,
    /// True if served from an existing cache entry (no re-ingest was needed).
    pub cached: bool,
    /// The options that produced the currently attached cache artifact.
    pub import_options: ImportOptions,
}

/// Snapshot of one window's environment: the ordered files it has open.
#[derive(Debug)]
pub struct EnvironmentInfo {
    pub files: Vec<FileInfo>,
    /// Increases after each successful workspace mutation.
    pub revision: u64,
}

/// One page of query results. Every value is rendered to text by the
/// database; `None` stands for SQL NULL.
#[derive(Debug)]
pub struct PageResult {
    pub columns: Vec<ColumnInfo>,
    /// Row-major: `rows[r][c]`.
    pub rows: Vec<Vec<Option<String>>>,
    pub page: u64,
    pub page_size: u64,
    /// How many rows this page actually returned.
    pub returned: u64,
}

/// A page tied to one immutable query session and workspace revision.
#[derive(Debug)]
pub struct QueryPage {
    pub query_id: u64,
    pub workspace_revision: u64,
    pub result: PageResult,
}

/// Lazy total for one immutable query session.
#[derive(Debug)]
pub struct QueryCount {
    pub query_id: u64,
    pub workspace_revision: u64,
    pub total_rows: u64,
}

/// Result of a successful export.
#[derive(Debug)]
pub struct ExportInfo {
    pub path: String,
    pub format: String,
}

} // verus!
