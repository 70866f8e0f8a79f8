//! The library's error type. Every fallible operation reports one of these
//! kinds together with a human-readable message.

use vstd::prelude::*;
use vstd::string::*;

verus! {

/// Unified error for every fallible operation.
#[derive(Debug, Clone)]
pub enum AppError {
    /// Filesystem / dialog / path problems.
    Io(String),
    /// Anything the database engine rejected (parse, plan, execution).
    Database(String),
    /// The user's SQL was blocked by the read-only guardrail.
    Guardrail(String),
    /// An operation needs an open file but the window has none loaded.
    NoData(String),
    /// Cache directory / eviction problems.
    Cache(String),
    /// Export (`COPY ... TO`) failures.
    Export(String),
    /// A superseded query was interrupted or its session expired.
    QuerySession(String),
    /// Anything else not modelled explicitly.
    Internal(String),
    /// A proposed SQL abbreviation for a file was refused.
    InvalidAbbreviation(String),
}

/// Shorthand for results of fallible operations.
pub type AppResult<T> = Result<T, AppError>;

/// The wire name of each error kind.
pub open spec fn kind_name(e: AppError) -> Seq<char> {
    match e {
        AppError::Io(_) => "io"@,
        AppError::Database(_) => "database"@,
        AppError::Guardrail(_) => "guardrail"@,
        AppError::NoData(_) => "no_data"@,
        AppError::Cache(_) => "cache"@,
        AppError::Export(_) => "export"@,
        AppError::QuerySession(_) => "query_session"@,
        AppError::Internal(_) => "internal"@,
        AppError::InvalidAbbreviation(_) => "invalid_abbreviation"@,
    }
}

/// The message carried by an error.
pub open spec fn message_of(e: AppError) -> Seq<char> {
    match e {
        AppError::Io(m) => m@,
        AppError::Database(m) => m@,
        AppError::Guardrail(m) => m@,
        AppError::NoData(m) => m@,
        AppError::Cache(m) => m@,
        AppError::Export(m) => m@,
        AppError::QuerySession(m) => m@,
        AppError::Internal(m) => m@,
        AppError::InvalidAbbreviation(m) => m@,
    }
}

/// The text used for the "no file is open" error.
pub open spec fn no_data_message() -> Seq<char> {
    "No file is open in this window. Use \"Open\" first."@
}

impl AppError {
    /// A poisoned internal lock (a worker panicked while holding it).
    pub fn lock_poisoned() -> (e: Self)
        ensures
            e matches AppError::Internal(m) && m@ == "internal state lock was poisoned"@,
    {
        AppError::Internal(String::from_str("internal state lock was poisoned"))
    }

    /// The window has no file open but the operation needs one.
    pub fn no_data() -> (e: Self)
        ensures
            e matches AppError::NoData(m) && m@ == no_data_message(),
    {
        AppError::NoData(String::from_str("No file is open in this window. Use \"Open\" first."))
    }

    /// The kind's wire name (`io`, `database`, `guardrail`, ...).
    pub fn kind(&self) -> (r: &'static str)
        ensures
            r@ == kind_name(*self),
    {
        match self {
            AppError::Io(_) => "io",
            AppError::Database(_) => "database",
            AppError::Guardrail(_) => "guardrail",
            AppError::NoData(_) => "no_data",
            AppError::Cache(_) => "cache",
            AppError::Export(_) => "export",
            AppError::QuerySession(_) => "query_session",
            AppError::Internal(_) => "internal",
            AppError::InvalidAbbreviation(_) => "invalid_abbreviation",
        }
    }

    /// The message carried by this error.
    pub fn message(&self) -> (r: &str)
        ensures
            r@ == message_of(*self),
    {
        match self {
            AppError::Io(m) => m.as_str(),
            AppError::Database(m) => m.as_str(),
            AppError::Guardrail(m) => m.as_str(),
            AppError::NoData(m) => m.as_str(),
            AppError::Cache(m) => m.as_str(),
            AppError::Export(m) => m.as_str(),
            AppError::QuerySession(m) => m.as_str(),
            AppError::Internal(m) => m.as_str(),
            AppError::InvalidAbbreviation(m) => m.as_str(),
        }
    }

    /// The display form `[kind] message`.
    pub fn to_display_string(&self) -> (r: String)
        ensures
            r@ == seq!['['] + kind_name(*self) + "] "@ + message_of(*self),
    {
        let mut s = String::from_str("[");
        s.append(self.kind());
        s.append("] ");
        s.append(self.message());
        proof {
            reveal_strlit("[");
            reveal_strlit("] ");
        }
        s
    }
}

} // verus!
