//! Read-only SQL guardrail.
//!
//! Before any user SQL reaches the database it is trimmed, parsed with the
//! PostgreSQL dialect, and accepted only when it is exactly one statement and
//! that statement is a read-only query (`SELECT`, or `WITH ... SELECT`).

use crate::error::{AppError, AppResult};
use crate::text::{decimal_string, trim, trim_str, decimal};
use sqlparser::ast::Statement;
use sqlparser::dialect::PostgreSqlDialect;
use sqlparser::parser::Parser;
use vstd::prelude::*;
use vstd::string::*;

verus! {

/// What the guardrail needs to know of a parsed statement: whether it is a
/// query and, for the statements it names in its messages, which one it is.
#[derive(Debug, Clone, Copy, PartialEq, Eq, Structural)]
pub enum StatementKind {
    Query,
    Insert,
    Update,
    Delete,
    CreateTable,
    CreateView,
    AlterTable,
    Drop,
    Truncate,
    Copy,
    Call,
    Pragma,
    Attach,
    Other,
}

#[verifier::external_type_specification]
#[verifier::external_body]
pub struct ExStatement(Statement);

/// The kinds of the statements that `sqlparser` parses from `sql` with its
/// PostgreSQL dialect, in order, or the text of its parse error.
pub uninterp spec fn postgres_statements(sql: Seq<char>) -> Result<Seq<StatementKind>, Seq<char>>;

/// Tells the variants of `sqlparser`'s `Statement` apart.
#[verifier::external_body]
fn statement_kind_of(statement: &Statement) -> StatementKind {
    match statement {
        Statement::Query(_) => StatementKind::Query, Statement::Insert(_) => StatementKind::Insert,
        Statement::Update { .. } => StatementKind::Update,
        Statement::Delete(_) => StatementKind::Delete,
        Statement::CreateTable(_) => StatementKind::CreateTable,
        Statement::CreateView { .. } => StatementKind::CreateView,
        Statement::AlterTable { .. } => StatementKind::AlterTable,
        Statement::Drop { .. } => StatementKind::Drop,
        Statement::Truncate { .. } => StatementKind::Truncate,
        Statement::Copy { .. } => StatementKind::Copy,
        Statement::Call(_) => StatementKind::Call,
        Statement::Pragma { .. } => StatementKind::Pragma,
        Statement::AttachDuckDBDatabase { .. } => StatementKind::Attach,
        _ => StatementKind::Other,
    }
}

/// `sqlparser::parser::Parser::parse_sql` with the PostgreSQL dialect. The
/// contract claims only that the outcome is a function of the text: the kinds
/// of the parsed statements in order, or the parse error's display text, as
/// named by `postgres_statements`.
#[verifier::external_body]
fn parse_postgres(sql: &str) -> (r: Result<Vec<StatementKind>, String>)
    ensures
        match r {
            Ok(kinds) => postgres_statements(sql@) == Ok::<Seq<StatementKind>, Seq<char>>(kinds@),
            Err(e) => postgres_statements(sql@) == Err::<Seq<StatementKind>, Seq<char>>(e@),
        },
{
    Parser::parse_sql(&PostgreSqlDialect {}, sql)
        .map(|statements| statements.iter().map(statement_kind_of).collect())
        .map_err(|e| e.to_string())
}

/// The short label used for a rejected statement in messages.
pub open spec fn statement_label(kind: StatementKind) -> Seq<char> {
    match kind {
        StatementKind::Insert => "INSERT"@,
        StatementKind::Update => "UPDATE"@,
        StatementKind::Delete => "DELETE"@,
        StatementKind::CreateTable => "CREATE TABLE"@,
        StatementKind::CreateView => "CREATE VIEW"@,
        StatementKind::AlterTable => "ALTER TABLE"@,
        StatementKind::Drop => "DROP"@,
        StatementKind::Truncate => "TRUNCATE"@,
        StatementKind::Copy => "COPY"@,
        StatementKind::Call => "CALL"@,
        StatementKind::Pragma => "PRAGMA"@,
        StatementKind::Attach => "ATTACH"@,
        _ => "this statement"@,
    }
}

/// A short human label for a rejected statement, used in error messages.
pub fn statement_kind(kind: StatementKind) -> (r: &'static str)
    ensures
        r@ == statement_label(kind),
{
    match kind {
        StatementKind::Insert => "INSERT",
        StatementKind::Update => "UPDATE",
        StatementKind::Delete => "DELETE",
        StatementKind::CreateTable => "CREATE TABLE",
        StatementKind::CreateView => "CREATE VIEW",
        StatementKind::AlterTable => "ALTER TABLE",
        StatementKind::Drop => "DROP",
        StatementKind::Truncate => "TRUNCATE",
        StatementKind::Copy => "COPY",
        StatementKind::Call => "CALL",
        StatementKind::Pragma => "PRAGMA",
        StatementKind::Attach => "ATTACH",
        _ => "this statement",
    }
}

/// What the guardrail decides for a parsed text: acceptance when it is
/// exactly one query, else the message of the rejection.
pub open spec fn statements_verdict(kinds: Seq<StatementKind>) -> Result<(), Seq<char>> {
    if kinds.len() == 0 {
        Err("No SQL statement found."@)
    } else if kinds.len() > 1 {
        Err(
            "Only a single statement is allowed (found "@ + decimal(kinds.len())
                + "). Remove extra ';'-separated statements."@,
        )
    } else if kinds[0] == StatementKind::Query {
        Ok(())
    } else {
        Err(
            "Only read-only SELECT queries are allowed; '"@ + statement_label(kinds[0])
                + "' is blocked."@,
        )
    }
}

/// What the guardrail decides for `sql`: the accepted (trimmed) text, or the
/// message of the rejection.
pub open spec fn guardrail_decision(sql: Seq<char>) -> Result<Seq<char>, Seq<char>> {
    let t = trim(sql);
    if t.len() == 0 {
        Err("The query is empty."@)
    } else {
        match postgres_statements(t) {
            Err(e) => Err("Could not parse SQL: "@ + e),
            Ok(kinds) => match statements_verdict(kinds) {
                Ok(_) => Ok(t),
                Err(m) => Err(m),
            },
        }
    }
}

/// Accepts the statements of a parsed text only when there is exactly one
/// and it is a read-only query.
pub fn check_statements(kinds: &Vec<StatementKind>) -> (r: AppResult<()>)
    ensures
        match (r, statements_verdict(kinds@)) {
            (Ok(_), Ok(_)) => true,
            (Err(AppError::Guardrail(m)), Err(e)) => m@ == e,
            _ => false,
        },
{
    if kinds.len() == 0 {
        return Err(AppError::Guardrail(String::from_str("No SQL statement found.")));
    }
    if kinds.len() > 1 {
        let count = decimal_string(kinds.len() as u128);
        let message = String::from_str("Only a single statement is allowed (found ").concat(
            count.as_str(),
        ).concat("). Remove extra ';'-separated statements.");
        return Err(AppError::Guardrail(message));
    }
    let kind = kinds[0];
    if kind == StatementKind::Query {
        Ok(())
    } else {
        let message = String::from_str("Only read-only SELECT queries are allowed; '").concat(
            statement_kind(kind),
        ).concat("' is blocked.");
        Err(AppError::Guardrail(message))
    }
}

/// A text that parses to exactly one statement, and that statement is a query.
pub open spec fn is_single_read_only_query(text: Seq<char>) -> bool {
    postgres_statements(text) == Ok::<Seq<StatementKind>, Seq<char>>(seq![StatementKind::Query])
}

/// Proof that a SQL string passed the single-statement, read-only guardrail.
/// Query and export infrastructure accept this type instead of raw strings.
#[derive(Debug)]
pub struct ValidatedQuery(String);

impl Clone for ValidatedQuery {
    fn clone(&self) -> (r: Self)
        ensures
            r@ == self@,
    {
        proof {
            use_type_invariant(self);
        }
        ValidatedQuery(self.0.clone())
    }
}

impl View for ValidatedQuery {
    type V = Seq<char>;

    closed spec fn view(&self) -> Seq<char> {
        self.0@
    }
}

impl ValidatedQuery {
    #[verifier::type_invariant]
    spec fn accepted(self) -> bool {
        is_single_read_only_query(self.0@)
    }

    /// The accepted SQL text, which is a single read-only query.
    pub fn as_str(&self) -> (r: &str)
        ensures
            r@ == self@,
            is_single_read_only_query(r@),
    {
        proof {
            use_type_invariant(self);
        }
        self.0.as_str()
    }
}

/// Returns the query only if `sql` is a single read-only query.
pub fn validate(sql: &str) -> (r: AppResult<ValidatedQuery>)
    ensures
        match (r, guardrail_decision(sql@)) {
            (Ok(q), Ok(t)) => q@ == t,
            (Err(AppError::Guardrail(m)), Err(e)) => m@ == e,
            _ => false,
        },
{
    let trimmed = trim_str(sql);
    if trimmed.unicode_len() == 0 {
        return Err(AppError::Guardrail(String::from_str("The query is empty.")));
    }
    let kinds = match parse_postgres(trimmed) {
        Ok(kinds) => kinds,
        Err(e) => {
            let message = String::from_str("Could not parse SQL: ").concat(e.as_str());
            return Err(AppError::Guardrail(message));
        },
    };
    match check_statements(&kinds) {
        Ok(()) => {
            assert(kinds@ =~= seq![StatementKind::Query]);
            Ok(ValidatedQuery(String::from_str(trimmed)))
        },
        Err(e) => Err(e),
    }
}

/// Text that the guardrail accepted is accepted again, unchanged: the
/// guardrail's answer on its own output is the same text.
pub proof fn law_accepted_text_is_accepted_again(sql: Seq<char>)
    requires
        guardrail_decision(sql) is Ok,
    ensures
        guardrail_decision(guardrail_decision(sql)->Ok_0) == guardrail_decision(sql),
{
    crate::text::lemma_trim_idempotent(sql);
}

/// The guardrail passes only read-only work: whatever it accepts is the
/// trimmed text, and that text parses to exactly one statement, a query.
pub proof fn law_only_single_queries_pass(sql: Seq<char>)
    requires
        guardrail_decision(sql) is Ok,
    ensures
        guardrail_decision(sql)->Ok_0 == trim(sql),
        is_single_read_only_query(trim(sql)),
{
    let kinds = postgres_statements(trim(sql))->Ok_0;
    assert(kinds =~= seq![StatementKind::Query]);
}

} // verus!
