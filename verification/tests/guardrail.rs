use tablebase::error::AppError;
use tablebase::guardrail::{check_statements, statement_kind, validate, StatementKind};

fn guardrail_message(sql: &str) -> String {
    match validate(sql) {
        Err(AppError::Guardrail(m)) => m,
        other => panic!("expected a guardrail error for {sql:?}, got {other:?}"),
    }
}

#[test]
fn allows_select() {
    assert!(validate("SELECT * FROM data").is_ok());
}

#[test]
fn allows_cte() {
    assert!(validate("WITH x AS (SELECT 1 AS a) SELECT a FROM x").is_ok());
}

#[test]
fn blocks_write_statements() {
    for sql in [
        "INSERT INTO data VALUES (1)",
        "UPDATE data SET a = 1",
        "DELETE FROM data",
        "DROP TABLE data",
        "CREATE TABLE t (a INT)",
    ] {
        assert!(validate(sql).is_err(), "should reject: {sql}");
    }
}

#[test]
fn blocks_stacked_statements() {
    assert!(validate("SELECT 1; DROP TABLE data").is_err());
}

#[test]
fn accepted_query_is_the_trimmed_text() {
    let q = validate("  \n\tSELECT 1 \u{3000}").unwrap();
    assert_eq!(q.as_str(), "SELECT 1");
}

#[test]
fn empty_and_blank_queries_are_refused() {
    assert_eq!(guardrail_message(""), "The query is empty.");
    assert_eq!(guardrail_message(" \t\n "), "The query is empty.");
}

#[test]
fn stacked_statements_report_their_count() {
    assert_eq!(
        guardrail_message("SELECT 1; SELECT 2; SELECT 3"),
        "Only a single statement is allowed (found 3). Remove extra ';'-separated statements."
    );
}

#[test]
fn rejected_statements_are_named() {
    assert_eq!(
        guardrail_message("DELETE FROM data"),
        "Only read-only SELECT queries are allowed; 'DELETE' is blocked."
    );
    assert_eq!(
        guardrail_message("INSERT INTO data VALUES (1)"),
        "Only read-only SELECT queries are allowed; 'INSERT' is blocked."
    );
    assert_eq!(
        guardrail_message("DROP TABLE data"),
        "Only read-only SELECT queries are allowed; 'DROP' is blocked."
    );
}

#[test]
fn unparsable_sql_reports_the_parser_error() {
    let message = guardrail_message("SELEC * FROM data");
    assert!(message.starts_with("Could not parse SQL: "), "{message}");
}

#[test]
fn lone_separator_has_no_statement() {
    assert_eq!(guardrail_message(";"), "No SQL statement found.");
}

#[test]
fn statement_checks_on_given_kinds() {
    assert!(check_statements(&vec![StatementKind::Query]).is_ok());
    match check_statements(&vec![]) {
        Err(AppError::Guardrail(m)) => assert_eq!(m, "No SQL statement found."),
        other => panic!("{other:?}"),
    }
    match check_statements(&vec![StatementKind::Query, StatementKind::Query]) {
        Err(AppError::Guardrail(m)) => assert_eq!(
            m,
            "Only a single statement is allowed (found 2). Remove extra ';'-separated statements."
        ),
        other => panic!("{other:?}"),
    }
    match check_statements(&vec![StatementKind::Other]) {
        Err(AppError::Guardrail(m)) => assert_eq!(
            m,
            "Only read-only SELECT queries are allowed; 'this statement' is blocked."
        ),
        other => panic!("{other:?}"),
    }
}

#[test]
fn statement_labels() {
    assert_eq!(statement_kind(StatementKind::CreateTable), "CREATE TABLE");
    assert_eq!(statement_kind(StatementKind::Attach), "ATTACH");
    assert_eq!(statement_kind(StatementKind::Pragma), "PRAGMA");
    assert_eq!(statement_kind(StatementKind::Query), "this statement");
}
