use tablebase::export::{export_info, export_statement};
use tablebase::guardrail::validate;
use tablebase::ingest::{count_statement, ingest_statement, row_count_from, table_info_statement, TABLE};
use tablebase::model::{ColumnInfo, ImportOptions};
use tablebase::error::AppError;
use tablebase::query::{describe_statement, empty_page, page_result, page_statement, read_record};

fn column(name: &str) -> ColumnInfo {
    ColumnInfo { name: name.to_string(), data_type: "VARCHAR".to_string() }
}

#[test]
fn ingest_statements() {
    assert_eq!(TABLE, "data");
    assert_eq!(
        ingest_statement("/tmp/a.csv", &ImportOptions::default()),
        "CREATE TABLE data AS SELECT * FROM read_csv('/tmp/a.csv', auto_detect=true)"
    );
    let options = ImportOptions { delimiter: Some(";".into()), header: Some(false) };
    assert_eq!(
        ingest_statement("/tmp/it's.csv", &options),
        "CREATE TABLE data AS SELECT * FROM read_csv('/tmp/it''s.csv', auto_detect=true, delim=';', header=false)"
    );
    assert_eq!(count_statement(), "SELECT count(*) FROM data");
    assert_eq!(table_info_statement("data"), "PRAGMA table_info('data')");
    assert_eq!(row_count_from(-3), 0);
    assert_eq!(row_count_from(42), 42);
}

#[test]
fn page_statements() {
    let query = validate("SELECT name, score FROM data WHERE score > 8").unwrap();
    assert_eq!(
        describe_statement(&query),
        "DESCRIBE SELECT name, score FROM data WHERE score > 8"
    );
    let columns = vec![column("id"), column("na\"me")];
    assert_eq!(
        page_statement(&columns, &query, 1, 10).unwrap(),
        "SELECT CAST(\"id\" AS VARCHAR) AS \"id\", CAST(\"na\"\"me\" AS VARCHAR) AS \"na\"\"me\" FROM (SELECT name, score FROM data WHERE score > 8) AS _tb_src LIMIT 10 OFFSET 10"
    );
    assert!(page_statement(&Vec::new(), &query, 0, 10).is_none());
    let huge = page_statement(&columns, &query, u64::MAX, 2).unwrap();
    assert!(huge.ends_with("LIMIT 2 OFFSET 18446744073709551615"), "{huge}");
    assert_eq!(
        tablebase::query::count_statement(&query),
        "SELECT count(*) FROM (SELECT name, score FROM data WHERE score > 8) AS _tb_src"
    );
}

#[test]
fn page_results() {
    let rows = vec![vec![Some("alice".to_string()), None]];
    let page = page_result(vec![column("name"), column("score")], rows, 3, 2000);
    assert_eq!(page.returned, 1);
    assert_eq!(page.page, 3);
    assert_eq!(page.page_size, 2000);
    assert_eq!(page.rows[0][0].as_deref(), Some("alice"));
    let empty = empty_page(Vec::new(), 0, 10);
    assert_eq!(empty.returned, 0);
    assert!(empty.rows.is_empty());
}

#[test]
fn export_statements() {
    let query = validate("SELECT 1").unwrap();
    assert_eq!(
        export_statement(&query, "/tmp/o'ut.csv"),
        "COPY (SELECT 1) TO '/tmp/o''ut.csv' (FORMAT CSV, HEADER)"
    );
    let info = export_info("/tmp/out.csv");
    assert_eq!(info.path, "/tmp/out.csv");
    assert_eq!(info.format, "CSV");
}

#[test]
fn records_hold_one_value_per_column() {
    let cells = ["1", "alice", ""];
    let record = read_record(3, |i| Ok(if cells[i].is_empty() { None } else { Some(cells[i].to_string()) }))
        .unwrap();
    assert_eq!(record, vec![Some("1".to_string()), Some("alice".to_string()), None]);
    match read_record(3, |i| if i == 1 { Err("bad cell".to_string()) } else { Ok(None) }) {
        Err(AppError::Database(m)) => assert_eq!(m, "bad cell"),
        other => panic!("{other:?}"),
    }
    assert_eq!(read_record(0, |_| Err("unused".to_string())).unwrap(), Vec::<Option<String>>::new());
}
