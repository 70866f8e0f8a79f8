use tablebase::cache::CacheArtifact;
use tablebase::environment::{
    automatic_relation_name, check_abbreviation_syntax, reject_reserved, validate_abbreviation,
    Environment,
};
use tablebase::error::AppError;
use tablebase::model::{ColumnInfo, ImportOptions};

fn artifact(path: &str, rows: u64) -> CacheArtifact<()> {
    CacheArtifact {
        path: path.to_string(),
        columns: vec![ColumnInfo { name: "id".into(), data_type: "BIGINT".into() }],
        row_count: rows,
        cached: false,
        lease: (),
    }
}

fn add(env: &mut Environment<()>, sources: &[&str]) {
    let mut batch = env.begin_add();
    for source in sources {
        if batch.contains_identity(source) {
            continue;
        }
        batch.stage(
            source.to_string(),
            source.to_string(),
            artifact(&format!("/cache/{}.duckdb", source.len()), 2),
            ImportOptions::default(),
        );
    }
    env.commit(batch);
}

fn tables(env: &Environment<()>) -> Vec<String> {
    env.info().files.into_iter().map(|f| f.table).collect()
}

#[test]
fn automatic_names_are_stable_across_adds_and_closes() {
    let mut env = Environment::new();
    add(&mut env, &["/d/a.csv"]);
    assert_eq!(tables(&env), vec!["data"]);
    add(&mut env, &["/d/b.csv"]);
    assert_eq!(tables(&env), vec!["data", "data1"]);
    let index = env.find_for_removal("/d/a.csv", "/d/a.csv").unwrap();
    let removal = env.begin_remove(index);
    env.commit(removal);
    assert_eq!(tables(&env), vec!["data1"]);
    add(&mut env, &["/d/c.csv"]);
    assert_eq!(tables(&env), vec!["data1", "data2"]);
    assert_eq!(env.revision(), 4);
}

#[test]
fn batch_adds_skip_open_and_repeated_files() {
    let mut env = Environment::new();
    add(&mut env, &["/d/a.csv", "/d/b.csv", "/d/a.csv"]);
    let info = env.info();
    assert_eq!(info.files.len(), 2);
    assert_eq!(info.revision, 1);
    assert_eq!(info.files[0].id, 0);
    assert_eq!(info.files[1].id, 1);
    assert_eq!(info.files[1].file_name, "b.csv");
    assert_eq!(info.files[1].source_path, "/d/b.csv");
    assert_eq!(info.files[1].row_count, 2);
    add(&mut env, &["/d/a.csv"]);
    assert_eq!(env.info().revision, 1);
}

#[test]
fn unapplied_proposals_leave_the_registry_unchanged() {
    let mut env = Environment::new();
    add(&mut env, &["/d/a.csv"]);
    {
        let mut batch = env.begin_add();
        batch.stage("/d/b.csv".into(), "/d/b.csv".into(), artifact("/cache/b.duckdb", 1), ImportOptions::default());
        assert!(batch.is_changed());
    }
    let info = env.info();
    assert_eq!(info.files.len(), 1);
    assert_eq!(info.revision, 1);
}

#[test]
fn catalog_script_attaches_then_creates_views() {
    let mut env = Environment::new();
    let mut batch = env.begin_add();
    batch.stage("/d/a.csv".into(), "/d/a.csv".into(), artifact("/cache/it's.duckdb", 1), ImportOptions::default());
    batch.stage("/d/b.csv".into(), "/d/b.csv".into(), artifact("/cache/b.duckdb", 1), ImportOptions::default());
    assert_eq!(
        batch.script(),
        vec![
            "ATTACH '/cache/it''s.duckdb' AS src_0 (READ_ONLY)".to_string(),
            "ATTACH '/cache/b.duckdb' AS src_1 (READ_ONLY)".to_string(),
            "CREATE VIEW \"data\" AS SELECT * FROM src_0.data".to_string(),
            "CREATE VIEW \"data1\" AS SELECT * FROM src_1.data".to_string(),
        ]
    );
    env.commit(batch);
    let plan = env.query_plan().unwrap();
    assert_eq!(plan.revision, 1);
    assert_eq!(plan.script().len(), 4);
}

#[test]
fn query_plan_needs_an_open_file() {
    let env: Environment<()> = Environment::new();
    match env.query_plan() {
        Err(AppError::NoData(m)) => {
            assert_eq!(m, "No file is open in this window. Use \"Open\" first.")
        }
        _ => panic!("expected no data"),
    }
}

#[test]
fn reconfiguring_renames_and_reimports_one_file() {
    let mut env = Environment::new();
    add(&mut env, &["/d/employees.csv", "/d/offices.csv"]);
    let index = env.find_by_identity("/d/employees.csv").unwrap();
    assert_eq!(index, 0);
    let name = check_abbreviation_syntax(" emp ").unwrap();
    let name = reject_reserved(name, false).unwrap();
    env.check_name_available(index, &name).unwrap();
    let options = ImportOptions { delimiter: Some(";".into()), header: Some(true) };
    let proposal = env.begin_configure(index, name, artifact("/cache/emp2.duckdb", 7), options.clone());
    env.commit(proposal);
    let info = env.info();
    assert_eq!(info.revision, 2);
    assert_eq!(info.files[0].table, "emp");
    assert_eq!(info.files[0].row_count, 7);
    assert_eq!(info.files[0].import_options, options);
    assert_eq!(info.files[0].id, 0);
    assert_eq!(info.files[1].table, "data1");
    let other = env.find_by_identity("/d/offices.csv").unwrap();
    match env.check_name_available(other, "EMP") {
        Err(AppError::InvalidAbbreviation(m)) => {
            assert_eq!(m, "The abbreviation \"EMP\" is already used by another open file.")
        }
        r => panic!("{r:?}"),
    }
    assert!(env.check_name_available(index, "EMP").is_ok());
    assert!(env.find_by_identity("/d/missing.csv").is_err());
}

#[test]
fn abbreviation_shape_rules() {
    assert_eq!(check_abbreviation_syntax(" data ").unwrap(), "data");
    assert_eq!(check_abbreviation_syntax("_x9").unwrap(), "_x9");
    let message = |v: &str| match check_abbreviation_syntax(v) {
        Err(AppError::InvalidAbbreviation(m)) => m,
        r => panic!("{v:?}: {r:?}"),
    };
    assert_eq!(message("   "), "Choose an abbreviation for this file.");
    assert_eq!(message(&"a".repeat(65)), "Abbreviations must be 64 characters or fewer.");
    assert!(check_abbreviation_syntax(&"a".repeat(64)).is_ok());
    assert_eq!(
        message("two words"),
        "Use letters, numbers, or underscores, starting with a letter or underscore."
    );
    assert_eq!(
        message("2files"),
        "Use letters, numbers, or underscores, starting with a letter or underscore."
    );
    assert_eq!(
        message("caf\u{e9}"),
        "Use letters, numbers, or underscores, starting with a letter or underscore."
    );
    match reject_reserved("select".to_string(), true) {
        Err(AppError::InvalidAbbreviation(m)) => {
            assert_eq!(m, "\"select\" is a reserved SQL word. Choose another abbreviation.")
        }
        r => panic!("{r:?}"),
    }
}

#[test]
fn abbreviations_are_checked_against_the_keyword_lookup() {
    let reserved = |word: &str| -> Result<bool, String> { Ok(word.eq_ignore_ascii_case("select")) };
    assert_eq!(validate_abbreviation(" data ", reserved).unwrap(), "data");
    match validate_abbreviation(" SELECT ", reserved) {
        Err(AppError::InvalidAbbreviation(m)) => {
            assert_eq!(m, "\"SELECT\" is a reserved SQL word. Choose another abbreviation.")
        }
        r => panic!("{r:?}"),
    }
    assert!(matches!(validate_abbreviation("two words", reserved), Err(AppError::InvalidAbbreviation(_))));
    assert!(matches!(validate_abbreviation("2files", reserved), Err(AppError::InvalidAbbreviation(_))));
    let failing = |_: &str| -> Result<bool, String> { Err("no catalog".to_string()) };
    match validate_abbreviation("emp", failing) {
        Err(AppError::Database(m)) => assert_eq!(m, "no catalog"),
        r => panic!("{r:?}"),
    }
}

#[test]
fn files_are_found_by_path_components() {
    let mut env = Environment::new();
    add(&mut env, &["/tmp/x/data.csv", "/tmp/x/other.csv"]);
    assert_eq!(env.find_for_removal("/gone/data.csv", "/tmp/x//data.csv").unwrap(), 0);
    assert_eq!(env.find_for_removal("/tmp/x/./other.csv/", "/nowhere").unwrap(), 1);
    assert!(env.find_for_removal("tmp/x/data.csv", "/tmp/x/data").is_err());
    assert_eq!(env.find_by_identity("/tmp//x/other.csv").unwrap(), 1);
    let mut batch = env.begin_add();
    assert!(batch.contains_identity("/tmp/x/data.csv/"));
    assert!(!batch.contains_identity("/tmp/x/new.csv"));
    batch.stage("/tmp/x/new.csv".into(), "/tmp/x/new.csv".into(), artifact("/cache/n.duckdb", 1), ImportOptions::default());
    env.commit(batch);
    assert_eq!(tables(&env), vec!["data", "data1", "data2"]);
}

#[test]
fn automatic_relation_names() {
    assert_eq!(automatic_relation_name(0), "data");
    assert_eq!(automatic_relation_name(1), "data1");
    assert_eq!(automatic_relation_name(12), "data12");
}
