# tablebase

The verified core of Tablebase, a desktop tool that queries delimited text
files with read-only SQL. Each window is an independent workspace of open
files, exposed to SQL as `data`, `data1`, `data2`, ... and cached on disk as
ingested databases.

## Layout

- `src/`: the library, written in Verus. Its functions carry contracts that
  Verus proves, except four small trusted wrappers around outside calls
  (`sqlparser`'s parser, `sha2`'s SHA-256, and `String::push`), whose
  contracts are taken on trust and say what those calls are documented to do.
  - `guardrail.rs`: accepts exactly one read-only query (`SELECT`,
    `WITH ... SELECT`), parsed with `sqlparser`'s PostgreSQL dialect.
  - `environment.rs`: the revisioned per-window registry of open files;
    changes are staged as proposals, validated against the catalog script
    they produce, and then published. It also checks user abbreviations,
    asking a keyword lookup (the database's, in the program) whether a word
    is reserved.
  - `cache.rs`: cache keys (SHA-256 of the source fingerprint and import
    options), file names, access stamps, lease counting and
    least-recently-used eviction.
  - `query_session.rs`: query sessions by window and id, and cancellation.
  - `ingest.rs`, `query.rs`, `export.rs`: the SQL statements that load a
    file, page and count a query, and export its full result.
  - `state.rs`, `model.rs`, `error.rs`, `paths.rs`, `text.rs`: defaults,
    data transferred to the user interface, errors, path and text helpers.
- `tests/`: tests of the library.
- `app/`: the program around the library: the window toolkit, file system,
  database connections, locks and threads.

The laws the library keeps (for example that publishing a batch of files
keeps every file already open, or that an access stamp reads back as the
time written into it) are public proof functions named `law_*`.
