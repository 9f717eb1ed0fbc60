use harness_cli::cache::SqlValue;
use harness_cli::error::HarnessInfraError;
use harness_cli::fnv1a64;
use harness_cli::repository::{
    cache_start, check_schema_current, dump_table, migration_start, durable_tables, has_extension, info_report, max_version,
    migration_version, plan_migrations, resolve_row_id, sort_migrations, verify_table_dump,
    CacheStart, DatabaseState, MigrateToEventsResult, SqliteHarnessRepository, TableDump,
    SUPPORTED_SCHEMA_VERSION,
};
use harness_cli::sync::{
    advance_watermark, cache_behind_log, count_lines, parse_hex, stat_matches, sync_log_file,
    vanished_watermark, watermark_for, FileStat, FileSync, Watermark,
};
use harness_cli::EVENT_SCHEMA_VERSION;

fn stat(file: &str, size: i64, mtime_ns: i64) -> FileStat {
    FileStat { file: file.to_owned(), size, mtime_ns }
}

fn same(a: &Watermark, b: &Watermark) -> bool {
    a.file == b.file
        && a.consumed_count == b.consumed_count
        && a.file_size == b.file_size
        && a.file_mtime_ns == b.file_mtime_ns
        && a.content_hash == b.content_hash
}

#[test]
fn lines_are_counted_without_blanks() {
    assert_eq!(count_lines(b""), 0);
    assert_eq!(count_lines(b"a\nb\n"), 2);
    assert_eq!(count_lines(b"a\n\n\nb"), 2);
    assert_eq!(count_lines(b"\n\n"), 0);
}

#[test]
fn watermark_hash_reads_back() {
    let watermark = watermark_for("w.jsonl".to_owned(), b"{}\n", 7);
    assert_eq!(watermark.consumed_count, 1);
    assert_eq!(watermark.file_size, 3);
    assert_eq!(watermark.content_hash, format!("{:016x}", fnv1a64(b"{}\n")));
    assert_eq!(parse_hex(&watermark.content_hash), Some(fnv1a64(b"{}\n")));
    assert_eq!(parse_hex("+ff"), Some(255));
    assert_eq!(parse_hex("FF"), Some(255));
    assert_eq!(parse_hex(""), None);
    assert_eq!(parse_hex("+"), None);
    assert_eq!(parse_hex("xyz"), None);
    assert_eq!(parse_hex("1ffffffffffffffff"), None);
}

#[test]
fn appending_a_line_matches_a_fresh_watermark() {
    let before = watermark_for("w.jsonl".to_owned(), b"{\"a\":1}\n", 1);
    let advanced = advance_watermark(&Some(before), "w.jsonl".to_owned(), "{\"b\":2}", 9);
    let fresh = watermark_for("w.jsonl".to_owned(), b"{\"a\":1}\n{\"b\":2}\n", 9);
    assert!(same(&advanced, &fresh));
    let first = advance_watermark(&None, "w.jsonl".to_owned(), "{}", 3);
    assert!(same(&first, &watermark_for("w.jsonl".to_owned(), b"{}\n", 3)));
}

#[test]
fn replay_picks_up_appended_lines_and_rebuilds_on_divergence() {
    let consumed = watermark_for("w.jsonl".to_owned(), b"one\n", 1);
    assert!(stat_matches(&consumed, 4, 1));
    assert!(!stat_matches(&consumed, 8, 2));
    match sync_log_file(&Some(consumed), "w.jsonl".to_owned(), b"one\ntwo\n", 2) {
        FileSync::Append { start, first_line, watermark } => {
            assert_eq!(start, 4);
            assert_eq!(first_line, 1);
            assert_eq!(watermark.consumed_count, 2);
            assert_eq!(watermark.file_size, 8);
            let fresh = watermark_for("w.jsonl".to_owned(), b"one\ntwo\n", 2);
            assert!(same(&watermark, &fresh));
        }
        FileSync::Diverged => panic!("the prefix is intact"),
    }
    let consumed = watermark_for("w.jsonl".to_owned(), b"one\n", 1);
    assert!(matches!(
        sync_log_file(&Some(consumed), "w.jsonl".to_owned(), b"ONE\ntwo\n", 2),
        FileSync::Diverged
    ));
    let consumed = watermark_for("w.jsonl".to_owned(), b"one\ntwo\n", 1);
    assert!(matches!(
        sync_log_file(&Some(consumed), "w.jsonl".to_owned(), b"one\n", 2),
        FileSync::Diverged
    ));
    match sync_log_file(&None, "t.jsonl".to_owned(), b"a\nb\n", 5) {
        FileSync::Append { start, first_line, watermark } => {
            assert_eq!((start, first_line, watermark.consumed_count), (0, 0, 2));
        }
        FileSync::Diverged => panic!("a new file is replayed whole"),
    }
}

#[test]
fn cache_behind_log_reports_unconsumed_and_vanished_files() {
    let consumed = vec![watermark_for("a.jsonl".to_owned(), b"x\n", 1)];
    assert!(!cache_behind_log(&vec![stat("a.jsonl", 2, 1)], &consumed));
    assert!(cache_behind_log(&vec![stat("a.jsonl", 3, 1)], &consumed));
    assert!(cache_behind_log(&vec![stat("a.jsonl", 2, 1), stat("b.jsonl", 2, 1)], &consumed));
    assert!(cache_behind_log(&Vec::new(), &consumed));
    assert!(!cache_behind_log(&Vec::new(), &Vec::new()));
    assert!(vanished_watermark(&vec!["b.jsonl".to_owned()], &vec!["a.jsonl".to_owned()]));
    assert!(!vanished_watermark(&vec!["a.jsonl".to_owned()], &vec!["a.jsonl".to_owned()]));
}

#[test]
fn repository_paths() {
    let repository = SqliteHarnessRepository::new(
        "/repo".to_owned(),
        "/repo/harness.db".to_owned(),
        "/repo/scripts/schema".to_owned(),
        "dev".to_owned(),
    );
    assert_eq!(repository.events_dir(), "/repo/.harness/events");
    assert_eq!(repository.events().writer(), "dev");
    assert_eq!(repository.events().own_file_path(), "/repo/.harness/events/dev.jsonl");
    assert_eq!(repository.db_path(), "/repo/harness.db");
}

#[test]
fn rebuild_hash_folds_table_dumps() {
    let repository = SqliteHarnessRepository::new("/r".to_owned(), "/r/h.db".to_owned(), "/s".to_owned(), "w".to_owned());
    let tables = vec![
        TableDump { table: "intake".to_owned(), row_count: 0, dump: "intake".to_owned() },
        TableDump { table: "story".to_owned(), row_count: 1, dump: "story\u{1e}t:US-1".to_owned() },
    ];
    let result = repository.rebuild(None, 3, &tables);
    assert_eq!(result.db_path, "/r/.harness/shadow.db");
    assert_eq!(result.events_consumed, 3);
    assert_eq!(result.table_counts, vec![("intake".to_owned(), 0), ("story".to_owned(), 1)]);
    let mut hash: u64 = 0xcbf2_9ce4_8422_2325;
    for table in &tables {
        hash ^= fnv1a64(table.dump.as_bytes());
        hash = hash.wrapping_mul(0x0000_0100_0000_01b3);
    }
    assert_eq!(result.dump_hash, format!("{hash:016x}"));
    let again = repository.rebuild(Some("/tmp/out.db".to_owned()), 3, &tables);
    assert_eq!(again.dump_hash, result.dump_hash);
    assert_eq!(again.db_path, "/tmp/out.db");
}

#[test]
fn dumps_are_canonical() {
    let columns = vec!["id".to_owned(), "status".to_owned(), "n".to_owned(), "b".to_owned()];
    let rows = vec![
        vec![
            SqlValue::Text("t1".to_owned()),
            SqlValue::Text("unknown".to_owned()),
            SqlValue::Integer(-2),
            SqlValue::Blob(vec![0, 255]),
        ],
        vec![SqlValue::Text("t2".to_owned()), SqlValue::Null, SqlValue::Real("1.5".to_owned()), SqlValue::Null],
    ];
    let (count, dump) = dump_table("tool", &columns, &vec!["status".to_owned()], &rows);
    assert_eq!(count, 2);
    assert_eq!(dump, "tool\u{1e}t:t1\u{1f}i:-2\u{1f}b:00ff\u{1e}t:t2\u{1f}r:1.5\u{1f}\u{2205}");
    assert_eq!(durable_tables().len(), 8);
    assert_eq!(durable_tables()[5], ("tool".to_owned(), "name".to_owned()));
}

#[test]
fn migration_proofs_compare_counts_then_hashes() {
    assert!(verify_table_dump("story", 2, "a", 2, "a").is_ok());
    match verify_table_dump("story", 2, "a", 1, "a") {
        Err(HarnessInfraError::MigrationVerifyFailed(message)) => {
            assert_eq!(message, "story: row count 1 (rebuilt) != 2 (live)")
        }
        _ => panic!("expected a count mismatch"),
    }
    match verify_table_dump("story", 2, "a", 2, "b") {
        Err(HarnessInfraError::MigrationVerifyFailed(message)) => {
            assert_eq!(message, "story: content hash mismatch between live DB and genesis rebuild")
        }
        _ => panic!("expected a hash mismatch"),
    }
    assert!(check_schema_current(8, 8).is_ok());
    match check_schema_current(7, 8) {
        Err(HarnessInfraError::MigrationVerifyFailed(message)) => assert_eq!(
            message,
            "database schema is v7, migrations go to v8 \u{2014} run `harness-cli migrate` first"
        ),
        _ => panic!("expected a refusal"),
    }
}

fn all_migrations() -> Vec<i64> {
    (1..=SUPPORTED_SCHEMA_VERSION).collect()
}

#[test]
fn info_reports_absence_on_uninitialized_repo() {
    let report = info_report("0.1.0".to_owned(), &all_migrations(), 0, "/r/harness.db".to_owned(), None);
    assert!(!report.initialized);
    assert!(!report.cli_version.is_empty());
    assert_eq!(report.supported_schema_version, SUPPORTED_SCHEMA_VERSION);
    assert_eq!(report.available_schema_version, SUPPORTED_SCHEMA_VERSION);
    assert_eq!(report.event_format_version, EVENT_SCHEMA_VERSION);
    assert_eq!(report.applied_schema_version, 0);
    assert!(report.applied_migrations.is_empty());
    assert!(!report.event_backed);
    assert_eq!(report.event_files, 0);
    assert!(!report.schema_behind_cli);
    assert!(!report.cache_behind_log);
    // A fresh clone: log files but no database yet.
    let fresh_clone = info_report("0.1.0".to_owned(), &all_migrations(), 2, "/r/harness.db".to_owned(), None);
    assert!(fresh_clone.cache_behind_log);
}

#[test]
fn info_reports_initialized_state() {
    let report = info_report(
        "0.1.0".to_owned(),
        &all_migrations(),
        1,
        "/r/harness.db".to_owned(),
        Some(DatabaseState { applied_migrations: all_migrations(), event_backed: true, cache_behind_log: false }),
    );
    assert!(report.initialized);
    assert_eq!(report.applied_schema_version, SUPPORTED_SCHEMA_VERSION);
    assert_eq!(report.applied_migrations, (1..=SUPPORTED_SCHEMA_VERSION).collect::<Vec<_>>());
    assert!(report.event_backed);
    assert!(!report.schema_behind_cli);
    assert!(!report.cache_behind_log);
}

#[test]
fn info_flags_schema_behind_cli() {
    let report = info_report(
        "0.1.0".to_owned(),
        &all_migrations(),
        1,
        "/r/harness.db".to_owned(),
        Some(DatabaseState {
            applied_migrations: (1..SUPPORTED_SCHEMA_VERSION).collect(),
            event_backed: true,
            cache_behind_log: false,
        }),
    );
    assert!(report.initialized);
    assert_eq!(report.applied_schema_version, SUPPORTED_SCHEMA_VERSION - 1);
    assert_eq!(report.available_schema_version, SUPPORTED_SCHEMA_VERSION);
    assert!(report.schema_behind_cli);
    assert!(!report.cache_behind_log);
}

#[test]
fn info_flags_cache_behind_log() {
    let report = info_report(
        "0.1.0".to_owned(),
        &all_migrations(),
        1,
        "/r/harness.db".to_owned(),
        Some(DatabaseState { applied_migrations: all_migrations(), event_backed: true, cache_behind_log: true }),
    );
    assert!(report.initialized);
    assert!(report.event_backed);
    assert!(report.cache_behind_log);
    assert!(!report.schema_behind_cli);
    // A cache that is not event-backed is never behind the log.
    let legacy = info_report(
        "0.1.0".to_owned(),
        &all_migrations(),
        1,
        "/r/harness.db".to_owned(),
        Some(DatabaseState { applied_migrations: all_migrations(), event_backed: false, cache_behind_log: true }),
    );
    assert!(!legacy.cache_behind_log && !legacy.schema_behind_cli);
}

#[test]
fn max_version_of_applied_migrations() {
    assert_eq!(max_version(&vec![3, 9, 2]), 9);
    assert_eq!(max_version(&Vec::new()), 0);
}

#[test]
fn events_rebuild_on_empty_log_yields_empty_tables() {
    let repository = SqliteHarnessRepository::new("/r".to_owned(), "/r/h.db".to_owned(), "/s".to_owned(), "w".to_owned());
    let tables: Vec<TableDump> = durable_tables()
        .into_iter()
        .map(|(table, _)| TableDump { dump: table.clone(), table, row_count: 0 })
        .collect();
    let result = repository.rebuild(Some("/r/rebuild.db".to_owned()), 0, &tables);
    assert_eq!(result.events_consumed, 0);
    assert!(!result.table_counts.is_empty());
    assert!(result.table_counts.iter().all(|(_, count)| *count == 0));
}

#[test]
fn migration_files_are_versioned_and_planned() {
    assert_eq!(migration_version("001-init.sql"), Some(1));
    assert_eq!(migration_version("0012-x.sql"), Some(12));
    assert_eq!(migration_version("000-x.sql"), None);
    assert_eq!(migration_version("001-init.txt"), None);
    assert_eq!(migration_version(".sql"), None);
    assert!(has_extension("a.b.jsonl", "jsonl"));
    assert!(!has_extension(".jsonl", "jsonl"));
    let sorted = sort_migrations(vec![(3, "c".to_owned()), (1, "a".to_owned()), (2, "b".to_owned())]);
    assert_eq!(sorted.iter().map(|f| f.0).collect::<Vec<_>>(), vec![1, 2, 3]);
    let (apply, error) = plan_migrations(&vec![1, 2, 3, 4], 2);
    assert_eq!(apply, vec![3, 4]);
    assert!(error.is_none());
    let (apply, error) = plan_migrations(&vec![7, 8, 9, 10], 6);
    assert_eq!(apply, vec![7, 8]);
    assert_eq!(error, Some(HarnessInfraError::UnsupportedSchemaVersion(9, SUPPORTED_SCHEMA_VERSION)));
}

#[test]
fn cutover_row_ids_are_ulids_and_prefixes_resolve() {
    assert_eq!(resolve_row_id("trace", "1", Some("1".to_owned()), Vec::new()), Ok("1".to_owned()));
    assert_eq!(
        resolve_row_id("trace", "01AB", None, vec!["01ABCD".to_owned()]),
        Ok("01ABCD".to_owned())
    );
    assert_eq!(
        resolve_row_id("trace", "ZZZZZZ", None, Vec::new()),
        Err(HarnessInfraError::RowIdNotFound("trace".to_owned(), "ZZZZZZ".to_owned()))
    );
    assert_eq!(
        resolve_row_id("trace", "01", None, vec!["01A".to_owned(), "01B".to_owned()]),
        Err(HarnessInfraError::AmbiguousRowId("trace".to_owned(), "01".to_owned(), "01A, 01B".to_owned()))
    );
}

#[test]
fn migration_proof_leaves_out_tool_scan_state() {
    assert_eq!(
        harness_cli::repository::migration_excluded_columns("tool"),
        vec!["status".to_owned(), "checked_at".to_owned()]
    );
    assert!(harness_cli::repository::migration_excluded_columns("story").is_empty());
}

#[test]
fn opening_the_cache_rebuilds_a_missing_database_from_the_log() {
    assert!(matches!(cache_start(true, 0, "/r/h.db"), Ok(CacheStart::Open)));
    assert!(matches!(cache_start(true, 3, "/r/h.db"), Ok(CacheStart::Open)));
    assert!(matches!(cache_start(false, 2, "/r/h.db"), Ok(CacheStart::Rebuild)));
    match cache_start(false, 0, "/r/h.db") {
        Err(HarnessInfraError::MissingDatabase(path)) => assert_eq!(path, "/r/h.db"),
        _ => panic!("a missing database with no log is an error"),
    }
    let done = MigrateToEventsResult::already_event_backed();
    assert!(done.already_event_backed);
    assert_eq!((done.events_written, done.table_counts.len(), done.archived_log_files), (0, 0, 0));
    assert!(done.backup_db.is_none());
}

#[test]
fn moving_an_event_backed_cache_again_does_nothing() {
    assert!(migration_start(false).is_none());
    let done = migration_start(true).expect("already moved");
    assert!(done.already_event_backed);
    assert_eq!((done.events_written, done.table_counts.len(), done.archived_log_files), (0, 0, 0));
    assert!(done.backup_db.is_none());
}
