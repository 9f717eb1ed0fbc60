use harness_cli::cache::{event_cache_write, CacheWrite, SqlValue};
use harness_cli::log::sort_events;
use harness_cli::lww::{lww_decide, FieldStamp};
use harness_cli::replay::{JsonScalar, LogEvent};
use harness_cli::repository::{durable_tables, SqliteHarnessRepository, TableDump};
use harness_cli::sync::{sync_log_file, FileSync};
use harness_cli::EventLog;

fn update(id: &str, writer: &str, seq: i64, payload: Vec<(&str, &str)>) -> LogEvent {
    LogEvent {
        event_id: id.to_owned(),
        writer: writer.to_owned(),
        recorded_at: "2026-07-02T08:00:00Z".to_owned(),
        op: "story.update".to_owned(),
        payload: payload
            .into_iter()
            .map(|(k, v)| (k.to_owned(), JsonScalar::Text(v.to_owned())))
            .collect(),
        observed: Vec::new(),
        writer_seq: seq,
    }
}

fn line(event: &LogEvent) -> String {
    let members: Vec<String> = event
        .payload
        .iter()
        .map(|(k, v)| match v {
            JsonScalar::Text(t) => format!("\"{k}\":\"{t}\""),
            _ => unreachable!(),
        })
        .collect();
    EventLog::event_line(
        &event.event_id,
        &event.writer,
        &event.recorded_at,
        &event.op,
        &format!("{{{}}}", members.join(",")),
        None,
    )
}

fn story_fields(event: &LogEvent) -> Vec<(String, SqlValue)> {
    match event_cache_write(event).unwrap() {
        CacheWrite::StoryFields { story_id, fields } => {
            assert_eq!(story_id, "US-1");
            fields
        }
        _ => panic!("a story update writes story fields"),
    }
}

#[test]
fn cutover_incremental_replay_applies_pulled_events_before_queries() {
    // A teammate's file appears: it has no watermark, so all of it replays.
    let first = update("01J00000000000000000000001", "teammate1", 1, vec![("evidence", "teammate evidence"), ("id", "US-1"), ("status", "changed")]);
    let mut file = line(&first);
    file.push('\n');
    let watermark = match sync_log_file(&None, "teammate1.jsonl".to_owned(), file.as_bytes(), 1) {
        FileSync::Append { start, first_line, watermark } => {
            assert_eq!((start, first_line), (0, 0));
            watermark
        }
        FileSync::Diverged => panic!("a new file replays whole"),
    };
    let fields = story_fields(&first);
    assert_eq!(fields[0], ("status".to_owned(), SqlValue::Text("changed".to_owned())));
    assert_eq!(fields[1], ("evidence".to_owned(), SqlValue::Text("teammate evidence".to_owned())));
    let applied = lww_decide(&None, &first);
    assert!(applied.apply);

    // The file grows: only the appended event replays, from line 1.
    let second = update("01J00000000000000000000002", "teammate1", 2, vec![("id", "US-1"), ("status", "retired")]);
    let mut grown = file.clone();
    grown.push_str(&line(&second));
    grown.push('\n');
    match sync_log_file(&Some(watermark), "teammate1.jsonl".to_owned(), grown.as_bytes(), 2) {
        FileSync::Append { start, first_line, watermark } => {
            assert_eq!(start, file.len());
            assert_eq!(first_line, 1);
            assert_eq!(watermark.consumed_count, 2);
            assert_eq!(&grown[start..], format!("{}\n", line(&second)));
        }
        FileSync::Diverged => panic!("the consumed prefix is intact"),
    }
    let last = Some(FieldStamp {
        event_id: first.event_id.clone(),
        writer: first.writer.clone(),
        writer_seq: first.writer_seq,
    });
    assert!(lww_decide(&last, &second).apply);
    assert_eq!(story_fields(&second)[0], ("status".to_owned(), SqlValue::Text("retired".to_owned())));
}

#[test]
fn events_rebuild_is_deterministic_and_reproduces_writes() {
    let repository = SqliteHarnessRepository::new("/r".to_owned(), "/r/h.db".to_owned(), "/s".to_owned(), "w".to_owned());
    let dumps: Vec<TableDump> = durable_tables()
        .into_iter()
        .map(|(table, _)| TableDump { dump: format!("{table}\u{1e}t:row"), table, row_count: 1 })
        .collect();
    let first = repository.rebuild(Some("/r/rebuild-1.db".to_owned()), 10, &dumps);
    let second = repository.rebuild(Some("/r/rebuild-2.db".to_owned()), 10, &dumps);
    assert_eq!(first.dump_hash, second.dump_hash);
    assert_eq!(first.events_consumed, 10);
    let counts: Vec<(&str, i64)> = first.table_counts.iter().map(|(t, c)| (t.as_str(), *c)).collect();
    assert_eq!(
        counts,
        vec![
            ("intake", 1),
            ("story", 1),
            ("decision", 1),
            ("backlog", 1),
            ("trace", 1),
            ("tool", 1),
            ("intervention", 1),
            ("story_signal", 1),
        ]
    );

    // Replay reproduces the mutation, not just the insert: events sort into
    // replay order and the update carries its fields.
    let add = LogEvent {
        event_id: "01A".to_owned(),
        writer: "w".to_owned(),
        recorded_at: "2026-07-02T08:00:00Z".to_owned(),
        op: "story.add".to_owned(),
        payload: vec![
            ("id".to_owned(), JsonScalar::Text("US-1".to_owned())),
            ("title".to_owned(), JsonScalar::Text("t".to_owned())),
        ],
        observed: Vec::new(),
        writer_seq: 1,
    };
    let mut change = update("01B", "w", 2, vec![("evidence", "unit \"quoted\" evidence"), ("id", "US-1"), ("status", "implemented")]);
    change.payload.push(("unit_proof".to_owned(), JsonScalar::Int(1)));
    let ordered = sort_events(vec![change, add]);
    assert_eq!(ordered[0].op, "story.add");
    let fields = story_fields(&ordered[1]);
    assert_eq!(fields[0].1, SqlValue::Text("implemented".to_owned()));
    assert_eq!(fields[1].1, SqlValue::Text("unit \"quoted\" evidence".to_owned()));
    assert_eq!(fields[2], ("unit_proof".to_owned(), SqlValue::Integer(1)));

    // Machine-local scan state is never logged: a replayed tool is pristine.
    let tool = LogEvent {
        event_id: "01C".to_owned(),
        writer: "w".to_owned(),
        recorded_at: "2026-07-02T08:00:00Z".to_owned(),
        op: "tool.register".to_owned(),
        payload: vec![("name".to_owned(), JsonScalar::Text("x".to_owned()))],
        observed: Vec::new(),
        writer_seq: 3,
    };
    match event_cache_write(&tool).unwrap() {
        CacheWrite::Insert { table, columns } => {
            assert_eq!(table, "tool");
            let status = columns.iter().find(|(name, _)| name == "status").map(|(_, v)| v.clone());
            assert_eq!(status, Some(SqlValue::Text("unknown".to_owned())));
            assert!(columns.iter().all(|(name, _)| name != "checked_at"));
        }
        _ => panic!("a registration inserts a tool"),
    }
}
