use harness_cli::cache::{event_cache_write, CacheWrite, SqlValue};
use harness_cli::error::HarnessInfraError;
use harness_cli::log::{observed_object, prepare_append, require_event_backed, sort_events};
use harness_cli::lww::{lww_decide, FieldStamp};
use harness_cli::replay::{
    event_location, event_timestamp, json_object_text, p_i64, p_id, p_json_text, p_str,
    EventDocument, JsonScalar, LogEvent,
};

fn text(value: &str) -> JsonScalar {
    JsonScalar::Text(value.to_owned())
}

fn member(name: &str, value: JsonScalar) -> (String, JsonScalar) {
    (name.to_owned(), value)
}

fn event(id: &str, writer: &str, op: &str, payload: Vec<(String, JsonScalar)>) -> LogEvent {
    LogEvent {
        event_id: id.to_owned(),
        writer: writer.to_owned(),
        recorded_at: "2026-07-02T08:00:00Z".to_owned(),
        op: op.to_owned(),
        payload,
        observed: Vec::new(),
        writer_seq: 1,
    }
}

fn column<'a>(columns: &'a [(String, SqlValue)], name: &str) -> &'a SqlValue {
    &columns.iter().find(|(column, _)| column == name).expect("column").1
}

#[test]
fn payload_members_are_read_by_kind() {
    let payload = vec![
        member("id", JsonScalar::Int(7)),
        member("title", text("x")),
        member("flags", JsonScalar::Nested("[\"a\",\"b\"]".to_owned())),
        member("done", JsonScalar::Bool(true)),
        member("big", JsonScalar::Number("18446744073709551615".to_owned())),
    ];
    assert_eq!(p_id(&payload, "id").as_deref(), Some("7"));
    assert_eq!(p_str(&payload, "id"), None);
    assert_eq!(p_i64(&payload, "id"), Some(7));
    assert_eq!(p_str(&payload, "title").as_deref(), Some("x"));
    assert_eq!(p_json_text(&payload, "flags").as_deref(), Some("[\"a\",\"b\"]"));
    assert_eq!(p_json_text(&payload, "done").as_deref(), Some("true"));
    assert_eq!(p_id(&payload, "big").as_deref(), Some("18446744073709551615"));
    assert_eq!(p_i64(&payload, "big"), None);
    assert_eq!(p_str(&payload, "missing"), None);
    assert_eq!(p_id(&vec![member("id", JsonScalar::Int(-3))], "id").as_deref(), Some("-3"));
}

#[test]
fn event_timestamps_use_the_schema_form() {
    assert_eq!(event_timestamp("2026-07-02T08:00:00Z"), "2026-07-02 08:00:00");
    assert_eq!(event_timestamp("t"), "t");
}

#[test]
fn documents_become_events_or_name_the_missing_field() {
    let document = EventDocument {
        fields: vec![
            member("event_id", text("01A")),
            member("writer", text("w")),
            member("recorded_at", text("2026-07-02T08:00:00Z")),
            member("op", text("story.add")),
            member("schema", JsonScalar::Int(1)),
        ],
        payload: vec![member("id", text("US-1"))],
        observed: Vec::new(),
    };
    let parsed = LogEvent::from_document(document, "w.jsonl", 4).unwrap();
    assert_eq!(parsed.event_id, "01A");
    assert_eq!(parsed.writer_seq, 5);
    assert_eq!(parsed.payload.len(), 1);

    let broken = EventDocument {
        fields: vec![member("event_id", text("01A")), member("writer", JsonScalar::Int(3))],
        payload: Vec::new(),
        observed: Vec::new(),
    };
    match LogEvent::from_document(broken, "w.jsonl", 0) {
        Err(HarnessInfraError::CorruptEventLog(location, message)) => {
            assert_eq!(location, "w.jsonl:1");
            assert_eq!(message, "missing or non-string field 'writer'");
        }
        _ => panic!("expected a corrupt-log error"),
    }
    assert_eq!(event_location("a/b.jsonl", 9), "a/b.jsonl:10");
}

#[test]
fn story_add_inserts_with_defaults() {
    let add = event("01A", "w", "story.add", vec![member("id", text("US-1")), member("title", text("T"))]);
    match event_cache_write(&add).unwrap() {
        CacheWrite::Insert { table, columns } => {
            assert_eq!(table, "story");
            assert_eq!(columns.len(), 15);
            assert_eq!(column(&columns, "status"), &SqlValue::Text("planned".to_owned()));
            assert_eq!(column(&columns, "unit_proof"), &SqlValue::Integer(0));
            assert_eq!(column(&columns, "created_at"), &SqlValue::Text("2026-07-02 08:00:00".to_owned()));
            assert_eq!(column(&columns, "evidence"), &SqlValue::Null);
        }
        _ => panic!("expected an insert"),
    }
}

#[test]
fn every_known_op_maps_to_its_table() {
    let cases = [
        ("intake.record", "intake"),
        ("decision.add", "decision"),
        ("backlog.add", "backlog"),
        ("tool.register", "tool"),
        ("intervention.add", "intervention"),
        ("signal.add", "story_signal"),
        ("trace.record", "trace"),
    ];
    for (op, expected) in cases {
        match event_cache_write(&event("01A", "w", op, vec![member("id", JsonScalar::Int(1))])).unwrap() {
            CacheWrite::Insert { table, .. } => assert_eq!(table, expected),
            _ => panic!("{op} should insert"),
        }
    }
    match event_cache_write(&event("01A", "w", "tool.register", vec![member("name", text("t"))])).unwrap() {
        CacheWrite::Insert { columns, .. } => {
            assert_eq!(column(&columns, "provider"), &SqlValue::Text("custom".to_owned()));
            assert_eq!(column(&columns, "since"), &SqlValue::Text("registered".to_owned()));
            assert_eq!(column(&columns, "status"), &SqlValue::Text("unknown".to_owned()));
        }
        _ => panic!("expected an insert"),
    }
}

#[test]
fn updates_and_removals() {
    match event_cache_write(&event("01A", "w", "backlog.close", vec![member("id", JsonScalar::Int(4)), member("status", text("implemented"))])).unwrap() {
        CacheWrite::Update { table, columns, key_column, key } => {
            assert_eq!(table, "backlog");
            assert_eq!(key_column, "id");
            assert_eq!(key, SqlValue::Text("4".to_owned()));
            assert_eq!(column(&columns, "implemented_at"), &SqlValue::Text("2026-07-02 08:00:00".to_owned()));
            assert_eq!(column(&columns, "actual_outcome"), &SqlValue::Null);
        }
        _ => panic!("expected an update"),
    }
    match event_cache_write(&event("01A", "w", "tool.remove", vec![member("name", text("t"))])).unwrap() {
        CacheWrite::Delete { table, key_column, key } => {
            assert_eq!((table.as_str(), key_column.as_str()), ("tool", "name"));
            assert_eq!(key, SqlValue::Text("t".to_owned()));
        }
        _ => panic!("expected a delete"),
    }
    match event_cache_write(&event("01A", "w", "decision.update", vec![member("id", text("0001")), member("status", text("superseded")), member("notes", text("moved"))])).unwrap() {
        CacheWrite::Update { columns, key, .. } => {
            assert_eq!(key, SqlValue::Text("0001".to_owned()));
            assert_eq!(columns.len(), 2);
            assert_eq!(columns[0].0, "status");
            assert_eq!(columns[1].0, "notes");
        }
        _ => panic!("expected an update"),
    }
    assert!(matches!(
        event_cache_write(&event("01A", "w", "decision.update", vec![member("id", text("0001"))])).unwrap(),
        CacheWrite::Nothing
    ));
}

#[test]
fn story_update_lists_fields_present() {
    let update = event(
        "01A",
        "w",
        "story.update",
        vec![
            member("id", text("US-1")),
            member("unit_proof", JsonScalar::Int(1)),
            member("status", text("implemented")),
            member("evidence", JsonScalar::Null),
        ],
    );
    match event_cache_write(&update).unwrap() {
        CacheWrite::StoryFields { story_id, fields } => {
            assert_eq!(story_id, "US-1");
            let names: Vec<&str> = fields.iter().map(|(name, _)| name.as_str()).collect();
            // `evidence` is null: it is left alone, stamp and value.
            assert_eq!(names, vec!["status", "unit_proof"]);
            assert_eq!(fields[0].1, SqlValue::Text("implemented".to_owned()));
            assert_eq!(fields[1].1, SqlValue::Integer(1));
        }
        _ => panic!("expected story fields"),
    }
    assert!(matches!(
        event_cache_write(&event("01A", "w", "story.update", Vec::new())).unwrap(),
        CacheWrite::Nothing
    ));
}

#[test]
fn unknown_ops_are_refused() {
    match event_cache_write(&event("01Z", "w", "story.teleport", Vec::new())) {
        Err(HarnessInfraError::CorruptEventLog(id, message)) => {
            assert_eq!(id, "01Z");
            assert_eq!(message, "unknown op 'story.teleport'");
        }
        _ => panic!("expected a refusal"),
    }
}

#[test]
fn cutover_causal_audit_flags_concurrent_updates_and_lww_guard_holds() {
    // This writer added US-1 (its event 1) and set its status (event 2).
    let mut status = "in_progress".to_owned();
    let mut last = Some(FieldStamp {
        event_id: "01J0000000000000000000000B".to_owned(),
        writer: "me".to_owned(),
        writer_seq: 2,
    });
    let mut audits = Vec::new();

    // A teammate set the same field without having seen this writer's
    // update, with a later event id: the teammate wins and the pair is audited.
    let mut teammate = event(
        "7ZZZZZZZZZZZZZZZZZZZZZZZZ1",
        "teammate1",
        "story.update",
        vec![member("id", text("US-1")), member("status", text("changed"))],
    );
    teammate.writer_seq = 1;
    let decision = lww_decide(&last, &teammate);
    assert!(decision.apply);
    if decision.apply {
        status = "changed".to_owned();
        last = Some(FieldStamp {
            event_id: teammate.event_id.clone(),
            writer: teammate.writer.clone(),
            writer_seq: teammate.writer_seq,
        });
    }
    audits.extend(decision.audit);
    assert_eq!(status, "changed");
    assert_eq!(audits.len(), 1);
    assert_eq!(audits[0].loser_event_id, "01J0000000000000000000000B");
    assert_eq!(audits[0].winner_event_id, "7ZZZZZZZZZZZZZZZZZZZZZZZZ1");

    // A late-arriving older concurrent update does not overwrite the field,
    // but is audited as the loser.
    let mut older = event(
        "0000000000000000000000000A",
        "teammate2",
        "story.update",
        vec![member("id", text("US-1")), member("status", text("retired"))],
    );
    older.writer_seq = 1;
    let decision = lww_decide(&last, &older);
    assert!(!decision.apply, "older event must not win");
    audits.extend(decision.audit);
    assert_eq!(status, "changed");
    assert_eq!(audits.len(), 2);
    assert_eq!(audits[1].loser_event_id, "0000000000000000000000000A");
    assert_eq!(audits[1].loser_writer, "teammate2");
    assert_eq!(audits[1].winner_event_id, "7ZZZZZZZZZZZZZZZZZZZZZZZZ1");
    assert_eq!(audits[1].winner_writer, "teammate1");
}

#[test]
fn cutover_observed_sequential_updates_are_not_audited() {
    let last = Some(FieldStamp {
        event_id: "01J0000000000000000000000B".to_owned(),
        writer: "me".to_owned(),
        writer_seq: 2,
    });
    // The teammate had consumed this writer's file before editing.
    let mut later = event(
        "7ZZZZZZZZZZZZZZZZZZZZZZZZ2",
        "teammate1",
        "story.update",
        vec![member("id", text("US-1")), member("status", text("implemented"))],
    );
    later.observed = vec![member("me", JsonScalar::Int(100))];
    let decision = lww_decide(&last, &later);
    assert!(decision.apply);
    assert!(decision.audit.is_none());
    let same_writer = event("7ZZZZZZZZZZZZZZZZZZZZZZZZ3", "me", "story.update", Vec::new());
    let decision = lww_decide(&last, &same_writer);
    assert!(decision.apply && decision.audit.is_none());
    let decision = lww_decide(&None, &same_writer);
    assert!(decision.apply && decision.audit.is_none());
}

#[test]
fn events_sort_by_id_then_writer() {
    let events = vec![
        event("02", "b", "x", Vec::new()),
        event("01", "z", "x", Vec::new()),
        event("02", "a", "x", Vec::new()),
        event("01", "a", "x", Vec::new()),
    ];
    let sorted = sort_events(events);
    let keys: Vec<(String, String)> = sorted.iter().map(|e| (e.event_id.clone(), e.writer.clone())).collect();
    assert_eq!(
        keys,
        vec![
            ("01".to_owned(), "a".to_owned()),
            ("01".to_owned(), "z".to_owned()),
            ("02".to_owned(), "a".to_owned()),
            ("02".to_owned(), "b".to_owned()),
        ]
    );
}

#[test]
fn objects_serialize_in_key_order() {
    let observed = observed_object(&vec![("b.jsonl".to_owned(), 3), ("a.jsonl".to_owned(), 5), ("b.jsonl".to_owned(), 4)]);
    assert_eq!(json_object_text(&observed), "{\"a\":5,\"b\":4}");
    assert!(require_event_backed(Some("true".to_owned())).is_ok());
    assert!(matches!(require_event_backed(Some("false".to_owned())), Err(HarnessInfraError::NotEventBacked)));
    assert!(matches!(require_event_backed(None), Err(HarnessInfraError::NotEventBacked)));
}

#[test]
fn appends_carry_position_and_causal_snapshot() {
    let (appended, line) = prepare_append(
        "01A".to_owned(),
        "w".to_owned(),
        "2026-07-02T08:00:00Z".to_owned(),
        "story.add".to_owned(),
        vec![member("id", text("US-1")), member("title", text("say \"hi\""))],
        &vec![("w.jsonl".to_owned(), 2)],
        &None,
    );
    assert_eq!(appended.writer_seq, 1);
    assert_eq!(
        line,
        "{\"event_id\":\"01A\",\"observed\":{\"w\":2},\"op\":\"story.add\",\"payload\":{\"id\":\"US-1\",\"title\":\"say \\\"hi\\\"\"},\"recorded_at\":\"2026-07-02T08:00:00Z\",\"schema\":1,\"writer\":\"w\"}"
    );
}

/// Applies the story-field writes of `events`, in this order, to one field
/// the way the cache does: per-field last-writer-wins on the stamp.
fn replay_field(events: &[&LogEvent], field: &str) -> Option<(String, SqlValue)> {
    let mut stamp: Option<FieldStamp> = None;
    let mut value: Option<(String, SqlValue)> = None;
    for e in events {
        if let CacheWrite::StoryFields { fields, .. } = event_cache_write(e).unwrap() {
            for (name, v) in fields {
                if name == field && lww_decide(&stamp, e).apply {
                    stamp = Some(FieldStamp {
                        event_id: e.event_id.clone(),
                        writer: e.writer.clone(),
                        writer_seq: e.writer_seq,
                    });
                    value = Some((e.event_id.clone(), v));
                }
            }
        }
    }
    value
}

#[test]
fn story_updates_converge_whatever_the_arrival_order() {
    let earlier = event(
        "01A",
        "w1",
        "story.update",
        vec![member("id", text("US-1")), member("status", text("x"))],
    );
    let later_null = event(
        "01B",
        "w2",
        "story.update",
        vec![member("id", text("US-1")), member("status", JsonScalar::Null), member("evidence", text("e"))],
    );
    let latest = event(
        "01C",
        "w1",
        "story.update",
        vec![member("id", text("US-1")), member("evidence", text("f"))],
    );
    let orders: Vec<Vec<&LogEvent>> = vec![
        vec![&earlier, &later_null, &latest],
        vec![&later_null, &earlier, &latest],
        vec![&latest, &later_null, &earlier],
        vec![&latest, &earlier, &later_null],
    ];
    for order in &orders {
        assert_eq!(replay_field(order, "status"), Some(("01A".to_owned(), SqlValue::Text("x".to_owned()))));
        assert_eq!(replay_field(order, "evidence"), Some(("01C".to_owned(), SqlValue::Text("f".to_owned()))));
        assert_eq!(replay_field(order, "unit_proof"), None);
    }
}
