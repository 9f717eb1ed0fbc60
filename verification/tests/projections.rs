use harness_cli::cache::SqlValue;
use harness_cli::diagrams::{decision_verify_command, story_verify_command};
use harness_cli::error::HarnessInfraError;
use harness_cli::events::{
    disambiguator_suffix, gitdir_target, is_writer_identity, resolve_writer, writer_from_email, writer_override,
};
use harness_cli::genesis::{genesis_event, genesis_tables, synthesize_genesis, GenesisTable};
use harness_cli::replay::JsonScalar;
use harness_cli::tools::{
    command_probe, escape_json, http_endpoint, json_object_value, parse_stored_tool_args, scan_probe, scan_target_path,
    scan_tool_status, sql_value_to_string, tool_args_json, CommandProbe, ScanProbe, ToolArgSpec,
};
use harness_cli::views::{
    backlog_view, decision_index, matrix_view, regenerates_views, view_needs_write, BacklogViewRow, DecisionViewRow,
    MatrixViewRow,
};
use harness_cli::{fnv1a64, genesis_ulid, sanitize_writer, EventLog};

const MARKER: &str = "<!-- generated by harness-cli \u{2014} do not hand-edit -->";

#[test]
fn cutover_generated_views_are_stable_projections_of_the_cache() {
    let stories = vec![MatrixViewRow {
        id: "US-1".to_owned(),
        contract: "shadow story".to_owned(),
        unit_proof: 1,
        integration_proof: 0,
        e2e_proof: 0,
        platform_proof: 1,
        status: "implemented".to_owned(),
        evidence: "ran | checked\nby hand".to_owned(),
    }];
    let matrix = matrix_view(&stories);
    assert!(matrix.starts_with("<!-- generated by harness-cli"));
    assert!(matrix.starts_with(MARKER));
    assert!(matrix.contains("| US-1 |"));
    assert!(matrix.contains("| implemented |"));
    assert!(matrix.ends_with("| US-1 | shadow story | yes | no | no | yes | implemented | ran \\| checked by hand |\n"));

    let backlog = backlog_view(&vec![BacklogViewRow {
        id: "01B".to_owned(),
        title: "shadow backlog".to_owned(),
        risk: "tiny".to_owned(),
        status: "implemented".to_owned(),
        predicted_impact: "faster".to_owned(),
        actual_outcome: String::new(),
    }]);
    assert!(backlog.starts_with(MARKER));
    assert!(backlog.contains("shadow backlog"));
    assert!(backlog.contains("| implemented |"));
    assert!(backlog.ends_with("| 01B | shadow backlog | tiny | implemented | faster |  |\n"));

    let index = decision_index(&vec![DecisionViewRow {
        id: "0001".to_owned(),
        title: "shadow decision".to_owned(),
        status: "accepted".to_owned(),
        doc_path: String::new(),
    }]);
    assert!(index.starts_with(MARKER));
    assert!(index.contains("| 0001 | shadow decision | accepted |"));

    // A projection: the same rows give byte-identical views.
    assert_eq!(matrix_view(&stories), matrix);
    let empty = matrix_view(&Vec::new());
    assert!(empty.ends_with("| --- | --- | --- | --- | --- | --- | --- | --- |\n"));
}

#[test]
fn view_changing_ops() {
    for op in ["story.add", "story.update", "backlog.close", "decision.verify_result"] {
        assert!(regenerates_views(&op.to_owned()));
    }
    for op in ["intake.record", "trace.record", "tool.register", "signal.add"] {
        assert!(!regenerates_views(&op.to_owned()));
    }
}

#[test]
fn tool_check_scans_and_persists_status_per_kind() {
    let missing = scan_probe(&"mcp".to_owned(), &Some("/tmp/mcp-missing".to_owned()));
    assert!(matches!(&missing, ScanProbe::Target(t) if t == "/tmp/mcp-missing"));
    assert_eq!(
        scan_tool_status(&missing, "mcp:example-server", false),
        ("missing".to_owned(), "/tmp/mcp-missing".to_owned())
    );
    let present = scan_probe(&"skill".to_owned(), &Some("  /tmp/skill-present ".to_owned()));
    assert_eq!(
        scan_tool_status(&present, "skill:example-skill", true),
        ("present".to_owned(), "/tmp/skill-present".to_owned())
    );
    let command = scan_probe(&"cli".to_owned(), &None);
    assert!(matches!(command, ScanProbe::Command));
    assert_eq!(scan_tool_status(&command, "./deploy.sh", true), ("present".to_owned(), "./deploy.sh".to_owned()));
    let untargeted = scan_probe(&"skill".to_owned(), &Some("   ".to_owned()));
    assert_eq!(
        scan_tool_status(&untargeted, "skill:x", true),
        ("unknown".to_owned(), "no scan target; agent confirms availability".to_owned())
    );
    let http = scan_probe(&"http".to_owned(), &None);
    assert_eq!(scan_tool_status(&http, "x", false), ("unknown".to_owned(), "no scan target".to_owned()));
    assert!(matches!(scan_probe(&"http".to_owned(), &Some("localhost:1".to_owned())), ScanProbe::HttpOrTarget(_)));
    assert!(matches!(scan_probe(&"other".to_owned(), &None), ScanProbe::Unknown(d) if d.is_empty()));

    assert_eq!(scan_target_path("/repo", "~/skills/x", Some("/home/me")), "/home/me/skills/x");
    assert_eq!(scan_target_path("/repo", "skills/x", Some("/home/me")), "/repo/skills/x");
    assert_eq!(scan_target_path("/repo", "/abs/x", None), "/abs/x");
}

#[test]
fn commands_are_probed_by_path_or_search() {
    assert!(matches!(command_probe("/repo", ""), CommandProbe::Unavailable));
    // A blank command has no first word and is looked up as it stands.
    assert!(matches!(command_probe("/repo", "   "), CommandProbe::Search(n) if n == "   "));
    assert!(matches!(command_probe("/repo", "./deploy.sh --now"), CommandProbe::Path(p) if p == "/repo/./deploy.sh"));
    assert!(matches!(command_probe("/repo", "/usr/bin/env x"), CommandProbe::Path(p) if p == "/usr/bin/env"));
    assert!(matches!(command_probe("/repo", "cargo test"), CommandProbe::Search(n) if n == "cargo"));
}

#[test]
fn tool_args_round_trip_through_stored_json() {
    let args = vec![
        ToolArgSpec { name: "path".to_owned(), arg_type: "string".to_owned(), required: true, help: Some("a file".to_owned()) },
        ToolArgSpec { name: "depth".to_owned(), arg_type: "int".to_owned(), required: false, help: None },
    ];
    let json = tool_args_json(&args).expect("non-empty");
    assert_eq!(
        json,
        "[{\"name\":\"path\",\"type\":\"string\",\"required\":true,\"help\":\"a file\"},{\"name\":\"depth\",\"type\":\"int\",\"required\":false,\"help\":\"\"}]"
    );
    assert!(tool_args_json(&Vec::new()).is_none());
    let parsed = parse_stored_tool_args(Some(&json));
    assert_eq!(parsed.len(), 2);
    assert_eq!(parsed[0].name, "path");
    assert_eq!(parsed[0].arg_type, "string");
    assert!(parsed[0].required);
    assert_eq!(parsed[0].help.as_deref(), Some("a file"));
    assert_eq!(parsed[1].name, "depth");
    assert!(!parsed[1].required);
    assert!(parsed[1].help.is_none());
    assert!(parse_stored_tool_args(None).is_empty());
    assert_eq!(escape_json("a\\b\"c"), "a\\\\b\\\"c");
    assert_eq!(json_object_value("{\"name\":\"x\",\"type\":\"y\"}", "type").as_deref(), Some("y"));
}

#[test]
fn sql_values_print_as_text() {
    assert_eq!(sql_value_to_string(&SqlValue::Null), "");
    assert_eq!(sql_value_to_string(&SqlValue::Integer(-42)), "-42");
    assert_eq!(sql_value_to_string(&SqlValue::Real("1.5".to_owned())), "1.5");
    assert_eq!(sql_value_to_string(&SqlValue::Text("hi".to_owned())), "hi");
    assert_eq!(sql_value_to_string(&SqlValue::Blob(vec![1, 2, 3])), "<3 bytes>");
}

#[test]
fn story_verify_records_pass_fail_and_missing_command() {
    assert_eq!(story_verify_command("US-PASS", Some("exit 0".to_owned())), Ok("exit 0".to_owned()));
    assert_eq!(
        story_verify_command("US-MISSING", None),
        Err(HarnessInfraError::MissingStoryVerifyCommand("US-MISSING".to_owned()))
    );
    assert_eq!(
        story_verify_command("US-BLANK", Some(String::new())),
        Err(HarnessInfraError::MissingStoryVerifyCommand("US-BLANK".to_owned()))
    );
}

#[test]
fn decision_verify_runs_from_repo_root() {
    assert_eq!(
        decision_verify_command("0001-test", Some("pwd > verify-pwd.txt".to_owned())),
        Ok("pwd > verify-pwd.txt".to_owned())
    );
    assert!(decision_verify_command("0001-test", None).is_err());
}

fn story_row() -> (Vec<String>, Vec<SqlValue>) {
    (
        vec!["id".to_owned(), "title".to_owned(), "created_at".to_owned(), "unit_proof".to_owned()],
        vec![
            SqlValue::Text("US-1".to_owned()),
            SqlValue::Text("shadow story".to_owned()),
            SqlValue::Text("2026-06-01 00:00:00".to_owned()),
            SqlValue::Integer(1),
        ],
    )
}

#[test]
fn cutover_genesis_generation_is_deterministic() {
    let (columns, values) = story_row();
    let first = genesis_event("story", "story.add", &columns, &values).unwrap();
    let second = genesis_event("story", "story.add", &columns, &values).unwrap();
    let render = |e: &harness_cli::replay::LogEvent| format!("{}|{}|{}|{}|{:?}", e.event_id, e.writer, e.recorded_at, e.op, e.payload);
    assert_eq!(render(&first), render(&second));
    assert_eq!(first.writer, "migration");
    assert_eq!(first.recorded_at, "2026-06-01T00:00:00Z");
    assert_eq!(first.op, "story.add");
    assert_eq!(first.event_id, genesis_ulid(1_780_272_000_000, "story", "US-1"));
    assert_eq!(
        first.payload,
        vec![
            ("id".to_owned(), JsonScalar::Text("US-1".to_owned())),
            ("title".to_owned(), JsonScalar::Text("shadow story".to_owned())),
            ("unit_proof".to_owned(), JsonScalar::Int(1)),
        ]
    );
    assert!(first.observed.is_empty());
    assert_eq!(genesis_tables().len(), 8);
    assert_eq!(genesis_tables()[0], ("intake".to_owned(), "intake.record".to_owned()));
}

#[test]
fn genesis_refuses_rows_it_cannot_date() {
    let (columns, mut values) = story_row();
    values[2] = SqlValue::Text("yesterday".to_owned());
    match genesis_event("story", "story.add", &columns, &values) {
        Err(HarnessInfraError::MigrationVerifyFailed(m)) => {
            assert_eq!(m, "story row US-1: unparseable created_at 'yesterday'")
        }
        _ => panic!("expected a refusal"),
    }
    values[2] = SqlValue::Null;
    assert!(genesis_event("story", "story.add", &columns, &values).is_err());
    let keyless = vec!["title".to_owned()];
    assert!(genesis_event("story", "story.add", &keyless, &vec![SqlValue::Text("t".to_owned())]).is_err());
}

#[test]
fn harness_writer_override_wins_and_is_sanitized() {
    assert_eq!(writer_override("agent/one!x"), Some("agentonex".to_owned()));
    assert_eq!(writer_override("!!!"), None);
    assert_eq!(sanitize_writer("Dev_1.A-b"), "Dev_1A-b");
    assert_eq!(sanitize_writer(&"x".repeat(70)).len(), 64);
    for raw in ["agent/one!x", "Dev_1.A-b", "", "\u{e9}t\u{e9}-2"] {
        let once = sanitize_writer(raw);
        assert_eq!(sanitize_writer(&once), once);
    }
}

#[test]
fn writers_come_from_git_email_or_fallback() {
    let expected = format!("{:08x}", fnv1a64(b"jane.doe@example.com") >> 32);
    assert_eq!(writer_from_email(Some(" Jane.Doe@example.com\n"), None), expected);
    assert_eq!(writer_from_email(Some("Jane.Doe@example.com"), Some("ab12")), format!("{expected}-ab12"));
    let fallback = format!("{:08x}", fnv1a64(b"unknown@local") >> 32);
    assert_eq!(writer_from_email(None, None), fallback);
    assert_eq!(disambiguator_suffix(0, 0), "0000");
    assert_eq!(disambiguator_suffix(0xFFFF_0001, 0x0001), "0000");
    assert_eq!(gitdir_target("gitdir: ../.git/worktrees/x\n"), Some("../.git/worktrees/x".to_owned()));
    assert_eq!(gitdir_target("ref: x"), None);
}

#[test]
fn emit_appends_parseable_event_line() {
    let line = EventLog::event_line(
        "01ARZ3NDEKTSV4RRFFQ69G5FAV",
        "testwriter",
        "2026-07-02T08:00:00Z",
        "story.add",
        "{\"id\":\"US-1\",\"title\":\"t\"}",
        Some("{\"testwriter\":1}"),
    );
    assert_eq!(
        line,
        "{\"event_id\":\"01ARZ3NDEKTSV4RRFFQ69G5FAV\",\"observed\":{\"testwriter\":1},\"op\":\"story.add\",\"payload\":{\"id\":\"US-1\",\"title\":\"t\"},\"recorded_at\":\"2026-07-02T08:00:00Z\",\"schema\":1,\"writer\":\"testwriter\"}"
    );
    let value: serde_json::Value = serde_json::from_str(&line).unwrap();
    assert_eq!(value["op"], "story.add");
    assert_eq!(value["writer"], "testwriter");
    assert_eq!(value["schema"], 1);
    assert_eq!(value["payload"]["id"], "US-1");
    assert_eq!(value["event_id"].as_str().unwrap().len(), 26);
    assert!(value["recorded_at"].as_str().unwrap().ends_with('Z'));
    let genesis = EventLog::event_line("a\"b", "w", "t", "o", "{}", None);
    assert_eq!(genesis, "{\"event_id\":\"a\\\"b\",\"op\":\"o\",\"payload\":{},\"recorded_at\":\"t\",\"schema\":1,\"writer\":\"w\"}");
}

#[test]
fn http_targets_name_host_and_port() {
    assert_eq!(http_endpoint("https://example.com/health"), Some(("example.com".to_owned(), 443)));
    assert_eq!(http_endpoint("http://localhost:8080/x"), Some(("localhost".to_owned(), 8080)));
    assert_eq!(http_endpoint("http://localhost:notaport"), Some(("localhost".to_owned(), 80)));
    assert_eq!(http_endpoint("http://h:70000"), Some(("h".to_owned(), 80)));
    assert_eq!(http_endpoint("http://h:+81"), Some(("h".to_owned(), 81)));
    assert_eq!(http_endpoint("http://h:-1"), Some(("h".to_owned(), 80)));
    assert_eq!(http_endpoint("http:///path"), None);
    assert_eq!(http_endpoint("ftp://example.com"), None);
    assert_eq!(http_endpoint("localhost:1"), None);
}

#[test]
fn resolved_writer_prefers_override_and_is_always_a_file_name() {
    let hashed = format!("{:08x}", fnv1a64(b"jane.doe@example.com") >> 32);
    assert_eq!(resolve_writer(Some("agent/one!x"), Some("jane.doe@example.com"), Some("ab12")), "agentonex");
    assert_eq!(resolve_writer(Some("!!!"), Some("jane.doe@example.com"), Some("ab12")), format!("{hashed}-ab12"));
    assert_eq!(resolve_writer(None, Some("jane.doe@example.com"), None), hashed);
    let fallback = format!("{:08x}", fnv1a64(b"unknown@local") >> 32);
    assert_eq!(resolve_writer(Some(""), None, None), fallback);
    for writer in [
        resolve_writer(Some("../../etc/x"), None, None),
        resolve_writer(Some("/"), None, Some("ab12")),
        resolve_writer(None, None, Some(&disambiguator_suffix(7, 9))),
    ] {
        assert!(is_writer_identity(&writer));
        assert!(!writer.contains('/'));
    }
    assert!(is_writer_identity("a-b_C9"));
    assert!(!is_writer_identity(""));
    assert!(!is_writer_identity("a/b"));
    assert!(!is_writer_identity("\u{e9}"));
}

#[test]
fn event_lines_hold_no_raw_line_feed() {
    let line = EventLog::event_line(
        "01ARZ3NDEKTSV4RRFFQ69G5FAV",
        "w\nx",
        "2026-07-02T08:00:00Z",
        "story.\r\nadd",
        "{\"title\":\"two\\nlines\"}",
        Some("{\"w\":1}"),
    );
    assert!(!line.contains('\n'));
    assert!(line.contains("\"writer\":\"w\\nx\""));
    assert!(line.contains("\"op\":\"story.\\r\\nadd\""));
}

#[test]
fn genesis_makes_one_sorted_event_per_row() {
    let (columns, first) = story_row();
    let mut second = first.clone();
    second[0] = SqlValue::Text("US-2".to_owned());
    second[2] = SqlValue::Text("2026-05-01 00:00:00".to_owned());
    let intake_columns = vec!["id".to_owned(), "created_at".to_owned()];
    let intake_row = vec![SqlValue::Integer(7), SqlValue::Text("2026-07-01 00:00:00".to_owned())];
    let tables = vec![
        GenesisTable {
            table: "intake".to_owned(),
            op: "intake.record".to_owned(),
            columns: intake_columns,
            rows: vec![intake_row],
        },
        GenesisTable {
            table: "story".to_owned(),
            op: "story.add".to_owned(),
            columns: columns.clone(),
            rows: vec![first.clone(), second.clone()],
        },
    ];
    let events = synthesize_genesis(&tables).unwrap();
    assert_eq!(events.len(), 3);
    for pair in events.windows(2) {
        assert!(pair[0].event_id < pair[1].event_id);
    }
    assert_eq!(events[0].event_id, genesis_event("story", "story.add", &columns, &second).unwrap().event_id);
    assert_eq!(events[2].op, "intake.record");
    assert!(events.iter().all(|e| e.writer == "migration" && e.observed.is_empty()));
    let again = synthesize_genesis(&tables).unwrap();
    assert!(events.iter().zip(again.iter()).all(|(a, b)| a.event_id == b.event_id && a.payload == b.payload));

    let mut undated = second.clone();
    undated[2] = SqlValue::Null;
    let refused = vec![GenesisTable {
        table: "story".to_owned(),
        op: "story.add".to_owned(),
        columns,
        rows: vec![first, undated],
    }];
    match synthesize_genesis(&refused) {
        Err(HarnessInfraError::MigrationVerifyFailed(m)) => assert!(m.contains("US-2"), "{m}"),
        _ => panic!("an undated row refuses genesis"),
    }
}

#[test]
fn regenerating_views_twice_writes_nothing_the_second_time() {
    let rows = vec![BacklogViewRow {
        id: "01B".to_owned(),
        title: "shadow backlog".to_owned(),
        risk: "tiny".to_owned(),
        status: "proposed".to_owned(),
        predicted_impact: "faster".to_owned(),
        actual_outcome: String::new(),
    }];
    let first = backlog_view(&rows);
    assert!(view_needs_write(None, &first));
    assert!(view_needs_write(Some("stale".to_owned()), &first));
    let second = backlog_view(&rows);
    assert!(!view_needs_write(Some(first.clone()), &second));
    assert!(second.starts_with("<!-- generated by harness-cli"));
}
