use harness_cli::error::HarnessInfraError;
use harness_cli::mutations::{
    backlog_add_payload, backlog_close_payload, csv_json_text, intake_payload, trace_payload,
    IntakeInput, TraceInput, decision_add_payload, decision_update_payload,
    intervention_payload, signal_payload, story_add_payload, story_update_payload, tool_remove_payload,
    verify_result_payload, BacklogAddInput, BacklogCloseInput, DecisionAddInput, DecisionUpdateInput,
    InterventionAddInput, StoryAddInput, StorySignalAddInput, StoryUpdateInput,
};
use harness_cli::replay::{json_object_text, JsonScalar};

fn story_update(id: &str) -> StoryUpdateInput {
    StoryUpdateInput {
        id: id.to_owned(),
        status: None,
        evidence: None,
        unit: None,
        integration: None,
        e2e: None,
        platform: None,
        verify_command: None,
    }
}

#[test]
fn story_update_with_nothing_to_change_is_refused() {
    assert_eq!(story_update_payload(&story_update("US-1")), Err(HarnessInfraError::EmptyStoryUpdate));
}

#[test]
fn story_update_payload_holds_given_fields_in_key_order() {
    let mut input = story_update("US-1");
    input.status = Some("in_progress".to_owned());
    input.unit = Some(1);
    input.e2e = Some(0);
    let payload = story_update_payload(&input).unwrap();
    assert_eq!(
        payload,
        vec![
            ("e2e_proof".to_owned(), JsonScalar::Int(0)),
            ("id".to_owned(), JsonScalar::Text("US-1".to_owned())),
            ("status".to_owned(), JsonScalar::Text("in_progress".to_owned())),
            ("unit_proof".to_owned(), JsonScalar::Int(1)),
        ]
    );
    assert_eq!(
        json_object_text(&payload),
        "{\"e2e_proof\":0,\"id\":\"US-1\",\"status\":\"in_progress\",\"unit_proof\":1}"
    );
    let mut only_command = story_update("US-2");
    only_command.verify_command = Some("exit 0".to_owned());
    assert_eq!(
        json_object_text(&story_update_payload(&only_command).unwrap()),
        "{\"id\":\"US-2\",\"verify_command\":\"exit 0\"}"
    );
}

#[test]
fn decision_update_payload_and_refusal() {
    let mut input = DecisionUpdateInput {
        id: "0001".to_owned(),
        title: None,
        status: None,
        doc_path: None,
        verify_command: None,
        predicted_impact: None,
        notes: None,
    };
    assert_eq!(decision_update_payload(&input), Err(HarnessInfraError::EmptyDecisionUpdate));
    input.title = Some("Renamed".to_owned());
    input.doc_path = Some("docs/decisions/0001.md".to_owned());
    let payload = decision_update_payload(&input).unwrap();
    assert_eq!(
        json_object_text(&payload),
        "{\"doc_path\":\"docs/decisions/0001.md\",\"id\":\"0001\",\"title\":\"Renamed\"}"
    );
}

#[test]
fn verify_results_carry_id_and_result() {
    let payload = verify_result_payload("US-PASS", "pass");
    assert_eq!(json_object_text(&payload), "{\"id\":\"US-PASS\",\"result\":\"pass\"}");
}

#[test]
fn record_payloads_hold_every_field_in_key_order() {
    let story = StoryAddInput {
        id: "US-1".to_owned(),
        title: "shadow story".to_owned(),
        risk_lane: "normal".to_owned(),
        contract_doc: None,
        verify_command: Some("exit 0".to_owned()),
        notes: None,
    };
    assert_eq!(
        json_object_text(&story_add_payload(&story)),
        "{\"contract_doc\":null,\"id\":\"US-1\",\"notes\":null,\"risk_lane\":\"normal\",\"title\":\"shadow story\",\"verify_command\":\"exit 0\"}"
    );
    let decision = DecisionAddInput {
        id: "0001".to_owned(),
        title: "shadow decision".to_owned(),
        status: "accepted".to_owned(),
        doc_path: None,
        verify_command: None,
        predicted_impact: None,
        notes: None,
    };
    assert_eq!(
        json_object_text(&decision_add_payload(&decision)),
        "{\"doc_path\":null,\"id\":\"0001\",\"notes\":null,\"predicted_impact\":null,\"status\":\"accepted\",\"title\":\"shadow decision\",\"verify_command\":null}"
    );
    let backlog = BacklogAddInput {
        title: "shadow backlog".to_owned(),
        discovered_while: None,
        current_pain: Some("slow".to_owned()),
        suggestion: Some("cache".to_owned()),
        risk: Some("tiny".to_owned()),
        predicted_impact: None,
        notes: None,
    };
    assert_eq!(
        json_object_text(&backlog_add_payload(&backlog, &"01B".to_owned())),
        "{\"current_pain\":\"slow\",\"discovered_while\":null,\"id\":\"01B\",\"notes\":null,\"predicted_impact\":null,\"risk\":\"tiny\",\"suggested_improvement\":\"cache\",\"title\":\"shadow backlog\"}"
    );
    let close = BacklogCloseInput { id: "01".to_owned(), status: "implemented".to_owned(), actual_outcome: Some("done".to_owned()) };
    assert_eq!(
        json_object_text(&backlog_close_payload(&close, &"01B".to_owned())),
        "{\"actual_outcome\":\"done\",\"id\":\"01B\",\"status\":\"implemented\"}"
    );
    let intervention = InterventionAddInput {
        trace_id: Some("01T".to_owned()),
        story_id: Some("US-1".to_owned()),
        intervention_type: "correction".to_owned(),
        description: "shadow correction".to_owned(),
        source: "human".to_owned(),
        impact: None,
    };
    assert_eq!(
        json_object_text(&intervention_payload(&intervention, &"01I".to_owned(), &Some("01TRACE".to_owned()))),
        "{\"description\":\"shadow correction\",\"id\":\"01I\",\"impact\":null,\"source\":\"human\",\"story_id\":\"US-1\",\"trace_id\":\"01TRACE\",\"type\":\"correction\"}"
    );
    let signal = StorySignalAddInput {
        story_id: None,
        trace_id: None,
        signal_type: "deviation".to_owned(),
        summary: "spec silent".to_owned(),
        component: None,
        notes: None,
    };
    assert_eq!(
        json_object_text(&signal_payload(&signal, &"01S".to_owned(), &None)),
        "{\"component\":null,\"id\":\"01S\",\"notes\":null,\"story_id\":null,\"summary\":\"spec silent\",\"trace_id\":null,\"type\":\"deviation\"}"
    );
    assert_eq!(json_object_text(&tool_remove_payload("lint")), "{\"name\":\"lint\"}");
}

#[test]
fn comma_lists_become_json_arrays() {
    assert_eq!(csv_json_text("a, b,,c "), Some("[\"a\",\"b\",\"c\"]".to_owned()));
    assert_eq!(csv_json_text("say \"hi\""), Some("[\"say \\\"hi\\\"\"]".to_owned()));
    assert_eq!(csv_json_text(" , ,"), None);
    assert_eq!(csv_json_text(""), None);
}

#[test]
fn intake_and_trace_payloads_hold_every_field_in_key_order() {
    let intake = IntakeInput {
        input_type: "bug".to_owned(),
        summary: "s".to_owned(),
        risk_lane: "tiny".to_owned(),
        risk_flags: csv_json_text("auth"),
        affected_docs: None,
        story_id: Some("US-1".to_owned()),
        notes: None,
    };
    let payload = intake_payload(&intake, &"01I".to_owned());
    assert_eq!(
        json_object_text(&payload),
        "{\"affected_docs\":null,\"id\":\"01I\",\"input_type\":\"bug\",\"notes\":null,\"risk_flags\":[\"auth\"],\"risk_lane\":\"tiny\",\"story_id\":\"US-1\",\"summary\":\"s\"}"
    );
    let trace = TraceInput {
        task_summary: "t".to_owned(),
        story_id: None,
        agent: Some("a".to_owned()),
        actions: None,
        files_read: csv_json_text("x.rs"),
        files_changed: None,
        decisions: None,
        errors: None,
        outcome: Some("ok".to_owned()),
        duration_seconds: Some(5),
        token_estimate: None,
        friction: None,
        notes: None,
    };
    let payload = trace_payload(&trace, &"01T".to_owned(), &Some("01I".to_owned()));
    let names: Vec<&str> = payload.iter().map(|(name, _)| name.as_str()).collect();
    let mut sorted = names.clone();
    sorted.sort();
    assert_eq!(names, sorted);
    assert_eq!(names.len(), 15);
    assert_eq!(payload[3], ("duration_seconds".to_owned(), JsonScalar::Int(5)));
    assert_eq!(payload[6], ("files_read".to_owned(), JsonScalar::Nested("[\"x.rs\"]".to_owned())));
    assert_eq!(payload[9], ("intake_id".to_owned(), JsonScalar::Text("01I".to_owned())));
}
