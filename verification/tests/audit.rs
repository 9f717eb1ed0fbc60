use harness_cli::audit::{
    confidence_for_count, improvement_proposals, proposal_backlog_payload, repeated_story_signals,
    repeated_values, short_title, tool_broken, tool_needs_command_probe, AuditFinding, AuditResult,
    ImprovementProposal,
};
use harness_cli::replay::{json_object_text, JsonScalar};

fn finding(id: &str, title: &str) -> AuditFinding {
    AuditFinding { id: id.to_owned(), title: title.to_owned() }
}

fn clean_audit() -> AuditResult {
    AuditResult {
        orphaned_stories: Vec::new(),
        unverified_stories: Vec::new(),
        unverified_decisions: Vec::new(),
        backlog_without_outcomes: Vec::new(),
        stale_stories: Vec::new(),
        broken_tools: Vec::new(),
        concurrent_lww_updates: Vec::new(),
    }
}

fn signal(story: &str, summary: &str) -> (String, String, String) {
    ("deviation".to_owned(), summary.to_owned(), story.to_owned())
}

fn proposals_for_signals(rows: &Vec<(String, String, String)>) -> Vec<ImprovementProposal> {
    let signals = repeated_story_signals(rows);
    improvement_proposals(&Vec::new(), &Vec::new(), &signals, &clean_audit())
}

#[test]
fn short_titles_keep_eight_words_and_cut_long_text() {
    assert_eq!(short_title("Context rules missed schema decision"), "Context rules missed schema decision");
    assert_eq!(short_title("  a   b\tc d e f g h i j  "), "a b c d e f g h");
    let long = "abcdefghij ".repeat(8);
    let title = short_title(&long);
    assert!(title.ends_with("..."));
    assert_eq!(title.len(), 72);
    assert_eq!(short_title(""), "");
}

#[test]
fn confidence_grows_with_recurrence() {
    assert_eq!(confidence_for_count(2), "medium");
    assert_eq!(confidence_for_count(3), "high");
    assert_eq!(confidence_for_count(9), "high");
}

#[test]
fn repeated_values_group_by_normalized_token() {
    let values = vec![
        "Context rules missed schema decision".to_owned(),
        "one-off".to_owned(),
        "context rules missed schema decision".to_owned(),
        "Context rules missed schema decision".to_owned(),
    ];
    assert_eq!(
        repeated_values(&values),
        vec![("Context rules missed schema decision".to_owned(), 3)]
    );
    assert!(repeated_values(&vec!["a".to_owned(), "b".to_owned()]).is_empty());
}

#[test]
fn propose_ignores_duplicate_signals_on_one_story() {
    let mut rows = vec![signal("US-1", "spec silent on empty name"), signal("US-1", "spec silent on empty name")];
    // Same story twice is noise, not recurrence.
    assert!(!proposals_for_signals(&rows)
        .iter()
        .any(|proposal| proposal.title.starts_with("Recurring deviation")));
    rows.push(signal("US-2", "spec silent on empty name"));
    // A second distinct story crosses the threshold.
    assert!(proposals_for_signals(&rows)
        .iter()
        .any(|proposal| proposal.title.starts_with("Recurring deviation")));
}

#[test]
fn propose_mines_recurring_story_signals_only_when_they_repeat() {
    let mut rows = vec![signal("", "plan omitted the migration step")];
    assert!(!proposals_for_signals(&rows)
        .iter()
        .any(|proposal| proposal.title.starts_with("Recurring deviation")));
    rows.push(signal("", "plan omitted the migration step"));
    let proposals = proposals_for_signals(&rows);
    let recurring = proposals
        .iter()
        .find(|proposal| proposal.title.starts_with("Recurring deviation"))
        .expect("recurring story signal should yield a proposal");
    assert_eq!(recurring.title, "Recurring deviation signal: plan omitted the migration step");
    assert_eq!(recurring.component, "Task specification");
    assert!(recurring.evidence.contains("2 stories"));
    assert_eq!(recurring.confidence, "medium");
    assert!(recurring.committed_backlog_id.is_none());
}

#[test]
fn audit_detects_drift_and_propose_can_commit_backlog_items() {
    // A registered cli tool whose command is not found is broken; scanned
    // kinds only once a scan found them missing.
    assert!(tool_needs_command_probe(&"cli".to_owned()));
    assert!(tool_broken(&"cli".to_owned(), &"unknown".to_owned(), false));
    assert!(!tool_broken(&"cli".to_owned(), &"unknown".to_owned(), true));
    assert!(!tool_needs_command_probe(&"mcp".to_owned()));
    assert!(!tool_broken(&"mcp".to_owned(), &"unknown".to_owned(), false));
    assert!(tool_broken(&"skill".to_owned(), &"missing".to_owned(), true));

    let mut audit = clean_audit();
    audit.orphaned_stories.push(finding("US-AUDIT", "Audit story"));
    audit.unverified_stories.push(finding("US-AUDIT", "Audit story"));
    audit.backlog_without_outcomes.push(finding("01B", "Implemented without outcome"));
    audit.broken_tools.push(finding("missing-tool", "definitely-missing-tool"));

    let friction = repeated_values(&vec![
        "Context rules missed schema decision".to_owned(),
        "Context rules missed schema decision".to_owned(),
    ]);
    let proposals = improvement_proposals(&friction, &Vec::new(), &Vec::new(), &audit);
    assert!(proposals
        .iter()
        .any(|proposal| proposal.evidence.contains("Context rules missed schema decision")));
    let titles: Vec<&str> = proposals.iter().map(|p| p.title.as_str()).collect();
    assert_eq!(
        titles,
        vec![
            "Reduce repeated friction: Context rules missed schema decision",
            "Clean up orphaned planned or in-progress stories",
            "Clean up unverified story commands",
            "Clean up implemented backlog items without outcomes",
            "Clean up broken registered tools",
        ]
    );
    assert_eq!(proposals[0].evidence, "2 traces recorded similar friction: Context rules missed schema decision");
    assert_eq!(proposals[1].evidence, "Audit found 1 orphaned planned or in-progress stories.");
    assert_eq!(proposals[1].risk, "tiny");

    // Committing a proposal writes a backlog.add payload with sorted keys.
    let payload = proposal_backlog_payload(&proposals[0], "01JBACKLOG");
    let keys: Vec<&str> = payload.iter().map(|(k, _)| k.as_str()).collect();
    assert_eq!(
        keys,
        vec![
            "current_pain",
            "discovered_while",
            "id",
            "notes",
            "predicted_impact",
            "risk",
            "suggested_improvement",
            "title",
        ]
    );
    assert_eq!(payload[2].1, JsonScalar::Text("01JBACKLOG".to_owned()));
    assert_eq!(payload[1].1, JsonScalar::Text("harness-cli propose".to_owned()));
    match &payload[3].1 {
        JsonScalar::Text(notes) => assert_eq!(
            notes,
            "component: Failure attribution; confidence: medium; validation: Review the next five related traces and compare friction frequency."
        ),
        _ => panic!("notes are text"),
    }
    let json = json_object_text(&payload);
    assert!(json.starts_with("{\"current_pain\":\"2 traces recorded similar friction"));
}
