use harness_cli::diagrams::{
    diagram_entry, diagram_gate, diagram_gate_message, diagram_review, is_diagram_file_name, story_verify_plan,
    StoryVerifyPlan,
};
use harness_cli::imports::{
    brownfield_gate,
    backlog_imports, decision_from_file, guard_unimported_rows, is_decision_document,
    matrix_ids_to_check, matrix_stories,
};
use harness_cli::error::HarnessInfraError;
use harness_cli::markdown::{
    backlog_items, markdown_section_first_value, markdown_table_fields, normalize_token,
    proof_from_cell,
};

const MATRIX: &str = "# Test Matrix

| Story | Contract | Unit | Integration | E2E | Platform | Status | Evidence |
| --- | --- | --- | --- | --- | --- | --- | --- |
| US-010 | docs/product/tasks.md | yes | pending | no | mac smoke | implemented | cargo test |
";

const DECISION: &str = "# Test Decision

## Status

Accepted
";

const BACKLOG: &str = "# Harness Backlog

## Items

### Title

Import existing docs

### Discovered While

Testing brownfield import

### Current Pain

Existing Harness v0 repos have markdown truth.

### Suggested Improvement

Seed the durable database.

### Risk

normal

### Status

accepted

### Title

Keep installer checksum

### Discovered While

Testing release install

### Current Pain

Downloads need verification.

### Suggested Improvement

Verify sha256 files.

### Risk

high-risk

### Status

implemented
";

fn diagram_text(story: &str, status: &str) -> String {
    format!(
        "# D3 Sequence \u{2014} {story}\n\nStory: {story}\nKind: sequence\nSource: hand\nScope: x\nStatus: {status}\nReviewed-by: -\nReviewed-at: -\n\n```mermaid\nsequenceDiagram\n```\n"
    )
}

#[test]
fn brownfield_matrix_row_is_imported() {
    let stories = matrix_stories(MATRIX);
    assert_eq!(stories.len(), 1);
    let story = &stories[0];
    assert_eq!(story.id, "US-010");
    assert_eq!(story.title, "docs/product/tasks.md");
    assert_eq!(story.contract_doc.as_deref(), Some("docs/product/tasks.md"));
    assert_eq!(story.status, "implemented");
    assert_eq!(story.unit_proof, 1);
    assert_eq!(story.integration_proof, 0);
    assert_eq!(story.e2e_proof, 0);
    assert_eq!(story.platform_proof, 1);
    assert_eq!(story.evidence.as_deref(), Some("cargo test"));
}

#[test]
fn matrix_skips_placeholders_and_uses_id_as_title() {
    let content = "| Story | Status |\n| --- | --- |\n| TBD | planned |\n| Example | planned |\n| US-2 | In Progress |\n";
    let stories = matrix_stories(content);
    assert_eq!(stories.len(), 1);
    assert_eq!(stories[0].id, "US-2");
    assert_eq!(stories[0].title, "US-2");
    assert_eq!(stories[0].contract_doc, None);
    assert_eq!(stories[0].status, "in_progress");
    assert_eq!(stories[0].evidence, None);
}

#[test]
fn matrix_without_header_imports_nothing() {
    assert!(matrix_stories("| US-1 | done |\n| US-2 | done |\n").is_empty());
    assert!(matrix_stories("no table here\n").is_empty());
}

#[test]
fn brownfield_decision_is_read_from_its_file() {
    assert!(is_decision_document("0007-test-decision.md"));
    assert!(!is_decision_document("0007-test-decision.txt"));
    assert!(!is_decision_document("README.md"));
    let doc = decision_from_file("0007-test-decision.md", DECISION);
    assert_eq!(doc.id, "0007-test-decision");
    assert_eq!(doc.title, "Test Decision");
    assert_eq!(doc.status, "accepted");
    assert_eq!(doc.doc_path, "docs/decisions/0007-test-decision.md");
}

#[test]
fn decision_title_falls_back_to_stem_and_status_to_accepted() {
    let doc = decision_from_file("0002-no-title.md", "plain text\n");
    assert_eq!(doc.title, "0002-no-title");
    assert_eq!(doc.status, "accepted");
    let superseded = decision_from_file("0003-x.md", "# X\n\n## Status\n\nSuperseded by 0004\n");
    assert_eq!(superseded.status, "superseded");
}

#[test]
fn brownfield_backlog_items_are_imported_with_risk_lanes() {
    let items = backlog_items(BACKLOG);
    assert_eq!(items.len(), 2);
    let imports = backlog_imports(BACKLOG);
    assert_eq!(imports.len(), 2);
    assert_eq!(imports[0].title, "Import existing docs");
    assert_eq!(imports[0].status, "accepted");
    assert_eq!(imports[0].risk.as_deref(), Some("normal"));
    assert_eq!(imports[0].discovered_while.as_deref(), Some("Testing brownfield import"));
    assert_eq!(imports[1].title, "Keep installer checksum");
    assert_eq!(imports[1].status, "implemented");
    assert_eq!(imports[1].risk.as_deref(), Some("high_risk"));
}

#[test]
fn backlog_template_example_is_not_imported() {
    let content = "## Items\n\n### Title\n\nShort name.\n\n### Risk\n\nunknown\n";
    assert!(backlog_imports(content).is_empty());
}

#[test]
fn section_value_and_tokens() {
    assert_eq!(markdown_section_first_value(DECISION, "Status"), "Accepted");
    assert_eq!(markdown_section_first_value(DECISION, "Missing"), "");
    assert_eq!(normalize_token(" In Progress "), "in_progress");
    assert_eq!(normalize_token("N/A"), "n_a");
    assert_eq!(
        markdown_table_fields("| a | b |c|"),
        vec!["a".to_owned(), "b".to_owned(), "c".to_owned()]
    );
    assert_eq!(proof_from_cell("yes"), 1);
    assert_eq!(proof_from_cell("not attempted"), 0);
    assert_eq!(proof_from_cell("blocked on infra"), 0);
    assert_eq!(proof_from_cell(""), 0);
}

#[test]
fn migration_guard_lists_matrix_ids_outside_generated_views() {
    let content = "| Story | Status |\n| --- | --- |\n| US-GHOST | planned |\n| US-A, | planned |\n| Status | Meaning |\n";
    assert_eq!(
        matrix_ids_to_check(content),
        vec!["US-GHOST".to_owned(), "US-A,".to_owned()]
    );
    let generated = "<!-- generated by harness-cli \u{2014} do not hand-edit -->\n| Story | Status |\n| --- | --- |\n| US-1 | planned |\n";
    assert!(matrix_ids_to_check(generated).is_empty());
}

#[test]
fn cutover_migration_guard_refuses_unimported_matrix_rows() {
    assert!(guard_unimported_rows(&Vec::new()).is_ok());
    let matrix = "# Test Matrix\n\n| Story | Contract | Unit | Integration | E2E | Platform | Status | Evidence |\n| --- | --- | --- | --- | --- | --- | --- | --- |\n| US-A | docs/a.md | yes | no | no | no | implemented | |\n| US-GHOST | docs/ghost.md | no | no | no | no | planned | |\n";
    let in_database = ["US-A"];
    let missing: Vec<String> = matrix_ids_to_check(matrix)
        .into_iter()
        .filter(|id| !in_database.contains(&id.as_str()))
        .collect();
    match guard_unimported_rows(&missing) {
        Err(HarnessInfraError::MigrationVerifyFailed(detail)) => {
            assert!(detail.contains("US-GHOST"));
            assert!(!detail.contains("US-A,"));
            assert!(detail.starts_with("docs/TEST_MATRIX.md has stories missing from the database ("));
        }
        _ => panic!("expected a migration refusal"),
    }
    match guard_unimported_rows(&vec!["US-GHOST".to_owned(), "US-B".to_owned()]) {
        Err(HarnessInfraError::MigrationVerifyFailed(detail)) => assert!(detail.contains("US-GHOST, US-B")),
        _ => panic!("expected a migration refusal"),
    }
}

#[test]
fn diagram_files_and_review_status() {
    assert!(is_diagram_file_name("D3-flow.md"));
    assert!(!is_diagram_file_name("D3-flow.txt"));
    assert!(!is_diagram_file_name("X3-flow.md"));
    assert!(!is_diagram_file_name("Da-flow.md"));
    assert!(!is_diagram_file_name("D.md"));
    assert_eq!(diagram_review("US-1", &diagram_text("US-1", "draft")).as_deref(), Some("draft"));
    assert_eq!(diagram_review("US-1", &diagram_text("US-1", "stale")).as_deref(), Some("stale"));
    assert_eq!(diagram_review("US-1", &diagram_text("US-1", "reviewed")), None);
    assert_eq!(diagram_review("US-1", &diagram_text("US-2", "draft")), None);
    assert_eq!(diagram_review("US-1", "Story: US-1\n").as_deref(), Some("missing"));
    assert_eq!(
        diagram_entry("docs\\stories\\a\\diagrams\\D3-flow.md", "draft"),
        "docs/stories/a/diagrams/D3-flow.md (draft)"
    );
}

#[test]
fn story_verify_fails_on_unreviewed_diagram_without_running_command() {
    let unreviewed = vec!["docs/stories/d/diagrams/D3-flow.md (draft)".to_owned()];
    let message = diagram_gate_message("US-D", &unreviewed);
    assert_eq!(
        message,
        "story US-D has change diagrams that are not reviewed (docs/DIAGRAMS.md):\n  - docs/stories/d/diagrams/D3-flow.md (draft)\nReview each (Status: reviewed + harness-cli intervention add --type review) before verifying.\n"
    );
    match story_verify_plan("US-D", Some("touch ran.txt".to_owned()), &unreviewed) {
        StoryVerifyPlan::Gate(text) => assert_eq!(text, message),
        _ => panic!("unreviewed diagrams block the story"),
    }
    match story_verify_plan("US-D", Some("exit 0".to_owned()), &Vec::new()) {
        StoryVerifyPlan::Run(command) => assert_eq!(command, "exit 0"),
        _ => panic!("expected a run"),
    }
    assert!(matches!(
        story_verify_plan("US-S", Some("   ".to_owned()), &Vec::new()),
        StoryVerifyPlan::Skip
    ));
    assert!(matches!(story_verify_plan("US-S", None, &unreviewed), StoryVerifyPlan::Skip));
}

#[test]
fn brownfield_import_only_seeds_an_empty_event_backed_cache() {
    assert_eq!(brownfield_gate(false, 12, 3), Ok(()));
    assert_eq!(brownfield_gate(true, 0, 0), Ok(()));
    assert_eq!(brownfield_gate(true, 1, 0), Err(HarnessInfraError::BrownfieldOnEventBacked));
    assert_eq!(brownfield_gate(true, 0, 1), Err(HarnessInfraError::BrownfieldOnEventBacked));
}

#[test]
fn the_diagram_gate_holds_back_only_stories_with_unreviewed_diagrams() {
    assert_eq!(diagram_gate("US-1", &Vec::new()), None);
    let unreviewed = vec!["docs/diagrams/US-1-flow.md".to_owned()];
    assert_eq!(diagram_gate("US-1", &unreviewed), Some(diagram_gate_message("US-1", &unreviewed)));
}
