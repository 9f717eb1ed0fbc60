use vstd::prelude::*;

use crate::text::{chars_of, push_str, string_of};

verus! {

/// The first line of every generated view.
pub open spec fn view_marker() -> Seq<char> {
    "<!-- generated by harness-cli \u{2014} do not hand-edit -->"@
}

/// The pieces of `parts` one after another.
pub open spec fn concat(parts: Seq<Seq<char>>) -> Seq<char>
    decreases parts.len(),
{
    if parts.len() == 0 {
        Seq::empty()
    } else {
        concat(parts.drop_last()) + parts.last()
    }
}

/// One character of a table cell: `|` escaped, a line break as a space.
pub open spec fn cell_char(c: char) -> Seq<char> {
    if c == '|' {
        seq!['\\', '|']
    } else if c == '\n' {
        seq![' ']
    } else {
        seq![c]
    }
}

/// Text made safe for one markdown table cell.
pub open spec fn cell_text_seq(text: Seq<char>) -> Seq<char>
    decreases text.len(),
{
    if text.len() == 0 {
        Seq::empty()
    } else {
        cell_text_seq(text.drop_last()) + cell_char(text.last())
    }
}

fn push_cell(out: &mut Vec<char>, text: &str)
    ensures
        final(out)@ == old(out)@ + cell_text_seq(text@),
{
    let chars = chars_of(text);
    let ghost start = out@;
    let mut i: usize = 0;
    while i < chars.len()
        invariant
            i <= chars@.len(),
            chars@ == text@,
            out@ == start + cell_text_seq(chars@.take(i as int)),
        decreases chars@.len() - i,
    {
        proof {
            assert(chars@.take(i as int + 1).drop_last() =~= chars@.take(i as int));
        }
        let c = chars[i];
        if c == '|' {
            out.push('\\');
            out.push('|');
        } else if c == '\n' {
            out.push(' ');
        } else {
            out.push(c);
        }
        i = i + 1;
        proof {
            assert(out@ =~= start + cell_text_seq(chars@.take(i as int)));
        }
    }
    proof {
        assert(chars@.take(i as int) =~= chars@);
    }
}

/// `yes` for a recorded proof (1), `no` otherwise.
pub open spec fn proof_word(value: i64) -> Seq<char> {
    if value == 1 {
        "yes"@
    } else {
        "no"@
    }
}

/// One story of the generated test matrix (the story table, by id).
pub struct MatrixViewRow {
    pub id: String,
    /// The contract document, else the title.
    pub contract: String,
    pub unit_proof: i64,
    pub integration_proof: i64,
    pub e2e_proof: i64,
    pub platform_proof: i64,
    pub status: String,
    /// The evidence, empty when there is none.
    pub evidence: String,
}

pub open spec fn matrix_view_head() -> Seq<char> {
    view_marker() + "\n# Test Matrix\n\nGenerated view of the story table; the event log is the source of truth.\nUpdate proof with `harness-cli story update`, never by editing this file.\n\n"@ + table_line(matrix_columns()) + "| --- | --- | --- | --- | --- | --- | --- | --- |\n"@
}

pub open spec fn matrix_view_line(row: MatrixViewRow) -> Seq<char> {
    "| "@ + row.id@ + " | "@ + row.contract@ + " | "@ + proof_word(row.unit_proof) + " | "@
        + proof_word(row.integration_proof) + " | "@ + proof_word(row.e2e_proof) + " | "@
        + proof_word(row.platform_proof) + " | "@ + row.status@ + " | "@ + cell_text_seq(
        row.evidence@,
    ) + " |\n"@
}

/// `docs/TEST_MATRIX.md` as a projection of the story table: no
/// timestamps, rows in the order given, so it changes only with the state.
pub open spec fn matrix_view_seq(rows: Seq<MatrixViewRow>) -> Seq<char> {
    matrix_view_head() + concat(rows.map_values(|r: MatrixViewRow| matrix_view_line(r)))
}

fn push_proof_word(out: &mut Vec<char>, value: i64)
    ensures
        final(out)@ == old(out)@ + proof_word(value),
{
    if value == 1 {
        push_str(out, "yes");
    } else {
        push_str(out, "no");
    }
}

#[verifier::spinoff_prover]
#[verifier::rlimit(30)]
pub fn matrix_view(rows: &Vec<MatrixViewRow>) -> (view: String)
    ensures
        view@ == matrix_view_seq(rows@),
{
    let ghost lines = rows@.map_values(|r: MatrixViewRow| matrix_view_line(r));
    let mut out: Vec<char> = Vec::new();
    push_str(&mut out, "<!-- generated by harness-cli \u{2014} do not hand-edit -->");
    push_str(&mut out, "\n# Test Matrix\n\nGenerated view of the story table; the event log is the source of truth.\nUpdate proof with `harness-cli story update`, never by editing this file.\n\n");
    push_str(&mut out, "| ");
    push_str(&mut out, "Story");
    push_str(&mut out, " | ");
    push_str(&mut out, "Contract");
    push_str(&mut out, " | ");
    push_str(&mut out, "Unit");
    push_str(&mut out, " | ");
    push_str(&mut out, "Integration");
    push_str(&mut out, " | ");
    push_str(&mut out, "E2E");
    push_str(&mut out, " | ");
    push_str(&mut out, "Platform");
    push_str(&mut out, " | ");
    push_str(&mut out, "Status");
    push_str(&mut out, " | ");
    push_str(&mut out, "Evidence");
    push_str(&mut out, " |\n");
    push_str(&mut out, "| --- | --- | --- | --- | --- | --- | --- | --- |\n");
    let ghost head = out@;
    proof {
        lemma_matrix_header();
    }
    assert(head =~= matrix_view_head());
    let mut i: usize = 0;
    while i < rows.len()
        invariant
            i <= rows@.len(),
            lines == rows@.map_values(|r: MatrixViewRow| matrix_view_line(r)),
            out@ == head + concat(lines.take(i as int)),
        decreases rows@.len() - i,
    {
        let row = &rows[i];
        let ghost mark = out@;
        push_str(&mut out, "| ");
        push_str(&mut out, row.id.as_str());
        push_str(&mut out, " | ");
        push_str(&mut out, row.contract.as_str());
        push_str(&mut out, " | ");
        push_proof_word(&mut out, row.unit_proof);
        push_str(&mut out, " | ");
        push_proof_word(&mut out, row.integration_proof);
        push_str(&mut out, " | ");
        push_proof_word(&mut out, row.e2e_proof);
        push_str(&mut out, " | ");
        push_proof_word(&mut out, row.platform_proof);
        push_str(&mut out, " | ");
        push_str(&mut out, row.status.as_str());
        push_str(&mut out, " | ");
        push_cell(&mut out, row.evidence.as_str());
        push_str(&mut out, " |\n");
        proof {
            assert(out@ =~= mark + matrix_view_line(*row));
            assert(lines.take(i as int + 1).drop_last() =~= lines.take(i as int));
        }
        i = i + 1;
    }
    proof {
        assert(lines.take(i as int) =~= lines);
    }
    string_of(&out)
}

/// One item of the generated backlog view (the backlog table, by id).
pub struct BacklogViewRow {
    pub id: String,
    pub title: String,
    pub risk: String,
    pub status: String,
    pub predicted_impact: String,
    pub actual_outcome: String,
}

pub open spec fn backlog_view_head() -> Seq<char> {
    view_marker() + "\n# Harness Backlog\n\nGenerated view of the backlog table; the event log is the source of truth.\nAdd items with `harness-cli backlog add`, close with `harness-cli backlog close`.\n\n"@ + table_line(backlog_columns()) + "| --- | --- | --- | --- | --- | --- |\n"@
}

pub open spec fn backlog_view_line(row: BacklogViewRow) -> Seq<char> {
    "| "@ + row.id@ + " | "@ + cell_text_seq(row.title@) + " | "@ + row.risk@ + " | "@ + row.status@
        + " | "@ + cell_text_seq(row.predicted_impact@) + " | "@ + cell_text_seq(
        row.actual_outcome@,
    ) + " |\n"@
}

/// `docs/HARNESS_BACKLOG.md` as a projection of the backlog table.
pub open spec fn backlog_view_seq(rows: Seq<BacklogViewRow>) -> Seq<char> {
    backlog_view_head() + concat(rows.map_values(|r: BacklogViewRow| backlog_view_line(r)))
}

#[verifier::spinoff_prover]
#[verifier::rlimit(30)]
pub fn backlog_view(rows: &Vec<BacklogViewRow>) -> (view: String)
    ensures
        view@ == backlog_view_seq(rows@),
{
    let ghost lines = rows@.map_values(|r: BacklogViewRow| backlog_view_line(r));
    let mut out: Vec<char> = Vec::new();
    push_str(&mut out, "<!-- generated by harness-cli \u{2014} do not hand-edit -->");
    push_str(&mut out, "\n# Harness Backlog\n\nGenerated view of the backlog table; the event log is the source of truth.\nAdd items with `harness-cli backlog add`, close with `harness-cli backlog close`.\n\n");
    push_str(&mut out, "| ");
    push_str(&mut out, "Id");
    push_str(&mut out, " | ");
    push_str(&mut out, "Title");
    push_str(&mut out, " | ");
    push_str(&mut out, "Risk");
    push_str(&mut out, " | ");
    push_str(&mut out, "Status");
    push_str(&mut out, " | ");
    push_str(&mut out, "Predicted impact");
    push_str(&mut out, " | ");
    push_str(&mut out, "Actual outcome");
    push_str(&mut out, " |\n");
    push_str(&mut out, "| --- | --- | --- | --- | --- | --- |\n");
    let ghost head = out@;
    proof {
        lemma_backlog_header();
    }
    assert(head =~= backlog_view_head());
    let mut i: usize = 0;
    while i < rows.len()
        invariant
            i <= rows@.len(),
            lines == rows@.map_values(|r: BacklogViewRow| backlog_view_line(r)),
            out@ == head + concat(lines.take(i as int)),
        decreases rows@.len() - i,
    {
        let row = &rows[i];
        let ghost mark = out@;
        push_str(&mut out, "| ");
        push_str(&mut out, row.id.as_str());
        push_str(&mut out, " | ");
        push_cell(&mut out, row.title.as_str());
        push_str(&mut out, " | ");
        push_str(&mut out, row.risk.as_str());
        push_str(&mut out, " | ");
        push_str(&mut out, row.status.as_str());
        push_str(&mut out, " | ");
        push_cell(&mut out, row.predicted_impact.as_str());
        push_str(&mut out, " | ");
        push_cell(&mut out, row.actual_outcome.as_str());
        push_str(&mut out, " |\n");
        proof {
            assert(out@ =~= mark + backlog_view_line(*row));
            assert(lines.take(i as int + 1).drop_last() =~= lines.take(i as int));
        }
        i = i + 1;
    }
    proof {
        assert(lines.take(i as int) =~= lines);
    }
    string_of(&out)
}

/// One decision of the generated decision index (the decision table, by
/// id).
pub struct DecisionViewRow {
    pub id: String,
    pub title: String,
    pub status: String,
    /// The document path, empty when there is none.
    pub doc_path: String,
}

pub open spec fn decision_index_head() -> Seq<char> {
    view_marker() + "\n# Decisions\n\nGenerated index of the decision table; records live in this directory.\nAdd decisions with `harness-cli decision add` (doc from `docs/templates/decision.md`).\n\n"@ + table_line(decision_columns()) + "| --- | --- | --- | --- |\n"@
}

pub open spec fn decision_index_line(row: DecisionViewRow) -> Seq<char> {
    "| "@ + row.id@ + " | "@ + row.title@ + " | "@ + row.status@ + " | "@ + row.doc_path@ + " |\n"@
}

/// `docs/decisions/README.md` as a projection of the decision table.
pub open spec fn decision_index_seq(rows: Seq<DecisionViewRow>) -> Seq<char> {
    decision_index_head() + concat(rows.map_values(|r: DecisionViewRow| decision_index_line(r)))
}

#[verifier::spinoff_prover]
#[verifier::rlimit(30)]
pub fn decision_index(rows: &Vec<DecisionViewRow>) -> (view: String)
    ensures
        view@ == decision_index_seq(rows@),
{
    let ghost lines = rows@.map_values(|r: DecisionViewRow| decision_index_line(r));
    let mut out: Vec<char> = Vec::new();
    push_str(&mut out, "<!-- generated by harness-cli \u{2014} do not hand-edit -->");
    push_str(&mut out, "\n# Decisions\n\nGenerated index of the decision table; records live in this directory.\nAdd decisions with `harness-cli decision add` (doc from `docs/templates/decision.md`).\n\n");
    push_str(&mut out, "| ");
    push_str(&mut out, "Id");
    push_str(&mut out, " | ");
    push_str(&mut out, "Title");
    push_str(&mut out, " | ");
    push_str(&mut out, "Status");
    push_str(&mut out, " | ");
    push_str(&mut out, "Doc");
    push_str(&mut out, " |\n");
    push_str(&mut out, "| --- | --- | --- | --- |\n");
    let ghost head = out@;
    proof {
        lemma_decision_header();
    }
    assert(head =~= decision_index_head());
    let mut i: usize = 0;
    while i < rows.len()
        invariant
            i <= rows@.len(),
            lines == rows@.map_values(|r: DecisionViewRow| decision_index_line(r)),
            out@ == head + concat(lines.take(i as int)),
        decreases rows@.len() - i,
    {
        let row = &rows[i];
        let ghost mark = out@;
        push_str(&mut out, "| ");
        push_str(&mut out, row.id.as_str());
        push_str(&mut out, " | ");
        push_str(&mut out, row.title.as_str());
        push_str(&mut out, " | ");
        push_str(&mut out, row.status.as_str());
        push_str(&mut out, " | ");
        push_str(&mut out, row.doc_path.as_str());
        push_str(&mut out, " |\n");
        proof {
            assert(out@ =~= mark + decision_index_line(*row));
            assert(lines.take(i as int + 1).drop_last() =~= lines.take(i as int));
        }
        i = i + 1;
    }
    proof {
        assert(lines.take(i as int) =~= lines);
    }
    string_of(&out)
}

/// The ops after which the generated views are rewritten: those that
/// change stories, backlog items or decisions.
pub open spec fn op_changes_views(op: Seq<char>) -> bool {
    op == "story.add"@ || op == "story.update"@ || op == "story.verify_result"@ || op
        == "backlog.add"@ || op == "backlog.close"@ || op == "decision.add"@ || op
        == "decision.update"@ || op == "decision.verify_result"@
}

pub fn regenerates_views(op: &String) -> (changes: bool)
    ensures
        changes == op_changes_views(op@),
{
    *op == "story.add".to_owned() || *op == "story.update".to_owned() || *op
        == "story.verify_result".to_owned() || *op == "backlog.add".to_owned() || *op
        == "backlog.close".to_owned() || *op == "decision.add".to_owned() || *op
        == "decision.update".to_owned() || *op == "decision.verify_result".to_owned()
}

/// A generated view file needs writing unless it already holds exactly the
/// new text.
pub open spec fn view_write_needed(existing: Option<Seq<char>>, content: Seq<char>) -> bool {
    existing != Some(content)
}

/// Whether a view file holding `existing` (`None`: absent or unreadable)
/// must be written to hold `content`.
pub fn view_needs_write(existing: Option<String>, content: &str) -> (write: bool)
    ensures
        write == view_write_needed(
            match existing {
                Some(e) => Some(e@),
                None => None,
            },
            content@,
        ),
{
    match existing {
        Some(e) => !(e == content.to_owned()),
        None => true,
    }
}

/// The generated views are stable projections of the cache: each view is
/// a function of its rows, so once a regeneration has written them, a
/// second one over the same rows writes none of the three files.
pub proof fn law_regenerating_views_twice_writes_nothing(
    stories: Seq<MatrixViewRow>,
    backlog: Seq<BacklogViewRow>,
    decisions: Seq<DecisionViewRow>,
)
    ensures
        !view_write_needed(Some(matrix_view_seq(stories)), matrix_view_seq(stories)),
        !view_write_needed(Some(backlog_view_seq(backlog)), backlog_view_seq(backlog)),
        !view_write_needed(Some(decision_index_seq(decisions)), decision_index_seq(decisions)),
        matrix_view_seq(stories).take(view_marker().len() as int) == view_marker(),
        backlog_view_seq(backlog).take(view_marker().len() as int) == view_marker(),
        decision_index_seq(decisions).take(view_marker().len() as int) == view_marker(),
{
    let n = view_marker().len() as int;
    assert(matrix_view_seq(stories).take(n) =~= view_marker());
    assert(backlog_view_seq(backlog).take(n) =~= view_marker());
    assert(decision_index_seq(decisions).take(n) =~= view_marker());
}

/// The start of a markdown table row of `cells`: `| ` and the cells
/// joined by ` | `.
pub open spec fn table_row(cells: Seq<Seq<char>>) -> Seq<char>
    decreases cells.len(),
{
    if cells.len() == 0 {
        "| "@
    } else if cells.len() == 1 {
        "| "@ + cells[0]
    } else {
        table_row(cells.drop_last()) + " | "@ + cells.last()
    }
}

/// A markdown table row of `cells`.
pub open spec fn table_line(cells: Seq<Seq<char>>) -> Seq<char> {
    table_row(cells) + " |\n"@
}

/// `text` holds `line` somewhere.
pub open spec fn holds_line(text: Seq<char>, line: Seq<char>) -> bool {
    exists|k: int| 0 <= k && k + line.len() <= text.len() && #[trigger] text.subrange(k, k + line.len()) == line
}

/// The column names of the test matrix, in header order.
pub open spec fn matrix_columns() -> Seq<Seq<char>> {
    seq!["Story"@, "Contract"@, "Unit"@, "Integration"@, "E2E"@, "Platform"@, "Status"@, "Evidence"@]
}

/// What the column named `column` shows of a row of the test matrix.
pub open spec fn matrix_cell(row: MatrixViewRow, column: Seq<char>) -> Seq<char> {
    if column == "Story"@ {
        row.id@
    } else if column == "Contract"@ {
        row.contract@
    } else if column == "Unit"@ {
        proof_word(row.unit_proof)
    } else if column == "Integration"@ {
        proof_word(row.integration_proof)
    } else if column == "E2E"@ {
        proof_word(row.e2e_proof)
    } else if column == "Platform"@ {
        proof_word(row.platform_proof)
    } else if column == "Status"@ {
        row.status@
    } else {
        cell_text_seq(row.evidence@)
    }
}

proof fn lemma_matrix_header()
    ensures
        table_line(matrix_columns()) == "| "@ + "Story"@ + " | "@ + "Contract"@ + " | "@ + "Unit"@ + " | "@ + "Integration"@ + " | "@ + "E2E"@ + " | "@ + "Platform"@ + " | "@ + "Status"@ + " | "@ + "Evidence"@ + " |\n"@,
{
    reveal_with_fuel(table_row, 2);
    let c8: Seq<Seq<char>> = seq!["Story"@, "Contract"@, "Unit"@, "Integration"@, "E2E"@, "Platform"@, "Status"@, "Evidence"@];
    let c7: Seq<Seq<char>> = seq!["Story"@, "Contract"@, "Unit"@, "Integration"@, "E2E"@, "Platform"@, "Status"@];
    let c6: Seq<Seq<char>> = seq!["Story"@, "Contract"@, "Unit"@, "Integration"@, "E2E"@, "Platform"@];
    let c5: Seq<Seq<char>> = seq!["Story"@, "Contract"@, "Unit"@, "Integration"@, "E2E"@];
    let c4: Seq<Seq<char>> = seq!["Story"@, "Contract"@, "Unit"@, "Integration"@];
    let c3: Seq<Seq<char>> = seq!["Story"@, "Contract"@, "Unit"@];
    let c2: Seq<Seq<char>> = seq!["Story"@, "Contract"@];
    let c1: Seq<Seq<char>> = seq!["Story"@];
    assert(matrix_columns() =~= c8);
    assert(c8.drop_last() =~= c7);
    assert(c7.drop_last() =~= c6);
    assert(c6.drop_last() =~= c5);
    assert(c5.drop_last() =~= c4);
    assert(c4.drop_last() =~= c3);
    assert(c3.drop_last() =~= c2);
    assert(c2.drop_last() =~= c1);
    assert(table_row(c1) == "| "@ + c1[0]);
    assert(table_row(c2) == table_row(c1) + " | "@ + c2.last());
    assert(table_row(c3) == table_row(c2) + " | "@ + c3.last());
    assert(table_row(c4) == table_row(c3) + " | "@ + c4.last());
    assert(table_row(c5) == table_row(c4) + " | "@ + c5.last());
    assert(table_row(c6) == table_row(c5) + " | "@ + c6.last());
    assert(table_row(c7) == table_row(c6) + " | "@ + c7.last());
    assert(table_row(c8) == table_row(c7) + " | "@ + c8.last());
}

proof fn lemma_matrix_cells(row: MatrixViewRow)
    ensures
        matrix_cell(row, "Story"@) == row.id@,
        matrix_cell(row, "Contract"@) == row.contract@,
        matrix_cell(row, "Unit"@) == proof_word(row.unit_proof),
        matrix_cell(row, "Integration"@) == proof_word(row.integration_proof),
        matrix_cell(row, "E2E"@) == proof_word(row.e2e_proof),
        matrix_cell(row, "Platform"@) == proof_word(row.platform_proof),
        matrix_cell(row, "Status"@) == row.status@,
        matrix_cell(row, "Evidence"@) == cell_text_seq(row.evidence@),
{
    reveal_strlit("Story");
    reveal_strlit("Contract");
    reveal_strlit("Unit");
    reveal_strlit("Integration");
    reveal_strlit("E2E");
    reveal_strlit("Platform");
    reveal_strlit("Status");
    reveal_strlit("Evidence");
    assert("Story"@.len() == 5);
    assert("Contract"@.len() == 8);
    assert("Unit"@.len() == 4);
    assert("Integration"@.len() == 11);
    assert("E2E"@.len() == 3);
    assert("Platform"@.len() == 8);
    assert("Status"@.len() == 6);
    assert("Evidence"@.len() == 8);
    assert("Contract"@[0] != "Platform"@[0]);
    assert("Contract"@[0] != "Evidence"@[0]);
    assert("Platform"@[0] != "Evidence"@[0]);
}

#[verifier::spinoff_prover]
#[verifier::rlimit(80)]
proof fn lemma_matrix_line(row: MatrixViewRow)
    ensures
        matrix_view_line(row) == table_line(matrix_columns().map_values(|c: Seq<char>| matrix_cell(row, c))),
{
    reveal_with_fuel(table_row, 2);
    lemma_matrix_cells(row);
    let cols = matrix_columns();
    let e8: Seq<Seq<char>> = seq![row.id@, row.contract@, proof_word(row.unit_proof), proof_word(row.integration_proof), proof_word(row.e2e_proof), proof_word(row.platform_proof), row.status@, cell_text_seq(row.evidence@)];
    let e7: Seq<Seq<char>> = seq![row.id@, row.contract@, proof_word(row.unit_proof), proof_word(row.integration_proof), proof_word(row.e2e_proof), proof_word(row.platform_proof), row.status@];
    let e6: Seq<Seq<char>> = seq![row.id@, row.contract@, proof_word(row.unit_proof), proof_word(row.integration_proof), proof_word(row.e2e_proof), proof_word(row.platform_proof)];
    let e5: Seq<Seq<char>> = seq![row.id@, row.contract@, proof_word(row.unit_proof), proof_word(row.integration_proof), proof_word(row.e2e_proof)];
    let e4: Seq<Seq<char>> = seq![row.id@, row.contract@, proof_word(row.unit_proof), proof_word(row.integration_proof)];
    let e3: Seq<Seq<char>> = seq![row.id@, row.contract@, proof_word(row.unit_proof)];
    let e2: Seq<Seq<char>> = seq![row.id@, row.contract@];
    let e1: Seq<Seq<char>> = seq![row.id@];
    assert(cols.map_values(|c: Seq<char>| matrix_cell(row, c))[0] == matrix_cell(row, "Story"@));
    assert(cols.map_values(|c: Seq<char>| matrix_cell(row, c))[1] == matrix_cell(row, "Contract"@));
    assert(cols.map_values(|c: Seq<char>| matrix_cell(row, c))[2] == matrix_cell(row, "Unit"@));
    assert(cols.map_values(|c: Seq<char>| matrix_cell(row, c))[3] == matrix_cell(row, "Integration"@));
    assert(cols.map_values(|c: Seq<char>| matrix_cell(row, c))[4] == matrix_cell(row, "E2E"@));
    assert(cols.map_values(|c: Seq<char>| matrix_cell(row, c))[5] == matrix_cell(row, "Platform"@));
    assert(cols.map_values(|c: Seq<char>| matrix_cell(row, c))[6] == matrix_cell(row, "Status"@));
    assert(cols.map_values(|c: Seq<char>| matrix_cell(row, c))[7] == matrix_cell(row, "Evidence"@));
    assert(cols.map_values(|c: Seq<char>| matrix_cell(row, c)) =~= e8);
    assert(e8.drop_last() =~= e7);
    assert(e7.drop_last() =~= e6);
    assert(e6.drop_last() =~= e5);
    assert(e5.drop_last() =~= e4);
    assert(e4.drop_last() =~= e3);
    assert(e3.drop_last() =~= e2);
    assert(e2.drop_last() =~= e1);
    assert(table_row(e1) == "| "@ + e1[0]);
    assert(table_row(e2) == table_row(e1) + " | "@ + e2.last());
    assert(table_row(e3) == table_row(e2) + " | "@ + e3.last());
    assert(table_row(e4) == table_row(e3) + " | "@ + e4.last());
    assert(table_row(e5) == table_row(e4) + " | "@ + e5.last());
    assert(table_row(e6) == table_row(e5) + " | "@ + e6.last());
    assert(table_row(e7) == table_row(e6) + " | "@ + e7.last());
    assert(table_row(e8) == table_row(e7) + " | "@ + e8.last());
    assert(matrix_view_line(row) == table_line(e8));
}

/// Each row of the test matrix lines up with its header: the header row names the
/// columns, and in every row the cell under each column name is what that
/// column shows of the row.
pub proof fn law_matrix_rows_line_up_with_header(row: MatrixViewRow)
    ensures
        holds_line(matrix_view_head(), table_line(matrix_columns())),
        matrix_view_line(row) == table_line(matrix_columns().map_values(|c: Seq<char>| matrix_cell(row, c))),
{
    lemma_matrix_line(row);
    let k = (view_marker() + "\n# Test Matrix\n\nGenerated view of the story table; the event log is the source of truth.\nUpdate proof with `harness-cli story update`, never by editing this file.\n\n"@).len() as int;
    let tl = table_line(matrix_columns());
    assert(matrix_view_head().subrange(k, k + tl.len()) =~= tl);
}

/// The column names of the backlog view, in header order.
pub open spec fn backlog_columns() -> Seq<Seq<char>> {
    seq!["Id"@, "Title"@, "Risk"@, "Status"@, "Predicted impact"@, "Actual outcome"@]
}

/// What the column named `column` shows of a row of the backlog view.
pub open spec fn backlog_cell(row: BacklogViewRow, column: Seq<char>) -> Seq<char> {
    if column == "Id"@ {
        row.id@
    } else if column == "Title"@ {
        cell_text_seq(row.title@)
    } else if column == "Risk"@ {
        row.risk@
    } else if column == "Status"@ {
        row.status@
    } else if column == "Predicted impact"@ {
        cell_text_seq(row.predicted_impact@)
    } else {
        cell_text_seq(row.actual_outcome@)
    }
}

proof fn lemma_backlog_header()
    ensures
        table_line(backlog_columns()) == "| "@ + "Id"@ + " | "@ + "Title"@ + " | "@ + "Risk"@ + " | "@ + "Status"@ + " | "@ + "Predicted impact"@ + " | "@ + "Actual outcome"@ + " |\n"@,
{
    reveal_with_fuel(table_row, 2);
    let c6: Seq<Seq<char>> = seq!["Id"@, "Title"@, "Risk"@, "Status"@, "Predicted impact"@, "Actual outcome"@];
    let c5: Seq<Seq<char>> = seq!["Id"@, "Title"@, "Risk"@, "Status"@, "Predicted impact"@];
    let c4: Seq<Seq<char>> = seq!["Id"@, "Title"@, "Risk"@, "Status"@];
    let c3: Seq<Seq<char>> = seq!["Id"@, "Title"@, "Risk"@];
    let c2: Seq<Seq<char>> = seq!["Id"@, "Title"@];
    let c1: Seq<Seq<char>> = seq!["Id"@];
    assert(backlog_columns() =~= c6);
    assert(c6.drop_last() =~= c5);
    assert(c5.drop_last() =~= c4);
    assert(c4.drop_last() =~= c3);
    assert(c3.drop_last() =~= c2);
    assert(c2.drop_last() =~= c1);
    assert(table_row(c1) == "| "@ + c1[0]);
    assert(table_row(c2) == table_row(c1) + " | "@ + c2.last());
    assert(table_row(c3) == table_row(c2) + " | "@ + c3.last());
    assert(table_row(c4) == table_row(c3) + " | "@ + c4.last());
    assert(table_row(c5) == table_row(c4) + " | "@ + c5.last());
    assert(table_row(c6) == table_row(c5) + " | "@ + c6.last());
}

proof fn lemma_backlog_line(row: BacklogViewRow)
    ensures
        backlog_view_line(row) == table_line(backlog_columns().map_values(|c: Seq<char>| backlog_cell(row, c))),
{
    reveal_with_fuel(table_row, 2);
    reveal_strlit("Id");
    reveal_strlit("Title");
    reveal_strlit("Risk");
    reveal_strlit("Status");
    reveal_strlit("Predicted impact");
    reveal_strlit("Actual outcome");
    assert("Id"@.len() == 2);
    assert("Title"@.len() == 5);
    assert("Risk"@.len() == 4);
    assert("Status"@.len() == 6);
    assert("Predicted impact"@.len() == 16);
    assert("Actual outcome"@.len() == 14);
    let cols = backlog_columns();
    let e6: Seq<Seq<char>> = seq![row.id@, cell_text_seq(row.title@), row.risk@, row.status@, cell_text_seq(row.predicted_impact@), cell_text_seq(row.actual_outcome@)];
    let e5: Seq<Seq<char>> = seq![row.id@, cell_text_seq(row.title@), row.risk@, row.status@, cell_text_seq(row.predicted_impact@)];
    let e4: Seq<Seq<char>> = seq![row.id@, cell_text_seq(row.title@), row.risk@, row.status@];
    let e3: Seq<Seq<char>> = seq![row.id@, cell_text_seq(row.title@), row.risk@];
    let e2: Seq<Seq<char>> = seq![row.id@, cell_text_seq(row.title@)];
    let e1: Seq<Seq<char>> = seq![row.id@];
    assert(backlog_cell(row, "Id"@) == row.id@);
    assert(backlog_cell(row, "Title"@) == cell_text_seq(row.title@));
    assert(backlog_cell(row, "Risk"@) == row.risk@);
    assert(backlog_cell(row, "Status"@) == row.status@);
    assert(backlog_cell(row, "Predicted impact"@) == cell_text_seq(row.predicted_impact@));
    assert(backlog_cell(row, "Actual outcome"@) == cell_text_seq(row.actual_outcome@));
    assert(cols.map_values(|c: Seq<char>| backlog_cell(row, c))[0] == backlog_cell(row, "Id"@));
    assert(cols.map_values(|c: Seq<char>| backlog_cell(row, c))[1] == backlog_cell(row, "Title"@));
    assert(cols.map_values(|c: Seq<char>| backlog_cell(row, c))[2] == backlog_cell(row, "Risk"@));
    assert(cols.map_values(|c: Seq<char>| backlog_cell(row, c))[3] == backlog_cell(row, "Status"@));
    assert(cols.map_values(|c: Seq<char>| backlog_cell(row, c))[4] == backlog_cell(row, "Predicted impact"@));
    assert(cols.map_values(|c: Seq<char>| backlog_cell(row, c))[5] == backlog_cell(row, "Actual outcome"@));
    assert(cols.map_values(|c: Seq<char>| backlog_cell(row, c)) =~= e6);
    assert(e6.drop_last() =~= e5);
    assert(e5.drop_last() =~= e4);
    assert(e4.drop_last() =~= e3);
    assert(e3.drop_last() =~= e2);
    assert(e2.drop_last() =~= e1);
    assert(table_row(e1) == "| "@ + e1[0]);
    assert(table_row(e2) == table_row(e1) + " | "@ + e2.last());
    assert(table_row(e3) == table_row(e2) + " | "@ + e3.last());
    assert(table_row(e4) == table_row(e3) + " | "@ + e4.last());
    assert(table_row(e5) == table_row(e4) + " | "@ + e5.last());
    assert(table_row(e6) == table_row(e5) + " | "@ + e6.last());
    assert(backlog_view_line(row) == table_line(e6));
}

/// Each row of the backlog view lines up with its header: the header row names the
/// columns, and in every row the cell under each column name is what that
/// column shows of the row.
pub proof fn law_backlog_rows_line_up_with_header(row: BacklogViewRow)
    ensures
        holds_line(backlog_view_head(), table_line(backlog_columns())),
        backlog_view_line(row) == table_line(backlog_columns().map_values(|c: Seq<char>| backlog_cell(row, c))),
{
    lemma_backlog_line(row);
    let k = (view_marker() + "\n# Harness Backlog\n\nGenerated view of the backlog table; the event log is the source of truth.\nAdd items with `harness-cli backlog add`, close with `harness-cli backlog close`.\n\n"@).len() as int;
    let tl = table_line(backlog_columns());
    assert(backlog_view_head().subrange(k, k + tl.len()) =~= tl);
}

/// The column names of the decision index, in header order.
pub open spec fn decision_columns() -> Seq<Seq<char>> {
    seq!["Id"@, "Title"@, "Status"@, "Doc"@]
}

/// What the column named `column` shows of a row of the decision index.
pub open spec fn decision_cell(row: DecisionViewRow, column: Seq<char>) -> Seq<char> {
    if column == "Id"@ {
        row.id@
    } else if column == "Title"@ {
        row.title@
    } else if column == "Status"@ {
        row.status@
    } else {
        row.doc_path@
    }
}

proof fn lemma_decision_header()
    ensures
        table_line(decision_columns()) == "| "@ + "Id"@ + " | "@ + "Title"@ + " | "@ + "Status"@ + " | "@ + "Doc"@ + " |\n"@,
{
    reveal_with_fuel(table_row, 2);
    let c4: Seq<Seq<char>> = seq!["Id"@, "Title"@, "Status"@, "Doc"@];
    let c3: Seq<Seq<char>> = seq!["Id"@, "Title"@, "Status"@];
    let c2: Seq<Seq<char>> = seq!["Id"@, "Title"@];
    let c1: Seq<Seq<char>> = seq!["Id"@];
    assert(decision_columns() =~= c4);
    assert(c4.drop_last() =~= c3);
    assert(c3.drop_last() =~= c2);
    assert(c2.drop_last() =~= c1);
    assert(table_row(c1) == "| "@ + c1[0]);
    assert(table_row(c2) == table_row(c1) + " | "@ + c2.last());
    assert(table_row(c3) == table_row(c2) + " | "@ + c3.last());
    assert(table_row(c4) == table_row(c3) + " | "@ + c4.last());
}

proof fn lemma_decision_line(row: DecisionViewRow)
    ensures
        decision_index_line(row) == table_line(decision_columns().map_values(|c: Seq<char>| decision_cell(row, c))),
{
    reveal_with_fuel(table_row, 2);
    reveal_strlit("Id");
    reveal_strlit("Title");
    reveal_strlit("Status");
    reveal_strlit("Doc");
    assert("Id"@.len() == 2);
    assert("Title"@.len() == 5);
    assert("Status"@.len() == 6);
    assert("Doc"@.len() == 3);
    let cols = decision_columns();
    let e4: Seq<Seq<char>> = seq![row.id@, row.title@, row.status@, row.doc_path@];
    let e3: Seq<Seq<char>> = seq![row.id@, row.title@, row.status@];
    let e2: Seq<Seq<char>> = seq![row.id@, row.title@];
    let e1: Seq<Seq<char>> = seq![row.id@];
    assert(decision_cell(row, "Id"@) == row.id@);
    assert(decision_cell(row, "Title"@) == row.title@);
    assert(decision_cell(row, "Status"@) == row.status@);
    assert(decision_cell(row, "Doc"@) == row.doc_path@);
    assert(cols.map_values(|c: Seq<char>| decision_cell(row, c))[0] == decision_cell(row, "Id"@));
    assert(cols.map_values(|c: Seq<char>| decision_cell(row, c))[1] == decision_cell(row, "Title"@));
    assert(cols.map_values(|c: Seq<char>| decision_cell(row, c))[2] == decision_cell(row, "Status"@));
    assert(cols.map_values(|c: Seq<char>| decision_cell(row, c))[3] == decision_cell(row, "Doc"@));
    assert(cols.map_values(|c: Seq<char>| decision_cell(row, c)) =~= e4);
    assert(e4.drop_last() =~= e3);
    assert(e3.drop_last() =~= e2);
    assert(e2.drop_last() =~= e1);
    assert(table_row(e1) == "| "@ + e1[0]);
    assert(table_row(e2) == table_row(e1) + " | "@ + e2.last());
    assert(table_row(e3) == table_row(e2) + " | "@ + e3.last());
    assert(table_row(e4) == table_row(e3) + " | "@ + e4.last());
    assert(decision_index_line(row) == table_line(e4));
}

/// Each row of the decision index lines up with its header: the header row names the
/// columns, and in every row the cell under each column name is what that
/// column shows of the row.
pub proof fn law_decision_rows_line_up_with_header(row: DecisionViewRow)
    ensures
        holds_line(decision_index_head(), table_line(decision_columns())),
        decision_index_line(row) == table_line(decision_columns().map_values(|c: Seq<char>| decision_cell(row, c))),
{
    lemma_decision_line(row);
    let k = (view_marker() + "\n# Decisions\n\nGenerated index of the decision table; records live in this directory.\nAdd decisions with `harness-cli decision add` (doc from `docs/templates/decision.md`).\n\n"@).len() as int;
    let tl = table_line(decision_columns());
    assert(decision_index_head().subrange(k, k + tl.len()) =~= tl);
}

} // verus!
