use vstd::prelude::*;

use crate::error::HarnessInfraError;
use crate::repository::{has_extension, last_index_of};
use crate::markdown::{
    backlog_items, backlog_items_seq, backlog_status_seq, decision_status_seq, empty_to_none,
    is_decision_file_name, is_decision_file_name_seq, markdown_section_first_value,
    normalize_backlog_status, normalize_decision_status, risk_lane_db_value, risk_lane_seq,
    section_first_value_seq, BacklogFields, evidence_from_fields, evidence_seq, field_at, field_at_seq, header_columns, join_seq,
    join_strings, markdown_table_fields, normalize_story_status, normalize_token_chars,
    normalize_token_seq, proof_from_cell, proof_token_absent, story_status_seq, table_fields_seq,
    MatrixColumns,
};
use crate::repository::extension_seq;
use crate::text::{
    chars_eq, chars_of, copy_range, lines_chars, lines_seq, push_str, starts_with_chars,
    starts_with_seq, string_of, strings_view, trim_chars, trim_seq, trim_start_chars,
    trim_start_seq,
};

verus! {

/// A line that belongs to a markdown table: it starts with `|` once
/// leading white space is skipped.
pub open spec fn is_table_line(line: Seq<char>) -> bool {
    starts_with_seq(trim_start_seq(line), "|"@)
}

/// The matrix columns a row names, when it names the story and status
/// columns (the header row).
pub open spec fn matrix_header(fields: Seq<Seq<char>>) -> Option<MatrixColumns> {
    let candidate = header_columns(fields);
    if candidate.story is Some && candidate.status is Some {
        Some(candidate)
    } else {
        None
    }
}

/// The cell's trimmed text, empty when absent or blank.
pub open spec fn cell_text(fields: Seq<Seq<char>>, index: Option<usize>) -> Seq<char> {
    match field_at_seq(fields, index) {
        Some(value) => value,
        None => Seq::empty(),
    }
}

/// A matrix proof cell as 0 or 1.
pub open spec fn proof_value(cell: Seq<char>) -> i64 {
    if proof_token_absent(normalize_token_seq(cell)) {
        0
    } else {
        1
    }
}

/// Every character is `-` (a separator row; vacuously true when empty).
pub open spec fn all_dashes(s: Seq<char>) -> bool {
    forall|i: int| 0 <= i < s.len() ==> s[i] == '-'
}

/// Story ids that are placeholders, not stories.
pub open spec fn placeholder_id(token: Seq<char>) -> bool {
    token == ""@ || token == "story"@ || token == "tbd"@ || token == "todo"@ || token == "example"@
        || token == "examples"@
}

/// A story row of `docs/TEST_MATRIX.md`, as the import reads it.
pub struct MatrixRow {
    pub id: Seq<char>,
    pub title: Seq<char>,
    pub contract_doc: Option<Seq<char>>,
    pub status: Seq<char>,
    pub unit_proof: i64,
    pub integration_proof: i64,
    pub e2e_proof: i64,
    pub platform_proof: i64,
    pub evidence: Option<Seq<char>>,
}

/// The story a table row describes under `columns`, unless its id is a
/// placeholder or a separator. The title is the contract cell, else the
/// id; evidence runs from the evidence column to the end of the row.
pub open spec fn matrix_row(fields: Seq<Seq<char>>, columns: MatrixColumns) -> Option<MatrixRow> {
    let id = cell_text(fields, columns.story);
    if placeholder_id(normalize_token_seq(id)) || all_dashes(id) {
        None
    } else {
        Some(
            MatrixRow {
                id,
                title: match field_at_seq(fields, columns.contract) {
                    Some(title) => title,
                    None => id,
                },
                contract_doc: field_at_seq(fields, columns.contract),
                status: story_status_seq(normalize_token_seq(cell_text(fields, columns.status))),
                unit_proof: proof_value(cell_text(fields, columns.unit)),
                integration_proof: proof_value(cell_text(fields, columns.integration)),
                e2e_proof: proof_value(cell_text(fields, columns.e2e)),
                platform_proof: proof_value(cell_text(fields, columns.platform)),
                evidence: match columns.evidence {
                    Some(i) => evidence_seq(fields, i),
                    None => None,
                },
            },
        )
    }
}

/// Scan the matrix lines: the first table row naming the story and status
/// columns is the header; every later table row of two or more cells may
/// describe a story.
pub open spec fn matrix_scan(lines: Seq<Seq<char>>) -> (Option<MatrixColumns>, Seq<MatrixRow>)
    decreases lines.len(),
{
    if lines.len() == 0 {
        (None, Seq::empty())
    } else {
        let (columns, rows) = matrix_scan(lines.drop_last());
        let line = lines.last();
        let fields = table_fields_seq(line);
        if !is_table_line(line) || fields.len() < 2 {
            (columns, rows)
        } else {
            match columns {
                None => (matrix_header(fields), rows),
                Some(c) => match matrix_row(fields, c) {
                    Some(row) => (columns, rows.push(row)),
                    None => (columns, rows),
                },
            }
        }
    }
}

/// The stories of a `docs/TEST_MATRIX.md`, in order.
pub open spec fn matrix_rows(content: Seq<char>) -> Seq<MatrixRow> {
    matrix_scan(lines_seq(content)).1
}

/// One story to import from the test matrix (upserted by id).
pub struct MatrixStory {
    pub id: String,
    pub title: String,
    pub contract_doc: Option<String>,
    pub status: String,
    pub unit_proof: i64,
    pub integration_proof: i64,
    pub e2e_proof: i64,
    pub platform_proof: i64,
    pub evidence: Option<String>,
}

pub open spec fn opt_view(value: Option<String>) -> Option<Seq<char>> {
    match value {
        Some(s) => Some(s@),
        None => None,
    }
}

pub open spec fn matrix_story_view(story: MatrixStory) -> MatrixRow {
    MatrixRow {
        id: story.id@,
        title: story.title@,
        contract_doc: opt_view(story.contract_doc),
        status: story.status@,
        unit_proof: story.unit_proof,
        integration_proof: story.integration_proof,
        e2e_proof: story.e2e_proof,
        platform_proof: story.platform_proof,
        evidence: opt_view(story.evidence),
    }
}

fn cell_or_empty(fields: &Vec<String>, index: Option<usize>) -> (cell: String)
    ensures
        cell@ == cell_text(strings_view(fields@), index),
{
    match field_at(fields, index) {
        Some(value) => value,
        None => String::new(),
    }
}

fn is_all_dashes(s: &Vec<char>) -> (dashes: bool)
    ensures
        dashes == all_dashes(s@),
{
    let mut i: usize = 0;
    while i < s.len()
        invariant
            i <= s@.len(),
            forall|j: int| 0 <= j < i ==> s@[j] == '-',
        decreases s@.len() - i,
    {
        if s[i] != '-' {
            return false;
        }
        i = i + 1;
    }
    true
}

fn token_is(token: &Vec<char>, literal: &str) -> (same: bool)
    ensures
        same == (token@ == literal@),
{
    chars_eq(token, &chars_of(literal))
}

fn is_placeholder(token: &Vec<char>) -> (placeholder: bool)
    ensures
        placeholder == placeholder_id(token@),
{
    token_is(token, "") || token_is(token, "story") || token_is(token, "tbd") || token_is(
        token,
        "todo",
    ) || token_is(token, "example") || token_is(token, "examples")
}

fn matrix_story(fields: &Vec<String>, columns: &MatrixColumns) -> (story: Option<MatrixStory>)
    ensures
        match story {
            Some(s) => matrix_row(strings_view(fields@), *columns) == Some(matrix_story_view(s)),
            None => matrix_row(strings_view(fields@), *columns) is None,
        },
{
    let id = cell_or_empty(fields, columns.story);
    let id_chars = chars_of(id.as_str());
    if is_placeholder(&normalize_token_chars(&id_chars)) || is_all_dashes(&id_chars) {
        return None;
    }
    let contract_doc = field_at(fields, columns.contract);
    let title = match &contract_doc {
        Some(title) => title.clone(),
        None => id.clone(),
    };
    let status = normalize_story_status(cell_or_empty(fields, columns.status).as_str());
    let unit_proof = proof_from_cell(cell_or_empty(fields, columns.unit).as_str());
    let integration_proof = proof_from_cell(cell_or_empty(fields, columns.integration).as_str());
    let e2e_proof = proof_from_cell(cell_or_empty(fields, columns.e2e).as_str());
    let platform_proof = proof_from_cell(cell_or_empty(fields, columns.platform).as_str());
    let evidence = match columns.evidence {
        Some(i) => evidence_from_fields(fields, i),
        None => None,
    };
    Some(
        MatrixStory {
            id,
            title,
            contract_doc,
            status,
            unit_proof,
            integration_proof,
            e2e_proof,
            platform_proof,
            evidence,
        },
    )
}

fn table_line(line: &Vec<char>) -> (table: bool)
    ensures
        table == is_table_line(line@),
{
    starts_with_chars(&trim_start_chars(line), &chars_of("|"))
}

pub open spec fn stories_view(stories: Seq<MatrixStory>) -> Seq<MatrixRow> {
    stories.map_values(|s: MatrixStory| matrix_story_view(s))
}

/// The stories `import brownfield` takes from a `docs/TEST_MATRIX.md`.
pub fn matrix_stories(content: &str) -> (stories: Vec<MatrixStory>)
    ensures
        stories_view(stories@) == matrix_rows(content@),
{
    let lines = lines_chars(&chars_of(content));
    let ghost all = lines@.map_values(|l: Vec<char>| l@);
    let mut columns: Option<MatrixColumns> = None;
    let mut stories: Vec<MatrixStory> = Vec::new();
    let mut i: usize = 0;
    proof {
        assert(all.take(0) =~= Seq::<Seq<char>>::empty());
        assert(stories_view(stories@) =~= Seq::<MatrixRow>::empty());
    }
    while i < lines.len()
        invariant
            i <= lines@.len(),
            all == lines@.map_values(|l: Vec<char>| l@),
            all == lines_seq(content@),
            (columns, stories_view(stories@)) == matrix_scan(all.take(i as int)),
        decreases lines@.len() - i,
    {
        let line = &lines[i];
        proof {
            assert(all.take(i as int + 1).drop_last() =~= all.take(i as int));
            assert(all.take(i as int + 1).last() == line@);
        }
        if table_line(line) {
            let fields = markdown_table_fields(string_of(line).as_str());
            if fields.len() >= 2 {
                match &columns {
                    None => {
                        let candidate = MatrixColumns::from_header(&fields);
                        if candidate.story.is_some() && candidate.status.is_some() {
                            columns = Some(candidate);
                        }
                    },
                    Some(c) => {
                        match matrix_story(&fields, c) {
                            Some(story) => {
                                let ghost before = stories@;
                                stories.push(story);
                                proof {
                                    assert(stories_view(stories@) =~= stories_view(before).push(
                                        matrix_story_view(story),
                                    ));
                                }
                            },
                            None => {},
                        }
                    },
                }
            }
        }
        i = i + 1;
    }
    proof {
        assert(all.take(i as int) =~= all);
    }
    stories
}

/// Ids the migration guard treats as placeholders (the import's, plus the
/// words of a legend table).
pub open spec fn guard_placeholder(token: Seq<char>) -> bool {
    placeholder_id(token) || token == "status"@ || token == "meaning"@
}

/// Scan the matrix as the migration guard does: after the header row, the
/// first cell of each table row of two or more cells is a story id.
pub open spec fn guard_scan(lines: Seq<Seq<char>>) -> (bool, Seq<Seq<char>>)
    decreases lines.len(),
{
    if lines.len() == 0 {
        (false, Seq::empty())
    } else {
        let (header_seen, ids) = guard_scan(lines.drop_last());
        let line = lines.last();
        let fields = table_fields_seq(line);
        if !is_table_line(line) || fields.len() < 2 {
            (header_seen, ids)
        } else if !header_seen {
            (matrix_header(fields) is Some, ids)
        } else {
            let id = cell_text(fields, Some(0usize));
            if guard_placeholder(normalize_token_seq(id)) || all_dashes(id) {
                (header_seen, ids)
            } else {
                (header_seen, ids.push(id))
            }
        }
    }
}

/// The story ids a hand-written matrix lists, which must all be in the
/// database before moving onto the event log; none for a generated view.
pub open spec fn matrix_ids_to_check_seq(content: Seq<char>) -> Seq<Seq<char>> {
    if starts_with_seq(content, "<!-- generated by harness-cli"@) {
        Seq::empty()
    } else {
        guard_scan(lines_seq(content)).1
    }
}

pub fn matrix_ids_to_check(content: &str) -> (ids: Vec<String>)
    ensures
        strings_view(ids@) == matrix_ids_to_check_seq(content@),
{
    let chars = chars_of(content);
    if starts_with_chars(&chars, &chars_of("<!-- generated by harness-cli")) {
        let empty: Vec<String> = Vec::new();
        assert(strings_view(empty@) =~= Seq::<Seq<char>>::empty());
        return empty;
    }
    let lines = lines_chars(&chars);
    let ghost all = lines@.map_values(|l: Vec<char>| l@);
    let mut header_seen = false;
    let mut ids: Vec<String> = Vec::new();
    let mut i: usize = 0;
    proof {
        assert(all.take(0) =~= Seq::<Seq<char>>::empty());
        assert(strings_view(ids@) =~= Seq::<Seq<char>>::empty());
    }
    while i < lines.len()
        invariant
            i <= lines@.len(),
            all == lines@.map_values(|l: Vec<char>| l@),
            all == lines_seq(content@),
            (header_seen, strings_view(ids@)) == guard_scan(all.take(i as int)),
        decreases lines@.len() - i,
    {
        let line = &lines[i];
        proof {
            assert(all.take(i as int + 1).drop_last() =~= all.take(i as int));
            assert(all.take(i as int + 1).last() == line@);
        }
        if table_line(line) {
            let fields = markdown_table_fields(string_of(line).as_str());
            if fields.len() >= 2 {
                if !header_seen {
                    let candidate = MatrixColumns::from_header(&fields);
                    header_seen = candidate.story.is_some() && candidate.status.is_some();
                } else {
                    let id = cell_or_empty(&fields, Some(0));
                    let id_chars = chars_of(id.as_str());
                    let token = normalize_token_chars(&id_chars);
                    if !(is_placeholder(&token) || token_is(&token, "status") || token_is(
                        &token,
                        "meaning",
                    ) || is_all_dashes(&id_chars)) {
                        let ghost before = ids@;
                        ids.push(id);
                        proof {
                            assert(strings_view(ids@) =~= strings_view(before).push(id@));
                        }
                    }
                }
            }
        }
        i = i + 1;
    }
    proof {
        assert(all.take(i as int) =~= all);
    }
    ids
}

/// The message when matrix stories are missing from the database.
pub open spec fn unimported_rows_message(missing: Seq<Seq<char>>) -> Seq<char> {
    "docs/TEST_MATRIX.md has stories missing from the database ("@ + join_seq(missing, ", "@)
        + ") \u{2014} run `harness-cli import brownfield` before migrating, or they will vanish from the generated view"@
}

/// The migration guard: markdown story rows that never reached the
/// database would vanish from the first generated view, so their presence
/// refuses the move.
pub fn guard_unimported_rows(missing: &Vec<String>) -> (verdict: Result<(), HarnessInfraError>)
    ensures
        missing@.len() == 0 ==> verdict is Ok,
        missing@.len() > 0 ==> match verdict {
            Err(HarnessInfraError::MigrationVerifyFailed(message)) => message@
                == unimported_rows_message(strings_view(missing@)),
            _ => false,
        },
{
    if missing.len() == 0 {
        return Ok(());
    }
    let mut message: Vec<char> = Vec::new();
    push_str(&mut message, "docs/TEST_MATRIX.md has stories missing from the database (");
    push_str(&mut message, join_strings(missing, ", ").as_str());
    push_str(
        &mut message,
        ") \u{2014} run `harness-cli import brownfield` before migrating, or they will vanish from the generated view",
    );
    assert(message@ =~= unimported_rows_message(strings_view(missing@)));
    Err(HarnessInfraError::MigrationVerifyFailed(string_of(&message)))
}

/// `Path::file_stem` of a file name: the name before its last `.`, or the
/// whole name when it has none or only a leading one.
pub open spec fn file_stem_seq(name: Seq<char>) -> Seq<char> {
    match last_index_of(name, '.') {
        Some(i) => if i == 0 {
            name
        } else {
            name.take(i)
        },
        None => name,
    }
}

/// A decision record file: `NNNN-*.md`.
pub open spec fn is_decision_document_seq(name: Seq<char>) -> bool {
    extension_seq(name) == Some("md"@) && is_decision_file_name_seq(name)
}

pub fn is_decision_document(file_name: &str) -> (decision: bool)
    ensures
        decision == is_decision_document_seq(file_name@),
{
    has_extension(file_name, "md") && is_decision_file_name(file_name)
}

/// A decision's title: its first line's `# ` heading text, else its stem.
pub open spec fn decision_title_seq(content: Seq<char>, stem: Seq<char>) -> Seq<char> {
    let lines = lines_seq(content);
    if lines.len() > 0 && starts_with_seq(lines[0], "# "@) && trim_seq(lines[0].skip(2)).len() > 0 {
        trim_seq(lines[0].skip(2))
    } else {
        stem
    }
}

/// A decision record to import (upserted by id).
pub struct DecisionDoc {
    pub id: String,
    pub title: String,
    pub status: String,
    pub doc_path: String,
}

fn file_stem(name: &str) -> (stem: String)
    ensures
        stem@ == file_stem_seq(name@),
{
    let chars = chars_of(name);
    let mut i: usize = chars.len();
    proof {
        assert(name@.take(chars@.len() as int) =~= name@);
    }
    while i > 0 && chars[i - 1] != '.'
        invariant
            i <= chars@.len(),
            chars@ == name@,
            last_index_of(name@, '.') == last_index_of(name@.take(i as int), '.'),
        decreases i,
    {
        proof {
            assert(name@.take(i as int).drop_last() =~= name@.take(i as int - 1));
        }
        i = i - 1;
    }
    proof {
        if i == 0 {
            assert(name@.take(0) =~= Seq::<char>::empty());
        }
    }
    if i <= 1 {
        name.to_owned()
    } else {
        proof {
            assert(name@.take(i as int - 1) =~= name@.subrange(0, i as int - 1));
        }
        string_of(&copy_range(&chars, 0, i - 1))
    }
}

/// The decision a `docs/decisions` file records: id from the file stem,
/// title from the first-line heading, status from `## Status`.
pub fn decision_from_file(file_name: &str, content: &str) -> (doc: DecisionDoc)
    ensures
        doc.id@ == file_stem_seq(file_name@),
        doc.title@ == decision_title_seq(content@, file_stem_seq(file_name@)),
        doc.status@ == decision_status_seq(
            normalize_token_seq(section_first_value_seq(content@, "Status"@)),
        ),
        doc.doc_path@ == "docs/decisions/"@ + file_name@,
{
    let stem = file_stem(file_name);
    let lines = lines_chars(&chars_of(content));
    let mut title = stem.clone();
    if lines.len() > 0 && starts_with_chars(&lines[0], &chars_of("# ")) {
        proof {
            reveal_strlit("# ");
        }
        let first = &lines[0];
        let rest = copy_range(first, 2, first.len());
        let trimmed = trim_chars(&rest);
        proof {
            assert(rest@ =~= first@.skip(2));
        }
        if trimmed.len() > 0 {
            title = string_of(&trimmed);
        }
    }
    let status = normalize_decision_status(markdown_section_first_value(content, "Status").as_str());
    let mut doc_path: Vec<char> = Vec::new();
    push_str(&mut doc_path, "docs/decisions/");
    push_str(&mut doc_path, file_name);
    DecisionDoc { id: stem, title, status, doc_path: string_of(&doc_path) }
}

/// A backlog item to import (skipped when an item of that title exists).
pub struct BacklogImport {
    pub title: String,
    pub discovered_while: Option<String>,
    pub current_pain: Option<String>,
    pub suggested_improvement: Option<String>,
    pub risk: Option<String>,
    pub status: String,
}

pub open spec fn non_empty(value: Seq<char>) -> Option<Seq<char>> {
    if value.len() == 0 {
        None
    } else {
        Some(value)
    }
}

/// Items without a title, and the template's `Short name.` example, are
/// not imported.
pub open spec fn backlog_item_kept(item: BacklogFields) -> bool {
    item.0.len() > 0 && item.0 != "Short name."@
}

pub open spec fn backlog_import_of(item: BacklogFields) -> (
    Seq<char>,
    Option<Seq<char>>,
    Option<Seq<char>>,
    Option<Seq<char>>,
    Option<Seq<char>>,
    Seq<char>,
) {
    (
        item.0,
        non_empty(item.1),
        non_empty(item.2),
        non_empty(item.3),
        if item.4.len() == 0 {
            None
        } else {
            risk_lane_seq(item.4)
        },
        backlog_status_seq(normalize_token_seq(item.5)),
    )
}

pub open spec fn backlog_import_view(item: BacklogImport) -> (
    Seq<char>,
    Option<Seq<char>>,
    Option<Seq<char>>,
    Option<Seq<char>>,
    Option<Seq<char>>,
    Seq<char>,
) {
    (
        item.title@,
        opt_view(item.discovered_while),
        opt_view(item.current_pain),
        opt_view(item.suggested_improvement),
        opt_view(item.risk),
        item.status@,
    )
}

/// The backlog items `import brownfield` takes from a
/// `docs/HARNESS_BACKLOG.md`.
pub open spec fn backlog_imports_seq(content: Seq<char>) -> Seq<
    (Seq<char>, Option<Seq<char>>, Option<Seq<char>>, Option<Seq<char>>, Option<Seq<char>>, Seq<char>),
> {
    backlog_items_seq(content).filter(|item: BacklogFields| backlog_item_kept(item)).map_values(
        |item: BacklogFields| backlog_import_of(item),
    )
}

fn optional_text(value: String) -> (result: Option<String>)
    ensures
        opt_view(result) == non_empty(value@),
{
    match empty_to_none(value) {
        Some(v) => Some(v),
        None => None,
    }
}

pub fn backlog_imports(content: &str) -> (imports: Vec<BacklogImport>)
    ensures
        imports@.map_values(|i: BacklogImport| backlog_import_view(i)) == backlog_imports_seq(content@),
{
    let items = backlog_items(content);
    let ghost all = backlog_items_seq(content@);
    assert(items@.map_values(|i: crate::markdown::BacklogMarkdownItem| i.fields()) == all);
    let mut imports: Vec<BacklogImport> = Vec::new();
    let mut i: usize = 0;
    proof {
        assert(all.take(0).filter(|item: BacklogFields| backlog_item_kept(item)) =~= Seq::<BacklogFields>::empty());
    }
    while i < items.len()
        invariant
            i <= items@.len(),
            all == backlog_items_seq(content@),
            items@.map_values(|i: crate::markdown::BacklogMarkdownItem| i.fields()) == all,
            imports@.map_values(|i: BacklogImport| backlog_import_view(i)) == all.take(i as int).filter(
                |item: BacklogFields| backlog_item_kept(item),
            ).map_values(|item: BacklogFields| backlog_import_of(item)),
        decreases items@.len() - i,
    {
        let item = &items[i];
        let ghost fields = item.fields();
        proof {
            assert(all[i as int] == fields);
            all.take(i as int).lemma_filter_push(fields, |item: BacklogFields| backlog_item_kept(item));
            assert(all.take(i as int).push(fields) =~= all.take(i as int + 1));
        }
        let ghost before = imports@;
        if !item.title.as_str().is_empty() && !(item.title == "Short name.".to_owned()) {
            let risk = if item.risk.as_str().is_empty() {
                None
            } else {
                risk_lane_db_value(item.risk.as_str())
            };
            let import = BacklogImport {
                title: item.title.clone(),
                discovered_while: optional_text(item.discovered_while.clone()),
                current_pain: optional_text(item.current_pain.clone()),
                suggested_improvement: optional_text(item.suggested_improvement.clone()),
                risk,
                status: normalize_backlog_status(item.status.as_str()),
            };
            proof {
                assert(backlog_import_view(import) == backlog_import_of(fields));
            }
            imports.push(import);
            proof {
                assert(imports@.map_values(|i: BacklogImport| backlog_import_view(i)) =~= before.map_values(
                    |i: BacklogImport| backlog_import_view(i),
                ).push(backlog_import_of(fields)));
            }
        }
        i = i + 1;
    }
    proof {
        assert(all.take(i as int) =~= all);
    }
    imports
}

/// Brownfield import only seeds a cache that the log does not yet own: on
/// an event-backed cache it is refused unless the cache and the log are
/// both still empty.
pub fn brownfield_gate(event_backed: bool, durable_rows: i64, event_files: usize) -> (verdict: Result<
    (),
    HarnessInfraError,
>)
    ensures
        verdict is Ok <==> !(event_backed && (durable_rows > 0 || event_files > 0)),
        verdict is Err ==> verdict == Err::<(), HarnessInfraError>(HarnessInfraError::BrownfieldOnEventBacked),
{
    if event_backed && (durable_rows > 0 || event_files > 0) {
        Err(HarnessInfraError::BrownfieldOnEventBacked)
    } else {
        Ok(())
    }
}

} // verus!
