use vstd::prelude::*;

use crate::error::HarnessInfraError;
use crate::replay::{
    event_timestamp, event_timestamp_seq, opt_text_view, p_i64, p_id,
    p_json_text, p_str, payload_i64, payload_id, payload_json_text, payload_str, JsonScalar,
    LogEvent,
};
use crate::text::{push_str, string_of};

verus! {

/// A value bound to an SQL parameter or read from a column.
#[derive(Debug, Clone, PartialEq, Eq)]
pub enum SqlValue {
    Null,
    Integer(i64),
    /// A REAL, as its text.
    Real(String),
    Text(String),
    Blob(Vec<u8>),
}

pub enum SqlView {
    Null,
    Integer(int),
    Real(Seq<char>),
    Text(Seq<char>),
    Blob(Seq<u8>),
}

impl View for SqlValue {
    type V = SqlView;

    open spec fn view(&self) -> SqlView {
        match self {
            SqlValue::Null => SqlView::Null,
            SqlValue::Integer(n) => SqlView::Integer(*n as int),
            SqlValue::Real(text) => SqlView::Real(text@),
            SqlValue::Text(text) => SqlView::Text(text@),
            SqlValue::Blob(bytes) => SqlView::Blob(bytes@),
        }
    }
}

/// NULL when absent, the text otherwise.
pub open spec fn text_or_null(value: Option<Seq<char>>) -> SqlView {
    match value {
        Some(text) => SqlView::Text(text),
        None => SqlView::Null,
    }
}

/// NULL when absent, the integer otherwise.
pub open spec fn int_or_null(value: Option<i64>) -> SqlView {
    match value {
        Some(n) => SqlView::Integer(n as int),
        None => SqlView::Null,
    }
}

/// The text, or `default` when absent (`COALESCE(?, default)`).
pub open spec fn text_or(value: Option<Seq<char>>, default: Seq<char>) -> SqlView {
    match value {
        Some(text) => SqlView::Text(text),
        None => SqlView::Text(default),
    }
}

/// The integer, or 0 when absent (`COALESCE(?, 0)`).
pub open spec fn int_or_zero(value: Option<i64>) -> SqlView {
    match value {
        Some(n) => SqlView::Integer(n as int),
        None => SqlView::Integer(0),
    }
}

/// How one event changes the cache.
pub enum CacheWrite {
    /// Insert one row with these column values.
    Insert { table: String, columns: Vec<(String, SqlValue)> },
    /// Set these columns on the rows whose `key_column` equals `key`.
    Update { table: String, columns: Vec<(String, SqlValue)>, key_column: String, key: SqlValue },
    /// Delete the rows whose `key_column` equals `key`.
    Delete { table: String, key_column: String, key: SqlValue },
    /// A `story.update`: each listed field goes through per-field
    /// last-writer-wins (`lww_decide`). Only fields with an integer or
    /// string value are listed; any other field is left alone, stamp and
    /// value, so that the outcome does not depend on arrival order.
    StoryFields { story_id: String, fields: Vec<(String, SqlValue)> },
    /// No change.
    Nothing,
}

pub enum CacheWriteView {
    Insert(Seq<char>, Seq<(Seq<char>, SqlView)>),
    Update(Seq<char>, Seq<(Seq<char>, SqlView)>, Seq<char>, SqlView),
    Delete(Seq<char>, Seq<char>, SqlView),
    StoryFields(Seq<char>, Seq<(Seq<char>, SqlView)>),
    Nothing,
}

pub open spec fn columns_view(columns: Seq<(String, SqlValue)>) -> Seq<(Seq<char>, SqlView)> {
    columns.map_values(|c: (String, SqlValue)| (c.0@, c.1@))
}

impl View for CacheWrite {
    type V = CacheWriteView;

    open spec fn view(&self) -> CacheWriteView {
        match self {
            CacheWrite::Insert { table, columns } => CacheWriteView::Insert(
                table@,
                columns_view(columns@),
            ),
            CacheWrite::Update { table, columns, key_column, key } => CacheWriteView::Update(
                table@,
                columns_view(columns@),
                key_column@,
                key@,
            ),
            CacheWrite::Delete { table, key_column, key } => CacheWriteView::Delete(
                table@,
                key_column@,
                key@,
            ),
            CacheWrite::StoryFields { story_id, fields } => CacheWriteView::StoryFields(
                story_id@,
                columns_view(fields@),
            ),
            CacheWrite::Nothing => CacheWriteView::Nothing,
        }
    }
}

pub open spec fn intake_columns(p: Seq<(String, JsonScalar)>, created_at: Seq<char>) -> Seq<
    (Seq<char>, SqlView),
> {
    seq![
        ("id"@, text_or_null(payload_id(p, "id"@))),
        ("created_at"@, SqlView::Text(created_at)),
        ("input_type"@, text_or_null(payload_str(p, "input_type"@))),
        ("summary"@, text_or_null(payload_str(p, "summary"@))),
        ("risk_lane"@, text_or_null(payload_str(p, "risk_lane"@))),
        ("risk_flags"@, text_or_null(payload_json_text(p, "risk_flags"@))),
        ("affected_docs"@, text_or_null(payload_json_text(p, "affected_docs"@))),
        ("story_id"@, text_or_null(payload_str(p, "story_id"@))),
        ("notes"@, text_or_null(payload_str(p, "notes"@))),
    ]
}

pub open spec fn story_columns(p: Seq<(String, JsonScalar)>, created_at: Seq<char>) -> Seq<
    (Seq<char>, SqlView),
> {
    seq![
        ("id"@, text_or_null(payload_str(p, "id"@))),
        ("title"@, text_or_null(payload_str(p, "title"@))),
        ("created_at"@, SqlView::Text(created_at)),
        ("risk_lane"@, text_or_null(payload_str(p, "risk_lane"@))),
        ("contract_doc"@, text_or_null(payload_str(p, "contract_doc"@))),
        ("status"@, text_or(payload_str(p, "status"@), "planned"@)),
        ("unit_proof"@, int_or_zero(payload_i64(p, "unit_proof"@))),
        ("integration_proof"@, int_or_zero(payload_i64(p, "integration_proof"@))),
        ("e2e_proof"@, int_or_zero(payload_i64(p, "e2e_proof"@))),
        ("platform_proof"@, int_or_zero(payload_i64(p, "platform_proof"@))),
        ("evidence"@, text_or_null(payload_str(p, "evidence"@))),
        ("verify_command"@, text_or_null(payload_str(p, "verify_command"@))),
        ("last_verified_at"@, text_or_null(payload_str(p, "last_verified_at"@))),
        ("last_verified_result"@, text_or_null(payload_str(p, "last_verified_result"@))),
        ("notes"@, text_or_null(payload_str(p, "notes"@))),
    ]
}

pub open spec fn decision_columns(p: Seq<(String, JsonScalar)>, created_at: Seq<char>) -> Seq<
    (Seq<char>, SqlView),
> {
    seq![
        ("id"@, text_or_null(payload_str(p, "id"@))),
        ("title"@, text_or_null(payload_str(p, "title"@))),
        ("created_at"@, SqlView::Text(created_at)),
        ("status"@, text_or(payload_str(p, "status"@), "proposed"@)),
        ("doc_path"@, text_or_null(payload_str(p, "doc_path"@))),
        ("verify_command"@, text_or_null(payload_str(p, "verify_command"@))),
        ("last_verified_at"@, text_or_null(payload_str(p, "last_verified_at"@))),
        ("last_verified_result"@, text_or_null(payload_str(p, "last_verified_result"@))),
        ("predicted_impact"@, text_or_null(payload_str(p, "predicted_impact"@))),
        ("actual_outcome"@, text_or_null(payload_str(p, "actual_outcome"@))),
        ("notes"@, text_or_null(payload_str(p, "notes"@))),
    ]
}

pub open spec fn backlog_columns(p: Seq<(String, JsonScalar)>, created_at: Seq<char>) -> Seq<
    (Seq<char>, SqlView),
> {
    seq![
        ("id"@, text_or_null(payload_id(p, "id"@))),
        ("created_at"@, SqlView::Text(created_at)),
        ("title"@, text_or_null(payload_str(p, "title"@))),
        ("discovered_while"@, text_or_null(payload_str(p, "discovered_while"@))),
        ("current_pain"@, text_or_null(payload_str(p, "current_pain"@))),
        ("suggested_improvement"@, text_or_null(payload_str(p, "suggested_improvement"@))),
        ("risk"@, text_or_null(payload_str(p, "risk"@))),
        ("status"@, text_or(payload_str(p, "status"@), "proposed"@)),
        ("predicted_impact"@, text_or_null(payload_str(p, "predicted_impact"@))),
        ("actual_outcome"@, text_or_null(payload_str(p, "actual_outcome"@))),
        ("implemented_at"@, text_or_null(payload_str(p, "implemented_at"@))),
        ("notes"@, text_or_null(payload_str(p, "notes"@))),
    ]
}

pub open spec fn tool_columns(p: Seq<(String, JsonScalar)>, created_at: Seq<char>) -> Seq<
    (Seq<char>, SqlView),
> {
    seq![
        ("name"@, text_or_null(payload_str(p, "name"@))),
        ("created_at"@, SqlView::Text(created_at)),
        ("provider"@, text_or(payload_str(p, "provider"@), "custom"@)),
        ("command"@, text_or_null(payload_str(p, "command"@))),
        ("description"@, text_or_null(payload_str(p, "description"@))),
        ("args"@, text_or_null(payload_json_text(p, "args"@))),
        ("responsibility"@, text_or_null(payload_str(p, "responsibility"@))),
        ("since"@, text_or(payload_str(p, "since"@), "registered"@)),
        ("kind"@, text_or_null(payload_str(p, "kind"@))),
        ("capability"@, text_or_null(payload_str(p, "capability"@))),
        ("scan_target"@, text_or_null(payload_str(p, "scan_target"@))),
        ("status"@, SqlView::Text("unknown"@)),
    ]
}

pub open spec fn intervention_columns(p: Seq<(String, JsonScalar)>, created_at: Seq<char>) -> Seq<
    (Seq<char>, SqlView),
> {
    seq![
        ("id"@, text_or_null(payload_id(p, "id"@))),
        ("created_at"@, SqlView::Text(created_at)),
        ("trace_id"@, text_or_null(payload_id(p, "trace_id"@))),
        ("story_id"@, text_or_null(payload_str(p, "story_id"@))),
        ("type"@, text_or_null(payload_str(p, "type"@))),
        ("description"@, text_or_null(payload_str(p, "description"@))),
        ("source"@, text_or_null(payload_str(p, "source"@))),
        ("impact"@, text_or_null(payload_str(p, "impact"@))),
    ]
}

pub open spec fn signal_columns(p: Seq<(String, JsonScalar)>, created_at: Seq<char>) -> Seq<
    (Seq<char>, SqlView),
> {
    seq![
        ("id"@, text_or_null(payload_id(p, "id"@))),
        ("created_at"@, SqlView::Text(created_at)),
        ("story_id"@, text_or_null(payload_str(p, "story_id"@))),
        ("trace_id"@, text_or_null(payload_id(p, "trace_id"@))),
        ("type"@, text_or_null(payload_str(p, "type"@))),
        ("summary"@, text_or_null(payload_str(p, "summary"@))),
        ("component"@, text_or_null(payload_str(p, "component"@))),
        ("notes"@, text_or_null(payload_str(p, "notes"@))),
    ]
}

pub open spec fn trace_columns(p: Seq<(String, JsonScalar)>, created_at: Seq<char>) -> Seq<
    (Seq<char>, SqlView),
> {
    seq![
        ("id"@, text_or_null(payload_id(p, "id"@))),
        ("created_at"@, SqlView::Text(created_at)),
        ("task_summary"@, text_or_null(payload_str(p, "task_summary"@))),
        ("intake_id"@, text_or_null(payload_id(p, "intake_id"@))),
        ("story_id"@, text_or_null(payload_str(p, "story_id"@))),
        ("agent"@, text_or_null(payload_str(p, "agent"@))),
        ("actions_taken"@, text_or_null(payload_json_text(p, "actions_taken"@))),
        ("files_read"@, text_or_null(payload_json_text(p, "files_read"@))),
        ("files_changed"@, text_or_null(payload_json_text(p, "files_changed"@))),
        ("decisions_made"@, text_or_null(payload_json_text(p, "decisions_made"@))),
        ("errors"@, text_or_null(payload_json_text(p, "errors"@))),
        ("outcome"@, text_or_null(payload_str(p, "outcome"@))),
        ("duration_seconds"@, int_or_null(payload_i64(p, "duration_seconds"@))),
        ("token_estimate"@, int_or_null(payload_i64(p, "token_estimate"@))),
        ("harness_friction"@, text_or_null(payload_str(p, "harness_friction"@))),
        ("notes"@, text_or_null(payload_str(p, "notes"@))),
    ]
}

/// The story fields a `story.update` may carry, in the order they apply.
pub open spec fn story_update_fields() -> Seq<Seq<char>> {
    seq![
        "status"@,
        "evidence"@,
        "unit_proof"@,
        "integration_proof"@,
        "e2e_proof"@,
        "platform_proof"@,
        "verify_command"@,
    ]
}

/// The decision fields a `decision.update` may carry, in order.
pub open spec fn decision_update_fields() -> Seq<Seq<char>> {
    seq!["title"@, "status"@, "doc_path"@, "verify_command"@, "predicted_impact"@, "notes"@]
}

/// The value a story field takes from the payload: an integer, else a
/// string, else none (the field is then not updated at all).
pub open spec fn story_field_value(p: Seq<(String, JsonScalar)>, field: Seq<char>) -> Option<SqlView> {
    match payload_i64(p, field) {
        Some(n) => Some(SqlView::Integer(n as int)),
        None => match payload_str(p, field) {
            Some(text) => Some(SqlView::Text(text)),
            None => None,
        },
    }
}

/// The fields among `names` that the payload carries with an integer or
/// string value, with that value.
pub open spec fn story_fields_present(p: Seq<(String, JsonScalar)>, names: Seq<Seq<char>>) -> Seq<
    (Seq<char>, SqlView),
>
    decreases names.len(),
{
    if names.len() == 0 {
        Seq::empty()
    } else {
        let rest = story_fields_present(p, names.drop_last());
        let field = names.last();
        match story_field_value(p, field) {
            Some(v) => rest.push((field, v)),
            None => rest,
        }
    }
}

/// The string fields among `names` that the payload carries.
pub open spec fn decision_fields_present(p: Seq<(String, JsonScalar)>, names: Seq<Seq<char>>) -> Seq<
    (Seq<char>, SqlView),
>
    decreases names.len(),
{
    if names.len() == 0 {
        Seq::empty()
    } else {
        let rest = decision_fields_present(p, names.drop_last());
        let field = names.last();
        match payload_str(p, field) {
            Some(text) => rest.push((field, SqlView::Text(text))),
            None => rest,
        }
    }
}

/// How an event with this `op` and payload changes the cache (`None` for
/// an op this format does not know). Timestamps come from the event.
pub open spec fn cache_write_spec(op: Seq<char>, p: Seq<(String, JsonScalar)>, recorded_at: Seq<char>) -> Option<
    CacheWriteView,
> {
    let ts = event_timestamp_seq(recorded_at);
    if op == "intake.record"@ {
        Some(CacheWriteView::Insert("intake"@, intake_columns(p, ts)))
    } else if op == "story.add"@ {
        Some(CacheWriteView::Insert("story"@, story_columns(p, ts)))
    } else if op == "story.update"@ {
        match payload_str(p, "id"@) {
            Some(id) => Some(
                CacheWriteView::StoryFields(id, story_fields_present(p, story_update_fields())),
            ),
            None => Some(CacheWriteView::Nothing),
        }
    } else if op == "story.verify_result"@ {
        Some(
            CacheWriteView::Update(
                "story"@,
                seq![
                    ("last_verified_at"@, SqlView::Text(ts)),
                    ("last_verified_result"@, text_or_null(payload_str(p, "result"@))),
                ],
                "id"@,
                text_or_null(payload_str(p, "id"@)),
            ),
        )
    } else if op == "decision.add"@ {
        Some(CacheWriteView::Insert("decision"@, decision_columns(p, ts)))
    } else if op == "decision.update"@ {
        match payload_str(p, "id"@) {
            Some(id) => {
                let fields = decision_fields_present(p, decision_update_fields());
                if fields.len() == 0 {
                    Some(CacheWriteView::Nothing)
                } else {
                    Some(CacheWriteView::Update("decision"@, fields, "id"@, SqlView::Text(id)))
                }
            },
            None => Some(CacheWriteView::Nothing),
        }
    } else if op == "decision.verify_result"@ {
        Some(
            CacheWriteView::Update(
                "decision"@,
                seq![
                    ("last_verified_at"@, SqlView::Text(ts)),
                    ("last_verified_result"@, text_or_null(payload_str(p, "result"@))),
                ],
                "id"@,
                text_or_null(payload_str(p, "id"@)),
            ),
        )
    } else if op == "backlog.add"@ {
        Some(CacheWriteView::Insert("backlog"@, backlog_columns(p, ts)))
    } else if op == "backlog.close"@ {
        Some(
            CacheWriteView::Update(
                "backlog"@,
                seq![
                    ("status"@, text_or_null(payload_str(p, "status"@))),
                    ("actual_outcome"@, text_or_null(payload_str(p, "actual_outcome"@))),
                    ("implemented_at"@, SqlView::Text(ts)),
                ],
                "id"@,
                text_or_null(payload_id(p, "id"@)),
            ),
        )
    } else if op == "tool.register"@ {
        Some(CacheWriteView::Insert("tool"@, tool_columns(p, ts)))
    } else if op == "tool.remove"@ {
        Some(CacheWriteView::Delete("tool"@, "name"@, text_or_null(payload_str(p, "name"@))))
    } else if op == "intervention.add"@ {
        Some(CacheWriteView::Insert("intervention"@, intervention_columns(p, ts)))
    } else if op == "signal.add"@ {
        Some(CacheWriteView::Insert("story_signal"@, signal_columns(p, ts)))
    } else if op == "trace.record"@ {
        Some(CacheWriteView::Insert("trace"@, trace_columns(p, ts)))
    } else {
        None
    }
}


/// A verify result is recorded on the row it is about: for a story and for
/// a decision alike, `<entity>.verify_result` updates the table that
/// `<entity>.add` inserts into, which is the table named `<entity>`, on the
/// row whose `id` is the payload's `id`, setting when it was verified (the
/// event's time) and the result the payload carries.
pub proof fn law_verify_result_updates_its_own_table(entity: Seq<char>, p: Seq<(String, JsonScalar)>, recorded_at: Seq<char>)
    requires
        entity == "story"@ || entity == "decision"@,
    ensures
        cache_write_spec(entity + ".verify_result"@, p, recorded_at) is Some,
        cache_write_spec(entity + ".verify_result"@, p, recorded_at)->0 is Update,
        cache_write_spec(entity + ".add"@, p, recorded_at) is Some,
        cache_write_spec(entity + ".add"@, p, recorded_at)->0 is Insert,
        cache_write_spec(entity + ".add"@, p, recorded_at) matches Some(CacheWriteView::Insert(added, _))
            ==> added == entity,
        cache_write_spec(entity + ".verify_result"@, p, recorded_at) matches Some(
            CacheWriteView::Update(table, columns, key_column, key),
        ) ==> {
            &&& table == entity
            &&& key_column == "id"@
            &&& key == text_or_null(payload_str(p, "id"@))
            &&& columns.contains(("last_verified_result"@, text_or_null(payload_str(p, "result"@))))
            &&& columns.contains(("last_verified_at"@, SqlView::Text(event_timestamp_seq(recorded_at))))
        },
{
    reveal_strlit("intake.record");
    reveal_strlit("story.add");
    reveal_strlit("story.update");
    reveal_strlit("story.verify_result");
    reveal_strlit("decision.add");
    reveal_strlit("decision.update");
    reveal_strlit("decision.verify_result");
    reveal_strlit("backlog.add");
    reveal_strlit("backlog.close");
    reveal_strlit("tool.register");
    reveal_strlit("tool.remove");
    reveal_strlit("intervention.add");
    reveal_strlit("signal.add");
    reveal_strlit("trace.record");
    reveal_strlit("story");
    reveal_strlit("decision");
    reveal_strlit(".verify_result");
    reveal_strlit(".add");
    let columns = seq![
        ("last_verified_at"@, SqlView::Text(event_timestamp_seq(recorded_at))),
        ("last_verified_result"@, text_or_null(payload_str(p, "result"@))),
    ];
    assert(columns[0] == ("last_verified_at"@, SqlView::Text(event_timestamp_seq(recorded_at))));
    assert(columns[1] == ("last_verified_result"@, text_or_null(payload_str(p, "result"@))));
    if entity == "story"@ {
        assert(entity + ".verify_result"@ =~= "story.verify_result"@);
        assert(entity + ".add"@ =~= "story.add"@);
        assert("story.add"@ != "intake.record"@);
    } else {
        assert(entity + ".verify_result"@ =~= "decision.verify_result"@);
        assert(entity + ".add"@ =~= "decision.add"@);
        assert("decision.add"@ != "intake.record"@);
        assert("decision.add"@ != "story.add"@);
        assert("decision.add"@[0] != "story.update"@[0]);
        assert("decision.add"@ != "story.verify_result"@);
        assert("decision.verify_result"@ != "decision.update"@);
    }
}

/// A column whose value is read from the payload member of the same name
/// (as text, an id, JSON text or an integer, with or without a default),
/// or the event's time for `created_at`.
pub open spec fn column_reads_member(p: Seq<(String, JsonScalar)>, column: (Seq<char>, SqlView), created_at: Seq<char>) -> bool {
    let name = column.0;
    let v = column.1;
    ||| name == "created_at"@ && v == SqlView::Text(created_at)
    ||| v == text_or_null(payload_str(p, name))
    ||| v == text_or_null(payload_id(p, name))
    ||| v == text_or_null(payload_json_text(p, name))
    ||| v == int_or_zero(payload_i64(p, name))
    ||| v == int_or_null(payload_i64(p, name))
    ||| exists|d: Seq<char>| v == #[trigger] text_or(payload_str(p, name), d)
}

proof fn lemma_intake_columns_members(p: Seq<(String, JsonScalar)>, created_at: Seq<char>, i: int)
    requires
        0 <= i < intake_columns(p, created_at).len(),
    ensures
        column_reads_member(p, intake_columns(p, created_at)[i], created_at),
{
    let cols = intake_columns(p, created_at);
    let c = cols[i];
    assert(text_or(payload_str(p, c.0), "planned"@) == text_or(payload_str(p, c.0), "planned"@));
    assert(text_or(payload_str(p, c.0), "proposed"@) == text_or(payload_str(p, c.0), "proposed"@));
    assert(text_or(payload_str(p, c.0), "custom"@) == text_or(payload_str(p, c.0), "custom"@));
    assert(text_or(payload_str(p, c.0), "registered"@) == text_or(payload_str(p, c.0), "registered"@));
}

proof fn lemma_story_columns_members(p: Seq<(String, JsonScalar)>, created_at: Seq<char>, i: int)
    requires
        0 <= i < story_columns(p, created_at).len(),
    ensures
        column_reads_member(p, story_columns(p, created_at)[i], created_at),
{
    let cols = story_columns(p, created_at);
    let c = cols[i];
    assert(text_or(payload_str(p, c.0), "planned"@) == text_or(payload_str(p, c.0), "planned"@));
    assert(text_or(payload_str(p, c.0), "proposed"@) == text_or(payload_str(p, c.0), "proposed"@));
    assert(text_or(payload_str(p, c.0), "custom"@) == text_or(payload_str(p, c.0), "custom"@));
    assert(text_or(payload_str(p, c.0), "registered"@) == text_or(payload_str(p, c.0), "registered"@));
}

proof fn lemma_decision_columns_members(p: Seq<(String, JsonScalar)>, created_at: Seq<char>, i: int)
    requires
        0 <= i < decision_columns(p, created_at).len(),
    ensures
        column_reads_member(p, decision_columns(p, created_at)[i], created_at),
{
    let cols = decision_columns(p, created_at);
    let c = cols[i];
    assert(text_or(payload_str(p, c.0), "planned"@) == text_or(payload_str(p, c.0), "planned"@));
    assert(text_or(payload_str(p, c.0), "proposed"@) == text_or(payload_str(p, c.0), "proposed"@));
    assert(text_or(payload_str(p, c.0), "custom"@) == text_or(payload_str(p, c.0), "custom"@));
    assert(text_or(payload_str(p, c.0), "registered"@) == text_or(payload_str(p, c.0), "registered"@));
}

proof fn lemma_backlog_columns_members(p: Seq<(String, JsonScalar)>, created_at: Seq<char>, i: int)
    requires
        0 <= i < backlog_columns(p, created_at).len(),
    ensures
        column_reads_member(p, backlog_columns(p, created_at)[i], created_at),
{
    let cols = backlog_columns(p, created_at);
    let c = cols[i];
    assert(text_or(payload_str(p, c.0), "planned"@) == text_or(payload_str(p, c.0), "planned"@));
    assert(text_or(payload_str(p, c.0), "proposed"@) == text_or(payload_str(p, c.0), "proposed"@));
    assert(text_or(payload_str(p, c.0), "custom"@) == text_or(payload_str(p, c.0), "custom"@));
    assert(text_or(payload_str(p, c.0), "registered"@) == text_or(payload_str(p, c.0), "registered"@));
}

proof fn lemma_tool_columns_members(p: Seq<(String, JsonScalar)>, created_at: Seq<char>, i: int)
    requires
        0 <= i < tool_columns(p, created_at).len(),
    ensures
        column_reads_member(p, tool_columns(p, created_at)[i], created_at) || tool_columns(p, created_at)[i] == ("status"@, SqlView::Text("unknown"@)),
{
    let cols = tool_columns(p, created_at);
    let c = cols[i];
    assert(text_or(payload_str(p, c.0), "planned"@) == text_or(payload_str(p, c.0), "planned"@));
    assert(text_or(payload_str(p, c.0), "proposed"@) == text_or(payload_str(p, c.0), "proposed"@));
    assert(text_or(payload_str(p, c.0), "custom"@) == text_or(payload_str(p, c.0), "custom"@));
    assert(text_or(payload_str(p, c.0), "registered"@) == text_or(payload_str(p, c.0), "registered"@));
}

proof fn lemma_intervention_columns_members(p: Seq<(String, JsonScalar)>, created_at: Seq<char>, i: int)
    requires
        0 <= i < intervention_columns(p, created_at).len(),
    ensures
        column_reads_member(p, intervention_columns(p, created_at)[i], created_at),
{
    let cols = intervention_columns(p, created_at);
    let c = cols[i];
    assert(text_or(payload_str(p, c.0), "planned"@) == text_or(payload_str(p, c.0), "planned"@));
    assert(text_or(payload_str(p, c.0), "proposed"@) == text_or(payload_str(p, c.0), "proposed"@));
    assert(text_or(payload_str(p, c.0), "custom"@) == text_or(payload_str(p, c.0), "custom"@));
    assert(text_or(payload_str(p, c.0), "registered"@) == text_or(payload_str(p, c.0), "registered"@));
}

proof fn lemma_signal_columns_members(p: Seq<(String, JsonScalar)>, created_at: Seq<char>, i: int)
    requires
        0 <= i < signal_columns(p, created_at).len(),
    ensures
        column_reads_member(p, signal_columns(p, created_at)[i], created_at),
{
    let cols = signal_columns(p, created_at);
    let c = cols[i];
    assert(text_or(payload_str(p, c.0), "planned"@) == text_or(payload_str(p, c.0), "planned"@));
    assert(text_or(payload_str(p, c.0), "proposed"@) == text_or(payload_str(p, c.0), "proposed"@));
    assert(text_or(payload_str(p, c.0), "custom"@) == text_or(payload_str(p, c.0), "custom"@));
    assert(text_or(payload_str(p, c.0), "registered"@) == text_or(payload_str(p, c.0), "registered"@));
}

proof fn lemma_trace_columns_members(p: Seq<(String, JsonScalar)>, created_at: Seq<char>, i: int)
    requires
        0 <= i < trace_columns(p, created_at).len(),
    ensures
        column_reads_member(p, trace_columns(p, created_at)[i], created_at),
{
    let cols = trace_columns(p, created_at);
    let c = cols[i];
    assert(text_or(payload_str(p, c.0), "planned"@) == text_or(payload_str(p, c.0), "planned"@));
    assert(text_or(payload_str(p, c.0), "proposed"@) == text_or(payload_str(p, c.0), "proposed"@));
    assert(text_or(payload_str(p, c.0), "custom"@) == text_or(payload_str(p, c.0), "custom"@));
    assert(text_or(payload_str(p, c.0), "registered"@) == text_or(payload_str(p, c.0), "registered"@));
}

/// Inserted rows take each column from the payload member of the same
/// name: for every insert a replayed event makes, every column is read
/// from the member named like it (or is the event's time for
/// `created_at`); a registered tool's scan status alone starts `unknown`,
/// since scan state is never logged.
pub proof fn law_inserted_columns_read_their_own_members(p: Seq<(String, JsonScalar)>, created_at: Seq<char>)
    ensures
        forall|i: int|
            0 <= i < intake_columns(p, created_at).len() ==> column_reads_member(p, #[trigger] intake_columns(p, created_at)[i], created_at),
        forall|i: int|
            0 <= i < story_columns(p, created_at).len() ==> column_reads_member(p, #[trigger] story_columns(p, created_at)[i], created_at),
        forall|i: int|
            0 <= i < decision_columns(p, created_at).len() ==> column_reads_member(p, #[trigger] decision_columns(p, created_at)[i], created_at),
        forall|i: int|
            0 <= i < backlog_columns(p, created_at).len() ==> column_reads_member(p, #[trigger] backlog_columns(p, created_at)[i], created_at),
        forall|i: int|
            0 <= i < tool_columns(p, created_at).len() ==> column_reads_member(p, #[trigger] tool_columns(p, created_at)[i], created_at) || tool_columns(p, created_at)[i] == ("status"@, SqlView::Text("unknown"@)),
        forall|i: int|
            0 <= i < intervention_columns(p, created_at).len() ==> column_reads_member(p, #[trigger] intervention_columns(p, created_at)[i], created_at),
        forall|i: int|
            0 <= i < signal_columns(p, created_at).len() ==> column_reads_member(p, #[trigger] signal_columns(p, created_at)[i], created_at),
        forall|i: int|
            0 <= i < trace_columns(p, created_at).len() ==> column_reads_member(p, #[trigger] trace_columns(p, created_at)[i], created_at),
{
    assert(intake_columns(p, created_at).len() == 9);
    assert forall|i: int| 0 <= i < 9 implies column_reads_member(p, #[trigger] intake_columns(p, created_at)[i], created_at) by {
        lemma_intake_columns_members(p, created_at, i);
    }
    assert(story_columns(p, created_at).len() == 15);
    assert forall|i: int| 0 <= i < 15 implies column_reads_member(p, #[trigger] story_columns(p, created_at)[i], created_at) by {
        lemma_story_columns_members(p, created_at, i);
    }
    assert(decision_columns(p, created_at).len() == 11);
    assert forall|i: int| 0 <= i < 11 implies column_reads_member(p, #[trigger] decision_columns(p, created_at)[i], created_at) by {
        lemma_decision_columns_members(p, created_at, i);
    }
    assert(backlog_columns(p, created_at).len() == 12);
    assert forall|i: int| 0 <= i < 12 implies column_reads_member(p, #[trigger] backlog_columns(p, created_at)[i], created_at) by {
        lemma_backlog_columns_members(p, created_at, i);
    }
    assert(tool_columns(p, created_at).len() == 12);
    assert forall|i: int| 0 <= i < 12 implies column_reads_member(p, #[trigger] tool_columns(p, created_at)[i], created_at) || tool_columns(p, created_at)[i] == ("status"@, SqlView::Text("unknown"@)) by {
        lemma_tool_columns_members(p, created_at, i);
    }
    assert(intervention_columns(p, created_at).len() == 8);
    assert forall|i: int| 0 <= i < 8 implies column_reads_member(p, #[trigger] intervention_columns(p, created_at)[i], created_at) by {
        lemma_intervention_columns_members(p, created_at, i);
    }
    assert(signal_columns(p, created_at).len() == 8);
    assert forall|i: int| 0 <= i < 8 implies column_reads_member(p, #[trigger] signal_columns(p, created_at)[i], created_at) by {
        lemma_signal_columns_members(p, created_at, i);
    }
    assert(trace_columns(p, created_at).len() == 16);
    assert forall|i: int| 0 <= i < 16 implies column_reads_member(p, #[trigger] trace_columns(p, created_at)[i], created_at) by {
        lemma_trace_columns_members(p, created_at, i);
    }
}

/// The table a write changes, when it names one.
pub open spec fn write_table(write: Option<CacheWriteView>) -> Option<Seq<char>> {
    match write {
        Some(CacheWriteView::Insert(table, _)) => Some(table),
        Some(CacheWriteView::Update(table, _, _, _)) => Some(table),
        Some(CacheWriteView::Delete(table, _, _)) => Some(table),
        _ => None,
    }
}

/// Every op writes to its own entity's table: an op `<entity>.<action>`
/// that inserts, updates or deletes rows does so in the table named
/// `<entity>` (signals live in `story_signal`), so the ops that change a
/// kind of row change the table its creating op filled; closing a backlog
/// item and removing a tool find their row by its key in the payload.
pub proof fn law_ops_write_their_entity_tables(p: Seq<(String, JsonScalar)>, recorded_at: Seq<char>)
    ensures
        write_table(cache_write_spec("story"@ + ".add"@, p, recorded_at)) == Some("story"@),
        write_table(cache_write_spec("decision"@ + ".add"@, p, recorded_at)) == Some("decision"@),
        write_table(cache_write_spec("backlog"@ + ".add"@, p, recorded_at)) == Some("backlog"@),
        write_table(cache_write_spec("intervention"@ + ".add"@, p, recorded_at)) == Some("intervention"@),
        write_table(cache_write_spec("intake"@ + ".record"@, p, recorded_at)) == Some("intake"@),
        write_table(cache_write_spec("trace"@ + ".record"@, p, recorded_at)) == Some("trace"@),
        write_table(cache_write_spec("tool"@ + ".register"@, p, recorded_at)) == Some("tool"@),
        write_table(cache_write_spec("tool"@ + ".remove"@, p, recorded_at)) == Some("tool"@),
        write_table(cache_write_spec("backlog"@ + ".close"@, p, recorded_at)) == Some("backlog"@),
        write_table(cache_write_spec("signal"@ + ".add"@, p, recorded_at)) == Some("story_signal"@),
        cache_write_spec("decision"@ + ".update"@, p, recorded_at) matches Some(
            CacheWriteView::Update(table, _, key_column, _),
        ) ==> table == "decision"@ && key_column == "id"@,
        cache_write_spec("backlog"@ + ".close"@, p, recorded_at) matches Some(
            CacheWriteView::Update(_, _, key_column, key),
        ) ==> key_column == "id"@ && key == text_or_null(payload_id(p, "id"@)),
        cache_write_spec("tool"@ + ".remove"@, p, recorded_at) matches Some(
            CacheWriteView::Delete(_, key_column, key),
        ) ==> key_column == "name"@ && key == text_or_null(payload_str(p, "name"@)),
{
    reveal_strlit("intake.record");
    reveal_strlit("story.add");
    reveal_strlit("story.update");
    reveal_strlit("story.verify_result");
    reveal_strlit("decision.add");
    reveal_strlit("decision.update");
    reveal_strlit("decision.verify_result");
    reveal_strlit("backlog.add");
    reveal_strlit("backlog.close");
    reveal_strlit("tool.register");
    reveal_strlit("tool.remove");
    reveal_strlit("intervention.add");
    reveal_strlit("signal.add");
    reveal_strlit("trace.record");
    assert("intake.record"@[0] != "backlog.close"@[0]);
    assert("intake.record"@[0] != "tool.register"@[0]);
    assert("story.update"@[0] != "decision.add"@[0]);
    assert("story.update"@[0] != "trace.record"@[0]);
    assert("decision.add"@[0] != "trace.record"@[0]);
    assert("backlog.add"@[0] != "tool.remove"@[0]);
    assert("backlog.close"@[0] != "tool.register"@[0]);
    reveal_strlit(".add");
    reveal_strlit(".close");
    reveal_strlit(".record");
    reveal_strlit(".register");
    reveal_strlit(".remove");
    reveal_strlit("backlog");
    reveal_strlit("decision");
    reveal_strlit("intake");
    reveal_strlit("intervention");
    reveal_strlit("signal");
    reveal_strlit("story");
    reveal_strlit("story_signal");
    reveal_strlit("tool");
    reveal_strlit("trace");
    assert("story"@ + ".add"@ =~= "story.add"@);
    assert("decision"@ + ".add"@ =~= "decision.add"@);
    assert("backlog"@ + ".add"@ =~= "backlog.add"@);
    assert("intervention"@ + ".add"@ =~= "intervention.add"@);
    assert("intake"@ + ".record"@ =~= "intake.record"@);
    assert("trace"@ + ".record"@ =~= "trace.record"@);
    assert("tool"@ + ".register"@ =~= "tool.register"@);
    assert("tool"@ + ".remove"@ =~= "tool.remove"@);
    assert("backlog"@ + ".close"@ =~= "backlog.close"@);
    assert("signal"@ + ".add"@ =~= "signal.add"@);
    reveal_strlit(".update");
    assert("decision"@ + ".update"@ =~= "decision.update"@);
}

} // verus!

verus! {

fn text_value(value: Option<String>) -> (v: SqlValue)
    ensures
        v@ == text_or_null(opt_text_view(value)),
{
    match value {
        Some(text) => SqlValue::Text(text),
        None => SqlValue::Null,
    }
}

fn int_value(value: Option<i64>) -> (v: SqlValue)
    ensures
        v@ == int_or_null(value),
{
    match value {
        Some(n) => SqlValue::Integer(n),
        None => SqlValue::Null,
    }
}

fn text_or_value(value: Option<String>, default: &str) -> (v: SqlValue)
    ensures
        v@ == text_or(opt_text_view(value), default@),
{
    match value {
        Some(text) => SqlValue::Text(text),
        None => SqlValue::Text(default.to_owned()),
    }
}

fn int_or_zero_value(value: Option<i64>) -> (v: SqlValue)
    ensures
        v@ == int_or_zero(value),
{
    match value {
        Some(n) => SqlValue::Integer(n),
        None => SqlValue::Integer(0),
    }
}

fn push_column(columns: &mut Vec<(String, SqlValue)>, name: &str, value: SqlValue)
    ensures
        columns_view(final(columns)@) == columns_view(old(columns)@).push((name@, value@)),
{
    let ghost before = columns@;
    columns.push((name.to_owned(), value));
    proof {
        assert(columns_view(columns@) =~= columns_view(before).push((name@, value@)));
    }
}

fn no_columns() -> (columns: Vec<(String, SqlValue)>)
    ensures
        columns_view(columns@) == Seq::<(Seq<char>, SqlView)>::empty(),
{
    let columns: Vec<(String, SqlValue)> = Vec::new();
    assert(columns_view(columns@) =~= Seq::<(Seq<char>, SqlView)>::empty());
    columns
}

fn text_is(value: &String, literal: &str) -> (same: bool)
    ensures
        same == (value@ == literal@),
{
    *value == literal.to_owned()
}

fn intake_insert(p: &Vec<(String, JsonScalar)>, created_at: &String) -> (write: CacheWrite)
    ensures
        write@ == CacheWriteView::Insert("intake"@, intake_columns(p@, created_at@)),
{
    let mut c = no_columns();
    push_column(&mut c, "id", text_value(p_id(p, "id")));
    push_column(&mut c, "created_at", SqlValue::Text(created_at.clone()));
    push_column(&mut c, "input_type", text_value(p_str(p, "input_type")));
    push_column(&mut c, "summary", text_value(p_str(p, "summary")));
    push_column(&mut c, "risk_lane", text_value(p_str(p, "risk_lane")));
    push_column(&mut c, "risk_flags", text_value(p_json_text(p, "risk_flags")));
    push_column(&mut c, "affected_docs", text_value(p_json_text(p, "affected_docs")));
    push_column(&mut c, "story_id", text_value(p_str(p, "story_id")));
    push_column(&mut c, "notes", text_value(p_str(p, "notes")));
    assert(columns_view(c@) =~= intake_columns(p@, created_at@));
    CacheWrite::Insert { table: "intake".to_owned(), columns: c }
}

fn story_insert(p: &Vec<(String, JsonScalar)>, created_at: &String) -> (write: CacheWrite)
    ensures
        write@ == CacheWriteView::Insert("story"@, story_columns(p@, created_at@)),
{
    let mut c = no_columns();
    push_column(&mut c, "id", text_value(p_str(p, "id")));
    push_column(&mut c, "title", text_value(p_str(p, "title")));
    push_column(&mut c, "created_at", SqlValue::Text(created_at.clone()));
    push_column(&mut c, "risk_lane", text_value(p_str(p, "risk_lane")));
    push_column(&mut c, "contract_doc", text_value(p_str(p, "contract_doc")));
    push_column(&mut c, "status", text_or_value(p_str(p, "status"), "planned"));
    push_column(&mut c, "unit_proof", int_or_zero_value(p_i64(p, "unit_proof")));
    push_column(&mut c, "integration_proof", int_or_zero_value(p_i64(p, "integration_proof")));
    push_column(&mut c, "e2e_proof", int_or_zero_value(p_i64(p, "e2e_proof")));
    push_column(&mut c, "platform_proof", int_or_zero_value(p_i64(p, "platform_proof")));
    push_column(&mut c, "evidence", text_value(p_str(p, "evidence")));
    push_column(&mut c, "verify_command", text_value(p_str(p, "verify_command")));
    push_column(&mut c, "last_verified_at", text_value(p_str(p, "last_verified_at")));
    push_column(&mut c, "last_verified_result", text_value(p_str(p, "last_verified_result")));
    push_column(&mut c, "notes", text_value(p_str(p, "notes")));
    assert(columns_view(c@) =~= story_columns(p@, created_at@));
    CacheWrite::Insert { table: "story".to_owned(), columns: c }
}

fn decision_insert(p: &Vec<(String, JsonScalar)>, created_at: &String) -> (write: CacheWrite)
    ensures
        write@ == CacheWriteView::Insert("decision"@, decision_columns(p@, created_at@)),
{
    let mut c = no_columns();
    push_column(&mut c, "id", text_value(p_str(p, "id")));
    push_column(&mut c, "title", text_value(p_str(p, "title")));
    push_column(&mut c, "created_at", SqlValue::Text(created_at.clone()));
    push_column(&mut c, "status", text_or_value(p_str(p, "status"), "proposed"));
    push_column(&mut c, "doc_path", text_value(p_str(p, "doc_path")));
    push_column(&mut c, "verify_command", text_value(p_str(p, "verify_command")));
    push_column(&mut c, "last_verified_at", text_value(p_str(p, "last_verified_at")));
    push_column(&mut c, "last_verified_result", text_value(p_str(p, "last_verified_result")));
    push_column(&mut c, "predicted_impact", text_value(p_str(p, "predicted_impact")));
    push_column(&mut c, "actual_outcome", text_value(p_str(p, "actual_outcome")));
    push_column(&mut c, "notes", text_value(p_str(p, "notes")));
    assert(columns_view(c@) =~= decision_columns(p@, created_at@));
    CacheWrite::Insert { table: "decision".to_owned(), columns: c }
}

fn backlog_insert(p: &Vec<(String, JsonScalar)>, created_at: &String) -> (write: CacheWrite)
    ensures
        write@ == CacheWriteView::Insert("backlog"@, backlog_columns(p@, created_at@)),
{
    let mut c = no_columns();
    push_column(&mut c, "id", text_value(p_id(p, "id")));
    push_column(&mut c, "created_at", SqlValue::Text(created_at.clone()));
    push_column(&mut c, "title", text_value(p_str(p, "title")));
    push_column(&mut c, "discovered_while", text_value(p_str(p, "discovered_while")));
    push_column(&mut c, "current_pain", text_value(p_str(p, "current_pain")));
    push_column(&mut c, "suggested_improvement", text_value(p_str(p, "suggested_improvement")));
    push_column(&mut c, "risk", text_value(p_str(p, "risk")));
    push_column(&mut c, "status", text_or_value(p_str(p, "status"), "proposed"));
    push_column(&mut c, "predicted_impact", text_value(p_str(p, "predicted_impact")));
    push_column(&mut c, "actual_outcome", text_value(p_str(p, "actual_outcome")));
    push_column(&mut c, "implemented_at", text_value(p_str(p, "implemented_at")));
    push_column(&mut c, "notes", text_value(p_str(p, "notes")));
    assert(columns_view(c@) =~= backlog_columns(p@, created_at@));
    CacheWrite::Insert { table: "backlog".to_owned(), columns: c }
}

fn tool_insert(p: &Vec<(String, JsonScalar)>, created_at: &String) -> (write: CacheWrite)
    ensures
        write@ == CacheWriteView::Insert("tool"@, tool_columns(p@, created_at@)),
{
    let mut c = no_columns();
    push_column(&mut c, "name", text_value(p_str(p, "name")));
    push_column(&mut c, "created_at", SqlValue::Text(created_at.clone()));
    push_column(&mut c, "provider", text_or_value(p_str(p, "provider"), "custom"));
    push_column(&mut c, "command", text_value(p_str(p, "command")));
    push_column(&mut c, "description", text_value(p_str(p, "description")));
    push_column(&mut c, "args", text_value(p_json_text(p, "args")));
    push_column(&mut c, "responsibility", text_value(p_str(p, "responsibility")));
    push_column(&mut c, "since", text_or_value(p_str(p, "since"), "registered"));
    push_column(&mut c, "kind", text_value(p_str(p, "kind")));
    push_column(&mut c, "capability", text_value(p_str(p, "capability")));
    push_column(&mut c, "scan_target", text_value(p_str(p, "scan_target")));
    push_column(&mut c, "status", SqlValue::Text("unknown".to_owned()));
    assert(columns_view(c@) =~= tool_columns(p@, created_at@));
    CacheWrite::Insert { table: "tool".to_owned(), columns: c }
}

fn intervention_insert(p: &Vec<(String, JsonScalar)>, created_at: &String) -> (write: CacheWrite)
    ensures
        write@ == CacheWriteView::Insert("intervention"@, intervention_columns(p@, created_at@)),
{
    let mut c = no_columns();
    push_column(&mut c, "id", text_value(p_id(p, "id")));
    push_column(&mut c, "created_at", SqlValue::Text(created_at.clone()));
    push_column(&mut c, "trace_id", text_value(p_id(p, "trace_id")));
    push_column(&mut c, "story_id", text_value(p_str(p, "story_id")));
    push_column(&mut c, "type", text_value(p_str(p, "type")));
    push_column(&mut c, "description", text_value(p_str(p, "description")));
    push_column(&mut c, "source", text_value(p_str(p, "source")));
    push_column(&mut c, "impact", text_value(p_str(p, "impact")));
    assert(columns_view(c@) =~= intervention_columns(p@, created_at@));
    CacheWrite::Insert { table: "intervention".to_owned(), columns: c }
}

fn signal_insert(p: &Vec<(String, JsonScalar)>, created_at: &String) -> (write: CacheWrite)
    ensures
        write@ == CacheWriteView::Insert("story_signal"@, signal_columns(p@, created_at@)),
{
    let mut c = no_columns();
    push_column(&mut c, "id", text_value(p_id(p, "id")));
    push_column(&mut c, "created_at", SqlValue::Text(created_at.clone()));
    push_column(&mut c, "story_id", text_value(p_str(p, "story_id")));
    push_column(&mut c, "trace_id", text_value(p_id(p, "trace_id")));
    push_column(&mut c, "type", text_value(p_str(p, "type")));
    push_column(&mut c, "summary", text_value(p_str(p, "summary")));
    push_column(&mut c, "component", text_value(p_str(p, "component")));
    push_column(&mut c, "notes", text_value(p_str(p, "notes")));
    assert(columns_view(c@) =~= signal_columns(p@, created_at@));
    CacheWrite::Insert { table: "story_signal".to_owned(), columns: c }
}

fn trace_insert(p: &Vec<(String, JsonScalar)>, created_at: &String) -> (write: CacheWrite)
    ensures
        write@ == CacheWriteView::Insert("trace"@, trace_columns(p@, created_at@)),
{
    let mut c = no_columns();
    push_column(&mut c, "id", text_value(p_id(p, "id")));
    push_column(&mut c, "created_at", SqlValue::Text(created_at.clone()));
    push_column(&mut c, "task_summary", text_value(p_str(p, "task_summary")));
    push_column(&mut c, "intake_id", text_value(p_id(p, "intake_id")));
    push_column(&mut c, "story_id", text_value(p_str(p, "story_id")));
    push_column(&mut c, "agent", text_value(p_str(p, "agent")));
    push_column(&mut c, "actions_taken", text_value(p_json_text(p, "actions_taken")));
    push_column(&mut c, "files_read", text_value(p_json_text(p, "files_read")));
    push_column(&mut c, "files_changed", text_value(p_json_text(p, "files_changed")));
    push_column(&mut c, "decisions_made", text_value(p_json_text(p, "decisions_made")));
    push_column(&mut c, "errors", text_value(p_json_text(p, "errors")));
    push_column(&mut c, "outcome", text_value(p_str(p, "outcome")));
    push_column(&mut c, "duration_seconds", int_value(p_i64(p, "duration_seconds")));
    push_column(&mut c, "token_estimate", int_value(p_i64(p, "token_estimate")));
    push_column(&mut c, "harness_friction", text_value(p_str(p, "harness_friction")));
    push_column(&mut c, "notes", text_value(p_str(p, "notes")));
    assert(columns_view(c@) =~= trace_columns(p@, created_at@));
    CacheWrite::Insert { table: "trace".to_owned(), columns: c }
}


fn push_story_field(
    fields: &mut Vec<(String, SqlValue)>,
    p: &Vec<(String, JsonScalar)>,
    name: &str,
    Ghost(names): Ghost<Seq<Seq<char>>>,
)
    requires
        columns_view(old(fields)@) == story_fields_present(p@, names),
    ensures
        columns_view(final(fields)@) == story_fields_present(p@, names.push(name@)),
{
    proof {
        assert(names.push(name@).drop_last() =~= names);
    }
    let value = match p_i64(p, name) {
        Some(n) => Some(SqlValue::Integer(n)),
        None => match p_str(p, name) {
            Some(text) => Some(SqlValue::Text(text)),
            None => None,
        },
    };
    match value {
        Some(v) => {
            let ghost before = fields@;
            fields.push((name.to_owned(), v));
            proof {
                assert(columns_view(fields@) =~= columns_view(before).push((name@, v@)));
            }
        },
        None => {},
    }
}

fn story_update_write(p: &Vec<(String, JsonScalar)>) -> (write: CacheWrite)
    ensures
        write@ == match payload_str(p@, "id"@) {
            Some(id) => CacheWriteView::StoryFields(
                id,
                story_fields_present(p@, story_update_fields()),
            ),
            None => CacheWriteView::Nothing,
        },
{
    match p_str(p, "id") {
        None => CacheWrite::Nothing,
        Some(story_id) => {
            let mut fields: Vec<(String, SqlValue)> = Vec::new();
            let ghost mut names: Seq<Seq<char>> = Seq::empty();
            assert(columns_view(fields@) =~= story_fields_present(p@, names));
            push_story_field(&mut fields, p, "status", Ghost(names));
            proof {
                names = names.push("status"@);
            }
            push_story_field(&mut fields, p, "evidence", Ghost(names));
            proof {
                names = names.push("evidence"@);
            }
            push_story_field(&mut fields, p, "unit_proof", Ghost(names));
            proof {
                names = names.push("unit_proof"@);
            }
            push_story_field(&mut fields, p, "integration_proof", Ghost(names));
            proof {
                names = names.push("integration_proof"@);
            }
            push_story_field(&mut fields, p, "e2e_proof", Ghost(names));
            proof {
                names = names.push("e2e_proof"@);
            }
            push_story_field(&mut fields, p, "platform_proof", Ghost(names));
            proof {
                names = names.push("platform_proof"@);
            }
            push_story_field(&mut fields, p, "verify_command", Ghost(names));
            proof {
                names = names.push("verify_command"@);
                assert(names =~= story_update_fields());
            }
            CacheWrite::StoryFields { story_id, fields }
        },
    }
}

fn push_decision_field(
    columns: &mut Vec<(String, SqlValue)>,
    p: &Vec<(String, JsonScalar)>,
    name: &str,
    Ghost(names): Ghost<Seq<Seq<char>>>,
)
    requires
        columns_view(old(columns)@) == decision_fields_present(p@, names),
    ensures
        columns_view(final(columns)@) == decision_fields_present(p@, names.push(name@)),
{
    proof {
        assert(names.push(name@).drop_last() =~= names);
    }
    match p_str(p, name) {
        Some(text) => push_column(columns, name, SqlValue::Text(text)),
        None => {},
    }
}

fn decision_update_write(p: &Vec<(String, JsonScalar)>) -> (write: CacheWrite)
    ensures
        write@ == match payload_str(p@, "id"@) {
            Some(id) => {
                let fields = decision_fields_present(p@, decision_update_fields());
                if fields.len() == 0 {
                    CacheWriteView::Nothing
                } else {
                    CacheWriteView::Update("decision"@, fields, "id"@, SqlView::Text(id))
                }
            },
            None => CacheWriteView::Nothing,
        },
{
    match p_str(p, "id") {
        None => CacheWrite::Nothing,
        Some(id) => {
            let mut c = no_columns();
            let ghost mut names: Seq<Seq<char>> = Seq::empty();
            assert(columns_view(c@) =~= decision_fields_present(p@, names));
            push_decision_field(&mut c, p, "title", Ghost(names));
            proof {
                names = names.push("title"@);
            }
            push_decision_field(&mut c, p, "status", Ghost(names));
            proof {
                names = names.push("status"@);
            }
            push_decision_field(&mut c, p, "doc_path", Ghost(names));
            proof {
                names = names.push("doc_path"@);
            }
            push_decision_field(&mut c, p, "verify_command", Ghost(names));
            proof {
                names = names.push("verify_command"@);
            }
            push_decision_field(&mut c, p, "predicted_impact", Ghost(names));
            proof {
                names = names.push("predicted_impact"@);
            }
            push_decision_field(&mut c, p, "notes", Ghost(names));
            proof {
                names = names.push("notes"@);
                assert(names =~= decision_update_fields());
            }
            if c.len() == 0 {
                CacheWrite::Nothing
            } else {
                CacheWrite::Update {
                    table: "decision".to_owned(),
                    columns: c,
                    key_column: "id".to_owned(),
                    key: SqlValue::Text(id),
                }
            }
        },
    }
}

fn verify_result_write(table: &str, p: &Vec<(String, JsonScalar)>, created_at: &String) -> (write: CacheWrite)
    ensures
        write@ == CacheWriteView::Update(
            table@,
            seq![
                ("last_verified_at"@, SqlView::Text(created_at@)),
                ("last_verified_result"@, text_or_null(payload_str(p@, "result"@))),
            ],
            "id"@,
            text_or_null(payload_str(p@, "id"@)),
        ),
{
    let mut c = no_columns();
    push_column(&mut c, "last_verified_at", SqlValue::Text(created_at.clone()));
    push_column(&mut c, "last_verified_result", text_value(p_str(p, "result")));
    assert(columns_view(c@) =~= seq![
        ("last_verified_at"@, SqlView::Text(created_at@)),
        ("last_verified_result"@, text_or_null(payload_str(p@, "result"@))),
    ]);
    CacheWrite::Update {
        table: table.to_owned(),
        columns: c,
        key_column: "id".to_owned(),
        key: text_value(p_str(p, "id")),
    }
}

fn backlog_close_write(p: &Vec<(String, JsonScalar)>, created_at: &String) -> (write: CacheWrite)
    ensures
        write@ == CacheWriteView::Update(
            "backlog"@,
            seq![
                ("status"@, text_or_null(payload_str(p@, "status"@))),
                ("actual_outcome"@, text_or_null(payload_str(p@, "actual_outcome"@))),
                ("implemented_at"@, SqlView::Text(created_at@)),
            ],
            "id"@,
            text_or_null(payload_id(p@, "id"@)),
        ),
{
    let mut c = no_columns();
    push_column(&mut c, "status", text_value(p_str(p, "status")));
    push_column(&mut c, "actual_outcome", text_value(p_str(p, "actual_outcome")));
    push_column(&mut c, "implemented_at", SqlValue::Text(created_at.clone()));
    assert(columns_view(c@) =~= seq![
        ("status"@, text_or_null(payload_str(p@, "status"@))),
        ("actual_outcome"@, text_or_null(payload_str(p@, "actual_outcome"@))),
        ("implemented_at"@, SqlView::Text(created_at@)),
    ]);
    CacheWrite::Update {
        table: "backlog".to_owned(),
        columns: c,
        key_column: "id".to_owned(),
        key: text_value(p_id(p, "id")),
    }
}

/// The message for an event whose op this format does not know.
pub open spec fn unknown_op_message(op: Seq<char>) -> Seq<char> {
    "unknown op '"@ + op + "'"@
}

/// How replaying `event` changes the cache. An unknown op means a corrupt
/// or newer-format log, and is refused.
pub fn event_cache_write(event: &LogEvent) -> (write: Result<CacheWrite, HarnessInfraError>)
    ensures
        match cache_write_spec(event.op@, event.payload@, event.recorded_at@) {
            Some(expected) => write is Ok && write->Ok_0@ == expected,
            None => match write {
                Err(HarnessInfraError::CorruptEventLog(id, message)) => {
                    &&& id@ == event.event_id@
                    &&& message@ == unknown_op_message(event.op@)
                },
                _ => false,
            },
        },
{
    let p = &event.payload;
    let created_at = event_timestamp(event.recorded_at.as_str());
    let op = &event.op;
    if text_is(op, "intake.record") {
        Ok(intake_insert(p, &created_at))
    } else if text_is(op, "story.add") {
        Ok(story_insert(p, &created_at))
    } else if text_is(op, "story.update") {
        Ok(story_update_write(p))
    } else if text_is(op, "story.verify_result") {
        Ok(verify_result_write("story", p, &created_at))
    } else if text_is(op, "decision.add") {
        Ok(decision_insert(p, &created_at))
    } else if text_is(op, "decision.update") {
        Ok(decision_update_write(p))
    } else if text_is(op, "decision.verify_result") {
        Ok(verify_result_write("decision", p, &created_at))
    } else if text_is(op, "backlog.add") {
        Ok(backlog_insert(p, &created_at))
    } else if text_is(op, "backlog.close") {
        Ok(backlog_close_write(p, &created_at))
    } else if text_is(op, "tool.register") {
        Ok(tool_insert(p, &created_at))
    } else if text_is(op, "tool.remove") {
        Ok(
            CacheWrite::Delete {
                table: "tool".to_owned(),
                key_column: "name".to_owned(),
                key: text_value(p_str(p, "name")),
            },
        )
    } else if text_is(op, "intervention.add") {
        Ok(intervention_insert(p, &created_at))
    } else if text_is(op, "signal.add") {
        Ok(signal_insert(p, &created_at))
    } else if text_is(op, "trace.record") {
        Ok(trace_insert(p, &created_at))
    } else {
        let mut message: Vec<char> = Vec::new();
        push_str(&mut message, "unknown op '");
        push_str(&mut message, op.as_str());
        push_str(&mut message, "'");
        assert(message@ =~= unknown_op_message(event.op@));
        Err(HarnessInfraError::CorruptEventLog(event.event_id.clone(), string_of(&message)))
    }
}

} // verus!
