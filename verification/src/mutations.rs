use vstd::prelude::*;

use crate::error::HarnessInfraError;
use crate::log::members_view;
use crate::order::{lemma_text_lt_transitive, text_lt};
use crate::events::{json_quote, json_string_seq};
use crate::replay::{keys_in_order, JsonScalar};
use crate::text::{chars_of, push_str, split_chars, split_seq, string_of, trim_chars, trim_seq};

verus! {

/// A partial update of a story: the fields given are the ones that change.
pub struct StoryUpdateInput {
    pub id: String,
    pub status: Option<String>,
    pub evidence: Option<String>,
    /// Proof flags: 1 proven, 0 not.
    pub unit: Option<i64>,
    pub integration: Option<i64>,
    pub e2e: Option<i64>,
    pub platform: Option<i64>,
    pub verify_command: Option<String>,
}

/// A partial update of a decision record.
pub struct DecisionUpdateInput {
    pub id: String,
    pub title: Option<String>,
    pub status: Option<String>,
    pub doc_path: Option<String>,
    pub verify_command: Option<String>,
    pub predicted_impact: Option<String>,
    pub notes: Option<String>,
}

/// A member `name` holding the text, when there is one.
pub open spec fn text_member(name: Seq<char>, value: Option<String>) -> Seq<(Seq<char>, JsonScalar)> {
    match value {
        Some(text) => seq![(name, JsonScalar::Text(text))],
        None => Seq::empty(),
    }
}

/// A member `name` holding the integer, when there is one.
pub open spec fn int_member(name: Seq<char>, value: Option<i64>) -> Seq<(Seq<char>, JsonScalar)> {
    match value {
        Some(n) => seq![(name, JsonScalar::Int(n))],
        None => Seq::empty(),
    }
}

/// Whether a story update changes nothing.
pub open spec fn story_update_empty(input: StoryUpdateInput) -> bool {
    input.status is None && input.evidence is None && input.unit is None && input.integration is None
        && input.e2e is None && input.platform is None && input.verify_command is None
}

/// The `story.update` payload: the story id and each field given (proof
/// flags under their `*_proof` columns), members in key order.
pub open spec fn story_update_members(input: StoryUpdateInput) -> Seq<(Seq<char>, JsonScalar)> {
    int_member("e2e_proof"@, input.e2e) + text_member("evidence"@, input.evidence) + seq![
        ("id"@, JsonScalar::Text(input.id)),
    ] + int_member("integration_proof"@, input.integration) + int_member(
        "platform_proof"@,
        input.platform,
    ) + text_member("status"@, input.status) + int_member("unit_proof"@, input.unit)
        + text_member("verify_command"@, input.verify_command)
}

/// Whether a decision update changes nothing.
pub open spec fn decision_update_empty(input: DecisionUpdateInput) -> bool {
    input.title is None && input.status is None && input.doc_path is None && input.verify_command is None
        && input.predicted_impact is None && input.notes is None
}

/// The `decision.update` payload: the decision id and each field given,
/// members in key order.
pub open spec fn decision_update_members(input: DecisionUpdateInput) -> Seq<(Seq<char>, JsonScalar)> {
    text_member("doc_path"@, input.doc_path) + seq![("id"@, JsonScalar::Text(input.id))] + text_member(
        "notes"@,
        input.notes,
    ) + text_member("predicted_impact"@, input.predicted_impact) + text_member("status"@, input.status)
        + text_member("title"@, input.title) + text_member("verify_command"@, input.verify_command)
}

/// Append a member whose name comes after every name already present.
fn push_member(object: &mut Vec<(String, JsonScalar)>, name: &str, value: JsonScalar)
    requires
        keys_in_order(old(object)@),
        old(object)@.len() > 0 ==> text_lt(old(object)@.last().0@, name@),
    ensures
        members_view(final(object)@) == members_view(old(object)@).push((name@, value)),
        keys_in_order(final(object)@),
        final(object)@.last().0@ == name@,
{
    let ghost before = object@;
    object.push((name.to_owned(), value));
    proof {
        let after = object@;
        assert forall|i: int, j: int| 0 <= i < j < after.len() implies text_lt(after[i].0@, after[j].0@) by {
            if j == after.len() - 1 && i < before.len() - 1 {
                lemma_text_lt_transitive(before[i].0@, before.last().0@, name@);
            }
        }
        assert(members_view(after) =~= members_view(before).push((name@, value)));
    }
}

fn push_text(object: &mut Vec<(String, JsonScalar)>, name: &str, value: &Option<String>)
    requires
        keys_in_order(old(object)@),
        old(object)@.len() > 0 ==> text_lt(old(object)@.last().0@, name@),
    ensures
        members_view(final(object)@) == members_view(old(object)@) + text_member(name@, *value),
        keys_in_order(final(object)@),
        final(object)@.len() > 0 ==> (final(object)@.last().0@ == name@ || final(object)@ == old(object)@),
{
    match value {
        Some(text) => push_member(object, name, JsonScalar::Text(text.clone())),
        None => {
            assert(members_view(object@) =~= members_view(object@) + text_member(name@, *value));
        },
    }
}

fn push_int(object: &mut Vec<(String, JsonScalar)>, name: &str, value: Option<i64>)
    requires
        keys_in_order(old(object)@),
        old(object)@.len() > 0 ==> text_lt(old(object)@.last().0@, name@),
    ensures
        members_view(final(object)@) == members_view(old(object)@) + int_member(name@, value),
        keys_in_order(final(object)@),
        final(object)@.len() > 0 ==> (final(object)@.last().0@ == name@ || final(object)@ == old(object)@),
{
    match value {
        Some(n) => push_member(object, name, JsonScalar::Int(n)),
        None => {
            assert(members_view(object@) =~= members_view(object@) + int_member(name@, value));
        },
    }
}

/// The payload of a story update, refused when it would change nothing.
pub fn story_update_payload(input: &StoryUpdateInput) -> (payload: Result<Vec<(String, JsonScalar)>, HarnessInfraError>)
    ensures
        story_update_empty(*input) <==> payload == Err::<Vec<(String, JsonScalar)>, HarnessInfraError>(
            HarnessInfraError::EmptyStoryUpdate,
        ),
        !story_update_empty(*input) ==> payload is Ok,
        payload is Ok ==> members_view(payload->Ok_0@) == story_update_members(*input)
            && keys_in_order(payload->Ok_0@),
{
    if input.status.is_none() && input.evidence.is_none() && input.unit.is_none() && input.integration.is_none()
        && input.e2e.is_none() && input.platform.is_none() && input.verify_command.is_none() {
        return Err(HarnessInfraError::EmptyStoryUpdate);
    }
    proof {
        reveal_strlit("e2e_proof");
        reveal_strlit("evidence");
        reveal_strlit("id");
        reveal_strlit("integration_proof");
        reveal_strlit("platform_proof");
        reveal_strlit("status");
        reveal_strlit("unit_proof");
        reveal_strlit("verify_command");
        assert(text_lt("e2e_proof"@, "evidence"@)) by {
            reveal_strlit("e2e_proof");
            reveal_strlit("evidence");
            reveal_strlit("2e_proof");
            reveal_strlit("vidence");
            assert("e2e_proof"@.drop_first() =~= "2e_proof"@);
            assert("evidence"@.drop_first() =~= "vidence"@);
            assert(text_lt("2e_proof"@, "vidence"@));
            assert("e2e_proof"@[0] == "evidence"@[0]);
        }
        assert(text_lt("e2e_proof"@, "id"@));
        assert(text_lt("evidence"@, "id"@));
        assert(text_lt("id"@, "integration_proof"@)) by {
            reveal_strlit("id");
            reveal_strlit("integration_proof");
            reveal_strlit("d");
            reveal_strlit("ntegration_proof");
            assert("id"@.drop_first() =~= "d"@);
            assert("integration_proof"@.drop_first() =~= "ntegration_proof"@);
            assert(text_lt("d"@, "ntegration_proof"@));
            assert("id"@[0] == "integration_proof"@[0]);
        }
        assert(text_lt("id"@, "platform_proof"@));
        assert(text_lt("id"@, "status"@));
        assert(text_lt("id"@, "unit_proof"@));
        assert(text_lt("id"@, "verify_command"@));
        assert(text_lt("integration_proof"@, "platform_proof"@));
        assert(text_lt("integration_proof"@, "status"@));
        assert(text_lt("integration_proof"@, "unit_proof"@));
        assert(text_lt("integration_proof"@, "verify_command"@));
        assert(text_lt("platform_proof"@, "status"@));
        assert(text_lt("platform_proof"@, "unit_proof"@));
        assert(text_lt("platform_proof"@, "verify_command"@));
        assert(text_lt("status"@, "unit_proof"@));
        assert(text_lt("status"@, "verify_command"@));
        assert(text_lt("unit_proof"@, "verify_command"@));
    }
    let mut object: Vec<(String, JsonScalar)> = Vec::new();
    push_int(&mut object, "e2e_proof", input.e2e);
    push_text(&mut object, "evidence", &input.evidence);
    push_member(&mut object, "id", JsonScalar::Text(input.id.clone()));
    push_int(&mut object, "integration_proof", input.integration);
    push_int(&mut object, "platform_proof", input.platform);
    push_text(&mut object, "status", &input.status);
    push_int(&mut object, "unit_proof", input.unit);
    push_text(&mut object, "verify_command", &input.verify_command);
    proof {
        assert(members_view(object@) =~= story_update_members(*input));
    }
    Ok(object)
}

/// The payload of a decision update, refused when it would change nothing.
pub fn decision_update_payload(input: &DecisionUpdateInput) -> (payload: Result<
    Vec<(String, JsonScalar)>,
    HarnessInfraError,
>)
    ensures
        decision_update_empty(*input) <==> payload == Err::<Vec<(String, JsonScalar)>, HarnessInfraError>(
            HarnessInfraError::EmptyDecisionUpdate,
        ),
        !decision_update_empty(*input) ==> payload is Ok,
        payload is Ok ==> members_view(payload->Ok_0@) == decision_update_members(*input)
            && keys_in_order(payload->Ok_0@),
{
    if input.title.is_none() && input.status.is_none() && input.doc_path.is_none() && input.verify_command.is_none()
        && input.predicted_impact.is_none() && input.notes.is_none() {
        return Err(HarnessInfraError::EmptyDecisionUpdate);
    }
    proof {
        reveal_strlit("doc_path");
        reveal_strlit("id");
        reveal_strlit("notes");
        reveal_strlit("predicted_impact");
        reveal_strlit("status");
        reveal_strlit("title");
        reveal_strlit("verify_command");
        assert(text_lt("doc_path"@, "id"@));
        assert(text_lt("id"@, "notes"@));
        assert(text_lt("id"@, "predicted_impact"@));
        assert(text_lt("id"@, "status"@));
        assert(text_lt("id"@, "title"@));
        assert(text_lt("id"@, "verify_command"@));
        assert(text_lt("notes"@, "predicted_impact"@));
        assert(text_lt("notes"@, "status"@));
        assert(text_lt("notes"@, "title"@));
        assert(text_lt("notes"@, "verify_command"@));
        assert(text_lt("predicted_impact"@, "status"@));
        assert(text_lt("predicted_impact"@, "title"@));
        assert(text_lt("predicted_impact"@, "verify_command"@));
        assert(text_lt("status"@, "title"@));
        assert(text_lt("status"@, "verify_command"@));
        assert(text_lt("title"@, "verify_command"@));
    }
    let mut object: Vec<(String, JsonScalar)> = Vec::new();
    push_text(&mut object, "doc_path", &input.doc_path);
    push_member(&mut object, "id", JsonScalar::Text(input.id.clone()));
    push_text(&mut object, "notes", &input.notes);
    push_text(&mut object, "predicted_impact", &input.predicted_impact);
    push_text(&mut object, "status", &input.status);
    push_text(&mut object, "title", &input.title);
    push_text(&mut object, "verify_command", &input.verify_command);
    proof {
        assert(members_view(object@) =~= decision_update_members(*input));
    }
    Ok(object)
}

/// The payload recording a verify command's `result` for story or
/// decision `id`.
pub fn verify_result_payload(id: &str, result: &str) -> (payload: Vec<(String, JsonScalar)>)
    ensures
        payload@.len() == 2,
        payload@[0].0@ == "id"@,
        payload@[0].1 matches JsonScalar::Text(t) && t@ == id@,
        payload@[1].0@ == "result"@,
        payload@[1].1 matches JsonScalar::Text(t) && t@ == result@,
        keys_in_order(payload@),
{
    proof {
        reveal_strlit("id");
        reveal_strlit("result");
        assert(text_lt("id"@, "result"@));
    }
    let mut object: Vec<(String, JsonScalar)> = Vec::new();
    let id_text = id.to_owned();
    let result_text = result.to_owned();
    assert(id_text@ == id@ && result_text@ == result@);
    assert(members_view(object@) =~= Seq::<(Seq<char>, JsonScalar)>::empty());
    push_member(&mut object, "id", JsonScalar::Text(id_text));
    push_member(&mut object, "result", JsonScalar::Text(result_text));
    proof {
        let members = members_view(object@);
        assert(members.len() == object@.len());
        assert(members[0] == (object@[0].0@, object@[0].1));
        assert(members[1] == (object@[1].0@, object@[1].1));
    }
    object
}

/// A new story.
pub struct StoryAddInput {
    pub id: String,
    pub title: String,
    /// The risk lane as stored (`risk_lane_db_value`).
    pub risk_lane: String,
    pub contract_doc: Option<String>,
    pub verify_command: Option<String>,
    pub notes: Option<String>,
}

/// A new decision record.
pub struct DecisionAddInput {
    pub id: String,
    pub title: String,
    pub status: String,
    pub doc_path: Option<String>,
    pub verify_command: Option<String>,
    pub predicted_impact: Option<String>,
    pub notes: Option<String>,
}

/// A new backlog item.
pub struct BacklogAddInput {
    pub title: String,
    pub discovered_while: Option<String>,
    pub current_pain: Option<String>,
    pub suggestion: Option<String>,
    /// The risk lane as stored, when one is given.
    pub risk: Option<String>,
    pub predicted_impact: Option<String>,
    pub notes: Option<String>,
}

/// Closing a backlog item.
pub struct BacklogCloseInput {
    pub id: String,
    pub status: String,
    pub actual_outcome: Option<String>,
}

/// A recorded intervention.
pub struct InterventionAddInput {
    pub trace_id: Option<String>,
    pub story_id: Option<String>,
    pub intervention_type: String,
    pub description: String,
    pub source: String,
    pub impact: Option<String>,
}

/// A story signal.
pub struct StorySignalAddInput {
    pub story_id: Option<String>,
    pub trace_id: Option<String>,
    pub signal_type: String,
    pub summary: String,
    pub component: Option<String>,
    pub notes: Option<String>,
}

/// A JSON string, or `null` when absent.
pub open spec fn opt_json(value: Option<String>) -> JsonScalar {
    match value {
        Some(text) => JsonScalar::Text(text),
        None => JsonScalar::Null,
    }
}

fn opt_scalar(value: &Option<String>) -> (scalar: JsonScalar)
    ensures
        scalar == opt_json(*value),
{
    match value {
        Some(text) => JsonScalar::Text(text.clone()),
        None => JsonScalar::Null,
    }
}

/// Two names with the same first character, ordered by their second.
proof fn lemma_text_lt_second(a: Seq<char>, b: Seq<char>)
    requires
        a.len() >= 2,
        b.len() >= 2,
        a[0] == b[0],
        a[1] < b[1],
    ensures
        text_lt(a, b),
{
    assert(a.drop_first()[0] == a[1] && b.drop_first()[0] == b[1]);
    assert(text_lt(a.drop_first(), b.drop_first()));
}

/// The `story.add` payload: every field, absent ones as `null`.
pub open spec fn story_add_members(input: StoryAddInput) -> Seq<(Seq<char>, JsonScalar)> {
    seq![
        ("contract_doc"@, opt_json(input.contract_doc)),
        ("id"@, JsonScalar::Text(input.id)),
        ("notes"@, opt_json(input.notes)),
        ("risk_lane"@, JsonScalar::Text(input.risk_lane)),
        ("title"@, JsonScalar::Text(input.title)),
        ("verify_command"@, opt_json(input.verify_command)),
    ]
}

pub fn story_add_payload(input: &StoryAddInput) -> (payload: Vec<(String, JsonScalar)>)
    ensures
        members_view(payload@) == story_add_members(*input),
        keys_in_order(payload@),
{
    proof {
        reveal_strlit("contract_doc");
        reveal_strlit("id");
        reveal_strlit("notes");
        reveal_strlit("risk_lane");
        reveal_strlit("title");
        reveal_strlit("verify_command");
    }
    let mut object: Vec<(String, JsonScalar)> = Vec::new();
    assert(members_view(object@) =~= Seq::<(Seq<char>, JsonScalar)>::empty());
    push_member(&mut object, "contract_doc", opt_scalar(&input.contract_doc));
    push_member(&mut object, "id", JsonScalar::Text(input.id.clone()));
    push_member(&mut object, "notes", opt_scalar(&input.notes));
    push_member(&mut object, "risk_lane", JsonScalar::Text(input.risk_lane.clone()));
    push_member(&mut object, "title", JsonScalar::Text(input.title.clone()));
    push_member(&mut object, "verify_command", opt_scalar(&input.verify_command));
    assert(members_view(object@) =~= story_add_members(*input));
    object
}

/// The `decision.add` payload: every field, absent ones as `null`.
pub open spec fn decision_add_members(input: DecisionAddInput) -> Seq<(Seq<char>, JsonScalar)> {
    seq![
        ("doc_path"@, opt_json(input.doc_path)),
        ("id"@, JsonScalar::Text(input.id)),
        ("notes"@, opt_json(input.notes)),
        ("predicted_impact"@, opt_json(input.predicted_impact)),
        ("status"@, JsonScalar::Text(input.status)),
        ("title"@, JsonScalar::Text(input.title)),
        ("verify_command"@, opt_json(input.verify_command)),
    ]
}

pub fn decision_add_payload(input: &DecisionAddInput) -> (payload: Vec<(String, JsonScalar)>)
    ensures
        members_view(payload@) == decision_add_members(*input),
        keys_in_order(payload@),
{
    proof {
        reveal_strlit("doc_path");
        reveal_strlit("id");
        reveal_strlit("notes");
        reveal_strlit("predicted_impact");
        reveal_strlit("status");
        reveal_strlit("title");
        reveal_strlit("verify_command");
    }
    let mut object: Vec<(String, JsonScalar)> = Vec::new();
    assert(members_view(object@) =~= Seq::<(Seq<char>, JsonScalar)>::empty());
    push_member(&mut object, "doc_path", opt_scalar(&input.doc_path));
    push_member(&mut object, "id", JsonScalar::Text(input.id.clone()));
    push_member(&mut object, "notes", opt_scalar(&input.notes));
    push_member(&mut object, "predicted_impact", opt_scalar(&input.predicted_impact));
    push_member(&mut object, "status", JsonScalar::Text(input.status.clone()));
    push_member(&mut object, "title", JsonScalar::Text(input.title.clone()));
    push_member(&mut object, "verify_command", opt_scalar(&input.verify_command));
    assert(members_view(object@) =~= decision_add_members(*input));
    object
}

/// The `backlog.add` payload of item `id`: every field, absent ones as
/// `null`, the suggestion under `suggested_improvement`.
pub open spec fn backlog_add_members(input: BacklogAddInput, id: String) -> Seq<(Seq<char>, JsonScalar)> {
    seq![
        ("current_pain"@, opt_json(input.current_pain)),
        ("discovered_while"@, opt_json(input.discovered_while)),
        ("id"@, JsonScalar::Text(id)),
        ("notes"@, opt_json(input.notes)),
        ("predicted_impact"@, opt_json(input.predicted_impact)),
        ("risk"@, opt_json(input.risk)),
        ("suggested_improvement"@, opt_json(input.suggestion)),
        ("title"@, JsonScalar::Text(input.title)),
    ]
}

pub fn backlog_add_payload(input: &BacklogAddInput, id: &String) -> (payload: Vec<(String, JsonScalar)>)
    ensures
        members_view(payload@) == backlog_add_members(*input, *id),
        keys_in_order(payload@),
{
    proof {
        reveal_strlit("current_pain");
        reveal_strlit("discovered_while");
        reveal_strlit("id");
        reveal_strlit("notes");
        reveal_strlit("predicted_impact");
        reveal_strlit("risk");
        reveal_strlit("suggested_improvement");
        reveal_strlit("title");
    }
    let mut object: Vec<(String, JsonScalar)> = Vec::new();
    assert(members_view(object@) =~= Seq::<(Seq<char>, JsonScalar)>::empty());
    push_member(&mut object, "current_pain", opt_scalar(&input.current_pain));
    push_member(&mut object, "discovered_while", opt_scalar(&input.discovered_while));
    push_member(&mut object, "id", JsonScalar::Text(id.clone()));
    push_member(&mut object, "notes", opt_scalar(&input.notes));
    push_member(&mut object, "predicted_impact", opt_scalar(&input.predicted_impact));
    push_member(&mut object, "risk", opt_scalar(&input.risk));
    push_member(&mut object, "suggested_improvement", opt_scalar(&input.suggestion));
    push_member(&mut object, "title", JsonScalar::Text(input.title.clone()));
    assert(members_view(object@) =~= backlog_add_members(*input, *id));
    object
}

/// The `backlog.close` payload, for the item `id` resolves to.
pub open spec fn backlog_close_members(input: BacklogCloseInput, id: String) -> Seq<(Seq<char>, JsonScalar)> {
    seq![
        ("actual_outcome"@, opt_json(input.actual_outcome)),
        ("id"@, JsonScalar::Text(id)),
        ("status"@, JsonScalar::Text(input.status)),
    ]
}

pub fn backlog_close_payload(input: &BacklogCloseInput, id: &String) -> (payload: Vec<(String, JsonScalar)>)
    ensures
        members_view(payload@) == backlog_close_members(*input, *id),
        keys_in_order(payload@),
{
    proof {
        reveal_strlit("actual_outcome");
        reveal_strlit("id");
        reveal_strlit("status");
    }
    let mut object: Vec<(String, JsonScalar)> = Vec::new();
    assert(members_view(object@) =~= Seq::<(Seq<char>, JsonScalar)>::empty());
    push_member(&mut object, "actual_outcome", opt_scalar(&input.actual_outcome));
    push_member(&mut object, "id", JsonScalar::Text(id.clone()));
    push_member(&mut object, "status", JsonScalar::Text(input.status.clone()));
    assert(members_view(object@) =~= backlog_close_members(*input, *id));
    object
}

/// The `intervention.add` payload of intervention `id`, its trace id
/// resolved to `trace_id`.
pub open spec fn intervention_members(input: InterventionAddInput, id: String, trace_id: Option<String>) -> Seq<
    (Seq<char>, JsonScalar),
> {
    seq![
        ("description"@, JsonScalar::Text(input.description)),
        ("id"@, JsonScalar::Text(id)),
        ("impact"@, opt_json(input.impact)),
        ("source"@, JsonScalar::Text(input.source)),
        ("story_id"@, opt_json(input.story_id)),
        ("trace_id"@, opt_json(trace_id)),
        ("type"@, JsonScalar::Text(input.intervention_type)),
    ]
}

pub fn intervention_payload(input: &InterventionAddInput, id: &String, trace_id: &Option<String>) -> (payload: Vec<
    (String, JsonScalar),
>)
    ensures
        members_view(payload@) == intervention_members(*input, *id, *trace_id),
        keys_in_order(payload@),
{
    proof {
        reveal_strlit("description");
        reveal_strlit("id");
        reveal_strlit("impact");
        reveal_strlit("source");
        reveal_strlit("story_id");
        reveal_strlit("trace_id");
        reveal_strlit("type");
        lemma_text_lt_second("id"@, "impact"@);
        lemma_text_lt_second("source"@, "story_id"@);
        lemma_text_lt_second("trace_id"@, "type"@);
    }
    let mut object: Vec<(String, JsonScalar)> = Vec::new();
    assert(members_view(object@) =~= Seq::<(Seq<char>, JsonScalar)>::empty());
    push_member(&mut object, "description", JsonScalar::Text(input.description.clone()));
    push_member(&mut object, "id", JsonScalar::Text(id.clone()));
    push_member(&mut object, "impact", opt_scalar(&input.impact));
    push_member(&mut object, "source", JsonScalar::Text(input.source.clone()));
    push_member(&mut object, "story_id", opt_scalar(&input.story_id));
    push_member(&mut object, "trace_id", opt_scalar(trace_id));
    push_member(&mut object, "type", JsonScalar::Text(input.intervention_type.clone()));
    assert(members_view(object@) =~= intervention_members(*input, *id, *trace_id));
    object
}

/// The `signal.add` payload of signal `id`, its trace id resolved to
/// `trace_id`.
pub open spec fn signal_members(input: StorySignalAddInput, id: String, trace_id: Option<String>) -> Seq<
    (Seq<char>, JsonScalar),
> {
    seq![
        ("component"@, opt_json(input.component)),
        ("id"@, JsonScalar::Text(id)),
        ("notes"@, opt_json(input.notes)),
        ("story_id"@, opt_json(input.story_id)),
        ("summary"@, JsonScalar::Text(input.summary)),
        ("trace_id"@, opt_json(trace_id)),
        ("type"@, JsonScalar::Text(input.signal_type)),
    ]
}

pub fn signal_payload(input: &StorySignalAddInput, id: &String, trace_id: &Option<String>) -> (payload: Vec<
    (String, JsonScalar),
>)
    ensures
        members_view(payload@) == signal_members(*input, *id, *trace_id),
        keys_in_order(payload@),
{
    proof {
        reveal_strlit("component");
        reveal_strlit("id");
        reveal_strlit("notes");
        reveal_strlit("story_id");
        reveal_strlit("summary");
        reveal_strlit("trace_id");
        reveal_strlit("type");
        lemma_text_lt_second("story_id"@, "summary"@);
        lemma_text_lt_second("trace_id"@, "type"@);
    }
    let mut object: Vec<(String, JsonScalar)> = Vec::new();
    assert(members_view(object@) =~= Seq::<(Seq<char>, JsonScalar)>::empty());
    push_member(&mut object, "component", opt_scalar(&input.component));
    push_member(&mut object, "id", JsonScalar::Text(id.clone()));
    push_member(&mut object, "notes", opt_scalar(&input.notes));
    push_member(&mut object, "story_id", opt_scalar(&input.story_id));
    push_member(&mut object, "summary", JsonScalar::Text(input.summary.clone()));
    push_member(&mut object, "trace_id", opt_scalar(trace_id));
    push_member(&mut object, "type", JsonScalar::Text(input.signal_type.clone()));
    assert(members_view(object@) =~= signal_members(*input, *id, *trace_id));
    object
}

/// The `tool.remove` payload.
pub fn tool_remove_payload(name: &str) -> (payload: Vec<(String, JsonScalar)>)
    ensures
        payload@.len() == 1,
        payload@[0].0@ == "name"@,
        payload@[0].1 matches JsonScalar::Text(t) && t@ == name@,
        keys_in_order(payload@),
{
    let mut object: Vec<(String, JsonScalar)> = Vec::new();
    let text = name.to_owned();
    assert(text@ == name@);
    push_member(&mut object, "name", JsonScalar::Text(text));
    proof {
        let members = members_view(object@);
        assert(members.len() == object@.len());
        assert(members[0] == (object@[0].0@, object@[0].1));
    }
    object
}

/// An intake record: what came in, its risk, and what it touches. The
/// two lists are given as their JSON array text, when there are any.
pub struct IntakeInput {
    pub input_type: String,
    pub summary: String,
    pub risk_lane: String,
    pub risk_flags: Option<String>,
    pub affected_docs: Option<String>,
    pub story_id: Option<String>,
    pub notes: Option<String>,
}

/// A recorded agent trace. The lists are given as their JSON array text,
/// when there are any.
pub struct TraceInput {
    pub task_summary: String,
    pub story_id: Option<String>,
    pub agent: Option<String>,
    pub actions: Option<String>,
    pub files_read: Option<String>,
    pub files_changed: Option<String>,
    pub decisions: Option<String>,
    pub errors: Option<String>,
    pub outcome: Option<String>,
    pub duration_seconds: Option<i64>,
    pub token_estimate: Option<i64>,
    pub friction: Option<String>,
    pub notes: Option<String>,
}

/// A JSON array given as its text, or `null` when absent.
pub open spec fn opt_list(value: Option<String>) -> JsonScalar {
    match value {
        Some(text) => JsonScalar::Nested(text),
        None => JsonScalar::Null,
    }
}

/// A JSON integer, or `null` when absent.
pub open spec fn opt_int(value: Option<i64>) -> JsonScalar {
    match value {
        Some(n) => JsonScalar::Int(n),
        None => JsonScalar::Null,
    }
}

fn list_scalar(value: &Option<String>) -> (scalar: JsonScalar)
    ensures
        scalar == opt_list(*value),
{
    match value {
        Some(text) => JsonScalar::Nested(text.clone()),
        None => JsonScalar::Null,
    }
}

fn int_scalar(value: Option<i64>) -> (scalar: JsonScalar)
    ensures
        scalar == opt_int(value),
{
    match value {
        Some(n) => JsonScalar::Int(n),
        None => JsonScalar::Null,
    }
}

/// Two names equal up to position `k`, where the first has the smaller
/// character, are in order.
proof fn lemma_text_lt_at(a: Seq<char>, b: Seq<char>, k: int)
    requires
        0 <= k < a.len(),
        k < b.len(),
        forall|i: int| 0 <= i < k ==> a[i] == b[i],
        a[k] < b[k],
    ensures
        text_lt(a, b),
    decreases k,
{
    if k > 0 {
        lemma_text_lt_at(a.drop_first(), b.drop_first(), k - 1);
    }
}

/// The `intake.record` payload of intake `id`: every field, absent ones
/// as `null`.
pub open spec fn intake_members(input: IntakeInput, id: String) -> Seq<(Seq<char>, JsonScalar)> {
    seq![
        ("affected_docs"@, opt_list(input.affected_docs)),
        ("id"@, JsonScalar::Text(id)),
        ("input_type"@, JsonScalar::Text(input.input_type)),
        ("notes"@, opt_json(input.notes)),
        ("risk_flags"@, opt_list(input.risk_flags)),
        ("risk_lane"@, JsonScalar::Text(input.risk_lane)),
        ("story_id"@, opt_json(input.story_id)),
        ("summary"@, JsonScalar::Text(input.summary)),
    ]
}

pub fn intake_payload(input: &IntakeInput, id: &String) -> (payload: Vec<(String, JsonScalar)>)
    ensures
        members_view(payload@) == intake_members(*input, *id),
        keys_in_order(payload@),
{
    proof {
        reveal_strlit("affected_docs");
        reveal_strlit("id");
        reveal_strlit("input_type");
        reveal_strlit("notes");
        reveal_strlit("risk_flags");
        reveal_strlit("risk_lane");
        reveal_strlit("story_id");
        reveal_strlit("summary");
        lemma_text_lt_second("id"@, "input_type"@);
        lemma_text_lt_at("risk_flags"@, "risk_lane"@, 5);
        lemma_text_lt_second("story_id"@, "summary"@);
    }
    let mut object: Vec<(String, JsonScalar)> = Vec::new();
    assert(members_view(object@) =~= Seq::<(Seq<char>, JsonScalar)>::empty());
    push_member(&mut object, "affected_docs", list_scalar(&input.affected_docs));
    push_member(&mut object, "id", JsonScalar::Text(id.clone()));
    push_member(&mut object, "input_type", JsonScalar::Text(input.input_type.clone()));
    push_member(&mut object, "notes", opt_scalar(&input.notes));
    push_member(&mut object, "risk_flags", list_scalar(&input.risk_flags));
    push_member(&mut object, "risk_lane", JsonScalar::Text(input.risk_lane.clone()));
    push_member(&mut object, "story_id", opt_scalar(&input.story_id));
    push_member(&mut object, "summary", JsonScalar::Text(input.summary.clone()));
    assert(members_view(object@) =~= intake_members(*input, *id));
    object
}

/// The `trace.record` payload of trace `id`, its intake id resolved to
/// `intake_id`: every field, absent ones as `null`.
pub open spec fn trace_members(input: TraceInput, id: String, intake_id: Option<String>) -> Seq<
    (Seq<char>, JsonScalar),
> {
    seq![
        ("actions_taken"@, opt_list(input.actions)),
        ("agent"@, opt_json(input.agent)),
        ("decisions_made"@, opt_list(input.decisions)),
        ("duration_seconds"@, opt_int(input.duration_seconds)),
        ("errors"@, opt_list(input.errors)),
        ("files_changed"@, opt_list(input.files_changed)),
        ("files_read"@, opt_list(input.files_read)),
        ("harness_friction"@, opt_json(input.friction)),
        ("id"@, JsonScalar::Text(id)),
        ("intake_id"@, opt_json(intake_id)),
        ("notes"@, opt_json(input.notes)),
        ("outcome"@, opt_json(input.outcome)),
        ("story_id"@, opt_json(input.story_id)),
        ("task_summary"@, JsonScalar::Text(input.task_summary)),
        ("token_estimate"@, opt_int(input.token_estimate)),
    ]
}

pub fn trace_payload(input: &TraceInput, id: &String, intake_id: &Option<String>) -> (payload: Vec<
    (String, JsonScalar),
>)
    ensures
        members_view(payload@) == trace_members(*input, *id, *intake_id),
        keys_in_order(payload@),
{
    proof {
        reveal_strlit("actions_taken");
        reveal_strlit("agent");
        reveal_strlit("decisions_made");
        reveal_strlit("duration_seconds");
        reveal_strlit("errors");
        reveal_strlit("files_changed");
        reveal_strlit("files_read");
        reveal_strlit("harness_friction");
        reveal_strlit("id");
        reveal_strlit("intake_id");
        reveal_strlit("notes");
        reveal_strlit("outcome");
        reveal_strlit("story_id");
        reveal_strlit("task_summary");
        reveal_strlit("token_estimate");
        lemma_text_lt_second("actions_taken"@, "agent"@);
        lemma_text_lt_second("decisions_made"@, "duration_seconds"@);
        lemma_text_lt_at("files_changed"@, "files_read"@, 6);
        lemma_text_lt_second("id"@, "intake_id"@);
        lemma_text_lt_second("task_summary"@, "token_estimate"@);
    }
    let mut object: Vec<(String, JsonScalar)> = Vec::new();
    assert(members_view(object@) =~= Seq::<(Seq<char>, JsonScalar)>::empty());
    push_member(&mut object, "actions_taken", list_scalar(&input.actions));
    push_member(&mut object, "agent", opt_scalar(&input.agent));
    push_member(&mut object, "decisions_made", list_scalar(&input.decisions));
    push_member(&mut object, "duration_seconds", int_scalar(input.duration_seconds));
    push_member(&mut object, "errors", list_scalar(&input.errors));
    push_member(&mut object, "files_changed", list_scalar(&input.files_changed));
    push_member(&mut object, "files_read", list_scalar(&input.files_read));
    push_member(&mut object, "harness_friction", opt_scalar(&input.friction));
    push_member(&mut object, "id", JsonScalar::Text(id.clone()));
    push_member(&mut object, "intake_id", opt_scalar(intake_id));
    push_member(&mut object, "notes", opt_scalar(&input.notes));
    push_member(&mut object, "outcome", opt_scalar(&input.outcome));
    push_member(&mut object, "story_id", opt_scalar(&input.story_id));
    push_member(&mut object, "task_summary", JsonScalar::Text(input.task_summary.clone()));
    push_member(&mut object, "token_estimate", int_scalar(input.token_estimate));
    assert(members_view(object@) =~= trace_members(*input, *id, *intake_id));
    object
}

/// The items of a comma-separated list: each piece trimmed, empty ones
/// dropped.
pub open spec fn list_items(pieces: Seq<Seq<char>>) -> Seq<Seq<char>>
    decreases pieces.len(),
{
    if pieces.len() == 0 {
        Seq::empty()
    } else {
        let rest = list_items(pieces.drop_last());
        let item = trim_seq(pieces.last());
        if item.len() > 0 {
            rest.push(item)
        } else {
            rest
        }
    }
}

/// JSON string literals of `items`, separated by commas.
pub open spec fn json_items_seq(items: Seq<Seq<char>>) -> Seq<char>
    decreases items.len(),
{
    if items.len() == 0 {
        Seq::empty()
    } else if items.len() == 1 {
        json_string_seq(items[0])
    } else {
        json_items_seq(items.drop_last()) + seq![','] + json_string_seq(items.last())
    }
}

/// A comma-separated list as the JSON array text of its items, or `None`
/// when it has none.
pub open spec fn csv_json_seq(list: Seq<char>) -> Option<Seq<char>> {
    let items = list_items(split_seq(list, ','));
    if items.len() == 0 {
        None
    } else {
        Some(seq!['['] + json_items_seq(items) + seq![']'])
    }
}

/// A comma-separated list (`a, b,c`) as the JSON array text of its
/// trimmed, non-empty items (`["a","b","c"]`); `None` when it has none.
pub fn csv_json_text(list: &str) -> (json: Option<String>)
    ensures
        match json {
            Some(text) => csv_json_seq(list@) == Some(text@),
            None => csv_json_seq(list@) is None,
        },
{
    let pieces = split_chars(&chars_of(list), ',');
    let ghost views = pieces@.map_values(|p: Vec<char>| p@);
    let mut out: Vec<char> = Vec::new();
    let mut count: usize = 0;
    let mut i: usize = 0;
    proof {
        assert(views.take(0) =~= Seq::<Seq<char>>::empty());
    }
    while i < pieces.len()
        invariant
            i <= pieces@.len(),
            views == pieces@.map_values(|p: Vec<char>| p@),
            count == list_items(views.take(i as int)).len(),
            count <= i,
            out@ == json_items_seq(list_items(views.take(i as int))),
        decreases pieces@.len() - i,
    {
        let item = trim_chars(&pieces[i]);
        proof {
            assert(views.take(i as int + 1).drop_last() =~= views.take(i as int));
            assert(views.take(i as int + 1).last() == pieces@[i as int]@);
        }
        if item.len() > 0 {
            let ghost before = list_items(views.take(i as int));
            if count > 0 {
                out.push(',');
            }
            let quoted = json_quote(string_of(&item).as_str());
            push_str(&mut out, quoted.as_str());
            proof {
                let after = before.push(item@);
                assert(after.drop_last() =~= before);
                if before.len() == 0 {
                    assert(out@ =~= json_string_seq(after[0]));
                } else {
                    assert(out@ =~= json_items_seq(before) + seq![','] + json_string_seq(after.last()));
                }
            }
            count = count + 1;
        }
        i = i + 1;
    }
    proof {
        assert(views.take(i as int) =~= views);
    }
    if count == 0 {
        None
    } else {
        let mut text: Vec<char> = Vec::new();
        text.push('[');
        push_str(&mut text, string_of(&out).as_str());
        text.push(']');
        assert(text@ =~= seq!['['] + out@ + seq![']']);
        Some(string_of(&text))
    }
}

} // verus!
