use vstd::prelude::*;

use crate::error::HarnessInfraError;
use crate::events::{json_quote, json_string_seq};
use crate::markdown::join_seq;
use crate::order::{
    compare_text, lemma_text_lt_asymmetric, lemma_text_lt_irreflexive, lemma_text_lt_total,
    lemma_text_lt_transitive, text_lt,
};
use crate::text::{
    chars_of, format_int_seq, push_int_padded, push_str, string_of, trim_end_char,
    trim_end_char_seq,
};

verus! {

/// A JSON value as the replay logic reads it: scalars by value, arrays and
/// objects by their compact JSON text.
#[derive(Debug, Clone, PartialEq, Eq)]
pub enum JsonScalar {
    Null,
    Bool(bool),
    /// A number that fits an `i64`.
    Int(i64),
    /// Any other number, as its JSON text.
    Number(String),
    Text(String),
    /// An array or an object, as its compact JSON text.
    Nested(String),
}

/// The value under `key` among the members of a JSON object.
pub open spec fn object_get(entries: Seq<(String, JsonScalar)>, key: Seq<char>) -> Option<JsonScalar>
    decreases entries.len(),
{
    if entries.len() == 0 {
        None
    } else if entries[0].0@ == key {
        Some(entries[0].1)
    } else {
        object_get(entries.drop_first(), key)
    }
}

proof fn lemma_object_get_skip(entries: Seq<(String, JsonScalar)>, key: Seq<char>, i: int)
    requires
        0 <= i <= entries.len(),
        forall|j: int| 0 <= j < i ==> entries[j].0@ != key,
    ensures
        object_get(entries, key) == object_get(entries.skip(i), key),
    decreases i,
{
    if i == 0 {
        assert(entries.skip(0) =~= entries);
    } else {
        lemma_object_get_skip(entries.drop_first(), key, i - 1);
        assert(entries.drop_first().skip(i - 1) =~= entries.skip(i));
    }
}

/// Where `key` sits among the members, when it is there.
fn find_key(entries: &Vec<(String, JsonScalar)>, key: &str) -> (index: Option<usize>)
    ensures
        match index {
            Some(i) => i < entries@.len() && object_get(entries@, key@) == Some(entries@[i as int].1),
            None => object_get(entries@, key@) is None,
        },
{
    let wanted = key.to_owned();
    let mut i: usize = 0;
    while i < entries.len()
        invariant
            i <= entries@.len(),
            wanted@ == key@,
            forall|j: int| 0 <= j < i ==> entries@[j].0@ != key@,
        decreases entries@.len() - i,
    {
        if entries[i].0 == wanted {
            proof {
                lemma_object_get_skip(entries@, key@, i as int);
                assert(entries@.skip(i as int)[0] == entries@[i as int]);
            }
            return Some(i);
        }
        i = i + 1;
    }
    proof {
        lemma_object_get_skip(entries@, key@, i as int);
    }
    None
}

/// Whether the object has a member named `key` (of any value).
pub fn has_key(entries: &Vec<(String, JsonScalar)>, key: &str) -> (found: bool)
    ensures
        found == object_get(entries@, key@) is Some,
{
    find_key(entries, key).is_some()
}

pub open spec fn opt_text_view(value: Option<String>) -> Option<Seq<char>> {
    match value {
        Some(s) => Some(s@),
        None => None,
    }
}

/// A payload string member.
pub open spec fn payload_str(entries: Seq<(String, JsonScalar)>, key: Seq<char>) -> Option<Seq<char>> {
    match object_get(entries, key) {
        Some(JsonScalar::Text(s)) => Some(s@),
        _ => None,
    }
}

/// A payload integer member.
pub open spec fn payload_i64(entries: Seq<(String, JsonScalar)>, key: Seq<char>) -> Option<i64> {
    match object_get(entries, key) {
        Some(JsonScalar::Int(n)) => Some(n),
        _ => None,
    }
}

/// A row id: a string as itself, a number as its JSON text.
pub open spec fn payload_id(entries: Seq<(String, JsonScalar)>, key: Seq<char>) -> Option<Seq<char>> {
    match object_get(entries, key) {
        Some(JsonScalar::Text(s)) => Some(s@),
        Some(JsonScalar::Int(n)) => Some(format_int_seq(n as int, 0)),
        Some(JsonScalar::Number(text)) => Some(text@),
        _ => None,
    }
}

/// A JSON-array column: a string as itself (a column's text as stored),
/// any other non-null value as its JSON text.
pub open spec fn payload_json_text(entries: Seq<(String, JsonScalar)>, key: Seq<char>) -> Option<
    Seq<char>,
> {
    match object_get(entries, key) {
        None => None,
        Some(JsonScalar::Null) => None,
        Some(JsonScalar::Bool(b)) => Some(
            if b {
                "true"@
            } else {
                "false"@
            },
        ),
        Some(JsonScalar::Int(n)) => Some(format_int_seq(n as int, 0)),
        Some(JsonScalar::Number(text)) => Some(text@),
        Some(JsonScalar::Text(s)) => Some(s@),
        Some(JsonScalar::Nested(text)) => Some(text@),
    }
}

fn decimal_text(n: i64) -> (text: String)
    ensures
        text@ == format_int_seq(n as int, 0),
{
    let mut out: Vec<char> = Vec::new();
    push_int_padded(&mut out, n, 0);
    assert(out@ =~= format_int_seq(n as int, 0));
    string_of(&out)
}

pub fn p_str(payload: &Vec<(String, JsonScalar)>, key: &str) -> (value: Option<String>)
    ensures
        opt_text_view(value) == payload_str(payload@, key@),
{
    match find_key(payload, key) {
        Some(i) => match &payload[i].1 {
            JsonScalar::Text(s) => Some(s.clone()),
            _ => None,
        },
        None => None,
    }
}

pub fn p_i64(payload: &Vec<(String, JsonScalar)>, key: &str) -> (value: Option<i64>)
    ensures
        value == payload_i64(payload@, key@),
{
    match find_key(payload, key) {
        Some(i) => match &payload[i].1 {
            JsonScalar::Int(n) => Some(*n),
            _ => None,
        },
        None => None,
    }
}

pub fn p_id(payload: &Vec<(String, JsonScalar)>, key: &str) -> (value: Option<String>)
    ensures
        opt_text_view(value) == payload_id(payload@, key@),
{
    match find_key(payload, key) {
        Some(i) => match &payload[i].1 {
            JsonScalar::Text(s) => Some(s.clone()),
            JsonScalar::Int(n) => Some(decimal_text(*n)),
            JsonScalar::Number(text) => Some(text.clone()),
            _ => None,
        },
        None => None,
    }
}

pub fn p_json_text(payload: &Vec<(String, JsonScalar)>, key: &str) -> (value: Option<String>)
    ensures
        opt_text_view(value) == payload_json_text(payload@, key@),
{
    match find_key(payload, key) {
        Some(i) => match &payload[i].1 {
            JsonScalar::Null => None,
            JsonScalar::Bool(b) => {
                if *b {
                    Some("true".to_owned())
                } else {
                    Some("false".to_owned())
                }
            },
            JsonScalar::Int(n) => Some(decimal_text(*n)),
            JsonScalar::Number(text) => Some(text.clone()),
            JsonScalar::Text(s) => Some(s.clone()),
            JsonScalar::Nested(text) => Some(text.clone()),
        },
        None => None,
    }
}

/// `recorded_at` (RFC 3339, second precision) in the `datetime('now')`
/// form the schema writes: every `T` becomes a space and trailing `Z`s go.
pub open spec fn event_timestamp_seq(recorded_at: Seq<char>) -> Seq<char> {
    trim_end_char_seq(
        recorded_at.map_values(
            |c: char|
                if c == 'T' {
                    ' '
                } else {
                    c
                },
        ),
        'Z',
    )
}

pub fn event_timestamp(recorded_at: &str) -> (timestamp: String)
    ensures
        timestamp@ == event_timestamp_seq(recorded_at@),
{
    let chars = chars_of(recorded_at);
    let mut replaced: Vec<char> = Vec::new();
    let mut i: usize = 0;
    while i < chars.len()
        invariant
            i <= chars@.len(),
            chars@ == recorded_at@,
            replaced@ == chars@.take(i as int).map_values(
                |c: char|
                    if c == 'T' {
                        ' '
                    } else {
                        c
                    },
            ),
        decreases chars@.len() - i,
    {
        let c = chars[i];
        if c == 'T' {
            replaced.push(' ');
        } else {
            replaced.push(c);
        }
        proof {
            assert(chars@.take(i as int + 1) =~= chars@.take(i as int).push(c));
        }
        i = i + 1;
        proof {
            assert(replaced@ =~= chars@.take(i as int).map_values(
                |c: char|
                    if c == 'T' {
                        ' '
                    } else {
                        c
                    },
            ));
        }
    }
    proof {
        assert(chars@.take(i as int) =~= chars@);
    }
    string_of(&trim_end_char(&replaced, 'Z'))
}

/// One replayable event of the log.
pub struct LogEvent {
    pub event_id: String,
    pub writer: String,
    pub recorded_at: String,
    pub op: String,
    /// The members of the event's payload object.
    pub payload: Vec<(String, JsonScalar)>,
    /// The per-writer consumed counts the writer had seen when it appended
    /// (the causal-audit signal); empty when the event carries none.
    pub observed: Vec<(String, JsonScalar)>,
    /// 1-based position of this event within its writer's file.
    pub writer_seq: i64,
}

/// A parsed log line: its top-level members, and the members of its
/// `payload` and `observed` objects (empty when those are absent or not
/// objects).
pub struct EventDocument {
    pub fields: Vec<(String, JsonScalar)>,
    pub payload: Vec<(String, JsonScalar)>,
    pub observed: Vec<(String, JsonScalar)>,
}

/// `file:line` (1-based line) of a log line, as errors name it.
pub open spec fn event_location_seq(file: Seq<char>, line_index: int) -> Seq<char> {
    file + ":"@ + format_int_seq(line_index + 1, 0)
}

pub fn event_location(file: &str, line_index: usize) -> (location: String)
    requires
        line_index < 0x7fff_ffff_ffff_ffff,
    ensures
        location@ == event_location_seq(file@, line_index as int),
{
    let mut out = chars_of(file);
    push_str(&mut out, ":");
    push_int_padded(&mut out, line_index as i64 + 1, 0);
    string_of(&out)
}

/// The message for a required string member that is absent or not a string.
pub open spec fn missing_field_message(key: Seq<char>) -> Seq<char> {
    "missing or non-string field '"@ + key + "'"@
}

/// The first of the four required members that is not a string.
pub open spec fn first_missing_field(fields: Seq<(String, JsonScalar)>) -> Option<Seq<char>> {
    if payload_str(fields, "event_id"@) is None {
        Some("event_id"@)
    } else if payload_str(fields, "writer"@) is None {
        Some("writer"@)
    } else if payload_str(fields, "recorded_at"@) is None {
        Some("recorded_at"@)
    } else if payload_str(fields, "op"@) is None {
        Some("op"@)
    } else {
        None
    }
}

fn require_str(
    fields: &Vec<(String, JsonScalar)>,
    key: &str,
    file: &str,
    line_index: usize,
) -> (value: Result<String, HarnessInfraError>)
    requires
        line_index < 0x7fff_ffff_ffff_ffff,
    ensures
        match value {
            Ok(s) => payload_str(fields@, key@) == Some(s@),
            Err(HarnessInfraError::CorruptEventLog(location, message)) => {
                &&& payload_str(fields@, key@) is None
                &&& location@ == event_location_seq(file@, line_index as int)
                &&& message@ == missing_field_message(key@)
            },
            Err(_) => false,
        },
{
    match p_str(fields, key) {
        Some(s) => Ok(s),
        None => {
            let mut message: Vec<char> = Vec::new();
            push_str(&mut message, "missing or non-string field '");
            push_str(&mut message, key);
            push_str(&mut message, "'");
            assert(message@ =~= missing_field_message(key@));
            Err(
                HarnessInfraError::CorruptEventLog(
                    event_location(file, line_index),
                    string_of(&message),
                ),
            )
        },
    }
}

impl LogEvent {
    /// The event a parsed log line holds: `event_id`, `writer`,
    /// `recorded_at` and `op` must be strings; the line's 1-based number is
    /// the event's position in its writer's file.
    pub fn from_document(document: EventDocument, file: &str, line_index: usize) -> (event: Result<
        LogEvent,
        HarnessInfraError,
    >)
        requires
            line_index < 0x7fff_ffff_ffff_ffff,
        ensures
            match first_missing_field(document.fields@) {
                None => match event {
                    Ok(e) => {
                        &&& Some(e.event_id@) == payload_str(document.fields@, "event_id"@)
                        &&& Some(e.writer@) == payload_str(document.fields@, "writer"@)
                        &&& Some(e.recorded_at@) == payload_str(document.fields@, "recorded_at"@)
                        &&& Some(e.op@) == payload_str(document.fields@, "op"@)
                        &&& e.payload == document.payload
                        &&& e.observed == document.observed
                        &&& e.writer_seq == line_index + 1
                    },
                    Err(_) => false,
                },
                Some(key) => match event {
                    Err(HarnessInfraError::CorruptEventLog(location, message)) => {
                        &&& location@ == event_location_seq(file@, line_index as int)
                        &&& message@ == missing_field_message(key)
                    },
                    _ => false,
                },
            },
    {
        let event_id = match require_str(&document.fields, "event_id", file, line_index) {
            Ok(s) => s,
            Err(e) => return Err(e),
        };
        let writer = match require_str(&document.fields, "writer", file, line_index) {
            Ok(s) => s,
            Err(e) => return Err(e),
        };
        let recorded_at = match require_str(&document.fields, "recorded_at", file, line_index) {
            Ok(s) => s,
            Err(e) => return Err(e),
        };
        let op = match require_str(&document.fields, "op", file, line_index) {
            Ok(s) => s,
            Err(e) => return Err(e),
        };
        Ok(
            LogEvent {
                event_id,
                writer,
                recorded_at,
                op,
                payload: document.payload,
                observed: document.observed,
                writer_seq: line_index as i64 + 1,
            },
        )
    }
}

/// A value as `serde_json` writes it.
pub open spec fn json_value_seq(value: JsonScalar) -> Seq<char> {
    match value {
        JsonScalar::Null => "null"@,
        JsonScalar::Bool(b) => if b {
            "true"@
        } else {
            "false"@
        },
        JsonScalar::Int(n) => format_int_seq(n as int, 0),
        JsonScalar::Number(text) => text@,
        JsonScalar::Text(s) => json_string_seq(s@),
        JsonScalar::Nested(text) => text@,
    }
}

pub open spec fn json_members(entries: Seq<(String, JsonScalar)>) -> Seq<Seq<char>> {
    entries.map_values(|e: (String, JsonScalar)| json_string_seq(e.0@) + ":"@ + json_value_seq(e.1))
}

/// A JSON object as `serde_json` writes one: members in key order, no
/// white space.
pub open spec fn json_object_seq(entries: Seq<(String, JsonScalar)>) -> Seq<char> {
    "{"@ + join_seq(json_members(entries), ","@) + "}"@
}

/// Member names strictly increasing (the order `serde_json` keeps them in).
pub open spec fn keys_in_order(entries: Seq<(String, JsonScalar)>) -> bool {
    forall|i: int, j: int| 0 <= i < j < entries.len() ==> text_lt(entries[i].0@, entries[j].0@)
}

/// Members in strictly increasing order, from each one being before the
/// next.
pub proof fn lemma_keys_in_order(entries: Seq<(String, JsonScalar)>)
    requires
        forall|i: int| 0 <= i < entries.len() - 1 ==> text_lt(#[trigger] entries[i].0@, entries[i + 1].0@),
    ensures
        keys_in_order(entries),
    decreases entries.len(),
{
    if entries.len() > 1 {
        let rest = entries.drop_last();
        assert forall|i: int| 0 <= i < rest.len() - 1 implies text_lt(#[trigger] rest[i].0@, rest[i + 1].0@) by {
            assert(rest[i] == entries[i] && rest[i + 1] == entries[i + 1]);
        }
        lemma_keys_in_order(rest);
        assert forall|i: int, j: int| 0 <= i < j < entries.len() implies text_lt(entries[i].0@, entries[j].0@) by {
            if j < entries.len() - 1 {
                assert(rest[i] == entries[i] && rest[j] == entries[j]);
            } else if i < j - 1 {
                assert(rest[i] == entries[i] && rest[j - 1] == entries[j - 1]);
                lemma_text_lt_transitive(entries[i].0@, entries[j - 1].0@, entries[j].0@);
            }
        }
    }
}

/// Whether the members are in strictly increasing key order
/// (`keys_in_order`), as serialization requires.
pub fn keys_sorted(entries: &Vec<(String, JsonScalar)>) -> (sorted: bool)
    ensures
        sorted == keys_in_order(entries@),
{
    let mut i: usize = 1;
    while i < entries.len()
        invariant
            1 <= i,
            forall|k: int| 0 <= k < i - 1 && k < entries@.len() - 1 ==> text_lt(
                #[trigger] entries@[k].0@,
                entries@[k + 1].0@,
            ),
        decreases entries@.len() - i,
    {
        let order = compare_text(&chars_of(entries[i - 1].0.as_str()), &chars_of(entries[i].0.as_str()));
        if order != -1 {
            return false;
        }
        i = i + 1;
    }
    proof {
        lemma_keys_in_order(entries@);
    }
    true
}

fn push_json_value(out: &mut Vec<char>, value: &JsonScalar)
    ensures
        final(out)@ == old(out)@ + json_value_seq(*value),
{
    let ghost start = out@;
    match value {
        JsonScalar::Null => push_str(out, "null"),
        JsonScalar::Bool(b) => {
            if *b {
                push_str(out, "true");
            } else {
                push_str(out, "false");
            }
        },
        JsonScalar::Int(n) => push_int_padded(out, *n, 0),
        JsonScalar::Number(text) => push_str(out, text.as_str()),
        JsonScalar::Text(s) => push_str(out, json_quote(s.as_str()).as_str()),
        JsonScalar::Nested(text) => push_str(out, text.as_str()),
    }
    assert(out@ =~= start + json_value_seq(*value));
}

/// The JSON text of an object whose members are given in key order.
pub fn json_object_text(entries: &Vec<(String, JsonScalar)>) -> (text: String)
    requires
        keys_in_order(entries@),
    ensures
        text@ == json_object_seq(entries@),
{
    let ghost members = json_members(entries@);
    let mut body: Vec<char> = Vec::new();
    let mut i: usize = 0;
    while i < entries.len()
        invariant
            i <= entries@.len(),
            members == json_members(entries@),
            body@ == join_seq(members.take(i as int), ","@),
        decreases entries@.len() - i,
    {
        proof {
            assert(members.take(i as int + 1).drop_last() =~= members.take(i as int));
        }
        let ghost before = body@;
        if i > 0 {
            push_str(&mut body, ",");
        }
        let ghost mark = body@;
        push_str(&mut body, json_quote(entries[i].0.as_str()).as_str());
        push_str(&mut body, ":");
        push_json_value(&mut body, &entries[i].1);
        proof {
            assert(body@ =~= mark + members[i as int]);
        }
        i = i + 1;
    }
    proof {
        assert(members.take(i as int) =~= members);
    }
    let mut out: Vec<char> = Vec::new();
    push_str(&mut out, "{");
    crate::text::push_all(&mut out, &body);
    push_str(&mut out, "}");
    assert(out@ =~= json_object_seq(entries@));
    string_of(&out)
}

/// A JSON object after `serde_json::Map::insert` of `entry` into members
/// kept in key order: a member of that name takes the new value, else the
/// member goes where its name sorts.
pub open spec fn object_insert(sorted: Seq<(String, JsonScalar)>, entry: (String, JsonScalar)) -> Seq<
    (String, JsonScalar),
>
    decreases sorted.len(),
{
    if sorted.len() == 0 {
        seq![entry]
    } else if sorted.last().0@ == entry.0@ {
        sorted.drop_last().push(entry)
    } else if text_lt(entry.0@, sorted.last().0@) {
        object_insert(sorted.drop_last(), entry).push(sorted.last())
    } else {
        sorted.push(entry)
    }
}

/// The object built by inserting `entries` in order (later members of a
/// name replace earlier ones), members in key order.
pub open spec fn object_from(entries: Seq<(String, JsonScalar)>) -> Seq<(String, JsonScalar)>
    decreases entries.len(),
{
    if entries.len() == 0 {
        Seq::empty()
    } else {
        object_insert(object_from(entries.drop_last()), entries.last())
    }
}

/// Where `object_insert` puts the entry: `p` with `replace` when a member
/// of that name is there.
proof fn lemma_object_insert_position(sorted: Seq<(String, JsonScalar)>, entry: (String, JsonScalar)) -> (r: (int, bool))
    requires
        keys_in_order(sorted),
    ensures
        0 <= r.0 <= sorted.len(),
        r.1 ==> r.0 < sorted.len() && sorted[r.0].0@ == entry.0@ && object_insert(sorted, entry)
            == sorted.update(r.0, entry),
        !r.1 ==> object_insert(sorted, entry) == sorted.insert(r.0, entry),
        forall|j: int| r.0 <= j < sorted.len() && !(r.1 && j == r.0) ==> text_lt(entry.0@, #[trigger] sorted[j].0@),
        r.0 > 0 ==> text_lt(sorted[r.0 - 1].0@, entry.0@),
    decreases sorted.len(),
{
    if sorted.len() == 0 {
        assert(sorted.insert(0, entry) =~= seq![entry]);
        (0, false)
    } else {
        let rest = sorted.drop_last();
        let last = sorted.last();
        assert(keys_in_order(rest)) by {
            assert forall|i: int, j: int| 0 <= i < j < rest.len() implies text_lt(rest[i].0@, rest[j].0@) by {
                assert(rest[i] == sorted[i] && rest[j] == sorted[j]);
            }
        }
        if last.0@ == entry.0@ {
            assert(rest.push(entry) =~= sorted.update(sorted.len() - 1, entry));
            if sorted.len() > 1 {
                assert(text_lt(sorted[sorted.len() - 2].0@, last.0@));
            }
            (sorted.len() - 1, true)
        } else if text_lt(entry.0@, last.0@) {
            let r = lemma_object_insert_position(rest, entry);
            if r.1 {
                assert(object_insert(rest, entry).push(last) =~= sorted.update(r.0, entry));
            } else {
                assert(object_insert(rest, entry).push(last) =~= sorted.insert(r.0, entry));
            }
            assert forall|j: int| r.0 <= j < sorted.len() && !(r.1 && j == r.0) implies text_lt(entry.0@, #[trigger] sorted[j].0@) by {
                if j < sorted.len() - 1 {
                    assert(sorted[j] == rest[j]);
                }
            }
            if r.0 > 0 {
                assert(sorted[r.0 - 1] == rest[r.0 - 1]);
            }
            r
        } else {
            lemma_text_lt_total(entry.0@, last.0@);
            assert(sorted.push(entry) =~= sorted.insert(sorted.len() as int, entry));
            (sorted.len() as int, false)
        }
    }
}

proof fn lemma_object_insert_in_order(sorted: Seq<(String, JsonScalar)>, entry: (String, JsonScalar))
    requires
        keys_in_order(sorted),
    ensures
        keys_in_order(object_insert(sorted, entry)),
{
    let r = lemma_object_insert_position(sorted, entry);
    let p = r.0;
    if r.1 {
        let u = sorted.update(p, entry);
        assert forall|i: int, j: int| 0 <= i < j < u.len() implies text_lt(u[i].0@, u[j].0@) by {
            if i == p {
                assert(u[j] == sorted[j]);
                assert(text_lt(sorted[i].0@, sorted[j].0@));
            } else if j == p {
                assert(u[i] == sorted[i]);
                assert(text_lt(sorted[i].0@, sorted[j].0@));
            } else {
                assert(u[i] == sorted[i] && u[j] == sorted[j]);
            }
        }
    } else {
        let u = sorted.insert(p, entry);
        assert forall|i: int, j: int| 0 <= i < j < u.len() implies text_lt(u[i].0@, u[j].0@) by {
            if j < p {
                assert(u[i] == sorted[i] && u[j] == sorted[j]);
            } else if i > p {
                assert(u[i] == sorted[i - 1] && u[j] == sorted[j - 1]);
            } else if i < p && j > p {
                assert(u[i] == sorted[i] && u[j] == sorted[j - 1]);
            } else if i == p {
                assert(u[j] == sorted[j - 1]);
            } else {
                assert(u[i] == sorted[i]);
                if i < p - 1 {
                    lemma_text_lt_transitive(sorted[i].0@, sorted[p - 1].0@, entry.0@);
                }
            }
        }
    }
}

pub proof fn lemma_object_from_in_order(entries: Seq<(String, JsonScalar)>)
    ensures
        keys_in_order(object_from(entries)),
    decreases entries.len(),
{
    if entries.len() > 0 {
        lemma_object_from_in_order(entries.drop_last());
        lemma_object_insert_in_order(object_from(entries.drop_last()), entries.last());
    }
}

/// Insert a member into an object kept in key order (`Map::insert`).
pub fn object_insert_member(object: &mut Vec<(String, JsonScalar)>, entry: (String, JsonScalar))
    requires
        keys_in_order(old(object)@),
    ensures
        final(object)@ == object_insert(old(object)@, entry),
        keys_in_order(final(object)@),
{
    let ghost before = object@;
    proof {
        lemma_object_insert_in_order(before, entry);
    }
    let name = chars_of(entry.0.as_str());
    let mut p: usize = object.len();
    let mut found = false;
    let mut done = false;
    while p > 0 && !done
        invariant
            p <= object@.len(),
            object@ == before,
            name@ == entry.0@,
            keys_in_order(before),
            forall|j: int| p <= j < object@.len() ==> text_lt(entry.0@, #[trigger] before[j].0@),
            found ==> done,
            found ==> p > 0 && before[p - 1].0@ == entry.0@,
            done && !found ==> p > 0 && text_lt(before[p - 1].0@, entry.0@),
        decreases 2 * p + if done {
            0int
        } else {
            1int
        },
    {
        let order = compare_text(&name, &chars_of(object[p - 1].0.as_str()));
        if order == 0 {
            found = true;
            done = true;
        } else if order == 1 {
            done = true;
        } else {
            p = p - 1;
        }
    }
    proof {
        let r = lemma_object_insert_position(before, entry);
        if found {
            assert(before[p - 1].0@ == entry.0@);
            if r.1 {
                if r.0 != p - 1 {
                    if r.0 < p - 1 {
                        assert(text_lt(before[r.0].0@, before[p - 1].0@));
                        lemma_text_lt_irreflexive(entry.0@);
                    } else {
                        assert(text_lt(entry.0@, before[r.0].0@) || r.0 >= p);
                        lemma_text_lt_irreflexive(entry.0@);
                    }
                }
            } else {
                if r.0 <= p - 1 {
                    assert(text_lt(entry.0@, before[p - 1].0@));
                } else {
                    assert(text_lt(before[r.0 - 1].0@, entry.0@));
                    if r.0 - 1 > p - 1 {
                        assert(text_lt(before[p - 1].0@, before[r.0 - 1].0@));
                        lemma_text_lt_transitive(before[p - 1].0@, before[r.0 - 1].0@, entry.0@);
                    }
                }
                lemma_text_lt_irreflexive(entry.0@);
            }
        } else {
            if p > 0 {
                assert(text_lt(before[p - 1].0@, entry.0@));
            }
            if r.1 {
                if r.0 < p {
                    if r.0 < p - 1 {
                        lemma_text_lt_transitive(before[r.0].0@, before[p - 1].0@, entry.0@);
                    }
                    lemma_text_lt_irreflexive(entry.0@);
                } else {
                    lemma_text_lt_irreflexive(entry.0@);
                }
            } else {
                if r.0 < p {
                    assert(text_lt(entry.0@, before[p - 1].0@));
                    lemma_text_lt_asymmetric(entry.0@, before[p - 1].0@);
                } else if r.0 > p {
                    assert(text_lt(before[r.0 - 1].0@, entry.0@));
                    assert(text_lt(entry.0@, before[r.0 - 1].0@));
                    lemma_text_lt_asymmetric(entry.0@, before[r.0 - 1].0@);
                }
            }
        }
    }
    if found {
        object.set(p - 1, entry);
    } else {
        object.insert(p, entry);
    }
}

} // verus!
