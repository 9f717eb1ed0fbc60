use vstd::prelude::*;

use crate::cache::{cache_write_spec, CacheWriteView, SqlValue};
use crate::calendar::{
    rfc3339_from_unix, rfc3339_seq, sqlite_datetime_fields, sqlite_datetime_fits,
    sqlite_datetime_in_range, unix_from_sqlite_datetime, unix_of_fields,
};
use crate::error::HarnessInfraError;
use crate::log::{in_replay_order, law_replay_order_sorted_permutation, replay_order, sort_events};
use crate::replay::{keys_in_order, object_from, object_insert_member, JsonScalar, LogEvent};
use crate::repository::{durable_tables_spec, pairs_view};
use crate::text::{format_int_seq, push_int_padded, push_str, string_of};
use crate::ulid::{genesis_ulid, genesis_ulid_seq};

verus! {

/// Each durable table with the op whose genesis events re-create its rows,
/// in the order genesis reads them.
pub open spec fn genesis_tables_spec() -> Seq<(Seq<char>, Seq<char>)> {
    seq![
        ("intake"@, "intake.record"@),
        ("story"@, "story.add"@),
        ("decision"@, "decision.add"@),
        ("backlog"@, "backlog.add"@),
        ("tool"@, "tool.register"@),
        ("trace"@, "trace.record"@),
        ("intervention"@, "intervention.add"@),
        ("story_signal"@, "signal.add"@),
    ]
}

fn push_pair(pairs: &mut Vec<(String, String)>, a: &str, b: &str)
    ensures
        pairs_view(final(pairs)@) == pairs_view(old(pairs)@).push((a@, b@)),
{
    let ghost before = pairs@;
    pairs.push((a.to_owned(), b.to_owned()));
    proof {
        assert(pairs_view(pairs@) =~= pairs_view(before).push((a@, b@)));
    }
}

pub fn genesis_tables() -> (tables: Vec<(String, String)>)
    ensures
        pairs_view(tables@) == genesis_tables_spec(),
{
    let mut tables: Vec<(String, String)> = Vec::new();
    assert(pairs_view(tables@) =~= Seq::<(Seq<char>, Seq<char>)>::empty());
    push_pair(&mut tables, "intake", "intake.record");
    push_pair(&mut tables, "story", "story.add");
    push_pair(&mut tables, "decision", "decision.add");
    push_pair(&mut tables, "backlog", "backlog.add");
    push_pair(&mut tables, "tool", "tool.register");
    push_pair(&mut tables, "trace", "trace.record");
    push_pair(&mut tables, "intervention", "intervention.add");
    push_pair(&mut tables, "story_signal", "signal.add");
    assert(pairs_view(tables@) =~= genesis_tables_spec());
    tables
}

/// A column value as a payload member.
pub open spec fn column_json(value: SqlValue) -> JsonScalar {
    match value {
        SqlValue::Null => JsonScalar::Null,
        SqlValue::Integer(n) => JsonScalar::Int(n),
        SqlValue::Real(text) => JsonScalar::Number(text),
        SqlValue::Text(text) => JsonScalar::Text(text),
        SqlValue::Blob(_) => JsonScalar::Null,
    }
}

/// Columns genesis leaves out of the payload: the timestamp (it becomes
/// the event's), and a tool's machine-local scan state.
pub open spec fn genesis_skips(table: Seq<char>, column: Seq<char>) -> bool {
    column == "created_at"@ || (table == "tool"@ && (column == "status"@ || column
        == "checked_at"@))
}

/// The payload members of a row, in column order.
pub open spec fn genesis_members(table: Seq<char>, columns: Seq<String>, values: Seq<SqlValue>) -> Seq<
    (String, JsonScalar),
>
    decreases columns.len(),
{
    if columns.len() == 0 {
        Seq::empty()
    } else {
        let rest = genesis_members(table, columns.drop_last(), values);
        let i = columns.len() - 1;
        if genesis_skips(table, columns[i]@) {
            rest
        } else {
            rest.push((columns[i], column_json(values[i])))
        }
    }
}

/// The first column holding a blob.
pub open spec fn first_blob(columns: Seq<String>, values: Seq<SqlValue>) -> Option<Seq<char>>
    decreases columns.len(),
{
    if columns.len() == 0 {
        None
    } else {
        match first_blob(columns.drop_last(), values) {
            Some(name) => Some(name),
            None => if values[columns.len() - 1] is Blob {
                Some(columns.last()@)
            } else {
                None
            },
        }
    }
}

/// The row's `created_at` text (of its last such column), when it is text.
pub open spec fn genesis_created_at(columns: Seq<String>, values: Seq<SqlValue>) -> Option<Seq<char>>
    decreases columns.len(),
{
    if columns.len() == 0 {
        None
    } else if columns.last()@ == "created_at"@ {
        match values[columns.len() - 1] {
            SqlValue::Text(text) => Some(text@),
            _ => None,
        }
    } else {
        genesis_created_at(columns.drop_last(), values)
    }
}

/// A row key as text: a string as itself, anything else as its JSON text.
pub open spec fn key_text(value: SqlValue) -> Seq<char> {
    match value {
        SqlValue::Text(text) => text@,
        SqlValue::Integer(n) => format_int_seq(n as int, 0),
        SqlValue::Real(text) => text@,
        _ => "null"@,
    }
}

/// The row's key: its (last) `id` or `name` column.
pub open spec fn genesis_row_key(columns: Seq<String>, values: Seq<SqlValue>) -> Option<Seq<char>>
    decreases columns.len(),
{
    if columns.len() == 0 {
        None
    } else if columns.last()@ == "id"@ || columns.last()@ == "name"@ {
        Some(key_text(values[columns.len() - 1]))
    } else {
        genesis_row_key(columns.drop_last(), values)
    }
}

/// The row's timestamp can be read and placed on the ULID clock.
pub open spec fn genesis_time_fits(created_at: Seq<char>) -> bool {
    sqlite_datetime_fits(created_at) && match sqlite_datetime_fields(created_at) {
        Some(f) => unix_of_fields(f) * 1000 <= u64::MAX,
        None => true,
    }
}

/// The milliseconds a genesis event id carries: the row's unix seconds,
/// clamped at 0, times 1000.
pub open spec fn genesis_ms(unix: int) -> u64 {
    (if unix < 0 {
        0
    } else {
        unix * 1000
    }) as u64
}

pub open spec fn blob_message(table: Seq<char>, column: Seq<char>) -> Seq<char> {
    table + " has a BLOB column ("@ + column + "); genesis does not support blobs"@
}

pub open spec fn keyless_message(table: Seq<char>) -> Seq<char> {
    table + " row without id/name key"@
}

pub open spec fn undated_message(table: Seq<char>, key: Seq<char>) -> Seq<char> {
    table + " row "@ + key + " has no created_at"@
}

pub open spec fn unparseable_message(table: Seq<char>, key: Seq<char>, created_at: Seq<char>) -> Seq<
    char,
> {
    table + " row "@ + key + ": unparseable created_at '"@ + created_at + "'"@
}

/// The genesis event of one row, or why there is none: writer `migration`,
/// a deterministic id from the row's `created_at` and key, that
/// timestamp, and the row (less its timestamp) as the payload with the
/// row's own id kept.
pub open spec fn genesis_event_spec(
    table: Seq<char>,
    columns: Seq<String>,
    values: Seq<SqlValue>,
) -> Result<(Seq<char>, Seq<char>, Seq<(String, JsonScalar)>), Seq<char>> {
    match first_blob(columns, values) {
        Some(column) => Err(blob_message(table, column)),
        None => match genesis_row_key(columns, values) {
            None => Err(keyless_message(table)),
            Some(key) => match genesis_created_at(columns, values) {
                None => Err(undated_message(table, key)),
                Some(created_at) => match sqlite_datetime_fields(created_at) {
                    None => Err(unparseable_message(table, key, created_at)),
                    Some(f) => {
                        let unix = unix_of_fields(f);
                        Ok(
                            (
                                genesis_ulid_seq(genesis_ms(unix), table, key),
                                rfc3339_seq(unix),
                                object_from(genesis_members(table, columns, values)),
                            ),
                        )
                    },
                },
            },
        },
    }
}

fn key_string(value: &SqlValue) -> (text: String)
    ensures
        text@ == key_text(*value),
{
    match value {
        SqlValue::Text(text) => text.clone(),
        SqlValue::Integer(n) => {
            let mut out: Vec<char> = Vec::new();
            push_int_padded(&mut out, *n, 0);
            string_of(&out)
        },
        SqlValue::Real(text) => text.clone(),
        _ => "null".to_owned(),
    }
}

fn column_value(value: &SqlValue) -> (json: JsonScalar)
    ensures
        json == column_json(*value),
{
    match value {
        SqlValue::Null => JsonScalar::Null,
        SqlValue::Integer(n) => JsonScalar::Int(*n),
        SqlValue::Real(text) => JsonScalar::Number(text.clone()),
        SqlValue::Text(text) => JsonScalar::Text(text.clone()),
        SqlValue::Blob(_) => JsonScalar::Null,
    }
}

fn message_with(parts: &Vec<&str>) -> (message: String)
    ensures
        message@ == crate::views::concat(parts@.map_values(|p: &str| p@)),
{
    let ghost views = parts@.map_values(|p: &str| p@);
    let mut out: Vec<char> = Vec::new();
    let mut i: usize = 0;
    while i < parts.len()
        invariant
            i <= parts@.len(),
            views == parts@.map_values(|p: &str| p@),
            out@ == crate::views::concat(views.take(i as int)),
        decreases parts@.len() - i,
    {
        proof {
            assert(views.take(i as int + 1).drop_last() =~= views.take(i as int));
        }
        push_str(&mut out, parts[i]);
        i = i + 1;
    }
    proof {
        assert(views.take(i as int) =~= views);
    }
    string_of(&out)
}

/// Whether a row's `created_at`, when it has one, can be placed on the
/// ULID clock (`genesis_time_fits`): callers test this before
/// `genesis_event`.
pub fn genesis_time_in_range(columns: &Vec<String>, values: &Vec<SqlValue>) -> (fits: bool)
    requires
        columns@.len() == values@.len(),
    ensures
        fits == (genesis_created_at(columns@, values@) is Some ==> genesis_time_fits(
            genesis_created_at(columns@, values@)->0,
        )),
{
    let mut created_at: Option<String> = None;
    let mut i: usize = 0;
    while i < columns.len()
        invariant
            i <= columns@.len(),
            columns@.len() == values@.len(),
            crate::imports::opt_view(created_at) == genesis_created_at(columns@.take(i as int), values@),
        decreases columns@.len() - i,
    {
        proof {
            let taken = columns@.take(i as int + 1);
            assert(taken.drop_last() =~= columns@.take(i as int));
            assert(taken.last() == columns@[i as int]);
        }
        if columns[i] == "created_at".to_owned() {
            created_at = match &values[i] {
                SqlValue::Text(text) => Some(text.clone()),
                _ => None,
            };
        }
        i = i + 1;
    }
    proof {
        assert(columns@.take(i as int) =~= columns@);
    }
    match created_at {
        None => true,
        Some(text) => {
            if !sqlite_datetime_in_range(text.as_str()) {
                return false;
            }
            match unix_from_sqlite_datetime(text.as_str()) {
                None => true,
                Some(unix) => (unix as i128) * 1000 <= (u64::MAX as i128),
            }
        },
    }
}

/// The genesis event of one row of `table`, given its column names and
/// values in order.
pub fn genesis_event(table: &str, op: &str, columns: &Vec<String>, values: &Vec<SqlValue>) -> (event:
    Result<LogEvent, HarnessInfraError>)
    requires
        columns@.len() == values@.len(),
        genesis_created_at(columns@, values@) is Some ==> genesis_time_fits(
            genesis_created_at(columns@, values@)->0,
        ),
    ensures
        match genesis_event_spec(table@, columns@, values@) {
            Ok((id, recorded_at, payload)) => match event {
                Ok(e) => {
                    &&& e.event_id@ == id
                    &&& e.writer@ == "migration"@
                    &&& e.recorded_at@ == recorded_at
                    &&& e.op@ == op@
                    &&& e.payload@ == payload
                    &&& e.observed@.len() == 0
                    &&& e.writer_seq == 0
                },
                Err(_) => false,
            },
            Err(message) => match event {
                Err(HarnessInfraError::MigrationVerifyFailed(m)) => m@ == message,
                _ => false,
            },
        },
{
    let mut members: Vec<(String, JsonScalar)> = Vec::new();
    let mut created_at: Option<String> = None;
    let mut row_key: Option<String> = None;
    let mut i: usize = 0;
    while i < columns.len()
        invariant
            i <= columns@.len(),
            columns@.len() == values@.len(),
            first_blob(columns@.take(i as int), values@) is None,
            members@ == genesis_members(table@, columns@.take(i as int), values@),
            crate::imports::opt_view(created_at) == genesis_created_at(columns@.take(i as int), values@),
            crate::imports::opt_view(row_key) == genesis_row_key(columns@.take(i as int), values@),
        decreases columns@.len() - i,
    {
        let name = &columns[i];
        let value = &values[i];
        proof {
            let taken = columns@.take(i as int + 1);
            assert(taken.drop_last() =~= columns@.take(i as int));
            assert(taken.last() == *name);
        }
        match value {
            SqlValue::Blob(_) => {
                proof {
                    lemma_first_blob_prefix(columns@, values@, i as int + 1);
                }
                let parts: Vec<&str> = vec![table, " has a BLOB column (", name.as_str(), "); genesis does not support blobs"];
                let message = message_with(&parts);
                proof {
                    assert(parts@.map_values(|p: &str| p@) =~= seq![table@, " has a BLOB column ("@, name@, "); genesis does not support blobs"@]);
                    reveal_with_fuel(crate::views::concat, 5);
                    assert(message@ =~= blob_message(table@, name@));
                }
                return Err(HarnessInfraError::MigrationVerifyFailed(message));
            },
            _ => {},
        }
        proof {
            reveal_strlit("created_at");
            reveal_strlit("id");
            reveal_strlit("name");
            reveal_strlit("status");
            reveal_strlit("checked_at");
        }
        if *name == "created_at".to_owned() {
            created_at = match value {
                SqlValue::Text(text) => Some(text.clone()),
                _ => None,
            };
            assert(name@.len() == 10 && "id"@.len() == 2 && "name"@.len() == 4);
        } else if !(table.to_owned() == "tool".to_owned() && (*name == "status".to_owned() || *name
            == "checked_at".to_owned())) {
            assert(name@ != "created_at"@);
            if *name == "id".to_owned() || *name == "name".to_owned() {
                row_key = Some(key_string(value));
            }
            members.push((name.clone(), column_value(value)));
        } else {
            assert((name@.len() == 6 || name@.len() == 10) && "id"@.len() == 2 && "name"@.len() == 4);
        }
        i = i + 1;
    }
    proof {
        assert(columns@.take(i as int) =~= columns@);
    }
    let key = match row_key {
        Some(key) => key,
        None => {
            let mut message: Vec<char> = Vec::new();
            push_str(&mut message, table);
            push_str(&mut message, " row without id/name key");
            assert(message@ =~= keyless_message(table@));
            return Err(HarnessInfraError::MigrationVerifyFailed(string_of(&message)));
        },
    };
    let stamp = match created_at {
        Some(text) => text,
        None => {
            let mut message: Vec<char> = Vec::new();
            push_str(&mut message, table);
            push_str(&mut message, " row ");
            push_str(&mut message, key.as_str());
            push_str(&mut message, " has no created_at");
            assert(message@ =~= undated_message(table@, key@));
            return Err(HarnessInfraError::MigrationVerifyFailed(string_of(&message)));
        },
    };
    let unix = match unix_from_sqlite_datetime(stamp.as_str()) {
        Some(unix) => unix,
        None => {
            let mut message: Vec<char> = Vec::new();
            push_str(&mut message, table);
            push_str(&mut message, " row ");
            push_str(&mut message, key.as_str());
            push_str(&mut message, ": unparseable created_at '");
            push_str(&mut message, stamp.as_str());
            push_str(&mut message, "'");
            assert(message@ =~= unparseable_message(table@, key@, stamp@));
            return Err(HarnessInfraError::MigrationVerifyFailed(string_of(&message)));
        },
    };
    let ms: u64 = if unix < 0 {
        0
    } else {
        unix as u64 * 1000
    };
    let mut payload: Vec<(String, JsonScalar)> = Vec::new();
    let mut j: usize = 0;
    assert(payload@ =~= object_from(members@.take(0)));
    while j < members.len()
        invariant
            j <= members@.len(),
            payload@ == object_from(members@.take(j as int)),
            keys_in_order(payload@),
        decreases members@.len() - j,
    {
        proof {
            assert(members@.take(j as int + 1).drop_last() =~= members@.take(j as int));
        }
        let entry = (members[j].0.clone(), clone_json(&members[j].1));
        proof {
            assert(entry == members@[j as int]);
        }
        object_insert_member(&mut payload, entry);
        j = j + 1;
    }
    proof {
        assert(members@.take(j as int) =~= members@);
    }
    Ok(
        LogEvent {
            event_id: genesis_ulid(ms, table, key.as_str()),
            writer: "migration".to_owned(),
            recorded_at: rfc3339_from_unix(unix),
            op: op.to_owned(),
            payload,
            observed: Vec::new(),
            writer_seq: 0,
        },
    )
}

proof fn lemma_first_blob_prefix(columns: Seq<String>, values: Seq<SqlValue>, i: int)
    requires
        0 < i <= columns.len(),
        first_blob(columns.take(i - 1), values) is None,
        values[i - 1] is Blob,
    ensures
        first_blob(columns.take(i), values) == Some(columns[i - 1]@),
        first_blob(columns, values) == Some(columns[i - 1]@),
    decreases columns.len() - i,
{
    assert(columns.take(i).drop_last() =~= columns.take(i - 1));
    if i < columns.len() {
        lemma_first_blob_extends(columns, values, i);
    } else {
        assert(columns.take(i) =~= columns);
    }
}

proof fn lemma_first_blob_extends(columns: Seq<String>, values: Seq<SqlValue>, i: int)
    requires
        0 <= i <= columns.len(),
        first_blob(columns.take(i), values) is Some,
    ensures
        first_blob(columns, values) == first_blob(columns.take(i), values),
    decreases columns.len() - i,
{
    if i < columns.len() {
        assert(columns.take(i + 1).drop_last() =~= columns.take(i));
        lemma_first_blob_extends(columns, values, i + 1);
    } else {
        assert(columns.take(i) =~= columns);
    }
}

/// An exact copy of a JSON value.
pub fn clone_json(value: &JsonScalar) -> (copy: JsonScalar)
    ensures
        copy == *value,
{
    match value {
        JsonScalar::Null => JsonScalar::Null,
        JsonScalar::Bool(b) => JsonScalar::Bool(*b),
        JsonScalar::Int(n) => JsonScalar::Int(*n),
        JsonScalar::Number(text) => JsonScalar::Number(text.clone()),
        JsonScalar::Text(text) => JsonScalar::Text(text.clone()),
        JsonScalar::Nested(text) => JsonScalar::Nested(text.clone()),
    }
}

/// The rows of one durable table, as genesis reads them: the table, the op
/// that re-creates its rows, its column names and each row's values in
/// table order.
pub struct GenesisTable {
    pub table: String,
    pub op: String,
    pub columns: Vec<String>,
    pub rows: Vec<Vec<SqlValue>>,
}

/// One row to turn into a genesis event: table, op, columns and values.
pub open spec fn table_rows(t: GenesisTable) -> Seq<(Seq<char>, Seq<char>, Seq<String>, Seq<SqlValue>)> {
    t.rows@.map_values(|r: Vec<SqlValue>| (t.table@, t.op@, t.columns@, r@))
}

/// Every row of `tables`, table by table, each in table order.
pub open spec fn genesis_rows(tables: Seq<GenesisTable>) -> Seq<(Seq<char>, Seq<char>, Seq<String>, Seq<SqlValue>)>
    decreases tables.len(),
{
    if tables.len() == 0 {
        Seq::empty()
    } else {
        genesis_rows(tables.drop_last()) + table_rows(tables.last())
    }
}

/// Each row has a value per column, and its `created_at`, when it has
/// one, can be placed on the ULID clock.
pub open spec fn genesis_table_fits(t: GenesisTable) -> bool {
    forall|r: int|
        0 <= r < t.rows@.len() ==> {
            &&& (#[trigger] t.rows@[r])@.len() == t.columns@.len()
            &&& genesis_created_at(t.columns@, t.rows@[r]@) is Some ==> genesis_time_fits(
                genesis_created_at(t.columns@, t.rows@[r]@)->0,
            )
        }
}

/// `e` is the genesis event of the row `(table, op, columns, values)`.
#[verifier::opaque]
pub open spec fn is_genesis_event_of(e: LogEvent, row: (Seq<char>, Seq<char>, Seq<String>, Seq<SqlValue>)) -> bool {
    match genesis_event_spec(row.0, row.2, row.3) {
        Ok((id, recorded_at, payload)) => {
            &&& e.event_id@ == id
            &&& e.writer@ == "migration"@
            &&& e.recorded_at@ == recorded_at
            &&& e.op@ == row.1
            &&& e.payload@ == payload
            &&& e.observed@.len() == 0
            &&& e.writer_seq == 0
        },
        Err(_) => false,
    }
}

/// What genesis makes of row `k` of `rows`.
#[verifier::opaque]
pub open spec fn genesis_row_event(rows: Seq<(Seq<char>, Seq<char>, Seq<String>, Seq<SqlValue>)>, k: int) -> Result<
    (Seq<char>, Seq<char>, Seq<(String, JsonScalar)>),
    Seq<char>,
> {
    genesis_event_spec(rows[k].0, rows[k].2, rows[k].3)
}

proof fn lemma_genesis_event_of_ok(
    e: LogEvent,
    rows: Seq<(Seq<char>, Seq<char>, Seq<String>, Seq<SqlValue>)>,
    k: int,
)
    requires
        is_genesis_event_of(e, rows[k]),
    ensures
        genesis_row_event(rows, k) is Ok,
{
    reveal(is_genesis_event_of);
    reveal(genesis_row_event);
}

/// `genesis_event` for one row, stated over `is_genesis_event_of`.
fn genesis_row(table: &str, op: &str, columns: &Vec<String>, values: &Vec<SqlValue>) -> (event: Result<
    LogEvent,
    HarnessInfraError,
>)
    requires
        columns@.len() == values@.len(),
        genesis_created_at(columns@, values@) is Some ==> genesis_time_fits(
            genesis_created_at(columns@, values@)->0,
        ),
    ensures
        match event {
            Ok(e) => is_genesis_event_of(e, (table@, op@, columns@, values@)),
            Err(err) => err matches HarnessInfraError::MigrationVerifyFailed(m) && genesis_event_spec(
                table@,
                columns@,
                values@,
            ) == Err::<(Seq<char>, Seq<char>, Seq<(String, JsonScalar)>), Seq<char>>(m@),
        },
{
    let event = genesis_event(table, op, columns, values);
    proof {
        reveal(is_genesis_event_of);
    }
    event
}

/// Synthesize the genesis log of a legacy cache: one event per durable
/// row, in replay order. The first row that cannot become an event (a BLOB
/// value, no id, no or an unreadable `created_at`) refuses the whole move.
pub fn synthesize_genesis(tables: &Vec<GenesisTable>) -> (events: Result<Vec<LogEvent>, HarnessInfraError>)
    requires
        forall|t: int| 0 <= t < tables@.len() ==> genesis_table_fits(#[trigger] tables@[t]),
    ensures
        events is Ok <==> forall|k: int|
            0 <= k < genesis_rows(tables@).len() ==> (#[trigger] genesis_row_event(
                genesis_rows(tables@),
                k,
            )) is Ok,
        events matches Ok(es) ==> exists|raw: Seq<LogEvent>|
            {
                &&& raw.len() == genesis_rows(tables@).len()
                &&& forall|k: int|
                    0 <= k < raw.len() ==> is_genesis_event_of(#[trigger] raw[k], genesis_rows(tables@)[k])
                &&& es@ == replay_order(raw)
            },
        events matches Ok(es) ==> es@.len() == genesis_rows(tables@).len() && in_replay_order(es@),
        events is Err ==> exists|k: int|
            {
                &&& 0 <= k < genesis_rows(tables@).len()
                &&& forall|j: int|
                    0 <= j < k ==> (#[trigger] genesis_row_event(genesis_rows(tables@), j)) is Ok
                &&& events matches Err(HarnessInfraError::MigrationVerifyFailed(m))
                &&& #[trigger] genesis_row_event(genesis_rows(tables@), k) == Err::<
                    (Seq<char>, Seq<char>, Seq<(String, JsonScalar)>),
                    Seq<char>,
                >(m@)
            },
{
    let mut events: Vec<LogEvent> = Vec::new();
    let mut ti: usize = 0;
    assert(genesis_rows(tables@.take(0)) =~= Seq::empty());
    while ti < tables.len()
        invariant
            ti <= tables@.len(),
            forall|t: int| 0 <= t < tables@.len() ==> genesis_table_fits(#[trigger] tables@[t]),
            events@.len() == genesis_rows(tables@.take(ti as int)).len(),
            forall|k: int|
                0 <= k < events@.len() ==> is_genesis_event_of(
                    #[trigger] events@[k],
                    genesis_rows(tables@.take(ti as int))[k],
                ),
        decreases tables@.len() - ti,
    {
        let t = &tables[ti];
        let ghost done = genesis_rows(tables@.take(ti as int));
        proof {
            assert(tables@.take(ti as int + 1).drop_last() =~= tables@.take(ti as int));
            assert(tables@.take(ti as int + 1).last() == *t);
            assert(genesis_rows(tables@.take(ti as int + 1)) == done + table_rows(*t));
            assert(genesis_table_fits(tables@[ti as int]));
        }
        let mut ri: usize = 0;
        while ri < t.rows.len()
            invariant
                ri <= t.rows@.len(),
                ti < tables@.len(),
                *t == tables@[ti as int],
                genesis_rows(tables@.take(ti as int + 1)) == done + table_rows(*t),
                genesis_table_fits(*t),
                events@.len() == done.len() + ri,
                forall|k: int|
                    0 <= k < events@.len() ==> is_genesis_event_of(
                        #[trigger] events@[k],
                        (done + table_rows(*t))[k],
                    ),
            decreases t.rows@.len() - ri,
        {
            let row = &t.rows[ri];
            proof {
                assert(t.rows@[ri as int]@.len() == t.columns@.len());
            }
            match genesis_row(t.table.as_str(), t.op.as_str(), &t.columns, row) {
                Ok(e) => {
                    let ghost before = events@;
                    events.push(e);
                    proof {
                        assert((done + table_rows(*t))[done.len() + ri] == (t.table@, t.op@, t.columns@, row@));
                        assert forall|k: int| 0 <= k < events@.len() implies is_genesis_event_of(
                            #[trigger] events@[k],
                            (done + table_rows(*t))[k],
                        ) by {
                            if k < before.len() {
                                assert(events@[k] == before[k]);
                            }
                        }
                    }
                },
                Err(err) => {
                    proof {
                        let rows = genesis_rows(tables@);
                        let k = done.len() + ri;
                        lemma_genesis_rows_prefix(tables@, ti as int + 1);
                        assert((done + table_rows(*t))[k] == (t.table@, t.op@, t.columns@, row@));
                        assert(rows[k] == (done + table_rows(*t))[k]);
                        assert forall|j: int| 0 <= j < k implies (#[trigger] genesis_row_event(rows, j)) is Ok by {
                            assert(rows[j] == (done + table_rows(*t))[j]);
                            assert(is_genesis_event_of(events@[j], (done + table_rows(*t))[j]));
                            lemma_genesis_event_of_ok(events@[j], rows, j);
                        }
                        assert(k < rows.len());
                        let m = err->MigrationVerifyFailed_0;
                        assert(genesis_row_event(rows, k) == Err::<
                            (Seq<char>, Seq<char>, Seq<(String, JsonScalar)>),
                            Seq<char>,
                        >(m@)) by {
                            reveal(genesis_row_event);
                        }
                        assert(!(genesis_row_event(rows, k) is Ok));
                    }
                    return Err(err);
                },
            }
            ri = ri + 1;
        }
        proof {
            assert(t.rows@.len() == table_rows(*t).len());
        }
        ti = ti + 1;
    }
    proof {
        assert(tables@.take(ti as int) =~= tables@);
        let rows = genesis_rows(tables@);
        assert forall|k: int| 0 <= k < rows.len() implies (#[trigger] genesis_row_event(rows, k)) is Ok by {
            assert(is_genesis_event_of(events@[k], rows[k]));
            lemma_genesis_event_of_ok(events@[k], rows, k);
        }
    }
    let ghost raw = events@;
    let sorted = sort_events(events);
    proof {
        law_replay_order_sorted_permutation(raw);
        vstd::seq_lib::to_multiset_len(raw);
        vstd::seq_lib::to_multiset_len(sorted@);
    }
    assert(raw.len() == genesis_rows(tables@).len());
    Ok(sorted)
}

/// The rows of the first `n` tables come first among all rows.
proof fn lemma_genesis_rows_prefix(tables: Seq<GenesisTable>, n: int)
    requires
        0 <= n <= tables.len(),
    ensures
        genesis_rows(tables.take(n)).len() <= genesis_rows(tables).len(),
        forall|k: int|
            0 <= k < genesis_rows(tables.take(n)).len() ==> #[trigger] genesis_rows(tables)[k]
                == genesis_rows(tables.take(n))[k],
    decreases tables.len() - n,
{
    if n < tables.len() {
        lemma_genesis_rows_prefix(tables, n + 1);
        let shorter = tables.take(n);
        let longer = tables.take(n + 1);
        assert(longer.drop_last() =~= shorter);
        assert(genesis_rows(longer) == genesis_rows(shorter) + table_rows(longer.last()));
    } else {
        assert(tables.take(n) =~= tables);
    }
}

/// Genesis events replay into the table they came from: for each table
/// genesis reads, the op it gives that table's rows is one whose cache
/// write inserts into that same table, whatever the payload; and no two
/// tables share an op.
pub proof fn law_genesis_ops_insert_into_their_tables(i: int, p: Seq<(String, JsonScalar)>, recorded_at: Seq<char>)
    requires
        0 <= i < genesis_tables_spec().len(),
    ensures
        cache_write_spec(genesis_tables_spec()[i].1, p, recorded_at) is Some,
        cache_write_spec(genesis_tables_spec()[i].1, p, recorded_at)->0 is Insert,
        cache_write_spec(genesis_tables_spec()[i].1, p, recorded_at) matches Some(
            CacheWriteView::Insert(table, _),
        ) ==> table == genesis_tables_spec()[i].0,
        forall|j: int|
            0 <= j < genesis_tables_spec().len() && j != i ==> genesis_tables_spec()[j].1
                != genesis_tables_spec()[i].1,
{
    reveal_strlit("intake.record");
    reveal_strlit("story.add");
    reveal_strlit("story.update");
    reveal_strlit("story.verify_result");
    reveal_strlit("decision.add");
    reveal_strlit("decision.update");
    reveal_strlit("decision.verify_result");
    reveal_strlit("backlog.add");
    reveal_strlit("backlog.close");
    reveal_strlit("tool.register");
    reveal_strlit("tool.remove");
    reveal_strlit("intervention.add");
    reveal_strlit("signal.add");
    reveal_strlit("trace.record");
    reveal_strlit("intake");
    reveal_strlit("story");
    reveal_strlit("decision");
    reveal_strlit("backlog");
    reveal_strlit("tool");
    reveal_strlit("trace");
    reveal_strlit("intervention");
    reveal_strlit("story_signal");
    let ops = genesis_tables_spec();
    assert("tool.register"@[0] != "intake.record"@[0]);
    assert("trace.record"@[0] != "story.update"@[0]);
    assert("trace.record"@[0] != "decision.add"@[0]);
    assert("decision.add"@[0] != "story.update"@[0]);
    assert("backlog.add"@[0] != "tool.remove"@[0]);
    if i == 0 {
        assert(ops[i].1 == "intake.record"@);
    } else if i == 1 {
        assert(ops[i].1 == "story.add"@);
    } else if i == 2 {
        assert(ops[i].1 == "decision.add"@);
    } else if i == 3 {
        assert(ops[i].1 == "backlog.add"@);
    } else if i == 4 {
        assert(ops[i].1 == "tool.register"@);
    } else if i == 5 {
        assert(ops[i].1 == "trace.record"@);
    } else if i == 6 {
        assert(ops[i].1 == "intervention.add"@);
    } else {
        assert(ops[i].1 == "signal.add"@);
    }
    assert forall|j: int| 0 <= j < ops.len() && j != i implies ops[j].1 != ops[i].1 by {
        if ops[j].1.len() == ops[i].1.len() {
            assert(ops[j].1[0] != ops[i].1[0]);
        }
    }
}

/// Genesis reads every durable table, each once: the tables it gives
/// events for are exactly the tables a rebuild dumps and compares.
pub proof fn law_genesis_covers_every_durable_table()
    ensures
        genesis_tables_spec().len() == durable_tables_spec().len(),
        forall|i: int|
            0 <= i < durable_tables_spec().len() ==> exists|j: int|
                0 <= j < genesis_tables_spec().len() && (#[trigger] genesis_tables_spec()[j]).0
                    == (#[trigger] durable_tables_spec()[i]).0,
        forall|i: int, j: int|
            0 <= i < genesis_tables_spec().len() && 0 <= j < genesis_tables_spec().len() && i != j
                ==> (#[trigger] genesis_tables_spec()[i]).0 != (#[trigger] genesis_tables_spec()[j]).0,
{
    reveal_strlit("intake");
    reveal_strlit("story");
    reveal_strlit("decision");
    reveal_strlit("backlog");
    reveal_strlit("tool");
    reveal_strlit("trace");
    reveal_strlit("intervention");
    reveal_strlit("story_signal");
    let g = genesis_tables_spec();
    let d = durable_tables_spec();
    assert forall|i: int| 0 <= i < d.len() implies exists|j: int|
        0 <= j < g.len() && (#[trigger] g[j]).0 == (#[trigger] d[i]).0 by {
        if i == 4 {
            assert(g[5].0 == d[4].0);
        } else if i == 5 {
            assert(g[4].0 == d[5].0);
        } else {
            assert(g[i].0 == d[i].0);
        }
    }
    assert forall|i: int, j: int| 0 <= i < g.len() && 0 <= j < g.len() && i != j implies (#[trigger] g[i]).0 != (#[trigger] g[j]).0 by {
        if g[i].0.len() == g[j].0.len() {
            assert(g[i].0[0] != g[j].0[0] || g[i].0[1] != g[j].0[1]);
        }
    }
}

} // verus!
