use vstd::prelude::*;
use vstd::utf8::encode_utf8;

use crate::cache::{SqlValue, SqlView};
use crate::error::HarnessInfraError;
use crate::events::{path_join, path_join_seq, EventLog};
use crate::fnv::{fnv1a64, fnv_fold, FNV_OFFSET_BASIS, FNV_PRIME};
use crate::markdown::join_seq;
use crate::sync::{hash_string, hash_text};
use crate::markdown::join_strings;
use crate::text::{
    chars_of, first_piece_chars, first_piece_seq, format_int_seq, hex_seq, parse_i64,
    parse_i64_seq, push_hex, push_int_padded, push_str, string_of, strings_view,
    trim_start_char, trim_start_char_seq,
};

verus! {

/// Highest schema version this library reads and writes. Migrating to a
/// newer one is refused rather than applying SQL it cannot operate.
pub const SUPPORTED_SCHEMA_VERSION: i64 = 8;

/// The SQLite-backed harness repository: where the repository, its cache
/// database and its schema migrations live, and the event log it writes.
pub struct SqliteHarnessRepository {
    repo_root: String,
    db_path: String,
    schema_dir: String,
    events: EventLog,
}

impl SqliteHarnessRepository {
    pub closed spec fn repo_root_view(&self) -> Seq<char> {
        self.repo_root@
    }

    pub closed spec fn db_path_view(&self) -> Seq<char> {
        self.db_path@
    }

    pub closed spec fn schema_dir_view(&self) -> Seq<char> {
        self.schema_dir@
    }

    pub closed spec fn events_view(&self) -> EventLog {
        self.events
    }

    /// The repository at `repo_root`, whose log is written as `writer`
    /// (see `resolve_writer`).
    pub fn new(repo_root: String, db_path: String, schema_dir: String, writer: String) -> (repository:
        SqliteHarnessRepository)
        ensures
            repository.repo_root_view() == repo_root@,
            repository.db_path_view() == db_path@,
            repository.schema_dir_view() == schema_dir@,
            repository.events_view().events_dir_view() == path_join_seq(
                repo_root@,
                ".harness/events"@,
            ),
            repository.events_view().writer_view() == writer@,
    {
        let events = EventLog::new(repo_root.as_str(), writer);
        SqliteHarnessRepository { repo_root, db_path, schema_dir, events }
    }

    pub fn repo_root(&self) -> (root: &str)
        ensures
            root@ == self.repo_root_view(),
    {
        self.repo_root.as_str()
    }

    pub fn db_path(&self) -> (path: &str)
        ensures
            path@ == self.db_path_view(),
    {
        self.db_path.as_str()
    }

    pub fn schema_dir(&self) -> (dir: &str)
        ensures
            dir@ == self.schema_dir_view(),
    {
        self.schema_dir.as_str()
    }

    pub fn events(&self) -> (events: &EventLog)
        ensures
            *events == self.events_view(),
    {
        &self.events
    }

    /// The directory of every writer's log file.
    pub fn events_dir(&self) -> (dir: String)
        ensures
            dir@ == path_join_seq(self.repo_root_view(), ".harness/events"@),
    {
        path_join(self.repo_root.as_str(), ".harness/events")
    }
}

/// The eight durable tables, each with the column it is dumped in order of.
pub open spec fn durable_tables_spec() -> Seq<(Seq<char>, Seq<char>)> {
    seq![
        ("intake"@, "id"@),
        ("story"@, "id"@),
        ("decision"@, "id"@),
        ("backlog"@, "id"@),
        ("trace"@, "id"@),
        ("tool"@, "name"@),
        ("intervention"@, "id"@),
        ("story_signal"@, "id"@),
    ]
}

pub open spec fn pairs_view(pairs: Seq<(String, String)>) -> Seq<(Seq<char>, Seq<char>)> {
    pairs.map_values(|p: (String, String)| (p.0@, p.1@))
}

fn push_pair(pairs: &mut Vec<(String, String)>, a: &str, b: &str)
    ensures
        pairs_view(final(pairs)@) == pairs_view(old(pairs)@).push((a@, b@)),
{
    let ghost before = pairs@;
    pairs.push((a.to_owned(), b.to_owned()));
    proof {
        assert(pairs_view(pairs@) =~= pairs_view(before).push((a@, b@)));
    }
}

pub fn durable_tables() -> (tables: Vec<(String, String)>)
    ensures
        pairs_view(tables@) == durable_tables_spec(),
{
    let mut tables: Vec<(String, String)> = Vec::new();
    assert(pairs_view(tables@) =~= Seq::<(Seq<char>, Seq<char>)>::empty());
    push_pair(&mut tables, "intake", "id");
    push_pair(&mut tables, "story", "id");
    push_pair(&mut tables, "decision", "id");
    push_pair(&mut tables, "backlog", "id");
    push_pair(&mut tables, "trace", "id");
    push_pair(&mut tables, "tool", "name");
    push_pair(&mut tables, "intervention", "id");
    push_pair(&mut tables, "story_signal", "id");
    assert(pairs_view(tables@) =~= durable_tables_spec());
    tables
}

/// The hex digits of a blob, two per byte.
pub open spec fn blob_hex(bytes: Seq<u8>) -> Seq<char>
    decreases bytes.len(),
{
    if bytes.len() == 0 {
        Seq::empty()
    } else {
        blob_hex(bytes.drop_last()) + hex_seq(bytes.last() as nat, 2)
    }
}

/// How one value is written in a table dump.
pub open spec fn dump_value(value: SqlView) -> Seq<char> {
    match value {
        SqlView::Null => seq!['\u{2205}'],
        SqlView::Integer(n) => "i:"@ + format_int_seq(n, 0),
        SqlView::Real(text) => "r:"@ + text,
        SqlView::Text(text) => "t:"@ + text,
        SqlView::Blob(bytes) => "b:"@ + blob_hex(bytes),
    }
}

/// The dumped values of a row's included columns, in order.
pub open spec fn kept_values(values: Seq<SqlView>, included: Seq<bool>) -> Seq<Seq<char>>
    decreases values.len(),
{
    if values.len() == 0 {
        Seq::empty()
    } else {
        let rest = kept_values(values.drop_last(), included);
        if included[values.len() - 1] {
            rest.push(dump_value(values.last()))
        } else {
            rest
        }
    }
}

/// A row in a table dump: its included values separated by U+001F.
pub open spec fn dump_row(values: Seq<SqlView>, included: Seq<bool>) -> Seq<char> {
    join_seq(kept_values(values, included), seq!['\u{1f}'])
}

/// A table's canonical dump: its name, then each row after a U+001E.
pub open spec fn dump_rows(table: Seq<char>, rows: Seq<Seq<SqlView>>, included: Seq<bool>) -> Seq<
    char,
>
    decreases rows.len(),
{
    if rows.len() == 0 {
        table
    } else {
        dump_rows(table, rows.drop_last(), included) + seq!['\u{1e}'] + dump_row(
            rows.last(),
            included,
        )
    }
}

/// Which columns a dump keeps: those not named in `excluded`.
pub open spec fn included_columns(columns: Seq<Seq<char>>, excluded: Seq<Seq<char>>) -> Seq<bool> {
    columns.map_values(|c: Seq<char>| !excluded.contains(c))
}

pub open spec fn row_view(row: Vec<SqlValue>) -> Seq<SqlView> {
    row@.map_values(|v: SqlValue| v@)
}

pub open spec fn rows_view(rows: Seq<Vec<SqlValue>>) -> Seq<Seq<SqlView>> {
    rows.map_values(|r: Vec<SqlValue>| row_view(r))
}

fn push_blob_hex(out: &mut Vec<char>, bytes: &Vec<u8>)
    ensures
        final(out)@ == old(out)@ + blob_hex(bytes@),
{
    let ghost start = out@;
    let mut i: usize = 0;
    while i < bytes.len()
        invariant
            i <= bytes@.len(),
            out@ == start + blob_hex(bytes@.take(i as int)),
        decreases bytes@.len() - i,
    {
        proof {
            assert(bytes@.take(i as int + 1).drop_last() =~= bytes@.take(i as int));
        }
        push_hex(out, bytes[i] as u64, 2);
        i = i + 1;
        proof {
            assert(out@ =~= start + blob_hex(bytes@.take(i as int)));
        }
    }
    proof {
        assert(bytes@.take(i as int) =~= bytes@);
    }
}

fn push_dump_value(out: &mut Vec<char>, value: &SqlValue)
    ensures
        final(out)@ == old(out)@ + dump_value(value@),
{
    let ghost start = out@;
    match value {
        SqlValue::Null => {
            out.push('\u{2205}');
        },
        SqlValue::Integer(n) => {
            push_str(out, "i:");
            push_int_padded(out, *n, 0);
        },
        SqlValue::Real(text) => {
            push_str(out, "r:");
            push_str(out, text.as_str());
        },
        SqlValue::Text(text) => {
            push_str(out, "t:");
            push_str(out, text.as_str());
        },
        SqlValue::Blob(bytes) => {
            push_str(out, "b:");
            push_blob_hex(out, bytes);
        },
    }
    assert(out@ =~= start + dump_value(value@));
}

fn contains_string(names: &Vec<String>, name: &String) -> (found: bool)
    ensures
        found == strings_view(names@).contains(name@),
{
    let mut i: usize = 0;
    while i < names.len()
        invariant
            i <= names@.len(),
            forall|j: int| 0 <= j < i ==> names@[j]@ != name@,
        decreases names@.len() - i,
    {
        if names[i] == *name {
            proof {
                assert(strings_view(names@)[i as int] == name@);
            }
            return true;
        }
        i = i + 1;
    }
    proof {
        if strings_view(names@).contains(name@) {
            let k = choose|k: int| 0 <= k < names@.len() && strings_view(names@)[k] == name@;
            assert(names@[k]@ == name@);
        }
    }
    false
}

/// Serialize a table canonically for the dump hash: `columns` name the
/// values of each row; the `excluded` ones are left out. Returns the row
/// count and the dump.
pub fn dump_table(
    table: &str,
    columns: &Vec<String>,
    excluded: &Vec<String>,
    rows: &Vec<Vec<SqlValue>>,
) -> (dump: (i64, String))
    requires
        rows@.len() <= i64::MAX,
        forall|r: int| 0 <= r < rows@.len() ==> #[trigger] rows@[r]@.len() == columns@.len(),
    ensures
        dump.0 == rows@.len(),
        dump.1@ == dump_rows(
            table@,
            rows_view(rows@),
            included_columns(strings_view(columns@), strings_view(excluded@)),
        ),
{
    let ghost included = included_columns(strings_view(columns@), strings_view(excluded@));
    let mut keep: Vec<bool> = Vec::new();
    let mut c: usize = 0;
    while c < columns.len()
        invariant
            c <= columns@.len(),
            keep@ == included.take(c as int),
            included == included_columns(strings_view(columns@), strings_view(excluded@)),
        decreases columns@.len() - c,
    {
        let found = contains_string(excluded, &columns[c]);
        keep.push(!found);
        proof {
            assert(keep@ =~= included.take(c as int + 1));
        }
        c = c + 1;
    }
    proof {
        assert(keep@ =~= included);
    }
    let mut out = chars_of(table);
    let mut r: usize = 0;
    while r < rows.len()
        invariant
            r <= rows@.len(),
            keep@ == included,
            included.len() == columns@.len(),
            forall|k: int| 0 <= k < rows@.len() ==> #[trigger] rows@[k]@.len() == columns@.len(),
            out@ == dump_rows(table@, rows_view(rows@).take(r as int), included),
        decreases rows@.len() - r,
    {
        let row = &rows[r];
        let ghost values = row_view(*row);
        let ghost row_start = out@;
        out.push('\u{1e}');
        let ghost after_mark = out@;
        let mut i: usize = 0;
        let mut kept: usize = 0;
        while i < row.len()
            invariant
                i <= row@.len(),
                row@.len() == included.len(),
                keep@ == included,
                values == row_view(*row),
                kept == kept_values(values.take(i as int), included).len(),
                kept <= i,
                out@ == after_mark + dump_row(values.take(i as int), included),
            decreases row@.len() - i,
        {
            proof {
                assert(values.take(i as int + 1).drop_last() =~= values.take(i as int));
                assert(values.take(i as int + 1).last() == row@[i as int]@);
            }
            if keep[i] {
                let ghost pieces = kept_values(values.take(i as int), included);
                if kept > 0 {
                    out.push('\u{1f}');
                }
                push_dump_value(&mut out, &row[i]);
                proof {
                    let more = pieces.push(dump_value(row@[i as int]@));
                    assert(kept_values(values.take(i as int + 1), included) == more);
                    assert(more.drop_last() =~= pieces);
                    if pieces.len() == 0 {
                        assert(join_seq(pieces, seq!['\u{1f}']) =~= Seq::<char>::empty());
                    }
                    assert(out@ =~= after_mark + dump_row(values.take(i as int + 1), included));
                }
                kept = kept + 1;
            }
            i = i + 1;
        }
        proof {
            assert(values.take(i as int) =~= values);
            let taken = rows_view(rows@).take(r as int + 1);
            assert(taken.drop_last() =~= rows_view(rows@).take(r as int));
            assert(taken.last() == values);
            assert(out@ =~= row_start + seq!['\u{1e}'] + dump_row(values, included));
        }
        r = r + 1;
    }
    proof {
        assert(rows_view(rows@).take(r as int) =~= rows_view(rows@));
    }
    (rows.len() as i64, string_of(&out))
}

/// The rebuild's dump hash over the tables' dumps, in order: each dump's
/// FNV-1a is xored in, then the state is multiplied by the FNV prime.
pub open spec fn dump_hash_fold(dumps: Seq<Seq<char>>) -> u64
    decreases dumps.len(),
{
    if dumps.len() == 0 {
        FNV_OFFSET_BASIS
    } else {
        (dump_hash_fold(dumps.drop_last()) ^ fnv_fold(FNV_OFFSET_BASIS, encode_utf8(dumps.last())))
            .wrapping_mul(FNV_PRIME)
    }
}

/// Columns a migration proof leaves out of a table's dump: a tool's
/// machine-local scan state, which the log never carries.
pub open spec fn proof_excluded_columns(table: Seq<char>) -> Seq<Seq<char>> {
    if table == "tool"@ {
        seq!["status"@, "checked_at"@]
    } else {
        Seq::empty()
    }
}

pub fn migration_excluded_columns(table: &str) -> (columns: Vec<String>)
    ensures
        strings_view(columns@) == proof_excluded_columns(table@),
{
    let mut columns: Vec<String> = Vec::new();
    if table.to_owned() == "tool".to_owned() {
        columns.push("status".to_owned());
        columns.push("checked_at".to_owned());
        assert(strings_view(columns@) =~= proof_excluded_columns(table@));
    } else {
        assert(strings_view(columns@) =~= proof_excluded_columns(table@));
    }
    columns
}

/// One table of a rebuilt cache: its name, row count and canonical dump.
pub struct TableDump {
    pub table: String,
    pub row_count: i64,
    pub dump: String,
}

/// What a full rebuild of the cache from the log produced.
pub struct RebuildResult {
    pub db_path: String,
    pub events_consumed: usize,
    pub table_counts: Vec<(String, i64)>,
    pub dump_hash: String,
}

pub open spec fn counts_view(counts: Seq<(String, i64)>) -> Seq<(Seq<char>, int)> {
    counts.map_values(|c: (String, i64)| (c.0@, c.1 as int))
}

pub open spec fn table_counts_of(tables: Seq<TableDump>) -> Seq<(Seq<char>, int)> {
    tables.map_values(|t: TableDump| (t.table@, t.row_count as int))
}

pub open spec fn dumps_of(tables: Seq<TableDump>) -> Seq<Seq<char>> {
    tables.map_values(|t: TableDump| t.dump@)
}

impl SqliteHarnessRepository {
    /// The result of a full deterministic replay: the rebuilt database
    /// (`output`, else `.harness/shadow.db` under the repository), how many
    /// events were replayed, and each durable table's row count and dump.
    /// Every timestamp comes from the events, so two rebuilds of one log
    /// give the same dump hash.
    pub fn rebuild(&self, output: Option<String>, events_consumed: usize, tables: &Vec<TableDump>) -> (result:
        RebuildResult)
        ensures
            result.db_path@ == match output {
                Some(path) => path@,
                None => path_join_seq(self.repo_root_view(), ".harness/shadow.db"@),
            },
            result.events_consumed == events_consumed,
            counts_view(result.table_counts@) == table_counts_of(tables@),
            result.dump_hash@ == hash_text(dump_hash_fold(dumps_of(tables@))),
    {
        let db_path = match output {
            Some(path) => path,
            None => path_join(self.repo_root.as_str(), ".harness/shadow.db"),
        };
        let mut table_counts: Vec<(String, i64)> = Vec::new();
        let mut hash: u64 = FNV_OFFSET_BASIS;
        let mut i: usize = 0;
        while i < tables.len()
            invariant
                i <= tables@.len(),
                counts_view(table_counts@) == table_counts_of(tables@.take(i as int)),
                hash == dump_hash_fold(dumps_of(tables@.take(i as int))),
            decreases tables@.len() - i,
        {
            let table = &tables[i];
            let ghost before = table_counts@;
            table_counts.push((table.table.clone(), table.row_count));
            let bytes = table.dump.as_str().as_bytes();
            hash = (hash ^ fnv1a64(bytes)).wrapping_mul(FNV_PRIME);
            proof {
                let taken = tables@.take(i as int + 1);
                assert(taken.drop_last() =~= tables@.take(i as int));
                assert(dumps_of(taken).drop_last() =~= dumps_of(tables@.take(i as int)));
                assert(dumps_of(taken).last() == table.dump@);
                assert(counts_view(table_counts@) =~= counts_view(before).push(
                    (table.table@, table.row_count as int),
                ));
                assert(table_counts_of(taken) =~= table_counts_of(tables@.take(i as int)).push(
                    (table.table@, table.row_count as int),
                ));
            }
            i = i + 1;
        }
        proof {
            assert(tables@.take(i as int) =~= tables@);
        }
        RebuildResult { db_path, events_consumed, table_counts, dump_hash: hash_string(hash) }
    }
}

/// The message when a table's rebuilt row count differs from the live one.
pub open spec fn row_count_mismatch(table: Seq<char>, live: int, rebuilt: int) -> Seq<char> {
    table + ": row count "@ + format_int_seq(rebuilt, 0) + " (rebuilt) != "@ + format_int_seq(live, 0)
        + " (live)"@
}

/// The message when a table's rebuilt content differs from the live one.
pub open spec fn content_mismatch(table: Seq<char>) -> Seq<char> {
    table + ": content hash mismatch between live DB and genesis rebuild"@
}

/// Prove one table of a genesis rebuild equal to the live database: the row
/// counts must agree, then the FNV-1a hashes of the two dumps.
pub fn verify_table_dump(table: &str, live_count: i64, live_dump: &str, rebuilt_count: i64, rebuilt_dump: &str) -> (verdict:
    Result<(), HarnessInfraError>)
    ensures
        live_count != rebuilt_count ==> match verdict {
            Err(HarnessInfraError::MigrationVerifyFailed(message)) => message@ == row_count_mismatch(
                table@,
                live_count as int,
                rebuilt_count as int,
            ),
            _ => false,
        },
        live_count == rebuilt_count && fnv_fold(FNV_OFFSET_BASIS, encode_utf8(live_dump@))
            != fnv_fold(FNV_OFFSET_BASIS, encode_utf8(rebuilt_dump@)) ==> match verdict {
            Err(HarnessInfraError::MigrationVerifyFailed(message)) => message@ == content_mismatch(
                table@,
            ),
            _ => false,
        },
        live_count == rebuilt_count && fnv_fold(FNV_OFFSET_BASIS, encode_utf8(live_dump@))
            == fnv_fold(FNV_OFFSET_BASIS, encode_utf8(rebuilt_dump@)) ==> verdict is Ok,
{
    if live_count != rebuilt_count {
        let mut message = chars_of(table);
        push_str(&mut message, ": row count ");
        push_int_padded(&mut message, rebuilt_count, 0);
        push_str(&mut message, " (rebuilt) != ");
        push_int_padded(&mut message, live_count, 0);
        push_str(&mut message, " (live)");
        assert(message@ =~= row_count_mismatch(table@, live_count as int, rebuilt_count as int));
        return Err(HarnessInfraError::MigrationVerifyFailed(string_of(&message)));
    }
    if fnv1a64(live_dump.as_bytes()) != fnv1a64(rebuilt_dump.as_bytes()) {
        let mut message = chars_of(table);
        push_str(&mut message, ": content hash mismatch between live DB and genesis rebuild");
        assert(message@ =~= content_mismatch(table@));
        return Err(HarnessInfraError::MigrationVerifyFailed(string_of(&message)));
    }
    Ok(())
}

/// The outcome of moving a legacy database onto the event log.
pub struct MigrateToEventsResult {
    pub already_event_backed: bool,
    pub events_written: usize,
    pub table_counts: Vec<(String, i64)>,
    pub backup_db: Option<String>,
    pub archived_log_files: usize,
}

impl MigrateToEventsResult {
    /// The outcome when the cache is already event-backed: nothing to move.
    pub fn already_event_backed() -> (result: MigrateToEventsResult)
        ensures
            result.already_event_backed,
            result.events_written == 0,
            result.table_counts@.len() == 0,
            result.backup_db is None,
            result.archived_log_files == 0,
    {
        MigrateToEventsResult {
            already_event_backed: true,
            events_written: 0,
            table_counts: Vec::new(),
            backup_db: None,
            archived_log_files: 0,
        }
    }
}

/// How moving a cache onto the event log starts: an event-backed cache has
/// nothing to move, so the move ends at once with nothing written, and
/// moving twice changes nothing the second time.
pub fn migration_start(event_backed: bool) -> (done: Option<MigrateToEventsResult>)
    ensures
        done is Some <==> event_backed,
        done matches Some(r) ==> r.already_event_backed && r.events_written == 0
            && r.table_counts@.len() == 0 && r.backup_db is None && r.archived_log_files == 0,
{
    if event_backed {
        Some(MigrateToEventsResult::already_event_backed())
    } else {
        None
    }
}

/// How opening the cache starts.
pub enum CacheStart {
    /// The database exists: open it and replay what is new in the log.
    Open,
    /// There is no database but the log has files: rebuild it from them.
    Rebuild,
}

/// How opening the cache at `db_path` starts: an existing database is
/// opened; a missing one is rebuilt from the log when the log has files,
/// and is otherwise an error.
pub fn cache_start(db_exists: bool, event_files: usize, db_path: &str) -> (start: Result<CacheStart, HarnessInfraError>)
    ensures
        db_exists ==> start matches Ok(CacheStart::Open),
        !db_exists && event_files > 0 ==> start matches Ok(CacheStart::Rebuild),
        !db_exists && event_files == 0 ==> match start {
            Err(HarnessInfraError::MissingDatabase(path)) => path@ == db_path@,
            _ => false,
        },
{
    if db_exists {
        Ok(CacheStart::Open)
    } else if event_files > 0 {
        Ok(CacheStart::Rebuild)
    } else {
        Err(HarnessInfraError::MissingDatabase(db_path.to_owned()))
    }
}

/// The message when the database must be migrated before the move.
pub open spec fn schema_behind_message(schema_version: int, expected: int) -> Seq<char> {
    "database schema is v"@ + format_int_seq(schema_version, 0) + ", migrations go to v"@
        + format_int_seq(expected, 0) + " \u{2014} run `harness-cli migrate` first"@
}

/// The move onto the event log needs the database at the newest migration
/// on disk.
pub fn check_schema_current(schema_version: i64, expected: i64) -> (verdict: Result<(), HarnessInfraError>)
    ensures
        schema_version >= expected ==> verdict is Ok,
        schema_version < expected ==> match verdict {
            Err(HarnessInfraError::MigrationVerifyFailed(message)) => message@
                == schema_behind_message(schema_version as int, expected as int),
            _ => false,
        },
{
    if schema_version < expected {
        let mut message: Vec<char> = Vec::new();
        push_str(&mut message, "database schema is v");
        push_int_padded(&mut message, schema_version, 0);
        push_str(&mut message, ", migrations go to v");
        push_int_padded(&mut message, expected, 0);
        push_str(&mut message, " \u{2014} run `harness-cli migrate` first");
        assert(message@ =~= schema_behind_message(schema_version as int, expected as int));
        return Err(HarnessInfraError::MigrationVerifyFailed(string_of(&message)));
    }
    Ok(())
}

/// Read-only snapshot of versions and state for `info`, built without
/// touching the cache, so that a cache behind the log is reported rather
/// than healed.
pub struct InfoReport {
    /// Version of this library.
    pub cli_version: String,
    /// Highest schema version this library reads and writes.
    pub supported_schema_version: i64,
    /// Highest migration version on disk (what `migrate` targets).
    pub available_schema_version: i64,
    /// Event-log line format version this library writes.
    pub event_format_version: i64,
    /// Whether a database exists at `db_path`.
    pub initialized: bool,
    pub db_path: String,
    /// Highest applied migration, 0 when none.
    pub applied_schema_version: i64,
    /// Every applied migration version, ascending.
    pub applied_migrations: Vec<i64>,
    /// Whether the cache is marked event-backed.
    pub event_backed: bool,
    /// Number of `.jsonl` writer files in the events directory.
    pub event_files: usize,
    /// The applied schema is behind the migrations on disk: run `migrate`.
    pub schema_behind_cli: bool,
    /// The log holds events the cache has not consumed.
    pub cache_behind_log: bool,
}

/// The largest of `values`, 0 when there are none or all are below 0.
pub open spec fn max_or_zero(values: Seq<i64>) -> int
    decreases values.len(),
{
    if values.len() == 0 {
        0
    } else {
        let rest = max_or_zero(values.drop_last());
        if values.last() > rest {
            values.last() as int
        } else {
            rest
        }
    }
}

pub fn max_version(values: &Vec<i64>) -> (max: i64)
    ensures
        max == max_or_zero(values@),
{
    let mut max: i64 = 0;
    let mut i: usize = 0;
    while i < values.len()
        invariant
            i <= values@.len(),
            max == max_or_zero(values@.take(i as int)),
        decreases values@.len() - i,
    {
        proof {
            assert(values@.take(i as int + 1).drop_last() =~= values@.take(i as int));
        }
        if values[i] > max {
            max = values[i];
        }
        i = i + 1;
    }
    proof {
        assert(values@.take(i as int) =~= values@);
    }
    max
}

/// What the database holds, as `info` reads it.
pub struct DatabaseState {
    pub applied_migrations: Vec<i64>,
    pub event_backed: bool,
    /// Whether the log holds events the cache has not consumed
    /// (`cache_behind_log`).
    pub cache_behind_log: bool,
}

/// Assemble the `info` report. Without a database (`database` is `None`)
/// nothing is applied, and the cache is behind the log exactly when there
/// are log files to rebuild it from.
pub fn info_report(
    cli_version: String,
    available_migrations: &Vec<i64>,
    event_files: usize,
    db_path: String,
    database: Option<DatabaseState>,
) -> (report: InfoReport)
    ensures
        report.cli_version == cli_version,
        report.supported_schema_version == SUPPORTED_SCHEMA_VERSION,
        report.available_schema_version == max_or_zero(available_migrations@),
        report.event_format_version == crate::events::EVENT_SCHEMA_VERSION,
        report.initialized == database is Some,
        report.db_path == db_path,
        report.event_files == event_files,
        match database {
            None => {
                &&& report.applied_schema_version == 0
                &&& report.applied_migrations@.len() == 0
                &&& !report.event_backed
                &&& !report.schema_behind_cli
                &&& report.cache_behind_log == (event_files > 0)
            },
            Some(state) => {
                &&& report.applied_migrations@ == state.applied_migrations@
                &&& report.applied_schema_version == max_or_zero(state.applied_migrations@)
                &&& report.event_backed == state.event_backed
                &&& report.schema_behind_cli == (max_or_zero(state.applied_migrations@)
                    < max_or_zero(available_migrations@))
                &&& report.cache_behind_log == (state.event_backed && state.cache_behind_log)
            },
        },
{
    let available = max_version(available_migrations);
    match database {
        None => InfoReport {
            cli_version,
            supported_schema_version: SUPPORTED_SCHEMA_VERSION,
            available_schema_version: available,
            event_format_version: crate::events::EVENT_SCHEMA_VERSION,
            initialized: false,
            db_path,
            applied_schema_version: 0,
            applied_migrations: Vec::new(),
            event_backed: false,
            event_files,
            schema_behind_cli: false,
            cache_behind_log: event_files > 0,
        },
        Some(state) => {
            let applied = max_version(&state.applied_migrations);
            InfoReport {
                cli_version,
                supported_schema_version: SUPPORTED_SCHEMA_VERSION,
                available_schema_version: available,
                event_format_version: crate::events::EVENT_SCHEMA_VERSION,
                initialized: true,
                db_path,
                applied_schema_version: applied,
                applied_migrations: state.applied_migrations,
                event_backed: state.event_backed,
                event_files,
                schema_behind_cli: applied < available,
                cache_behind_log: state.event_backed && state.cache_behind_log,
            }
        },
    }
}

/// Where the last `c` in `s` is.
pub open spec fn last_index_of(s: Seq<char>, c: char) -> Option<int>
    decreases s.len(),
{
    if s.len() == 0 {
        None
    } else if s.last() == c {
        Some(s.len() - 1)
    } else {
        last_index_of(s.drop_last(), c)
    }
}

/// `Path::extension` of a file name: what follows its last `.`, unless it
/// has none or its only one starts the name.
pub open spec fn extension_seq(name: Seq<char>) -> Option<Seq<char>> {
    match last_index_of(name, '.') {
        Some(i) => if i == 0 {
            None
        } else {
            Some(name.skip(i + 1))
        },
        None => None,
    }
}

/// Whether a file name's extension is `extension`.
pub fn has_extension(name: &str, extension: &str) -> (matches: bool)
    ensures
        matches == (extension_seq(name@) == Some(extension@)),
{
    let chars = chars_of(name);
    let mut i: usize = chars.len();
    proof {
        assert(name@.take(chars@.len() as int) =~= name@);
    }
    while i > 0 && chars[i - 1] != '.'
        invariant
            i <= chars@.len(),
            chars@ == name@,
            last_index_of(name@, '.') == last_index_of(name@.take(i as int), '.'),
        decreases i,
    {
        proof {
            assert(name@.take(i as int).drop_last() =~= name@.take(i as int - 1));
        }
        i = i - 1;
    }
    proof {
        if i == 0 {
            assert(name@.take(0) =~= Seq::<char>::empty());
        }
    }
    if i <= 1 {
        return false;
    }
    let rest: Vec<char> = crate::text::copy_range(&chars, i, chars.len());
    proof {
        assert(rest@ =~= name@.skip(i as int));
    }
    crate::text::chars_eq(&rest, &chars_of(extension))
}

/// The version a migration file declares: the digits before its first
/// `-`, leading zeros dropped, for a `.sql` file.
pub open spec fn migration_version_seq(name: Seq<char>) -> Option<int> {
    if extension_seq(name) == Some("sql"@) {
        parse_i64_seq(trim_start_char_seq(first_piece_seq(name, '-'), '0'))
    } else {
        None
    }
}

pub fn migration_version(file_name: &str) -> (version: Option<i64>)
    ensures
        match version {
            Some(v) => migration_version_seq(file_name@) == Some(v as int),
            None => migration_version_seq(file_name@) is None,
        },
{
    if !has_extension(file_name, "sql") {
        return None;
    }
    let prefix = first_piece_chars(&chars_of(file_name), '-');
    parse_i64(&trim_start_char(&prefix, '0'))
}

/// `file` placed after every migration of `sorted` whose version is not
/// greater.
pub open spec fn insert_by_version(sorted: Seq<(i64, String)>, file: (i64, String)) -> Seq<(i64, String)>
    decreases sorted.len(),
{
    if sorted.len() == 0 {
        seq![file]
    } else if file.0 < sorted.last().0 {
        insert_by_version(sorted.drop_last(), file).push(sorted.last())
    } else {
        sorted.push(file)
    }
}

/// Migration files in version order (a stable sort).
pub open spec fn by_version(files: Seq<(i64, String)>) -> Seq<(i64, String)>
    decreases files.len(),
{
    if files.len() == 0 {
        Seq::empty()
    } else {
        insert_by_version(by_version(files.drop_last()), files.last())
    }
}

proof fn lemma_insert_by_version(sorted: Seq<(i64, String)>, file: (i64, String)) -> (p: int)
    ensures
        0 <= p <= sorted.len(),
        insert_by_version(sorted, file) == sorted.insert(p, file),
        forall|j: int| p <= j < sorted.len() ==> file.0 < #[trigger] sorted[j].0,
        p > 0 ==> sorted[p - 1].0 <= file.0,
    decreases sorted.len(),
{
    if sorted.len() == 0 {
        assert(sorted.insert(0, file) =~= seq![file]);
        0
    } else if file.0 < sorted.last().0 {
        let rest = sorted.drop_last();
        let p = lemma_insert_by_version(rest, file);
        assert(rest.insert(p, file).push(sorted.last()) =~= sorted.insert(p, file));
        assert forall|j: int| p <= j < sorted.len() implies file.0 < #[trigger] sorted[j].0 by {
            if j < sorted.len() - 1 {
                assert(sorted[j] == rest[j]);
            }
        }
        p
    } else {
        assert(sorted.push(file) =~= sorted.insert(sorted.len() as int, file));
        sorted.len() as int
    }
}

proof fn lemma_by_version_sorted(files: Seq<(i64, String)>)
    ensures
        forall|i: int, j: int|
            0 <= i < j < by_version(files).len() ==> by_version(files)[i].0 <= by_version(files)[j].0,
        by_version(files).len() == files.len(),
    decreases files.len(),
{
    if files.len() > 0 {
        let rest = by_version(files.drop_last());
        lemma_by_version_sorted(files.drop_last());
        let p = lemma_insert_by_version(rest, files.last());
        let r = rest.insert(p, files.last());
        assert forall|i: int, j: int| 0 <= i < j < r.len() implies r[i].0 <= r[j].0 by {
            if j < p {
                assert(r[i] == rest[i] && r[j] == rest[j]);
            } else if i > p {
                assert(r[i] == rest[i - 1] && r[j] == rest[j - 1]);
            } else if i < p && j > p {
                assert(r[i] == rest[i] && r[j] == rest[j - 1]);
            } else if i == p {
                assert(r[j] == rest[j - 1]);
            } else {
                assert(r[i] == rest[i]);
                assert(rest[p - 1].0 <= files.last().0);
            }
        }
    }
}

/// Sort migration files by version, keeping the listing order of equal
/// versions.
pub fn sort_migrations(files: Vec<(i64, String)>) -> (sorted: Vec<(i64, String)>)
    ensures
        sorted@ == by_version(files@),
        forall|i: int, j: int| 0 <= i < j < sorted@.len() ==> sorted@[i].0 <= sorted@[j].0,
        sorted@.len() == files@.len(),
{
    broadcast use vstd::std_specs::vec::axiom_spec_into_iter;

    let ghost all = files@;
    let mut out: Vec<(i64, String)> = Vec::new();
    assert(all.take(0) =~= Seq::<(i64, String)>::empty());
    for file in it: files.into_iter()
        invariant
            it.seq() == all,
            out@ == by_version(all.take(it.index() as int)),
    {
        let ghost before = out@;
        let mut p: usize = out.len();
        while p > 0 && file.0 < out[p - 1].0
            invariant
                p <= out@.len(),
                out@ == before,
                forall|j: int| p <= j < out@.len() ==> file.0 < #[trigger] out@[j].0,
            decreases p,
        {
            p = p - 1;
        }
        proof {
            let q = lemma_insert_by_version(before, file);
            if q < p {
                assert(file.0 < before[p as int - 1].0);
            } else if p < q {
                assert(file.0 < before[q - 1].0);
            }
            let taken = all.take(it.index() as int + 1);
            assert(taken.drop_last() =~= all.take(it.index() as int));
            assert(taken.last() == file);
        }
        out.insert(p, file);
    }
    proof {
        assert(all.take(all.len() as int) =~= all);
        lemma_by_version_sorted(all);
    }
    out
}

/// Which migrations `migrate` applies, in order, from the database's
/// `current` version: the newer ones, up to the first version this library
/// does not support — that one stops it with an error.
pub open spec fn first_unsupported(versions: Seq<i64>) -> int
    decreases versions.len(),
{
    if versions.len() == 0 {
        0
    } else if versions[0] > SUPPORTED_SCHEMA_VERSION {
        0
    } else {
        1 + first_unsupported(versions.drop_first())
    }
}

pub open spec fn newer_than(versions: Seq<i64>, current: i64) -> Seq<i64> {
    versions.filter(|v: i64| v > current)
}

pub fn plan_migrations(versions: &Vec<i64>, current: i64) -> (plan: (Vec<i64>, Option<HarnessInfraError>))
    ensures
        0 <= first_unsupported(versions@) <= versions@.len(),
        plan.0@ == newer_than(versions@.take(first_unsupported(versions@)), current),
        first_unsupported(versions@) == versions@.len() ==> plan.1 is None,
        first_unsupported(versions@) < versions@.len() ==> plan.1 == Some(
            HarnessInfraError::UnsupportedSchemaVersion(
                versions@[first_unsupported(versions@)],
                SUPPORTED_SCHEMA_VERSION,
            ),
        ),
{
    let mut apply: Vec<i64> = Vec::new();
    let mut i: usize = 0;
    while i < versions.len()
        invariant
            i <= versions@.len(),
            forall|k: int| 0 <= k < i ==> versions@[k] <= SUPPORTED_SCHEMA_VERSION,
            apply@ == newer_than(versions@.take(i as int), current),
        decreases versions@.len() - i,
    {
        let version = versions[i];
        proof {
            assert(versions@.take(i as int + 1).drop_last() =~= versions@.take(i as int));
            lemma_first_unsupported_at(versions@, i as int);
        }
        if version > SUPPORTED_SCHEMA_VERSION {
            return (apply, Some(HarnessInfraError::UnsupportedSchemaVersion(version, SUPPORTED_SCHEMA_VERSION)));
        }
        if version > current {
            apply.push(version);
        }
        proof {
            assert(newer_than(versions@.take(i as int + 1), current) =~= if version > current {
                newer_than(versions@.take(i as int), current).push(version)
            } else {
                newer_than(versions@.take(i as int), current)
            }) by {
                versions@.take(i as int).lemma_filter_push(version, |v: i64| v > current);
                assert(versions@.take(i as int).push(version) =~= versions@.take(i as int + 1));
            }
        }
        i = i + 1;
    }
    proof {
        lemma_first_unsupported_at(versions@, i as int);
        assert(versions@.take(i as int) =~= versions@);
    }
    (apply, None)
}

/// `first_unsupported` is the first index whose version is unsupported.
proof fn lemma_first_unsupported_at(versions: Seq<i64>, i: int)
    requires
        0 <= i <= versions.len(),
        forall|k: int| 0 <= k < i ==> versions[k] <= SUPPORTED_SCHEMA_VERSION,
    ensures
        i <= first_unsupported(versions) <= versions.len(),
        i < versions.len() && versions[i] > SUPPORTED_SCHEMA_VERSION ==> first_unsupported(versions) == i,
        i == versions.len() ==> first_unsupported(versions) == versions.len(),
    decreases i,
{
    if i > 0 {
        lemma_first_unsupported_at(versions.drop_first(), i - 1);
    } else {
        lemma_first_unsupported_bound(versions);
    }
}

proof fn lemma_first_unsupported_bound(versions: Seq<i64>)
    ensures
        0 <= first_unsupported(versions) <= versions.len(),
        first_unsupported(versions) < versions.len() ==> versions[first_unsupported(versions)] > SUPPORTED_SCHEMA_VERSION,
    decreases versions.len(),
{
    if versions.len() > 0 {
        lemma_first_unsupported_bound(versions.drop_first());
    }
}

/// Resolve a row id given exactly or as an unambiguous prefix: `exact` is
/// the row whose id equals `given`, `prefix_matches` the ids starting with
/// it (in id order, at most a few).
pub fn resolve_row_id(table: &str, given: &str, exact: Option<String>, prefix_matches: Vec<String>) -> (id:
    Result<String, HarnessInfraError>)
    ensures
        match exact {
            Some(found) => id == Ok::<String, HarnessInfraError>(found),
            None => if prefix_matches@.len() == 0 {
                match id {
                    Err(HarnessInfraError::RowIdNotFound(t, g)) => t@ == table@ && g@ == given@,
                    _ => false,
                }
            } else if prefix_matches@.len() == 1 {
                id == Ok::<String, HarnessInfraError>(prefix_matches@[0])
            } else {
                match id {
                    Err(HarnessInfraError::AmbiguousRowId(t, g, listed)) => {
                        &&& t@ == table@
                        &&& g@ == given@
                        &&& listed@ == join_seq(strings_view(prefix_matches@), ", "@)
                    },
                    _ => false,
                }
            },
        },
{
    match exact {
        Some(found) => Ok(found),
        None => {
            if prefix_matches.len() == 0 {
                Err(HarnessInfraError::RowIdNotFound(table.to_owned(), given.to_owned()))
            } else if prefix_matches.len() == 1 {
                let mut matches = prefix_matches;
                Ok(matches.remove(0))
            } else {
                Err(
                    HarnessInfraError::AmbiguousRowId(
                        table.to_owned(),
                        given.to_owned(),
                        join_strings(&prefix_matches, ", "),
                    ),
                )
            }
        },
    }
}

} // verus!
