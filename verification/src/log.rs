use vstd::prelude::*;

use crate::order::{
    key_less, key_lt, lemma_key_lt_asymmetric, lemma_key_lt_total, lemma_key_lt_transitive,
};
use crate::error::HarnessInfraError;
use crate::events::{event_line_seq, EventLog};
use crate::replay::{
    json_object_seq, json_object_text, keys_in_order, object_from,
    object_insert_member, JsonScalar, LogEvent,
};
use crate::sync::Watermark;
use crate::text::{chars_of, copy_range, string_of, push_str};
use crate::views::concat;

verus! {

/// `a` replays before `b`: the `(event_id, writer)` total order.
pub open spec fn event_before(a: LogEvent, b: LogEvent) -> bool {
    key_lt(a.event_id@, a.writer@, b.event_id@, b.writer@)
}

/// `e` placed after every event of `sorted` that does not replay after it.
pub open spec fn insert_in_order(sorted: Seq<LogEvent>, e: LogEvent) -> Seq<LogEvent>
    decreases sorted.len(),
{
    if sorted.len() == 0 {
        seq![e]
    } else if event_before(e, sorted.last()) {
        insert_in_order(sorted.drop_last(), e).push(sorted.last())
    } else {
        sorted.push(e)
    }
}

/// The log in replay order: a stable sort by `(event_id, writer)`.
pub open spec fn replay_order(events: Seq<LogEvent>) -> Seq<LogEvent>
    decreases events.len(),
{
    if events.len() == 0 {
        Seq::empty()
    } else {
        insert_in_order(replay_order(events.drop_last()), events.last())
    }
}

/// No event replays before one that precedes it.
pub open spec fn in_replay_order(events: Seq<LogEvent>) -> bool {
    forall|i: int, j: int| 0 <= i < j < events.len() ==> !event_before(events[j], events[i])
}

proof fn lemma_insert_position(sorted: Seq<LogEvent>, e: LogEvent) -> (p: int)
    ensures
        0 <= p <= sorted.len(),
        insert_in_order(sorted, e) == sorted.insert(p, e),
        forall|j: int| p <= j < sorted.len() ==> event_before(e, #[trigger] sorted[j]),
        p > 0 ==> !event_before(e, sorted[p - 1]),
    decreases sorted.len(),
{
    if sorted.len() == 0 {
        assert(sorted.insert(0, e) =~= seq![e]);
        0
    } else if event_before(e, sorted.last()) {
        let rest = sorted.drop_last();
        let p = lemma_insert_position(rest, e);
        assert(rest.insert(p, e).push(sorted.last()) =~= sorted.insert(p, e));
        assert forall|j: int| p <= j < sorted.len() implies event_before(e, #[trigger] sorted[j]) by {
            if j < sorted.len() - 1 {
                assert(sorted[j] == rest[j]);
            }
        }
        p
    } else {
        assert(sorted.push(e) =~= sorted.insert(sorted.len() as int, e));
        sorted.len() as int
    }
}

proof fn lemma_insert_keeps_order(sorted: Seq<LogEvent>, e: LogEvent)
    requires
        in_replay_order(sorted),
    ensures
        in_replay_order(insert_in_order(sorted, e)),
        insert_in_order(sorted, e).to_multiset() == sorted.to_multiset().insert(e),
{
    broadcast use vstd::seq_lib::group_to_multiset_ensures;

    let p = lemma_insert_position(sorted, e);
    let r = sorted.insert(p, e);
    assert forall|i: int, j: int| 0 <= i < j < r.len() implies !event_before(r[j], r[i]) by {
        if j < p {
            assert(r[i] == sorted[i] && r[j] == sorted[j]);
        } else if i > p {
            assert(r[i] == sorted[i - 1] && r[j] == sorted[j - 1]);
        } else if i < p && j > p {
            assert(r[i] == sorted[i] && r[j] == sorted[j - 1]);
        } else if i == p {
            assert(r[i] == e && r[j] == sorted[j - 1]);
            assert(event_before(e, sorted[j - 1]));
            lemma_key_lt_asymmetric(e.event_id@, e.writer@, sorted[j - 1].event_id@, sorted[j - 1].writer@);
        } else {
            assert(j == p && i < p);
            assert(r[i] == sorted[i] && r[j] == e);
            let last = sorted[p - 1];
            let x = sorted[i];
            assert(!event_before(e, last));
            if i < p - 1 {
                assert(!event_before(last, x));
                if event_before(e, x) {
                    lemma_key_lt_total(x.event_id@, x.writer@, last.event_id@, last.writer@);
                    if event_before(x, last) {
                        lemma_key_lt_transitive(
                            e.event_id@,
                            e.writer@,
                            x.event_id@,
                            x.writer@,
                            last.event_id@,
                            last.writer@,
                        );
                    }
                }
            }
        }
    }
    assert(r.to_multiset() =~= sorted.to_multiset().insert(e));
}

/// The log in replay order holds every event exactly once, each no
/// earlier than the one before it in `(event_id, writer)` order.
pub proof fn law_replay_order_sorted_permutation(events: Seq<LogEvent>)
    ensures
        in_replay_order(replay_order(events)),
        replay_order(events).to_multiset() == events.to_multiset(),
    decreases events.len(),
{
    broadcast use vstd::seq_lib::group_to_multiset_ensures;

    if events.len() == 0 {
        assert(replay_order(events).to_multiset() =~= events.to_multiset());
    } else {
        let rest = events.drop_last();
        law_replay_order_sorted_permutation(rest);
        lemma_insert_keeps_order(replay_order(rest), events.last());
        assert(rest.push(events.last()) =~= events);
    }
}

/// Two logs in replay order with the same events are the same sequence,
/// when events with the same `(event_id, writer)` are identical.
proof fn lemma_ordered_logs_equal(x: Seq<LogEvent>, y: Seq<LogEvent>)
    requires
        in_replay_order(x),
        in_replay_order(y),
        x.to_multiset() == y.to_multiset(),
        forall|i: int, j: int|
            0 <= i < x.len() && 0 <= j < x.len() && x[i].event_id@ == x[j].event_id@ && x[i].writer@
                == x[j].writer@ ==> x[i] == x[j],
    ensures
        x == y,
    decreases x.len(),
{
    broadcast use vstd::seq_lib::group_to_multiset_ensures;

    vstd::seq_lib::to_multiset_len(x);
    vstd::seq_lib::to_multiset_len(y);
    assert(x.to_multiset().len() == y.to_multiset().len());
    if x.len() == 0 {
        assert(x =~= y);
    } else {
        let a = x[0];
        let b = y[0];
        assert(x.to_multiset().count(a) > 0);
        assert(y.contains(a));
        assert(y.to_multiset().count(b) > 0);
        assert(x.contains(b));
        let k = choose|k: int| 0 <= k < y.len() && y[k] == a;
        let j = choose|j: int| 0 <= j < x.len() && x[j] == b;
        // Neither replays before the other, so they share their key.
        if k > 0 {
            assert(!event_before(y[k], y[0]));
        }
        if j > 0 {
            assert(!event_before(x[j], x[0]));
        }
        lemma_key_lt_total(a.event_id@, a.writer@, b.event_id@, b.writer@);
        assert(x[0] == x[j]);
        assert(a == b);
        let xs = x.drop_first();
        let ys = y.drop_first();
        assert(x.remove(0) =~= xs);
        assert(y.remove(0) =~= ys);
        assert(xs.to_multiset() =~= ys.to_multiset());
        lemma_ordered_logs_equal(xs, ys);
        assert(x.len() == y.len());
        assert forall|i: int| 0 <= i < x.len() implies x[i] == y[i] by {
            if i > 0 {
                assert(x[i] == xs[i - 1]);
                assert(y[i] == ys[i - 1]);
            }
        }
        assert(x =~= y);
    }
}

/// Rebuilding is independent of the order the log files were listed and
/// read in: any arrangement of the same events sorts into the same replay
/// sequence, provided events that share an `(event_id, writer)` are the
/// same event.
pub proof fn law_replay_order_independent_of_listing(a: Seq<LogEvent>, b: Seq<LogEvent>)
    requires
        a.to_multiset() == b.to_multiset(),
        forall|i: int, j: int|
            0 <= i < a.len() && 0 <= j < a.len() && a[i].event_id@ == a[j].event_id@ && a[i].writer@
                == a[j].writer@ ==> a[i] == a[j],
    ensures
        replay_order(a) == replay_order(b),
{
    broadcast use vstd::seq_lib::group_to_multiset_ensures;

    law_replay_order_sorted_permutation(a);
    law_replay_order_sorted_permutation(b);
    let x = replay_order(a);
    assert forall|i: int, j: int|
        0 <= i < x.len() && 0 <= j < x.len() && x[i].event_id@ == x[j].event_id@ && x[i].writer@
            == x[j].writer@ implies x[i] == x[j] by {
        assert(x.to_multiset().count(x[i]) > 0);
        assert(x.to_multiset().count(x[j]) > 0);
        assert(a.contains(x[i]));
        assert(a.contains(x[j]));
        let p = choose|p: int| 0 <= p < a.len() && a[p] == x[i];
        let q = choose|q: int| 0 <= q < a.len() && a[q] == x[j];
    }
    lemma_ordered_logs_equal(x, replay_order(b));
}

/// Sort events into replay order (stable).
pub fn sort_events(events: Vec<LogEvent>) -> (sorted: Vec<LogEvent>)
    ensures
        sorted@ == replay_order(events@),
{
    broadcast use vstd::std_specs::vec::axiom_spec_into_iter;

    let ghost all = events@;
    let mut out: Vec<LogEvent> = Vec::new();
    assert(all.take(0) =~= Seq::<LogEvent>::empty());
    for e in it: events.into_iter()
        invariant
            it.seq() == all,
            out@ == replay_order(all.take(it.index() as int)),
    {
        let ghost before = out@;
        let mut p: usize = out.len();
        while p > 0 && key_less(
            e.event_id.as_str(),
            e.writer.as_str(),
            out[p - 1].event_id.as_str(),
            out[p - 1].writer.as_str(),
        )
            invariant
                p <= out@.len(),
                out@ == before,
                forall|j: int| p <= j < out@.len() ==> event_before(e, #[trigger] out@[j]),
            decreases p,
        {
            p = p - 1;
        }
        proof {
            let q = lemma_insert_position(before, e);
            // The scan stops where the insertion point is.
            if q < p {
                assert(event_before(e, before[p as int - 1]));
            } else if p < q {
                assert(event_before(e, before[q - 1]));
            }
            let taken = all.take(it.index() as int + 1);
            assert(taken.drop_last() =~= all.take(it.index() as int));
            assert(taken.last() == e);
        }
        out.insert(p, e);
    }
    proof {
        assert(all.take(all.len() as int) =~= all);
    }
    out
}

/// `s` with every trailing copy of `suffix` removed
/// (`str::trim_end_matches` with a string).
pub open spec fn trim_end_str_seq(s: Seq<char>, suffix: Seq<char>) -> Seq<char>
    decreases s.len(),
{
    if suffix.len() > 0 && s.len() >= suffix.len() && s.skip(s.len() - suffix.len()) == suffix {
        trim_end_str_seq(s.take(s.len() - suffix.len()), suffix)
    } else {
        s
    }
}

fn trim_end_str(s: &Vec<char>, suffix: &Vec<char>) -> (out: Vec<char>)
    ensures
        out@ == trim_end_str_seq(s@, suffix@),
{
    let mut end: usize = s.len();
    proof {
        assert(s@.take(s@.len() as int) =~= s@);
    }
    while suffix.len() > 0 && end >= suffix.len() && crate::text::chars_eq(
        &copy_range(s, end - suffix.len(), end),
        suffix,
    )
        invariant
            end <= s@.len(),
            trim_end_str_seq(s@, suffix@) == trim_end_str_seq(s@.take(end as int), suffix@),
        decreases end,
    {
        proof {
            let t = s@.take(end as int);
            assert(t.skip(t.len() - suffix@.len()) =~= s@.subrange(end - suffix@.len(), end as int));
            assert(t.take(t.len() - suffix@.len()) =~= s@.take(end - suffix@.len()));
        }
        end = end - suffix.len();
    }
    proof {
        let t = s@.take(end as int);
        if suffix@.len() > 0 && end >= suffix@.len() {
            assert(t.skip(t.len() - suffix@.len()) =~= s@.subrange(end - suffix@.len(), end as int));
        }
    }
    copy_range(s, 0, end)
}

pub open spec fn members_view(entries: Seq<(String, JsonScalar)>) -> Seq<(Seq<char>, JsonScalar)> {
    entries.map_values(|e: (String, JsonScalar)| (e.0@, e.1))
}

pub fn observed_object(rows: &Vec<(String, i64)>) -> (observed: Vec<(String, JsonScalar)>)
    ensures
        exists|entries: Seq<(String, JsonScalar)>|
            #![trigger object_from(entries)]
            observed@ == object_from(entries) && entries.len() == rows@.len() && forall|i: int|
                0 <= i < rows@.len() ==> (#[trigger] entries[i]).0@ == trim_end_str_seq(
                    rows@[i].0@,
                    ".jsonl"@,
                ) && entries[i].1 == JsonScalar::Int(rows@[i].1),
        keys_in_order(observed@),
{
    let suffix = chars_of(".jsonl");
    let mut object: Vec<(String, JsonScalar)> = Vec::new();
    let ghost mut entries: Seq<(String, JsonScalar)> = Seq::empty();
    let mut i: usize = 0;
    assert(object@ =~= object_from(entries));
    while i < rows.len()
        invariant
            i <= rows@.len(),
            suffix@ == ".jsonl"@,
            entries.len() == i,
            object@ == object_from(entries),
            keys_in_order(object@),
            forall|k: int|
                0 <= k < i ==> (#[trigger] entries[k]).0@ == trim_end_str_seq(rows@[k].0@, ".jsonl"@)
                    && entries[k].1 == JsonScalar::Int(rows@[k].1),
        decreases rows@.len() - i,
    {
        let writer = string_of(&trim_end_str(&chars_of(rows[i].0.as_str()), &suffix));
        let entry = (writer, JsonScalar::Int(rows[i].1));
        proof {
            assert(entries.push(entry).drop_last() =~= entries);
        }
        object_insert_member(&mut object, entry);
        proof {
            entries = entries.push(entry);
        }
        i = i + 1;
    }
    object
}

/// Whether the cache is event-backed (its `event_backed` flag reads
/// `true`); mutations of a cache that is not are refused.
pub fn require_event_backed(flag: Option<String>) -> (verdict: Result<(), HarnessInfraError>)
    ensures
        verdict is Ok <==> (flag is Some && flag->0@ == "true"@),
        verdict is Err ==> verdict == Err::<(), HarnessInfraError>(HarnessInfraError::NotEventBacked),
{
    match flag {
        Some(value) => {
            if value == "true".to_owned() {
                Ok(())
            } else {
                Err(HarnessInfraError::NotEventBacked)
            }
        },
        None => Err(HarnessInfraError::NotEventBacked),
    }
}

/// One line of a log file: the event's canonical line, then a newline.
pub open spec fn log_line_seq(event: LogEvent, observed: Option<Seq<char>>) -> Seq<char> {
    event_line_seq(
        event.event_id@,
        event.writer@,
        event.recorded_at@,
        event.op@,
        json_object_seq(event.payload@),
        observed,
    ) + "\n"@
}

/// The new event a writer appends: its id, time and op, the payload, the
/// causal-audit snapshot, and its position in the writer's file (one past
/// what the file's watermark counts); with its log line.
pub fn prepare_append(
    event_id: String,
    writer: String,
    recorded_at: String,
    op: String,
    payload: Vec<(String, JsonScalar)>,
    watermark_rows: &Vec<(String, i64)>,
    previous: &Option<Watermark>,
) -> (prepared: (LogEvent, String))
    requires
        keys_in_order(payload@),
        previous is Some ==> previous->0.consumed_count < i64::MAX,
    ensures
        prepared.0.event_id == event_id,
        prepared.0.writer == writer,
        prepared.0.recorded_at == recorded_at,
        prepared.0.op == op,
        prepared.0.payload == payload,
        prepared.0.writer_seq == match *previous {
            Some(w) => w.consumed_count + 1,
            None => 1,
        },
        keys_in_order(prepared.0.observed@),
        exists|entries: Seq<(String, JsonScalar)>|
            #![trigger object_from(entries)]
            prepared.0.observed@ == object_from(entries) && entries.len() == watermark_rows@.len()
                && forall|i: int|
                0 <= i < watermark_rows@.len() ==> (#[trigger] entries[i]).0@ == trim_end_str_seq(
                    watermark_rows@[i].0@,
                    ".jsonl"@,
                ) && entries[i].1 == JsonScalar::Int(watermark_rows@[i].1),
        prepared.1@ == event_line_seq(
            event_id@,
            writer@,
            recorded_at@,
            op@,
            json_object_seq(payload@),
            Some(json_object_seq(prepared.0.observed@)),
        ),
{
    let observed = observed_object(watermark_rows);
    let payload_text = json_object_text(&payload);
    let observed_text = json_object_text(&observed);
    let line = EventLog::event_line(
        event_id.as_str(),
        writer.as_str(),
        recorded_at.as_str(),
        op.as_str(),
        payload_text.as_str(),
        Some(observed_text.as_str()),
    );
    let writer_seq: i64 = match previous {
        Some(w) => w.consumed_count + 1,
        None => 1,
    };
    (LogEvent { event_id, writer, recorded_at, op, payload, observed, writer_seq }, line)
}

/// The log the move onto events writes: each genesis event's line (no
/// causal snapshot), newline-terminated, in the order given.
pub open spec fn genesis_log_seq(events: Seq<LogEvent>) -> Seq<char> {
    concat(events.map_values(|e: LogEvent| log_line_seq(e, None)))
}

pub fn genesis_log(events: &Vec<LogEvent>) -> (log: String)
    requires
        forall|i: int| 0 <= i < events@.len() ==> keys_in_order(#[trigger] events@[i].payload@),
    ensures
        log@ == genesis_log_seq(events@),
{
    let ghost lines = events@.map_values(|e: LogEvent| log_line_seq(e, None));
    let mut out: Vec<char> = Vec::new();
    let mut i: usize = 0;
    while i < events.len()
        invariant
            i <= events@.len(),
            lines == events@.map_values(|e: LogEvent| log_line_seq(e, None)),
            forall|k: int| 0 <= k < events@.len() ==> keys_in_order(#[trigger] events@[k].payload@),
            out@ == concat(lines.take(i as int)),
        decreases events@.len() - i,
    {
        let event = &events[i];
        let payload_text = json_object_text(&event.payload);
        let line = EventLog::event_line(
            event.event_id.as_str(),
            event.writer.as_str(),
            event.recorded_at.as_str(),
            event.op.as_str(),
            payload_text.as_str(),
            None,
        );
        let ghost mark = out@;
        push_str(&mut out, line.as_str());
        push_str(&mut out, "\n");
        proof {
            assert(out@ =~= mark + lines[i as int]);
            assert(lines.take(i as int + 1).drop_last() =~= lines.take(i as int));
        }
        i = i + 1;
    }
    proof {
        assert(lines.take(i as int) =~= lines);
    }
    string_of(&out)
}

} // verus!
