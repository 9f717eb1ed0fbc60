use vstd::prelude::*;

use crate::order::{
    key_less, key_lt, lemma_key_lt_asymmetric, lemma_key_lt_irreflexive, lemma_key_lt_total,
    lemma_key_lt_transitive,
};
use crate::cache::{cache_write_spec, CacheWriteView, SqlView};
use crate::log::{law_replay_order_independent_of_listing, replay_order};
use crate::replay::{object_get, p_i64, JsonScalar, LogEvent};

verus! {

/// The event that last set a story field (a `field_last_update` row).
pub struct FieldStamp {
    pub event_id: String,
    pub writer: String,
    pub writer_seq: i64,
}

/// A concurrent pair of updates to one field (an `lww_audit` row): the one
/// later in replay order wins.
pub struct LwwAudit {
    pub loser_event_id: String,
    pub loser_writer: String,
    pub winner_event_id: String,
    pub winner_writer: String,
}

/// What replaying one field of a `story.update` does: whether the field
/// takes the incoming value (and the incoming stamp), and the audit row to
/// record when the two updates were concurrent.
pub struct LwwDecision {
    pub apply: bool,
    pub audit: Option<LwwAudit>,
}

/// The count `observed` records for `writer`; 0 when absent or not an
/// integer.
pub open spec fn observed_count(observed: Seq<(String, JsonScalar)>, writer: Seq<char>) -> int {
    match object_get(observed, writer) {
        Some(JsonScalar::Int(n)) => n as int,
        _ => 0,
    }
}

/// An incoming update takes the field unless the field's last update is at
/// or after it in `(event_id, writer)` order.
pub open spec fn lww_applies(last: Option<(Seq<char>, Seq<char>)>, id: Seq<char>, writer: Seq<char>) -> bool {
    match last {
        None => true,
        Some(l) => key_lt(l.0, l.1, id, writer),
    }
}

/// An incoming update is concurrent with the field's last update when it
/// comes from another writer that had not yet consumed the last update's
/// position in that writer's file.
pub open spec fn lww_concurrent(
    last_writer: Seq<char>,
    last_seq: int,
    writer: Seq<char>,
    observed: Seq<(String, JsonScalar)>,
) -> bool {
    last_writer != writer && observed_count(observed, last_writer) < last_seq
}

/// `(loser id, loser writer, winner id, winner writer)` for two updates:
/// the one later in replay order wins.
pub open spec fn audit_pair(a_id: Seq<char>, a_w: Seq<char>, b_id: Seq<char>, b_w: Seq<char>) -> (
    Seq<char>,
    Seq<char>,
    Seq<char>,
    Seq<char>,
) {
    if key_lt(a_id, a_w, b_id, b_w) {
        (a_id, a_w, b_id, b_w)
    } else {
        (b_id, b_w, a_id, a_w)
    }
}

pub open spec fn stamp_key(stamp: Option<FieldStamp>) -> Option<(Seq<char>, Seq<char>)> {
    match stamp {
        Some(s) => Some((s.event_id@, s.writer@)),
        None => None,
    }
}

pub open spec fn audit_view(audit: LwwAudit) -> (Seq<char>, Seq<char>, Seq<char>, Seq<char>) {
    (audit.loser_event_id@, audit.loser_writer@, audit.winner_event_id@, audit.winner_writer@)
}

/// Per-field last-writer-wins with the causal audit: decide what one field
/// of `event` (a `story.update`) does, given the field's last update.
pub fn lww_decide(last: &Option<FieldStamp>, event: &LogEvent) -> (decision: LwwDecision)
    ensures
        decision.apply == lww_applies(stamp_key(*last), event.event_id@, event.writer@),
        match *last {
            None => decision.audit is None,
            Some(l) => if lww_concurrent(l.writer@, l.writer_seq as int, event.writer@, event.observed@) {
                decision.audit is Some && audit_view(decision.audit->0) == audit_pair(
                    l.event_id@,
                    l.writer@,
                    event.event_id@,
                    event.writer@,
                )
            } else {
                decision.audit is None
            },
        },
{
    match last {
        None => LwwDecision { apply: true, audit: None },
        Some(l) => {
            let later = key_less(
                l.event_id.as_str(),
                l.writer.as_str(),
                event.event_id.as_str(),
                event.writer.as_str(),
            );
            let mut audit: Option<LwwAudit> = None;
            if l.writer != event.writer {
                let seen: i64 = match p_i64(&event.observed, l.writer.as_str()) {
                    Some(n) => n,
                    None => 0,
                };
                if seen < l.writer_seq {
                    if later {
                        audit = Some(
                            LwwAudit {
                                loser_event_id: l.event_id.clone(),
                                loser_writer: l.writer.clone(),
                                winner_event_id: event.event_id.clone(),
                                winner_writer: event.writer.clone(),
                            },
                        );
                    } else {
                        audit = Some(
                            LwwAudit {
                                loser_event_id: event.event_id.clone(),
                                loser_writer: event.writer.clone(),
                                winner_event_id: l.event_id.clone(),
                                winner_writer: l.writer.clone(),
                            },
                        );
                    }
                }
            }
            LwwDecision { apply: later, audit }
        },
    }
}

/// One update to a field: the event id and writer that order it, and the
/// value it carries.
pub open spec fn lww_step<V>(state: Option<(Seq<char>, Seq<char>, V)>, update: (Seq<char>, Seq<char>, V)) -> Option<
    (Seq<char>, Seq<char>, V),
> {
    let last = match state {
        Some(s) => Some((s.0, s.1)),
        None => None,
    };
    if lww_applies(last, update.0, update.1) {
        Some(update)
    } else {
        state
    }
}

/// The field after replaying `updates`, in order, from `state`.
pub open spec fn lww_replay<V>(state: Option<(Seq<char>, Seq<char>, V)>, updates: Seq<(Seq<char>, Seq<char>, V)>) -> Option<
    (Seq<char>, Seq<char>, V),
>
    decreases updates.len(),
{
    if updates.len() == 0 {
        state
    } else {
        lww_replay(lww_step(state, updates[0]), updates.drop_first())
    }
}

pub open spec fn update_before<V>(a: (Seq<char>, Seq<char>, V), b: (Seq<char>, Seq<char>, V)) -> bool {
    key_lt(a.0, a.1, b.0, b.1)
}

/// Replay ends on an update that nothing replayed is after.
proof fn lemma_lww_replay_maximal<V>(state: Option<(Seq<char>, Seq<char>, V)>, updates: Seq<(Seq<char>, Seq<char>, V)>)
    ensures
        lww_replay(state, updates) is None <==> (state is None && updates.len() == 0),
        lww_replay(state, updates) is Some ==> (lww_replay(state, updates) == state
            || updates.contains(lww_replay(state, updates)->0)),
        lww_replay(state, updates) is Some ==> forall|i: int|
            0 <= i < updates.len() ==> !update_before(
                lww_replay(state, updates)->0,
                #[trigger] updates[i],
            ),
        (lww_replay(state, updates) is Some && state is Some) ==> !update_before(
            lww_replay(state, updates)->0,
            state->0,
        ),
    decreases updates.len(),
{
    if updates.len() > 0 {
        let u0 = updates[0];
        let rest = updates.drop_first();
        let next = lww_step(state, u0);
        lemma_lww_replay_maximal(next, rest);
        let r = lww_replay(state, updates);
        assert(r == lww_replay(next, rest));
        let m = r->0;
        assert(next is Some);
        if r != next {
            assert(rest.contains(m));
            let k = choose|k: int| 0 <= k < rest.len() && rest[k] == m;
            assert(updates[k + 1] == m);
        } else if next == Some(u0) {
            assert(updates[0] == m);
        }
        lemma_key_lt_irreflexive(m.0, m.1);
        // Nothing in `rest` is after `m`, nor is `next`.
        let n = next->0;
        assert(!key_lt(m.0, m.1, n.0, n.1));
        // Hence neither is the first update.
        if key_lt(m.0, m.1, u0.0, u0.1) {
            let s = state->0;
            assert(state is Some && next == state);
            assert(!key_lt(s.0, s.1, u0.0, u0.1));
            lemma_key_lt_total(m.0, m.1, s.0, s.1);
            if key_lt(s.0, s.1, m.0, m.1) {
                lemma_key_lt_transitive(s.0, s.1, m.0, m.1, u0.0, u0.1);
            }
        }
        assert forall|i: int| 0 <= i < updates.len() implies !update_before(
            m,
            #[trigger] updates[i],
        ) by {
            if i > 0 {
                assert(updates[i] == rest[i - 1]);
            }
        }
        if state is Some {
            let s = state->0;
            if next == state {
                assert(n == s);
            } else {
                assert(key_lt(s.0, s.1, u0.0, u0.1));
                if key_lt(m.0, m.1, s.0, s.1) {
                    lemma_key_lt_transitive(m.0, m.1, s.0, s.1, u0.0, u0.1);
                }
            }
            assert(!update_before(m, s));
        }
    } else if state is Some {
        let s = state->0;
        lemma_key_lt_irreflexive(s.0, s.1);
    }
}

/// Per-field last-writer-wins converges regardless of arrival order:
/// replaying the same updates in any order leaves the field holding the
/// same update (the latest in `(event_id, writer)` order), so incremental
/// replay agrees with a full rebuild.
pub proof fn law_lww_replay_order_independent<V>(
    a: Seq<(Seq<char>, Seq<char>, V)>,
    b: Seq<(Seq<char>, Seq<char>, V)>,
)
    requires
        a.to_multiset() == b.to_multiset(),
        forall|i: int, j: int|
            0 <= i < a.len() && 0 <= j < a.len() && a[i].0 == a[j].0 && a[i].1 == a[j].1 ==> a[i]
                == a[j],
    ensures
        lww_replay(None, a) == lww_replay(None, b),
{
    broadcast use vstd::seq_lib::group_to_multiset_ensures;

    lemma_lww_replay_maximal(None, a);
    lemma_lww_replay_maximal(None, b);
    vstd::seq_lib::to_multiset_len(a);
    vstd::seq_lib::to_multiset_len(b);
    assert(a.len() == b.len());
    if a.len() > 0 {
        let ma = lww_replay(None, a)->0;
        let mb = lww_replay(None, b)->0;
        assert(a.contains(ma));
        assert(b.contains(mb));
        assert(b.contains(ma)) by {
            assert(a.to_multiset().count(ma) > 0);
        }
        assert(a.contains(mb)) by {
            assert(b.to_multiset().count(mb) > 0);
        }
        let ia = choose|i: int| 0 <= i < a.len() && a[i] == ma;
        let ib = choose|i: int| 0 <= i < a.len() && a[i] == mb;
        let jb = choose|i: int| 0 <= i < b.len() && b[i] == ma;
        assert(!update_before(ma, a[ib]));
        assert(!update_before(mb, b[jb]));
        lemma_key_lt_total(ma.0, ma.1, mb.0, mb.1);
        assert(a[ia] == a[ib]);
    }
}

/// The causal audit keys a concurrent pair by replay order, not by
/// arrival: whichever of two distinct updates arrives second, the recorded
/// loser and winner are the same.
pub proof fn law_lww_audit_independent_of_arrival(
    a_id: Seq<char>,
    a_writer: Seq<char>,
    b_id: Seq<char>,
    b_writer: Seq<char>,
)
    requires
        !(a_id == b_id && a_writer == b_writer),
    ensures
        audit_pair(a_id, a_writer, b_id, b_writer) == audit_pair(b_id, b_writer, a_id, a_writer),
{
    lemma_key_lt_total(a_id, a_writer, b_id, b_writer);
    if key_lt(a_id, a_writer, b_id, b_writer) {
        lemma_key_lt_asymmetric(a_id, a_writer, b_id, b_writer);
    }
}

/// The value `fields` gives `field` (its first entry for that name).
pub open spec fn plan_field_value(fields: Seq<(Seq<char>, SqlView)>, field: Seq<char>) -> Option<SqlView>
    decreases fields.len(),
{
    if fields.len() == 0 {
        None
    } else if fields[0].0 == field {
        Some(fields[0].1)
    } else {
        plan_field_value(fields.drop_first(), field)
    }
}

/// The update that replaying `event` offers to `field` of `story`: its
/// `(event_id, writer)` key and the value, when its cache write is a
/// `story.update` of that story that sets the field.
#[verifier::opaque]
pub open spec fn story_field_update(event: LogEvent, story: Seq<char>, field: Seq<char>) -> Option<
    (Seq<char>, Seq<char>, SqlView),
> {
    match cache_write_spec(event.op@, event.payload@, event.recorded_at@) {
        Some(CacheWriteView::StoryFields(id, fields)) => if id == story {
            match plan_field_value(fields, field) {
                Some(v) => Some((event.event_id@, event.writer@, v)),
                None => None,
            }
        } else {
            None
        },
        _ => None,
    }
}

/// The updates that `events`, replayed in this order, offer to `field` of
/// `story`.
pub open spec fn field_updates(events: Seq<LogEvent>, story: Seq<char>, field: Seq<char>) -> Seq<
    (Seq<char>, Seq<char>, SqlView),
>
    decreases events.len(),
{
    if events.len() == 0 {
        Seq::empty()
    } else {
        let rest = field_updates(events.drop_first(), story, field);
        match story_field_update(events[0], story, field) {
            Some(u) => seq![u] + rest,
            None => rest,
        }
    }
}

/// The stamp and value that `field` of `story` holds after `events` are
/// applied one by one in this order (`None`: no event set it, so the row
/// keeps what `story.add` wrote).
pub open spec fn story_field_after(events: Seq<LogEvent>, story: Seq<char>, field: Seq<char>) -> Option<
    (Seq<char>, Seq<char>, SqlView),
> {
    lww_replay(None, field_updates(events, story, field))
}

proof fn lemma_field_updates_members(events: Seq<LogEvent>, story: Seq<char>, field: Seq<char>)
    ensures
        forall|k: int|
            0 <= k < field_updates(events, story, field).len() ==> exists|i: int|
                0 <= i < events.len() && story_field_update(events[i], story, field) == Some(
                    #[trigger] field_updates(events, story, field)[k],
                ),
        forall|i: int|
            0 <= i < events.len() && (#[trigger] story_field_update(events[i], story, field)) is Some
                ==> field_updates(events, story, field).contains(
                story_field_update(events[i], story, field)->0,
            ),
    decreases events.len(),
{
    if events.len() > 0 {
        let rest = events.drop_first();
        lemma_field_updates_members(rest, story, field);
        let fr = field_updates(rest, story, field);
        let fu = field_updates(events, story, field);
        match story_field_update(events[0], story, field) {
            Some(u) => {
                assert(fu == seq![u] + fr);
                assert forall|k: int| 0 <= k < fu.len() implies exists|i: int|
                    0 <= i < events.len() && story_field_update(events[i], story, field) == Some(
                        #[trigger] fu[k],
                    ) by {
                    if k == 0 {
                        assert(story_field_update(events[0], story, field) == Some(fu[0]));
                    } else {
                        assert(fu[k] == fr[k - 1]);
                        let i = choose|i: int|
                            0 <= i < rest.len() && story_field_update(rest[i], story, field) == Some(
                                fr[k - 1],
                            );
                        assert(events[i + 1] == rest[i]);
                    }
                }
                assert forall|i: int|
                    0 <= i < events.len() && (#[trigger] story_field_update(
                        events[i],
                        story,
                        field,
                    )) is Some implies fu.contains(
                    story_field_update(events[i], story, field)->0,
                ) by {
                    if i == 0 {
                        assert(fu[0] == u);
                    } else {
                        assert(events[i] == rest[i - 1]);
                        let x = story_field_update(rest[i - 1], story, field)->0;
                        assert(fr.contains(x));
                        let k = choose|k: int| 0 <= k < fr.len() && fr[k] == x;
                        assert(fu[k + 1] == x);
                    }
                }
            },
            None => {
                assert(fu == fr);
                assert forall|k: int| 0 <= k < fu.len() implies exists|i: int|
                    0 <= i < events.len() && story_field_update(events[i], story, field) == Some(
                        #[trigger] fu[k],
                    ) by {
                    let i = choose|i: int|
                        0 <= i < rest.len() && story_field_update(rest[i], story, field) == Some(
                            fr[k],
                        );
                    assert(events[i + 1] == rest[i]);
                }
                assert forall|i: int|
                    0 <= i < events.len() && (#[trigger] story_field_update(
                        events[i],
                        story,
                        field,
                    )) is Some implies fu.contains(
                    story_field_update(events[i], story, field)->0,
                ) by {
                    if i > 0 {
                        assert(events[i] == rest[i - 1]);
                    }
                }
            },
        }
    }
}

proof fn lemma_story_field_update_key(event: LogEvent, story: Seq<char>, field: Seq<char>)
    ensures
        story_field_update(event, story, field) matches Some(u) ==> u.0 == event.event_id@ && u.1
            == event.writer@,
{
    reveal(story_field_update);
}

/// Every update offered by `b` is offered by `a` when every event of `b`
/// is in `a`.
proof fn lemma_field_updates_subset(a: Seq<LogEvent>, b: Seq<LogEvent>, story: Seq<char>, field: Seq<char>)
    requires
        forall|j: int| 0 <= j < b.len() ==> a.contains(#[trigger] b[j]),
    ensures
        forall|u: (Seq<char>, Seq<char>, SqlView)|
            #[trigger] field_updates(b, story, field).contains(u) ==> field_updates(
                a,
                story,
                field,
            ).contains(u),
{
    lemma_field_updates_members(a, story, field);
    lemma_field_updates_members(b, story, field);
    let ub = field_updates(b, story, field);
    assert forall|u: (Seq<char>, Seq<char>, SqlView)| #[trigger] ub.contains(u) implies field_updates(
        a,
        story,
        field,
    ).contains(u) by {
        let k = choose|k: int| 0 <= k < ub.len() && ub[k] == u;
        let j = choose|j: int|
            0 <= j < b.len() && story_field_update(b[j], story, field) == Some(ub[k]);
        assert(a.contains(b[j]));
        let i = choose|i: int| 0 <= i < a.len() && a[i] == b[j];
        assert(story_field_update(a[i], story, field) is Some);
    }
}

/// Two updates offered by events with distinct keys are equal when their
/// keys are.
proof fn lemma_field_updates_keyed(
    a: Seq<LogEvent>,
    story: Seq<char>,
    field: Seq<char>,
    u: (Seq<char>, Seq<char>, SqlView),
    v: (Seq<char>, Seq<char>, SqlView),
)
    requires
        forall|i: int, j: int|
            0 <= i < a.len() && 0 <= j < a.len() && a[i].event_id@ == a[j].event_id@
                && a[i].writer@ == a[j].writer@ ==> i == j,
        field_updates(a, story, field).contains(u),
        field_updates(a, story, field).contains(v),
        u.0 == v.0,
        u.1 == v.1,
    ensures
        u == v,
{
    lemma_field_updates_members(a, story, field);
    let ua = field_updates(a, story, field);
    let ku = choose|k: int| 0 <= k < ua.len() && ua[k] == u;
    let kv = choose|k: int| 0 <= k < ua.len() && ua[k] == v;
    let iu = choose|i: int| 0 <= i < a.len() && story_field_update(a[i], story, field) == Some(ua[ku]);
    let iv = choose|i: int| 0 <= i < a.len() && story_field_update(a[i], story, field) == Some(ua[kv]);
    lemma_story_field_update_key(a[iu], story, field);
    lemma_story_field_update_key(a[iv], story, field);
    assert(iu == iv);
}

/// Applying the `story.update` events of a log one by one converges,
/// whatever order they arrive in: for each of the story fields, the value
/// (and stamp) left after applying the cache writes of `a` in order equals
/// the one left after `b`, a reordering of the same events with distinct
/// `(event_id, writer)` keys. The field is untouched exactly when no event
/// sets it, and otherwise holds the value of the latest such event in
/// `(event_id, writer)` order, so incremental replay agrees with a rebuild.
pub proof fn law_story_updates_converge(
    a: Seq<LogEvent>,
    b: Seq<LogEvent>,
    story: Seq<char>,
    field: Seq<char>,
)
    requires
        a.to_multiset() == b.to_multiset(),
        forall|i: int, j: int|
            0 <= i < a.len() && 0 <= j < a.len() && a[i].event_id@ == a[j].event_id@
                && a[i].writer@ == a[j].writer@ ==> i == j,
    ensures
        story_field_after(a, story, field) == story_field_after(b, story, field),
        story_field_after(a, story, field) is None <==> forall|i: int|
            0 <= i < a.len() ==> (#[trigger] story_field_update(a[i], story, field)) is None,
        story_field_after(a, story, field) matches Some(u) ==> exists|i: int|
            0 <= i < a.len() && story_field_update(a[i], story, field) == Some(u) && forall|j: int|
                0 <= j < a.len() && (#[trigger] story_field_update(a[j], story, field)) is Some
                    ==> !update_before(u, story_field_update(a[j], story, field)->0),
{
    let ua = field_updates(a, story, field);
    let ub = field_updates(b, story, field);
    assert forall|j: int| 0 <= j < b.len() implies a.contains(#[trigger] b[j]) by {
        broadcast use vstd::seq_lib::group_to_multiset_ensures;

        assert(b.to_multiset().count(b[j]) > 0);
    }
    assert forall|i: int| 0 <= i < a.len() implies b.contains(#[trigger] a[i]) by {
        broadcast use vstd::seq_lib::group_to_multiset_ensures;

        assert(a.to_multiset().count(a[i]) > 0);
    }
    lemma_field_updates_subset(a, b, story, field);
    lemma_field_updates_subset(b, a, story, field);
    lemma_field_updates_members(a, story, field);
    lemma_lww_replay_maximal(None, ua);
    lemma_lww_replay_maximal(None, ub);
    if ua.len() == 0 {
        if ub.len() > 0 {
            assert(ub.contains(ub[0]));
            assert(ua.contains(ub[0]));
        }
        assert forall|i: int| 0 <= i < a.len() implies (#[trigger] story_field_update(
            a[i],
            story,
            field,
        )) is None by {
            if story_field_update(a[i], story, field) is Some {
                assert(ua.contains(story_field_update(a[i], story, field)->0));
            }
        }
    } else {
        let ma = lww_replay(None, ua)->0;
        assert(ua.contains(ma));
        assert(ub.contains(ma));
        let mb = lww_replay(None, ub)->0;
        assert(ub.contains(mb));
        assert(ua.contains(mb));
        let kab = choose|k: int| 0 <= k < ua.len() && ua[k] == mb;
        let kba = choose|k: int| 0 <= k < ub.len() && ub[k] == ma;
        assert(!update_before(ma, ua[kab]));
        assert(!update_before(mb, ub[kba]));
        lemma_key_lt_total(ma.0, ma.1, mb.0, mb.1);
        lemma_field_updates_keyed(a, story, field, ma, mb);
        let ka = choose|k: int| 0 <= k < ua.len() && ua[k] == ma;
        let ia = choose|i: int|
            0 <= i < a.len() && story_field_update(a[i], story, field) == Some(ua[ka]);
        assert forall|j: int|
            0 <= j < a.len() && (#[trigger] story_field_update(a[j], story, field)) is Some
                implies !update_before(ma, story_field_update(a[j], story, field)->0) by {
            let x = story_field_update(a[j], story, field)->0;
            assert(ua.contains(x));
            let k = choose|k: int| 0 <= k < ua.len() && ua[k] == x;
            assert(!update_before(ma, ua[k]));
        }
        assert(story_field_update(a[ia], story, field) == Some(ma));
    }
}

/// How replaying `event` changes the cache (`None`: an op this format does
/// not know, which refuses the replay).
pub open spec fn event_write(event: LogEvent) -> Option<CacheWriteView> {
    cache_write_spec(event.op@, event.payload@, event.recorded_at@)
}

/// The cache writes a rebuild applies, in the order it applies them.
pub open spec fn rebuild_writes(events: Seq<LogEvent>) -> Seq<Option<CacheWriteView>> {
    replay_order(events).map_values(|e: LogEvent| event_write(e))
}

/// Rebuilding is deterministic: two rebuilds of the same log, however its
/// files were listed and read, apply the same cache writes in the same
/// order (events that share an `(event_id, writer)` being the same event).
pub proof fn law_rebuild_deterministic(a: Seq<LogEvent>, b: Seq<LogEvent>)
    requires
        a.to_multiset() == b.to_multiset(),
        forall|i: int, j: int|
            0 <= i < a.len() && 0 <= j < a.len() && a[i].event_id@ == a[j].event_id@ && a[i].writer@
                == a[j].writer@ ==> a[i] == a[j],
    ensures
        rebuild_writes(a) == rebuild_writes(b),
{
    law_replay_order_independent_of_listing(a, b);
}

/// Catching up makes the same cache writes as a rebuild: whatever order
/// the events of a log arrive in, each write a rebuild makes (every row an
/// event inserts, every update and delete) is made, and no other. With
/// `law_story_updates_converge`, the story fields end equal too; other
/// updates and deletes take effect in arrival order.
pub proof fn law_catch_up_makes_rebuild_writes(a: Seq<LogEvent>, b: Seq<LogEvent>, w: CacheWriteView)
    requires
        a.to_multiset() == b.to_multiset(),
    ensures
        (exists|i: int| 0 <= i < a.len() && #[trigger] event_write(a[i]) == Some(w)) <==> (exists|j: int|
            0 <= j < b.len() && #[trigger] event_write(b[j]) == Some(w)),
{
    broadcast use vstd::seq_lib::group_to_multiset_ensures;

    if exists|i: int| 0 <= i < a.len() && #[trigger] event_write(a[i]) == Some(w) {
        let i = choose|i: int| 0 <= i < a.len() && #[trigger] event_write(a[i]) == Some(w);
        assert(a.to_multiset().count(a[i]) > 0);
        assert(b.contains(a[i]));
        let j = choose|j: int| 0 <= j < b.len() && b[j] == a[i];
        assert(event_write(b[j]) == Some(w));
    }
    if exists|j: int| 0 <= j < b.len() && #[trigger] event_write(b[j]) == Some(w) {
        let j = choose|j: int| 0 <= j < b.len() && #[trigger] event_write(b[j]) == Some(w);
        assert(b.to_multiset().count(b[j]) > 0);
        assert(a.contains(b[j]));
        let i = choose|i: int| 0 <= i < a.len() && a[i] == b[j];
        assert(event_write(a[i]) == Some(w));
    }
}

} // verus!
