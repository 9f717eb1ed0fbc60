use vstd::prelude::*;
use vstd::string::StringSliceAdditionalSpecFns;
use vstd::utf8::{decode_utf8, encode_utf8, is_char_boundary};

use crate::markdown::{join_seq, normalize_token, normalize_token_seq};
use crate::order::text_lt;
use crate::replay::{keys_in_order, lemma_keys_in_order, JsonScalar};
use crate::text::{
    chars_of, decimal_seq, push_all, push_decimal, push_str, string_of, strings_view, words_chars,
    words_seq,
};

verus! {

/// The first eight words of `value`, joined by single spaces.
pub open spec fn title_words(value: Seq<char>) -> Seq<char> {
    let words = words_seq(value);
    join_seq(
        if words.len() > 8 {
            words.take(8)
        } else {
            words
        },
        " "@,
    )
}

/// A proposal title from free text: its first eight words, cut to 69 bytes
/// and marked with `...` when they run past 72.
pub open spec fn short_title_seq(value: Seq<char>) -> Seq<char> {
    let words = title_words(value);
    let bytes = encode_utf8(words);
    if bytes.len() > 72 {
        decode_utf8(bytes.take(69)) + "..."@
    } else {
        words
    }
}

/// The cut at byte 69 falls between characters (slicing a `str` there
/// panics otherwise).
pub open spec fn short_title_defined(value: Seq<char>) -> bool {
    let bytes = encode_utf8(title_words(value));
    bytes.len() > 72 ==> is_char_boundary(bytes, 69)
}

/// The first eight words of `value`, joined by single spaces.
fn title_words_text(value: &str) -> (text: String)
    ensures
        text@ == title_words(value@),
{
    let words = words_chars(&chars_of(value));
    let ghost all = words@.map_values(|w: Vec<char>| w@);
    let count: usize = if words.len() > 8 {
        8
    } else {
        words.len()
    };
    let ghost chosen = if all.len() > 8 {
        all.take(8)
    } else {
        all
    };
    let mut joined: Vec<char> = Vec::new();
    let mut i: usize = 0;
    while i < count
        invariant
            i <= count,
            count == chosen.len(),
            count <= words@.len(),
            all == words@.map_values(|w: Vec<char>| w@),
            chosen == (if all.len() > 8 {
                all.take(8)
            } else {
                all
            }),
            joined@ == join_seq(chosen.take(i as int), " "@),
        decreases count - i,
    {
        proof {
            assert(chosen.take(i as int + 1).drop_last() =~= chosen.take(i as int));
            assert(chosen.take(i as int + 1).last() == words@[i as int]@);
        }
        if i > 0 {
            push_str(&mut joined, " ");
        }
        push_all(&mut joined, &words[i]);
        i = i + 1;
    }
    proof {
        assert(chosen.take(i as int) =~= chosen);
    }
    string_of(&joined)
}

/// Whether `short_title` is defined on `value`: its cut at byte 69 falls
/// between characters. Callers test this before `short_title`.
pub fn short_title_in_range(value: &str) -> (ok: bool)
    ensures
        ok == short_title_defined(value@),
{
    let text = title_words_text(value);
    if text.as_str().as_bytes().len() > 72 {
        text.as_str().is_char_boundary(69)
    } else {
        true
    }
}

pub fn short_title(value: &str) -> (title: String)
    requires
        short_title_defined(value@),
    ensures
        title@ == short_title_seq(value@),
{
    broadcast use vstd::utf8::encode_utf8_decode_utf8;

    let text = title_words_text(value);
    if text.as_str().as_bytes().len() > 72 {
        let (head, _) = text.as_str().split_at(69);
        let mut out = chars_of(head);
        push_str(&mut out, "...");
        proof {
            assert(head.spec_bytes() =~= encode_utf8(text@).subrange(0, 69));
            assert(head@ == decode_utf8(encode_utf8(head@)));
            assert(encode_utf8(text@).take(69) =~= encode_utf8(text@).subrange(0, 69));
            assert(head@ == decode_utf8(encode_utf8(text@).take(69)));
            assert(out@ =~= head@ + "..."@);
        }
        string_of(&out)
    } else {
        text
    }
}

/// `high` for three or more occurrences, `medium` otherwise.
pub open spec fn confidence_seq(count: nat) -> Seq<char> {
    if count >= 3 {
        "high"@
    } else {
        "medium"@
    }
}

pub fn confidence_for_count(count: usize) -> (confidence: String)
    ensures
        confidence@ == confidence_seq(count as nat),
{
    if count >= 3 {
        "high".to_owned()
    } else {
        "medium".to_owned()
    }
}

/// Where the group with `key` is.
pub open spec fn group_index(groups: Seq<(Seq<char>, Seq<char>, nat)>, key: Seq<char>) -> Option<int>
    decreases groups.len(),
{
    if groups.len() == 0 {
        None
    } else {
        match group_index(groups.drop_last(), key) {
            Some(i) => Some(i),
            None => if groups.last().0 == key {
                Some(groups.len() - 1)
            } else {
                None
            },
        }
    }
}

/// Group values by their normalized token, in order of first appearance:
/// each group keeps its token, its first value and its size.
pub open spec fn tally(values: Seq<Seq<char>>) -> Seq<(Seq<char>, Seq<char>, nat)>
    decreases values.len(),
{
    if values.len() == 0 {
        Seq::empty()
    } else {
        let groups = tally(values.drop_last());
        let value = values.last();
        let key = normalize_token_seq(value);
        match group_index(groups, key) {
            Some(i) => groups.update(i, (key, groups[i].1, groups[i].2 + 1)),
            None => groups.push((key, value, 1)),
        }
    }
}

/// The values that recur (by normalized token), each with how often.
pub open spec fn repeated_values_seq(values: Seq<Seq<char>>) -> Seq<(Seq<char>, nat)> {
    tally(values).filter(|g: (Seq<char>, Seq<char>, nat)| g.2 >= 2).map_values(
        |g: (Seq<char>, Seq<char>, nat)| (g.1, g.2),
    )
}

proof fn lemma_group_index(groups: Seq<(Seq<char>, Seq<char>, nat)>, key: Seq<char>)
    ensures
        match group_index(groups, key) {
            Some(i) => 0 <= i < groups.len() && groups[i].0 == key && forall|j: int|
                0 <= j < i ==> groups[j].0 != key,
            None => forall|j: int| 0 <= j < groups.len() ==> groups[j].0 != key,
        },
    decreases groups.len(),
{
    if groups.len() > 0 {
        let rest = groups.drop_last();
        lemma_group_index(rest, key);
        assert forall|j: int| 0 <= j < rest.len() implies #[trigger] groups[j] == rest[j] by {}
    }
}

proof fn lemma_tally_counts(values: Seq<Seq<char>>)
    ensures
        forall|i: int| 0 <= i < tally(values).len() ==> 1 <= #[trigger] tally(values)[i].2 <= values.len(),
        tally(values).len() <= values.len(),
    decreases values.len(),
{
    if values.len() > 0 {
        lemma_tally_counts(values.drop_last());
        lemma_group_index(tally(values.drop_last()), normalize_token_seq(values.last()));
    }
}

pub open spec fn tally_view(groups: Seq<(String, String, usize)>) -> Seq<(Seq<char>, Seq<char>, nat)> {
    groups.map_values(|g: (String, String, usize)| (g.0@, g.1@, g.2 as nat))
}

fn find_group(groups: &Vec<(String, String, usize)>, key: &String) -> (index: Option<usize>)
    ensures
        match index {
            Some(i) => group_index(tally_view(groups@), key@) == Some(i as int),
            None => group_index(tally_view(groups@), key@) is None,
        },
{
    let mut i: usize = 0;
    while i < groups.len()
        invariant
            i <= groups@.len(),
            forall|j: int| 0 <= j < i ==> groups@[j].0@ != key@,
        decreases groups@.len() - i,
    {
        if groups[i].0 == *key {
            proof {
                lemma_group_index(tally_view(groups@), key@);
                let g = group_index(tally_view(groups@), key@);
                if g != Some(i as int) {
                    assert(tally_view(groups@)[i as int].0 == key@);
                }
            }
            return Some(i);
        }
        i = i + 1;
    }
    proof {
        lemma_group_index(tally_view(groups@), key@);
        if group_index(tally_view(groups@), key@) is Some {
            let k = group_index(tally_view(groups@), key@)->0;
            assert(tally_view(groups@)[k].0 == key@);
        }
    }
    None
}

/// The values that recur (compared as normalized tokens), each given as
/// its first occurrence with the number of occurrences, in order of first
/// appearance.
pub fn repeated_values(values: &Vec<String>) -> (repeated: Vec<(String, usize)>)
    ensures
        repeated@.map_values(|r: (String, usize)| (r.0@, r.1 as nat)) == repeated_values_seq(
            strings_view(values@),
        ),
{
    let ghost all = strings_view(values@);
    let mut groups: Vec<(String, String, usize)> = Vec::new();
    let mut i: usize = 0;
    assert(tally_view(groups@) =~= tally(all.take(0)));
    while i < values.len()
        invariant
            i <= values@.len(),
            all == strings_view(values@),
            tally_view(groups@) == tally(all.take(i as int)),
        decreases values@.len() - i,
    {
        let value = &values[i];
        let key = normalize_token(value.as_str());
        proof {
            assert(all.take(i as int + 1).drop_last() =~= all.take(i as int));
            assert(all.take(i as int + 1).last() == value@);
            lemma_tally_counts(all.take(i as int));
        }
        let ghost before = groups@;
        match find_group(&groups, &key) {
            Some(g) => {
                proof {
                    lemma_group_index(tally_view(groups@), key@);
                    assert(tally_view(groups@)[g as int].2 <= i);
                }
                let count = groups[g].2 + 1;
                let first = groups[g].1.clone();
                groups.set(g, (key, first, count));
                proof {
                    assert(tally_view(groups@) =~= tally_view(before).update(
                        g as int,
                        (key@, before[g as int].1@, (before[g as int].2 + 1) as nat),
                    ));
                }
            },
            None => {
                groups.push((key, value.clone(), 1));
                proof {
                    assert(tally_view(groups@) =~= tally_view(before).push((key@, value@, 1nat)));
                }
            },
        }
        i = i + 1;
    }
    proof {
        assert(all.take(i as int) =~= all);
    }
    let ghost grouped = tally(all);
    let mut repeated: Vec<(String, usize)> = Vec::new();
    let mut j: usize = 0;
    while j < groups.len()
        invariant
            j <= groups@.len(),
            tally_view(groups@) == grouped,
            grouped == tally(all),
            repeated@.map_values(|r: (String, usize)| (r.0@, r.1 as nat)) == grouped.take(
                j as int,
            ).filter(|g: (Seq<char>, Seq<char>, nat)| g.2 >= 2).map_values(
                |g: (Seq<char>, Seq<char>, nat)| (g.1, g.2),
            ),
        decreases groups@.len() - j,
    {
        let ghost before = repeated@;
        proof {
            grouped.take(j as int).lemma_filter_push(
                grouped[j as int],
                |g: (Seq<char>, Seq<char>, nat)| g.2 >= 2,
            );
            assert(grouped.take(j as int).push(grouped[j as int]) =~= grouped.take(j as int + 1));
        }
        if groups[j].2 >= 2 {
            repeated.push((groups[j].1.clone(), groups[j].2));
            proof {
                assert(repeated@.map_values(|r: (String, usize)| (r.0@, r.1 as nat)) =~= before.map_values(
                    |r: (String, usize)| (r.0@, r.1 as nat),
                ).push((groups@[j as int].1@, groups@[j as int].2 as nat)));
            }
        }
        j = j + 1;
    }
    proof {
        assert(grouped.take(j as int) =~= grouped);
    }
    repeated
}

/// The story a signal counts for: its own, or a stand-in unique to its
/// position when it names none (such signals cannot be deduplicated).
pub open spec fn signal_story(index: int, story_id: Seq<char>) -> Seq<char> {
    if story_id.len() == 0 {
        "?unattributed-"@ + decimal_seq(index as nat)
    } else {
        story_id
    }
}

/// Signals recur when their type and normalized summary match.
pub open spec fn signal_key(signal_type: Seq<char>, summary: Seq<char>) -> Seq<char> {
    signal_type + "|"@ + normalize_token_seq(summary)
}

pub open spec fn signal_group_index(
    groups: Seq<(Seq<char>, Seq<char>, Seq<char>, Seq<Seq<char>>)>,
    key: Seq<char>,
) -> Option<int>
    decreases groups.len(),
{
    if groups.len() == 0 {
        None
    } else {
        match signal_group_index(groups.drop_last(), key) {
            Some(i) => Some(i),
            None => if groups.last().0 == key {
                Some(groups.len() - 1)
            } else {
                None
            },
        }
    }
}

/// Group `(type, summary, story id)` signals by key, in order of first
/// appearance: each group keeps its key, its first type and summary, and
/// the distinct stories it was recorded on.
pub open spec fn tally_signals(rows: Seq<(Seq<char>, Seq<char>, Seq<char>)>) -> Seq<
    (Seq<char>, Seq<char>, Seq<char>, Seq<Seq<char>>),
>
    decreases rows.len(),
{
    if rows.len() == 0 {
        Seq::empty()
    } else {
        let groups = tally_signals(rows.drop_last());
        let row = rows.last();
        let story = signal_story(rows.len() - 1, row.2);
        let key = signal_key(row.0, row.1);
        match signal_group_index(groups, key) {
            Some(g) => if groups[g].3.contains(story) {
                groups
            } else {
                groups.update(g, (groups[g].0, groups[g].1, groups[g].2, groups[g].3.push(story)))
            },
            None => groups.push((key, row.0, row.1, seq![story])),
        }
    }
}

/// Signals recorded on two or more distinct stories: `(type, summary,
/// number of stories)`.
pub open spec fn repeated_story_signals_seq(rows: Seq<(Seq<char>, Seq<char>, Seq<char>)>) -> Seq<
    (Seq<char>, Seq<char>, nat),
> {
    tally_signals(rows).filter(
        |g: (Seq<char>, Seq<char>, Seq<char>, Seq<Seq<char>>)| g.3.len() >= 2,
    ).map_values(|g: (Seq<char>, Seq<char>, Seq<char>, Seq<Seq<char>>)| (g.1, g.2, g.3.len()))
}

proof fn lemma_signal_group_index(
    groups: Seq<(Seq<char>, Seq<char>, Seq<char>, Seq<Seq<char>>)>,
    key: Seq<char>,
)
    ensures
        match signal_group_index(groups, key) {
            Some(i) => 0 <= i < groups.len() && groups[i].0 == key && forall|j: int|
                0 <= j < i ==> groups[j].0 != key,
            None => forall|j: int| 0 <= j < groups.len() ==> groups[j].0 != key,
        },
    decreases groups.len(),
{
    if groups.len() > 0 {
        let rest = groups.drop_last();
        lemma_signal_group_index(rest, key);
        assert forall|j: int| 0 <= j < rest.len() implies #[trigger] groups[j] == rest[j] by {}
    }
}

proof fn lemma_tally_signals_bound(rows: Seq<(Seq<char>, Seq<char>, Seq<char>)>)
    ensures
        forall|i: int|
            0 <= i < tally_signals(rows).len() ==> #[trigger] tally_signals(rows)[i].3.len()
                <= rows.len(),
        tally_signals(rows).len() <= rows.len(),
    decreases rows.len(),
{
    if rows.len() > 0 {
        let rest = rows.drop_last();
        lemma_tally_signals_bound(rest);
        let row = rows.last();
        lemma_signal_group_index(tally_signals(rest), signal_key(row.0, row.1));
    }
}

pub open spec fn signal_rows_view(rows: Seq<(String, String, String)>) -> Seq<(Seq<char>, Seq<char>, Seq<char>)> {
    rows.map_values(|r: (String, String, String)| (r.0@, r.1@, r.2@))
}

pub open spec fn signal_groups_view(groups: Seq<(String, String, String, Vec<String>)>) -> Seq<
    (Seq<char>, Seq<char>, Seq<char>, Seq<Seq<char>>),
> {
    groups.map_values(
        |g: (String, String, String, Vec<String>)| (g.0@, g.1@, g.2@, strings_view(g.3@)),
    )
}

fn find_signal_group(groups: &Vec<(String, String, String, Vec<String>)>, key: &String) -> (index:
    Option<usize>)
    ensures
        match index {
            Some(i) => signal_group_index(signal_groups_view(groups@), key@) == Some(i as int),
            None => signal_group_index(signal_groups_view(groups@), key@) is None,
        },
{
    let mut i: usize = 0;
    while i < groups.len()
        invariant
            i <= groups@.len(),
            forall|j: int| 0 <= j < i ==> groups@[j].0@ != key@,
        decreases groups@.len() - i,
    {
        if groups[i].0 == *key {
            proof {
                lemma_signal_group_index(signal_groups_view(groups@), key@);
                let g = signal_group_index(signal_groups_view(groups@), key@);
                if g != Some(i as int) {
                    assert(signal_groups_view(groups@)[i as int].0 == key@);
                }
            }
            return Some(i);
        }
        i = i + 1;
    }
    proof {
        lemma_signal_group_index(signal_groups_view(groups@), key@);
        if signal_group_index(signal_groups_view(groups@), key@) is Some {
            let k = signal_group_index(signal_groups_view(groups@), key@)->0;
            assert(signal_groups_view(groups@)[k].0 == key@);
        }
    }
    None
}

fn contains_text(items: &Vec<String>, item: &String) -> (found: bool)
    ensures
        found == strings_view(items@).contains(item@),
{
    let mut i: usize = 0;
    while i < items.len()
        invariant
            i <= items@.len(),
            forall|j: int| 0 <= j < i ==> items@[j]@ != item@,
        decreases items@.len() - i,
    {
        if items[i] == *item {
            proof {
                assert(strings_view(items@)[i as int] == item@);
            }
            return true;
        }
        i = i + 1;
    }
    proof {
        if strings_view(items@).contains(item@) {
            let k = choose|k: int| 0 <= k < items@.len() && strings_view(items@)[k] == item@;
            assert(items@[k]@ == item@);
        }
    }
    false
}

/// Story signals that recur across distinct stories (duplicates on one
/// story are noise, not a spec gap), from `(type, summary, story id or
/// empty)` rows in order.
pub fn repeated_story_signals(rows: &Vec<(String, String, String)>) -> (repeated: Vec<(String, String, usize)>)
    ensures
        repeated@.map_values(|r: (String, String, usize)| (r.0@, r.1@, r.2 as nat))
            == repeated_story_signals_seq(signal_rows_view(rows@)),
{
    let ghost all = signal_rows_view(rows@);
    let mut groups: Vec<(String, String, String, Vec<String>)> = Vec::new();
    let mut i: usize = 0;
    assert(signal_groups_view(groups@) =~= tally_signals(all.take(0)));
    while i < rows.len()
        invariant
            i <= rows@.len(),
            all == signal_rows_view(rows@),
            signal_groups_view(groups@) == tally_signals(all.take(i as int)),
        decreases rows@.len() - i,
    {
        let row = &rows[i];
        let story: String = if row.2.as_str().is_empty() {
            let mut text: Vec<char> = Vec::new();
            push_str(&mut text, "?unattributed-");
            push_decimal(&mut text, i as u64);
            string_of(&text)
        } else {
            row.2.clone()
        };
        let mut key_text = chars_of(row.0.as_str());
        push_str(&mut key_text, "|");
        let token = normalize_token(row.1.as_str());
        push_str(&mut key_text, token.as_str());
        let key = string_of(&key_text);
        proof {
            let taken = all.take(i as int + 1);
            assert(taken.drop_last() =~= all.take(i as int));
            assert(taken.last() == (row.0@, row.1@, row.2@));
            assert(story@ == signal_story(i as int, row.2@));
            assert(key@ == signal_key(row.0@, row.1@));
        }
        let ghost before = groups@;
        match find_signal_group(&groups, &key) {
            Some(g) => {
                proof {
                    lemma_signal_group_index(signal_groups_view(groups@), key@);
                }
                if !contains_text(&groups[g].3, &story) {
                    let mut entry = groups.remove(g);
                    entry.3.push(story);
                    groups.insert(g, entry);
                    proof {
                        lemma_signal_group_index(signal_groups_view(before), key@);
                        assert(strings_view(entry.3@) =~= strings_view(before[g as int].3@).push(story@));
                        assert(signal_groups_view(groups@) =~= signal_groups_view(before).update(
                            g as int,
                            (
                                before[g as int].0@,
                                before[g as int].1@,
                                before[g as int].2@,
                                strings_view(before[g as int].3@).push(story@),
                            ),
                        ));
                    }
                }
            },
            None => {
                let mut stories: Vec<String> = Vec::new();
                let ghost story_view = story@;
                stories.push(story);
                groups.push((key, row.0.clone(), row.1.clone(), stories));
                proof {
                    assert(strings_view(stories@) =~= seq![story_view]);
                    assert(signal_groups_view(groups@) =~= signal_groups_view(before).push(
                        (key@, row.0@, row.1@, seq![story_view]),
                    ));
                }
            },
        }
        i = i + 1;
    }
    proof {
        assert(all.take(i as int) =~= all);
        lemma_tally_signals_bound(all);
    }
    let ghost grouped = tally_signals(all);
    let mut repeated: Vec<(String, String, usize)> = Vec::new();
    let mut j: usize = 0;
    while j < groups.len()
        invariant
            j <= groups@.len(),
            signal_groups_view(groups@) == grouped,
            grouped == tally_signals(all),
            repeated@.map_values(|r: (String, String, usize)| (r.0@, r.1@, r.2 as nat)) == grouped.take(
                j as int,
            ).filter(|g: (Seq<char>, Seq<char>, Seq<char>, Seq<Seq<char>>)| g.3.len() >= 2).map_values(
                |g: (Seq<char>, Seq<char>, Seq<char>, Seq<Seq<char>>)| (g.1, g.2, g.3.len()),
            ),
        decreases groups@.len() - j,
    {
        let ghost before = repeated@;
        proof {
            grouped.take(j as int).lemma_filter_push(
                grouped[j as int],
                |g: (Seq<char>, Seq<char>, Seq<char>, Seq<Seq<char>>)| g.3.len() >= 2,
            );
            assert(grouped.take(j as int).push(grouped[j as int]) =~= grouped.take(j as int + 1));
            assert(strings_view(groups@[j as int].3@).len() == groups@[j as int].3@.len());
        }
        let count = groups[j].3.len();
        if count >= 2 {
            repeated.push((groups[j].1.clone(), groups[j].2.clone(), count));
            proof {
                assert(repeated@.map_values(|r: (String, String, usize)| (r.0@, r.1@, r.2 as nat))
                    =~= before.map_values(|r: (String, String, usize)| (r.0@, r.1@, r.2 as nat)).push(
                    (groups@[j as int].1@, groups@[j as int].2@, count as nat),
                ));
            }
        }
        j = j + 1;
    }
    proof {
        assert(grouped.take(j as int) =~= grouped);
    }
    repeated
}

/// One audit finding: the row's id and title.
pub struct AuditFinding {
    pub id: String,
    pub title: String,
}

/// Entropy audit of the cache, one list of findings per drift category.
pub struct AuditResult {
    pub orphaned_stories: Vec<AuditFinding>,
    pub unverified_stories: Vec<AuditFinding>,
    pub unverified_decisions: Vec<AuditFinding>,
    pub backlog_without_outcomes: Vec<AuditFinding>,
    pub stale_stories: Vec<AuditFinding>,
    pub broken_tools: Vec<AuditFinding>,
    pub concurrent_lww_updates: Vec<AuditFinding>,
}

/// Whether a registered tool counts as broken: command-line kinds when
/// their command is not found (probed live), scanned kinds only once a
/// scan has positively found them missing.
pub open spec fn tool_broken_spec(kind: Seq<char>, status: Seq<char>, command_found: bool) -> bool {
    if kind == "cli"@ || kind == "binary"@ {
        !command_found
    } else {
        status == "missing"@
    }
}

/// Whether judging a tool of this kind needs its command probed.
pub fn tool_needs_command_probe(kind: &String) -> (probe: bool)
    ensures
        probe == (kind@ == "cli"@ || kind@ == "binary"@),
{
    *kind == "cli".to_owned() || *kind == "binary".to_owned()
}

pub fn tool_broken(kind: &String, status: &String, command_found: bool) -> (broken: bool)
    ensures
        broken == tool_broken_spec(kind@, status@, command_found),
{
    if tool_needs_command_probe(kind) {
        !command_found
    } else {
        *status == "missing".to_owned()
    }
}

/// A proposed harness improvement.
pub struct ImprovementProposal {
    pub title: String,
    pub component: String,
    pub evidence: String,
    pub predicted_impact: String,
    pub risk: String,
    pub suggested_action: String,
    pub validation_plan: String,
    pub confidence: String,
    /// The backlog item it was committed as, if it was.
    pub committed_backlog_id: Option<String>,
}

/// The texts of a proposal.
pub struct ProposalText {
    pub title: Seq<char>,
    pub component: Seq<char>,
    pub evidence: Seq<char>,
    pub predicted_impact: Seq<char>,
    pub risk: Seq<char>,
    pub suggested_action: Seq<char>,
    pub validation_plan: Seq<char>,
    pub confidence: Seq<char>,
}

pub open spec fn proposal_text(p: ImprovementProposal) -> ProposalText {
    ProposalText {
        title: p.title@,
        component: p.component@,
        evidence: p.evidence@,
        predicted_impact: p.predicted_impact@,
        risk: p.risk@,
        suggested_action: p.suggested_action@,
        validation_plan: p.validation_plan@,
        confidence: p.confidence@,
    }
}

pub open spec fn friction_proposal(text: Seq<char>, count: nat) -> ProposalText {
    ProposalText {
        title: "Reduce repeated friction: "@ + short_title_seq(text),
        component: "Failure attribution"@,
        evidence: decimal_seq(count) + " traces recorded similar friction: "@ + text,
        predicted_impact: "Fewer repeated harness friction entries for similar tasks."@,
        risk: "normal"@,
        suggested_action: "Update the relevant Harness docs, templates, or CLI guidance for this friction pattern."@,
        validation_plan: "Review the next five related traces and compare friction frequency."@,
        confidence: confidence_seq(count),
    }
}

pub open spec fn intervention_proposal(key: Seq<char>, count: nat) -> ProposalText {
    ProposalText {
        title: "Address repeated intervention: "@ + short_title_seq(key),
        component: "Intervention recording"@,
        evidence: decimal_seq(count) + " interventions share the pattern: "@ + key,
        predicted_impact: "Fewer repeated human or review interventions for the same issue."@,
        risk: "normal"@,
        suggested_action: "Clarify the relevant operating rule or validation gate that would have caught this earlier."@,
        validation_plan: "Future interventions of this type should decrease after the rule change."@,
        confidence: confidence_seq(count),
    }
}

pub open spec fn signal_proposal(signal_type: Seq<char>, summary: Seq<char>, count: nat) -> ProposalText {
    ProposalText {
        title: "Recurring "@ + signal_type + " signal: "@ + short_title_seq(summary),
        component: "Task specification"@,
        evidence: decimal_seq(count) + " stories recorded a similar "@ + signal_type + " signal: "@
            + summary,
        predicted_impact: "Closing the spec, plan, or template gap behind this recurring signal."@,
        risk: "normal"@,
        suggested_action: "Update the plan/intake template, story template, or docs so this design point is settled up front."@,
        validation_plan: "The signal should stop recurring in stories opened after the fix."@,
        confidence: confidence_seq(count),
    }
}

pub open spec fn audit_proposal(category: Seq<char>, count: nat) -> ProposalText {
    ProposalText {
        title: "Clean up "@ + category,
        component: "Entropy auditing"@,
        evidence: "Audit found "@ + decimal_seq(count) + " "@ + category + "."@,
        predicted_impact: "Lower entropy score and stronger completion evidence."@,
        risk: "tiny"@,
        suggested_action: "Resolve the listed audit findings or record why they are intentionally retained."@,
        validation_plan: "Run harness-cli audit and confirm the category count decreases."@,
        confidence: "low"@,
    }
}

/// The audit categories a proposal may address, with their finding counts.
pub open spec fn audit_categories(audit: AuditResult) -> Seq<(Seq<char>, nat)> {
    seq![
        ("orphaned planned or in-progress stories"@, audit.orphaned_stories@.len()),
        ("unverified story commands"@, audit.unverified_stories@.len()),
        ("unverified decision commands"@, audit.unverified_decisions@.len()),
        ("implemented backlog items without outcomes"@, audit.backlog_without_outcomes@.len()),
        ("stale unfinished stories"@, audit.stale_stories@.len()),
        ("broken registered tools"@, audit.broken_tools@.len()),
    ]
}

/// Every proposal, in order: one per recurring friction, per recurring
/// intervention, per recurring story signal, then one per audit category
/// with findings.
pub open spec fn proposals_spec(
    friction: Seq<(Seq<char>, nat)>,
    interventions: Seq<(Seq<char>, nat)>,
    signals: Seq<(Seq<char>, Seq<char>, nat)>,
    categories: Seq<(Seq<char>, nat)>,
) -> Seq<ProposalText> {
    friction.map_values(|f: (Seq<char>, nat)| friction_proposal(f.0, f.1)) + interventions.map_values(
        |i: (Seq<char>, nat)| intervention_proposal(i.0, i.1),
    ) + signals.map_values(|s: (Seq<char>, Seq<char>, nat)| signal_proposal(s.0, s.1, s.2))
        + categories.filter(|c: (Seq<char>, nat)| c.1 > 0).map_values(
        |c: (Seq<char>, nat)| audit_proposal(c.0, c.1),
    )
}

pub open spec fn counted_view(items: Seq<(String, usize)>) -> Seq<(Seq<char>, nat)> {
    items.map_values(|i: (String, usize)| (i.0@, i.1 as nat))
}

pub open spec fn signals_counted_view(items: Seq<(String, String, usize)>) -> Seq<(Seq<char>, Seq<char>, nat)> {
    items.map_values(|i: (String, String, usize)| (i.0@, i.1@, i.2 as nat))
}

fn decimal_string(n: usize) -> (text: Vec<char>)
    ensures
        text@ == decimal_seq(n as nat),
{
    let mut out: Vec<char> = Vec::new();
    push_decimal(&mut out, n as u64);
    assert(out@ =~= decimal_seq(n as nat));
    out
}

fn make_proposal(
    title: Vec<char>,
    component: &str,
    evidence: Vec<char>,
    impact: &str,
    risk: &str,
    action: &str,
    plan: &str,
    confidence: String,
) -> (p: ImprovementProposal)
    ensures
        proposal_text(p) == (ProposalText {
            title: title@,
            component: component@,
            evidence: evidence@,
            predicted_impact: impact@,
            risk: risk@,
            suggested_action: action@,
            validation_plan: plan@,
            confidence: confidence@,
        }),
        p.committed_backlog_id is None,
{
    ImprovementProposal {
        title: string_of(&title),
        component: component.to_owned(),
        evidence: string_of(&evidence),
        predicted_impact: impact.to_owned(),
        risk: risk.to_owned(),
        suggested_action: action.to_owned(),
        validation_plan: plan.to_owned(),
        confidence,
        committed_backlog_id: None,
    }
}

fn push_proposal(out: &mut Vec<ImprovementProposal>, p: ImprovementProposal)
    ensures
        final(out)@.map_values(|q: ImprovementProposal| proposal_text(q)) == old(out)@.map_values(
            |q: ImprovementProposal| proposal_text(q),
        ).push(proposal_text(p)),
        final(out)@.len() == old(out)@.len() + 1,
        final(out)@.last() == p,
        forall|k: int| 0 <= k < old(out)@.len() ==> final(out)@[k] == old(out)@[k],
{
    let ghost before = out@;
    out.push(p);
    assert(out@.map_values(|q: ImprovementProposal| proposal_text(q)) =~= before.map_values(
        |q: ImprovementProposal| proposal_text(q),
    ).push(proposal_text(p)));
}

fn audit_category_proposal(out: &mut Vec<ImprovementProposal>, category: &str, count: usize, Ghost(done): Ghost<Seq<(Seq<char>, nat)>>)
    requires
        old(out)@.map_values(|q: ImprovementProposal| proposal_text(q)) == Seq::<ProposalText>::empty()
            + done.filter(|c: (Seq<char>, nat)| c.1 > 0).map_values(
            |c: (Seq<char>, nat)| audit_proposal(c.0, c.1),
        ),
    ensures
        final(out)@.map_values(|q: ImprovementProposal| proposal_text(q)) == done.push(
            (category@, count as nat),
        ).filter(|c: (Seq<char>, nat)| c.1 > 0).map_values(
            |c: (Seq<char>, nat)| audit_proposal(c.0, c.1),
        ),
{
    proof {
        done.lemma_filter_push((category@, count as nat), |c: (Seq<char>, nat)| c.1 > 0);
    }
    let ghost before = out@;
    if count > 0 {
        let mut title: Vec<char> = Vec::new();
        push_str(&mut title, "Clean up ");
        push_str(&mut title, category);
        let mut evidence: Vec<char> = Vec::new();
        push_str(&mut evidence, "Audit found ");
        push_all(&mut evidence, &decimal_string(count));
        push_str(&mut evidence, " ");
        push_str(&mut evidence, category);
        push_str(&mut evidence, ".");
        let p = make_proposal(
            title,
            "Entropy auditing",
            evidence,
            "Lower entropy score and stronger completion evidence.",
            "tiny",
            "Resolve the listed audit findings or record why they are intentionally retained.",
            "Run harness-cli audit and confirm the category count decreases.",
            "low".to_owned(),
        );
        proof {
            assert(proposal_text(p) == audit_proposal(category@, count as nat));
        }
        push_proposal(out, p);
        proof {
            let filtered = done.filter(|c: (Seq<char>, nat)| c.1 > 0);
            assert(filtered.push((category@, count as nat)).map_values(
                |c: (Seq<char>, nat)| audit_proposal(c.0, c.1),
            ) =~= filtered.map_values(|c: (Seq<char>, nat)| audit_proposal(c.0, c.1)).push(
                audit_proposal(category@, count as nat),
            ));
            assert(before.map_values(|q: ImprovementProposal| proposal_text(q)) =~= filtered.map_values(
                |c: (Seq<char>, nat)| audit_proposal(c.0, c.1),
            ));
        }
    } else {
        proof {
            assert(before.map_values(|q: ImprovementProposal| proposal_text(q)) =~= done.filter(
                |c: (Seq<char>, nat)| c.1 > 0,
            ).map_values(|c: (Seq<char>, nat)| audit_proposal(c.0, c.1)));
        }
    }
}

pub open spec fn texts_view(proposals: Seq<ImprovementProposal>) -> Seq<ProposalText> {
    proposals.map_values(|q: ImprovementProposal| proposal_text(q))
}

/// Improvement proposals from what recurs and what the audit found:
/// `friction` and `interventions` are recurring texts with their counts
/// (`repeated_values`), `signals` recurring story signals
/// (`repeated_story_signals`). None is committed yet.
pub fn improvement_proposals(
    friction: &Vec<(String, usize)>,
    interventions: &Vec<(String, usize)>,
    signals: &Vec<(String, String, usize)>,
    audit: &AuditResult,
) -> (proposals: Vec<ImprovementProposal>)
    requires
        forall|i: int| 0 <= i < friction@.len() ==> short_title_defined(#[trigger] friction@[i].0@),
        forall|i: int|
            0 <= i < interventions@.len() ==> short_title_defined(#[trigger] interventions@[i].0@),
        forall|i: int| 0 <= i < signals@.len() ==> short_title_defined(#[trigger] signals@[i].1@),
    ensures
        texts_view(proposals@) == proposals_spec(
            counted_view(friction@),
            counted_view(interventions@),
            signals_counted_view(signals@),
            audit_categories(*audit),
        ),
        forall|i: int| 0 <= i < proposals@.len() ==> (#[trigger] proposals@[i]).committed_backlog_id is None,
{
    let ghost f = counted_view(friction@);
    let ghost v = counted_view(interventions@);
    let ghost g = signals_counted_view(signals@);
    let mut out: Vec<ImprovementProposal> = Vec::new();
    let mut i: usize = 0;
    assert(texts_view(out@) =~= f.take(0).map_values(|x: (Seq<char>, nat)| friction_proposal(x.0, x.1)));
    while i < friction.len()
        invariant
            i <= friction@.len(),
            f == counted_view(friction@),
            forall|k: int| 0 <= k < friction@.len() ==> short_title_defined(#[trigger] friction@[k].0@),
            texts_view(out@) == f.take(i as int).map_values(
                |x: (Seq<char>, nat)| friction_proposal(x.0, x.1),
            ),
            forall|k: int| 0 <= k < out@.len() ==> (#[trigger] out@[k]).committed_backlog_id is None,
        decreases friction@.len() - i,
    {
        let text = &friction[i].0;
        let count = friction[i].1;
        let mut title: Vec<char> = Vec::new();
        push_str(&mut title, "Reduce repeated friction: ");
        push_str(&mut title, short_title(text.as_str()).as_str());
        let mut evidence = decimal_string(count);
        push_str(&mut evidence, " traces recorded similar friction: ");
        push_str(&mut evidence, text.as_str());
        let p = make_proposal(
            title,
            "Failure attribution",
            evidence,
            "Fewer repeated harness friction entries for similar tasks.",
            "normal",
            "Update the relevant Harness docs, templates, or CLI guidance for this friction pattern.",
            "Review the next five related traces and compare friction frequency.",
            confidence_for_count(count),
        );
        let ghost before = texts_view(out@);
        push_proposal(&mut out, p);
        proof {
            assert(f.take(i as int + 1) =~= f.take(i as int).push(f[i as int]));
            assert(f.take(i as int + 1).map_values(|x: (Seq<char>, nat)| friction_proposal(x.0, x.1))
                =~= before.push(friction_proposal(text@, count as nat)));
        }
        i = i + 1;
    }
    proof {
        assert(f.take(i as int) =~= f);
    }
    let ghost after_friction = texts_view(out@);
    let mut j: usize = 0;
    assert(v.take(0).map_values(|x: (Seq<char>, nat)| intervention_proposal(x.0, x.1)) =~= Seq::<ProposalText>::empty());
    assert(after_friction =~= after_friction + Seq::<ProposalText>::empty());
    while j < interventions.len()
        invariant
            j <= interventions@.len(),
            v == counted_view(interventions@),
            forall|k: int|
                0 <= k < interventions@.len() ==> short_title_defined(#[trigger] interventions@[k].0@),
            texts_view(out@) == after_friction + v.take(j as int).map_values(
                |x: (Seq<char>, nat)| intervention_proposal(x.0, x.1),
            ),
            forall|k: int| 0 <= k < out@.len() ==> (#[trigger] out@[k]).committed_backlog_id is None,
        decreases interventions@.len() - j,
    {
        let key = &interventions[j].0;
        let count = interventions[j].1;
        let mut title: Vec<char> = Vec::new();
        push_str(&mut title, "Address repeated intervention: ");
        push_str(&mut title, short_title(key.as_str()).as_str());
        let mut evidence = decimal_string(count);
        push_str(&mut evidence, " interventions share the pattern: ");
        push_str(&mut evidence, key.as_str());
        let p = make_proposal(
            title,
            "Intervention recording",
            evidence,
            "Fewer repeated human or review interventions for the same issue.",
            "normal",
            "Clarify the relevant operating rule or validation gate that would have caught this earlier.",
            "Future interventions of this type should decrease after the rule change.",
            confidence_for_count(count),
        );
        let ghost before = texts_view(out@);
        push_proposal(&mut out, p);
        proof {
            assert(v.take(j as int + 1) =~= v.take(j as int).push(v[j as int]));
            assert(after_friction + v.take(j as int + 1).map_values(
                |x: (Seq<char>, nat)| intervention_proposal(x.0, x.1),
            ) =~= before.push(intervention_proposal(key@, count as nat)));
        }
        j = j + 1;
    }
    proof {
        assert(v.take(j as int) =~= v);
    }
    let ghost after_interventions = texts_view(out@);
    let mut k: usize = 0;
    assert(g.take(0).map_values(|x: (Seq<char>, Seq<char>, nat)| signal_proposal(x.0, x.1, x.2)) =~= Seq::<ProposalText>::empty());
    assert(after_interventions =~= after_interventions + Seq::<ProposalText>::empty());
    while k < signals.len()
        invariant
            k <= signals@.len(),
            g == signals_counted_view(signals@),
            forall|m: int| 0 <= m < signals@.len() ==> short_title_defined(#[trigger] signals@[m].1@),
            texts_view(out@) == after_interventions + g.take(k as int).map_values(
                |x: (Seq<char>, Seq<char>, nat)| signal_proposal(x.0, x.1, x.2),
            ),
            forall|m: int| 0 <= m < out@.len() ==> (#[trigger] out@[m]).committed_backlog_id is None,
        decreases signals@.len() - k,
    {
        let signal_type = &signals[k].0;
        let summary = &signals[k].1;
        let count = signals[k].2;
        let mut title: Vec<char> = Vec::new();
        push_str(&mut title, "Recurring ");
        push_str(&mut title, signal_type.as_str());
        push_str(&mut title, " signal: ");
        push_str(&mut title, short_title(summary.as_str()).as_str());
        let mut evidence = decimal_string(count);
        push_str(&mut evidence, " stories recorded a similar ");
        push_str(&mut evidence, signal_type.as_str());
        push_str(&mut evidence, " signal: ");
        push_str(&mut evidence, summary.as_str());
        let p = make_proposal(
            title,
            "Task specification",
            evidence,
            "Closing the spec, plan, or template gap behind this recurring signal.",
            "normal",
            "Update the plan/intake template, story template, or docs so this design point is settled up front.",
            "The signal should stop recurring in stories opened after the fix.",
            confidence_for_count(count),
        );
        let ghost before = texts_view(out@);
        push_proposal(&mut out, p);
        proof {
            assert(g.take(k as int + 1) =~= g.take(k as int).push(g[k as int]));
            assert(after_interventions + g.take(k as int + 1).map_values(
                |x: (Seq<char>, Seq<char>, nat)| signal_proposal(x.0, x.1, x.2),
            ) =~= before.push(signal_proposal(signal_type@, summary@, count as nat)));
        }
        k = k + 1;
    }
    proof {
        assert(g.take(k as int) =~= g);
    }
    let ghost after_signals = texts_view(out@);
    let mut cleanup: Vec<ImprovementProposal> = Vec::new();
    let ghost mut done: Seq<(Seq<char>, nat)> = Seq::empty();
    proof {
        assert(texts_view(cleanup@) =~= Seq::<ProposalText>::empty() + done.filter(
            |c: (Seq<char>, nat)| c.1 > 0,
        ).map_values(|c: (Seq<char>, nat)| audit_proposal(c.0, c.1)));
    }
    audit_category_proposal(
        &mut cleanup,
        "orphaned planned or in-progress stories",
        audit.orphaned_stories.len(),
        Ghost(done),
    );
    proof {
        done = done.push(("orphaned planned or in-progress stories"@, audit.orphaned_stories@.len()));
        assert(texts_view(cleanup@) =~= Seq::<ProposalText>::empty() + done.filter(
            |c: (Seq<char>, nat)| c.1 > 0,
        ).map_values(|c: (Seq<char>, nat)| audit_proposal(c.0, c.1)));
    }
    audit_category_proposal(&mut cleanup, "unverified story commands", audit.unverified_stories.len(), Ghost(done));
    proof {
        done = done.push(("unverified story commands"@, audit.unverified_stories@.len()));
        assert(texts_view(cleanup@) =~= Seq::<ProposalText>::empty() + done.filter(
            |c: (Seq<char>, nat)| c.1 > 0,
        ).map_values(|c: (Seq<char>, nat)| audit_proposal(c.0, c.1)));
    }
    audit_category_proposal(&mut cleanup, "unverified decision commands", audit.unverified_decisions.len(), Ghost(done));
    proof {
        done = done.push(("unverified decision commands"@, audit.unverified_decisions@.len()));
        assert(texts_view(cleanup@) =~= Seq::<ProposalText>::empty() + done.filter(
            |c: (Seq<char>, nat)| c.1 > 0,
        ).map_values(|c: (Seq<char>, nat)| audit_proposal(c.0, c.1)));
    }
    audit_category_proposal(
        &mut cleanup,
        "implemented backlog items without outcomes",
        audit.backlog_without_outcomes.len(),
        Ghost(done),
    );
    proof {
        done = done.push(("implemented backlog items without outcomes"@, audit.backlog_without_outcomes@.len()));
        assert(texts_view(cleanup@) =~= Seq::<ProposalText>::empty() + done.filter(
            |c: (Seq<char>, nat)| c.1 > 0,
        ).map_values(|c: (Seq<char>, nat)| audit_proposal(c.0, c.1)));
    }
    audit_category_proposal(&mut cleanup, "stale unfinished stories", audit.stale_stories.len(), Ghost(done));
    proof {
        done = done.push(("stale unfinished stories"@, audit.stale_stories@.len()));
        assert(texts_view(cleanup@) =~= Seq::<ProposalText>::empty() + done.filter(
            |c: (Seq<char>, nat)| c.1 > 0,
        ).map_values(|c: (Seq<char>, nat)| audit_proposal(c.0, c.1)));
    }
    audit_category_proposal(&mut cleanup, "broken registered tools", audit.broken_tools.len(), Ghost(done));
    proof {
        done = done.push(("broken registered tools"@, audit.broken_tools@.len()));
        assert(done =~= audit_categories(*audit));
    }
    let ghost cleanup_texts = texts_view(cleanup@);
    let mut m: usize = 0;
    assert(after_signals =~= after_signals + cleanup_texts.take(0));
    while m < cleanup.len()
        invariant
            m <= cleanup@.len(),
            cleanup_texts == texts_view(cleanup@),
            texts_view(out@) == after_signals + cleanup_texts.take(m as int),
            forall|q: int| 0 <= q < out@.len() ==> (#[trigger] out@[q]).committed_backlog_id is None,
        decreases cleanup@.len() - m,
    {
        let p = make_proposal(
            chars_of(cleanup[m].title.as_str()),
            cleanup[m].component.as_str(),
            chars_of(cleanup[m].evidence.as_str()),
            cleanup[m].predicted_impact.as_str(),
            cleanup[m].risk.as_str(),
            cleanup[m].suggested_action.as_str(),
            cleanup[m].validation_plan.as_str(),
            cleanup[m].confidence.clone(),
        );
        let ghost before = texts_view(out@);
        push_proposal(&mut out, p);
        proof {
            assert(proposal_text(p) == cleanup_texts[m as int]);
            assert(after_signals + cleanup_texts.take(m as int + 1) =~= before.push(cleanup_texts[m as int]));
        }
        m = m + 1;
    }
    proof {
        assert(cleanup_texts.take(m as int) =~= cleanup_texts);
        assert(texts_view(out@) =~= proposals_spec(f, v, g, audit_categories(*audit)));
    }
    out
}

/// The notes a committed proposal's backlog item carries.
pub open spec fn proposal_notes(p: ProposalText) -> Seq<char> {
    "component: "@ + p.component + "; confidence: "@ + p.confidence + "; validation: "@
        + p.validation_plan
}

/// The `backlog.add` payload committing a proposal as backlog item `id`,
/// members in key order.
pub open spec fn proposal_payload_spec(p: ProposalText, id: Seq<char>) -> Seq<(Seq<char>, Seq<char>)> {
    seq![
        ("current_pain"@, p.evidence),
        ("discovered_while"@, "harness-cli propose"@),
        ("id"@, id),
        ("notes"@, proposal_notes(p)),
        ("predicted_impact"@, p.predicted_impact),
        ("risk"@, normalize_token_seq(p.risk)),
        ("suggested_improvement"@, p.suggested_action),
        ("title"@, p.title),
    ]
}

/// A string member as `(name, text)`.
pub open spec fn text_member(e: (String, JsonScalar)) -> (Seq<char>, Seq<char>) {
    (
        e.0@,
        match e.1 {
            JsonScalar::Text(s) => s@,
            _ => Seq::empty(),
        },
    )
}

fn push_text_member(entries: &mut Vec<(String, JsonScalar)>, name: &str, value: String)
    ensures
        final(entries)@.len() == old(entries)@.len() + 1,
        forall|k: int| 0 <= k < old(entries)@.len() ==> final(entries)@[k] == old(entries)@[k],
        final(entries)@.last().0@ == name@,
        final(entries)@.last().1 == JsonScalar::Text(value),
{
    entries.push((name.to_owned(), JsonScalar::Text(value)));
}

/// The payload that commits `proposal` as backlog item `id`.
pub fn proposal_backlog_payload(proposal: &ImprovementProposal, id: &str) -> (payload: Vec<
    (String, JsonScalar),
>)
    ensures
        payload@.map_values(|e: (String, JsonScalar)| text_member(e)) == proposal_payload_spec(
            proposal_text(*proposal),
            id@,
        ),
        forall|i: int| 0 <= i < payload@.len() ==> (#[trigger] payload@[i]).1 is Text,
        keys_in_order(payload@),
{
    let mut notes: Vec<char> = Vec::new();
    push_str(&mut notes, "component: ");
    push_str(&mut notes, proposal.component.as_str());
    push_str(&mut notes, "; confidence: ");
    push_str(&mut notes, proposal.confidence.as_str());
    push_str(&mut notes, "; validation: ");
    push_str(&mut notes, proposal.validation_plan.as_str());
    let mut payload: Vec<(String, JsonScalar)> = Vec::new();
    push_text_member(&mut payload, "current_pain", proposal.evidence.clone());
    push_text_member(&mut payload, "discovered_while", "harness-cli propose".to_owned());
    push_text_member(&mut payload, "id", id.to_owned());
    push_text_member(&mut payload, "notes", string_of(&notes));
    push_text_member(&mut payload, "predicted_impact", proposal.predicted_impact.clone());
    push_text_member(&mut payload, "risk", normalize_token(proposal.risk.as_str()));
    push_text_member(&mut payload, "suggested_improvement", proposal.suggested_action.clone());
    push_text_member(&mut payload, "title", proposal.title.clone());
    proof {
        assert(notes@ =~= proposal_notes(proposal_text(*proposal)));
        assert(payload@.map_values(|e: (String, JsonScalar)| text_member(e)) =~= proposal_payload_spec(
            proposal_text(*proposal),
            id@,
        ));
        reveal_strlit("current_pain");
        reveal_strlit("discovered_while");
        reveal_strlit("id");
        reveal_strlit("notes");
        reveal_strlit("predicted_impact");
        reveal_strlit("risk");
        reveal_strlit("suggested_improvement");
        reveal_strlit("title");
        assert(text_lt(payload@[0].0@, payload@[1].0@));
        assert(text_lt(payload@[1].0@, payload@[2].0@));
        assert(text_lt(payload@[2].0@, payload@[3].0@));
        assert(text_lt(payload@[3].0@, payload@[4].0@));
        assert(text_lt(payload@[4].0@, payload@[5].0@));
        assert(text_lt(payload@[5].0@, payload@[6].0@));
        assert(text_lt(payload@[6].0@, payload@[7].0@));
        lemma_keys_in_order(payload@);
    }
    payload
}

/// What `proposals` says of one audit category: a cleanup proposal for it
/// appears exactly when it has findings, and cites their number.
pub open spec fn cleanup_stated(proposals: Seq<ProposalText>, category: Seq<char>, findings: nat) -> bool {
    &&& (exists|i: int| 0 <= i < proposals.len() && (#[trigger] proposals[i]).title == "Clean up "@ + category)
        <==> findings > 0
    &&& forall|i: int|
        0 <= i < proposals.len() && (#[trigger] proposals[i]).title == "Clean up "@ + category
            ==> proposals[i].evidence == "Audit found "@ + decimal_seq(findings) + " "@ + category + "."@
}

proof fn lemma_category_proposals(cats: Seq<(Seq<char>, nat)>, k: int)
    requires
        0 <= k < cats.len(),
        forall|i: int, j: int| 0 <= i < cats.len() && 0 <= j < cats.len() && cats[i].0 == cats[j].0 ==> i == j,
    ensures
        cleanup_stated(
            cats.filter(|c: (Seq<char>, nat)| c.1 > 0).map_values(|c: (Seq<char>, nat)| audit_proposal(c.0, c.1)),
            cats[k].0,
            cats[k].1,
        ),
{
    broadcast use vstd::seq_lib::group_filter_ensures;

    let pred = |c: (Seq<char>, nat)| c.1 > 0;
    let kept = cats.filter(pred);
    let ps = kept.map_values(|c: (Seq<char>, nat)| audit_proposal(c.0, c.1));
    let name = cats[k].0;
    reveal_strlit("Clean up ");
    if cats[k].1 > 0 {
        assert(kept.contains(cats[k]));
        let i = choose|i: int| 0 <= i < kept.len() && kept[i] == cats[k];
        assert(ps[i].title == "Clean up "@ + name);
    }
    assert forall|i: int| 0 <= i < ps.len() && (#[trigger] ps[i]).title == "Clean up "@ + name implies
        kept[i] == cats[k] by {
        let c = kept[i];
        assert(pred(c));
        assert(kept.contains(c));
        cats.lemma_filter_contains_rev(pred, c);
        let j = choose|j: int| 0 <= j < cats.len() && cats[j] == c;
        assert(("Clean up "@ + c.0).skip(9) =~= c.0);
        assert(("Clean up "@ + name).skip(9) =~= name);
        assert(c.0 == name);
    }
}

/// Each audit cleanup proposal counts its own category's findings: for
/// every finding list of the audit, the proposals after the recurring ones
/// hold a cleanup proposal for that category exactly when the list is not
/// empty, and it cites the list's length.
pub proof fn law_cleanup_proposals_count_their_own_findings(
    friction: Seq<(Seq<char>, nat)>,
    interventions: Seq<(Seq<char>, nat)>,
    signals: Seq<(Seq<char>, Seq<char>, nat)>,
    audit: AuditResult,
)
    ensures
        ({
            let cleanup = proposals_spec(friction, interventions, signals, audit_categories(audit)).skip(
                (friction.len() + interventions.len() + signals.len()) as int,
            );
            &&& cleanup_stated(cleanup, "orphaned planned or in-progress stories"@, audit.orphaned_stories@.len())
            &&& cleanup_stated(cleanup, "unverified story commands"@, audit.unverified_stories@.len())
            &&& cleanup_stated(cleanup, "unverified decision commands"@, audit.unverified_decisions@.len())
            &&& cleanup_stated(cleanup, "implemented backlog items without outcomes"@, audit.backlog_without_outcomes@.len())
            &&& cleanup_stated(cleanup, "stale unfinished stories"@, audit.stale_stories@.len())
            &&& cleanup_stated(cleanup, "broken registered tools"@, audit.broken_tools@.len())
        }),
{
    reveal_strlit("orphaned planned or in-progress stories");
    reveal_strlit("unverified story commands");
    reveal_strlit("unverified decision commands");
    reveal_strlit("implemented backlog items without outcomes");
    reveal_strlit("stale unfinished stories");
    reveal_strlit("broken registered tools");
    let cats = audit_categories(audit);
    let all = proposals_spec(friction, interventions, signals, cats);
    let n = (friction.len() + interventions.len() + signals.len()) as int;
    assert(all.skip(n) =~= cats.filter(|c: (Seq<char>, nat)| c.1 > 0).map_values(
        |c: (Seq<char>, nat)| audit_proposal(c.0, c.1),
    ));
    assert forall|i: int, j: int| 0 <= i < cats.len() && 0 <= j < cats.len() && cats[i].0 == cats[j].0
        implies i == j by {
        if i != j {
            assert(cats[i].0.len() != cats[j].0.len());
        }
    }
    lemma_category_proposals(cats, 0);
    lemma_category_proposals(cats, 1);
    lemma_category_proposals(cats, 2);
    lemma_category_proposals(cats, 3);
    lemma_category_proposals(cats, 4);
    lemma_category_proposals(cats, 5);
}

} // verus!
