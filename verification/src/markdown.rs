use vstd::prelude::*;

use crate::text::{
    is_white_space, trim_end_seq, trim_start_seq,
    chars_eq, chars_of, copy_range, is_ascii_alphanumeric, is_ascii_digit, lines_chars, lines_seq,
    push_str, split_chars, split_once_chars, split_once_seq, split_seq,
    starts_with_chars, starts_with_seq, string_of, strings_view, trim_chars, trim_seq,
};

verus! {

/// One character of a normalized token: ASCII letters lowercased, ASCII
/// digits kept, anything else `_`.
pub open spec fn token_char(c: char) -> char {
    if 'A' <= c && c <= 'Z' {
        ((c as u32) + 32) as char
    } else if is_ascii_alphanumeric(c) {
        c
    } else {
        '_'
    }
}

/// A free-form label as a comparable token: trimmed, then each character
/// mapped by `token_char` (`"In Progress"` becomes `in_progress`, `"N/A"`
/// becomes `n_a`).
pub open spec fn normalize_token_seq(s: Seq<char>) -> Seq<char> {
    trim_seq(s).map_values(|c: char| token_char(c))
}

fn token_char_exec(c: char) -> (t: char)
    ensures
        t == token_char(c),
{
    if 'A' <= c && c <= 'Z' {
        let b: u8 = ((c as u32) + 32) as u8;
        b as char
    } else if ('0' <= c && c <= '9') || ('a' <= c && c <= 'z') {
        c
    } else {
        '_'
    }
}

pub fn normalize_token_chars(s: &Vec<char>) -> (token: Vec<char>)
    ensures
        token@ == normalize_token_seq(s@),
{
    let trimmed = trim_chars(s);
    let mut out: Vec<char> = Vec::new();
    let mut index: usize = 0;
    while index < trimmed.len()
        invariant
            index <= trimmed@.len(),
            trimmed@ == trim_seq(s@),
            out@ == trimmed@.take(index as int).map_values(|c: char| token_char(c)),
        decreases trimmed@.len() - index,
    {
        out.push(token_char_exec(trimmed[index]));
        index = index + 1;
        proof {
            assert(out@ =~= trimmed@.take(index as int).map_values(|c: char| token_char(c)));
        }
    }
    proof {
        assert(trimmed@.take(trimmed@.len() as int) =~= trimmed@);
    }
    out
}

/// Normalize a free-form label into a comparable token.
pub fn normalize_token(value: &str) -> (token: String)
    ensures
        token@ == normalize_token_seq(value@),
{
    string_of(&normalize_token_chars(&chars_of(value)))
}

/// `s` without one leading `|` and one trailing `|`, after trimming.
pub open spec fn table_row_body(line: Seq<char>) -> Seq<char> {
    let t = trim_seq(line);
    let t1 = if t.len() > 0 && t[0] == '|' {
        t.drop_first()
    } else {
        t
    };
    if t1.len() > 0 && t1.last() == '|' {
        t1.drop_last()
    } else {
        t1
    }
}

/// The trimmed cells of a markdown table row.
pub open spec fn table_fields_seq(line: Seq<char>) -> Seq<Seq<char>> {
    split_seq(table_row_body(line), '|').map_values(|f: Seq<char>| trim_seq(f))
}

pub fn table_fields_chars(line: &Vec<char>) -> (fields: Vec<Vec<char>>)
    ensures
        fields@.map_values(|f: Vec<char>| f@) == table_fields_seq(line@),
{
    let t = trim_chars(line);
    let start: usize = if t.len() > 0 && t[0] == '|' {
        1
    } else {
        0
    };
    let t1 = copy_range(&t, start, t.len());
    let end: usize = if t1.len() > 0 && t1[t1.len() - 1] == '|' {
        t1.len() - 1
    } else {
        t1.len()
    };
    let body = copy_range(&t1, 0, end);
    proof {
        assert(body@ =~= table_row_body(line@));
    }
    let pieces = split_chars(&body, '|');
    let ghost parts = split_seq(body@, '|');
    let mut fields: Vec<Vec<char>> = Vec::new();
    let mut index: usize = 0;
    while index < pieces.len()
        invariant
            index <= pieces@.len(),
            pieces@.map_values(|p: Vec<char>| p@) == parts,
            fields@.len() == index,
            forall|j: int| 0 <= j < index ==> #[trigger] fields@[j]@ == trim_seq(parts[j]),
        decreases pieces@.len() - index,
    {
        proof {
            assert(pieces@.map_values(|p: Vec<char>| p@)[index as int] == pieces@[index as int]@);
        }
        fields.push(trim_chars(&pieces[index]));
        index = index + 1;
    }
    proof {
        assert(fields@.map_values(|f: Vec<char>| f@) =~= parts.map_values(
            |f: Seq<char>| trim_seq(f),
        ));
    }
    fields
}

fn strings_of(chars: &Vec<Vec<char>>) -> (strings: Vec<String>)
    ensures
        strings_view(strings@) == chars@.map_values(|c: Vec<char>| c@),
{
    let mut out: Vec<String> = Vec::new();
    let mut index: usize = 0;
    while index < chars.len()
        invariant
            index <= chars@.len(),
            out@.len() == index,
            forall|j: int| 0 <= j < index ==> #[trigger] out@[j]@ == chars@[j]@,
        decreases chars@.len() - index,
    {
        out.push(string_of(&chars[index]));
        index = index + 1;
    }
    proof {
        assert(strings_view(out@) =~= chars@.map_values(|c: Vec<char>| c@));
    }
    out
}

/// The trimmed cells of a markdown table row (`| a | b |` gives `a`, `b`).
pub fn markdown_table_fields(line: &str) -> (fields: Vec<String>)
    ensures
        strings_view(fields@) == table_fields_seq(line@),
{
    let fields = table_fields_chars(&chars_of(line));
    strings_of(&fields)
}

/// The trimmed cell at `index`, when there is one and it is not blank.
pub open spec fn field_at_seq(fields: Seq<Seq<char>>, index: Option<usize>) -> Option<Seq<char>> {
    match index {
        Some(i) => if i < fields.len() && trim_seq(fields[i as int]).len() > 0 {
            Some(trim_seq(fields[i as int]))
        } else {
            None
        },
        None => None,
    }
}

pub fn field_at(fields: &Vec<String>, index: Option<usize>) -> (field: Option<String>)
    ensures
        match field {
            Some(f) => field_at_seq(strings_view(fields@), index) == Some(f@),
            None => field_at_seq(strings_view(fields@), index) is None,
        },
{
    match index {
        Some(i) => {
            if i < fields.len() {
                let trimmed = trim_chars(&chars_of(fields[i].as_str()));
                if trimmed.len() > 0 {
                    Some(string_of(&trimmed))
                } else {
                    None
                }
            } else {
                None
            }
        },
        None => None,
    }
}

/// `pieces` joined with `sep` between consecutive pieces.
pub open spec fn join_seq(pieces: Seq<Seq<char>>, sep: Seq<char>) -> Seq<char>
    decreases pieces.len(),
{
    if pieces.len() == 0 {
        Seq::empty()
    } else if pieces.len() == 1 {
        pieces[0]
    } else {
        join_seq(pieces.drop_last(), sep) + sep + pieces.last()
    }
}

/// Join strings with `sep` between consecutive ones (`slice::join`).
pub fn join_strings(pieces: &Vec<String>, sep: &str) -> (joined: String)
    ensures
        joined@ == join_seq(strings_view(pieces@), sep@),
{
    let ghost all = strings_view(pieces@);
    let mut out: Vec<char> = Vec::new();
    let mut index: usize = 0;
    while index < pieces.len()
        invariant
            index <= pieces@.len(),
            all == strings_view(pieces@),
            out@ == join_seq(all.take(index as int), sep@),
        decreases pieces@.len() - index,
    {
        proof {
            assert(all.take(index as int + 1).drop_last() =~= all.take(index as int));
            assert(all.take(index as int + 1).last() == pieces@[index as int]@);
        }
        if index > 0 {
            push_str(&mut out, sep);
        }
        push_str(&mut out, pieces[index].as_str());
        index = index + 1;
    }
    proof {
        assert(all.take(index as int) =~= all);
    }
    string_of(&out)
}

/// The cells from `start` on, joined with ` | ` and trimmed, when that is
/// not blank (evidence text may itself contain `|`).
pub open spec fn evidence_seq(fields: Seq<Seq<char>>, start: usize) -> Option<Seq<char>> {
    if start > fields.len() {
        None
    } else {
        let joined = trim_seq(join_seq(fields.skip(start as int), " | "@));
        if joined.len() > 0 {
            Some(joined)
        } else {
            None
        }
    }
}

pub fn evidence_from_fields(fields: &Vec<String>, start_index: usize) -> (evidence: Option<String>)
    ensures
        match evidence {
            Some(e) => evidence_seq(strings_view(fields@), start_index) == Some(e@),
            None => evidence_seq(strings_view(fields@), start_index) is None,
        },
{
    if start_index > fields.len() {
        return None;
    }
    let ghost rest = strings_view(fields@).skip(start_index as int);
    let mut joined: Vec<char> = Vec::new();
    let mut index: usize = start_index;
    while index < fields.len()
        invariant
            start_index <= index <= fields@.len(),
            rest == strings_view(fields@).skip(start_index as int),
            joined@ == join_seq(rest.take(index - start_index), " | "@),
        decreases fields@.len() - index,
    {
        proof {
            let k = index - start_index;
            assert(rest.take(k + 1).drop_last() =~= rest.take(k));
            assert(rest.take(k + 1).last() == fields@[index as int]@);
        }
        if index > start_index {
            push_str(&mut joined, " | ");
        }
        push_str(&mut joined, fields[index].as_str());
        index = index + 1;
    }
    proof {
        assert(rest.take(index - start_index) =~= rest);
    }
    let trimmed = trim_chars(&joined);
    if trimmed.len() > 0 {
        Some(string_of(&trimmed))
    } else {
        None
    }
}

/// Whether `sub` occurs in `s` at some position.
pub open spec fn contains_seq(s: Seq<char>, sub: Seq<char>) -> bool {
    exists|i: int|
        0 <= i && i + sub.len() <= s.len() && #[trigger] s.subrange(i, i + sub.len()) == sub
}

pub fn contains_chars(s: &Vec<char>, sub: &Vec<char>) -> (found: bool)
    ensures
        found == contains_seq(s@, sub@),
{
    if sub.len() > s.len() {
        return false;
    }
    if sub.len() == 0 {
        assert(s@.subrange(0, 0 + sub@.len() as int) =~= sub@);
        return true;
    }
    let mut start: usize = 0;
    let last_start: usize = s.len() - sub.len();
    while start <= last_start
        invariant
            sub@.len() <= s@.len(),
            last_start == s@.len() - sub@.len(),
            last_start + sub@.len() == s@.len(),
            sub@.len() > 0,
            start <= last_start + 1,
            forall|i: int|
                0 <= i < start ==> #[trigger] s@.subrange(i, i + sub@.len()) != sub@,
        decreases last_start + 1 - start,
    {
        let width: usize = sub.len();
        let total: usize = s.len();
        assert(start + width <= total);
        let end: usize = start + width;
        let window = copy_range(s, start, end);
        if chars_eq(&window, sub) {
            return true;
        }
        start = start + 1;
    }
    false
}

/// Whether the cell token marks a proof as absent (0) or present (1).
pub open spec fn proof_token_absent(token: Seq<char>) -> bool {
    token == ""@ || token == "no"@ || token == "none"@ || token == "n_a"@ || token == "na"@
        || token == "planned"@ || token == "pending"@ || token == "blocked"@ || token
        == "not_attempted"@ || token == "not_operator_reviewed"@ || starts_with_seq(token, "no_"@)
        || starts_with_seq(token, "pending"@) || starts_with_seq(token, "blocked"@)
        || contains_seq(token, "pending"@) || contains_seq(token, "blocked"@) || contains_seq(
        token,
        "not_attempted"@,
    ) || contains_seq(token, "not_operator_reviewed"@)
}

fn token_is(token: &Vec<char>, literal: &str) -> (eq: bool)
    ensures
        eq == (token@ == literal@),
{
    chars_eq(token, &chars_of(literal))
}

/// A matrix proof cell as 0 (no proof) or 1 (proof recorded).
pub fn proof_from_cell(value: &str) -> (proof: i64)
    ensures
        proof == if proof_token_absent(normalize_token_seq(value@)) {
            0i64
        } else {
            1i64
        },
{
    proof_from_token(&normalize_token_chars(&chars_of(value)))
}

fn proof_from_token(token: &Vec<char>) -> (proof: i64)
    ensures
        proof == if proof_token_absent(token@) {
            0i64
        } else {
            1i64
        },
{
    let token = token;
    if token_is(&token, "") || token_is(&token, "no") || token_is(&token, "none") || token_is(
        &token,
        "n_a",
    ) || token_is(&token, "na") || token_is(&token, "planned") || token_is(&token, "pending")
        || token_is(&token, "blocked") || token_is(&token, "not_attempted") || token_is(
        &token,
        "not_operator_reviewed",
    ) {
        return 0;
    }
    if starts_with_chars(&token, &chars_of("no_")) || starts_with_chars(
        &token,
        &chars_of("pending"),
    ) || starts_with_chars(&token, &chars_of("blocked")) || contains_chars(
        &token,
        &chars_of("pending"),
    ) || contains_chars(&token, &chars_of("blocked")) || contains_chars(
        &token,
        &chars_of("not_attempted"),
    ) || contains_chars(&token, &chars_of("not_operator_reviewed")) {
        0
    } else {
        1
    }
}

/// Story status of a matrix cell: one of the known statuses, else `planned`.
pub open spec fn story_status_seq(token: Seq<char>) -> Seq<char> {
    if token == "planned"@ || token == "in_progress"@ || token == "implemented"@ || token
        == "changed"@ || token == "retired"@ {
        token
    } else {
        "planned"@
    }
}

pub fn normalize_story_status(value: &str) -> (status: String)
    ensures
        status@ == story_status_seq(normalize_token_seq(value@)),
{
    string_of(&story_status_chars(normalize_token_chars(&chars_of(value))))
}

fn story_status_chars(token: Vec<char>) -> (status: Vec<char>)
    ensures
        status@ == story_status_seq(token@),
{
    if token_is(&token, "planned") || token_is(&token, "in_progress") || token_is(
        &token,
        "implemented",
    ) || token_is(&token, "changed") || token_is(&token, "retired") {
        token
    } else {
        chars_of("planned")
    }
}

/// Decision status of a decision record: one of the known statuses,
/// `superseded` for `superseded_...`, else `accepted`.
pub open spec fn decision_status_seq(token: Seq<char>) -> Seq<char> {
    if token == "proposed"@ || token == "accepted"@ || token == "superseded"@ || token
        == "rejected"@ {
        token
    } else if starts_with_seq(token, "superseded_"@) {
        "superseded"@
    } else {
        "accepted"@
    }
}

pub fn normalize_decision_status(value: &str) -> (status: String)
    ensures
        status@ == decision_status_seq(normalize_token_seq(value@)),
{
    let token = normalize_token_chars(&chars_of(value));
    if token_is(&token, "proposed") || token_is(&token, "accepted") || token_is(
        &token,
        "superseded",
    ) || token_is(&token, "rejected") {
        string_of(&token)
    } else if starts_with_chars(&token, &chars_of("superseded_")) {
        string_of(&chars_of("superseded"))
    } else {
        string_of(&chars_of("accepted"))
    }
}

/// Backlog status of a backlog item: one of the known statuses, else
/// `proposed`.
pub open spec fn backlog_status_seq(token: Seq<char>) -> Seq<char> {
    if token == "proposed"@ || token == "accepted"@ || token == "implemented"@ || token
        == "rejected"@ {
        token
    } else {
        "proposed"@
    }
}

pub fn normalize_backlog_status(value: &str) -> (status: String)
    ensures
        status@ == backlog_status_seq(normalize_token_seq(value@)),
{
    let token = normalize_token_chars(&chars_of(value));
    if token_is(&token, "proposed") || token_is(&token, "accepted") || token_is(
        &token,
        "implemented",
    ) || token_is(&token, "rejected") {
        string_of(&token)
    } else {
        string_of(&chars_of("proposed"))
    }
}

/// Risk lane database value of a free-form risk label: `tiny`, `normal` or
/// `high_risk` when the label's token is one of them.
pub open spec fn risk_lane_seq(value: Seq<char>) -> Option<Seq<char>> {
    let token = normalize_token_seq(value);
    if token == "tiny"@ || token == "normal"@ || token == "high_risk"@ {
        Some(token)
    } else {
        None
    }
}

pub fn risk_lane_db_value(value: &str) -> (lane: Option<String>)
    ensures
        match lane {
            Some(l) => risk_lane_seq(value@) == Some(l@),
            None => risk_lane_seq(value@) is None,
        },
{
    let token = normalize_token_chars(&chars_of(value));
    if token_is(&token, "tiny") || token_is(&token, "normal") || token_is(&token, "high_risk") {
        Some(string_of(&token))
    } else {
        None
    }
}

/// The first non-blank trimmed line after the first line that reads
/// `target` (trimmed); empty when there is none.
pub open spec fn section_scan(lines: Seq<Seq<char>>, target: Seq<char>, found: bool) -> Seq<char>
    decreases lines.len(),
{
    if lines.len() == 0 {
        Seq::empty()
    } else {
        let t = trim_seq(lines[0]);
        if found && t.len() > 0 {
            t
        } else {
            section_scan(lines.drop_first(), target, found || t == target)
        }
    }
}

/// The first value under the markdown heading `## {heading}`.
pub open spec fn section_first_value_seq(content: Seq<char>, heading: Seq<char>) -> Seq<char> {
    section_scan(lines_seq(content), "## "@ + heading, false)
}

pub fn markdown_section_first_value(content: &str, heading: &str) -> (value: String)
    ensures
        value@ == section_first_value_seq(content@, heading@),
{
    let lines = lines_chars(&chars_of(content));
    let ghost all = lines@.map_values(|l: Vec<char>| l@);
    let mut target: Vec<char> = chars_of("## ");
    push_str(&mut target, heading);
    let mut found = false;
    let mut index: usize = 0;
    proof {
        assert(all.skip(0) =~= all);
    }
    while index < lines.len()
        invariant
            index <= lines@.len(),
            all == lines@.map_values(|l: Vec<char>| l@),
            all == lines_seq(content@),
            target@ == "## "@ + heading@,
            section_scan(all, target@, false) == section_scan(all.skip(index as int), target@, found),
        decreases lines@.len() - index,
    {
        let trimmed = trim_chars(&lines[index]);
        proof {
            assert(all.skip(index as int)[0] == lines@[index as int]@);
            assert(all.skip(index as int).drop_first() =~= all.skip(index + 1));
        }
        if found && trimmed.len() > 0 {
            return string_of(&trimmed);
        }
        if chars_eq(&trimmed, &target) {
            found = true;
        }
        index = index + 1;
    }
    string_of(&Vec::new())
}

/// Whether a file name starts with a four-digit number and a `-`
/// (`0007-some-decision.md`).
pub open spec fn is_decision_file_name_seq(name: Seq<char>) -> bool {
    match split_once_seq(name, '-') {
        Some(parts) => parts.0.len() == 4 && forall|i: int|
            0 <= i < 4 ==> is_ascii_digit(#[trigger] parts.0[i]),
        None => false,
    }
}

pub fn is_decision_file_name(file_name: &str) -> (is_decision: bool)
    ensures
        is_decision == is_decision_file_name_seq(file_name@),
{
    match split_once_chars(&chars_of(file_name), '-') {
        Some((prefix, rest)) => {
            if prefix.len() != 4 {
                return false;
            }
            let mut index: usize = 0;
            while index < 4
                invariant
                    index <= 4,
                    prefix@.len() == 4,
                    split_once_seq(file_name@, '-') == Some((prefix@, rest@)),
                    forall|j: int| 0 <= j < index ==> is_ascii_digit(#[trigger] prefix@[j]),
                decreases 4 - index,
            {
                if !('0' <= prefix[index] && prefix[index] <= '9') {
                    assert(!is_ascii_digit(prefix@[index as int]));
                    return false;
                }
                index = index + 1;
            }
            true
        },
        None => false,
    }
}

/// `None` for an empty string.
pub fn empty_to_none(value: String) -> (result: Option<String>)
    ensures
        match result {
            Some(v) => value@.len() > 0 && v@ == value@,
            None => value@.len() == 0,
        },
{
    if value.as_str().is_empty() {
        None
    } else {
        Some(value)
    }
}

/// The six fields of a backlog item: title, discovered while, current
/// pain, suggested improvement, risk, status.
pub type BacklogFields = (Seq<char>, Seq<char>, Seq<char>, Seq<char>, Seq<char>, Seq<char>);

pub open spec fn empty_backlog_fields() -> BacklogFields {
    (Seq::empty(), Seq::empty(), Seq::empty(), Seq::empty(), Seq::empty(), Seq::empty())
}

/// Scan state of `backlog_items`: inside `## Items`, the current `###`
/// heading token, the item being filled, the finished items.
pub type BacklogScan = (bool, Seq<char>, BacklogFields, Seq<BacklogFields>);

/// Which field a heading token fills (0..6), if any.
pub open spec fn backlog_slot(heading: Seq<char>) -> int {
    if heading == "title"@ {
        0
    } else if heading == "discovered_while"@ {
        1
    } else if heading == "current_pain"@ {
        2
    } else if heading == "suggested_improvement"@ {
        3
    } else if heading == "risk"@ {
        4
    } else if heading == "status"@ {
        5
    } else {
        6
    }
}

/// `fields` with field `slot` set to `value` when it is still empty.
pub open spec fn fill_backlog_field(fields: BacklogFields, slot: int, value: Seq<char>) -> BacklogFields {
    if slot == 0 && fields.0.len() == 0 {
        (value, fields.1, fields.2, fields.3, fields.4, fields.5)
    } else if slot == 1 && fields.1.len() == 0 {
        (fields.0, value, fields.2, fields.3, fields.4, fields.5)
    } else if slot == 2 && fields.2.len() == 0 {
        (fields.0, fields.1, value, fields.3, fields.4, fields.5)
    } else if slot == 3 && fields.3.len() == 0 {
        (fields.0, fields.1, fields.2, value, fields.4, fields.5)
    } else if slot == 4 && fields.4.len() == 0 {
        (fields.0, fields.1, fields.2, fields.3, value, fields.5)
    } else if slot == 5 && fields.5.len() == 0 {
        (fields.0, fields.1, fields.2, fields.3, fields.4, value)
    } else {
        fields
    }
}

/// One line of `docs/HARNESS_BACKLOG.md`: `## Items` starts the item list;
/// after it, a `### Title` heading closes the item in progress (when it has
/// a title) and each `### <field>` heading names the field that the next
/// non-blank lines fill (the first one wins).
pub open spec fn backlog_step(state: BacklogScan, line: Seq<char>) -> BacklogScan {
    let trimmed = trim_seq(line);
    if trimmed == "## Items"@ {
        (true, Seq::empty(), state.2, state.3)
    } else if !state.0 {
        state
    } else if starts_with_seq(trimmed, "### "@) {
        let heading = normalize_token_seq(trimmed.skip(4));
        if heading == "title"@ && state.2.0.len() > 0 {
            (true, heading, empty_backlog_fields(), state.3.push(state.2))
        } else {
            (true, heading, state.2, state.3)
        }
    } else if trimmed.len() == 0 || state.1.len() == 0 {
        state
    } else {
        (true, state.1, fill_backlog_field(state.2, backlog_slot(state.1), trimmed), state.3)
    }
}

pub open spec fn backlog_scan(lines: Seq<Seq<char>>) -> BacklogScan
    decreases lines.len(),
{
    if lines.len() == 0 {
        (false, Seq::empty(), empty_backlog_fields(), Seq::empty())
    } else {
        backlog_step(backlog_scan(lines.drop_last()), lines.last())
    }
}

/// The items of a backlog document, in order; the last one counts when it
/// has a title.
pub open spec fn backlog_items_seq(content: Seq<char>) -> Seq<BacklogFields> {
    let state = backlog_scan(lines_seq(content));
    if state.2.0.len() > 0 {
        state.3.push(state.2)
    } else {
        state.3
    }
}

/// One item of `docs/HARNESS_BACKLOG.md`.
pub struct BacklogMarkdownItem {
    pub title: String,
    pub discovered_while: String,
    pub current_pain: String,
    pub suggested_improvement: String,
    pub risk: String,
    pub status: String,
}

impl BacklogMarkdownItem {
    pub open spec fn fields(&self) -> BacklogFields {
        (
            self.title@,
            self.discovered_while@,
            self.current_pain@,
            self.suggested_improvement@,
            self.risk@,
            self.status@,
        )
    }
}

struct ItemDraft {
    title: Vec<char>,
    discovered_while: Vec<char>,
    current_pain: Vec<char>,
    suggested_improvement: Vec<char>,
    risk: Vec<char>,
    status: Vec<char>,
}

impl ItemDraft {
    spec fn fields(&self) -> BacklogFields {
        (
            self.title@,
            self.discovered_while@,
            self.current_pain@,
            self.suggested_improvement@,
            self.risk@,
            self.status@,
        )
    }

    fn empty() -> (draft: ItemDraft)
        ensures
            draft.fields() == empty_backlog_fields(),
    {
        ItemDraft {
            title: Vec::new(),
            discovered_while: Vec::new(),
            current_pain: Vec::new(),
            suggested_improvement: Vec::new(),
            risk: Vec::new(),
            status: Vec::new(),
        }
    }

    fn into_item(self) -> (item: BacklogMarkdownItem)
        ensures
            item.fields() == self.fields(),
    {
        BacklogMarkdownItem {
            title: string_of(&self.title),
            discovered_while: string_of(&self.discovered_while),
            current_pain: string_of(&self.current_pain),
            suggested_improvement: string_of(&self.suggested_improvement),
            risk: string_of(&self.risk),
            status: string_of(&self.status),
        }
    }
}

fn heading_slot(heading: &Vec<char>) -> (slot: u8)
    ensures
        slot as int == backlog_slot(heading@),
{
    if token_is(heading, "title") {
        0
    } else if token_is(heading, "discovered_while") {
        1
    } else if token_is(heading, "current_pain") {
        2
    } else if token_is(heading, "suggested_improvement") {
        3
    } else if token_is(heading, "risk") {
        4
    } else if token_is(heading, "status") {
        5
    } else {
        6
    }
}

fn fill_draft(draft: &mut ItemDraft, slot: u8, value: Vec<char>)
    ensures
        final(draft).fields() == fill_backlog_field(old(draft).fields(), slot as int, value@),
{
    if slot == 0 && draft.title.len() == 0 {
        draft.title = value;
    } else if slot == 1 && draft.discovered_while.len() == 0 {
        draft.discovered_while = value;
    } else if slot == 2 && draft.current_pain.len() == 0 {
        draft.current_pain = value;
    } else if slot == 3 && draft.suggested_improvement.len() == 0 {
        draft.suggested_improvement = value;
    } else if slot == 4 && draft.risk.len() == 0 {
        draft.risk = value;
    } else if slot == 5 && draft.status.len() == 0 {
        draft.status = value;
    }
}

pub open spec fn backlog_items_view(items: Seq<BacklogMarkdownItem>) -> Seq<BacklogFields> {
    items.map_values(|item: BacklogMarkdownItem| item.fields())
}

/// The items of a `docs/HARNESS_BACKLOG.md` document.
pub fn backlog_items(content: &str) -> (items: Vec<BacklogMarkdownItem>)
    ensures
        backlog_items_view(items@) == backlog_items_seq(content@),
{
    let lines = lines_chars(&chars_of(content));
    let ghost all = lines@.map_values(|l: Vec<char>| l@);
    let mut in_items = false;
    let mut heading: Vec<char> = Vec::new();
    let mut current = ItemDraft::empty();
    let mut items: Vec<BacklogMarkdownItem> = Vec::new();
    let items_marker = chars_of("## Items");
    let heading_marker = chars_of("### ");
    let mut index: usize = 0;
    proof {
        reveal_strlit("### ");
        assert(all.take(0) =~= Seq::<Seq<char>>::empty());
        assert(backlog_items_view(items@) =~= Seq::<BacklogFields>::empty());
    }
    while index < lines.len()
        invariant
            index <= lines@.len(),
            all == lines@.map_values(|l: Vec<char>| l@),
            all == lines_seq(content@),
            items_marker@ == "## Items"@,
            heading_marker@ == "### "@,
            heading_marker@.len() == 4,
            backlog_scan(all.take(index as int)) == (
                in_items,
                heading@,
                current.fields(),
                backlog_items_view(items@),
            ),
        decreases lines@.len() - index,
    {
        proof {
            assert(all.take(index + 1).drop_last() =~= all.take(index as int));
            assert(all.take(index + 1).last() == lines@[index as int]@);
        }
        let trimmed = trim_chars(&lines[index]);
        if chars_eq(&trimmed, &items_marker) {
            in_items = true;
            heading = Vec::new();
        } else if !in_items {
        } else if starts_with_chars(&trimmed, &heading_marker) {
            let rest = copy_range(&trimmed, 4, trimmed.len());
            proof {
                assert(rest@ =~= trimmed@.skip(4));
            }
            let normalized = normalize_token_chars(&rest);
            if token_is(&normalized, "title") && current.title.len() > 0 {
                let finished = current;
                current = ItemDraft::empty();
                let ghost before = items@;
                items.push(finished.into_item());
                proof {
                    assert(backlog_items_view(items@) =~= backlog_items_view(before).push(
                        finished.fields(),
                    ));
                }
            }
            heading = normalized;
        } else if trimmed.len() == 0 || heading.len() == 0 {
        } else {
            let slot = heading_slot(&heading);
            fill_draft(&mut current, slot, trimmed);
        }
        index = index + 1;
    }
    proof {
        assert(all.take(lines@.len() as int) =~= all);
    }
    if current.title.len() > 0 {
        let ghost before = items@;
        let finished = current;
        items.push(finished.into_item());
        proof {
            assert(backlog_items_view(items@) =~= backlog_items_view(before).push(
                finished.fields(),
            ));
        }
    }
    items
}

/// The index of the last cell whose token is `name`.
pub open spec fn last_token_index(fields: Seq<Seq<char>>, name: Seq<char>) -> Option<usize>
    decreases fields.len(),
{
    if fields.len() == 0 {
        None
    } else if normalize_token_seq(fields.last()) == name {
        Some((fields.len() - 1) as usize)
    } else {
        last_token_index(fields.drop_last(), name)
    }
}

/// Column positions of a `docs/TEST_MATRIX.md` table.
pub struct MatrixColumns {
    pub story: Option<usize>,
    pub contract: Option<usize>,
    pub unit: Option<usize>,
    pub integration: Option<usize>,
    pub e2e: Option<usize>,
    pub platform: Option<usize>,
    pub status: Option<usize>,
    pub evidence: Option<usize>,
}

/// The columns a header row names; a name that occurs twice means its
/// last occurrence.
pub open spec fn header_columns(fields: Seq<Seq<char>>) -> MatrixColumns {
    MatrixColumns {
        story: last_token_index(fields, "story"@),
        contract: last_token_index(fields, "contract"@),
        unit: last_token_index(fields, "unit"@),
        integration: last_token_index(fields, "integration"@),
        e2e: last_token_index(fields, "e2e"@),
        platform: last_token_index(fields, "platform"@),
        status: last_token_index(fields, "status"@),
        evidence: last_token_index(fields, "evidence"@),
    }
}

fn set_if_named(slot: &mut Option<usize>, token: &Vec<char>, name: &str, index: usize)
    ensures
        *final(slot) == if token@ == name@ {
            Some(index)
        } else {
            *old(slot)
        },
{
    if token_is(token, name) {
        *slot = Some(index);
    }
}

impl MatrixColumns {
    /// Find the matrix columns in a header row.
    pub fn from_header(fields: &Vec<String>) -> (columns: MatrixColumns)
        ensures
            columns == header_columns(strings_view(fields@)),
    {
        let ghost all = strings_view(fields@);
        let mut columns = MatrixColumns {
            story: None,
            contract: None,
            unit: None,
            integration: None,
            e2e: None,
            platform: None,
            status: None,
            evidence: None,
        };
        let mut index: usize = 0;
        proof {
            assert(all.take(0) =~= Seq::<Seq<char>>::empty());
        }
        while index < fields.len()
            invariant
                index <= fields@.len(),
                all == strings_view(fields@),
                columns == header_columns(all.take(index as int)),
            decreases fields@.len() - index,
        {
            proof {
                assert(all.take(index + 1).drop_last() =~= all.take(index as int));
                assert(all.take(index + 1).last() == fields@[index as int]@);
            }
            let token = normalize_token_chars(&chars_of(fields[index].as_str()));
            set_if_named(&mut columns.story, &token, "story", index);
            set_if_named(&mut columns.contract, &token, "contract", index);
            set_if_named(&mut columns.unit, &token, "unit", index);
            set_if_named(&mut columns.integration, &token, "integration", index);
            set_if_named(&mut columns.e2e, &token, "e2e", index);
            set_if_named(&mut columns.platform, &token, "platform", index);
            set_if_named(&mut columns.status, &token, "status", index);
            set_if_named(&mut columns.evidence, &token, "evidence", index);
            index = index + 1;
        }
        proof {
            assert(all.take(fields@.len() as int) =~= all);
        }
        columns
    }
}

/// Characters a normalized token is made of.
pub open spec fn is_token_word_char(c: char) -> bool {
    ('a' <= c && c <= 'z') || ('0' <= c && c <= '9') || c == '_'
}

/// A word already in token form normalizes to itself.
proof fn lemma_token_word_fixed(w: Seq<char>)
    requires
        w.len() > 0,
        forall|i: int| 0 <= i < w.len() ==> is_token_word_char(#[trigger] w[i]),
    ensures
        normalize_token_seq(w) == w,
{
    assert(is_token_word_char(w[0]));
    assert(!is_white_space(w[0]));
    assert(trim_start_seq(w) == w);
    assert(is_token_word_char(w[w.len() - 1]));
    assert(!is_white_space(w.last()));
    assert(trim_end_seq(w) == w);
    assert(trim_seq(w) == w);
    assert(w.map_values(|c: char| token_char(c)) =~= w) by {
        assert forall|i: int| 0 <= i < w.len() implies token_char(w[i]) == w[i] by {
            assert(is_token_word_char(w[i]));
        }
    }
}

/// Every word of `words` normalizes to itself (given that each does).
proof fn lemma_known_fixed(words: Seq<Seq<char>>)
    requires
        forall|i: int| 0 <= i < words.len() ==> normalize_token_seq(#[trigger] words[i]) == words[i],
    ensures
        forall|w: Seq<char>| words.contains(w) ==> normalize_token_seq(w) == w,
{
}

/// The statuses a decision record may have.
pub open spec fn decision_statuses() -> Seq<Seq<char>> {
    seq!["proposed"@, "accepted"@, "superseded"@, "rejected"@]
}

/// Normalizing a a status always gives one of the known
/// statuses, gives a known status (however it is cased or padded) back
/// as itself, and normalizing its own result changes nothing.
pub proof fn law_decision_status_normalizes_to_known(value: Seq<char>)
    ensures
        decision_statuses().contains(decision_status_seq(normalize_token_seq(value))),
        decision_statuses().contains(normalize_token_seq(value)) ==> decision_status_seq(normalize_token_seq(value))
            == normalize_token_seq(value),
        decision_statuses().contains(value) ==> decision_status_seq(normalize_token_seq(value)) == value,
        decision_status_seq(normalize_token_seq(decision_status_seq(normalize_token_seq(value)))) == decision_status_seq(
            normalize_token_seq(value),
        ),
{
    reveal_strlit("proposed");
    reveal_strlit("accepted");
    reveal_strlit("superseded");
    reveal_strlit("rejected");
    lemma_token_word_fixed("proposed"@);
    lemma_token_word_fixed("accepted"@);
    lemma_token_word_fixed("superseded"@);
    lemma_token_word_fixed("rejected"@);
    assert(decision_statuses()[0] == "proposed"@);
    assert(decision_statuses()[1] == "accepted"@);
    assert(decision_statuses()[2] == "superseded"@);
    assert(decision_statuses()[3] == "rejected"@);
    lemma_known_fixed(decision_statuses());
}

/// The statuses a story may have.
pub open spec fn story_statuses() -> Seq<Seq<char>> {
    seq!["planned"@, "in_progress"@, "implemented"@, "changed"@, "retired"@]
}

/// Normalizing a a status always gives one of the known
/// statuses, gives a known status (however it is cased or padded) back
/// as itself, and normalizing its own result changes nothing.
pub proof fn law_story_status_normalizes_to_known(value: Seq<char>)
    ensures
        story_statuses().contains(story_status_seq(normalize_token_seq(value))),
        story_statuses().contains(normalize_token_seq(value)) ==> story_status_seq(normalize_token_seq(value))
            == normalize_token_seq(value),
        story_statuses().contains(value) ==> story_status_seq(normalize_token_seq(value)) == value,
        story_status_seq(normalize_token_seq(story_status_seq(normalize_token_seq(value)))) == story_status_seq(
            normalize_token_seq(value),
        ),
{
    reveal_strlit("planned");
    reveal_strlit("in_progress");
    reveal_strlit("implemented");
    reveal_strlit("changed");
    reveal_strlit("retired");
    lemma_token_word_fixed("planned"@);
    lemma_token_word_fixed("in_progress"@);
    lemma_token_word_fixed("implemented"@);
    lemma_token_word_fixed("changed"@);
    lemma_token_word_fixed("retired"@);
    assert(story_statuses()[0] == "planned"@);
    assert(story_statuses()[1] == "in_progress"@);
    assert(story_statuses()[2] == "implemented"@);
    assert(story_statuses()[3] == "changed"@);
    assert(story_statuses()[4] == "retired"@);
    lemma_known_fixed(story_statuses());
}

/// The statuses a backlog item may have.
pub open spec fn backlog_statuses() -> Seq<Seq<char>> {
    seq!["proposed"@, "accepted"@, "implemented"@, "rejected"@]
}

/// Normalizing a a status always gives one of the known
/// statuses, gives a known status (however it is cased or padded) back
/// as itself, and normalizing its own result changes nothing.
pub proof fn law_backlog_status_normalizes_to_known(value: Seq<char>)
    ensures
        backlog_statuses().contains(backlog_status_seq(normalize_token_seq(value))),
        backlog_statuses().contains(normalize_token_seq(value)) ==> backlog_status_seq(normalize_token_seq(value))
            == normalize_token_seq(value),
        backlog_statuses().contains(value) ==> backlog_status_seq(normalize_token_seq(value)) == value,
        backlog_status_seq(normalize_token_seq(backlog_status_seq(normalize_token_seq(value)))) == backlog_status_seq(
            normalize_token_seq(value),
        ),
{
    reveal_strlit("proposed");
    reveal_strlit("accepted");
    reveal_strlit("implemented");
    reveal_strlit("rejected");
    lemma_token_word_fixed("proposed"@);
    lemma_token_word_fixed("accepted"@);
    lemma_token_word_fixed("implemented"@);
    lemma_token_word_fixed("rejected"@);
    assert(backlog_statuses()[0] == "proposed"@);
    assert(backlog_statuses()[1] == "accepted"@);
    assert(backlog_statuses()[2] == "implemented"@);
    assert(backlog_statuses()[3] == "rejected"@);
    lemma_known_fixed(backlog_statuses());
}

/// The risk lanes a story or an intake may have.
pub open spec fn risk_lanes() -> Seq<Seq<char>> {
    seq!["tiny"@, "normal"@, "high_risk"@]
}

/// A risk lane is read as one of the known lanes or refused: a known lane
/// (however it is cased or padded) is read as itself, and anything read is
/// a known lane.
pub proof fn law_risk_lane_reads_known_lanes(value: Seq<char>)
    ensures
        risk_lane_seq(value) matches Some(lane) ==> risk_lanes().contains(lane),
        risk_lanes().contains(normalize_token_seq(value)) ==> risk_lane_seq(value) == Some(
            normalize_token_seq(value),
        ),
        risk_lanes().contains(value) ==> risk_lane_seq(value) == Some(value),
{
    reveal_strlit("tiny");
    reveal_strlit("normal");
    reveal_strlit("high_risk");
    lemma_token_word_fixed("tiny"@);
    lemma_token_word_fixed("normal"@);
    lemma_token_word_fixed("high_risk"@);
    assert(risk_lanes()[0] == "tiny"@);
    assert(risk_lanes()[1] == "normal"@);
    assert(risk_lanes()[2] == "high_risk"@);
    lemma_known_fixed(risk_lanes());
}

} // verus!
