use vstd::prelude::*;

use crate::error::HarnessInfraError;
use crate::text::{
    chars_eq, chars_of, copy_range, is_ascii_digit, lines_chars, lines_seq, push_str,
    starts_with_chars, starts_with_seq, string_of, strings_view, trim_chars, trim_seq,
};
use crate::views::concat;

verus! {

/// A change diagram's file name: `D`, a digit, `-`, and ending in `.md`.
pub open spec fn is_diagram_file_name_seq(name: Seq<char>) -> bool {
    name.len() > 3 && name[0] == 'D' && is_ascii_digit(name[1]) && name[2] == '-' && name.skip(
        name.len() - 3,
    ) == ".md"@
}

pub fn is_diagram_file_name(name: &str) -> (diagram: bool)
    ensures
        diagram == is_diagram_file_name_seq(name@),
{
    let chars = chars_of(name);
    if chars.len() <= 3 {
        return false;
    }
    if !(chars[0] == 'D' && '0' <= chars[1] && chars[1] <= '9' && chars[2] == '-') {
        return false;
    }
    let tail = copy_range(&chars, chars.len() - 3, chars.len());
    proof {
        assert(tail@ =~= name@.skip(name@.len() - 3));
    }
    chars_eq(&tail, &chars_of(".md"))
}

/// The first line that starts with `key`, after the key, trimmed.
pub open spec fn header_field_scan(lines: Seq<Seq<char>>, key: Seq<char>) -> Option<Seq<char>>
    decreases lines.len(),
{
    if lines.len() == 0 {
        None
    } else if starts_with_seq(lines[0], key) {
        Some(trim_seq(lines[0].skip(key.len() as int)))
    } else {
        header_field_scan(lines.drop_first(), key)
    }
}

pub open spec fn header_field(text: Seq<char>, key: Seq<char>) -> Option<Seq<char>> {
    header_field_scan(lines_seq(text), key)
}

fn header_field_value(lines: &Vec<Vec<char>>, key: &str) -> (value: Option<String>)
    ensures
        match value {
            Some(v) => header_field_scan(lines@.map_values(|l: Vec<char>| l@), key@) == Some(v@),
            None => header_field_scan(lines@.map_values(|l: Vec<char>| l@), key@) is None,
        },
{
    let ghost all = lines@.map_values(|l: Vec<char>| l@);
    let key_chars = chars_of(key);
    let mut i: usize = 0;
    assert(all.skip(0) =~= all);
    while i < lines.len()
        invariant
            i <= lines@.len(),
            all == lines@.map_values(|l: Vec<char>| l@),
            key_chars@ == key@,
            header_field_scan(all, key@) == header_field_scan(all.skip(i as int), key@),
        decreases lines@.len() - i,
    {
        proof {
            assert(all.skip(i as int)[0] == lines@[i as int]@);
            assert(all.skip(i as int).drop_first() =~= all.skip(i as int + 1));
        }
        let line = &lines[i];
        if starts_with_chars(line, &key_chars) {
            let rest = copy_range(line, key_chars.len(), line.len());
            proof {
                assert(rest@ =~= line@.skip(key@.len() as int));
            }
            return Some(string_of(&trim_chars(&rest)));
        }
        i = i + 1;
    }
    None
}

/// The review status of a diagram document for `story_id`: none when it
/// is for another story or is reviewed; its `Status:` (else `missing`)
/// otherwise.
pub open spec fn diagram_review_seq(story_id: Seq<char>, text: Seq<char>) -> Option<Seq<char>> {
    if header_field(text, "Story:"@) != Some(story_id) {
        None
    } else {
        let status = match header_field(text, "Status:"@) {
            Some(s) => s,
            None => "missing"@,
        };
        if status == "reviewed"@ {
            None
        } else {
            Some(status)
        }
    }
}

/// Whether a diagram document holds up `story_id`'s verification, and with
/// what status.
pub fn diagram_review(story_id: &str, text: &str) -> (status: Option<String>)
    ensures
        match status {
            Some(s) => diagram_review_seq(story_id@, text@) == Some(s@),
            None => diagram_review_seq(story_id@, text@) is None,
        },
{
    let lines = lines_chars(&chars_of(text));
    let story = header_field_value(&lines, "Story:");
    let matches = match &story {
        Some(s) => *s == story_id.to_owned(),
        None => false,
    };
    if !matches {
        return None;
    }
    let status = match header_field_value(&lines, "Status:") {
        Some(s) => s,
        None => "missing".to_owned(),
    };
    if status == "reviewed".to_owned() {
        None
    } else {
        Some(status)
    }
}

/// How an unreviewed diagram is listed: its path relative to the
/// repository with `/` separators, and its status.
pub open spec fn diagram_entry_seq(relative: Seq<char>, status: Seq<char>) -> Seq<char> {
    relative.map_values(
        |c: char|
            if c == '\\' {
                '/'
            } else {
                c
            },
    ) + " ("@ + status + ")"@
}

pub fn diagram_entry(relative: &str, status: &str) -> (entry: String)
    ensures
        entry@ == diagram_entry_seq(relative@, status@),
{
    let chars = chars_of(relative);
    let mut out: Vec<char> = Vec::new();
    let mut i: usize = 0;
    while i < chars.len()
        invariant
            i <= chars@.len(),
            chars@ == relative@,
            out@ == chars@.take(i as int).map_values(
                |c: char|
                    if c == '\\' {
                        '/'
                    } else {
                        c
                    },
            ),
        decreases chars@.len() - i,
    {
        if chars[i] == '\\' {
            out.push('/');
        } else {
            out.push(chars[i]);
        }
        proof {
            assert(chars@.take(i as int + 1) =~= chars@.take(i as int).push(chars@[i as int]));
        }
        i = i + 1;
        proof {
            assert(out@ =~= chars@.take(i as int).map_values(
                |c: char|
                    if c == '\\' {
                        '/'
                    } else {
                        c
                    },
            ));
        }
    }
    proof {
        assert(chars@.take(i as int) =~= chars@);
    }
    push_str(&mut out, " (");
    push_str(&mut out, status);
    push_str(&mut out, ")");
    string_of(&out)
}

/// The message a story's verification fails with while change diagrams
/// await review.
pub open spec fn diagram_gate_message_seq(story_id: Seq<char>, unreviewed: Seq<Seq<char>>) -> Seq<char> {
    "story "@ + story_id + " has change diagrams that are not reviewed (docs/DIAGRAMS.md):\n"@
        + concat(unreviewed.map_values(|item: Seq<char>| "  - "@ + item + "\n"@))
        + "Review each (Status: reviewed + harness-cli intervention add --type review) before verifying.\n"@
}

pub fn diagram_gate_message(story_id: &str, unreviewed: &Vec<String>) -> (message: String)
    ensures
        message@ == diagram_gate_message_seq(story_id@, strings_view(unreviewed@)),
{
    let ghost items = strings_view(unreviewed@).map_values(|item: Seq<char>| "  - "@ + item + "\n"@);
    let mut out: Vec<char> = Vec::new();
    push_str(&mut out, "story ");
    push_str(&mut out, story_id);
    push_str(&mut out, " has change diagrams that are not reviewed (docs/DIAGRAMS.md):\n");
    let ghost head = out@;
    let mut i: usize = 0;
    while i < unreviewed.len()
        invariant
            i <= unreviewed@.len(),
            items == strings_view(unreviewed@).map_values(|item: Seq<char>| "  - "@ + item + "\n"@),
            out@ == head + concat(items.take(i as int)),
        decreases unreviewed@.len() - i,
    {
        let ghost mark = out@;
        push_str(&mut out, "  - ");
        push_str(&mut out, unreviewed[i].as_str());
        push_str(&mut out, "\n");
        proof {
            assert(out@ =~= mark + items[i as int]);
            assert(items.take(i as int + 1).drop_last() =~= items.take(i as int));
        }
        i = i + 1;
    }
    proof {
        assert(items.take(i as int) =~= items);
    }
    push_str(
        &mut out,
        "Review each (Status: reviewed + harness-cli intervention add --type review) before verifying.\n",
    );
    string_of(&out)
}

/// A story's verify command, which must be set and non-empty.
pub fn story_verify_command(id: &str, command: Option<String>) -> (verified: Result<String, HarnessInfraError>)
    ensures
        match command {
            Some(c) => c@.len() > 0 ==> verified == Ok::<String, HarnessInfraError>(c),
            None => true,
        },
        (command is None || command->0@.len() == 0) ==> match verified {
            Err(HarnessInfraError::MissingStoryVerifyCommand(s)) => s@ == id@,
            _ => false,
        },
{
    match command {
        Some(c) => {
            if c.as_str().is_empty() {
                Err(HarnessInfraError::MissingStoryVerifyCommand(id.to_owned()))
            } else {
                Ok(c)
            }
        },
        None => Err(HarnessInfraError::MissingStoryVerifyCommand(id.to_owned())),
    }
}

/// A decision's verify command, which must be set and non-empty.
pub fn decision_verify_command(id: &str, command: Option<String>) -> (verified: Result<String, HarnessInfraError>)
    ensures
        match command {
            Some(c) => c@.len() > 0 ==> verified == Ok::<String, HarnessInfraError>(c),
            None => true,
        },
        (command is None || command->0@.len() == 0) ==> match verified {
            Err(HarnessInfraError::MissingDecisionVerifyCommand(s)) => s@ == id@,
            _ => false,
        },
{
    match command {
        Some(c) => {
            if c.as_str().is_empty() {
                Err(HarnessInfraError::MissingDecisionVerifyCommand(id.to_owned()))
            } else {
                Ok(c)
            }
        },
        None => Err(HarnessInfraError::MissingDecisionVerifyCommand(id.to_owned())),
    }
}

/// The diagram review gate: a story with change diagrams awaiting review
/// fails with this message before its command can run.
pub fn diagram_gate(id: &str, unreviewed: &Vec<String>) -> (message: Option<String>)
    ensures
        match message {
            Some(m) => unreviewed@.len() > 0 && m@ == diagram_gate_message_seq(
                id@,
                strings_view(unreviewed@),
            ),
            None => unreviewed@.len() == 0,
        },
{
    if unreviewed.len() > 0 {
        Some(diagram_gate_message(id, unreviewed))
    } else {
        None
    }
}

/// What verifying one story of `story verify --all` does.
pub enum StoryVerifyPlan {
    /// No verify command: the story is skipped.
    Skip,
    /// Unreviewed change diagrams: the story fails with this message and
    /// its command is not run.
    Gate(String),
    /// Run this command from the repository root.
    Run(String),
}

pub open spec fn verify_plan_view(plan: StoryVerifyPlan) -> (int, Seq<char>) {
    match plan {
        StoryVerifyPlan::Skip => (0, Seq::empty()),
        StoryVerifyPlan::Gate(message) => (1, message@),
        StoryVerifyPlan::Run(command) => (2, command@),
    }
}

/// A blank command means none; change diagrams awaiting review fail the
/// story before its command can run.
pub open spec fn verify_plan_spec(id: Seq<char>, command: Option<Seq<char>>, unreviewed: Seq<Seq<char>>) -> (
    int,
    Seq<char>,
) {
    match command {
        None => (0, Seq::empty()),
        Some(c) => if trim_seq(c).len() == 0 {
            (0, Seq::empty())
        } else if unreviewed.len() > 0 {
            (1, diagram_gate_message_seq(id, unreviewed))
        } else {
            (2, c)
        },
    }
}

pub fn story_verify_plan(id: &str, command: Option<String>, unreviewed: &Vec<String>) -> (plan:
    StoryVerifyPlan)
    ensures
        verify_plan_view(plan) == verify_plan_spec(
            id@,
            match command {
                Some(c) => Some(c@),
                None => None,
            },
            strings_view(unreviewed@),
        ),
{
    match command {
        None => StoryVerifyPlan::Skip,
        Some(c) => {
            if trim_chars(&chars_of(c.as_str())).len() == 0 {
                StoryVerifyPlan::Skip
            } else {
                match diagram_gate(id, unreviewed) {
                    Some(message) => StoryVerifyPlan::Gate(message),
                    None => StoryVerifyPlan::Run(c),
                }
            }
        },
    }
}

} // verus!
