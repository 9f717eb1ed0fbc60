use vstd::prelude::*;

use crate::cache::{SqlValue, SqlView};
use crate::events::{path_join, path_join_seq};
use crate::markdown::{contains_chars, contains_seq, join_seq};
use crate::text::{
    chars_eq, chars_of, copy_range, first_piece_chars, first_piece_seq, format_int_seq, push_all,
    push_decimal, push_int_padded, push_str, starts_with_chars, starts_with_seq, string_of,
    trim_chars, trim_end_char, trim_end_char_seq, trim_seq, trim_start_char, trim_start_char_seq,
    words_chars, words_seq, decimal_seq, parse_i64, parse_i64_seq,
};
use crate::repository::last_index_of;

verus! {

/// One argument a registered tool takes.
pub struct ToolArgSpec {
    pub name: String,
    pub arg_type: String,
    pub required: bool,
    pub help: Option<String>,
}

/// One character of a value inside a stored JSON string: backslash, quote
/// and line feed escaped.
pub open spec fn escaped_char(c: char) -> Seq<char> {
    if c == '\\' {
        seq!['\\', '\\']
    } else if c == '"' {
        seq!['\\', '"']
    } else if c == '\n' {
        seq!['\\', 'n']
    } else {
        seq![c]
    }
}

pub open spec fn escape_json_seq(value: Seq<char>) -> Seq<char>
    decreases value.len(),
{
    if value.len() == 0 {
        Seq::empty()
    } else {
        escape_json_seq(value.drop_last()) + escaped_char(value.last())
    }
}

fn push_escaped(out: &mut Vec<char>, value: &str)
    ensures
        final(out)@ == old(out)@ + escape_json_seq(value@),
{
    let chars = chars_of(value);
    let ghost start = out@;
    let mut i: usize = 0;
    while i < chars.len()
        invariant
            i <= chars@.len(),
            chars@ == value@,
            out@ == start + escape_json_seq(chars@.take(i as int)),
        decreases chars@.len() - i,
    {
        proof {
            assert(chars@.take(i as int + 1).drop_last() =~= chars@.take(i as int));
        }
        let c = chars[i];
        if c == '\\' {
            out.push('\\');
            out.push('\\');
        } else if c == '"' {
            out.push('\\');
            out.push('"');
        } else if c == '\n' {
            out.push('\\');
            out.push('n');
        } else {
            out.push(c);
        }
        i = i + 1;
        proof {
            assert(out@ =~= start + escape_json_seq(chars@.take(i as int)));
        }
    }
    proof {
        assert(chars@.take(i as int) =~= chars@);
    }
}

/// Escape a value for a hand-written JSON string: `\` doubled, `"` and line
/// feeds backslash-escaped.
pub fn escape_json(value: &str) -> (escaped: String)
    ensures
        escaped@ == escape_json_seq(value@),
{
    let mut out: Vec<char> = Vec::new();
    push_escaped(&mut out, value);
    assert(out@ =~= escape_json_seq(value@));
    string_of(&out)
}

/// One argument as stored: a JSON object with its name, type, whether it
/// is required and its help (empty when none).
pub open spec fn tool_arg_json_seq(arg: ToolArgSpec) -> Seq<char> {
    "{\"name\":\""@ + escape_json_seq(arg.name@) + "\",\"type\":\""@ + escape_json_seq(arg.arg_type@)
        + "\",\"required\":"@ + (if arg.required {
        "true"@
    } else {
        "false"@
    }) + ",\"help\":\""@ + escape_json_seq(
        match arg.help {
            Some(h) => h@,
            None => Seq::empty(),
        },
    ) + "\"}"@
}

/// The arguments as the JSON array text the tool table stores; none when
/// there are no arguments.
pub open spec fn tool_args_json_seq(args: Seq<ToolArgSpec>) -> Option<Seq<char>> {
    if args.len() == 0 {
        None
    } else {
        Some("["@ + join_seq(args.map_values(|a: ToolArgSpec| tool_arg_json_seq(a)), ","@) + "]"@)
    }
}

fn push_tool_arg(out: &mut Vec<char>, arg: &ToolArgSpec)
    ensures
        final(out)@ == old(out)@ + tool_arg_json_seq(*arg),
{
    let ghost mark = out@;
    push_str(out, "{\"name\":\"");
    push_escaped(out, arg.name.as_str());
    push_str(out, "\",\"type\":\"");
    push_escaped(out, arg.arg_type.as_str());
    push_str(out, "\",\"required\":");
    if arg.required {
        push_str(out, "true");
    } else {
        push_str(out, "false");
    }
    push_str(out, ",\"help\":\"");
    match &arg.help {
        Some(h) => push_escaped(out, h.as_str()),
        None => {},
    }
    push_str(out, "\"}");
    assert(out@ =~= mark + tool_arg_json_seq(*arg));
}

pub fn tool_args_json(args: &Vec<ToolArgSpec>) -> (json: Option<String>)
    ensures
        match json {
            Some(text) => tool_args_json_seq(args@) == Some(text@),
            None => tool_args_json_seq(args@) is None,
        },
{
    if args.len() == 0 {
        return None;
    }
    let ghost objects = args@.map_values(|a: ToolArgSpec| tool_arg_json_seq(a));
    let mut out: Vec<char> = Vec::new();
    push_str(&mut out, "[");
    let ghost head = out@;
    let mut i: usize = 0;
    while i < args.len()
        invariant
            i <= args@.len(),
            objects == args@.map_values(|a: ToolArgSpec| tool_arg_json_seq(a)),
            out@ == head + join_seq(objects.take(i as int), ","@),
        decreases args@.len() - i,
    {
        proof {
            assert(objects.take(i as int + 1).drop_last() =~= objects.take(i as int));
        }
        if i > 0 {
            push_str(&mut out, ",");
        }
        push_tool_arg(&mut out, &args[i]);
        i = i + 1;
    }
    proof {
        assert(objects.take(i as int) =~= objects);
    }
    push_str(&mut out, "]");
    Some(string_of(&out))
}

/// The first position where `pattern` occurs in `s` at or after `from`.
pub open spec fn find_from(s: Seq<char>, pattern: Seq<char>, from: int) -> Option<int>
    decreases s.len() + 1 - from,
{
    if from < 0 || from + pattern.len() > s.len() {
        None
    } else if s.subrange(from, from + pattern.len()) == pattern {
        Some(from)
    } else {
        find_from(s, pattern, from + 1)
    }
}

/// `str::find` of a pattern: its first occurrence.
pub open spec fn find_seq(s: Seq<char>, pattern: Seq<char>) -> Option<int> {
    find_from(s, pattern, 0)
}

proof fn lemma_find_from_bounds(s: Seq<char>, pattern: Seq<char>, from: int)
    ensures
        match find_from(s, pattern, from) {
            Some(i) => from <= i && i + pattern.len() <= s.len() && s.subrange(i, i + pattern.len())
                == pattern,
            None => true,
        },
    decreases s.len() + 1 - from,
{
    if !(from < 0 || from + pattern.len() > s.len()) && s.subrange(from, from + pattern.len())
        != pattern {
        lemma_find_from_bounds(s, pattern, from + 1);
    }
}

fn find_chars(s: &Vec<char>, pattern: &Vec<char>) -> (found: Option<usize>)
    ensures
        match found {
            Some(i) => find_seq(s@, pattern@) == Some(i as int),
            None => find_seq(s@, pattern@) is None,
        },
{
    if pattern.len() == 0 {
        proof {
            assert(s@.subrange(0, 0) =~= pattern@);
        }
        return Some(0);
    }
    if pattern.len() > s.len() {
        return None;
    }
    let mut start: usize = 0;
    while start <= s.len() - pattern.len()
        invariant
            pattern@.len() >= 1,
            pattern@.len() <= s@.len(),
            start <= s@.len() - pattern@.len() + 1,
            find_seq(s@, pattern@) == find_from(s@, pattern@, start as int),
        decreases s@.len() + 1 - start,
    {
        let window = copy_range(s, start, start + pattern.len());
        if chars_eq(&window, pattern) {
            return Some(start);
        }
        start = start + 1;
    }
    None
}

/// The value under `key` in one stored argument object: the text up to
/// the next `"` when quoted, else the trimmed text up to the next `,`.
pub open spec fn json_object_value_seq(raw: Seq<char>, key: Seq<char>) -> Option<Seq<char>> {
    let target = "\""@ + key + "\":"@;
    match find_seq(raw, target) {
        None => None,
        Some(i) => {
            let rest = raw.skip(i + target.len());
            if rest.len() > 0 && rest[0] == '"' {
                let quoted = rest.drop_first();
                match find_seq(quoted, "\""@) {
                    Some(end) => Some(quoted.take(end)),
                    None => None,
                }
            } else {
                Some(trim_seq(first_piece_seq(rest, ',')))
            }
        },
    }
}

#[verifier::spinoff_prover]
pub fn json_object_value(raw: &str, key: &str) -> (value: Option<String>)
    ensures
        match value {
            Some(v) => json_object_value_seq(raw@, key@) == Some(v@),
            None => json_object_value_seq(raw@, key@) is None,
        },
{
    let chars = chars_of(raw);
    let mut target: Vec<char> = Vec::new();
    push_str(&mut target, "\"");
    push_str(&mut target, key);
    push_str(&mut target, "\":");
    proof {
        reveal_strlit("\"");
        reveal_strlit("\":");
    }
    match find_chars(&chars, &target) {
        None => None,
        Some(i) => {
            proof {
                lemma_find_from_bounds(chars@, target@, 0);
            }
            let rest = copy_range(&chars, i + target.len(), chars.len());
            proof {
                assert(rest@ =~= raw@.skip(i + target@.len()));
            }
            if rest.len() > 0 && rest[0] == '"' {
                let quoted = copy_range(&rest, 1, rest.len());
                proof {
                    assert(quoted@ =~= rest@.drop_first());
                }
                let quote = chars_of("\"");
                match find_chars(&quoted, &quote) {
                    Some(end) => {
                        proof {
                            lemma_find_from_bounds(quoted@, quote@, 0);
                            assert(quoted@.take(end as int) =~= quoted@.subrange(0, end as int));
                        }
                        Some(string_of(&copy_range(&quoted, 0, end)))
                    },
                    None => None,
                }
            } else {
                Some(string_of(&trim_chars(&first_piece_chars(&rest, ','))))
            }
        },
    }
}

/// `str::split` with a string pattern: the pieces between its
/// occurrences, found left to right without overlap.
pub open spec fn split_str_seq(s: Seq<char>, pattern: Seq<char>) -> Seq<Seq<char>>
    decreases s.len(),
{
    match find_seq(s, pattern) {
        Some(i) => if pattern.len() > 0 && 0 <= i && i + pattern.len() <= s.len() {
            seq![s.take(i)] + split_str_seq(s.skip(i + pattern.len()), pattern)
        } else {
            seq![s]
        },
        None => seq![s],
    }
}

fn split_str_chars(s: &Vec<char>, pattern: &Vec<char>) -> (pieces: Vec<Vec<char>>)
    requires
        pattern@.len() > 0,
    ensures
        pieces@.map_values(|p: Vec<char>| p@) == split_str_seq(s@, pattern@),
    decreases s@.len(),
{
    match find_chars(s, pattern) {
        Some(i) => {
            proof {
                lemma_find_from_bounds(s@, pattern@, 0);
                assert(find_from(s@, pattern@, 0) == Some(i as int));
                assert(i + pattern@.len() <= s@.len());
            }
            let total = s.len();
            let head = copy_range(s, 0, i);
            let tail = copy_range(s, i + pattern.len(), total);
            proof {
                assert(head@ =~= s@.take(i as int));
                assert(tail@ =~= s@.skip(i + pattern@.len()));
            }
            let rest = split_str_chars(&tail, pattern);
            let mut pieces: Vec<Vec<char>> = Vec::new();
            pieces.push(head);
            let ghost first = pieces@;
            let mut k: usize = 0;
            let mut rest = rest;
            let ghost rest_views = rest@.map_values(|p: Vec<char>| p@);
            assert(pieces@.map_values(|p: Vec<char>| p@) =~= seq![s@.take(i as int)] + rest_views.take(0));
            while k < rest.len()
                invariant
                    k <= rest@.len(),
                    rest_views == rest@.map_values(|p: Vec<char>| p@),
                    pieces@.map_values(|p: Vec<char>| p@) == seq![s@.take(i as int)] + rest_views.take(k as int),
                decreases rest@.len() - k,
            {
                let ghost before = pieces@;
                pieces.push(rest[k].clone());
                proof {
                    assert(pieces@.map_values(|p: Vec<char>| p@) =~= before.map_values(|p: Vec<char>| p@).push(rest@[k as int]@));
                    assert(rest_views.take(k as int + 1) =~= rest_views.take(k as int).push(rest_views[k as int]));
                }
                k = k + 1;
            }
            proof {
                assert(rest_views.take(k as int) =~= rest_views);
            }
            pieces
        },
        None => {
            let mut pieces: Vec<Vec<char>> = Vec::new();
            pieces.push(s.clone());
            assert(pieces@.map_values(|p: Vec<char>| p@) =~= seq![s@]);
            pieces
        },
    }
}

/// A stored argument as read back.
pub struct ToolArgView {
    pub name: Seq<char>,
    pub arg_type: Seq<char>,
    pub required: bool,
    pub help: Option<Seq<char>>,
}

pub open spec fn tool_arg_view(arg: ToolArgSpec) -> ToolArgView {
    ToolArgView {
        name: arg.name@,
        arg_type: arg.arg_type@,
        required: arg.required,
        help: match arg.help {
            Some(h) => Some(h@),
            None => None,
        },
    }
}

/// `s` without leading and trailing copies of `c` (`str::trim_matches`).
pub open spec fn trim_char_seq(s: Seq<char>, c: char) -> Seq<char> {
    trim_end_char_seq(trim_start_char_seq(s, c), c)
}

/// One stored argument object: braces stripped, then its members; an
/// object without a name is skipped, a missing type is `string`, only
/// `true` makes it required, and an empty help is none.
pub open spec fn parse_tool_arg(raw: Seq<char>) -> Option<ToolArgView> {
    let item = trim_char_seq(trim_char_seq(raw, '{'), '}');
    match json_object_value_seq(item, "name"@) {
        None => None,
        Some(name) => Some(
            ToolArgView {
                name,
                arg_type: match json_object_value_seq(item, "type"@) {
                    Some(t) => t,
                    None => "string"@,
                },
                required: json_object_value_seq(item, "required"@) == Some("true"@),
                help: match json_object_value_seq(item, "help"@) {
                    Some(h) => if h.len() > 0 {
                        Some(h)
                    } else {
                        None
                    },
                    None => None,
                },
            },
        ),
    }
}

pub open spec fn parse_tool_args(pieces: Seq<Seq<char>>) -> Seq<ToolArgView>
    decreases pieces.len(),
{
    if pieces.len() == 0 {
        Seq::empty()
    } else {
        let rest = parse_tool_args(pieces.drop_last());
        match parse_tool_arg(pieces.last()) {
            Some(arg) => rest.push(arg),
            None => rest,
        }
    }
}

/// The arguments a tool row stores, read back from its JSON array text.
pub open spec fn parse_stored_tool_args_seq(value: Option<Seq<char>>) -> Seq<ToolArgView> {
    match value {
        None => Seq::empty(),
        Some(v) => if !contains_seq(v, "\"name\""@) {
            Seq::empty()
        } else {
            parse_tool_args(
                split_str_seq(trim_end_char_seq(trim_start_char_seq(trim_seq(v), '['), ']'), "},{"@),
            )
        },
    }
}

fn parse_one_arg(raw: &Vec<char>) -> (arg: Option<ToolArgSpec>)
    ensures
        match arg {
            Some(a) => parse_tool_arg(raw@) == Some(tool_arg_view(a)),
            None => parse_tool_arg(raw@) is None,
        },
{
    let item_chars = trim_end_char(
        &trim_start_char(&trim_end_char(&trim_start_char(raw, '{'), '{'), '}'),
        '}',
    );
    let item = string_of(&item_chars);
    let name = match json_object_value(item.as_str(), "name") {
        Some(n) => n,
        None => return None,
    };
    let arg_type = match json_object_value(item.as_str(), "type") {
        Some(t) => t,
        None => "string".to_owned(),
    };
    let required = match json_object_value(item.as_str(), "required") {
        Some(v) => v == "true".to_owned(),
        None => false,
    };
    let help = match json_object_value(item.as_str(), "help") {
        Some(h) => if h.as_str().is_empty() {
            None
        } else {
            Some(h)
        },
        None => None,
    };
    Some(ToolArgSpec { name, arg_type, required, help })
}

/// Read back the arguments a tool row stores (`tool_args_json`'s text).
pub fn parse_stored_tool_args(value: Option<&str>) -> (args: Vec<ToolArgSpec>)
    ensures
        args@.map_values(|a: ToolArgSpec| tool_arg_view(a)) == parse_stored_tool_args_seq(
            match value {
                Some(v) => Some(v@),
                None => None,
            },
        ),
{
    let mut args: Vec<ToolArgSpec> = Vec::new();
    let text = match value {
        Some(v) => v,
        None => {
            assert(args@.map_values(|a: ToolArgSpec| tool_arg_view(a)) =~= Seq::<ToolArgView>::empty());
            return args;
        },
    };
    let chars = chars_of(text);
    if !contains_chars(&chars, &chars_of("\"name\"")) {
        assert(args@.map_values(|a: ToolArgSpec| tool_arg_view(a)) =~= Seq::<ToolArgView>::empty());
        return args;
    }
    let body = trim_end_char(&trim_start_char(&trim_chars(&chars), '['), ']');
    let separator = chars_of("},{");
    proof {
        reveal_strlit("},{");
    }
    let pieces = split_str_chars(&body, &separator);
    let ghost views = pieces@.map_values(|p: Vec<char>| p@);
    let mut i: usize = 0;
    assert(args@.map_values(|a: ToolArgSpec| tool_arg_view(a)) =~= parse_tool_args(views.take(0)));
    while i < pieces.len()
        invariant
            i <= pieces@.len(),
            views == pieces@.map_values(|p: Vec<char>| p@),
            args@.map_values(|a: ToolArgSpec| tool_arg_view(a)) == parse_tool_args(views.take(i as int)),
        decreases pieces@.len() - i,
    {
        proof {
            assert(views.take(i as int + 1).drop_last() =~= views.take(i as int));
            assert(views.take(i as int + 1).last() == pieces@[i as int]@);
        }
        let ghost before = args@;
        match parse_one_arg(&pieces[i]) {
            Some(arg) => {
                args.push(arg);
                proof {
                    assert(args@.map_values(|a: ToolArgSpec| tool_arg_view(a)) =~= before.map_values(
                        |a: ToolArgSpec| tool_arg_view(a),
                    ).push(tool_arg_view(arg)));
                }
            },
            None => {},
        }
        i = i + 1;
    }
    proof {
        assert(views.take(i as int) =~= views);
    }
    args
}

/// Outcome of one `tool check` scan: the facts reported for a tool.
pub struct ToolCheckResult {
    pub name: String,
    pub kind: String,
    pub capability: Option<String>,
    /// `present`, `missing` or `unknown`.
    pub status: String,
    pub detail: String,
}

/// A tool's scan target, trimmed, when it is not blank.
pub open spec fn scan_target_seq(target: Option<Seq<char>>) -> Option<Seq<char>> {
    match target {
        Some(t) => if trim_seq(t).len() > 0 {
            Some(trim_seq(t))
        } else {
            None
        },
        None => None,
    }
}

/// What a presence scan probes for a tool of `kind`.
pub enum ScanProbe {
    /// Whether its command is available (`command_probe`).
    Command,
    /// Whether the scan target resolves to a path (`scan_target_path`).
    Target(String),
    /// Whether the target answers over HTTP or resolves to a path.
    HttpOrTarget(String),
    /// Nothing to probe: the status is `unknown`, with this detail.
    Unknown(String),
}

pub open spec fn opt_text(value: Option<String>) -> Option<Seq<char>> {
    match value {
        Some(s) => Some(s@),
        None => None,
    }
}

/// The probe for a tool: command-line kinds by their command; `mcp` and
/// `skill` by their scan target; `http` by reaching the target.
pub open spec fn scan_probe_spec(kind: Seq<char>, target: Option<Seq<char>>) -> (int, Seq<char>) {
    if kind == "cli"@ || kind == "binary"@ {
        (0, Seq::empty())
    } else if kind == "mcp"@ || kind == "skill"@ {
        match scan_target_seq(target) {
            Some(t) => (1, t),
            None => (3, "no scan target; agent confirms availability"@),
        }
    } else if kind == "http"@ {
        match scan_target_seq(target) {
            Some(t) => (2, t),
            None => (3, "no scan target"@),
        }
    } else {
        (3, Seq::empty())
    }
}

pub open spec fn probe_view(probe: ScanProbe) -> (int, Seq<char>) {
    match probe {
        ScanProbe::Command => (0, Seq::empty()),
        ScanProbe::Target(t) => (1, t@),
        ScanProbe::HttpOrTarget(t) => (2, t@),
        ScanProbe::Unknown(detail) => (3, detail@),
    }
}

fn text_is(value: &String, literal: &str) -> (same: bool)
    ensures
        same == (value@ == literal@),
{
    *value == literal.to_owned()
}

fn trimmed_target(target: &Option<String>) -> (trimmed: Option<String>)
    ensures
        opt_text(trimmed) == scan_target_seq(opt_text(*target)),
{
    match target {
        Some(t) => {
            let chars = trim_chars(&chars_of(t.as_str()));
            if chars.len() > 0 {
                Some(string_of(&chars))
            } else {
                None
            }
        },
        None => None,
    }
}

pub fn scan_probe(kind: &String, scan_target: &Option<String>) -> (probe: ScanProbe)
    ensures
        probe_view(probe) == scan_probe_spec(kind@, opt_text(*scan_target)),
{
    if text_is(kind, "cli") || text_is(kind, "binary") {
        ScanProbe::Command
    } else if text_is(kind, "mcp") || text_is(kind, "skill") {
        match trimmed_target(scan_target) {
            Some(t) => ScanProbe::Target(t),
            None => ScanProbe::Unknown("no scan target; agent confirms availability".to_owned()),
        }
    } else if text_is(kind, "http") {
        match trimmed_target(scan_target) {
            Some(t) => ScanProbe::HttpOrTarget(t),
            None => ScanProbe::Unknown("no scan target".to_owned()),
        }
    } else {
        ScanProbe::Unknown(String::new())
    }
}

/// The status and detail a scan reports, given what its probe found:
/// `present` or `missing` with the command or target probed, else
/// `unknown`. A missing extension is a fact to report, not an error.
pub open spec fn scan_status_spec(probe: (int, Seq<char>), command: Seq<char>, found: bool) -> (Seq<char>, Seq<char>) {
    if probe.0 == 3 {
        ("unknown"@, probe.1)
    } else {
        (
            if found {
                "present"@
            } else {
                "missing"@
            },
            if probe.0 == 0 {
                command
            } else {
                probe.1
            },
        )
    }
}

pub fn scan_tool_status(probe: &ScanProbe, command: &str, found: bool) -> (status: (String, String))
    ensures
        (status.0@, status.1@) == scan_status_spec(probe_view(*probe), command@, found),
{
    let verdict = if found {
        "present".to_owned()
    } else {
        "missing".to_owned()
    };
    match probe {
        ScanProbe::Command => (verdict, command.to_owned()),
        ScanProbe::Target(t) => (verdict, t.clone()),
        ScanProbe::HttpOrTarget(t) => (verdict, t.clone()),
        ScanProbe::Unknown(detail) => ("unknown".to_owned(), detail.clone()),
    }
}

/// `~/` at the start of a target stands for the home directory.
pub open spec fn expand_home_seq(target: Seq<char>, home: Option<Seq<char>>) -> Seq<char> {
    match home {
        Some(h) => if starts_with_seq(target, "~/"@) {
            h + "/"@ + target.skip(2)
        } else {
            target
        },
        None => target,
    }
}

/// The path a scan target names: home-expanded, then relative to the
/// repository unless absolute.
pub fn scan_target_path(repo_root: &str, target: &str, home: Option<&str>) -> (path: String)
    ensures
        path@ == path_join_seq(
            repo_root@,
            expand_home_seq(
                target@,
                match home {
                    Some(h) => Some(h@),
                    None => None,
                },
            ),
        ),
{
    let chars = chars_of(target);
    let expanded: String = match home {
        Some(h) => {
            if starts_with_chars(&chars, &chars_of("~/")) {
                proof {
                    reveal_strlit("~/");
                }
                let mut out = chars_of(h);
                push_str(&mut out, "/");
                let rest = copy_range(&chars, 2, chars.len());
                push_all(&mut out, &rest);
                proof {
                    assert(rest@ =~= target@.skip(2));
                }
                string_of(&out)
            } else {
                target.to_owned()
            }
        },
        None => target.to_owned(),
    };
    path_join(repo_root, expanded.as_str())
}

/// How to find a tool's command: its first word, looked up as a path when
/// it is one, else on `PATH`.
pub enum CommandProbe {
    /// An empty command is never available.
    Unavailable,
    /// Available when this path exists.
    Path(String),
    /// Available when some `PATH` directory holds this name.
    Search(String),
}

/// The command's first word, or the whole command when it has no words.
pub open spec fn first_word(command: Seq<char>) -> Seq<char> {
    if words_seq(command).len() > 0 {
        words_seq(command)[0]
    } else {
        command
    }
}

pub open spec fn command_probe_spec(repo_root: Seq<char>, command: Seq<char>) -> (int, Seq<char>) {
    let first = first_word(command);
    if first.len() == 0 {
        (0, Seq::empty())
    } else if first[0] == '/' {
        (1, first)
    } else if contains_seq(first, "/"@) || contains_seq(first, "\\"@) {
        (1, path_join_seq(repo_root, first))
    } else {
        (2, first)
    }
}

pub open spec fn command_probe_view(probe: CommandProbe) -> (int, Seq<char>) {
    match probe {
        CommandProbe::Unavailable => (0, Seq::empty()),
        CommandProbe::Path(p) => (1, p@),
        CommandProbe::Search(name) => (2, name@),
    }
}

pub fn command_probe(repo_root: &str, command: &str) -> (probe: CommandProbe)
    ensures
        command_probe_view(probe) == command_probe_spec(repo_root@, command@),
{
    let chars = chars_of(command);
    let words = words_chars(&chars);
    let first = if words.len() > 0 {
        proof {
            assert(words@.map_values(|w: Vec<char>| w@)[0] == words@[0]@);
        }
        words[0].clone()
    } else {
        chars
    };
    if first.len() == 0 {
        CommandProbe::Unavailable
    } else if first[0] == '/' {
        CommandProbe::Path(string_of(&first))
    } else if contains_chars(&first, &chars_of("/")) || contains_chars(&first, &chars_of("\\")) {
        CommandProbe::Path(path_join(repo_root, string_of(&first).as_str()))
    } else {
        CommandProbe::Search(string_of(&first))
    }
}

/// A query cell as text: NULL as empty, a blob as its size.
pub open spec fn sql_text_seq(value: SqlView) -> Seq<char> {
    match value {
        SqlView::Null => Seq::empty(),
        SqlView::Integer(n) => format_int_seq(n, 0),
        SqlView::Real(text) => text,
        SqlView::Text(text) => text,
        SqlView::Blob(bytes) => "<"@ + decimal_seq(bytes.len()) + " bytes>"@,
    }
}

pub fn sql_value_to_string(value: &SqlValue) -> (text: String)
    ensures
        text@ == sql_text_seq(value@),
{
    let mut out: Vec<char> = Vec::new();
    match value {
        SqlValue::Null => {},
        SqlValue::Integer(n) => push_int_padded(&mut out, *n, 0),
        SqlValue::Real(text) => push_str(&mut out, text.as_str()),
        SqlValue::Text(text) => push_str(&mut out, text.as_str()),
        SqlValue::Blob(bytes) => {
            push_str(&mut out, "<");
            push_decimal(&mut out, bytes.len() as u64);
            push_str(&mut out, " bytes>");
        },
    }
    assert(out@ =~= sql_text_seq(value@));
    string_of(&out)
}

/// What `str::parse::<u16>` gives: an optional `+` then digits whose value
/// is at most 65535.
pub open spec fn parse_u16_seq(s: Seq<char>) -> Option<int> {
    if s.len() > 0 && s[0] == '-' {
        None
    } else {
        match parse_i64_seq(s) {
            Some(v) => if 0 <= v <= 65535 {
                Some(v)
            } else {
                None
            },
            None => None,
        }
    }
}

/// The host and port an `http://` or `https://` scan target names: the
/// authority (up to the first `/`), split at its last `:` when one is
/// there, the port defaulting to the scheme's when absent or not a number.
pub open spec fn http_endpoint_seq(target: Seq<char>) -> Option<(Seq<char>, int)> {
    let scheme: Option<(int, Seq<char>)> = if starts_with_seq(target, "https://"@) {
        Some((443, target.skip(8)))
    } else if starts_with_seq(target, "http://"@) {
        Some((80, target.skip(7)))
    } else {
        None
    };
    match scheme {
        None => None,
        Some((default_port, rest)) => {
            let authority = first_piece_seq(rest, '/');
            if authority.len() == 0 {
                None
            } else {
                match last_index_of(authority, ':') {
                    Some(i) => Some(
                        (
                            authority.take(i),
                            match parse_u16_seq(authority.skip(i + 1)) {
                                Some(p) => p,
                                None => default_port,
                            },
                        ),
                    ),
                    None => Some((authority, default_port)),
                }
            }
        },
    }
}

fn parse_u16(s: &Vec<char>) -> (value: Option<u16>)
    ensures
        match value {
            Some(v) => parse_u16_seq(s@) == Some(v as int),
            None => parse_u16_seq(s@) is None,
        },
{
    if s.len() > 0 && s[0] == '-' {
        return None;
    }
    match parse_i64(s) {
        Some(v) => if 0 <= v && v <= 65535 {
            Some(v as u16)
        } else {
            None
        },
        None => None,
    }
}

/// Where the last `:` of `s` is.
fn last_colon(s: &Vec<char>) -> (index: Option<usize>)
    ensures
        match index {
            Some(k) => last_index_of(s@, ':') == Some(k as int) && k < s@.len(),
            None => last_index_of(s@, ':') is None,
        },
{
    let mut i: usize = s.len();
    proof {
        assert(s@.take(s@.len() as int) =~= s@);
    }
    while i > 0 && s[i - 1] != ':'
        invariant
            i <= s@.len(),
            last_index_of(s@, ':') == last_index_of(s@.take(i as int), ':'),
        decreases i,
    {
        proof {
            assert(s@.take(i as int).drop_last() =~= s@.take(i as int - 1));
        }
        i = i - 1;
    }
    if i == 0 {
        proof {
            assert(s@.take(0) =~= Seq::<char>::empty());
        }
        return None;
    }
    proof {
        assert(s@.take(i as int).last() == ':');
    }
    Some(i - 1)
}

/// Where a reachability probe of an `http` scan target connects, if the
/// target is an `http://` or `https://` URL with an authority.
#[verifier::spinoff_prover]
pub fn http_endpoint(target: &str) -> (endpoint: Option<(String, u16)>)
    ensures
        match endpoint {
            Some((host, port)) => http_endpoint_seq(target@) == Some((host@, port as int)),
            None => http_endpoint_seq(target@) is None,
        },
{
    let chars = chars_of(target);
    let (default_port, start): (u16, usize) = if starts_with_chars(&chars, &chars_of("https://")) {
        proof {
            reveal_strlit("https://");
        }
        (443, 8)
    } else if starts_with_chars(&chars, &chars_of("http://")) {
        proof {
            reveal_strlit("http://");
        }
        (80, 7)
    } else {
        return None;
    };
    let rest = copy_range(&chars, start, chars.len());
    assert(rest@ =~= target@.skip(start as int));
    let authority = first_piece_chars(&rest, '/');
    if authority.len() == 0 {
        return None;
    }
    let i = match last_colon(&authority) {
        None => return Some((string_of(&authority), default_port)),
        Some(k) => k + 1,
    };
    let host = copy_range(&authority, 0, i - 1);
    let port_text = copy_range(&authority, i, authority.len());
    assert(host@ =~= authority@.take(i as int - 1));
    assert(port_text@ =~= authority@.skip(i as int));
    let port = match parse_u16(&port_text) {
        Some(p) => p,
        None => default_port,
    };
    Some((string_of(&host), port))
}

} // verus!
