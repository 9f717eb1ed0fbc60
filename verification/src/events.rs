use vstd::prelude::*;

use crate::fnv::{fnv1a64, fnv_fold, FNV_OFFSET_BASIS};
use crate::text::{
    char_is_ascii_alphanumeric, chars_of, hex_digit_char, hex_seq, is_ascii_alphanumeric, push_all, push_hex,
    push_str, string_of, trim_chars, trim_seq,
};

verus! {

/// Version of the event-log line format this library writes.
pub const EVENT_SCHEMA_VERSION: i64 = 1;

/// `base` joined with `name` as `Path::join` joins them on Unix: an
/// absolute `name` replaces `base`; otherwise a `/` separates the two unless
/// `base` is empty or already ends with one.
pub open spec fn path_join_seq(base: Seq<char>, name: Seq<char>) -> Seq<char> {
    if name.len() > 0 && name[0] == '/' {
        name
    } else if base.len() == 0 || base.last() == '/' {
        base + name
    } else {
        base + seq!['/'] + name
    }
}

/// Join a path component onto a base path (Unix separators).
pub fn path_join(base: &str, name: &str) -> (joined: String)
    ensures
        joined@ == path_join_seq(base@, name@),
{
    let base_chars = chars_of(base);
    let name_chars = chars_of(name);
    if name_chars.len() > 0 && name_chars[0] == '/' {
        return string_of(&name_chars);
    }
    let mut out = base_chars.clone();
    assert(out@ == base@);
    if !(base_chars.len() == 0 || base_chars[base_chars.len() - 1] == '/') {
        out.push('/');
    }
    push_all(&mut out, &name_chars);
    string_of(&out)
}

/// The per-writer, append-only event log under `.harness/events/`.
pub struct EventLog {
    events_dir: String,
    writer: String,
}

impl EventLog {
    /// The directory holding every writer's log file.
    pub closed spec fn events_dir_view(&self) -> Seq<char> {
        self.events_dir@
    }

    /// This log's writer identity.
    pub closed spec fn writer_view(&self) -> Seq<char> {
        self.writer@
    }

    /// The log of `writer` rooted at `repo_root` (its events directory is
    /// `repo_root/.harness/events`). The writer identity comes from
    /// `resolve_writer`, whose result always names a file inside that
    /// directory.
    pub fn new(repo_root: &str, writer: String) -> (log: EventLog)
        ensures
            log.events_dir_view() == path_join_seq(repo_root@, ".harness/events"@),
            log.writer_view() == writer@,
    {
        let events_dir = path_join(repo_root, ".harness/events");
        EventLog::with_writer(events_dir, writer)
    }

    pub fn with_writer(events_dir: String, writer: String) -> (log: EventLog)
        ensures
            log.events_dir_view() == events_dir@,
            log.writer_view() == writer@,
    {
        EventLog { events_dir, writer }
    }

    pub fn writer(&self) -> (writer: &str)
        ensures
            writer@ == self.writer_view(),
    {
        self.writer.as_str()
    }

    pub fn events_dir(&self) -> (dir: &str)
        ensures
            dir@ == self.events_dir_view(),
    {
        self.events_dir.as_str()
    }

    /// This writer's log file name inside the events dir.
    pub fn file_name(&self) -> (name: String)
        ensures
            name@ == self.writer_view() + ".jsonl"@,
    {
        let mut out = chars_of(self.writer.as_str());
        push_str(&mut out, ".jsonl");
        string_of(&out)
    }

    pub fn own_file_path(&self) -> (path: String)
        ensures
            path@ == path_join_seq(self.events_dir_view(), self.writer_view() + ".jsonl"@),
    {
        let name = self.file_name();
        path_join(self.events_dir.as_str(), name.as_str())
    }
}

/// Characters a writer identity may hold.
pub open spec fn is_writer_char(c: char) -> bool {
    is_ascii_alphanumeric(c) || c == '-' || c == '_'
}

/// The writer characters of `s`, in order.
pub open spec fn writer_chars(s: Seq<char>) -> Seq<char>
    decreases s.len(),
{
    if s.len() == 0 {
        Seq::empty()
    } else if is_writer_char(s.last()) {
        writer_chars(s.drop_last()).push(s.last())
    } else {
        writer_chars(s.drop_last())
    }
}

/// At most 64 writer characters of `s`: ASCII letters, digits, `-`, `_`.
pub open spec fn sanitized_writer_seq(s: Seq<char>) -> Seq<char> {
    let kept = writer_chars(s);
    if kept.len() <= 64 {
        kept
    } else {
        kept.take(64)
    }
}

/// Keep only ASCII alphanumerics, `-` and `_`, and at most 64 of them.
pub fn sanitize_writer(value: &str) -> (writer: String)
    ensures
        writer@ == sanitized_writer_seq(value@),
{
    let chars = chars_of(value);
    let mut out: Vec<char> = Vec::new();
    let mut index: usize = 0;
    let ghost mut kept: Seq<char> = Seq::empty();
    proof {
        assert(chars@.take(0) =~= Seq::<char>::empty());
    }
    while index < chars.len()
        invariant
            index <= chars@.len(),
            kept == writer_chars(chars@.take(index as int)),
            out@ == (if kept.len() <= 64 {
                kept
            } else {
                kept.take(64)
            }),
        decreases chars@.len() - index,
    {
        let c = chars[index];
        proof {
            assert(chars@.take(index + 1).drop_last() =~= chars@.take(index as int));
            assert(chars@.take(index + 1).last() == c);
        }
        if char_is_ascii_alphanumeric(c) || c == '-' || c == '_' {
            proof {
                kept = kept.push(c);
            }
            if out.len() < 64 {
                out.push(c);
            }
        }
        index = index + 1;
        proof {
            assert(out@ =~= (if kept.len() <= 64 {
                kept
            } else {
                kept.take(64)
            }));
        }
    }
    proof {
        assert(chars@.take(chars@.len() as int) =~= chars@);
    }
    string_of(&out)
}

/// Every character `writer_chars` keeps is a writer character, so a kept
/// sequence keeps all of itself.
proof fn lemma_writer_chars_fixed(s: Seq<char>)
    ensures
        writer_chars(writer_chars(s)) == writer_chars(s),
        forall|i: int| 0 <= i < writer_chars(s).len() ==> is_writer_char(#[trigger] writer_chars(s)[i]),
    decreases s.len(),
{
    if s.len() > 0 {
        lemma_writer_chars_fixed(s.drop_last());
        let kept = writer_chars(s.drop_last());
        if is_writer_char(s.last()) {
            assert(kept.push(s.last()).drop_last() =~= kept);
        }
    }
}

proof fn lemma_writer_chars_of_clean(s: Seq<char>)
    requires
        forall|i: int| 0 <= i < s.len() ==> is_writer_char(#[trigger] s[i]),
    ensures
        writer_chars(s) == s,
    decreases s.len(),
{
    if s.len() > 0 {
        lemma_writer_chars_of_clean(s.drop_last());
        assert(s.drop_last().push(s.last()) =~= s);
    }
}

/// A sanitized writer identity is already clean: sanitizing it again
/// changes nothing, so the identity a writer file is named by is stable.
pub proof fn law_sanitize_writer_idempotent(value: Seq<char>)
    ensures
        sanitized_writer_seq(sanitized_writer_seq(value)) == sanitized_writer_seq(value),
{
    let once = sanitized_writer_seq(value);
    lemma_writer_chars_fixed(value);
    assert forall|i: int| 0 <= i < once.len() implies is_writer_char(#[trigger] once[i]) by {
        let kept = writer_chars(value);
        if kept.len() > 64 {
            assert(once[i] == kept[i]);
        }
    }
    lemma_writer_chars_of_clean(once);
}

/// The writer named by an override value, when anything of it survives
/// sanitizing.
pub fn writer_override(value: &str) -> (writer: Option<String>)
    ensures
        match writer {
            Some(w) => sanitized_writer_seq(value@).len() > 0 && w@ == sanitized_writer_seq(
                value@,
            ),
            None => sanitized_writer_seq(value@).len() == 0,
        },
        writer matches Some(w) ==> writer_identity(w@),
{
    proof {
        lemma_sanitized_writer_chars(value@);
    }
    let sanitized = sanitize_writer(value);
    if sanitized.as_str().is_empty() {
        None
    } else {
        Some(sanitized)
    }
}

/// What `str::to_lowercase` returns for `s` (Unicode lowercase mapping).
pub uninterp spec fn unicode_lowercase(s: Seq<char>) -> Seq<char>;

/// `str::to_lowercase`: the Unicode lowercase of `s`. Nothing more is
/// stated of the mapping than that it is a function of `s`.
#[verifier::external_body]
fn to_lowercase(s: &str) -> (lower: String)
    ensures
        lower@ == unicode_lowercase(s@),
{
    s.to_lowercase()
}

/// The e-mail used when git has none configured.
pub open spec fn fallback_email() -> Seq<char> {
    "unknown@local"@
}

/// Writer identity from a git e-mail: the first 8 hex digits of the FNV-1a
/// hash of the trimmed, lowercased e-mail (`unknown@local` when there is
/// none), then `-` and the clone disambiguator when there is one.
pub open spec fn writer_from_email_seq(email: Option<Seq<char>>, suffix: Option<Seq<char>>) -> Seq<char> {
    let address = match email {
        Some(e) => e,
        None => fallback_email(),
    };
    let hash = fnv_fold(
        FNV_OFFSET_BASIS,
        vstd::utf8::encode_utf8(unicode_lowercase(trim_seq(address))),
    );
    let prefix = hex_seq(hash as nat / 0x1_0000_0000, 8);
    match suffix {
        Some(s) => prefix + seq!['-'] + s,
        None => prefix,
    }
}

/// Writer identity when no override is set: e-mail hash
/// short form plus the per-clone disambiguator, so one human on two
/// machines never shares a writer file.
pub fn writer_from_email(email: Option<&str>, disambiguator: Option<&str>) -> (writer: String)
    ensures
        writer@ == writer_from_email_seq(
            match email {
                Some(e) => Some(e@),
                None => None,
            },
            match disambiguator {
                Some(d) => Some(d@),
                None => None,
            },
        ),
{
    let address = match email {
        Some(e) => chars_of(e),
        None => chars_of("unknown@local"),
    };
    let trimmed = string_of(&trim_chars(&address));
    let lowered = to_lowercase(trimmed.as_str());
    let hash = fnv1a64(lowered.as_str().as_bytes());
    let mut out: Vec<char> = Vec::new();
    push_hex(&mut out, hash / 0x1_0000_0000, 8);
    match disambiguator {
        Some(suffix) => {
            out.push('-');
            push_str(&mut out, suffix);
        },
        None => {},
    }
    string_of(&out)
}

/// A writer identity names a file in the events directory: it is not
/// empty and holds only ASCII letters, digits, `-` and `_`.
pub open spec fn writer_identity(s: Seq<char>) -> bool {
    s.len() > 0 && forall|i: int| 0 <= i < s.len() ==> is_writer_char(#[trigger] s[i])
}

/// Whether `s` is a writer identity.
pub fn is_writer_identity(s: &str) -> (valid: bool)
    ensures
        valid == writer_identity(s@),
{
    let chars = chars_of(s);
    if chars.len() == 0 {
        return false;
    }
    let mut index: usize = 0;
    while index < chars.len()
        invariant
            index <= chars@.len(),
            chars@ == s@,
            forall|j: int| 0 <= j < index ==> is_writer_char(#[trigger] s@[j]),
        decreases chars@.len() - index,
    {
        let c = chars[index];
        if !(char_is_ascii_alphanumeric(c) || c == '-' || c == '_') {
            return false;
        }
        index = index + 1;
    }
    true
}

proof fn lemma_hex_seq_writer_chars(n: nat, width: nat)
    ensures
        forall|i: int| 0 <= i < hex_seq(n, width).len() ==> is_writer_char(
            #[trigger] hex_seq(n, width)[i],
        ),
        hex_seq(n, width).len() == width,
    decreases width,
{
    if width > 0 {
        lemma_hex_seq_writer_chars(n / 16, (width - 1) as nat);
        let d = (n % 16) as int;
        let c = hex_digit_char(d);
        if d < 10 {
            assert(('0' as int) <= c as int <= ('9' as int));
        } else {
            assert(('a' as int) <= c as int <= ('z' as int));
        }
        assert(is_writer_char(c));
        let h = hex_seq(n, width);
        assert forall|i: int| 0 <= i < h.len() implies is_writer_char(#[trigger] h[i]) by {
            if i < h.len() - 1 {
                assert(h[i] == hex_seq(n / 16, (width - 1) as nat)[i]);
            }
        }
    }
}

proof fn lemma_sanitized_writer_chars(value: Seq<char>)
    ensures
        forall|i: int| 0 <= i < sanitized_writer_seq(value).len() ==> is_writer_char(
            #[trigger] sanitized_writer_seq(value)[i],
        ),
{
    lemma_writer_chars_fixed(value);
    let once = sanitized_writer_seq(value);
    assert forall|i: int| 0 <= i < once.len() implies is_writer_char(#[trigger] once[i]) by {
        let kept = writer_chars(value);
        if kept.len() > 64 {
            assert(once[i] == kept[i]);
        }
    }
}

/// The writer identity: the sanitized override when anything of it
/// survives, else the e-mail hash with the clone disambiguator.
pub open spec fn resolved_writer_seq(
    override_value: Option<Seq<char>>,
    email: Option<Seq<char>>,
    suffix: Option<Seq<char>>,
) -> Seq<char> {
    match override_value {
        Some(v) => if sanitized_writer_seq(v).len() > 0 {
            sanitized_writer_seq(v)
        } else {
            writer_from_email_seq(email, suffix)
        },
        None => writer_from_email_seq(email, suffix),
    }
}

/// Resolve this clone's writer identity from the `HARNESS_WRITER` override,
/// the git e-mail and the clone disambiguator (each when there is one).
/// The result always names a file inside the events directory.
pub fn resolve_writer(override_value: Option<&str>, email: Option<&str>, suffix: Option<&str>) -> (writer: String)
    requires
        match suffix {
            Some(s) => writer_identity(s@),
            None => true,
        },
    ensures
        writer@ == resolved_writer_seq(
            match override_value {
                Some(v) => Some(v@),
                None => None,
            },
            match email {
                Some(e) => Some(e@),
                None => None,
            },
            match suffix {
                Some(s) => Some(s@),
                None => None,
            },
        ),
        writer_identity(writer@),
{
    match override_value {
        Some(v) => {
            match writer_override(v) {
                Some(w) => {
                    proof {
                        lemma_sanitized_writer_chars(v@);
                    }
                    return w;
                },
                None => {},
            }
        },
        None => {},
    }
    let w = writer_from_email(email, suffix);
    proof {
        let address = match email {
            Some(e) => e@,
            None => fallback_email(),
        };
        let hash = fnv_fold(
            FNV_OFFSET_BASIS,
            vstd::utf8::encode_utf8(unicode_lowercase(trim_seq(address))),
        );
        let prefix = hex_seq(hash as nat / 0x1_0000_0000, 8);
        lemma_hex_seq_writer_chars(hash as nat / 0x1_0000_0000, 8);
        match suffix {
            Some(s) => {
                let whole = prefix + seq!['-'] + s@;
                assert forall|i: int| 0 <= i < whole.len() implies is_writer_char(
                    #[trigger] whole[i],
                ) by {
                    if i < 8 {
                        assert(whole[i] == prefix[i]);
                    } else if i > 8 {
                        assert(whole[i] == s@[i - 9]);
                    }
                }
            },
            None => {},
        }
    }
    w
}

/// A fresh clone disambiguator: the low 16 bits of `hi ^ lo` as 4 hex digits.
pub fn disambiguator_suffix(hi: u64, lo: u16) -> (suffix: String)
    ensures
        suffix@ == hex_seq(((hi ^ (lo as u64)) & 0xFFFF) as nat, 4),
        writer_identity(suffix@),
{
    proof {
        lemma_hex_seq_writer_chars(((hi ^ (lo as u64)) & 0xFFFF) as nat, 4);
    }
    let mut out: Vec<char> = Vec::new();
    push_hex(&mut out, (hi ^ (lo as u64)) & 0xFFFF, 4);
    string_of(&out)
}

/// The disambiguator recorded in an existing marker file, if any survives
/// trimming and sanitizing.
pub fn disambiguator_from_marker(content: &str) -> (suffix: Option<String>)
    ensures
        match suffix {
            Some(s) => sanitized_writer_seq(trim_seq(content@)).len() > 0 && s@
                == sanitized_writer_seq(trim_seq(content@)),
            None => sanitized_writer_seq(trim_seq(content@)).len() == 0,
        },
        suffix matches Some(s) ==> writer_identity(s@),
{
    let trimmed = string_of(&trim_chars(&chars_of(content)));
    writer_override(trimmed.as_str())
}

/// The git directory named by a worktree `.git` file (`gitdir: <path>`),
/// trimmed.
pub fn gitdir_target(content: &str) -> (target: Option<String>)
    ensures
        match target {
            Some(t) => content@.len() >= 7 && content@.take(7) == "gitdir:"@ && t@ == trim_seq(
                content@.skip(7),
            ),
            None => !(content@.len() >= 7 && content@.take(7) == "gitdir:"@),
        },
{
    let chars = chars_of(content);
    let prefix = chars_of("gitdir:");
    proof {
        reveal_strlit("gitdir:");
    }
    if chars.len() < 7 {
        return None;
    }
    let mut index: usize = 0;
    while index < 7
        invariant
            index <= 7,
            chars@.len() >= 7,
            chars@ == content@,
            prefix@ == "gitdir:"@,
            prefix@.len() == 7,
            forall|j: int| 0 <= j < index ==> chars@[j] == prefix@[j],
        decreases 7 - index,
    {
        if chars[index] != prefix[index] {
            proof {
                assert(chars@.take(7)[index as int] != prefix@[index as int]);
                assert(chars@.take(7) != prefix@);
            }
            return None;
        }
        index = index + 1;
    }
    proof {
        assert(chars@.take(7) =~= prefix@);
    }
    let rest = crate::text::copy_range(&chars, 7, chars.len());
    proof {
        assert(rest@ =~= chars@.skip(7));
    }
    Some(string_of(&trim_chars(&rest)))
}

/// How `serde_json` writes one character inside a JSON string: `"` and
/// `\` backslash-escaped; backspace, tab, line feed, form feed and carriage
/// return as `\b \t \n \f \r`; the other control characters below U+0020
/// as `\u00xx` with lowercase hex digits; everything else as itself.
pub open spec fn json_escaped_char(c: char) -> Seq<char> {
    let v = c as u32;
    if c == '"' {
        seq!['\\', '"']
    } else if c == '\\' {
        seq!['\\', '\\']
    } else if v == 0x08 {
        seq!['\\', 'b']
    } else if v == 0x09 {
        seq!['\\', 't']
    } else if v == 0x0a {
        seq!['\\', 'n']
    } else if v == 0x0c {
        seq!['\\', 'f']
    } else if v == 0x0d {
        seq!['\\', 'r']
    } else if v < 0x20 {
        seq!['\\', 'u', '0', '0'] + hex_seq(v as nat, 2)
    } else {
        seq![c]
    }
}

pub open spec fn json_escaped(s: Seq<char>) -> Seq<char>
    decreases s.len(),
{
    if s.len() == 0 {
        Seq::empty()
    } else {
        json_escaped(s.drop_last()) + json_escaped_char(s.last())
    }
}

/// A JSON string literal holding `s`, as `serde_json` writes it.
pub open spec fn json_string_seq(s: Seq<char>) -> Seq<char> {
    seq!['"'] + json_escaped(s) + seq!['"']
}

/// `serde_json::to_string` of a string: the quoted, escaped JSON literal.
/// The contract restates serde_json's string escaping (its `ESCAPE` table
/// and `write_char_escape`); serializing a `str` cannot fail.
#[verifier::external_body]
pub(crate) fn json_quote(s: &str) -> (quoted: String)
    ensures
        quoted@ == json_string_seq(s@),
{
    serde_json::to_string(s).unwrap_or_default()
}

/// The canonical event log line: a JSON object with sorted keys, no
/// whitespace; `payload` and `observed` are given as their JSON text.
pub open spec fn event_line_seq(
    event_id: Seq<char>,
    writer: Seq<char>,
    recorded_at: Seq<char>,
    op: Seq<char>,
    payload_json: Seq<char>,
    observed_json: Option<Seq<char>>,
) -> Seq<char> {
    "{\"event_id\":"@ + json_string_seq(event_id) + match observed_json {
        Some(observed) => ",\"observed\":"@ + observed,
        None => Seq::empty(),
    } + ",\"op\":"@ + json_string_seq(op) + ",\"payload\":"@ + payload_json
        + ",\"recorded_at\":"@ + json_string_seq(recorded_at) + ",\"schema\":1,\"writer\":"@
        + json_string_seq(writer) + "}"@
}

proof fn lemma_concat_lacks(a: Seq<char>, b: Seq<char>, c: char)
    requires
        !a.contains(c),
        !b.contains(c),
    ensures
        !(a + b).contains(c),
{
    if (a + b).contains(c) {
        let k = choose|k: int| 0 <= k < (a + b).len() && (a + b)[k] == c;
        if k < a.len() {
            assert(a[k] == c);
        } else {
            assert(b[k - a.len()] == c);
        }
    }
}

proof fn lemma_json_escaped_single_line(s: Seq<char>)
    ensures
        !json_escaped(s).contains('\n'),
    decreases s.len(),
{
    if s.len() > 0 {
        lemma_json_escaped_single_line(s.drop_last());
        let c = s.last();
        let e = json_escaped_char(c);
        let v = c as u32;
        if c != '"' && c != '\\' && v != 0x08 && v != 0x09 && v != 0x0a && v != 0x0c && v != 0x0d
            && v < 0x20 {
            lemma_hex_seq_writer_chars(v as nat, 2);
            let h = hex_seq(v as nat, 2);
            assert(e == seq!['\\', 'u', '0', '0'] + h);
            assert(!e.contains('\n')) by {
                if e.contains('\n') {
                    let k = choose|k: int| 0 <= k < e.len() && e[k] == '\n';
                    if k >= 4 {
                        assert(h[k - 4] == e[k]);
                    }
                }
            }
        } else {
            assert(!e.contains('\n')) by {
                if e.contains('\n') {
                    let k = choose|k: int| 0 <= k < e.len() && e[k] == '\n';
                }
            }
        }
        lemma_concat_lacks(json_escaped(s.drop_last()), e, '\n');
    }
}

proof fn lemma_json_string_single_line(s: Seq<char>)
    ensures
        !json_string_seq(s).contains('\n'),
{
    lemma_json_escaped_single_line(s);
    assert(!seq!['"'].contains('\n')) by {
        if seq!['"'].contains('\n') {
            let k = choose|k: int| 0 <= k < 1 && seq!['"'][k] == '\n';
        }
    }
    lemma_concat_lacks(seq!['"'], json_escaped(s), '\n');
    lemma_concat_lacks(seq!['"'] + json_escaped(s), seq!['"'], '\n');
}

proof fn lemma_literal_single_line(s: Seq<char>)
    requires
        forall|i: int| 0 <= i < s.len() ==> s[i] != '\n',
    ensures
        !s.contains('\n'),
{
}

/// An event line is one line: with a payload (and an observed snapshot)
/// free of raw line feeds, the whole line holds none, since every string
/// it quotes is escaped.
proof fn lemma_event_line_single_line(
    event_id: Seq<char>,
    writer: Seq<char>,
    recorded_at: Seq<char>,
    op: Seq<char>,
    payload_json: Seq<char>,
    observed_json: Option<Seq<char>>,
)
    requires
        !payload_json.contains('\n'),
        observed_json matches Some(o) ==> !o.contains('\n'),
    ensures
        !event_line_seq(event_id, writer, recorded_at, op, payload_json, observed_json).contains('\n'),
{
    reveal_strlit("{\"event_id\":");
    reveal_strlit(",\"observed\":");
    reveal_strlit(",\"op\":");
    reveal_strlit(",\"payload\":");
    reveal_strlit(",\"recorded_at\":");
    reveal_strlit(",\"schema\":1,\"writer\":");
    reveal_strlit("}");
    lemma_literal_single_line("{\"event_id\":"@);
    lemma_literal_single_line(",\"observed\":"@);
    lemma_literal_single_line(",\"op\":"@);
    lemma_literal_single_line(",\"payload\":"@);
    lemma_literal_single_line(",\"recorded_at\":"@);
    lemma_literal_single_line(",\"schema\":1,\"writer\":"@);
    lemma_literal_single_line("}"@);
    lemma_json_string_single_line(event_id);
    lemma_json_string_single_line(writer);
    lemma_json_string_single_line(recorded_at);
    lemma_json_string_single_line(op);
    let observed_part = match observed_json {
        Some(observed) => ",\"observed\":"@ + observed,
        None => Seq::empty(),
    };
    match observed_json {
        Some(observed) => lemma_concat_lacks(",\"observed\":"@, observed, '\n'),
        None => {},
    }
    let p1 = "{\"event_id\":"@ + json_string_seq(event_id);
    lemma_concat_lacks("{\"event_id\":"@, json_string_seq(event_id), '\n');
    lemma_concat_lacks(p1, observed_part, '\n');
    let p2 = p1 + observed_part;
    lemma_concat_lacks(p2, ",\"op\":"@, '\n');
    let p3 = p2 + ",\"op\":"@;
    lemma_concat_lacks(p3, json_string_seq(op), '\n');
    let p4 = p3 + json_string_seq(op);
    lemma_concat_lacks(p4, ",\"payload\":"@, '\n');
    let p5 = p4 + ",\"payload\":"@;
    lemma_concat_lacks(p5, payload_json, '\n');
    let p6 = p5 + payload_json;
    lemma_concat_lacks(p6, ",\"recorded_at\":"@, '\n');
    let p7 = p6 + ",\"recorded_at\":"@;
    lemma_concat_lacks(p7, json_string_seq(recorded_at), '\n');
    let p8 = p7 + json_string_seq(recorded_at);
    lemma_concat_lacks(p8, ",\"schema\":1,\"writer\":"@, '\n');
    let p9 = p8 + ",\"schema\":1,\"writer\":"@;
    lemma_concat_lacks(p9, json_string_seq(writer), '\n');
    let p10 = p9 + json_string_seq(writer);
    lemma_concat_lacks(p10, "}"@, '\n');
    assert(event_line_seq(event_id, writer, recorded_at, op, payload_json, observed_json) == p10
        + "}"@);
}

impl EventLog {
    /// Serialize an event to its canonical log line (sorted keys).
    /// `observed_json` is the writer's per-writer consumed-count snapshot
    /// at append time (the causal-audit signal), absent on genesis events.
    pub fn event_line(
        event_id: &str,
        writer: &str,
        recorded_at: &str,
        op: &str,
        payload_json: &str,
        observed_json: Option<&str>,
    ) -> (line: String)
        ensures
            line@ == event_line_seq(
                event_id@,
                writer@,
                recorded_at@,
                op@,
                payload_json@,
                match observed_json {
                    Some(o) => Some(o@),
                    None => None,
                },
            ),
            (!payload_json@.contains('\n') && (observed_json matches Some(o) ==> !o@.contains(
                '\n',
            ))) ==> !line@.contains('\n'),
    {
        proof {
            if !payload_json@.contains('\n') && (observed_json matches Some(o) ==> !o@.contains(
                '\n',
            )) {
                lemma_event_line_single_line(
                    event_id@,
                    writer@,
                    recorded_at@,
                    op@,
                    payload_json@,
                    match observed_json {
                        Some(o) => Some(o@),
                        None => None,
                    },
                );
            }
        }
        let mut out: Vec<char> = Vec::new();
        push_str(&mut out, "{\"event_id\":");
        push_str(&mut out, json_quote(event_id).as_str());
        match observed_json {
            Some(observed) => {
                push_str(&mut out, ",\"observed\":");
                push_str(&mut out, observed);
            },
            None => {},
        }
        push_str(&mut out, ",\"op\":");
        push_str(&mut out, json_quote(op).as_str());
        push_str(&mut out, ",\"payload\":");
        push_str(&mut out, payload_json);
        push_str(&mut out, ",\"recorded_at\":");
        push_str(&mut out, json_quote(recorded_at).as_str());
        push_str(&mut out, ",\"schema\":1,\"writer\":");
        push_str(&mut out, json_quote(writer).as_str());
        push_str(&mut out, "}");
        assert(out@ =~= event_line_seq(
            event_id@,
            writer@,
            recorded_at@,
            op@,
            payload_json@,
            match observed_json {
                Some(o) => Some(o@),
                None => None,
            },
        ));
        string_of(&out)
    }
}

} // verus!
