use vstd::prelude::*;

use crate::fnv::{
    fnv1a64, fnv1a64_continue, fnv_fold, lemma_fnv_fold_append, FNV_OFFSET_BASIS, FNV_PRIME,
};
use crate::text::{chars_of, hex_digit_char, hex_seq, push_hex, string_of};
use vstd::utf8::encode_utf8;

verus! {

/// How far the cache has consumed one writer's log file (an
/// `event_watermark` row).
pub struct Watermark {
    pub file: String,
    pub consumed_count: i64,
    pub file_size: i64,
    pub file_mtime_ns: i64,
    pub content_hash: String,
}

pub open spec fn watermark_view(w: Watermark) -> (Seq<char>, int, int, int, Seq<char>) {
    (w.file@, w.consumed_count as int, w.file_size as int, w.file_mtime_ns as int, w.content_hash@)
}

/// The number of non-empty lines in `bytes`: the positions that start one
/// (a byte other than `\n` at the start or right after a `\n`).
pub open spec fn line_count(bytes: Seq<u8>) -> nat
    decreases bytes.len(),
{
    if bytes.len() == 0 {
        0
    } else {
        let n = bytes.len() - 1;
        line_count(bytes.drop_last()) + if bytes[n] != 10 && (n == 0 || bytes[n - 1] == 10) {
            1nat
        } else {
            0nat
        }
    }
}

proof fn lemma_line_count_bound(bytes: Seq<u8>)
    ensures
        line_count(bytes) <= bytes.len(),
    decreases bytes.len(),
{
    if bytes.len() > 0 {
        lemma_line_count_bound(bytes.drop_last());
    }
}

/// Count the non-empty lines of a log file.
pub fn count_lines(bytes: &[u8]) -> (count: usize)
    ensures
        count == line_count(bytes@),
{
    let mut count: usize = 0;
    let mut i: usize = 0;
    while i < bytes.len()
        invariant
            i <= bytes@.len(),
            count == line_count(bytes@.take(i as int)),
        decreases bytes@.len() - i,
    {
        proof {
            assert(bytes@.take(i as int + 1).drop_last() =~= bytes@.take(i as int));
            lemma_line_count_bound(bytes@.take(i as int));
        }
        if bytes[i] != 10 && (i == 0 || bytes[i - 1] == 10) {
            count = count + 1;
        }
        i = i + 1;
    }
    proof {
        assert(bytes@.take(i as int) =~= bytes@);
    }
    count
}

/// A hash as the watermark stores it: 16 lowercase hex digits.
pub open spec fn hash_text(hash: u64) -> Seq<char> {
    hex_seq(hash as nat, 16)
}

pub fn hash_string(hash: u64) -> (text: String)
    ensures
        text@ == hash_text(hash),
{
    let mut out: Vec<char> = Vec::new();
    push_hex(&mut out, hash, 16);
    assert(out@ =~= hash_text(hash));
    string_of(&out)
}

/// The watermark of a file wholly consumed.
pub open spec fn full_watermark(file: Seq<char>, bytes: Seq<u8>, mtime_ns: int) -> (
    Seq<char>,
    int,
    int,
    int,
    Seq<char>,
) {
    (file, line_count(bytes) as int, bytes.len() as int, mtime_ns, hash_text(fnv_fold(FNV_OFFSET_BASIS, bytes)))
}

/// Record a log file as fully consumed.
pub fn watermark_for(file: String, bytes: &[u8], mtime_ns: i64) -> (watermark: Watermark)
    requires
        bytes@.len() <= i64::MAX,
    ensures
        watermark_view(watermark) == full_watermark(file@, bytes@, mtime_ns as int),
{
    let count = count_lines(bytes);
    proof {
        lemma_line_count_bound(bytes@);
    }
    Watermark {
        file,
        consumed_count: count as i64,
        file_size: bytes.len() as i64,
        file_mtime_ns: mtime_ns,
        content_hash: hash_string(fnv1a64(bytes)),
    }
}

/// The stat short-circuit: a file whose size and mtime match its watermark
/// has nothing new.
pub fn stat_matches(watermark: &Watermark, size: i64, mtime_ns: i64) -> (matches: bool)
    ensures
        matches == (watermark.file_size == size && watermark.file_mtime_ns == mtime_ns),
{
    watermark.file_size == size && watermark.file_mtime_ns == mtime_ns
}

/// What replay does with one log file whose stat changed (or that has no
/// watermark yet).
pub enum FileSync {
    /// Replay the lines of `bytes[start..]`, numbering them from
    /// `first_line`, then record `watermark`.
    Append { start: usize, first_line: i64, watermark: Watermark },
    /// The file shrank or its consumed prefix changed: the log is the
    /// truth, so the cache is rebuilt from it.
    Diverged,
}

/// The bytes of the file already consumed according to `file_size`.
pub open spec fn consumed_bytes(file_size: int) -> int {
    if file_size < 0 {
        0
    } else {
        file_size
    }
}

/// A watermarked file may be replayed incrementally when its consumed
/// prefix is still there, unchanged (by its hash).
pub open spec fn prefix_intact(watermark: Watermark, bytes: Seq<u8>) -> bool {
    let consumed = consumed_bytes(watermark.file_size as int);
    consumed <= bytes.len() && hash_text(fnv_fold(FNV_OFFSET_BASIS, bytes.take(consumed)))
        == watermark.content_hash@
}

/// Decide how to catch the cache up with one log file: a new file is
/// replayed whole; a watermarked one from where it was consumed, if that
/// prefix is intact.
pub fn sync_log_file(watermark: &Option<Watermark>, file: String, bytes: &[u8], mtime_ns: i64) -> (sync:
    FileSync)
    requires
        bytes@.len() <= i64::MAX,
        watermark is Some ==> watermark->0.consumed_count + bytes@.len() <= i64::MAX,
    ensures
        match *watermark {
            None => match sync {
                FileSync::Append { start, first_line, watermark: w } => {
                    &&& start == 0
                    &&& first_line == 0
                    &&& watermark_view(w) == full_watermark(file@, bytes@, mtime_ns as int)
                },
                FileSync::Diverged => false,
            },
            Some(old) => if prefix_intact(old, bytes@) {
                match sync {
                    FileSync::Append { start, first_line, watermark: w } => {
                        let consumed = consumed_bytes(old.file_size as int);
                        &&& start == consumed
                        &&& first_line == old.consumed_count
                        &&& watermark_view(w) == (
                            file@,
                            old.consumed_count + line_count(bytes@.skip(consumed)),
                            bytes@.len() as int,
                            mtime_ns as int,
                            hash_text(fnv_fold(FNV_OFFSET_BASIS, bytes@)),
                        )
                    },
                    FileSync::Diverged => false,
                }
            } else {
                sync is Diverged
            },
        },
{
    match watermark {
        None => FileSync::Append { start: 0, first_line: 0, watermark: watermark_for(file, bytes, mtime_ns) },
        Some(old) => {
            let consumed: i64 = if old.file_size < 0 {
                0
            } else {
                old.file_size
            };
            if consumed > bytes.len() as i64 {
                return FileSync::Diverged;
            }
            let start = consumed as usize;
            let prefix = slice_prefix(bytes, start);
            let prefix_hash = hash_string(fnv1a64(prefix));
            if prefix_hash != old.content_hash {
                return FileSync::Diverged;
            }
            let rest = slice_suffix(bytes, start);
            let added = count_lines(rest);
            proof {
                lemma_line_count_bound(bytes@.skip(start as int));
            }
            FileSync::Append {
                start,
                first_line: old.consumed_count,
                watermark: Watermark {
                    file,
                    consumed_count: old.consumed_count + added as i64,
                    file_size: bytes.len() as i64,
                    file_mtime_ns: mtime_ns,
                    content_hash: hash_string(fnv1a64(bytes)),
                },
            }
        },
    }
}

fn slice_prefix(bytes: &[u8], end: usize) -> (prefix: &[u8])
    requires
        end <= bytes@.len(),
    ensures
        prefix@ == bytes@.take(end as int),
{
    let (prefix, _) = bytes.split_at(end);
    prefix
}

fn slice_suffix(bytes: &[u8], start: usize) -> (suffix: &[u8])
    requires
        start <= bytes@.len(),
    ensures
        suffix@ == bytes@.skip(start as int),
{
    let (_, suffix) = bytes.split_at(start);
    suffix
}

/// The value of a hexadecimal digit (either case).
pub open spec fn hex_digit_value(c: char) -> Option<int> {
    if '0' <= c && c <= '9' {
        Some(c as int - 48)
    } else if 'a' <= c && c <= 'f' {
        Some(c as int - 87)
    } else if 'A' <= c && c <= 'F' {
        Some(c as int - 55)
    } else {
        None
    }
}

/// The value of a run of hexadecimal digits, if they all are.
pub open spec fn hex_digits_value(s: Seq<char>) -> Option<int>
    decreases s.len(),
{
    if s.len() == 0 {
        Some(0)
    } else {
        match (hex_digits_value(s.drop_last()), hex_digit_value(s.last())) {
            (Some(v), Some(d)) => Some(v * 16 + d),
            _ => None,
        }
    }
}

/// `u64::from_str_radix(s, 16)`: an optional `+`, then at least one hex
/// digit, with a value that fits.
pub open spec fn parse_hex_seq(s: Seq<char>) -> Option<u64> {
    let digits = if s.len() > 0 && s[0] == '+' {
        s.drop_first()
    } else {
        s
    };
    if digits.len() == 0 {
        None
    } else {
        match hex_digits_value(digits) {
            Some(v) => if v <= u64::MAX {
                Some(v as u64)
            } else {
                None
            },
            None => None,
        }
    }
}

proof fn lemma_hex_digits_nonnegative(s: Seq<char>)
    ensures
        hex_digits_value(s) is Some ==> hex_digits_value(s)->0 >= 0,
    decreases s.len(),
{
    if s.len() > 0 {
        lemma_hex_digits_nonnegative(s.drop_last());
    }
}

/// Once a prefix's value is past `u64::MAX`, so is every longer one.
proof fn lemma_hex_digits_grow(s: Seq<char>, i: int)
    requires
        0 <= i <= s.len(),
        hex_digits_value(s) is Some,
    ensures
        hex_digits_value(s.take(i)) is Some,
        hex_digits_value(s.take(i))->0 <= hex_digits_value(s)->0,
    decreases s.len() - i,
{
    lemma_hex_digits_nonnegative(s.take(i));
    if i < s.len() {
        lemma_hex_digits_grow(s, i + 1);
        assert(s.take(i + 1).drop_last() =~= s.take(i));
        lemma_hex_digits_nonnegative(s.take(i + 1));
    } else {
        assert(s.take(i) =~= s);
    }
}

fn hex_digit_of(c: char) -> (d: Option<u64>)
    ensures
        match hex_digit_value(c) {
            Some(v) => d == Some(v as u64),
            None => d is None,
        },
{
    if '0' <= c && c <= '9' {
        Some((c as u64) - 48)
    } else if 'a' <= c && c <= 'f' {
        Some((c as u64) - 87)
    } else if 'A' <= c && c <= 'F' {
        Some((c as u64) - 55)
    } else {
        None
    }
}

/// Read a stored hash back (`u64::from_str_radix(s, 16)`).
pub fn parse_hex(s: &str) -> (value: Option<u64>)
    ensures
        value == parse_hex_seq(s@),
{
    let chars = chars_of(s);
    let start: usize = if chars.len() > 0 && chars[0] == '+' {
        1
    } else {
        0
    };
    let ghost digits = if s@.len() > 0 && s@[0] == '+' {
        s@.drop_first()
    } else {
        s@
    };
    assert(digits =~= chars@.skip(start as int));
    if start == chars.len() {
        return None;
    }
    let mut value: u64 = 0;
    let mut i: usize = start;
    while i < chars.len()
        invariant
            start <= i <= chars@.len(),
            chars@ == s@,
            digits == chars@.skip(start as int),
            digits == (if s@.len() > 0 && s@[0] == '+' {
                s@.drop_first()
            } else {
                s@
            }),
            digits.len() > 0,
            hex_digits_value(digits.take(i - start)) == Some(value as int),
        decreases chars@.len() - i,
    {
        let ghost k = (i - start) as int;
        proof {
            assert(digits.take(k + 1).drop_last() =~= digits.take(k));
            assert(digits.take(k + 1).last() == chars@[i as int]);
        }
        match hex_digit_of(chars[i]) {
            None => {
                proof {
                    assert(hex_digits_value(digits.take(k + 1)) is None);
                    if hex_digits_value(digits) is Some {
                        lemma_hex_digits_grow(digits, k + 1);
                    }
                    assert(hex_digits_value(digits) is None);

                }
                return None;
            },
            Some(d) => {
                if value > (u64::MAX - d) / 16 {
                    proof {
                        assert(value * 16 + d > u64::MAX) by (nonlinear_arith)
                            requires
                                value > (u64::MAX - d) / 16,
                                d < 16,
                        ;
                        assert(hex_digits_value(digits.take(k + 1)) == Some(value * 16 + d));
                        if hex_digits_value(digits) is Some {
                            lemma_hex_digits_grow(digits, k + 1);
                        }
                    }
                    return None;
                }
                proof {
                    assert(value * 16 + d <= u64::MAX) by (nonlinear_arith)
                        requires
                            value <= (u64::MAX - d) / 16,
                            d < 16,
                    ;
                }
                value = value * 16 + d;
            },
        }
        i = i + 1;
    }
    proof {
        assert(digits.take(i - start) =~= digits);
    }
    Some(value)
}

pub open spec fn pow16(n: nat) -> int
    decreases n,
{
    if n == 0 {
        1
    } else {
        16 * pow16((n - 1) as nat)
    }
}

proof fn lemma_hex_seq_value(n: nat, width: nat)
    ensures
        hex_digits_value(hex_seq(n, width)) == Some((n % pow16(width) as nat) as int),
        pow16(width) > 0,
    decreases width,
{
    if width == 0 {
        assert(hex_seq(n, 0) =~= Seq::<char>::empty());
    } else {
        lemma_hex_seq_value(n / 16, (width - 1) as nat);
        let d = (n % 16) as int;
        assert(hex_digit_value(hex_digit_char(d)) == Some(d));
        let p = pow16((width - 1) as nat);
        vstd::arithmetic::div_mod::lemma_breakdown(n as int, 16, p);
        assert(hex_seq(n, width).drop_last() =~= hex_seq(n / 16, (width - 1) as nat));
        assert(((n / 16) % (p as nat)) as int * 16 + d == 16 * ((n as int / 16) % p) + (n as int) % 16);
    }
}

/// A stored hash reads back as the hash that was written.
pub proof fn law_hash_text_round_trip(hash: u64)
    ensures
        parse_hex_seq(hash_text(hash)) == Some(hash),
{
    lemma_hex_seq_value(hash as nat, 16);
    assert(pow16(16) == 0x1_0000_0000_0000_0000int) by {
        reveal_with_fuel(pow16, 17);
    }
    vstd::arithmetic::div_mod::lemma_small_mod(hash as nat, pow16(16) as nat);
    let text = hash_text(hash);
    assert(text.len() == 16) by {
        lemma_hex_seq_len(hash as nat, 16);
    }
    assert(text[0] != '+') by {
        lemma_hex_seq_chars(hash as nat, 16, 0);
    }
}

proof fn lemma_hex_seq_len(n: nat, width: nat)
    ensures
        hex_seq(n, width).len() == width,
    decreases width,
{
    if width > 0 {
        lemma_hex_seq_len(n / 16, (width - 1) as nat);
    }
}

proof fn lemma_hex_seq_chars(n: nat, width: nat, i: int)
    requires
        0 <= i < width,
    ensures
        hex_digit_value(hex_seq(n, width)[i]) is Some,
    decreases width,
{
    lemma_hex_seq_len(n / 16, (width - 1) as nat);
    if i < width - 1 {
        lemma_hex_seq_chars(n / 16, (width - 1) as nat, i);
    } else {
        let d = (n % 16) as int;
        assert(hex_digit_value(hex_digit_char(d)) is Some);
    }
}

pub open spec fn opt_watermark_view(w: Option<Watermark>) -> Option<(Seq<char>, int, int, int, Seq<char>)> {
    match w {
        Some(w) => Some(watermark_view(w)),
        None => None,
    }
}

/// The bytes one appended event line adds to its file: the line, then a
/// newline.
pub open spec fn appended_bytes(line: Seq<char>) -> Seq<u8> {
    encode_utf8(line).push(10)
}

/// The writer's watermark after appending `line`: one more line, the
/// appended bytes more, and the stored hash continued over them (a stored
/// hash that does not read back restarts from the FNV offset basis).
pub open spec fn advanced_watermark(
    previous: Option<(Seq<char>, int, int, int, Seq<char>)>,
    file: Seq<char>,
    line: Seq<char>,
    mtime_ns: int,
) -> (Seq<char>, int, int, int, Seq<char>) {
    let (count, size, hash) = match previous {
        Some(w) => (
            w.1,
            w.2,
            match parse_hex_seq(w.4) {
                Some(h) => h,
                None => FNV_OFFSET_BASIS,
            },
        ),
        None => (0, 0, FNV_OFFSET_BASIS),
    };
    (
        file,
        count + 1,
        size + appended_bytes(line).len(),
        mtime_ns,
        hash_text(fnv_fold(hash, appended_bytes(line))),
    )
}

/// Advance this writer's watermark over the line just appended to its file.
pub fn advance_watermark(previous: &Option<Watermark>, file: String, line: &str, mtime_ns: i64) -> (watermark:
    Watermark)
    requires
        encode_utf8(line@).len() < i64::MAX,
        previous is Some ==> previous->0.consumed_count < i64::MAX,
        previous is Some ==> previous->0.file_size + encode_utf8(line@).len() + 1 <= i64::MAX,
    ensures
        watermark_view(watermark) == advanced_watermark(
            opt_watermark_view(*previous),
            file@,
            line@,
            mtime_ns as int,
        ),
{
    let (count, size, hash): (i64, i64, u64) = match previous {
        Some(w) => (
            w.consumed_count,
            w.file_size,
            match parse_hex(w.content_hash.as_str()) {
                Some(h) => h,
                None => FNV_OFFSET_BASIS,
            },
        ),
        None => (0, 0, FNV_OFFSET_BASIS),
    };
    let bytes = line.as_bytes();
    let body = fnv1a64_continue(hash, bytes);
    let whole = (body ^ 10u64).wrapping_mul(FNV_PRIME);
    proof {
        let appended = appended_bytes(line@);
        assert(appended.drop_last() =~= bytes@);
        assert(whole == fnv_fold(hash, appended));
    }
    let added = bytes.len() as i64 + 1;
    Watermark {
        file,
        consumed_count: count + 1,
        file_size: size + added,
        file_mtime_ns: mtime_ns,
        content_hash: hash_string(whole),
    }
}

proof fn lemma_line_count_concat(a: Seq<u8>, b: Seq<u8>)
    requires
        a.len() == 0 || a.last() == 10,
    ensures
        line_count(a + b) == line_count(a) + line_count(b),
    decreases b.len(),
{
    if b.len() == 0 {
        assert(a + b =~= a);
    } else {
        lemma_line_count_concat(a, b.drop_last());
        assert((a + b).drop_last() =~= a + b.drop_last());
        let n = (a + b).len() - 1;
        let m = b.len() - 1;
        assert((a + b)[n] == b[m]);
        if m > 0 {
            assert((a + b)[n - 1] == b[m - 1]);
        } else if a.len() > 0 {
            assert((a + b)[n - 1] == a.last());
        }
    }
}

proof fn lemma_line_count_single_line(bytes: Seq<u8>)
    requires
        bytes.len() > 0,
        !bytes.contains(10),
    ensures
        line_count(bytes) == 1,
        line_count(bytes.push(10)) == 1,
    decreases bytes.len(),
{
    let n = bytes.len() - 1;
    assert(bytes[n] != 10) by {
        if bytes[n] == 10 {
            assert(bytes.contains(10));
        }
    }
    if n > 0 {
        let rest = bytes.drop_last();
        assert(!rest.contains(10)) by {
            if rest.contains(10) {
                let k = choose|k: int| 0 <= k < rest.len() && rest[k] == 10;
                assert(bytes[k] == 10);
            }
        }
        lemma_line_count_single_line(rest);
        assert(bytes[n - 1] != 10) by {
            if bytes[n - 1] == 10 {
                assert(bytes.contains(10));
            }
        }
        assert(line_count(bytes) == line_count(rest));
    } else {
        assert(bytes.drop_last() =~= Seq::<u8>::empty());
        assert(line_count(bytes.drop_last()) == 0);
        assert(line_count(bytes) == 1);
    }
    let pushed = bytes.push(10);
    assert(pushed.drop_last() =~= bytes);
    assert(pushed[pushed.len() - 1] == 10);
    assert(line_count(pushed) == line_count(bytes));
}

/// Appending an event line keeps the writer's watermark equal to the one
/// recomputed from the file: when the stored watermark is that of the file
/// so far (whole lines), the advanced one is that of the file with the
/// line appended — count, size and hash alike.
pub proof fn law_advanced_watermark_matches_file(
    file: Seq<char>,
    contents: Seq<u8>,
    line: Seq<char>,
    old_mtime_ns: int,
    mtime_ns: int,
)
    requires
        contents.len() == 0 || contents.last() == 10,
        encode_utf8(line).len() > 0,
        !encode_utf8(line).contains(10),
    ensures
        advanced_watermark(Some(full_watermark(file, contents, old_mtime_ns)), file, line, mtime_ns)
            == full_watermark(file, contents + appended_bytes(line), mtime_ns),
{
    let appended = appended_bytes(line);
    law_hash_text_round_trip(fnv_fold(FNV_OFFSET_BASIS, contents));
    lemma_fnv_fold_append(FNV_OFFSET_BASIS, contents, appended);
    lemma_line_count_concat(contents, appended);
    lemma_line_count_single_line(encode_utf8(line));
}

/// The first append to a writer's file (absent or empty, with no stored
/// watermark) records the watermark of the file holding just that line.
pub proof fn law_first_append_watermark_matches_file(file: Seq<char>, line: Seq<char>, mtime_ns: int)
    requires
        encode_utf8(line).len() > 0,
        !encode_utf8(line).contains(10),
    ensures
        advanced_watermark(None, file, line, mtime_ns) == full_watermark(
            file,
            appended_bytes(line),
            mtime_ns,
        ),
{
    lemma_line_count_single_line(encode_utf8(line));
}

/// Incremental replay agrees with a full scan: when a file's watermark is
/// that of its contents so far (whole lines) and lines are then appended,
/// the consumed prefix is found intact, replay starts right after it, and
/// the watermark it records is the one a full scan of the grown file gives.
pub proof fn law_incremental_sync_matches_full_scan(
    watermark: Watermark,
    file: Seq<char>,
    contents: Seq<u8>,
    appended: Seq<u8>,
    old_mtime_ns: int,
    mtime_ns: int,
)
    requires
        watermark_view(watermark) == full_watermark(file, contents, old_mtime_ns),
        contents.len() == 0 || contents.last() == 10,
    ensures
        prefix_intact(watermark, contents + appended),
        consumed_bytes(watermark.file_size as int) == contents.len(),
        (
            file,
            watermark.consumed_count + line_count((contents + appended).skip(contents.len() as int)),
            (contents + appended).len() as int,
            mtime_ns,
            hash_text(fnv_fold(FNV_OFFSET_BASIS, contents + appended)),
        ) == full_watermark(file, contents + appended, mtime_ns),
{
    let grown = contents + appended;
    assert(grown.take(contents.len() as int) =~= contents);
    assert(grown.skip(contents.len() as int) =~= appended);
    lemma_line_count_concat(contents, appended);
}

/// A log file as listed on disk.
pub struct FileStat {
    pub file: String,
    pub size: i64,
    pub mtime_ns: i64,
}

/// The watermark recorded for `file`, if any.
pub open spec fn watermark_of(watermarks: Seq<Watermark>, file: Seq<char>) -> Option<Watermark>
    decreases watermarks.len(),
{
    if watermarks.len() == 0 {
        None
    } else if watermarks[0].file@ == file {
        Some(watermarks[0])
    } else {
        watermark_of(watermarks.drop_first(), file)
    }
}

/// A log file holds events the cache has not consumed: it has no
/// watermark, or its size or mtime moved since.
pub open spec fn file_unconsumed(watermarks: Seq<Watermark>, stat: FileStat) -> bool {
    match watermark_of(watermarks, stat.file@) {
        None => true,
        Some(w) => w.file_size != stat.size || w.file_mtime_ns != stat.mtime_ns,
    }
}

/// A watermarked file is gone from the log.
pub open spec fn watermark_vanished(files: Seq<Seq<char>>, watermark_files: Seq<Seq<char>>) -> bool {
    exists|j: int| 0 <= j < watermark_files.len() && !files.contains(#[trigger] watermark_files[j])
}

pub open spec fn stat_names(files: Seq<FileStat>) -> Seq<Seq<char>> {
    files.map_values(|f: FileStat| f.file@)
}

pub open spec fn watermark_names(watermarks: Seq<Watermark>) -> Seq<Seq<char>> {
    watermarks.map_values(|w: Watermark| w.file@)
}

proof fn lemma_watermark_of_skip(watermarks: Seq<Watermark>, file: Seq<char>, i: int)
    requires
        0 <= i <= watermarks.len(),
        forall|j: int| 0 <= j < i ==> watermarks[j].file@ != file,
    ensures
        watermark_of(watermarks, file) == watermark_of(watermarks.skip(i), file),
    decreases i,
{
    if i == 0 {
        assert(watermarks.skip(0) =~= watermarks);
    } else {
        lemma_watermark_of_skip(watermarks.drop_first(), file, i - 1);
        assert(watermarks.drop_first().skip(i - 1) =~= watermarks.skip(i));
    }
}

fn find_watermark(watermarks: &Vec<Watermark>, file: &String) -> (index: Option<usize>)
    ensures
        match index {
            Some(i) => i < watermarks@.len() && watermark_of(watermarks@, file@) == Some(
                watermarks@[i as int],
            ),
            None => watermark_of(watermarks@, file@) is None,
        },
{
    let mut i: usize = 0;
    while i < watermarks.len()
        invariant
            i <= watermarks@.len(),
            forall|j: int| 0 <= j < i ==> watermarks@[j].file@ != file@,
        decreases watermarks@.len() - i,
    {
        if watermarks[i].file == *file {
            proof {
                lemma_watermark_of_skip(watermarks@, file@, i as int);
            }
            return Some(i);
        }
        i = i + 1;
    }
    proof {
        lemma_watermark_of_skip(watermarks@, file@, i as int);
    }
    None
}

fn contains_name(names: &Vec<String>, name: &String) -> (found: bool)
    ensures
        found == names@.map_values(|s: String| s@).contains(name@),
{
    let ghost views = names@.map_values(|s: String| s@);
    let mut i: usize = 0;
    while i < names.len()
        invariant
            i <= names@.len(),
            views == names@.map_values(|s: String| s@),
            forall|j: int| 0 <= j < i ==> names@[j]@ != name@,
        decreases names@.len() - i,
    {
        if names[i] == *name {
            proof {
                assert(views[i as int] == name@);
            }
            return true;
        }
        i = i + 1;
    }
    proof {
        if views.contains(name@) {
            let k = choose|k: int| 0 <= k < views.len() && views[k] == name@;
            assert(names@[k]@ == name@);
        }
    }
    false
}

/// Whether some watermarked file no longer exists among `files`: the cache
/// then holds events the log has dropped, and is rebuilt.
pub fn vanished_watermark(files: &Vec<String>, watermark_files: &Vec<String>) -> (vanished: bool)
    ensures
        vanished == watermark_vanished(
            files@.map_values(|s: String| s@),
            watermark_files@.map_values(|s: String| s@),
        ),
{
    let ghost listed = files@.map_values(|s: String| s@);
    let ghost marked = watermark_files@.map_values(|s: String| s@);
    let mut j: usize = 0;
    while j < watermark_files.len()
        invariant
            j <= watermark_files@.len(),
            listed == files@.map_values(|s: String| s@),
            marked == watermark_files@.map_values(|s: String| s@),
            forall|k: int| 0 <= k < j ==> listed.contains(#[trigger] marked[k]),
        decreases watermark_files@.len() - j,
    {
        if !contains_name(files, &watermark_files[j]) {
            proof {
                assert(!listed.contains(marked[j as int]));
            }
            return true;
        }
        j = j + 1;
    }
    false
}

/// Whether the log holds events the cache has not consumed (read only: it
/// reports pending work, as `info` does, and changes nothing).
pub fn cache_behind_log(files: &Vec<FileStat>, watermarks: &Vec<Watermark>) -> (behind: bool)
    ensures
        behind == ((exists|i: int| 0 <= i < files@.len() && file_unconsumed(watermarks@, #[trigger] files@[i]))
            || watermark_vanished(stat_names(files@), watermark_names(watermarks@))),
{
    let mut i: usize = 0;
    let mut names: Vec<String> = Vec::new();
    while i < files.len()
        invariant
            i <= files@.len(),
            names@.map_values(|s: String| s@) == stat_names(files@.take(i as int)),
            forall|k: int| 0 <= k < i ==> !file_unconsumed(watermarks@, #[trigger] files@[k]),
        decreases files@.len() - i,
    {
        let stat = &files[i];
        match find_watermark(watermarks, &stat.file) {
            None => {
                return true;
            },
            Some(w) => {
                if watermarks[w].file_size != stat.size || watermarks[w].file_mtime_ns != stat.mtime_ns {
                    return true;
                }
            },
        }
        let ghost before = names@;
        names.push(stat.file.clone());
        proof {
            assert(names@.map_values(|s: String| s@) =~= before.map_values(|s: String| s@).push(stat.file@));
            assert(files@.take(i as int + 1) =~= files@.take(i as int).push(files@[i as int]));
            assert(stat_names(files@.take(i as int + 1)) =~= stat_names(files@.take(i as int)).push(stat.file@));
        }
        i = i + 1;
    }
    let mut marked: Vec<String> = Vec::new();
    let mut j: usize = 0;
    while j < watermarks.len()
        invariant
            j <= watermarks@.len(),
            marked@.map_values(|s: String| s@) == watermark_names(watermarks@.take(j as int)),
        decreases watermarks@.len() - j,
    {
        let ghost before = marked@;
        marked.push(watermarks[j].file.clone());
        proof {
            assert(marked@.map_values(|s: String| s@) =~= before.map_values(|s: String| s@).push(watermarks@[j as int].file@));
            assert(watermarks@.take(j as int + 1) =~= watermarks@.take(j as int).push(watermarks@[j as int]));
            assert(watermark_names(watermarks@.take(j as int + 1)) =~= watermark_names(watermarks@.take(j as int)).push(watermarks@[j as int].file@));
        }
        j = j + 1;
    }
    proof {
        assert(files@.take(i as int) =~= files@);
        assert(watermarks@.take(j as int) =~= watermarks@);
    }
    vanished_watermark(&names, &marked)
}

} // verus!
