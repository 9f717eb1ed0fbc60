use vstd::prelude::*;

verus! {

/// The characters of `s`, in order, gathered from `str::chars`.
pub(crate) fn chars_of(s: &str) -> (chars: Vec<char>)
    ensures
        chars@ == s@,
{
    broadcast use vstd::string::group_string_axioms;

    let mut out: Vec<char> = Vec::new();
    for c in it: s.chars()
        invariant
            it.seq() == s@,
            out@ == s@.take(it.index()),
    {
        proof {
            assert(s@.take(it.index() + 1) =~= s@.take(it.index()).push(c));
        }
        out.push(c);
    }
    assert(out@ =~= s@);
    out
}

/// `String: FromIterator<&char>` (collecting the characters): the contract
/// claims the string holds exactly those characters, in order.
#[verifier::external_body]
pub(crate) fn string_of(chars: &Vec<char>) -> (s: String)
    ensures
        s@ == chars@,
{
    chars.iter().collect()
}

/// Unicode `White_Space` characters: the set that `char::is_whitespace`,
/// `str::trim` and `str::split_whitespace` use.
pub open spec fn is_white_space(c: char) -> bool {
    let v = c as u32;
    (0x09 <= v && v <= 0x0d) || v == 0x20 || v == 0x85 || v == 0xa0 || v == 0x1680 || (0x2000
        <= v && v <= 0x200a) || v == 0x2028 || v == 0x2029 || v == 0x202f || v == 0x205f || v
        == 0x3000
}

pub fn char_is_white_space(c: char) -> (b: bool)
    ensures
        b == is_white_space(c),
{
    let v = c as u32;
    (0x09 <= v && v <= 0x0d) || v == 0x20 || v == 0x85 || v == 0xa0 || v == 0x1680 || (0x2000
        <= v && v <= 0x200a) || v == 0x2028 || v == 0x2029 || v == 0x202f || v == 0x205f || v
        == 0x3000
}

pub open spec fn is_ascii_digit(c: char) -> bool {
    '0' <= c && c <= '9'
}

pub open spec fn is_ascii_alphanumeric(c: char) -> bool {
    ('0' <= c && c <= '9') || ('a' <= c && c <= 'z') || ('A' <= c && c <= 'Z')
}

pub fn char_is_ascii_alphanumeric(c: char) -> (b: bool)
    ensures
        b == is_ascii_alphanumeric(c),
{
    ('0' <= c && c <= '9') || ('a' <= c && c <= 'z') || ('A' <= c && c <= 'Z')
}

/// `s` with leading white space removed (`str::trim_start`).
pub open spec fn trim_start_seq(s: Seq<char>) -> Seq<char>
    decreases s.len(),
{
    if s.len() > 0 && is_white_space(s[0]) {
        trim_start_seq(s.drop_first())
    } else {
        s
    }
}

/// `s` with trailing white space removed (`str::trim_end`).
pub open spec fn trim_end_seq(s: Seq<char>) -> Seq<char>
    decreases s.len(),
{
    if s.len() > 0 && is_white_space(s.last()) {
        trim_end_seq(s.drop_last())
    } else {
        s
    }
}

/// `s` with white space removed at both ends (`str::trim`).
pub open spec fn trim_seq(s: Seq<char>) -> Seq<char> {
    trim_end_seq(trim_start_seq(s))
}

/// `s` with every trailing `c` removed (`str::trim_end_matches` with a char).
pub open spec fn trim_end_char_seq(s: Seq<char>, c: char) -> Seq<char>
    decreases s.len(),
{
    if s.len() > 0 && s.last() == c {
        trim_end_char_seq(s.drop_last(), c)
    } else {
        s
    }
}

/// `s` with every leading `c` removed (`str::trim_start_matches` with a
/// char).
pub open spec fn trim_start_char_seq(s: Seq<char>, c: char) -> Seq<char>
    decreases s.len(),
{
    if s.len() > 0 && s[0] == c {
        trim_start_char_seq(s.drop_first(), c)
    } else {
        s
    }
}

/// The parts before and after the first `c` in `s` (`str::split_once`).
pub open spec fn split_once_seq(s: Seq<char>, c: char) -> Option<(Seq<char>, Seq<char>)>
    decreases s.len(),
{
    if s.len() == 0 {
        None
    } else if s[0] == c {
        Some((Seq::empty(), s.drop_first()))
    } else {
        match split_once_seq(s.drop_first(), c) {
            Some(parts) => Some((seq![s[0]] + parts.0, parts.1)),
            None => None,
        }
    }
}

/// The first piece of `s` split at `c` (`str::split(c).next()`).
pub open spec fn first_piece_seq(s: Seq<char>, c: char) -> Seq<char> {
    match split_once_seq(s, c) {
        Some(parts) => parts.0,
        None => s,
    }
}

/// `s[start..end]` as a new vector.
pub fn copy_range(s: &Vec<char>, start: usize, end: usize) -> (out: Vec<char>)
    requires
        start <= end <= s@.len(),
    ensures
        out@ == s@.subrange(start as int, end as int),
{
    let mut out: Vec<char> = Vec::new();
    let mut index = start;
    while index < end
        invariant
            start <= index <= end <= s@.len(),
            out@ == s@.subrange(start as int, index as int),
        decreases end - index,
    {
        out.push(s[index]);
        index = index + 1;
        proof {
            assert(out@ =~= s@.subrange(start as int, index as int));
        }
    }
    out
}

proof fn lemma_trim_start_skip(s: Seq<char>, i: int)
    requires
        0 <= i < s.len(),
        is_white_space(s[i]),
    ensures
        trim_start_seq(s.skip(i)) == trim_start_seq(s.skip(i + 1)),
{
    assert(s.skip(i).drop_first() =~= s.skip(i + 1));
}

proof fn lemma_trim_end_take(s: Seq<char>, j: int)
    requires
        0 < j <= s.len(),
        is_white_space(s[j - 1]),
    ensures
        trim_end_seq(s.take(j)) == trim_end_seq(s.take(j - 1)),
{
    assert(s.take(j).drop_last() =~= s.take(j - 1));
}

/// `str::trim` on a character vector.
pub fn trim_chars(s: &Vec<char>) -> (out: Vec<char>)
    ensures
        out@ == trim_seq(s@),
{
    let mut start: usize = 0;
    proof {
        assert(s@.skip(0) =~= s@);
    }
    while start < s.len() && char_is_white_space(s[start])
        invariant
            start <= s@.len(),
            trim_start_seq(s@) == trim_start_seq(s@.skip(start as int)),
        decreases s@.len() - start,
    {
        proof {
            lemma_trim_start_skip(s@, start as int);
        }
        start = start + 1;
    }
    let ghost rest = s@.skip(start as int);
    assert(trim_start_seq(s@) == rest);
    let mut end: usize = s.len();
    proof {
        assert(rest.take(rest.len() as int) =~= rest);
    }
    while end > start && char_is_white_space(s[end - 1])
        invariant
            start <= end <= s@.len(),
            rest == s@.skip(start as int),
            trim_end_seq(rest) == trim_end_seq(rest.take(end - start)),
        decreases end,
    {
        proof {
            lemma_trim_end_take(rest, end - start);
        }
        end = end - 1;
    }
    proof {
        assert(rest.take(end - start) =~= s@.subrange(start as int, end as int));
    }
    copy_range(s, start, end)
}

/// `str::trim_start` on a character vector.
pub fn trim_start_chars(s: &Vec<char>) -> (out: Vec<char>)
    ensures
        out@ == trim_start_seq(s@),
{
    let mut start: usize = 0;
    proof {
        assert(s@.skip(0) =~= s@);
    }
    while start < s.len() && char_is_white_space(s[start])
        invariant
            start <= s@.len(),
            trim_start_seq(s@) == trim_start_seq(s@.skip(start as int)),
        decreases s@.len() - start,
    {
        proof {
            assert(s@.skip(start as int).drop_first() =~= s@.skip(start as int + 1));
        }
        start = start + 1;
    }
    proof {
        assert(s@.skip(start as int) =~= s@.subrange(start as int, s@.len() as int));
    }
    copy_range(s, start, s.len())
}

/// `str::trim_start_matches(c)` on a character vector.
pub fn trim_start_char(s: &Vec<char>, c: char) -> (out: Vec<char>)
    ensures
        out@ == trim_start_char_seq(s@, c),
{
    let mut start: usize = 0;
    proof {
        assert(s@.skip(0) =~= s@);
    }
    while start < s.len() && s[start] == c
        invariant
            start <= s@.len(),
            trim_start_char_seq(s@, c) == trim_start_char_seq(s@.skip(start as int), c),
        decreases s@.len() - start,
    {
        proof {
            assert(s@.skip(start as int).drop_first() =~= s@.skip(start as int + 1));
        }
        start = start + 1;
    }
    proof {
        assert(s@.skip(start as int) =~= s@.subrange(start as int, s@.len() as int));
    }
    copy_range(s, start, s.len())
}

/// `str::trim_end_matches(c)` on a character vector.
pub fn trim_end_char(s: &Vec<char>, c: char) -> (out: Vec<char>)
    ensures
        out@ == trim_end_char_seq(s@, c),
{
    let mut end: usize = s.len();
    proof {
        assert(s@.take(s@.len() as int) =~= s@);
    }
    while end > 0 && s[end - 1] == c
        invariant
            end <= s@.len(),
            trim_end_char_seq(s@, c) == trim_end_char_seq(s@.take(end as int), c),
        decreases end,
    {
        proof {
            assert(s@.take(end as int).drop_last() =~= s@.take(end - 1));
        }
        end = end - 1;
    }
    copy_range(s, 0, end)
}

proof fn lemma_split_once_at(s: Seq<char>, c: char, i: int)
    requires
        0 <= i < s.len(),
        s[i] == c,
        forall|j: int| 0 <= j < i ==> s[j] != c,
    ensures
        split_once_seq(s, c) == Some((s.take(i), s.skip(i + 1))),
    decreases i,
{
    if i == 0 {
        assert(s.take(0) =~= Seq::<char>::empty());
        assert(s.skip(1) =~= s.drop_first());
    } else {
        lemma_split_once_at(s.drop_first(), c, i - 1);
        assert(seq![s[0]] + s.drop_first().take(i - 1) =~= s.take(i));
        assert(s.drop_first().skip(i) =~= s.skip(i + 1));
    }
}

proof fn lemma_split_once_none(s: Seq<char>, c: char)
    requires
        forall|j: int| 0 <= j < s.len() ==> s[j] != c,
    ensures
        split_once_seq(s, c) is None,
    decreases s.len(),
{
    if s.len() > 0 {
        lemma_split_once_none(s.drop_first(), c);
    }
}

/// `str::split_once(c)` on a character vector.
pub fn split_once_chars(s: &Vec<char>, c: char) -> (parts: Option<(Vec<char>, Vec<char>)>)
    ensures
        match parts {
            Some(p) => split_once_seq(s@, c) == Some((p.0@, p.1@)),
            None => split_once_seq(s@, c) is None,
        },
{
    let mut index: usize = 0;
    while index < s.len()
        invariant
            index <= s@.len(),
            forall|j: int| 0 <= j < index ==> s@[j] != c,
        decreases s@.len() - index,
    {
        if s[index] == c {
            proof {
                lemma_split_once_at(s@, c, index as int);
            }
            let before = copy_range(s, 0, index);
            let after = copy_range(s, index + 1, s.len());
            proof {
                assert(s@.subrange(0, index as int) =~= s@.take(index as int));
                assert(s@.subrange(index + 1, s@.len() as int) =~= s@.skip(index + 1));
            }
            return Some((before, after));
        }
        index = index + 1;
    }
    proof {
        lemma_split_once_none(s@, c);
    }
    None
}

/// `str::split(c).next()` on a character vector: the text before the first
/// `c`, or all of it.
pub fn first_piece_chars(s: &Vec<char>, c: char) -> (out: Vec<char>)
    ensures
        out@ == first_piece_seq(s@, c),
{
    match split_once_chars(s, c) {
        Some(parts) => parts.0,
        None => copy_range(s, 0, s.len()),
    }
}

/// The ASCII digit for `d` in `0..10`.
pub open spec fn digit_char(d: int) -> char {
    (d + 48) as char
}

/// Decimal digits of `n`, without leading zeros (`"0"` for zero).
pub open spec fn decimal_seq(n: nat) -> Seq<char>
    decreases n,
{
    if n < 10 {
        seq![digit_char(n as int)]
    } else {
        decimal_seq(n / 10).push(digit_char((n % 10) as int))
    }
}

/// `n` in decimal, left-padded with zeros to at least `width` characters.
pub open spec fn zero_padded_seq(n: nat, width: nat) -> Seq<char> {
    let digits = decimal_seq(n);
    if digits.len() >= width {
        digits
    } else {
        Seq::new((width - digits.len()) as nat, |i: int| '0') + digits
    }
}

/// An integer as Rust's `{:0width}` formats it: the sign first, then zeros
/// up to `width` characters in all, then the digits.
pub open spec fn format_int_seq(n: int, width: nat) -> Seq<char> {
    if n < 0 {
        seq!['-'] + zero_padded_seq((-n) as nat, if width >= 1 {
            (width - 1) as nat
        } else {
            0
        })
    } else {
        zero_padded_seq(n as nat, width)
    }
}

fn digit_of(d: u64) -> (c: char)
    requires
        d < 10,
    ensures
        c == digit_char(d as int),
{
    let b: u8 = (d as u8) + 48;
    b as char
}

/// Appends the decimal digits of `n`.
pub fn push_decimal(out: &mut Vec<char>, n: u64)
    ensures
        final(out)@ == old(out)@ + decimal_seq(n as nat),
    decreases n,
{
    if n < 10 {
        out.push(digit_of(n));
        proof {
            assert(decimal_seq(n as nat) =~= seq![digit_char(n as int)]);
        }
    } else {
        push_decimal(out, n / 10);
        out.push(digit_of(n % 10));
    }
}

/// Appends `n` formatted as Rust's `{:0width}` formats an `i64`.
pub fn push_int_padded(out: &mut Vec<char>, n: i64, width: usize)
    ensures
        final(out)@ == old(out)@ + format_int_seq(n as int, width as nat),
{
    let negative = n < 0;
    let magnitude: u64 = if negative {
        (0i128 - n as i128) as u64
    } else {
        n as u64
    };
    let mut digits: Vec<char> = Vec::new();
    push_decimal(&mut digits, magnitude);
    assert(digits@ =~= decimal_seq(magnitude as nat));
    let target: usize = if negative {
        if width >= 1 {
            width - 1
        } else {
            0
        }
    } else {
        width
    };
    let ghost start = out@;
    if negative {
        out.push('-');
    }
    let ghost signed = out@;
    let mut pad: usize = 0;
    let missing: usize = if digits.len() >= target {
        0
    } else {
        target - digits.len()
    };
    while pad < missing
        invariant
            pad <= missing,
            out@ == signed + Seq::new(pad as nat, |i: int| '0'),
        decreases missing - pad,
    {
        out.push('0');
        pad = pad + 1;
        proof {
            assert(out@ =~= signed + Seq::new(pad as nat, |i: int| '0'));
        }
    }
    let mut index: usize = 0;
    let ghost padded = out@;
    while index < digits.len()
        invariant
            index <= digits@.len(),
            out@ == padded + digits@.take(index as int),
        decreases digits@.len() - index,
    {
        out.push(digits[index]);
        index = index + 1;
        proof {
            assert(out@ =~= padded + digits@.take(index as int));
        }
    }
    proof {
        assert(digits@.take(digits@.len() as int) =~= digits@);
        if negative {
            assert(out@ =~= start + format_int_seq(n as int, width as nat));
        } else {
            assert(out@ =~= start + format_int_seq(n as int, width as nat));
        }
    }
}

/// Appends the characters of `s`.
pub fn push_all(out: &mut Vec<char>, s: &Vec<char>)
    ensures
        final(out)@ == old(out)@ + s@,
{
    let ghost start = out@;
    let mut index: usize = 0;
    while index < s.len()
        invariant
            index <= s@.len(),
            out@ == start + s@.take(index as int),
        decreases s@.len() - index,
    {
        out.push(s[index]);
        index = index + 1;
        proof {
            assert(out@ =~= start + s@.take(index as int));
        }
    }
    proof {
        assert(s@.take(s@.len() as int) =~= s@);
    }
}

/// The value of a non-empty run of ASCII digits.
pub open spec fn digits_value(s: Seq<char>) -> int
    decreases s.len(),
{
    if s.len() == 0 {
        0
    } else {
        digits_value(s.drop_last()) * 10 + (s.last() as int - 48)
    }
}

pub open spec fn all_ascii_digits(s: Seq<char>) -> bool {
    forall|i: int| 0 <= i < s.len() ==> is_ascii_digit(#[trigger] s[i])
}

/// What `str::parse::<i64>` gives: an optional `+` or `-` followed by one or
/// more ASCII digits whose value fits in an `i64`; anything else is an error.
pub open spec fn parse_i64_seq(s: Seq<char>) -> Option<int> {
    let negative = s.len() > 0 && s[0] == '-';
    let body = if s.len() > 0 && (s[0] == '-' || s[0] == '+') {
        s.drop_first()
    } else {
        s
    };
    if body.len() == 0 || !all_ascii_digits(body) {
        None
    } else {
        let value = if negative {
            -digits_value(body)
        } else {
            digits_value(body)
        };
        if i64::MIN <= value <= i64::MAX {
            Some(value)
        } else {
            None
        }
    }
}

proof fn lemma_digits_value_grows(s: Seq<char>, k: int)
    requires
        0 <= k <= s.len(),
        all_ascii_digits(s),
    ensures
        digits_value(s.take(k)) <= digits_value(s),
        0 <= digits_value(s.take(k)),
    decreases s.len() - k,
{
    if k < s.len() {
        lemma_digits_value_grows(s, k + 1);
        assert(s.take(k + 1).drop_last() =~= s.take(k));
        assert(s.take(k + 1).last() == s[k]);
        assert(is_ascii_digit(s[k]));
        lemma_digits_value_nonneg(s.take(k));
    } else {
        assert(s.take(k) =~= s);
        lemma_digits_value_nonneg(s);
    }
}

proof fn lemma_digits_value_nonneg(s: Seq<char>)
    requires
        all_ascii_digits(s),
    ensures
        0 <= digits_value(s),
    decreases s.len(),
{
    if s.len() > 0 {
        assert(is_ascii_digit(s[s.len() - 1]));
        assert(all_ascii_digits(s.drop_last()));
        lemma_digits_value_nonneg(s.drop_last());
    }
}

/// `str::parse::<i64>` on a character vector.
pub fn parse_i64(s: &Vec<char>) -> (value: Option<i64>)
    ensures
        match value {
            Some(v) => parse_i64_seq(s@) == Some(v as int),
            None => parse_i64_seq(s@) is None,
        },
{
    if s.len() == 0 {
        return None;
    }
    let negative = s[0] == '-';
    let start: usize = if s[0] == '-' || s[0] == '+' {
        1
    } else {
        0
    };
    let ghost body = s@.skip(start as int);
    proof {
        if start == 1 {
            assert(body =~= s@.drop_first());
        } else {
            assert(body =~= s@);
        }
    }
    if start >= s.len() {
        return None;
    }
    let limit: u64 = 0x8000_0000_0000_0000;
    let mut acc: u64 = 0;
    let mut index: usize = start;
    proof {
        assert(body.take(0) =~= Seq::<char>::empty());
    }
    while index < s.len()
        invariant
            start <= index <= s@.len(),
            body == s@.skip(start as int),
            s@.len() > 0,
            start == (if s@[0] == '-' || s@[0] == '+' {
                1int
            } else {
                0int
            }),
            body == (if s@[0] == '-' || s@[0] == '+' {
                s@.drop_first()
            } else {
                s@
            }),
            limit == 0x8000_0000_0000_0000u64,
            acc <= limit,
            all_ascii_digits(body.take(index - start)),
            acc == digits_value(body.take(index - start)),
        decreases s@.len() - index,
    {
        let c = s[index];
        if !('0' <= c && c <= '9') {
            proof {
                assert(body[index - start] == c);
                assert(!is_ascii_digit(body[index - start]));
                assert(!all_ascii_digits(body));
            }
            return None;
        }
        assert(48 <= c as u32 <= 57);
        let d = (c as u32 - 48) as u64;
        proof {
            let k = index - start;
            assert(body.take(k + 1).drop_last() =~= body.take(k));
            assert(body.take(k + 1).last() == c);
            assert(all_ascii_digits(body.take(k + 1)));
        }
        if acc > (limit - d) / 10 {
            proof {
                let k = index - start;
                assert(digits_value(body.take(k + 1)) > limit);
                assert(body.take(k + 1) =~= body.take(k + 1).take(k + 1));
                if all_ascii_digits(body) {
                    lemma_digits_value_grows(body, k + 1);
                }
            }
            return None;
        }
        acc = acc * 10 + d;
        index = index + 1;
    }
    proof {
        assert(body.take(index - start) =~= body);
    }
    if negative {
        Some((0i128 - acc as i128) as i64)
    } else if acc <= 0x7fff_ffff_ffff_ffff {
        Some(acc as i64)
    } else {
        None
    }
}

/// Lowercase hexadecimal digit for `d` in `0..16`.
pub open spec fn hex_digit_char(d: int) -> char {
    if d < 10 {
        (48 + d) as char
    } else {
        (87 + d) as char
    }
}

/// The low `width` hexadecimal digits of `n`, most significant first; for
/// `n < 16^width` this is `format!("{:0width$x}", n)`.
pub open spec fn hex_seq(n: nat, width: nat) -> Seq<char>
    decreases width,
{
    if width == 0 {
        Seq::empty()
    } else {
        hex_seq(n / 16, (width - 1) as nat).push(hex_digit_char((n % 16) as int))
    }
}

/// Appends the low `width` lowercase hexadecimal digits of `n`.
pub fn push_hex(out: &mut Vec<char>, n: u64, width: usize)
    ensures
        final(out)@ == old(out)@ + hex_seq(n as nat, width as nat),
    decreases width,
{
    if width == 0 {
        assert(hex_seq(n as nat, 0) =~= Seq::<char>::empty());
    } else {
        push_hex(out, n / 16, width - 1);
        let d = n % 16;
        let code: u8 = if d < 10 {
            48 + d as u8
        } else {
            87 + d as u8
        };
        out.push(code as char);
    }
}

/// Appends the characters of `s`.
pub fn push_str(out: &mut Vec<char>, s: &str)
    ensures
        final(out)@ == old(out)@ + s@,
{
    let chars = chars_of(s);
    push_all(out, &chars);
}

/// The views of a sequence of strings.
pub open spec fn strings_view(v: Seq<String>) -> Seq<Seq<char>> {
    v.map_values(|s: String| s@)
}

/// Pieces of `s` between occurrences of `sep`, left to right: the state
/// after scanning `s` is the finished pieces and the piece in progress.
pub open spec fn split_scan(s: Seq<char>, sep: char) -> (Seq<Seq<char>>, Seq<char>)
    decreases s.len(),
{
    if s.len() == 0 {
        (Seq::empty(), Seq::empty())
    } else {
        let state = split_scan(s.drop_last(), sep);
        if s.last() == sep {
            (state.0.push(state.1), Seq::empty())
        } else {
            (state.0, state.1.push(s.last()))
        }
    }
}

/// `str::split(sep)`: every piece between separators, empty ones included.
pub open spec fn split_seq(s: Seq<char>, sep: char) -> Seq<Seq<char>> {
    split_scan(s, sep).0.push(split_scan(s, sep).1)
}

/// `line` without one trailing carriage return.
pub open spec fn strip_cr(line: Seq<char>) -> Seq<char> {
    if line.len() > 0 && line.last() == '\r' {
        line.drop_last()
    } else {
        line
    }
}

/// The state of `str::lines` after scanning `s`: finished lines (line
/// feed and one preceding carriage return removed) and the line in
/// progress.
pub open spec fn lines_scan(s: Seq<char>) -> (Seq<Seq<char>>, Seq<char>)
    decreases s.len(),
{
    if s.len() == 0 {
        (Seq::empty(), Seq::empty())
    } else {
        let state = lines_scan(s.drop_last());
        if s.last() == '\n' {
            (state.0.push(strip_cr(state.1)), Seq::empty())
        } else {
            (state.0, state.1.push(s.last()))
        }
    }
}

/// `str::lines`: lines ended by `\n` or `\r\n`, the last one unterminated
/// if it is not empty.
pub open spec fn lines_seq(s: Seq<char>) -> Seq<Seq<char>> {
    let state = lines_scan(s);
    if state.1.len() > 0 {
        state.0.push(state.1)
    } else {
        state.0
    }
}

/// `str::split(sep)` on a character vector.
pub fn split_chars(s: &Vec<char>, sep: char) -> (pieces: Vec<Vec<char>>)
    ensures
        pieces@.map_values(|p: Vec<char>| p@) == split_seq(s@, sep),
{
    let mut done: Vec<Vec<char>> = Vec::new();
    let mut current: Vec<char> = Vec::new();
    let mut index: usize = 0;
    proof {
        assert(s@.take(0) =~= Seq::<char>::empty());
        assert(done@.map_values(|p: Vec<char>| p@) =~= split_scan(s@.take(0), sep).0);
    }
    while index < s.len()
        invariant
            index <= s@.len(),
            done@.map_values(|p: Vec<char>| p@) == split_scan(s@.take(index as int), sep).0,
            current@ == split_scan(s@.take(index as int), sep).1,
        decreases s@.len() - index,
    {
        let c = s[index];
        proof {
            assert(s@.take(index + 1).drop_last() =~= s@.take(index as int));
            assert(s@.take(index + 1).last() == c);
        }
        if c == sep {
            let finished = current;
            done.push(finished);
            current = Vec::new();
        } else {
            current.push(c);
        }
        index = index + 1;
        proof {
            assert(done@.map_values(|p: Vec<char>| p@) =~= split_scan(s@.take(index as int), sep).0);
        }
    }
    proof {
        assert(s@.take(s@.len() as int) =~= s@);
    }
    done.push(current);
    proof {
        assert(done@.map_values(|p: Vec<char>| p@) =~= split_seq(s@, sep));
    }
    done
}

/// Words of `s` (`str::split_whitespace`) as a scan: the finished words
/// and the word in progress.
pub open spec fn words_scan(s: Seq<char>) -> (Seq<Seq<char>>, Seq<char>)
    decreases s.len(),
{
    if s.len() == 0 {
        (Seq::empty(), Seq::empty())
    } else {
        let (done, current) = words_scan(s.drop_last());
        if is_white_space(s.last()) {
            if current.len() > 0 {
                (done.push(current), Seq::empty())
            } else {
                (done, Seq::empty())
            }
        } else {
            (done, current.push(s.last()))
        }
    }
}

/// The maximal runs of non-white-space characters of `s`, in order
/// (`str::split_whitespace`).
pub open spec fn words_seq(s: Seq<char>) -> Seq<Seq<char>> {
    let (done, current) = words_scan(s);
    if current.len() > 0 {
        done.push(current)
    } else {
        done
    }
}

/// `str::split_whitespace` on a character vector.
pub fn words_chars(s: &Vec<char>) -> (words: Vec<Vec<char>>)
    ensures
        words@.map_values(|w: Vec<char>| w@) == words_seq(s@),
{
    let mut done: Vec<Vec<char>> = Vec::new();
    let mut current: Vec<char> = Vec::new();
    let mut index: usize = 0;
    proof {
        assert(s@.take(0) =~= Seq::<char>::empty());
        assert(done@.map_values(|w: Vec<char>| w@) =~= words_scan(s@.take(0)).0);
    }
    while index < s.len()
        invariant
            index <= s@.len(),
            done@.map_values(|w: Vec<char>| w@) == words_scan(s@.take(index as int)).0,
            current@ == words_scan(s@.take(index as int)).1,
        decreases s@.len() - index,
    {
        let c = s[index];
        proof {
            assert(s@.take(index + 1).drop_last() =~= s@.take(index as int));
            assert(s@.take(index + 1).last() == c);
        }
        if char_is_white_space(c) {
            if current.len() > 0 {
                let finished = current;
                done.push(finished);
                current = Vec::new();
            }
        } else {
            current.push(c);
        }
        index = index + 1;
        proof {
            assert(done@.map_values(|w: Vec<char>| w@) =~= words_scan(s@.take(index as int)).0);
            assert(current@ =~= words_scan(s@.take(index as int)).1);
        }
    }
    proof {
        assert(s@.take(s@.len() as int) =~= s@);
    }
    if current.len() > 0 {
        let ghost before = done@;
        done.push(current);
        proof {
            assert(done@.map_values(|w: Vec<char>| w@) =~= before.map_values(|w: Vec<char>| w@).push(
                words_scan(s@).1,
            ));
        }
    }
    done
}

/// `str::lines` on a character vector.
pub fn lines_chars(s: &Vec<char>) -> (lines: Vec<Vec<char>>)
    ensures
        lines@.map_values(|p: Vec<char>| p@) == lines_seq(s@),
{
    let mut done: Vec<Vec<char>> = Vec::new();
    let mut current: Vec<char> = Vec::new();
    let mut index: usize = 0;
    proof {
        assert(s@.take(0) =~= Seq::<char>::empty());
        assert(done@.map_values(|p: Vec<char>| p@) =~= lines_scan(s@.take(0)).0);
    }
    while index < s.len()
        invariant
            index <= s@.len(),
            done@.map_values(|p: Vec<char>| p@) == lines_scan(s@.take(index as int)).0,
            current@ == lines_scan(s@.take(index as int)).1,
        decreases s@.len() - index,
    {
        let c = s[index];
        proof {
            assert(s@.take(index + 1).drop_last() =~= s@.take(index as int));
            assert(s@.take(index + 1).last() == c);
        }
        if c == '\n' {
            let mut finished = current;
            if finished.len() > 0 && finished[finished.len() - 1] == '\r' {
                finished.pop();
            }
            done.push(finished);
            current = Vec::new();
        } else {
            current.push(c);
        }
        index = index + 1;
        proof {
            assert(done@.map_values(|p: Vec<char>| p@) =~= lines_scan(s@.take(index as int)).0);
        }
    }
    proof {
        assert(s@.take(s@.len() as int) =~= s@);
    }
    if current.len() > 0 {
        done.push(current);
    }
    proof {
        assert(done@.map_values(|p: Vec<char>| p@) =~= lines_seq(s@));
    }
    done
}

/// Whether `s` begins with `prefix`.
pub open spec fn starts_with_seq(s: Seq<char>, prefix: Seq<char>) -> bool {
    prefix.len() <= s.len() && s.take(prefix.len() as int) == prefix
}

pub fn starts_with_chars(s: &Vec<char>, prefix: &Vec<char>) -> (b: bool)
    ensures
        b == starts_with_seq(s@, prefix@),
{
    if prefix.len() > s.len() {
        return false;
    }
    let mut index: usize = 0;
    while index < prefix.len()
        invariant
            index <= prefix@.len() <= s@.len(),
            forall|j: int| 0 <= j < index ==> s@[j] == prefix@[j],
        decreases prefix@.len() - index,
    {
        if s[index] != prefix[index] {
            proof {
                assert(s@.take(prefix@.len() as int)[index as int] != prefix@[index as int]);
            }
            return false;
        }
        index = index + 1;
    }
    proof {
        assert(s@.take(prefix@.len() as int) =~= prefix@);
    }
    true
}

/// Whether two character vectors are equal.
pub fn chars_eq(a: &Vec<char>, b: &Vec<char>) -> (eq: bool)
    ensures
        eq == (a@ == b@),
{
    if a.len() != b.len() {
        return false;
    }
    let mut index: usize = 0;
    while index < a.len()
        invariant
            index <= a@.len() == b@.len(),
            forall|j: int| 0 <= j < index ==> a@[j] == b@[j],
        decreases a@.len() - index,
    {
        if a[index] != b[index] {
            return false;
        }
        index = index + 1;
    }
    proof {
        assert(a@ =~= b@);
    }
    true
}

} // verus!
