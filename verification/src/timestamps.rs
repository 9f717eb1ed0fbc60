use vstd::prelude::*;

use crate::calendar::{
    civil_from_days_spec, days_from_civil_fits, days_from_civil_spec, in_i64, is_valid_date,
    law_civil_round_trip_from_date, law_days_from_civil_epoch, law_days_from_civil_next_day,
    lemma_civil_round_trip_from_days, next_date, rfc3339_seq, sqlite_datetime_fields,
    sqlite_datetime_fits, unix_of_fields,
};
use crate::ulid::seq_lex_lt;
use crate::replay::event_timestamp_seq;
use crate::text::{
    all_ascii_digits, decimal_seq, digit_char, digits_value, first_piece_seq, format_int_seq,
    is_ascii_digit, is_white_space, parse_i64_seq, split_once_seq, trim_end_char_seq,
    trim_end_seq, trim_seq, trim_start_seq, zero_padded_seq,
};

verus! {

proof fn lemma_decimal_digits(n: nat)
    ensures
        decimal_seq(n).len() >= 1,
        all_ascii_digits(decimal_seq(n)),
        digits_value(decimal_seq(n)) == n,
    decreases n,
{
    if n >= 10 {
        lemma_decimal_digits(n / 10);
        let s = decimal_seq(n);
        let prev = decimal_seq(n / 10);
        assert(s.drop_last() =~= prev);
        let d = (n % 10) as int;
        assert(is_ascii_digit(digit_char(d)));
        assert((digit_char(d) as int) == d + 48);
        assert(s.last() == digit_char(d));
        assert(n == (n / 10) * 10 + d);
        assert(digits_value(s) == digits_value(s.drop_last()) * 10 + (s.last() as int - 48));
        assert(digits_value(prev) == n / 10);
        assert forall|i: int| 0 <= i < s.len() implies is_ascii_digit(#[trigger] s[i]) by {
            if i < s.len() - 1 {
                assert(s[i] == prev[i]);
            }
        }
    } else {
        assert(is_ascii_digit(digit_char(n as int)));
        assert((digit_char(n as int) as int) == n + 48);
        let s = decimal_seq(n);
        assert(s.drop_last() =~= Seq::<char>::empty());
        assert(digits_value(s) == digits_value(s.drop_last()) * 10 + (s.last() as int - 48));
    }
}

proof fn lemma_leading_zeros(k: nat, s: Seq<char>)
    requires
        all_ascii_digits(s),
    ensures
        digits_value(Seq::new(k, |i: int| '0') + s) == digits_value(s),
    decreases s.len(), k,
{
    let z = Seq::new(k, |i: int| '0');
    if s.len() == 0 {
        assert(z + s =~= z);
        if k > 0 {
            assert(z.drop_last() =~= Seq::new((k - 1) as nat, |i: int| '0'));
            lemma_leading_zeros((k - 1) as nat, s);
            assert(Seq::new((k - 1) as nat, |i: int| '0') + s =~= Seq::new((k - 1) as nat, |i: int| '0'));
        }
    } else {
        lemma_leading_zeros(k, s.drop_last());
        assert((z + s).drop_last() =~= z + s.drop_last());
    }
}

/// A number written with leading zeros reads back as itself.
proof fn lemma_zero_padded_digits(n: nat, width: nat)
    ensures
        zero_padded_seq(n, width).len() >= 1,
        all_ascii_digits(zero_padded_seq(n, width)),
        digits_value(zero_padded_seq(n, width)) == n,
{
    lemma_decimal_digits(n);
    let digits = decimal_seq(n);
    if digits.len() < width {
        let k = (width - digits.len()) as nat;
        lemma_leading_zeros(k, digits);
        let padded = Seq::new(k, |i: int| '0') + digits;
        assert forall|i: int| 0 <= i < padded.len() implies is_ascii_digit(#[trigger] padded[i]) by {
            if i >= k {
                assert(padded[i] == digits[i - k]);
            }
        }
    }
}

proof fn lemma_parse_padded(n: nat, width: nat)
    requires
        n <= i64::MAX,
    ensures
        parse_i64_seq(format_int_seq(n as int, width)) == Some(n as int),
{
    lemma_zero_padded_digits(n, width);
    let s = zero_padded_seq(n, width);
    assert(is_ascii_digit(s[0]));
}

/// Splitting at the first `c` of `a + [c] + b`, when `a` holds none.
proof fn lemma_split_at_separator(a: Seq<char>, c: char, b: Seq<char>)
    requires
        forall|i: int| 0 <= i < a.len() ==> a[i] != c,
    ensures
        split_once_seq(a + seq![c] + b, c) == Some((a, b)),
    decreases a.len(),
{
    let s = a + seq![c] + b;
    if a.len() == 0 {
        assert(s.drop_first() =~= b);
    } else {
        lemma_split_at_separator(a.drop_first(), c, b);
        assert(s.drop_first() =~= a.drop_first() + seq![c] + b);
        assert(seq![a[0]] + a.drop_first() =~= a);
    }
}

/// No `c` in `s`: nothing to split at.
proof fn lemma_split_absent(s: Seq<char>, c: char)
    requires
        forall|i: int| 0 <= i < s.len() ==> s[i] != c,
    ensures
        split_once_seq(s, c) is None,
    decreases s.len(),
{
    if s.len() > 0 {
        lemma_split_absent(s.drop_first(), c);
    }
}

/// A run of digits holds no character other than digits.
proof fn lemma_digits_lack(s: Seq<char>, c: char)
    requires
        all_ascii_digits(s),
        !is_ascii_digit(c),
    ensures
        forall|i: int| 0 <= i < s.len() ==> s[i] != c,
{
    assert forall|i: int| 0 <= i < s.len() implies s[i] != c by {
        assert(is_ascii_digit(s[i]));
    }
}

/// Joining two pieces lacking `c` with a separator other than `c`.
proof fn lemma_join_lacks(a: Seq<char>, sep: char, b: Seq<char>, c: char)
    requires
        forall|i: int| 0 <= i < a.len() ==> a[i] != c,
        forall|i: int| 0 <= i < b.len() ==> b[i] != c,
        sep != c,
    ensures
        forall|i: int| 0 <= i < (a + seq![sep] + b).len() ==> (a + seq![sep] + b)[i] != c,
{
    let s = a + seq![sep] + b;
    assert forall|i: int| 0 <= i < s.len() implies s[i] != c by {
        if i < a.len() {
            assert(s[i] == a[i]);
        } else if i > a.len() {
            assert(s[i] == b[i - a.len() - 1]);
        }
    }
}

proof fn lemma_time_parts(secs: int)
    requires
        0 <= secs < 86400,
    ensures
        0 <= secs / 3600 < 24,
        0 <= (secs % 3600) / 60 < 60,
        0 <= secs % 60 < 60,
        secs == (secs / 3600) * 3600 + ((secs % 3600) / 60) * 60 + secs % 60,
{
    vstd::arithmetic::div_mod::lemma_fundamental_div_mod(secs, 3600);
    vstd::arithmetic::div_mod::lemma_fundamental_div_mod(secs % 3600, 60);
    vstd::arithmetic::div_mod::lemma_mod_bound(secs, 3600);
    vstd::arithmetic::div_mod::lemma_mod_bound(secs % 3600, 60);
    assert((secs % 3600) % 60 == secs % 60) by {
        vstd::arithmetic::div_mod::lemma_mod_mod(secs, 60, 60);
    }
}

/// The text `rfc3339_seq` writes for these fields.
spec fn stamp_text(y: int, mo: int, d: int, h: int, mi: int, sc: int) -> Seq<char> {
    format_int_seq(y, 4) + seq!['-'] + format_int_seq(mo, 2) + seq!['-'] + format_int_seq(d, 2)
        + seq!['T'] + format_int_seq(h, 2) + seq![':'] + format_int_seq(mi, 2) + seq![':']
        + format_int_seq(sc, 2) + seq!['Z']
}

#[verifier::spinoff_prover]
#[verifier::rlimit(40)]
proof fn lemma_stamp_fields(y: int, mo: int, d: int, h: int, mi: int, sc: int)
    requires
        0 <= y <= i64::MAX,
        0 <= mo <= i64::MAX,
        0 <= d <= i64::MAX,
        0 <= h <= i64::MAX,
        0 <= mi <= i64::MAX,
        0 <= sc <= i64::MAX,
    ensures
        sqlite_datetime_fields(stamp_text(y, mo, d, h, mi, sc)) == Some((y, mo, d, h, mi, sc)),
{
    lemma_parse_padded(y as nat, 4);
    lemma_parse_padded(mo as nat, 2);
    lemma_parse_padded(d as nat, 2);
    lemma_parse_padded(h as nat, 2);
    lemma_parse_padded(mi as nat, 2);
    lemma_parse_padded(sc as nat, 2);
    let ys = format_int_seq(y, 4);
    let ms = format_int_seq(mo, 2);
    let ds = format_int_seq(d, 2);
    let hs = format_int_seq(h, 2);
    let mis = format_int_seq(mi, 2);
    let ss = format_int_seq(sc, 2);
    lemma_zero_padded_digits(y as nat, 4);
    lemma_zero_padded_digits(mo as nat, 2);
    lemma_zero_padded_digits(d as nat, 2);
    lemma_zero_padded_digits(h as nat, 2);
    lemma_zero_padded_digits(mi as nat, 2);
    lemma_zero_padded_digits(sc as nat, 2);
    let month_day = ms + seq!['-'] + ds;
    let date_part = ys + seq!['-'] + month_day;
    let minute_second = mis + seq![':'] + ss;
    let clock = hs + seq![':'] + minute_second;
    let clock_z = clock + seq!['Z'];
    let text = stamp_text(y, mo, d, h, mi, sc);
    assert(text =~= date_part + seq!['T'] + clock_z);

    lemma_digits_lack(ys, ' ');
    lemma_digits_lack(ms, ' ');
    lemma_digits_lack(ds, ' ');
    lemma_digits_lack(hs, ' ');
    lemma_digits_lack(mis, ' ');
    lemma_digits_lack(ss, ' ');
    lemma_join_lacks(ms, '-', ds, ' ');
    lemma_join_lacks(ys, '-', month_day, ' ');
    lemma_join_lacks(mis, ':', ss, ' ');
    lemma_join_lacks(hs, ':', minute_second, ' ');
    lemma_join_lacks(clock, 'Z', Seq::empty(), ' ');
    assert(clock + seq!['Z'] + Seq::<char>::empty() =~= clock_z);
    lemma_join_lacks(date_part, 'T', clock_z, ' ');
    lemma_digits_lack(ys, 'T');
    lemma_digits_lack(ms, 'T');
    lemma_digits_lack(ds, 'T');
    lemma_join_lacks(ms, '-', ds, 'T');
    lemma_join_lacks(ys, '-', month_day, 'T');
    lemma_digits_lack(ys, '-');
    lemma_digits_lack(ms, '-');
    lemma_digits_lack(hs, ':');
    lemma_digits_lack(mis, ':');
    lemma_digits_lack(ss, '.');

    assert(!is_white_space(text[0])) by {
        assert(text[0] == ys[0]);
        assert(is_ascii_digit(ys[0]));
    }
    assert(trim_start_seq(text) == text);
    assert(!is_white_space(text.last()));
    assert(trim_end_seq(text) == text);
    assert(trim_seq(text) == text);

    lemma_split_absent(text, ' ');
    lemma_split_at_separator(date_part, 'T', clock_z);
    lemma_split_at_separator(ys, '-', month_day);
    lemma_split_at_separator(ms, '-', ds);
    assert(clock_z.drop_last() =~= clock);
    assert(clock.last() == ss.last());
    assert(is_ascii_digit(ss[ss.len() - 1]));
    assert(trim_end_char_seq(clock, 'Z') == clock);
    assert(trim_end_char_seq(clock_z, 'Z') == clock);
    lemma_split_at_separator(hs, ':', minute_second);
    lemma_split_at_separator(mis, ':', ss);
    lemma_split_absent(ss, '.');
    assert(first_piece_seq(ss, '.') == ss);
}

/// The calendar arithmetic of reading back a timestamp's date stays within
/// `i64`.
#[verifier::spinoff_prover]
proof fn lemma_stamp_calendar(t: int)
    requires
        in_i64(t),
    ensures
        ({
            let days = t / 86400;
            let date = civil_from_days_spec(days);
            &&& days_from_civil_fits(date.0, date.1, date.2)
            &&& date.0 <= i64::MAX
            &&& 1 <= date.1 <= 12
            &&& 1 <= date.2 <= 31
            &&& days_from_civil_spec(date.0, date.1, date.2) == days
            &&& days * 86400 + t % 86400 == t
            &&& 0 <= t % 86400 < 86400
        }),
{
    let days = t / 86400;
    vstd::arithmetic::div_mod::lemma_fundamental_div_mod(t, 86400);
    vstd::arithmetic::div_mod::lemma_mod_bound(t, 86400);
    lemma_civil_round_trip_from_days(days);
    let date = civil_from_days_spec(days);
    let (y, mo, d) = (date.0, date.1, date.2);
    assert(1 <= mo <= 12 && 1 <= d <= 31);
    let y1 = if mo <= 2 { y - 1 } else { y };
    let era = y1 / 400;
    let yoe = y1 - era * 400;
    vstd::arithmetic::div_mod::lemma_fundamental_div_mod(y1, 400);
    vstd::arithmetic::div_mod::lemma_mod_bound(y1, 400);
    assert(0 <= yoe < 400);
    let mp = if mo > 2 { mo - 3 } else { mo + 9 };
    let month_days = crate::calendar::trunc_div(153 * mp + 2, 5);
    assert(0 <= month_days <= 337);
    let doe = yoe * 365 + yoe / 4 - yoe / 100 + month_days + d - 1;
    assert(0 <= doe <= 146096 + 400);
    assert(era * 146097 + doe - 719468 == days);
}

/// `unix_from_sqlite_datetime` reads back what `rfc3339_from_unix` writes:
/// the text of a timestamp parses, without overflow, to the same
/// timestamp. (A date before year 0 is written with a leading `-`, which
/// the reader takes for a separator.)
pub proof fn law_sqlite_datetime_reads_rfc3339(t: int)
    requires
        in_i64(t),
        civil_from_days_spec(t / 86400).0 >= 0,
    ensures
        sqlite_datetime_fits(rfc3339_seq(t)),
        sqlite_datetime_fields(rfc3339_seq(t)) is Some,
        unix_of_fields(sqlite_datetime_fields(rfc3339_seq(t))->0) == t,
{
    let days = t / 86400;
    let secs = t % 86400;
    lemma_stamp_calendar(t);
    lemma_time_parts(secs);
    let date = civil_from_days_spec(days);
    let h = secs / 3600;
    let mi = (secs % 3600) / 60;
    let sc = secs % 60;
    lemma_stamp_fields(date.0, date.1, date.2, h, mi, sc);
    assert(rfc3339_seq(t) == stamp_text(date.0, date.1, date.2, h, mi, sc));
}

/// The `YYYY-MM-DD HH:MM:SS` text for these fields.
spec fn space_stamp_text(y: int, mo: int, d: int, h: int, mi: int, sc: int) -> Seq<char> {
    format_int_seq(y, 4) + seq!['-'] + format_int_seq(mo, 2) + seq!['-'] + format_int_seq(d, 2)
        + seq![' '] + format_int_seq(h, 2) + seq![':'] + format_int_seq(mi, 2) + seq![':']
        + format_int_seq(sc, 2)
}

/// `event_timestamp_seq` turns the RFC 3339 text of these fields into the
/// space-separated form.
#[verifier::spinoff_prover]
#[verifier::rlimit(40)]
proof fn lemma_event_timestamp_of_stamp(y: int, mo: int, d: int, h: int, mi: int, sc: int)
    requires
        0 <= y <= i64::MAX,
        0 <= mo <= i64::MAX,
        0 <= d <= i64::MAX,
        0 <= h <= i64::MAX,
        0 <= mi <= i64::MAX,
        0 <= sc <= i64::MAX,
    ensures
        event_timestamp_seq(stamp_text(y, mo, d, h, mi, sc)) == space_stamp_text(y, mo, d, h, mi, sc),
{
    let ys = format_int_seq(y, 4);
    let ms = format_int_seq(mo, 2);
    let ds = format_int_seq(d, 2);
    let hs = format_int_seq(h, 2);
    let mis = format_int_seq(mi, 2);
    let ss = format_int_seq(sc, 2);
    lemma_zero_padded_digits(y as nat, 4);
    lemma_zero_padded_digits(mo as nat, 2);
    lemma_zero_padded_digits(d as nat, 2);
    lemma_zero_padded_digits(h as nat, 2);
    lemma_zero_padded_digits(mi as nat, 2);
    lemma_zero_padded_digits(sc as nat, 2);
    let date_part = ys + seq!['-'] + (ms + seq!['-'] + ds);
    let clock = hs + seq![':'] + (mis + seq![':'] + ss);
    lemma_digits_lack(ys, 'T');
    lemma_digits_lack(ms, 'T');
    lemma_digits_lack(ds, 'T');
    lemma_digits_lack(hs, 'T');
    lemma_digits_lack(mis, 'T');
    lemma_digits_lack(ss, 'T');
    lemma_join_lacks(ms, '-', ds, 'T');
    lemma_join_lacks(ys, '-', ms + seq!['-'] + ds, 'T');
    lemma_join_lacks(mis, ':', ss, 'T');
    lemma_join_lacks(hs, ':', mis + seq![':'] + ss, 'T');
    let text = stamp_text(y, mo, d, h, mi, sc);
    assert(text =~= date_part + seq!['T'] + clock + seq!['Z']);
    let spaced = space_stamp_text(y, mo, d, h, mi, sc);
    assert(spaced =~= date_part + seq![' '] + clock);
    let mapped = text.map_values(
        |c: char|
            if c == 'T' {
                ' '
            } else {
                c
            },
    );
    assert(mapped =~= spaced + seq!['Z']) by {
        assert forall|i: int| 0 <= i < mapped.len() implies mapped[i] == (spaced + seq!['Z'])[i] by {
            if i < date_part.len() {
                assert(text[i] == date_part[i]);
            } else if i > date_part.len() && i < date_part.len() + 1 + clock.len() {
                assert(text[i] == clock[i - date_part.len() - 1]);
            }
        }
    }
    assert((spaced + seq!['Z']).drop_last() =~= spaced);
    assert(spaced.last() == ss.last());
    assert(is_ascii_digit(ss[ss.len() - 1]));
    assert(trim_end_char_seq(spaced, 'Z') == spaced);
    assert(trim_end_char_seq(spaced + seq!['Z'], 'Z') == spaced);
}

#[verifier::spinoff_prover]
#[verifier::rlimit(40)]
proof fn lemma_space_stamp_fields(y: int, mo: int, d: int, h: int, mi: int, sc: int)
    requires
        0 <= y <= i64::MAX,
        0 <= mo <= i64::MAX,
        0 <= d <= i64::MAX,
        0 <= h <= i64::MAX,
        0 <= mi <= i64::MAX,
        0 <= sc <= i64::MAX,
    ensures
        sqlite_datetime_fields(space_stamp_text(y, mo, d, h, mi, sc)) == Some((y, mo, d, h, mi, sc)),
{
    lemma_parse_padded(y as nat, 4);
    lemma_parse_padded(mo as nat, 2);
    lemma_parse_padded(d as nat, 2);
    lemma_parse_padded(h as nat, 2);
    lemma_parse_padded(mi as nat, 2);
    lemma_parse_padded(sc as nat, 2);
    let ys = format_int_seq(y, 4);
    let ms = format_int_seq(mo, 2);
    let ds = format_int_seq(d, 2);
    let hs = format_int_seq(h, 2);
    let mis = format_int_seq(mi, 2);
    let ss = format_int_seq(sc, 2);
    lemma_zero_padded_digits(y as nat, 4);
    lemma_zero_padded_digits(mo as nat, 2);
    lemma_zero_padded_digits(d as nat, 2);
    lemma_zero_padded_digits(h as nat, 2);
    lemma_zero_padded_digits(mi as nat, 2);
    lemma_zero_padded_digits(sc as nat, 2);
    let month_day = ms + seq!['-'] + ds;
    let date_part = ys + seq!['-'] + month_day;
    let minute_second = mis + seq![':'] + ss;
    let clock = hs + seq![':'] + minute_second;
    let text = space_stamp_text(y, mo, d, h, mi, sc);
    assert(text =~= date_part + seq![' '] + clock);

    lemma_digits_lack(ys, ' ');
    lemma_digits_lack(ms, ' ');
    lemma_digits_lack(ds, ' ');
    lemma_join_lacks(ms, '-', ds, ' ');
    lemma_join_lacks(ys, '-', month_day, ' ');
    lemma_digits_lack(ys, '-');
    lemma_digits_lack(ms, '-');
    lemma_digits_lack(hs, ':');
    lemma_digits_lack(mis, ':');
    lemma_digits_lack(ss, '.');

    assert(!is_white_space(text[0])) by {
        assert(text[0] == ys[0]);
        assert(is_ascii_digit(ys[0]));
    }
    assert(trim_start_seq(text) == text);
    assert(text.last() == ss.last());
    assert(is_ascii_digit(ss[ss.len() - 1]));
    assert(!is_white_space(text.last()));
    assert(trim_end_seq(text) == text);
    assert(trim_seq(text) == text);

    lemma_split_at_separator(date_part, ' ', clock);
    lemma_split_at_separator(ys, '-', month_day);
    lemma_split_at_separator(ms, '-', ds);
    assert(clock.last() == ss.last());
    assert(trim_end_char_seq(clock, 'Z') == clock);
    lemma_split_at_separator(hs, ':', minute_second);
    lemma_split_at_separator(mis, ':', ss);
    lemma_split_absent(ss, '.');
    assert(first_piece_seq(ss, '.') == ss);
}

/// `unix_from_sqlite_datetime` also reads back the `YYYY-MM-DD HH:MM:SS`
/// form the cache stores (`event_timestamp` of the RFC 3339 text): it
/// parses, without overflow, to the same timestamp.
pub proof fn law_sqlite_datetime_reads_event_timestamp(t: int)
    requires
        in_i64(t),
        civil_from_days_spec(t / 86400).0 >= 0,
    ensures
        sqlite_datetime_fits(event_timestamp_seq(rfc3339_seq(t))),
        sqlite_datetime_fields(event_timestamp_seq(rfc3339_seq(t))) is Some,
        unix_of_fields(sqlite_datetime_fields(event_timestamp_seq(rfc3339_seq(t)))->0) == t,
{
    let days = t / 86400;
    let secs = t % 86400;
    lemma_stamp_calendar(t);
    lemma_time_parts(secs);
    let date = civil_from_days_spec(days);
    let h = secs / 3600;
    let mi = (secs % 3600) / 60;
    let sc = secs % 60;
    law_sqlite_datetime_reads_rfc3339(t);
    lemma_stamp_fields(date.0, date.1, date.2, h, mi, sc);
    lemma_event_timestamp_of_stamp(date.0, date.1, date.2, h, mi, sc);
    lemma_space_stamp_fields(date.0, date.1, date.2, h, mi, sc);
    assert(rfc3339_seq(t) == stamp_text(date.0, date.1, date.2, h, mi, sc));
    assert(sqlite_datetime_fields(event_timestamp_seq(rfc3339_seq(t))) == sqlite_datetime_fields(
        rfc3339_seq(t),
    ));
}

/// Calendar order of `(year, month, day)` triples.
spec fn date_lt(a: (int, int, int), b: (int, int, int)) -> bool {
    a.0 < b.0 || (a.0 == b.0 && (a.1 < b.1 || (a.1 == b.1 && a.2 < b.2)))
}

/// The day after day `z` is the calendar's next date, which comes later.
proof fn lemma_civil_step(z: int)
    ensures
        civil_from_days_spec(z + 1) == next_date(
            civil_from_days_spec(z).0,
            civil_from_days_spec(z).1,
            civil_from_days_spec(z).2,
        ),
        date_lt(civil_from_days_spec(z), civil_from_days_spec(z + 1)),
{
    let c = civil_from_days_spec(z);
    lemma_civil_round_trip_from_days(z);
    law_days_from_civil_next_day(c.0, c.1, c.2);
    let n = next_date(c.0, c.1, c.2);
    law_civil_round_trip_from_date(n.0, n.1, n.2);
}

/// Later days have later dates.
proof fn lemma_civil_monotone(z1: int, z2: int)
    requires
        z1 < z2,
    ensures
        date_lt(civil_from_days_spec(z1), civil_from_days_spec(z2)),
    decreases z2 - z1,
{
    lemma_civil_step(z1);
    if z1 + 1 < z2 {
        lemma_civil_monotone(z1 + 1, z2);
    }
}

proof fn lemma_two_digits(n: int)
    requires
        0 <= n < 100,
    ensures
        format_int_seq(n, 2) == seq![digit_char(n / 10), digit_char(n % 10)],
{
    reveal_with_fuel(decimal_seq, 3);
    if n < 10 {
        assert(decimal_seq(n as nat) == seq![digit_char(n)]);
        assert(Seq::new(1, |i: int| '0') + seq![digit_char(n)] =~= seq![digit_char(n / 10), digit_char(n % 10)]);
    } else {
        assert(decimal_seq((n / 10) as nat) == seq![digit_char(n / 10)]);
        assert(decimal_seq(n as nat) =~= seq![digit_char(n / 10), digit_char(n % 10)]);
    }
}

proof fn lemma_four_digits(n: int)
    requires
        0 <= n < 10000,
    ensures
        format_int_seq(n, 4) == seq![
            digit_char(n / 1000),
            digit_char((n / 100) % 10),
            digit_char((n / 10) % 10),
            digit_char(n % 10),
        ],
{
    reveal_with_fuel(decimal_seq, 5);
    let expected = seq![
        digit_char(n / 1000),
        digit_char((n / 100) % 10),
        digit_char((n / 10) % 10),
        digit_char(n % 10),
    ];
    if n < 10 {
        assert(decimal_seq(n as nat) == seq![digit_char(n)]);
        assert(Seq::new(3, |i: int| '0') + seq![digit_char(n)] =~= expected);
    } else if n < 100 {
        assert(decimal_seq((n / 10) as nat) == seq![digit_char(n / 10)]);
        assert(decimal_seq(n as nat) =~= seq![digit_char(n / 10), digit_char(n % 10)]);
        assert(Seq::new(2, |i: int| '0') + decimal_seq(n as nat) =~= expected);
    } else if n < 1000 {
        assert(decimal_seq((n / 100) as nat) == seq![digit_char(n / 100)]);
        assert(decimal_seq((n / 10) as nat) =~= seq![digit_char(n / 100), digit_char((n / 10) % 10)]);
        assert(decimal_seq(n as nat) =~= seq![
            digit_char(n / 100),
            digit_char((n / 10) % 10),
            digit_char(n % 10),
        ]);
        assert(Seq::new(1, |i: int| '0') + decimal_seq(n as nat) =~= expected);
    } else {
        assert(decimal_seq((n / 1000) as nat) == seq![digit_char(n / 1000)]);
        assert(decimal_seq((n / 100) as nat) =~= seq![digit_char(n / 1000), digit_char((n / 100) % 10)]);
        assert(decimal_seq((n / 10) as nat) =~= seq![
            digit_char(n / 1000),
            digit_char((n / 100) % 10),
            digit_char((n / 10) % 10),
        ]);
        assert(decimal_seq(n as nat) =~= expected);
    }
}

/// Character `i` of the 20-character RFC 3339 text of these fields.
spec fn stamp_char(f: (int, int, int, int, int, int), i: int) -> char {
    if i == 0 {
        digit_char(f.0 / 1000)
    } else if i == 1 {
        digit_char((f.0 / 100) % 10)
    } else if i == 2 {
        digit_char((f.0 / 10) % 10)
    } else if i == 3 {
        digit_char(f.0 % 10)
    } else if i == 4 || i == 7 {
        '-'
    } else if i == 5 {
        digit_char(f.1 / 10)
    } else if i == 6 {
        digit_char(f.1 % 10)
    } else if i == 8 {
        digit_char(f.2 / 10)
    } else if i == 9 {
        digit_char(f.2 % 10)
    } else if i == 10 {
        'T'
    } else if i == 11 {
        digit_char(f.3 / 10)
    } else if i == 12 {
        digit_char(f.3 % 10)
    } else if i == 13 || i == 16 {
        ':'
    } else if i == 14 {
        digit_char(f.4 / 10)
    } else if i == 15 {
        digit_char(f.4 % 10)
    } else if i == 17 {
        digit_char(f.5 / 10)
    } else if i == 18 {
        digit_char(f.5 % 10)
    } else {
        'Z'
    }
}

spec fn stamp_fields_fit(f: (int, int, int, int, int, int)) -> bool {
    &&& 0 <= f.0 < 10000
    &&& 0 <= f.1 < 100
    &&& 0 <= f.2 < 100
    &&& 0 <= f.3 < 100
    &&& 0 <= f.4 < 100
    &&& 0 <= f.5 < 100
}

#[verifier::spinoff_prover]
proof fn lemma_stamp_chars(f: (int, int, int, int, int, int))
    requires
        stamp_fields_fit(f),
    ensures
        stamp_text(f.0, f.1, f.2, f.3, f.4, f.5) == Seq::new(20, |i: int| stamp_char(f, i)),
{
    lemma_four_digits(f.0);
    lemma_two_digits(f.1);
    lemma_two_digits(f.2);
    lemma_two_digits(f.3);
    lemma_two_digits(f.4);
    lemma_two_digits(f.5);
    let t = stamp_text(f.0, f.1, f.2, f.3, f.4, f.5);
    let e = Seq::new(20, |i: int| stamp_char(f, i));
    assert(t.len() == 20);
    assert forall|i: int| 0 <= i < 20 implies t[i] == e[i] by {
        if i < 4 {
            assert(t[i] == format_int_seq(f.0, 4)[i]);
        } else if i == 5 || i == 6 {
            assert(t[i] == format_int_seq(f.1, 2)[i - 5]);
        } else if i == 8 || i == 9 {
            assert(t[i] == format_int_seq(f.2, 2)[i - 8]);
        } else if i == 11 || i == 12 {
            assert(t[i] == format_int_seq(f.3, 2)[i - 11]);
        } else if i == 14 || i == 15 {
            assert(t[i] == format_int_seq(f.4, 2)[i - 14]);
        } else if i == 17 || i == 18 {
            assert(t[i] == format_int_seq(f.5, 2)[i - 17]);
        }
    }
    assert(t =~= e);
}

/// A first differing character that is smaller puts a string first.
proof fn lemma_lex_first_diff(a: Seq<char>, b: Seq<char>, k: int)
    requires
        a.len() == b.len(),
        0 <= k < a.len(),
        forall|j: int| 0 <= j < k ==> a[j] == b[j],
        (a[k] as u32) < (b[k] as u32),
    ensures
        seq_lex_lt(a, b),
{
    assert(a.take(k) =~= b.take(k));
}

proof fn lemma_digit_char_ordered(x: int, y: int)
    requires
        0 <= x < y < 10,
    ensures
        (digit_char(x) as u32) < (digit_char(y) as u32),
{
    assert((digit_char(x) as int) == x + 48);
    assert((digit_char(y) as int) == y + 48);
}

/// Fields in order give texts in order.
#[verifier::spinoff_prover]
#[verifier::rlimit(40)]
proof fn lemma_stamp_ordered(f: (int, int, int, int, int, int), g: (int, int, int, int, int, int))
    requires
        stamp_fields_fit(f),
        stamp_fields_fit(g),
        f.0 < g.0 || (f.0 == g.0 && (f.1 < g.1 || (f.1 == g.1 && (f.2 < g.2 || (f.2 == g.2 && (f.3
            < g.3 || (f.3 == g.3 && (f.4 < g.4 || (f.4 == g.4 && f.5 < g.5))))))))),
    ensures
        seq_lex_lt(Seq::new(20, |i: int| stamp_char(f, i)), Seq::new(20, |i: int| stamp_char(g, i))),
{
    let a = Seq::new(20, |i: int| stamp_char(f, i));
    let b = Seq::new(20, |i: int| stamp_char(g, i));
    if f.0 != g.0 {
        if f.0 / 1000 != g.0 / 1000 {
            lemma_digit_char_ordered(f.0 / 1000, g.0 / 1000);
            lemma_lex_first_diff(a, b, 0);
        } else if (f.0 / 100) % 10 != (g.0 / 100) % 10 {
            lemma_digit_char_ordered((f.0 / 100) % 10, (g.0 / 100) % 10);
            lemma_lex_first_diff(a, b, 1);
        } else if (f.0 / 10) % 10 != (g.0 / 10) % 10 {
            lemma_digit_char_ordered((f.0 / 10) % 10, (g.0 / 10) % 10);
            lemma_lex_first_diff(a, b, 2);
        } else {
            lemma_digit_char_ordered(f.0 % 10, g.0 % 10);
            lemma_lex_first_diff(a, b, 3);
        }
    } else if f.1 != g.1 {
        if f.1 / 10 != g.1 / 10 {
            lemma_digit_char_ordered(f.1 / 10, g.1 / 10);
            lemma_lex_first_diff(a, b, 5);
        } else {
            lemma_digit_char_ordered(f.1 % 10, g.1 % 10);
            lemma_lex_first_diff(a, b, 6);
        }
    } else if f.2 != g.2 {
        if f.2 / 10 != g.2 / 10 {
            lemma_digit_char_ordered(f.2 / 10, g.2 / 10);
            lemma_lex_first_diff(a, b, 8);
        } else {
            lemma_digit_char_ordered(f.2 % 10, g.2 % 10);
            lemma_lex_first_diff(a, b, 9);
        }
    } else if f.3 != g.3 {
        if f.3 / 10 != g.3 / 10 {
            lemma_digit_char_ordered(f.3 / 10, g.3 / 10);
            lemma_lex_first_diff(a, b, 11);
        } else {
            lemma_digit_char_ordered(f.3 % 10, g.3 % 10);
            lemma_lex_first_diff(a, b, 12);
        }
    } else if f.4 != g.4 {
        if f.4 / 10 != g.4 / 10 {
            lemma_digit_char_ordered(f.4 / 10, g.4 / 10);
            lemma_lex_first_diff(a, b, 14);
        } else {
            lemma_digit_char_ordered(f.4 % 10, g.4 % 10);
            lemma_lex_first_diff(a, b, 15);
        }
    } else {
        if f.5 / 10 != g.5 / 10 {
            lemma_digit_char_ordered(f.5 / 10, g.5 / 10);
            lemma_lex_first_diff(a, b, 17);
        } else {
            lemma_digit_char_ordered(f.5 % 10, g.5 % 10);
            lemma_lex_first_diff(a, b, 18);
        }
    }
}

/// The six fields `rfc3339_seq` writes for `t`.
spec fn rfc3339_fields(t: int) -> (int, int, int, int, int, int) {
    let date = civil_from_days_spec(t / 86400);
    let secs = t % 86400;
    (date.0, date.1, date.2, secs / 3600, (secs % 3600) / 60, secs % 60)
}

/// The last second the four-digit year can write: 9999-12-31T23:59:59Z.
pub open spec fn rfc3339_last_second() -> int {
    253_402_300_799
}

proof fn lemma_rfc3339_fields(t: int)
    requires
        0 <= t <= rfc3339_last_second(),
    ensures
        ({
            let f = rfc3339_fields(t);
            &&& stamp_fields_fit(f)
            &&& is_valid_date(f.0, f.1, f.2)
            &&& 1970 <= f.0 <= 9999
            &&& 0 <= f.3 < 24
            &&& 0 <= f.4 < 60
            &&& 0 <= f.5 < 60
            &&& rfc3339_seq(t) == stamp_text(f.0, f.1, f.2, f.3, f.4, f.5)
        }),
{
    let days = t / 86400;
    let secs = t % 86400;
    vstd::arithmetic::div_mod::lemma_fundamental_div_mod(t, 86400);
    vstd::arithmetic::div_mod::lemma_mod_bound(t, 86400);
    lemma_time_parts(secs);
    lemma_civil_round_trip_from_days(days);
    law_days_from_civil_epoch();
    law_civil_round_trip_from_date(9999, 12, 31);
    assert(days_from_civil_spec(9999, 12, 31) == 2932896);
    assert(0 <= days <= 2932896);
    if days > 0 {
        lemma_civil_monotone(0, days);
    }
    if days < 2932896 {
        lemma_civil_monotone(days, 2932896);
    }
}

/// RFC 3339 text has one fixed shape: from the epoch through the last
/// second of year 9999, `rfc3339_from_unix` writes `YYYY-MM-DDTHH:MM:SSZ`,
/// twenty characters with digits everywhere but the separators, naming a
/// real calendar date and a time of day that read back as `t`.
pub proof fn law_rfc3339_fixed_shape(t: int)
    requires
        0 <= t <= rfc3339_last_second(),
    ensures
        rfc3339_seq(t).len() == 20,
        rfc3339_seq(t)[4] == '-' && rfc3339_seq(t)[7] == '-' && rfc3339_seq(t)[10] == 'T'
            && rfc3339_seq(t)[13] == ':' && rfc3339_seq(t)[16] == ':' && rfc3339_seq(t)[19] == 'Z',
        forall|i: int|
            0 <= i < 20 && i != 4 && i != 7 && i != 10 && i != 13 && i != 16 && i != 19
                ==> is_ascii_digit(#[trigger] rfc3339_seq(t)[i]),
        sqlite_datetime_fields(rfc3339_seq(t)) matches Some(f) && is_valid_date(f.0, f.1, f.2) && 1970
            <= f.0 <= 9999 && 0 <= f.3 < 24 && 0 <= f.4 < 60 && 0 <= f.5 < 60 && unix_of_fields(f)
            == t,
{
    let f = rfc3339_fields(t);
    lemma_rfc3339_fields(t);
    lemma_stamp_chars(f);
    lemma_stamp_fields(f.0, f.1, f.2, f.3, f.4, f.5);
    law_sqlite_datetime_reads_rfc3339(t);
    let s = rfc3339_seq(t);
    assert forall|i: int|
        0 <= i < 20 && i != 4 && i != 7 && i != 10 && i != 13 && i != 16 && i != 19 implies is_ascii_digit(
        #[trigger] s[i],
    ) by {
        assert(s[i] == stamp_char(f, i));
        let d = if i == 0 {
            f.0 / 1000
        } else if i == 1 {
            (f.0 / 100) % 10
        } else if i == 2 {
            (f.0 / 10) % 10
        } else if i == 3 {
            f.0 % 10
        } else if i == 5 {
            f.1 / 10
        } else if i == 6 {
            f.1 % 10
        } else if i == 8 {
            f.2 / 10
        } else if i == 9 {
            f.2 % 10
        } else if i == 11 {
            f.3 / 10
        } else if i == 12 {
            f.3 % 10
        } else if i == 14 {
            f.4 / 10
        } else if i == 15 {
            f.4 % 10
        } else if i == 17 {
            f.5 / 10
        } else {
            f.5 % 10
        };
        assert(0 <= d < 10);
        assert(s[i] == digit_char(d));
        assert((digit_char(d) as int) == d + 48);
    }
}

/// RFC 3339 text sorts as time does: from the epoch through the last
/// second of year 9999, a later second is written as a string that sorts
/// after the earlier one's.
pub proof fn law_rfc3339_text_orders_as_time(t1: int, t2: int)
    requires
        0 <= t1 < t2 <= rfc3339_last_second(),
    ensures
        seq_lex_lt(rfc3339_seq(t1), rfc3339_seq(t2)),
{
    let f = rfc3339_fields(t1);
    let g = rfc3339_fields(t2);
    lemma_rfc3339_fields(t1);
    lemma_rfc3339_fields(t2);
    lemma_stamp_chars(f);
    lemma_stamp_chars(g);
    vstd::arithmetic::div_mod::lemma_fundamental_div_mod(t1, 86400);
    vstd::arithmetic::div_mod::lemma_fundamental_div_mod(t2, 86400);
    vstd::arithmetic::div_mod::lemma_mod_bound(t1, 86400);
    vstd::arithmetic::div_mod::lemma_mod_bound(t2, 86400);
    lemma_time_parts(t1 % 86400);
    lemma_time_parts(t2 % 86400);
    if t1 / 86400 < t2 / 86400 {
        lemma_civil_monotone(t1 / 86400, t2 / 86400);
    } else {
        assert(t1 / 86400 == t2 / 86400);
        assert(t1 % 86400 < t2 % 86400);
    }
    lemma_stamp_ordered(f, g);
}

} // verus!
