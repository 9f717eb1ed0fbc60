use vstd::prelude::*;

use vstd::arithmetic::power2::pow2;

use crate::fnv::{fnv1a64, fnv_fold, FNV_OFFSET_BASIS};
use crate::text::{chars_of, string_of};

verus! {

/// Crockford base32 digit `d` (`0123456789ABCDEFGHJKMNPQRSTVWXYZ`).
pub open spec fn crockford_char(d: int) -> char {
    if d < 10 {
        (48 + d) as char
    } else if d < 18 {
        (55 + d) as char
    } else if d < 20 {
        (56 + d) as char
    } else if d < 22 {
        (57 + d) as char
    } else if d < 27 {
        (58 + d) as char
    } else {
        (59 + d) as char
    }
}

/// The 128-bit ULID value: 48-bit millisecond time (the low 48 bits of
/// `ms`), then 64 and 16 bits of randomness.
pub open spec fn ulid_value(ms: u64, hi: u64, lo: u16) -> int {
    (ms as int % 0x1_0000_0000_0000) * 0x1_0000_0000_0000_0000_0000 + hi as int * 0x10000 + lo as int
}

/// Base32 digit `i` (most significant first) of a 128-bit value written
/// as 26 digits: bits `125 - 5 i` and up.
pub open spec fn ulid_digit(value: int, i: int) -> int {
    (value / pow2((125 - 5 * i) as nat) as int) % 32
}

/// The 26-character Crockford encoding of a ULID.
pub open spec fn ulid_seq(ms: u64, hi: u64, lo: u16) -> Seq<char> {
    Seq::new(26, |i: int| crockford_char(ulid_digit(ulid_value(ms, hi, lo), i)))
}

/// Lexicographic order of character sequences (the order of `String`s).
pub open spec fn seq_lex_lt(a: Seq<char>, b: Seq<char>) -> bool {
    exists|k: int|
        #![trigger a.take(k), b.take(k)]
        0 <= k <= a.len() && k <= b.len() && a.take(k) == b.take(k) && ((k < a.len() && k
            < b.len() && (a[k] as u32) < (b[k] as u32)) || (k == a.len() && k < b.len()))
}

fn crockford_digit(d: u128) -> (c: char)
    requires
        d < 32,
    ensures
        c == crockford_char(d as int),
{
    let v: u32 = d as u32;
    let code: u32 = if v < 10 {
        48 + v
    } else if v < 18 {
        55 + v
    } else if v < 20 {
        56 + v
    } else if v < 22 {
        57 + v
    } else if v < 27 {
        58 + v
    } else {
        59 + v
    };
    let b: u8 = code as u8;
    b as char
}

/// 48-bit ms timestamp + 80-bit randomness, Crockford base32, 26 chars.
pub fn encode_ulid(ms: u64, rand_hi: u64, rand_lo: u16) -> (ulid: String)
    ensures
        ulid@ == ulid_seq(ms, rand_hi, rand_lo),
{
    let time = ms & 0xFFFF_FFFF_FFFF;
    let value: u128 = ((time as u128) << 80u128) | ((rand_hi as u128) << 16u128) | (rand_lo as u128);
    proof {
        assert(time == ms % 0x1_0000_0000_0000) by (bit_vector)
            requires
                time == ms & 0xFFFF_FFFF_FFFF,
        ;
        assert(value == (time as u128) * 0x1_0000_0000_0000_0000_0000u128 + (rand_hi as u128)
            * 0x10000u128 + (rand_lo as u128)) by (bit_vector)
            requires
                time < 0x1_0000_0000_0000u64,
                value == ((time as u128) << 80u128) | ((rand_hi as u128) << 16u128) | (
                rand_lo as u128),
        ;
        assert(value as int == ulid_value(ms, rand_hi, rand_lo));
    }
    let mut out: Vec<char> = Vec::new();
    let mut index: u128 = 0;
    while index < 26
        invariant
            index <= 26,
            value as int == ulid_value(ms, rand_hi, rand_lo),
            out@.len() == index,
            forall|j: int| 0 <= j < index ==> out@[j] == ulid_seq(ms, rand_hi, rand_lo)[j],
        decreases 26 - index,
    {
        let shift: u128 = 125 - 5 * index;
        let shifted = value >> shift;
        let digit = shifted & 0x1F;
        proof {
            vstd::bits::lemma_u128_shr_is_div(value, shift);
            assert(digit == shifted % 32) by (bit_vector)
                requires
                    digit == shifted & 0x1F,
            ;
        }
        out.push(crockford_digit(digit));
        index = index + 1;
    }
    assert(out@ =~= ulid_seq(ms, rand_hi, rand_lo));
    string_of(&out)
}

/// One more than the largest 128-bit value.
pub open spec fn two_pow_128() -> int {
    0x1_0000_0000_0000_0000_0000_0000_0000_0000int
}

/// The value of the first `i + 1` base32 digits.
spec fn ulid_prefix(value: int, i: int) -> int {
    value / pow2((125 - 5 * i) as nat) as int
}

proof fn lemma_prefix_step(value: int, i: int)
    requires
        0 <= value,
        0 <= i < 25,
    ensures
        ulid_prefix(value, i + 1) == 32 * ulid_prefix(value, i) + ulid_digit(value, i + 1),
{
    let small = pow2((125 - 5 * (i + 1)) as nat) as int;
    vstd::arithmetic::power2::lemma_pow2_adds((125 - 5 * (i + 1)) as nat, 5);
    vstd::arithmetic::power2::lemma2_to64();
    vstd::arithmetic::power2::lemma_pow2_pos((125 - 5 * (i + 1)) as nat);
    assert(pow2((125 - 5 * i) as nat) as int == small * 32);
    vstd::arithmetic::div_mod::lemma_div_denominator(value, small, 32);
    vstd::arithmetic::div_mod::lemma_fundamental_div_mod(value / small, 32);
}

proof fn lemma_prefix_top(value: int)
    requires
        0 <= value < two_pow_128(),
    ensures
        ulid_digit(value, 0) == ulid_prefix(value, 0),
        0 <= ulid_prefix(value, 0) < 8,
{
    vstd::arithmetic::power2::lemma_pow2_adds(125, 3);
    vstd::arithmetic::power2::lemma_pow2_adds(64, 64);
    vstd::arithmetic::power2::lemma2_to64();
    vstd::arithmetic::power2::lemma2_to64_rest();
    vstd::arithmetic::power2::lemma_pow2_pos(125);
    assert(pow2(125) as int * 8 == two_pow_128());
    vstd::arithmetic::div_mod::lemma_div_pos_is_pos(value, pow2(125) as int);
    vstd::arithmetic::div_mod::lemma_div_by_multiple_is_strongly_ordered(
        value,
        two_pow_128(),
        8,
        pow2(125) as int,
    );
    vstd::arithmetic::div_mod::lemma_div_by_multiple(8, pow2(125) as int);
}

proof fn lemma_prefix_ordered(v: int, w: int, i: int)
    requires
        0 <= v <= w,
        0 <= i <= 25,
    ensures
        ulid_prefix(v, i) <= ulid_prefix(w, i),
        i == 25 ==> ulid_prefix(v, i) == v && ulid_prefix(w, i) == w,
{
    vstd::arithmetic::power2::lemma_pow2_pos((125 - 5 * i) as nat);
    vstd::arithmetic::div_mod::lemma_div_is_ordered(v, w, pow2((125 - 5 * i) as nat) as int);
    if i == 25 {
        vstd::arithmetic::power2::lemma2_to64();
    }
}

/// The first base32 digit (from position `i`) where two different values
/// differ is smaller in the smaller value.
proof fn lemma_first_smaller_digit(v: int, w: int, i: int) -> (k: int)
    requires
        0 <= v < w < two_pow_128(),
        0 <= i <= 25,
        i > 0 ==> ulid_prefix(v, i - 1) == ulid_prefix(w, i - 1),
        forall|j: int| 0 <= j < i ==> ulid_digit(v, j) == ulid_digit(w, j),
    ensures
        i <= k < 26,
        forall|j: int| 0 <= j < k ==> ulid_digit(v, j) == ulid_digit(w, j),
        ulid_digit(v, k) < ulid_digit(w, k),
    decreases 25 - i,
{
    lemma_prefix_ordered(v, w, i);
    if i > 0 {
        lemma_prefix_step(v, i - 1);
        lemma_prefix_step(w, i - 1);
    } else {
        lemma_prefix_top(v);
        lemma_prefix_top(w);
    }
    if ulid_prefix(v, i) == ulid_prefix(w, i) {
        lemma_first_smaller_digit(v, w, i + 1)
    } else {
        i
    }
}

proof fn lemma_crockford_ordered(a: int, b: int)
    requires
        0 <= a < b < 32,
    ensures
        (crockford_char(a) as u32) < (crockford_char(b) as u32),
{
}

/// ULID strings sort as the values they encode: a smaller value encodes to
/// a string that is lexicographically smaller.
pub proof fn lemma_ulid_seq_ordered(a_ms: u64, a_hi: u64, a_lo: u16, b_ms: u64, b_hi: u64, b_lo: u16)
    requires
        ulid_value(a_ms, a_hi, a_lo) < ulid_value(b_ms, b_hi, b_lo),
    ensures
        seq_lex_lt(ulid_seq(a_ms, a_hi, a_lo), ulid_seq(b_ms, b_hi, b_lo)),
{
    let v = ulid_value(a_ms, a_hi, a_lo);
    let w = ulid_value(b_ms, b_hi, b_lo);
    let a = ulid_seq(a_ms, a_hi, a_lo);
    let b = ulid_seq(b_ms, b_hi, b_lo);
    let k = lemma_first_smaller_digit(v, w, 0);
    assert(a.take(k) =~= b.take(k));
    vstd::arithmetic::div_mod::lemma_mod_bound(v / pow2((125 - 5 * k) as nat) as int, 32);
    vstd::arithmetic::div_mod::lemma_mod_bound(w / pow2((125 - 5 * k) as nat) as int, 32);
    lemma_crockford_ordered(ulid_digit(v, k), ulid_digit(w, k));
}

/// ULIDs order by timestamp first (within the 48-bit range), then by their
/// randomness: the encoding preserves that order as string order.
pub proof fn law_ulid_orders_by_time_then_randomness(
    a_ms: u64,
    a_hi: u64,
    a_lo: u16,
    b_ms: u64,
    b_hi: u64,
    b_lo: u16,
)
    requires
        a_ms < 0x1_0000_0000_0000,
        b_ms < 0x1_0000_0000_0000,
        a_ms < b_ms || (a_ms == b_ms && (a_hi < b_hi || (a_hi == b_hi && a_lo < b_lo))),
    ensures
        seq_lex_lt(ulid_seq(a_ms, a_hi, a_lo), ulid_seq(b_ms, b_hi, b_lo)),
{
    lemma_ulid_seq_ordered(a_ms, a_hi, a_lo, b_ms, b_hi, b_lo);
}

/// String order is a strict order: no string sorts before itself, and two
/// strings never sort before each other.
proof fn lemma_seq_lex_lt_asymmetric(a: Seq<char>, b: Seq<char>)
    ensures
        seq_lex_lt(a, b) ==> !seq_lex_lt(b, a),
{
    if seq_lex_lt(a, b) && seq_lex_lt(b, a) {
        let k1 = choose|k: int|
            #![trigger a.take(k), b.take(k)]
            0 <= k <= a.len() && k <= b.len() && a.take(k) == b.take(k) && ((k < a.len() && k
                < b.len() && (a[k] as u32) < (b[k] as u32)) || (k == a.len() && k < b.len()));
        let k2 = choose|k: int|
            #![trigger b.take(k), a.take(k)]
            0 <= k <= b.len() && k <= a.len() && b.take(k) == a.take(k) && ((k < b.len() && k
                < a.len() && (b[k] as u32) < (a[k] as u32)) || (k == b.len() && k < a.len()));
        if k1 < k2 {
            assert(a.take(k2)[k1] == b.take(k2)[k1]);
        } else if k2 < k1 {
            assert(a.take(k1)[k2] == b.take(k1)[k2]);
        }
    }
}

/// The three parts of a ULID read back from its 128-bit value.
proof fn lemma_ulid_value_parts(ms: u64, hi: u64, lo: u16)
    ensures
        ulid_value(ms, hi, lo) / 0x1_0000_0000_0000_0000_0000 == ms as int % 0x1_0000_0000_0000,
        ulid_value(ms, hi, lo) % 0x1_0000_0000_0000_0000_0000 == hi as int * 0x10000 + lo as int,
        (ulid_value(ms, hi, lo) / 0x10000) % 0x1_0000_0000_0000_0000 == hi as int,
        ulid_value(ms, hi, lo) % 0x10000 == lo as int,
        0 <= ulid_value(ms, hi, lo) < two_pow_128(),
{
    let t = ms as int % 0x1_0000_0000_0000;
    let v = ulid_value(ms, hi, lo);
    let r = hi as int * 0x10000 + lo as int;
    assert(0 <= r < 0x1_0000_0000_0000_0000_0000) by (nonlinear_arith)
        requires
            r == hi as int * 0x10000 + lo as int,
            0 <= hi < 0x1_0000_0000_0000_0000,
            0 <= lo < 0x10000,
    ;
    vstd::arithmetic::div_mod::lemma_fundamental_div_mod_converse(
        v,
        0x1_0000_0000_0000_0000_0000,
        t,
        r,
    );
    vstd::arithmetic::div_mod::lemma_fundamental_div_mod_converse(
        v,
        0x10000,
        t * 0x1_0000_0000_0000_0000 + hi as int,
        lo as int,
    );
    vstd::arithmetic::div_mod::lemma_fundamental_div_mod_converse(
        t * 0x1_0000_0000_0000_0000 + hi as int,
        0x1_0000_0000_0000_0000,
        t,
        hi as int,
    );
    assert(0 <= v < two_pow_128()) by (nonlinear_arith)
        requires
            v == t * 0x1_0000_0000_0000_0000_0000 + r,
            0 <= t < 0x1_0000_0000_0000,
            0 <= r < 0x1_0000_0000_0000_0000_0000,
    ;
}

/// The first ten base32 digits are those of the time part alone.
proof fn lemma_time_digits(value: int, i: int)
    requires
        0 <= value,
        0 <= i < 10,
    ensures
        ulid_digit(value, i) == (value / 0x1_0000_0000_0000_0000_0000 / pow2((45 - 5 * i) as nat) as int) % 32,
{
    vstd::arithmetic::power2::lemma_pow2_adds(80, (45 - 5 * i) as nat);
    vstd::arithmetic::power2::lemma2_to64();
    vstd::arithmetic::power2::lemma2_to64_rest();
    vstd::arithmetic::power2::lemma_pow2_pos((45 - 5 * i) as nat);
    vstd::arithmetic::power2::lemma_pow2_adds(64, 16);
    assert(pow2(80) == 0x1_0000_0000_0000_0000_0000);
    vstd::arithmetic::div_mod::lemma_div_denominator(
        value,
        0x1_0000_0000_0000_0000_0000,
        pow2((45 - 5 * i) as nat) as int,
    );
}

/// Equal leading digits mean equal leading values.
proof fn lemma_equal_digits_equal_prefix(v: int, w: int, i: int)
    requires
        0 <= v < two_pow_128(),
        0 <= w < two_pow_128(),
        0 <= i <= 25,
        forall|j: int| 0 <= j <= i ==> ulid_digit(v, j) == ulid_digit(w, j),
    ensures
        ulid_prefix(v, i) == ulid_prefix(w, i),
    decreases i,
{
    if i == 0 {
        lemma_prefix_top(v);
        lemma_prefix_top(w);
    } else {
        lemma_equal_digits_equal_prefix(v, w, i - 1);
        lemma_prefix_step(v, i - 1);
        lemma_prefix_step(w, i - 1);
    }
}

/// A ULID's text determines its parts and orders as they do: within the
/// 48-bit time range, one ULID sorts before another exactly when its
/// `(time, high, low)` parts do, two ULIDs are equal exactly when their
/// parts are, and the first ten characters agree exactly when the times do
/// (they depend on the time alone).
pub proof fn law_ulid_text_orders_and_identifies_parts(
    a_ms: u64,
    a_hi: u64,
    a_lo: u16,
    b_ms: u64,
    b_hi: u64,
    b_lo: u16,
)
    requires
        a_ms < 0x1_0000_0000_0000,
        b_ms < 0x1_0000_0000_0000,
    ensures
        ulid_seq(a_ms, a_hi, a_lo).len() == 26,
        seq_lex_lt(ulid_seq(a_ms, a_hi, a_lo), ulid_seq(b_ms, b_hi, b_lo)) <==> (a_ms < b_ms || (
        a_ms == b_ms && (a_hi < b_hi || (a_hi == b_hi && a_lo < b_lo)))),
        (ulid_seq(a_ms, a_hi, a_lo) == ulid_seq(b_ms, b_hi, b_lo)) <==> (a_ms == b_ms && a_hi
            == b_hi && a_lo == b_lo),
        ulid_seq(a_ms, a_hi, a_lo).take(10) == ulid_seq(a_ms, 0, 0).take(10),
        (ulid_seq(a_ms, a_hi, a_lo).take(10) == ulid_seq(b_ms, b_hi, b_lo).take(10)) <==> a_ms
            == b_ms,
{
    let a = ulid_seq(a_ms, a_hi, a_lo);
    let b = ulid_seq(b_ms, b_hi, b_lo);
    let va = ulid_value(a_ms, a_hi, a_lo);
    let vb = ulid_value(b_ms, b_hi, b_lo);
    lemma_ulid_value_parts(a_ms, a_hi, a_lo);
    lemma_ulid_value_parts(b_ms, b_hi, b_lo);
    lemma_ulid_value_parts(a_ms, 0, 0);
    lemma_seq_lex_lt_asymmetric(a, b);
    lemma_seq_lex_lt_asymmetric(a, a);
    lemma_seq_lex_lt_asymmetric(b, b);
    let a_before = a_ms < b_ms || (a_ms == b_ms && (a_hi < b_hi || (a_hi == b_hi && a_lo < b_lo)));
    let b_before = b_ms < a_ms || (b_ms == a_ms && (b_hi < a_hi || (b_hi == a_hi && b_lo < a_lo)));
    if a_before {
        law_ulid_orders_by_time_then_randomness(a_ms, a_hi, a_lo, b_ms, b_hi, b_lo);
    }
    if b_before {
        law_ulid_orders_by_time_then_randomness(b_ms, b_hi, b_lo, a_ms, a_hi, a_lo);
    }
    // The first ten digits.
    let z = ulid_seq(a_ms, 0, 0);
    assert(a.take(10) =~= z.take(10)) by {
        assert forall|i: int| 0 <= i < 10 implies a.take(10)[i] == z.take(10)[i] by {
            lemma_time_digits(va, i);
            lemma_time_digits(ulid_value(a_ms, 0, 0), i);
        }
    }
    if a.take(10) == b.take(10) {
        assert forall|j: int| 0 <= j <= 9 implies ulid_digit(va, j) == ulid_digit(vb, j) by {
            assert(a.take(10)[j] == b.take(10)[j]);
            vstd::arithmetic::div_mod::lemma_mod_bound(va / pow2((125 - 5 * j) as nat) as int, 32);
            vstd::arithmetic::div_mod::lemma_mod_bound(vb / pow2((125 - 5 * j) as nat) as int, 32);
            vstd::arithmetic::power2::lemma_pow2_pos((125 - 5 * j) as nat);
            vstd::arithmetic::div_mod::lemma_div_pos_is_pos(va, pow2((125 - 5 * j) as nat) as int);
            vstd::arithmetic::div_mod::lemma_div_pos_is_pos(vb, pow2((125 - 5 * j) as nat) as int);
            lemma_crockford_injective(ulid_digit(va, j), ulid_digit(vb, j));
        }
        lemma_equal_digits_equal_prefix(va, vb, 9);
        vstd::arithmetic::power2::lemma2_to64();
        vstd::arithmetic::power2::lemma2_to64_rest();
        vstd::arithmetic::power2::lemma_pow2_adds(64, 16);
    assert(pow2(80) == 0x1_0000_0000_0000_0000_0000);
        assert(ulid_prefix(va, 9) == va / 0x1_0000_0000_0000_0000_0000);
        assert(ulid_prefix(vb, 9) == vb / 0x1_0000_0000_0000_0000_0000);
    }
    if a_ms == b_ms {
        let zb = ulid_seq(b_ms, 0, 0);
        assert(b.take(10) =~= zb.take(10)) by {
            assert forall|i: int| 0 <= i < 10 implies b.take(10)[i] == zb.take(10)[i] by {
                lemma_time_digits(vb, i);
                lemma_time_digits(ulid_value(b_ms, 0, 0), i);
            }
        }
    }
}

proof fn lemma_crockford_injective(a: int, b: int)
    requires
        0 <= a < 32,
        0 <= b < 32,
        crockford_char(a) == crockford_char(b),
    ensures
        a == b,
{
    if a < b {
        lemma_crockford_ordered(a, b);
    } else if b < a {
        lemma_crockford_ordered(b, a);
    }
}

/// The bytes hashed for a genesis ULID: `first`, a colon, then `second`,
/// UTF-8 encoded.
pub open spec fn genesis_key_bytes(first: Seq<char>, second: Seq<char>) -> Seq<u8> {
    vstd::utf8::encode_utf8(first + seq![':'] + second)
}

/// The genesis ULID of row `row_id` of `table`: time part from `unix_ms`,
/// 64-bit randomness the FNV-1a hash of `"{table}:{row_id}"`, 16-bit
/// randomness the low 16 bits of the hash of `"{row_id}:{table}"`.
pub open spec fn genesis_ulid_seq(unix_ms: u64, table: Seq<char>, row_id: Seq<char>) -> Seq<char> {
    ulid_seq(
        unix_ms,
        fnv_fold(FNV_OFFSET_BASIS, genesis_key_bytes(table, row_id)),
        (fnv_fold(FNV_OFFSET_BASIS, genesis_key_bytes(row_id, table)) % 0x10000) as u16,
    )
}

/// Genesis ULIDs are time ordered: a row written earlier gets a smaller
/// id than a row written later, whatever the tables and row ids; the
/// first ten characters of each are those of its time alone.
pub proof fn law_genesis_ulids_time_ordered(
    a_ms: u64,
    a_table: Seq<char>,
    a_row: Seq<char>,
    b_ms: u64,
    b_table: Seq<char>,
    b_row: Seq<char>,
)
    requires
        a_ms < b_ms < 0x1_0000_0000_0000,
    ensures
        seq_lex_lt(genesis_ulid_seq(a_ms, a_table, a_row), genesis_ulid_seq(b_ms, b_table, b_row)),
        genesis_ulid_seq(a_ms, a_table, a_row).take(10) == ulid_seq(a_ms, 0, 0).take(10),
        genesis_ulid_seq(b_ms, b_table, b_row).take(10) == ulid_seq(b_ms, 0, 0).take(10),
{
    let a_hi = fnv_fold(FNV_OFFSET_BASIS, genesis_key_bytes(a_table, a_row));
    let a_lo = (fnv_fold(FNV_OFFSET_BASIS, genesis_key_bytes(a_row, a_table)) % 0x10000) as u16;
    let b_hi = fnv_fold(FNV_OFFSET_BASIS, genesis_key_bytes(b_table, b_row));
    let b_lo = (fnv_fold(FNV_OFFSET_BASIS, genesis_key_bytes(b_row, b_table)) % 0x10000) as u16;
    law_ulid_text_orders_and_identifies_parts(a_ms, a_hi, a_lo, b_ms, b_hi, b_lo);
    law_ulid_text_orders_and_identifies_parts(b_ms, b_hi, b_lo, a_ms, a_hi, a_lo);
    law_ulid_orders_by_time_then_randomness(
        a_ms,
        fnv_fold(FNV_OFFSET_BASIS, genesis_key_bytes(a_table, a_row)),
        (fnv_fold(FNV_OFFSET_BASIS, genesis_key_bytes(a_row, a_table)) % 0x10000) as u16,
        b_ms,
        fnv_fold(FNV_OFFSET_BASIS, genesis_key_bytes(b_table, b_row)),
        (fnv_fold(FNV_OFFSET_BASIS, genesis_key_bytes(b_row, b_table)) % 0x10000) as u16,
    );
}

fn joined_with_colon(first: &str, second: &str) -> (joined: String)
    ensures
        joined@ == first@ + seq![':'] + second@,
{
    let mut chars = chars_of(first);
    chars.push(':');
    let tail = chars_of(second);
    crate::text::push_all(&mut chars, &tail);
    string_of(&chars)
}

/// Deterministic ULID for genesis events: time part from the row's
/// `created_at`, "random" part hashed from (table, id). Re-running
/// migration on the same input reproduces byte-identical events.
pub fn genesis_ulid(unix_ms: u64, table: &str, row_id: &str) -> (ulid: String)
    ensures
        ulid@ == genesis_ulid_seq(unix_ms, table@, row_id@),
{
    let forward = joined_with_colon(table, row_id);
    let backward = joined_with_colon(row_id, table);
    let hi = fnv1a64(forward.as_str().as_bytes());
    let lo_hash = fnv1a64(backward.as_str().as_bytes());
    let lo = (lo_hash & 0xFFFF) as u16;
    proof {
        assert(lo_hash & 0xFFFF == lo_hash % 0x10000) by (bit_vector);
    }
    encode_ulid(unix_ms, hi, lo)
}

/// Process state for minting ULIDs: the parts of the last one minted.
pub struct UlidMinter {
    last: Option<(u64, u64, u16)>,
}

/// The parts of the next ULID: within the millisecond of the last one (or
/// when the clock went back), the last 80-bit randomness plus one
/// (wrapping at 2^80) under the last timestamp; otherwise the fresh
/// randomness under the new timestamp.
pub open spec fn next_ulid_parts(
    last: Option<(u64, u64, u16)>,
    now_ms: u64,
    fresh_hi: u64,
    fresh_lo: u16,
) -> (u64, u64, u16) {
    match last {
        Some(parts) => if now_ms <= parts.0 {
            if parts.2 == u16::MAX {
                (parts.0, if parts.1 == u64::MAX {
                    0u64
                } else {
                    (parts.1 + 1) as u64
                }, 0u16)
            } else {
                (parts.0, parts.1, (parts.2 + 1) as u16)
            }
        } else {
            (now_ms, fresh_hi, fresh_lo)
        },
        None => (now_ms, fresh_hi, fresh_lo),
    }
}

impl UlidMinter {
    /// A minter that has minted nothing yet.
    pub fn new() -> (minter: UlidMinter)
        ensures
            minter.last_parts() is None,
    {
        UlidMinter { last: None }
    }

    /// Parts of the last ULID minted, if any.
    pub closed spec fn last_parts(&self) -> Option<(u64, u64, u16)> {
        self.last
    }
}

/// Mint a ULID at clock time `now_ms` (milliseconds since the epoch) with
/// `fresh_hi`/`fresh_lo` as the randomness for a new millisecond;
/// monotonic for same-millisecond calls on one minter.
pub fn mint_ulid(minter: &mut UlidMinter, now_ms: u64, fresh_hi: u64, fresh_lo: u16) -> (ulid: String)
    ensures
        final(minter).last_parts() == Some(
            next_ulid_parts(old(minter).last_parts(), now_ms, fresh_hi, fresh_lo),
        ),
        ulid@ == ({
            let parts = next_ulid_parts(old(minter).last_parts(), now_ms, fresh_hi, fresh_lo);
            ulid_seq(parts.0, parts.1, parts.2)
        }),
{
    let parts: (u64, u64, u16) = match minter.last {
        Some((last_ms, last_hi, last_lo)) => {
            if now_ms <= last_ms {
                if last_lo == u16::MAX {
                    (
                        last_ms,
                        if last_hi == u64::MAX {
                            0
                        } else {
                            last_hi + 1
                        },
                        0,
                    )
                } else {
                    (last_ms, last_hi, last_lo + 1)
                }
            } else {
                (now_ms, fresh_hi, fresh_lo)
            }
        },
        None => (now_ms, fresh_hi, fresh_lo),
    };
    minter.last = Some(parts);
    encode_ulid(parts.0, parts.1, parts.2)
}

/// Monotonicity within a process: every ULID a minter mints sorts after
/// the one before it, as long as timestamps stay within the 48-bit range
/// and the same-millisecond counter has not reached the top of its 80 bits.
pub proof fn law_mint_ulid_monotonic(last: (u64, u64, u16), now_ms: u64, fresh_hi: u64, fresh_lo: u16)
    requires
        last.0 < 0x1_0000_0000_0000,
        now_ms < 0x1_0000_0000_0000,
        !(last.1 == u64::MAX && last.2 == u16::MAX),
    ensures
        ({
            let next = next_ulid_parts(Some(last), now_ms, fresh_hi, fresh_lo);
            seq_lex_lt(ulid_seq(last.0, last.1, last.2), ulid_seq(next.0, next.1, next.2))
        }),
{
    let next = next_ulid_parts(Some(last), now_ms, fresh_hi, fresh_lo);
    lemma_ulid_seq_ordered(last.0, last.1, last.2, next.0, next.1, next.2);
}

/// A mint step moves to a strictly larger ULID value within the time range.
proof fn lemma_mint_value_step(last: (u64, u64, u16), now_ms: u64, fresh_hi: u64, fresh_lo: u16)
    requires
        last.0 < 0x1_0000_0000_0000,
        now_ms < 0x1_0000_0000_0000,
        !(last.1 == u64::MAX && last.2 == u16::MAX),
    ensures
        next_ulid_parts(Some(last), now_ms, fresh_hi, fresh_lo).0 < 0x1_0000_0000_0000,
        ulid_value(last.0, last.1, last.2) < ({
            let next = next_ulid_parts(Some(last), now_ms, fresh_hi, fresh_lo);
            ulid_value(next.0, next.1, next.2)
        }),
{
    let next = next_ulid_parts(Some(last), now_ms, fresh_hi, fresh_lo);
    let t = last.0 as int;
    let r = last.1 as int * 0x10000 + last.2 as int;
    let r2 = next.1 as int * 0x10000 + next.2 as int;
    assert(0 <= r < 0x1_0000_0000_0000_0000_0000) by (nonlinear_arith)
        requires
            r == last.1 as int * 0x10000 + last.2 as int,
            0 <= last.1 < 0x1_0000_0000_0000_0000,
            0 <= last.2 < 0x10000,
    ;
    assert(0 <= r2) by (nonlinear_arith)
        requires
            r2 == next.1 as int * 0x10000 + next.2 as int,
            0 <= next.1,
            0 <= next.2,
    ;
    if now_ms > last.0 {
        assert(t * 0x1_0000_0000_0000_0000_0000 + r < now_ms as int * 0x1_0000_0000_0000_0000_0000 + r2)
            by (nonlinear_arith)
            requires
                t < now_ms as int,
                0 <= r < 0x1_0000_0000_0000_0000_0000,
                0 <= r2,
        ;
    }
}

/// The parts of the ULIDs a minter mints from `start` at the successive
/// clock readings and fresh randomness of `clock`.
pub open spec fn minted_parts(start: Option<(u64, u64, u16)>, clock: Seq<(u64, u64, u16)>) -> Seq<(u64, u64, u16)>
    decreases clock.len(),
{
    if clock.len() == 0 {
        Seq::empty()
    } else {
        let before = minted_parts(start, clock.drop_last());
        let last = if before.len() == 0 {
            start
        } else {
            Some(before.last())
        };
        before.push(next_ulid_parts(last, clock.last().0, clock.last().1, clock.last().2))
    }
}

proof fn lemma_minted_values_increase(start: Option<(u64, u64, u16)>, clock: Seq<(u64, u64, u16)>)
    requires
        start matches Some(p) ==> p.0 < 0x1_0000_0000_0000 && !(p.1 == u64::MAX && p.2 == u16::MAX),
        forall|k: int| 0 <= k < clock.len() ==> (#[trigger] clock[k]).0 < 0x1_0000_0000_0000,
        forall|k: int|
            0 <= k < minted_parts(start, clock).len() - 1 ==> !((#[trigger] minted_parts(start, clock)[k]).1
                == u64::MAX && minted_parts(start, clock)[k].2 == u16::MAX),
    ensures
        minted_parts(start, clock).len() == clock.len(),
        forall|k: int|
            0 <= k < clock.len() ==> (#[trigger] minted_parts(start, clock)[k]).0 < 0x1_0000_0000_0000,
        forall|i: int, j: int|
            0 <= i < j < clock.len() ==> ulid_value(
                minted_parts(start, clock)[i].0,
                minted_parts(start, clock)[i].1,
                minted_parts(start, clock)[i].2,
            ) < ulid_value(
                minted_parts(start, clock)[j].0,
                minted_parts(start, clock)[j].1,
                minted_parts(start, clock)[j].2,
            ),
    decreases clock.len(),
{
    if clock.len() > 0 {
        let rest = clock.drop_last();
        let before = minted_parts(start, rest);
        let all = minted_parts(start, clock);
        assert forall|k: int| 0 <= k < before.len() - 1 implies !((#[trigger] before[k]).1 == u64::MAX
            && before[k].2 == u16::MAX) by {
            assert(all[k] == before[k]);
        }
        assert forall|k: int| 0 <= k < rest.len() implies (#[trigger] rest[k]).0 < 0x1_0000_0000_0000 by {
            assert(rest[k] == clock[k]);
        }
        lemma_minted_values_increase(start, rest);
        let c = clock.last();
        assert(c == clock[clock.len() - 1]);
        if before.len() > 0 {
            let p = before.last();
            assert(all[before.len() - 1] == p);
            lemma_mint_value_step(p, c.0, c.1, c.2);
        }
        let n = all.last();
        assert forall|i: int, j: int| 0 <= i < j < clock.len() implies ulid_value(
            all[i].0,
            all[i].1,
            all[i].2,
        ) < ulid_value(all[j].0, all[j].1, all[j].2) by {
            assert(all[i] == before[i]);
            if j < before.len() {
                assert(all[j] == before[j]);
            } else if i < before.len() - 1 {
                assert(ulid_value(before[i].0, before[i].1, before[i].2) < ulid_value(
                    before.last().0,
                    before.last().1,
                    before.last().2,
                ));
            }
        }
    }
}

/// ULIDs minted one after another are all distinct and in order: each
/// sorts after every one minted before it, as long as clock readings stay
/// within the 48-bit range and the same-millisecond counter never has to
/// move past its top value.
pub proof fn law_minted_ulids_distinct(start: Option<(u64, u64, u16)>, clock: Seq<(u64, u64, u16)>)
    requires
        start matches Some(p) ==> p.0 < 0x1_0000_0000_0000 && !(p.1 == u64::MAX && p.2 == u16::MAX),
        forall|k: int| 0 <= k < clock.len() ==> (#[trigger] clock[k]).0 < 0x1_0000_0000_0000,
        forall|k: int|
            0 <= k < minted_parts(start, clock).len() - 1 ==> !((#[trigger] minted_parts(start, clock)[k]).1
                == u64::MAX && minted_parts(start, clock)[k].2 == u16::MAX),
    ensures
        minted_parts(start, clock).len() == clock.len(),
        forall|i: int, j: int|
            0 <= i < j < clock.len() ==> seq_lex_lt(
                #[trigger] ulid_seq(
                    minted_parts(start, clock)[i].0,
                    minted_parts(start, clock)[i].1,
                    minted_parts(start, clock)[i].2,
                ),
                #[trigger] ulid_seq(
                    minted_parts(start, clock)[j].0,
                    minted_parts(start, clock)[j].1,
                    minted_parts(start, clock)[j].2,
                ),
            ) && ulid_seq(
                minted_parts(start, clock)[i].0,
                minted_parts(start, clock)[i].1,
                minted_parts(start, clock)[i].2,
            ) != ulid_seq(
                minted_parts(start, clock)[j].0,
                minted_parts(start, clock)[j].1,
                minted_parts(start, clock)[j].2,
            ),
{
    lemma_minted_values_increase(start, clock);
    let all = minted_parts(start, clock);
    assert forall|i: int, j: int| 0 <= i < j < clock.len() implies seq_lex_lt(
        #[trigger] ulid_seq(all[i].0, all[i].1, all[i].2),
        #[trigger] ulid_seq(all[j].0, all[j].1, all[j].2),
    ) && ulid_seq(all[i].0, all[i].1, all[i].2) != ulid_seq(all[j].0, all[j].1, all[j].2) by {
        lemma_ulid_seq_ordered(all[i].0, all[i].1, all[i].2, all[j].0, all[j].1, all[j].2);
        lemma_seq_lex_lt_asymmetric(ulid_seq(all[i].0, all[i].1, all[i].2), ulid_seq(all[i].0, all[i].1, all[i].2));
    }
}

} // verus!
