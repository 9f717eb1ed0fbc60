use vstd::prelude::*;

use crate::text::{chars_of, strings_view};

verus! {

/// Lexicographic order of character sequences by code point. This is the
/// order of Rust's `str` and `String`: UTF-8 byte order agrees with code
/// point order, and a proper prefix sorts first.
pub open spec fn text_lt(a: Seq<char>, b: Seq<char>) -> bool
    decreases a.len(),
{
    if a.len() == 0 {
        b.len() > 0
    } else if b.len() == 0 {
        false
    } else if a[0] != b[0] {
        a[0] < b[0]
    } else {
        text_lt(a.drop_first(), b.drop_first())
    }
}

pub proof fn lemma_text_lt_irreflexive(a: Seq<char>)
    ensures
        !text_lt(a, a),
    decreases a.len(),
{
    if a.len() > 0 {
        lemma_text_lt_irreflexive(a.drop_first());
    }
}

pub proof fn lemma_text_lt_transitive(a: Seq<char>, b: Seq<char>, c: Seq<char>)
    requires
        text_lt(a, b),
        text_lt(b, c),
    ensures
        text_lt(a, c),
    decreases a.len(),
{
    if a.len() > 0 && b.len() > 0 && c.len() > 0 && a[0] == b[0] && b[0] == c[0] {
        lemma_text_lt_transitive(a.drop_first(), b.drop_first(), c.drop_first());
    }
}

pub proof fn lemma_text_lt_asymmetric(a: Seq<char>, b: Seq<char>)
    requires
        text_lt(a, b),
    ensures
        !text_lt(b, a),
    decreases a.len(),
{
    if a.len() > 0 && b.len() > 0 && a[0] == b[0] {
        lemma_text_lt_asymmetric(a.drop_first(), b.drop_first());
    }
}

/// Any two sequences are equal or ordered one way or the other.
pub proof fn lemma_text_lt_total(a: Seq<char>, b: Seq<char>)
    ensures
        a == b || text_lt(a, b) || text_lt(b, a),
    decreases a.len(),
{
    if a.len() == 0 && b.len() == 0 {
        assert(a =~= b);
    } else if a.len() > 0 && b.len() > 0 && a[0] == b[0] {
        lemma_text_lt_total(a.drop_first(), b.drop_first());
        if a.drop_first() == b.drop_first() {
            assert(a =~= seq![a[0]] + a.drop_first());
            assert(b =~= seq![b[0]] + b.drop_first());
        }
    } else if a.len() > 0 && b.len() > 0 {
    }
}

/// Comparing two sequences that agree on their first `i` characters comes
/// down to comparing what follows.
proof fn lemma_text_lt_skip(a: Seq<char>, b: Seq<char>, i: int)
    requires
        0 <= i <= a.len(),
        i <= b.len(),
        a.take(i) == b.take(i),
    ensures
        text_lt(a, b) == text_lt(a.skip(i), b.skip(i)),
    decreases i,
{
    if i > 0 {
        assert(a[0] == a.take(i)[0]);
        assert(b[0] == b.take(i)[0]);
        assert(a.drop_first().take(i - 1) =~= a.take(i).drop_first());
        assert(b.drop_first().take(i - 1) =~= b.take(i).drop_first());
        lemma_text_lt_skip(a.drop_first(), b.drop_first(), i - 1);
        assert(a.drop_first().skip(i - 1) =~= a.skip(i));
        assert(b.drop_first().skip(i - 1) =~= b.skip(i));
    } else {
        assert(a.skip(0) =~= a);
        assert(b.skip(0) =~= b);
    }
}

/// Three-way comparison: `-1` when `a` sorts first, `0` when equal, `1`
/// when `b` sorts first.
pub fn compare_text(a: &Vec<char>, b: &Vec<char>) -> (order: i8)
    ensures
        order == -1 || order == 0 || order == 1,
        order == -1 <==> text_lt(a@, b@),
        order == 0 <==> a@ == b@,
        order == 1 <==> text_lt(b@, a@),
{
    let mut i: usize = 0;
    while i < a.len() && i < b.len() && a[i] == b[i]
        invariant
            i <= a@.len(),
            i <= b@.len(),
            a@.take(i as int) == b@.take(i as int),
        decreases a@.len() - i,
    {
        proof {
            assert(a@.take(i as int + 1) =~= a@.take(i as int).push(a@[i as int]));
            assert(b@.take(i as int + 1) =~= b@.take(i as int).push(b@[i as int]));
        }
        i = i + 1;
    }
    proof {
        lemma_text_lt_skip(a@, b@, i as int);
        lemma_text_lt_skip(b@, a@, i as int);
        if text_lt(a@, b@) {
            lemma_text_lt_asymmetric(a@, b@);
        }
        if text_lt(b@, a@) {
            lemma_text_lt_asymmetric(b@, a@);
        }
        lemma_text_lt_irreflexive(a@);
    }
    if i == a.len() && i == b.len() {
        proof {
            assert(a@ =~= a@.take(i as int));
            assert(b@ =~= b@.take(i as int));
        }
        0
    } else if i == a.len() {
        proof {
            assert(a@.skip(i as int).len() == 0);
            assert(a@ != b@);
        }
        -1
    } else if i == b.len() {
        proof {
            assert(b@.skip(i as int).len() == 0);
            assert(a@ != b@);
        }
        1
    } else {
        proof {
            assert(a@.skip(i as int)[0] == a@[i as int]);
            assert(b@.skip(i as int)[0] == b@[i as int]);
            if a@ == b@ {
                assert(a@[i as int] == b@[i as int]);
            }
        }
        if a[i] < b[i] {
            -1
        } else {
            1
        }
    }
}

/// The replay order of events: by event id, then by writer.
pub open spec fn key_lt(a_id: Seq<char>, a_writer: Seq<char>, b_id: Seq<char>, b_writer: Seq<char>) -> bool {
    text_lt(a_id, b_id) || (a_id == b_id && text_lt(a_writer, b_writer))
}

/// Whether `(a_id, a_writer)` comes before `(b_id, b_writer)` in replay
/// order.
pub fn key_less(a_id: &str, a_writer: &str, b_id: &str, b_writer: &str) -> (less: bool)
    ensures
        less == key_lt(a_id@, a_writer@, b_id@, b_writer@),
{
    let ids = compare_text(&chars_of(a_id), &chars_of(b_id));
    if ids == -1 {
        true
    } else if ids == 1 {
        proof {
            lemma_text_lt_asymmetric(b_id@, a_id@);
        }
        false
    } else {
        compare_text(&chars_of(a_writer), &chars_of(b_writer)) == -1
    }
}

pub proof fn lemma_key_lt_irreflexive(id: Seq<char>, writer: Seq<char>)
    ensures
        !key_lt(id, writer, id, writer),
{
    lemma_text_lt_irreflexive(id);
    lemma_text_lt_irreflexive(writer);
}

pub proof fn lemma_key_lt_asymmetric(a_id: Seq<char>, a_w: Seq<char>, b_id: Seq<char>, b_w: Seq<char>)
    requires
        key_lt(a_id, a_w, b_id, b_w),
    ensures
        !key_lt(b_id, b_w, a_id, a_w),
{
    lemma_text_lt_irreflexive(a_id);
    if text_lt(a_id, b_id) {
        lemma_text_lt_asymmetric(a_id, b_id);
    } else {
        lemma_text_lt_asymmetric(a_w, b_w);
    }
}

pub proof fn lemma_key_lt_transitive(
    a_id: Seq<char>,
    a_w: Seq<char>,
    b_id: Seq<char>,
    b_w: Seq<char>,
    c_id: Seq<char>,
    c_w: Seq<char>,
)
    requires
        key_lt(a_id, a_w, b_id, b_w),
        key_lt(b_id, b_w, c_id, c_w),
    ensures
        key_lt(a_id, a_w, c_id, c_w),
{
    if text_lt(a_id, b_id) && text_lt(b_id, c_id) {
        lemma_text_lt_transitive(a_id, b_id, c_id);
    } else if text_lt(a_w, b_w) && text_lt(b_w, c_w) {
        lemma_text_lt_transitive(a_w, b_w, c_w);
    }
}

pub proof fn lemma_key_lt_total(a_id: Seq<char>, a_w: Seq<char>, b_id: Seq<char>, b_w: Seq<char>)
    ensures
        (a_id == b_id && a_w == b_w) || key_lt(a_id, a_w, b_id, b_w) || key_lt(b_id, b_w, a_id, a_w),
{
    lemma_text_lt_total(a_id, b_id);
    lemma_text_lt_total(a_w, b_w);
}

/// `text` placed after every element of `sorted` that does not sort after
/// it.
pub open spec fn insert_text(sorted: Seq<Seq<char>>, text: Seq<char>) -> Seq<Seq<char>>
    decreases sorted.len(),
{
    if sorted.len() == 0 {
        seq![text]
    } else if text_lt(text, sorted.last()) {
        insert_text(sorted.drop_last(), text).push(sorted.last())
    } else {
        sorted.push(text)
    }
}

/// `texts` in `str` order (what `slice::sort` gives for strings).
pub open spec fn sorted_texts(texts: Seq<Seq<char>>) -> Seq<Seq<char>>
    decreases texts.len(),
{
    if texts.len() == 0 {
        Seq::empty()
    } else {
        insert_text(sorted_texts(texts.drop_last()), texts.last())
    }
}

proof fn lemma_insert_text_position(sorted: Seq<Seq<char>>, text: Seq<char>) -> (p: int)
    ensures
        0 <= p <= sorted.len(),
        insert_text(sorted, text) == sorted.insert(p, text),
        forall|j: int| p <= j < sorted.len() ==> text_lt(text, #[trigger] sorted[j]),
        p > 0 ==> !text_lt(text, sorted[p - 1]),
    decreases sorted.len(),
{
    if sorted.len() == 0 {
        assert(sorted.insert(0, text) =~= seq![text]);
        0
    } else if text_lt(text, sorted.last()) {
        let rest = sorted.drop_last();
        let p = lemma_insert_text_position(rest, text);
        assert(rest.insert(p, text).push(sorted.last()) =~= sorted.insert(p, text));
        assert forall|j: int| p <= j < sorted.len() implies text_lt(text, #[trigger] sorted[j]) by {
            if j < sorted.len() - 1 {
                assert(sorted[j] == rest[j]);
            }
        }
        p
    } else {
        assert(sorted.push(text) =~= sorted.insert(sorted.len() as int, text));
        sorted.len() as int
    }
}

/// Sorted texts are in order: none sorts before one that precedes it.
pub proof fn lemma_sorted_texts_ordered(texts: Seq<Seq<char>>)
    ensures
        forall|i: int, j: int|
            0 <= i < j < sorted_texts(texts).len() ==> !text_lt(
                #[trigger] sorted_texts(texts)[j],
                #[trigger] sorted_texts(texts)[i],
            ),
        sorted_texts(texts).len() == texts.len(),
    decreases texts.len(),
{
    if texts.len() > 0 {
        let rest = sorted_texts(texts.drop_last());
        lemma_sorted_texts_ordered(texts.drop_last());
        let e = texts.last();
        let p = lemma_insert_text_position(rest, e);
        let r = rest.insert(p, e);
        assert forall|i: int, j: int| 0 <= i < j < r.len() implies !text_lt(#[trigger] r[j], #[trigger] r[i]) by {
            if j < p {
                assert(r[i] == rest[i] && r[j] == rest[j]);
            } else if i > p {
                assert(r[i] == rest[i - 1] && r[j] == rest[j - 1]);
            } else if i < p && j > p {
                assert(r[i] == rest[i] && r[j] == rest[j - 1]);
            } else if i == p {
                assert(r[j] == rest[j - 1]);
                lemma_text_lt_asymmetric(e, rest[j - 1]);
            } else {
                let last = rest[p - 1];
                let x = rest[i];
                assert(r[i] == x);
                if i < p - 1 && text_lt(e, x) {
                    lemma_text_lt_total(x, last);
                    if text_lt(x, last) {
                        lemma_text_lt_transitive(e, x, last);
                    }
                }
            }
        }
    }
}

/// Sort strings into `str` order.
pub fn sort_strings(items: Vec<String>) -> (sorted: Vec<String>)
    ensures
        strings_view(sorted@) == sorted_texts(strings_view(items@)),
        forall|i: int, j: int|
            0 <= i < j < sorted@.len() ==> !text_lt(#[trigger] sorted@[j]@, #[trigger] sorted@[i]@),
{
    broadcast use vstd::std_specs::vec::axiom_spec_into_iter;

    let ghost all = items@;
    let mut out: Vec<String> = Vec::new();
    assert(strings_view(out@) =~= sorted_texts(strings_view(all.take(0))));
    for item in it: items.into_iter()
        invariant
            it.seq() == all,
            strings_view(out@) == sorted_texts(strings_view(all.take(it.index() as int))),
    {
        let ghost before = strings_view(out@);
        let item_chars = chars_of(item.as_str());
        let mut p: usize = out.len();
        while p > 0 && compare_text(&item_chars, &chars_of(out[p - 1].as_str())) == -1
            invariant
                p <= out@.len(),
                strings_view(out@) == before,
                item_chars@ == item@,
                forall|j: int| p <= j < out@.len() ==> text_lt(item@, #[trigger] before[j]),
            decreases p,
        {
            p = p - 1;
        }
        proof {
            let q = lemma_insert_text_position(before, item@);
            if q < p {
                assert(text_lt(item@, before[p as int - 1]));
            } else if p < q {
                assert(text_lt(item@, before[q - 1]));
            }
            let taken = all.take(it.index() as int + 1);
            assert(taken.drop_last() =~= all.take(it.index() as int));
            assert(strings_view(taken).drop_last() =~= strings_view(all.take(it.index() as int)));
            assert(strings_view(taken).last() == item@);
        }
        out.insert(p, item);
        proof {
            assert(strings_view(out@) =~= before.insert(p as int, item@));
        }
    }
    proof {
        assert(all.take(all.len() as int) =~= all);
        lemma_sorted_texts_ordered(strings_view(all));
        assert forall|i: int, j: int| 0 <= i < j < out@.len() implies !text_lt(#[trigger] out@[j]@, #[trigger] out@[i]@) by {
            assert(strings_view(out@)[i] == out@[i]@);
            assert(strings_view(out@)[j] == out@[j]@);
        }
    }
    out
}

} // verus!
