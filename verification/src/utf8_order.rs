//! Names as UTF-8 bytes: comparing names by the bytes of their encoding
//! orders them as the display order does.

use crate::name_order::name_le;
use vstd::prelude::*;
use vstd::utf8::*;

verus! {

/// Lexicographic `<=` on byte sequences, looking only at positions `from`
/// and later: a sequence that ends first comes first, and otherwise the first
/// position at which the two differ decides.
pub open spec fn bytes_le_from(a: Seq<u8>, b: Seq<u8>, from: int) -> bool
    decreases a.len() - from,
{
    if from < 0 || from >= a.len() {
        true
    } else if from >= b.len() {
        false
    } else if a[from] != b[from] {
        a[from] < b[from]
    } else {
        bytes_le_from(a, b, from + 1)
    }
}

/// The two sequences agree on their first `k` bytes.
pub open spec fn agree_before(a: Seq<u8>, b: Seq<u8>, k: int) -> bool {
    &&& 0 <= k <= a.len()
    &&& k <= b.len()
    &&& forall|i: int| 0 <= i < k ==> a[i] == b[i]
}

/// The two sequences agree on their first `k` bytes and both go on, `x` with
/// the smaller byte.
pub open spec fn smaller_at(x: Seq<u8>, y: Seq<u8>, k: int) -> bool {
    &&& agree_before(x, y, k)
    &&& k < x.len()
    &&& k < y.len()
    &&& x[k] < y[k]
}

proof fn lemma_leading_bytes(c: u32)
    by (bit_vector)
    ensures
        leading_byte_width_1(c) < 0x80u8,
        0xC0u8 <= leading_byte_width_2(c),
        leading_byte_width_2(c) < 0xE0u8,
        0xE0u8 <= leading_byte_width_3(c),
        leading_byte_width_3(c) < 0xF0u8,
        0xF0u8 <= leading_byte_width_4(c),
{
}

proof fn lemma_order_width_1(c: u32, d: u32)
    by (bit_vector)
    requires
        c < d,
        d <= 0x7Fu32,
    ensures
        leading_byte_width_1(c) < leading_byte_width_1(d),
{
}

proof fn lemma_order_width_2(c: u32, d: u32)
    by (bit_vector)
    requires
        0x80u32 <= c,
        c < d,
        d <= 0x7FFu32,
    ensures
        leading_byte_width_2(c) < leading_byte_width_2(d) || (leading_byte_width_2(c)
            == leading_byte_width_2(d) && last_continuation_byte(c) < last_continuation_byte(d)),
{
}

proof fn lemma_order_width_3(c: u32, d: u32)
    by (bit_vector)
    requires
        0x800u32 <= c,
        c < d,
        d <= 0xFFFFu32,
    ensures
        leading_byte_width_3(c) < leading_byte_width_3(d) || (leading_byte_width_3(c)
            == leading_byte_width_3(d) && (second_last_continuation_byte(c)
            < second_last_continuation_byte(d) || (second_last_continuation_byte(c)
            == second_last_continuation_byte(d) && last_continuation_byte(c)
            < last_continuation_byte(d)))),
{
}

proof fn lemma_order_width_4(c: u32, d: u32)
    by (bit_vector)
    requires
        0x10000u32 <= c,
        c < d,
        d <= 0x10FFFFu32,
    ensures
        leading_byte_width_4(c) < leading_byte_width_4(d) || (leading_byte_width_4(c)
            == leading_byte_width_4(d) && (third_last_continuation_byte(c)
            < third_last_continuation_byte(d) || (third_last_continuation_byte(c)
            == third_last_continuation_byte(d) && (second_last_continuation_byte(c)
            < second_last_continuation_byte(d) || (second_last_continuation_byte(c)
            == second_last_continuation_byte(d) && last_continuation_byte(c)
            < last_continuation_byte(d)))))),
{
}

/// Of two scalar values the smaller has the encoding that comes first: the
/// two encodings differ at a place that both have, the smaller byte in that
/// of the smaller value.
proof fn lemma_scalar_order(c: u32, d: u32) -> (k: int)
    requires
        is_scalar(c),
        is_scalar(d),
        c < d,
    ensures
        smaller_at(encode_scalar(c), encode_scalar(d), k),
{
    let x = encode_scalar(c);
    let y = encode_scalar(d);
    lemma_leading_bytes(c);
    lemma_leading_bytes(d);
    if has_width_1_encoding(d) {
        lemma_order_width_1(c, d);
        0
    } else if has_width_1_encoding(c) {
        0
    } else if has_width_2_encoding(d) {
        lemma_order_width_2(c, d);
        if x[0] < y[0] {
            0
        } else {
            1
        }
    } else if has_width_2_encoding(c) {
        0
    } else if has_width_3_encoding(d) {
        lemma_order_width_3(c, d);
        if x[0] < y[0] {
            0
        } else if x[1] < y[1] {
            1
        } else {
            2
        }
    } else if has_width_3_encoding(c) {
        0
    } else {
        lemma_order_width_4(c, d);
        if x[0] < y[0] {
            0
        } else if x[1] < y[1] {
            1
        } else if x[2] < y[2] {
            2
        } else {
            3
        }
    }
}

proof fn lemma_agreeing_bytes_skipped(x: Seq<u8>, y: Seq<u8>, from: int, k: int)
    requires
        agree_before(x, y, k),
        0 <= from <= k,
    ensures
        bytes_le_from(x, y, from) == bytes_le_from(x, y, k),
    decreases k - from,
{
    if from < k {
        lemma_agreeing_bytes_skipped(x, y, from + 1, k);
    }
}

proof fn lemma_bytes_shifted(x: Seq<u8>, y: Seq<u8>, k: int, i: int)
    requires
        0 <= k <= x.len(),
        k <= y.len(),
        0 <= i,
    ensures
        bytes_le_from(x, y, k + i) == bytes_le_from(x.skip(k), y.skip(k), i),
    decreases x.len() - k - i,
{
    if k + i < x.len() && k + i < y.len() && x[k + i] == y[k + i] {
        lemma_bytes_shifted(x, y, k, i + 1);
    }
}

/// The display order of two names is the order of the bytes of their UTF-8
/// encodings.
pub proof fn lemma_name_le_is_byte_order(a: Seq<char>, b: Seq<char>)
    ensures
        name_le(a, b) == bytes_le_from(encode_utf8(a), encode_utf8(b), 0),
    decreases a.len(),
{
    let x = encode_utf8(a);
    let y = encode_utf8(b);
    if a.len() == 0 {
    } else if b.len() == 0 {
        assert(encode_scalar(a[0] as u32).len() >= 1);
    } else {
        let c = a[0] as u32;
        let d = b[0] as u32;
        let head = encode_scalar(c);
        let other_head = encode_scalar(d);
        let rest = encode_utf8(a.drop_first());
        let other_rest = encode_utf8(b.drop_first());
        char_is_scalar(a[0]);
        char_is_scalar(b[0]);
        assert(x == head + rest);
        assert(y == other_head + other_rest);
        if a[0] == b[0] {
            let n = head.len() as int;
            assert(agree_before(x, y, n));
            lemma_agreeing_bytes_skipped(x, y, 0, n);
            lemma_bytes_shifted(x, y, n, 0);
            assert(x.skip(n) =~= rest);
            assert(y.skip(n) =~= other_rest);
            lemma_name_le_is_byte_order(a.drop_first(), b.drop_first());
        } else {
            if c == d {
                char_u32_cast(a[0], c);
                char_u32_cast(b[0], d);
            }
            if c < d {
                let k = lemma_scalar_order(c, d);
                assert(smaller_at(x, y, k)) by {
                    assert forall|i: int| 0 <= i <= k implies x[i] == head[i] && y[i]
                        == other_head[i] by {}
                }
                lemma_agreeing_bytes_skipped(x, y, 0, k);
            } else {
                let k = lemma_scalar_order(d, c);
                assert(smaller_at(y, x, k)) by {
                    assert forall|i: int| 0 <= i <= k implies x[i] == head[i] && y[i]
                        == other_head[i] by {}
                }
                lemma_agreeing_bytes_skipped(x, y, 0, k);
            }
        }
    }
}


/// Every byte sequence comes no later than itself.
pub proof fn lemma_bytes_refl(a: Seq<u8>, from: int)
    requires
        0 <= from,
    ensures
        bytes_le_from(a, a, from),
    decreases a.len() - from,
{
    if from < a.len() {
        lemma_bytes_refl(a, from + 1);
    }
}

/// Of two byte sequences, one comes no later than the other.
pub proof fn lemma_bytes_total(a: Seq<u8>, b: Seq<u8>, from: int)
    requires
        0 <= from,
    ensures
        bytes_le_from(a, b, from) || bytes_le_from(b, a, from),
    decreases a.len() - from,
{
    if from < a.len() && from < b.len() && a[from] == b[from] {
        lemma_bytes_total(a, b, from + 1);
    }
}

/// The order of bytes is transitive.
pub proof fn lemma_bytes_trans(a: Seq<u8>, b: Seq<u8>, c: Seq<u8>, from: int)
    requires
        0 <= from,
        bytes_le_from(a, b, from),
        bytes_le_from(b, c, from),
    ensures
        bytes_le_from(a, c, from),
    decreases a.len() - from,
{
    if from < a.len() && a[from] == b[from] && b[from] == c[from] {
        lemma_bytes_trans(a, b, c, from + 1);
    }
}

/// Two byte sequences that each come no later than the other from a place
/// on are the same from that place on.
pub proof fn lemma_bytes_antisym(a: Seq<u8>, b: Seq<u8>, from: int)
    requires
        0 <= from,
        bytes_le_from(a, b, from),
        bytes_le_from(b, a, from),
        from <= a.len(),
        from <= b.len(),
    ensures
        a.len() == b.len(),
        forall|i: int| from <= i < a.len() ==> a[i] == b[i],
    decreases a.len() - from,
{
    if from < a.len() {
        lemma_bytes_antisym(a, b, from + 1);
    }
}

} // verus!
