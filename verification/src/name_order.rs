//! The order in which names are displayed: lexicographic by the code points
//! of their characters, case-sensitive.

use crate::utf8_order::{
    bytes_le_from, lemma_bytes_antisym, lemma_bytes_refl, lemma_bytes_total, lemma_bytes_trans,
    lemma_name_le_is_byte_order,
};
use vstd::prelude::*;
use vstd::utf8::*;

verus! {

/// `a` comes no later than `b` in the display order: lexicographic `<=` by
/// the code points of the characters. A name that ends first comes first,
/// and otherwise the first character at which the two differ decides, the
/// smaller code point first.
pub open spec fn name_le(a: Seq<char>, b: Seq<char>) -> bool
    decreases a.len(),
{
    if a.len() == 0 {
        true
    } else if b.len() == 0 {
        false
    } else if a[0] != b[0] {
        (a[0] as u32) < (b[0] as u32)
    } else {
        name_le(a.drop_first(), b.drop_first())
    }
}

/// Every name comes no later than itself.
pub proof fn lemma_name_le_reflexive(a: Seq<char>)
    ensures
        name_le(a, a),
{
    lemma_name_le_is_byte_order(a, a);
    lemma_bytes_refl(encode_utf8(a), 0);
}

/// Of two names, one comes no later than the other.
pub proof fn lemma_name_le_total(a: Seq<char>, b: Seq<char>)
    ensures
        name_le(a, b) || name_le(b, a),
{
    lemma_name_le_is_byte_order(a, b);
    lemma_name_le_is_byte_order(b, a);
    lemma_bytes_total(encode_utf8(a), encode_utf8(b), 0);
}

/// The display order is transitive.
pub proof fn lemma_name_le_transitive(a: Seq<char>, b: Seq<char>, c: Seq<char>)
    requires
        name_le(a, b),
        name_le(b, c),
    ensures
        name_le(a, c),
{
    lemma_name_le_is_byte_order(a, b);
    lemma_name_le_is_byte_order(b, c);
    lemma_name_le_is_byte_order(a, c);
    lemma_bytes_trans(encode_utf8(a), encode_utf8(b), encode_utf8(c), 0);
}

/// Two names that each come no later than the other are the same name.
pub proof fn lemma_name_le_antisymmetric(a: Seq<char>, b: Seq<char>)
    requires
        name_le(a, b),
        name_le(b, a),
    ensures
        a == b,
{
    lemma_name_le_is_byte_order(a, b);
    lemma_name_le_is_byte_order(b, a);
    lemma_bytes_antisym(encode_utf8(a), encode_utf8(b), 0);
    assert(encode_utf8(a) =~= encode_utf8(b));
    encode_utf8_decode_utf8(a);
    encode_utf8_decode_utf8(b);
}

/// Decides the display order of two names.
pub fn name_precedes(a: &str, b: &str) -> (le: bool)
    ensures
        le == name_le(a@, b@),
{
    let x = a.as_bytes();
    let y = b.as_bytes();
    let mut i: usize = 0;
    proof {
        lemma_name_le_is_byte_order(a@, b@);
    }
    loop
        invariant
            x@ == encode_utf8(a@),
            y@ == encode_utf8(b@),
            name_le(a@, b@) == bytes_le_from(x@, y@, 0),
            i <= x.len(),
            i <= y.len(),
            bytes_le_from(x@, y@, 0) == bytes_le_from(x@, y@, i as int),
        decreases x.len() - i,
    {
        if i >= x.len() {
            return true;
        }
        if i >= y.len() {
            return false;
        }
        if x[i] != y[i] {
            return x[i] < y[i];
        }
        i += 1;
    }
}

} // verus!
