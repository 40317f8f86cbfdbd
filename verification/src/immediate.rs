//! Tagged value codec.
//!
//! A runtime value is a single 64-bit machine word.  Its low `SHIFT` bits
//! (the tag field, selected by `MASK`) name one of eight categories.  A
//! fixnum stores its value left-shifted out of the tag field, so encoding is
//! multiplication by eight and decoding is a floor division by eight (an
//! arithmetic right shift).  Booleans and characters carry their payload in
//! the high bits above the tag; the empty list is the full-word sentinel
//! `NIL`; pairs, strings, symbols and vectors are boxed: their payload is a
//! word-aligned heap address with the tag substituted for the address's low
//! bits.

use vstd::arithmetic::div_mod::{
    lemma_fundamental_div_mod, lemma_fundamental_div_mod_converse, lemma_mod_multiples_basic,
    lemma_mod_multiples_vanish,
};
use vstd::prelude::*;

verus! {

/// Width of the tag field in bits.
pub const SHIFT: i64 = 3;

/// Mask selecting the tag field of a word.
pub const MASK: i64 = 7;

/// Tag of a fixnum.  Being zero, an encoded fixnum is exactly its value
/// shifted left; no untagging step is needed before arithmetic.
pub const NUM: i64 = 0;

/// Tag of a boolean.
pub const BOOL: i64 = 1;

/// Tag of a character.
pub const CHAR: i64 = 2;

/// The empty list.  A full-word sentinel: its payload bits are zero, so the
/// whole word equals the tag value and is compared without masking.
pub const NIL: i64 = 3;

/// Tag of a pair (boxed).
pub const PAIR: i64 = 4;

/// Tag of a string (boxed).
pub const STR: i64 = 5;

/// Tag of a symbol (boxed).
pub const SYM: i64 = 6;

/// Tag of a vector (boxed).
pub const VEC: i64 = 7;

/// The false literal: payload 0 over the boolean tag.
pub const FALSE: i64 = BOOL;

/// The true literal: payload 1 over the boolean tag.
pub const TRUE: i64 = 8 + BOOL;

/// Smallest representable fixnum value.
pub const FIXNUM_MIN: i64 = -0x1000_0000_0000_0000;

/// Largest representable fixnum value.
pub const FIXNUM_MAX: i64 = 0xFFF_FFFF_FFFF_FFFF;

/// The tag field of a word: its low three bits, i.e. its residue modulo 8.
pub open spec fn tag_of(v: i64) -> int {
    (v as int) % 8
}

/// The signed range a fixnum payload can occupy.
pub open spec fn in_fixnum_range(n: int) -> bool {
    FIXNUM_MIN <= n <= FIXNUM_MAX
}

/// The word encoding the fixnum `n`.
pub open spec fn spec_encode(n: int) -> i64
    recommends
        in_fixnum_range(n),
{
    (8 * n) as i64
}

/// The fixnum value a `NUM`-tagged word denotes: the word arithmetically
/// shifted right by the tag width (floor division by 8).
pub open spec fn spec_decode(v: i64) -> int {
    v as int / 8
}

/// Encode a fixnum: shift the value left out of the tag field.
pub fn encode_fixnum(n: i64) -> (r: i64)
    requires
        in_fixnum_range(n as int),
    ensures
        r == spec_encode(n as int),
        r as int == 8 * n,
        tag_of(r) == NUM,
{
    proof {
        lemma_mod_multiples_basic(n as int, 8);
    }
    n * 8
}

/// Decode a fixnum word back to its value.  The caller must have confirmed
/// the `NUM` tag; the result is the word floor-divided by 8, which is exact
/// here because a `NUM`-tagged word is a multiple of 8.
pub fn decode_fixnum(v: i64) -> (r: i64)
    requires
        tag_of(v) == NUM,
    ensures
        r as int == spec_decode(v),
        8 * (r as int) == v as int,
        in_fixnum_range(r as int),
{
    proof {
        lemma_fundamental_div_mod(v as int, 8);
    }
    if v >= 0 {
        let q: u64 = (v as u64) / 8;
        q as i64
    } else {
        // For a negative word, divide the bias-adjusted magnitude so the
        // division floors instead of truncating toward zero.
        let n: u64 = (-(v + 1)) as u64;
        let q: u64 = n / 8;
        proof {
            lemma_fundamental_div_mod_converse(v as int, 8, -(q as int) - 1, 7 - (n as int) % 8);
        }
        -(q as i64) - 1
    }
}

/// Every fixnum decodes back to the value it was encoded from.
pub proof fn lemma_fixnum_round_trip(n: int)
    requires
        in_fixnum_range(n),
    ensures
        spec_decode(spec_encode(n)) == n,
        tag_of(spec_encode(n)) == NUM,
{
    lemma_mod_multiples_basic(n, 8);
    lemma_fundamental_div_mod_converse(8 * n, 8, n, 0);
}

/// Masking a word with `MASK` extracts its tag field.
pub proof fn lemma_and_mask_is_tag(v: i64)
    ensures
        ((v as u64) & (MASK as u64)) as i64 == tag_of(v) as i64,
{
    assert((v as u64) & 7u64 == (v as u64) % 8u64) by (bit_vector);
    assert(v >= 0 ==> (v as u64) as int == v as int) by (bit_vector);
    assert(v < 0 ==> (v as u64) as int == v as int + 0x1_0000_0000_0000_0000) by (bit_vector);
    if v < 0 {
        lemma_mod_multiples_vanish(0x2000_0000_0000_0000, v as int, 8);
    }
}

/// Extract a word's tag field.
pub fn tag(v: i64) -> (t: i64)
    ensures
        t as int == tag_of(v),
{
    proof {
        lemma_and_mask_is_tag(v);
    }
    ((v as u64) & (MASK as u64)) as i64
}

/// Whatever the word, its decoded value lies in the fixnum range.
pub proof fn lemma_decode_in_range(v: i64)
    ensures
        in_fixnum_range(spec_decode(v)),
{
    vstd::arithmetic::div_mod::lemma_div_is_ordered(i64::MIN as int, v as int, 8);
    vstd::arithmetic::div_mod::lemma_div_is_ordered(v as int, i64::MAX as int, 8);
}

/// A word is a well-formed immediate or boxed value: a boolean-tagged word
/// is one of the two boolean literals, a character's payload is a byte, a
/// `NIL`-tagged word is the sentinel itself, and a boxed word carries a
/// non-negative word-aligned address above its tag.
pub open spec fn wf_word(v: i64) -> bool {
    &&& tag_of(v) == BOOL ==> v == TRUE || v == FALSE
    &&& tag_of(v) == CHAR ==> 0 <= v < 8 * 256
    &&& tag_of(v) == NIL ==> v == NIL
    &&& (tag_of(v) == PAIR || tag_of(v) == STR || tag_of(v) == SYM || tag_of(v) == VEC) ==> v
        >= tag_of(v)
}

/// Of the four immediate type tests (fixnum, boolean, character, empty
/// list), exactly one holds of a well-formed word in an immediate category,
/// and none holds of a boxed word.  The first three test the tag field; the
/// empty-list test compares the whole word against the `NIL` sentinel.
pub proof fn lemma_type_tests_exclusive(v: i64)
    requires
        wf_word(v),
    ensures
        tag_of(v) == NUM || tag_of(v) == BOOL || tag_of(v) == CHAR || tag_of(v) == NIL ==> {
            let hits = (if tag_of(v) == NUM { 1int } else { 0 }) + (if tag_of(v) == BOOL {
                1int
            } else {
                0
            }) + (if tag_of(v) == CHAR { 1int } else { 0 }) + (if v == NIL { 1int } else { 0 });
            hits == 1
        },
        tag_of(v) == PAIR || tag_of(v) == STR || tag_of(v) == SYM || tag_of(v) == VEC ==> !(tag_of(
            v,
        ) == NUM || tag_of(v) == BOOL || tag_of(v) == CHAR || v == NIL),
{
    assert(NIL % 8 == 3);
}

} // verus!
