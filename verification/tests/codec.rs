//! Tests for the tagged value codec.

use inc::immediate::{
    decode_fixnum, encode_fixnum, tag, BOOL, CHAR, FALSE, FIXNUM_MAX, FIXNUM_MIN, MASK, NIL, NUM,
    PAIR, SHIFT, STR, SYM, TRUE, VEC,
};

#[test]
fn constants_are_distinct_tags() {
    let tags = [NUM, BOOL, CHAR, NIL, PAIR, STR, SYM, VEC];
    for (i, a) in tags.iter().enumerate() {
        assert!(0 <= *a && *a <= MASK);
        for b in tags.iter().skip(i + 1) {
            assert_ne!(a, b);
        }
    }
    assert_eq!(SHIFT, 3);
    assert_eq!(TRUE & MASK, BOOL);
    assert_eq!(FALSE & MASK, BOOL);
    assert_ne!(TRUE, FALSE);
}

#[test]
fn encode_shifts_left() {
    assert_eq!(encode_fixnum(0), 0);
    assert_eq!(encode_fixnum(1), 8);
    assert_eq!(encode_fixnum(-1), -8);
    assert_eq!(encode_fixnum(42), 42 << SHIFT);
}

#[test]
fn fixnum_round_trip() {
    for n in [
        0i64,
        1,
        -1,
        7,
        -7,
        1000,
        -1000,
        FIXNUM_MAX,
        FIXNUM_MIN,
        FIXNUM_MAX - 1,
        FIXNUM_MIN + 1,
    ] {
        assert_eq!(decode_fixnum(encode_fixnum(n)), n);
    }
}

#[test]
fn encoded_fixnums_carry_the_num_tag() {
    for n in [0i64, 5, -5, FIXNUM_MAX, FIXNUM_MIN] {
        assert_eq!(tag(encode_fixnum(n)), NUM);
    }
}

#[test]
fn tag_extraction_matches_categories() {
    assert_eq!(tag(TRUE), BOOL);
    assert_eq!(tag(FALSE), BOOL);
    assert_eq!(tag(NIL), NIL);
    assert_eq!(tag(97 * 8 + CHAR), CHAR);
    // A boxed address keeps its tag whatever the address bits.
    assert_eq!(tag(0x1000 + PAIR), PAIR);
    assert_eq!(tag(0x2008 + STR), STR);
    assert_eq!(tag(0x18 + SYM), SYM);
    assert_eq!(tag(0x40 + VEC), VEC);
}

#[test]
fn type_categories_are_exclusive() {
    // Exactly one of the four immediate tests holds per immediate category,
    // and none for a boxed value.
    let fixnum = encode_fixnum(3);
    let boolean = TRUE;
    let ch = 10 * 8 + CHAR;
    let pair = 0x100 + PAIR;
    for v in [fixnum, boolean, ch, NIL, pair] {
        let hits = [tag(v) == NUM, tag(v) == BOOL, tag(v) == CHAR, v == NIL]
            .iter()
            .filter(|x| **x)
            .count();
        if v == pair {
            assert_eq!(hits, 0);
        } else {
            assert_eq!(hits, 1);
        }
    }
}
