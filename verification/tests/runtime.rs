//! Tests for the heap runtime: object construction, the accessors, the
//! port constants and the native-symbol table.

use inc::immediate::{encode_fixnum, FALSE, NIL, PAIR, STR, SYM, TRUE, VEC};
use inc::rt::{
    car, cdr, defined, port_path, rt_current_error_port, rt_current_input_port,
    rt_current_output_port, str_bytes_vec, string_length, sym_bytes_vec, symbol_eq, vec_len,
    vec_nth, Heap,
};

#[test]
fn fresh_pair_returns_its_parts() {
    let mut h = Heap::new();
    let a = encode_fixnum(1);
    let d = encode_fixnum(2);
    let p = h.alloc_pair(a, d);
    assert_eq!(p & 7, PAIR);
    assert_eq!(car(&h, p), a);
    assert_eq!(cdr(&h, p), d);
}

#[test]
fn pairs_nest_without_disturbing_each_other() {
    let mut h = Heap::new();
    let inner = h.alloc_pair(encode_fixnum(2), NIL);
    let outer = h.alloc_pair(encode_fixnum(1), inner);
    assert_eq!(car(&h, outer), encode_fixnum(1));
    assert_eq!(cdr(&h, outer), inner);
    assert_eq!(car(&h, inner), encode_fixnum(2));
    assert_eq!(cdr(&h, inner), NIL);
}

#[test]
fn string_length_reencodes_the_byte_count() {
    let mut h = Heap::new();
    let s = h.alloc_str(&b"hello world".to_vec());
    assert_eq!(s & 7, STR);
    assert_eq!(string_length(&h, s), encode_fixnum(11));
}

#[test]
fn string_bytes_round_trip_through_the_heap() {
    // Materializing a byte buffer as a heap string and reading it back
    // reproduces the original bytes, and the length matches the buffer's.
    let mut h = Heap::new();
    let data = b"the quick brown fox".to_vec();
    let s = h.alloc_str(&data);
    assert_eq!(string_length(&h, s), encode_fixnum(data.len() as i64));
    assert_eq!(str_bytes_vec(&h, s), data);
}

#[test]
fn allocation_advances_the_cursor_word_aligned() {
    let mut h = Heap::new();
    assert_eq!(h.cursor(), 0);
    let _ = h.alloc_str(&b"hi".to_vec());
    // One length word plus two bytes padded to a word boundary.
    assert_eq!(h.cursor(), 16);
    let _ = h.alloc_pair(NIL, NIL);
    assert_eq!(h.cursor(), 32);
}

#[test]
fn symbols_store_their_name_one_word_later() {
    let mut h = Heap::new();
    let s = h.alloc_sym(&b"lambda".to_vec());
    assert_eq!(s & 7, SYM);
    assert_eq!(sym_bytes_vec(&h, s), b"lambda".to_vec());
}

#[test]
fn vectors_hold_tagged_elements() {
    let mut h = Heap::new();
    let elems = vec![encode_fixnum(10), encode_fixnum(20), TRUE];
    let v = h.alloc_vec(&elems);
    assert_eq!(v & 7, VEC);
    assert_eq!(vec_len(&h, v), 3);
    assert_eq!(vec_nth(&h, v, 0), encode_fixnum(10));
    assert_eq!(vec_nth(&h, v, 1), encode_fixnum(20));
    assert_eq!(vec_nth(&h, v, 2), TRUE);
}

#[test]
fn symbol_eq_is_identity_on_symbol_words() {
    let mut h = Heap::new();
    let a = h.alloc_sym(&b"x".to_vec());
    let b = h.alloc_sym(&b"x".to_vec());
    // Identity, not content: two symbols with the same name but different
    // addresses are not symbol_eq.
    assert_eq!(symbol_eq(a, a), TRUE);
    assert_eq!(symbol_eq(a, b), FALSE);
    // Equal non-symbol words are not symbol_eq either.
    assert_eq!(symbol_eq(encode_fixnum(5), encode_fixnum(5)), FALSE);
    assert_eq!(symbol_eq(TRUE, TRUE), FALSE);
    assert_eq!(symbol_eq(NIL, NIL), FALSE);
}

#[test]
fn standard_ports_are_immediate_stream_identifiers() {
    assert_eq!(rt_current_input_port(), encode_fixnum(0));
    assert_eq!(rt_current_output_port(), encode_fixnum(1));
    assert_eq!(rt_current_error_port(), encode_fixnum(2));
}

#[test]
fn file_ports_carry_their_path_at_index_one() {
    let mut h = Heap::new();
    let path = h.alloc_str(&b"/tmp/out.txt".to_vec());
    let name = h.alloc_sym(&b"port".to_vec());
    let port = h.alloc_vec(&vec![name, path]);
    assert_eq!(port_path(&h, port), b"/tmp/out.txt".to_vec());
}

#[test]
fn defined_knows_the_runtime_symbols() {
    for name in [
        "exit",
        "rt-current-error-port",
        "rt-current-input-port",
        "rt-current-output-port",
        "rt-open-write",
        "rt-open-read",
        "rt-read",
        "rt-write",
        "string-length",
        "symbol=?",
        "type",
    ] {
        assert!(defined(name));
    }
    assert!(!defined("car"));
    assert!(!defined(""));
    assert!(!defined("rt-write "));
}
