//! The runtime object decoder and printer.
//!
//! `render` recursively turns a tagged value into its textual form, matching
//! on the tag: fixnums print as signed decimals, booleans as `#t`/`#f`,
//! characters as `#\<char>` with named forms for tab, newline, return and
//! space, the empty list as `()`, pairs as parenthesized lists with ` . `
//! before a non-pair tail, strings quoted, symbols behind a quote mark, and
//! vectors space-separated inside brackets.  The original native call prints
//! and flushes a stream; here the pure rendering is separated from the
//! stream, and the surrounding program writes the returned bytes out.
//!
//! `valid_val` is the region discipline the renderer relies on: every boxed
//! component of an object lies strictly below the object's own address, as
//! bump allocation guarantees, so the recursion terminates even though the
//! region is raw bytes.

use crate::immediate::{
    decode_fixnum, in_fixnum_range, spec_decode, tag, tag_of, BOOL, CHAR, FALSE, NIL, NUM, PAIR,
    STR, SYM, TRUE, VEC,
};
use crate::rt::{
    car, car_spec, cdr, cdr_spec, is_pair, is_str, is_sym, is_vec, str_bytes, str_bytes_vec,
    sym_bytes, sym_bytes_vec, vec_len, vec_len_spec, vec_nth, vec_nth_spec, Heap,
};
use vstd::arithmetic::div_mod::lemma_fundamental_div_mod;
use vstd::prelude::*;

verus! {

/// Whether a tagged word is boxed: pairs, strings, symbols and vectors,
/// whose tags are the four largest tag values.
pub open spec fn boxed(v: i64) -> bool {
    tag_of(v) >= PAIR as int
}

/// The heap byte address a boxed word names: the word with its tag bits
/// removed.
pub open spec fn heap_addr(v: i64) -> int {
    v as int - tag_of(v)
}

/// A well-formed immediate word: a fixnum, a boolean literal, a character
/// with a byte payload, or the empty-list sentinel.
pub open spec fn valid_imm(v: i64) -> bool {
    ||| tag_of(v) == NUM as int
    ||| (tag_of(v) == BOOL as int && (v == TRUE || v == FALSE))
    ||| (tag_of(v) == CHAR as int && 0 <= v < 2048)
    ||| v == NIL
}

/// A readable value in the region: immediates are well formed, and every
/// boxed object lies inside the region with each boxed component strictly
/// below its own address, as bump allocation lays objects out.
pub open spec fn valid_val(mem: Seq<u8>, v: i64) -> bool
    decreases heap_addr(v), 1int, 0int,
{
    if !boxed(v) {
        valid_imm(v)
    } else if tag_of(v) == PAIR as int {
        is_pair(mem, v) && valid_part(mem, car_spec(mem, v), heap_addr(v)) && valid_part(
            mem,
            cdr_spec(mem, v),
            heap_addr(v),
        )
    } else if tag_of(v) == STR as int {
        is_str(mem, v)
    } else if tag_of(v) == SYM as int {
        is_sym(mem, v)
    } else {
        is_vec(mem, v) && valid_elems(mem, v, 0)
    }
}

/// A component of an object at address `bound`: an immediate, or a boxed
/// value strictly below `bound`.
pub open spec fn valid_part(mem: Seq<u8>, w: i64, bound: int) -> bool
    decreases bound, 0int, 0int,
{
    if boxed(w) {
        0 <= heap_addr(w) < bound && valid_val(mem, w)
    } else {
        valid_imm(w)
    }
}

/// Every vector element from index `i` on is a valid component.
pub open spec fn valid_elems(mem: Seq<u8>, v: i64, i: int) -> bool
    decreases heap_addr(v), 0int, vec_len_spec(mem, v) - i + 1,
{
    if i < vec_len_spec(mem, v) {
        valid_part(mem, vec_nth_spec(mem, v, i), heap_addr(v)) && valid_elems(mem, v, i + 1)
    } else {
        true
    }
}

/// The decimal digits of a non-negative integer.
pub open spec fn dec_digits(n: nat) -> Seq<u8>
    decreases n,
{
    if n < 10 {
        seq![(48 + n) as u8]
    } else {
        dec_digits(n / 10) + seq![(48 + n % 10) as u8]
    }
}

/// The signed decimal text of an integer.
pub open spec fn dec_int(n: int) -> Seq<u8> {
    if n < 0 {
        seq![45u8] + dec_digits((-n) as nat)
    } else {
        dec_digits(n as nat)
    }
}

/// The text of a character value: four named whitespace forms, and
/// `#\<char>` for every other payload byte.
pub open spec fn char_text(c: int) -> Seq<u8> {
    if c == 9 {
        seq![35u8, 92u8, 116u8, 97u8, 98u8]
    } else if c == 10 {
        seq![35u8, 92u8, 110u8, 101u8, 119u8, 108u8, 105u8, 110u8, 101u8]
    } else if c == 13 {
        seq![35u8, 92u8, 114u8, 101u8, 116u8, 117u8, 114u8, 110u8]
    } else if c == 32 {
        seq![35u8, 92u8, 115u8, 112u8, 97u8, 99u8, 101u8]
    } else {
        seq![35u8, 92u8, c as u8]
    }
}

/// The text of an immediate value.
pub open spec fn render_imm(v: i64) -> Seq<u8> {
    if tag_of(v) == NUM as int {
        dec_int(spec_decode(v))
    } else if tag_of(v) == BOOL as int {
        if v == TRUE {
            seq![35u8, 116u8]
        } else {
            seq![35u8, 102u8]
        }
    } else if tag_of(v) == CHAR as int {
        char_text(spec_decode(v))
    } else {
        seq![40u8, 41u8]
    }
}

/// The text of a value in the region.  A pair prints parenthesized unless
/// it continues an enclosing list; its tail prints after ` . ` when the
/// list is improper.
pub open spec fn render_spec(mem: Seq<u8>, v: i64, nested: bool) -> Seq<u8>
    decreases heap_addr(v), 1int, 0int,
{
    if !boxed(v) {
        render_imm(v)
    } else if tag_of(v) == PAIR as int {
        if is_pair(mem, v) {
            let c = car_spec(mem, v);
            let d = cdr_spec(mem, v);
            let head = render_part(mem, c, heap_addr(v), false);
            let tail = if d == NIL {
                Seq::<u8>::empty()
            } else if tag_of(d) != PAIR as int {
                seq![32u8, 46u8, 32u8] + render_part(mem, d, heap_addr(v), false)
            } else {
                seq![32u8] + render_part(mem, d, heap_addr(v), true)
            };
            if !nested {
                seq![40u8] + head + tail + seq![41u8]
            } else {
                head + tail
            }
        } else {
            Seq::<u8>::empty()
        }
    } else if tag_of(v) == STR as int {
        if is_str(mem, v) {
            seq![34u8] + str_bytes(mem, v) + seq![34u8]
        } else {
            Seq::<u8>::empty()
        }
    } else if tag_of(v) == SYM as int {
        if is_sym(mem, v) {
            seq![39u8] + sym_bytes(mem, v)
        } else {
            Seq::<u8>::empty()
        }
    } else {
        if is_vec(mem, v) {
            seq![91u8] + render_elems(mem, v, 0) + seq![93u8]
        } else {
            Seq::<u8>::empty()
        }
    }
}

/// The text of a component: a boxed component renders recursively when it
/// lies below its owner, an immediate renders directly.
pub open spec fn render_part(mem: Seq<u8>, w: i64, bound: int, nested: bool) -> Seq<u8>
    decreases bound, 0int, 0int,
{
    if boxed(w) {
        if 0 <= heap_addr(w) < bound {
            render_spec(mem, w, nested)
        } else {
            Seq::<u8>::empty()
        }
    } else {
        render_imm(w)
    }
}

/// The space-separated texts of a vector's elements from index `i` on.
pub open spec fn render_elems(mem: Seq<u8>, v: i64, i: int) -> Seq<u8>
    decreases heap_addr(v), 0int, vec_len_spec(mem, v) - i + 1,
{
    if i < vec_len_spec(mem, v) {
        render_part(mem, vec_nth_spec(mem, v, i), heap_addr(v), false) + (if i != vec_len_spec(
            mem,
            v,
        ) - 1 {
            seq![32u8]
        } else {
            Seq::<u8>::empty()
        }) + render_elems(mem, v, i + 1)
    } else {
        Seq::<u8>::empty()
    }
}

/// The decimal digits of a non-negative value.
fn itoa_nat(n: u64) -> (r: Vec<u8>)
    ensures
        r@ == dec_digits(n as nat),
    decreases n,
{
    if n < 10 {
        let mut r: Vec<u8> = Vec::new();
        r.push(48 + n as u8);
        proof {
            assert(r@ =~= seq![(48 + n as nat) as u8]);
        }
        r
    } else {
        let mut r = itoa_nat(n / 10);
        r.push(48 + (n % 10) as u8);
        proof {
            assert(r@ =~= dec_digits((n / 10) as nat) + seq![(48 + (n as nat) % 10) as u8]);
        }
        r
    }
}

/// The signed decimal text of a fixnum value.
fn itoa(n: i64) -> (r: Vec<u8>)
    requires
        in_fixnum_range(n as int),
    ensures
        r@ == dec_int(n as int),
{
    if n < 0 {
        let mut r: Vec<u8> = Vec::new();
        r.push(45u8);
        let mut t = itoa_nat((-n) as u64);
        r.append(&mut t);
        proof {
            assert(r@ =~= seq![45u8] + dec_digits((-n) as nat));
        }
        r
    } else {
        itoa_nat(n as u64)
    }
}

/// Whether a tagged word is boxed.
fn is_boxed(v: i64) -> (r: bool)
    ensures
        r == boxed(v),
{
    tag(v) >= PAIR
}

/// Render an immediate value.
fn render_immediate(v: i64) -> (out: Vec<u8>)
    requires
        valid_imm(v),
    ensures
        out@ == render_imm(v),
{
    let t = tag(v);
    if t == NUM {
        itoa(decode_fixnum(v))
    } else if t == BOOL {
        let mut out: Vec<u8> = Vec::new();
        out.push(35u8);
        if v == TRUE {
            out.push(116u8);
        } else {
            out.push(102u8);
        }
        proof {
            assert(out@ =~= render_imm(v));
        }
        out
    } else if t == CHAR {
        let c: u8 = (((v - CHAR) as u64) / 8) as u8;
        proof {
            lemma_fundamental_div_mod(v as int, 8);
        }
        let mut out: Vec<u8> = Vec::new();
        if c == 9 {
            out.push(35u8);
            out.push(92u8);
            out.push(116u8);
            out.push(97u8);
            out.push(98u8);
        } else if c == 10 {
            out.push(35u8);
            out.push(92u8);
            out.push(110u8);
            out.push(101u8);
            out.push(119u8);
            out.push(108u8);
            out.push(105u8);
            out.push(110u8);
            out.push(101u8);
        } else if c == 13 {
            out.push(35u8);
            out.push(92u8);
            out.push(114u8);
            out.push(101u8);
            out.push(116u8);
            out.push(117u8);
            out.push(114u8);
            out.push(110u8);
        } else if c == 32 {
            out.push(35u8);
            out.push(92u8);
            out.push(115u8);
            out.push(112u8);
            out.push(97u8);
            out.push(99u8);
            out.push(101u8);
        } else {
            out.push(35u8);
            out.push(92u8);
            out.push(c);
        }
        proof {
            assert(out@ =~= char_text(spec_decode(v)));
        }
        out
    } else {
        let mut out: Vec<u8> = Vec::new();
        out.push(40u8);
        out.push(41u8);
        proof {
            assert(out@ =~= seq![40u8, 41u8]);
        }
        out
    }
}

/// Render a tagged value to its textual form.  `nested` is true when the
/// value continues an enclosing list, which suppresses its own parentheses.
#[verifier::rlimit(100)]
pub fn render(h: &Heap, val: i64, nested: bool) -> (out: Vec<u8>)
    requires
        h.wf(),
        valid_val(h.mem@, val),
    ensures
        out@ == render_spec(h.mem@, val, nested),
    decreases heap_addr(val), 1int, 0int,
{
    let t = tag(val);
    if t < PAIR {
        render_immediate(val)
    } else if t == PAIR {
        let c = car(h, val);
        let d = cdr(h, val);
        let mut out: Vec<u8> = Vec::new();
        if !nested {
            out.push(40u8);
        }
        let mut head = if is_boxed(c) {
            render(h, c, false)
        } else {
            render_immediate(c)
        };
        out.append(&mut head);
        if d != NIL {
            if tag(d) != PAIR {
                out.push(32u8);
                out.push(46u8);
                out.push(32u8);
                let mut tl = if is_boxed(d) {
                    render(h, d, false)
                } else {
                    render_immediate(d)
                };
                out.append(&mut tl);
            } else {
                out.push(32u8);
                let mut tl = render(h, d, true);
                out.append(&mut tl);
            }
        }
        if !nested {
            out.push(41u8);
        }
        proof {
            assert(out@ =~= render_spec(h.mem@, val, nested));
        }
        out
    } else if t == STR {
        let mut out: Vec<u8> = Vec::new();
        out.push(34u8);
        let mut body = str_bytes_vec(h, val);
        out.append(&mut body);
        out.push(34u8);
        proof {
            assert(out@ =~= render_spec(h.mem@, val, nested));
        }
        out
    } else if t == SYM {
        let mut out: Vec<u8> = Vec::new();
        out.push(39u8);
        let mut body = sym_bytes_vec(h, val);
        out.append(&mut body);
        proof {
            assert(out@ =~= render_spec(h.mem@, val, nested));
        }
        out
    } else {
        let mut out: Vec<u8> = Vec::new();
        out.push(91u8);
        let mut body = render_vec_elems(h, val, 0);
        out.append(&mut body);
        out.push(93u8);
        proof {
            assert(out@ =~= render_spec(h.mem@, val, nested));
        }
        out
    }
}

/// Render a vector's elements from index `i` on, space-separated.
fn render_vec_elems(h: &Heap, val: i64, i: i64) -> (out: Vec<u8>)
    requires
        h.wf(),
        is_vec(h.mem@, val),
        valid_elems(h.mem@, val, i as int),
        0 <= i <= vec_len_spec(h.mem@, val),
    ensures
        out@ == render_elems(h.mem@, val, i as int),
    decreases heap_addr(val), 0int, vec_len_spec(h.mem@, val) - i + 1,
{
    let count = vec_len(h, val);
    if i < count {
        let e = vec_nth(h, val, i);
        proof {
            assert(valid_part(h.mem@, vec_nth_spec(h.mem@, val, i as int), heap_addr(val)));
        }
        let mut out = if is_boxed(e) {
            render(h, e, false)
        } else {
            render_immediate(e)
        };
        if i != count - 1 {
            out.push(32u8);
        }
        let mut rest = render_vec_elems(h, val, i + 1);
        out.append(&mut rest);
        proof {
            let ghost sep: Seq<u8> = if i as int != vec_len_spec(h.mem@, val) - 1 {
                seq![32u8]
            } else {
                Seq::<u8>::empty()
            };
            let ghost target = render_part(
                h.mem@,
                vec_nth_spec(h.mem@, val, i as int),
                heap_addr(val),
                false,
            ) + sep + render_elems(h.mem@, val, i as int + 1);
            assert(render_elems(h.mem@, val, i as int) == target);
            assert(out@ =~= target);
        }
        out
    } else {
        Vec::new()
    }
}

} // verus!
