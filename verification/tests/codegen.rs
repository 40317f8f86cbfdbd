//! Tests for the primitive code generator: each entry point emits exactly
//! the expected instruction sequence over the tagged encodings.

use inc::emit::{eval, mask, State, AST};
use inc::immediate::{BOOL, MASK, NIL, NUM, SHIFT};
use inc::primitives;
use inc::x86::Cond::{E, G, GE, L, LE};
use inc::x86::Ins::{self, Add, And, Cmp, Cqo, Idiv, Load, Mov, Movzx, Mul, OrAl, Sal, SalAl, Sar, Save, SetCc, Sub};
use inc::x86::Operand::{Const, Reg, Stack};
use inc::x86::Register::{RAX, RCX, RDX};

const SI: i64 = -16;

fn state() -> State {
    State { si: SI }
}

fn load_acc(v: i64) -> Ins {
    Mov { to: Reg(RAX), from: Const(v) }
}

fn bool_tail(cc: inc::x86::Cond) -> Vec<Ins> {
    vec![SetCc { cc }, Movzx, SalAl { v: SHIFT }, OrAl { v: BOOL }]
}

#[test]
fn eval_deposits_the_tagged_literal() {
    let mut s = state();
    assert_eq!(eval(&mut s, &AST::Num(5)), vec![load_acc(40)]);
    assert_eq!(eval(&mut s, &AST::Bool(true)), vec![load_acc(9)]);
    assert_eq!(eval(&mut s, &AST::Bool(false)), vec![load_acc(1)]);
    assert_eq!(eval(&mut s, &AST::Char(b'a')), vec![load_acc(97 * 8 + 2)]);
    assert_eq!(eval(&mut s, &AST::Nil), vec![load_acc(NIL)]);
    assert_eq!(s.si, SI);
}

#[test]
fn mask_extracts_the_tag_field() {
    assert_eq!(mask(), vec![And { r: RAX, v: Const(MASK) }]);
}

#[test]
fn inc_adds_the_encoding_of_one() {
    let mut s = state();
    let r = primitives::inc(&mut s, &AST::Num(41));
    assert_eq!(r, vec![load_acc(41 * 8), Add { r: RAX, v: Const(8) }]);
}

#[test]
fn dec_subtracts_the_encoding_of_one() {
    let mut s = state();
    let r = primitives::dec(&mut s, &AST::Num(43));
    assert_eq!(r, vec![load_acc(43 * 8), Sub { r: RAX, v: Const(8) }]);
}

#[test]
fn fixnump_masks_then_compares_the_tag() {
    let mut s = state();
    let r = primitives::fixnump(&mut s, &AST::Num(42));
    let mut want = vec![load_acc(42 * 8), And { r: RAX, v: Const(MASK) }, Cmp {
        a: Reg(RAX),
        b: Const(NUM),
    }];
    want.extend(bool_tail(E));
    assert_eq!(r, want);
}

#[test]
fn nullp_compares_the_whole_word_against_nil() {
    let mut s = state();
    let r = primitives::nullp(&mut s, &AST::Nil);
    let mut want = vec![load_acc(NIL), Cmp { a: Reg(RAX), b: Const(NIL) }];
    want.extend(bool_tail(E));
    assert_eq!(r, want);
}

#[test]
fn zerop_compares_against_the_num_tag_constant() {
    // The whole, unmasked accumulator is compared against the fixnum tag
    // constant; the test is exact only because that constant is zero, the
    // encoding of zero.
    let mut s = state();
    let r = primitives::zerop(&mut s, &AST::Num(0));
    let mut want = vec![load_acc(0), Cmp { a: Reg(RAX), b: Const(NUM) }];
    want.extend(bool_tail(E));
    assert_eq!(r, want);
}

#[test]
fn not_compares_against_the_false_literal() {
    let mut s = state();
    let r = primitives::not(&mut s, &AST::Bool(false));
    let mut want = vec![load_acc(1), Cmp { a: Reg(RAX), b: Const(1) }];
    want.extend(bool_tail(E));
    assert_eq!(r, want);
}

#[test]
fn plus_stashes_then_adds() {
    // add(encode(3), encode(4)): the stash at the cursor holds encode(3) and
    // the accumulator receives encode(3) + encode(4) == encode(7).
    let mut s = state();
    let r = primitives::plus(&mut s, &AST::Num(3), &AST::Num(4));
    assert_eq!(r, vec![
        load_acc(24),
        Save { r: RAX, si: SI },
        load_acc(32),
        Add { r: RAX, v: Stack(SI) },
    ]);
}

#[test]
fn minus_subtracts_in_the_slot_and_loads_back() {
    let mut s = state();
    let r = primitives::minus(&mut s, &AST::Num(10), &AST::Num(4));
    assert_eq!(r, vec![
        load_acc(80),
        Save { r: RAX, si: SI },
        load_acc(32),
        Sub { r: RAX, v: Stack(SI) },
        Load { r: RAX, si: SI },
    ]);
}

#[test]
fn mul_detags_one_operand_before_multiplying() {
    let mut s = state();
    let r = primitives::mul(&mut s, &AST::Num(6), &AST::Num(7));
    assert_eq!(r, vec![
        load_acc(48),
        Save { r: RAX, si: SI },
        load_acc(56),
        Sar { r: RAX, v: SHIFT },
        Mul { v: Stack(SI) },
    ]);
}

#[test]
fn quotient_divides_and_retags() {
    // quotient(encode(-7), encode(2)): truncating division semantics give
    // encode(-3) in the accumulator when this sequence runs.
    let mut s = state();
    let r = primitives::quotient(&mut s, &AST::Num(-7), &AST::Num(2));
    assert_eq!(r, vec![
        load_acc(16),
        Sar { r: RAX, v: SHIFT },
        Mov { to: Reg(RCX), from: Reg(RAX) },
        load_acc(-56),
        Sar { r: RAX, v: SHIFT },
        Mov { to: Reg(RDX), from: Const(0) },
        Cqo,
        Idiv { r: RCX },
        Sal { r: RAX, v: SHIFT },
    ]);
}

#[test]
fn remainder_moves_the_remainder_register_and_retags() {
    // remainder(encode(-7), encode(2)): the remainder register holds -1 and
    // the accumulator receives encode(-1) when this sequence runs.
    let mut s = state();
    let r = primitives::remainder(&mut s, &AST::Num(-7), &AST::Num(2));
    assert_eq!(r, vec![
        load_acc(16),
        Sar { r: RAX, v: SHIFT },
        Mov { to: Reg(RCX), from: Reg(RAX) },
        load_acc(-56),
        Sar { r: RAX, v: SHIFT },
        Mov { to: Reg(RDX), from: Const(0) },
        Cqo,
        Idiv { r: RCX },
        Mov { to: Reg(RAX), from: Reg(RDX) },
        Sal { r: RAX, v: SHIFT },
    ]);
}

#[test]
fn comparisons_stash_compare_and_set() {
    // lt(encode(1), encode(2)) compares the stashed first encoding against
    // the accumulator under the signed-less condition, so running it leaves
    // the tagged true literal.
    let mut s = state();
    let r = primitives::lt(&mut s, &AST::Num(1), &AST::Num(2));
    let mut want = vec![load_acc(8), Save { r: RAX, si: SI }, load_acc(16), Cmp {
        a: Stack(SI),
        b: Reg(RAX),
    }];
    want.extend(bool_tail(L));
    assert_eq!(r, want);

    let mut s = state();
    let r = primitives::gte(&mut s, &AST::Num(2), &AST::Num(2));
    let mut want = vec![load_acc(16), Save { r: RAX, si: SI }, load_acc(16), Cmp {
        a: Stack(SI),
        b: Reg(RAX),
    }];
    want.extend(bool_tail(GE));
    assert_eq!(r, want);
}

#[test]
fn each_comparison_uses_its_own_condition() {
    let mut s = state();
    let ops: [(fn(&mut State, &AST, &AST) -> Vec<Ins>, inc::x86::Cond); 5] = [
        (primitives::eq, E),
        (primitives::lt, L),
        (primitives::gt, G),
        (primitives::lte, LE),
        (primitives::gte, GE),
    ];
    for (f, cc) in ops {
        let r = f(&mut s, &AST::Num(1), &AST::Num(2));
        assert_eq!(r[4], SetCc { cc });
        assert_eq!(r.len(), 8);
    }
}
