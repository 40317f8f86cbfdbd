//! Code generation for the unary and binary primitive operations.
//!
//! Every entry point takes the scratch-allocation cursor and one or two
//! already-parsed operand expressions and returns an instruction sequence.
//! Each contract gives the exact machine reached by running the emitted
//! sequence from an arbitrary non-faulted starting machine: the result value
//! lands in the accumulator, and every stack slot other than the one at the
//! entry cursor keeps its entry value (the binary protocol stashes the first
//! operand's value in the slot at the cursor).  The lemmas at the end of the
//! module connect the machine-level results to the fixnum codec:
//! incrementing an encoded fixnum yields the encoding of the successor, the
//! arithmetic sequences compute the encoded sum, difference and product, and
//! the division sequences compute the encoded truncating quotient and
//! remainder.
//!
//! The primitives perform no tag checks: the caller is responsible for type
//! safety, matching the dynamically-untyped-but-unchecked semantics of this
//! language tier.

use crate::emit::{asm1, eval, lemma_run_one, mask, State, AST};
use crate::immediate::{
    in_fixnum_range, lemma_decode_in_range, lemma_fixnum_round_trip, spec_decode, spec_encode,
    tag_of, BOOL, CHAR, FALSE, NIL, NUM, SHIFT, TRUE,
};
use crate::x86::{
    cond_holds, lemma_as_unsigned, lemma_run5, lemma_run_append, lemma_run_fault,
    lemma_trunc_div_bounds, lemma_with_low_byte, lemma_wrap_i64_identity, low_byte, mul_hi,
    read_op, run, step, trunc_div, trunc_rem, wrap_i64, Cond, Ins, Machine, Operand, Register, ASM,
};
use vstd::arithmetic::power2::lemma2_to64;
use vstd::prelude::*;

verus! {

/// The numeric value an operand's encoding denotes: its tagged word
/// arithmetically shifted right by the tag width.  For a well-formed number
/// literal this is the number itself.
pub open spec fn operand_num(x: AST) -> int {
    spec_decode(x.imm())
}

// Unary Primitives

/// Increment: add the fixnum encoding of 1 to the evaluated operand.
pub fn inc(s: &mut State, x: &AST) -> (r: ASM)
    requires
        x.wf(),
    ensures
        *final(s) == *old(s),
        forall|m: Machine| !m.fault ==> #[trigger] run(r@, m) == (Machine {
            rax: wrap_i64(x.imm() + 8),
            ..m
        }),
        forall|m: Machine| m.fault ==> #[trigger] run(r@, m) == m,
{
    let mut r = eval(s, x);
    let ghost e = r@;
    let mut t = asm1(Ins::Add { r: Register::RAX, v: Operand::Const(8) });
    r.append(&mut t);
    proof {
        assert(r@ =~= e + seq![Ins::Add { r: Register::RAX, v: Operand::Const(8) }]);
        assert forall|m: Machine| !m.fault implies #[trigger] run(r@, m) == (Machine {
            rax: wrap_i64(x.imm() + 8),
            ..m
        }) by {
            lemma_run_append(e, seq![Ins::Add { r: Register::RAX, v: Operand::Const(8) }], m);
            lemma_run_one(Ins::Add { r: Register::RAX, v: Operand::Const(8) }, run(e, m));
        }
        assert forall|m: Machine| m.fault implies #[trigger] run(r@, m) == m by {
            lemma_run_fault(r@, m);
        }
    }
    r
}

/// Decrement: subtract the fixnum encoding of 1 from the evaluated operand.
pub fn dec(s: &mut State, x: &AST) -> (r: ASM)
    requires
        x.wf(),
    ensures
        *final(s) == *old(s),
        forall|m: Machine| !m.fault ==> #[trigger] run(r@, m) == (Machine {
            rax: wrap_i64(x.imm() - 8),
            ..m
        }),
        forall|m: Machine| m.fault ==> #[trigger] run(r@, m) == m,
{
    let mut r = eval(s, x);
    let ghost e = r@;
    let mut t = asm1(Ins::Sub { r: Register::RAX, v: Operand::Const(8) });
    r.append(&mut t);
    proof {
        assert(r@ =~= e + seq![Ins::Sub { r: Register::RAX, v: Operand::Const(8) }]);
        assert forall|m: Machine| !m.fault implies #[trigger] run(r@, m) == (Machine {
            rax: wrap_i64(x.imm() - 8),
            ..m
        }) by {
            lemma_run_append(e, seq![Ins::Sub { r: Register::RAX, v: Operand::Const(8) }], m);
            lemma_run_one(Ins::Sub { r: Register::RAX, v: Operand::Const(8) }, run(e, m));
        }
        assert forall|m: Machine| m.fault implies #[trigger] run(r@, m) == m by {
            lemma_run_fault(r@, m);
        }
    }
    r
}

/// Shared tail of every predicate and comparison: compare the two operands,
/// set a byte from the matching condition flag, zero-extend it into the
/// accumulator, shift it to the payload position and or in the boolean tag.
/// The accumulator becomes the tagged true or false literal.
fn compare(a: Operand, b: Operand, cc: Cond) -> (r: ASM)
    ensures
        forall|m: Machine| !m.fault ==> #[trigger] run(r@, m) == (Machine {
            rax: if cond_holds(cc, read_op(m, a), read_op(m, b)) {
                TRUE
            } else {
                FALSE
            },
            cmp_a: read_op(m, a),
            cmp_b: read_op(m, b),
            ..m
        }),
        forall|m: Machine| m.fault ==> #[trigger] run(r@, m) == m,
{
    let mut r: ASM = Vec::new();
    r.push(Ins::Cmp { a, b });
    r.push(Ins::SetCc { cc });
    r.push(Ins::Movzx);
    r.push(Ins::SalAl { v: SHIFT });
    r.push(Ins::OrAl { v: BOOL });
    proof {
        assert(r@ =~= seq![
            Ins::Cmp { a, b },
            Ins::SetCc { cc },
            Ins::Movzx,
            Ins::SalAl { v: SHIFT },
            Ins::OrAl { v: BOOL },
        ]);
        assert forall|m: Machine| !m.fault implies #[trigger] run(r@, m) == (Machine {
            rax: if cond_holds(cc, read_op(m, a), read_op(m, b)) {
                TRUE
            } else {
                FALSE
            },
            cmp_a: read_op(m, a),
            cmp_b: read_op(m, b),
            ..m
        }) by {
            lemma2_to64();
            lemma_run5(
                Ins::Cmp { a, b },
                Ins::SetCc { cc },
                Ins::Movzx,
                Ins::SalAl { v: SHIFT },
                Ins::OrAl { v: BOOL },
                m,
            );
            let m1 = step(m, Ins::Cmp { a, b });
            let hit = cond_holds(cc, read_op(m, a), read_op(m, b));
            let bit: int = if hit {
                1
            } else {
                0
            };
            let m2 = step(m1, Ins::SetCc { cc });
            lemma_with_low_byte(m1.rax, bit);
            let m3 = step(m2, Ins::Movzx);
            assert(m3.rax == bit as i64);
            let m4 = step(m3, Ins::SalAl { v: SHIFT });
            let m5 = step(m4, Ins::OrAl { v: BOOL });
            if hit {
                assert(low_byte(m3.rax) == 1);
                assert(m4.rax == 8i64);
                assert((8u8 | 1u8) == 9u8) by (bit_vector);
                assert(m5.rax == TRUE);
            } else {
                assert(low_byte(m3.rax) == 0);
                assert(m4.rax == 0i64);
                assert((0u8 | 1u8) == 1u8) by (bit_vector);
                assert(m5.rax == FALSE);
            }
        }
        assert forall|m: Machine| m.fault implies #[trigger] run(r@, m) == m by {
            lemma_run_fault(r@, m);
        }
    }
    r
}

/// Emit a tag-field test: evaluate the operand, mask the accumulator to the
/// tag field in place, and materialize the comparison with `want` as a
/// tagged boolean.
fn tag_test(s: &mut State, expr: &AST, want: i64) -> (r: ASM)
    requires
        expr.wf(),
    ensures
        *final(s) == *old(s),
        forall|m: Machine| !m.fault ==> #[trigger] run(r@, m) == (Machine {
            rax: if tag_of(expr.imm()) == want as int {
                TRUE
            } else {
                FALSE
            },
            cmp_a: tag_of(expr.imm()) as i64,
            cmp_b: want,
            ..m
        }),
        forall|m: Machine| m.fault ==> #[trigger] run(r@, m) == m,
{
    let mut r = eval(s, expr);
    let ghost e = r@;
    let mut t = mask();
    let ghost mk = t@;
    r.append(&mut t);
    let mut c = compare(Operand::Reg(Register::RAX), Operand::Const(want), Cond::E);
    let ghost cp = c@;
    r.append(&mut c);
    proof {
        assert(r@ =~= (e + mk) + cp);
        assert forall|m: Machine| !m.fault implies #[trigger] run(r@, m) == (Machine {
            rax: if tag_of(expr.imm()) == want as int {
                TRUE
            } else {
                FALSE
            },
            cmp_a: tag_of(expr.imm()) as i64,
            cmp_b: want,
            ..m
        }) by {
            lemma_run_append(e + mk, cp, m);
            lemma_run_append(e, mk, m);
        }
        assert forall|m: Machine| m.fault implies #[trigger] run(r@, m) == m by {
            lemma_run_fault(r@, m);
        }
    }
    r
}

/// Emit a whole-word test: evaluate the operand and compare the full,
/// unmasked accumulator against the sentinel `want`.
fn word_test(s: &mut State, expr: &AST, want: i64) -> (r: ASM)
    requires
        expr.wf(),
    ensures
        *final(s) == *old(s),
        forall|m: Machine| !m.fault ==> #[trigger] run(r@, m) == (Machine {
            rax: if expr.imm() == want {
                TRUE
            } else {
                FALSE
            },
            cmp_a: expr.imm(),
            cmp_b: want,
            ..m
        }),
        forall|m: Machine| m.fault ==> #[trigger] run(r@, m) == m,
{
    let mut r = eval(s, expr);
    let ghost e = r@;
    let mut c = compare(Operand::Reg(Register::RAX), Operand::Const(want), Cond::E);
    let ghost cp = c@;
    r.append(&mut c);
    proof {
        assert(r@ =~= e + cp);
        assert forall|m: Machine| !m.fault implies #[trigger] run(r@, m) == (Machine {
            rax: if expr.imm() == want {
                TRUE
            } else {
                FALSE
            },
            cmp_a: expr.imm(),
            cmp_b: want,
            ..m
        }) by {
            lemma_run_append(e, cp, m);
        }
        assert forall|m: Machine| m.fault implies #[trigger] run(r@, m) == m by {
            lemma_run_fault(r@, m);
        }
    }
    r
}

/// Is the expression a fixnum?  Masks the accumulator to the tag field and
/// compares it against `NUM`.
pub fn fixnump(s: &mut State, expr: &AST) -> (r: ASM)
    requires
        expr.wf(),
    ensures
        *final(s) == *old(s),
        forall|m: Machine| !m.fault ==> #[trigger] run(r@, m) == (Machine {
            rax: if tag_of(expr.imm()) == NUM as int {
                TRUE
            } else {
                FALSE
            },
            cmp_a: tag_of(expr.imm()) as i64,
            cmp_b: NUM,
            ..m
        }),
        forall|m: Machine| m.fault ==> #[trigger] run(r@, m) == m,
{
    tag_test(s, expr, NUM)
}

/// Is the expression a boolean?  Masks the accumulator to the tag field and
/// compares it against `BOOL`.
pub fn booleanp(s: &mut State, expr: &AST) -> (r: ASM)
    requires
        expr.wf(),
    ensures
        *final(s) == *old(s),
        forall|m: Machine| !m.fault ==> #[trigger] run(r@, m) == (Machine {
            rax: if tag_of(expr.imm()) == BOOL as int {
                TRUE
            } else {
                FALSE
            },
            cmp_a: tag_of(expr.imm()) as i64,
            cmp_b: BOOL,
            ..m
        }),
        forall|m: Machine| m.fault ==> #[trigger] run(r@, m) == m,
{
    tag_test(s, expr, BOOL)
}

/// Is the expression a character?  Masks the accumulator to the tag field
/// and compares it against `CHAR`.
pub fn charp(s: &mut State, expr: &AST) -> (r: ASM)
    requires
        expr.wf(),
    ensures
        *final(s) == *old(s),
        forall|m: Machine| !m.fault ==> #[trigger] run(r@, m) == (Machine {
            rax: if tag_of(expr.imm()) == CHAR as int {
                TRUE
            } else {
                FALSE
            },
            cmp_a: tag_of(expr.imm()) as i64,
            cmp_b: CHAR,
            ..m
        }),
        forall|m: Machine| m.fault ==> #[trigger] run(r@, m) == m,
{
    tag_test(s, expr, CHAR)
}

/// Is the expression null?  Compares the whole word against the `NIL`
/// sentinel; no masking is needed because `NIL` carries no payload bits.
pub fn nullp(s: &mut State, expr: &AST) -> (r: ASM)
    requires
        expr.wf(),
    ensures
        *final(s) == *old(s),
        forall|m: Machine| !m.fault ==> #[trigger] run(r@, m) == (Machine {
            rax: if expr.imm() == NIL {
                TRUE
            } else {
                FALSE
            },
            cmp_a: expr.imm(),
            cmp_b: NIL,
            ..m
        }),
        forall|m: Machine| m.fault ==> #[trigger] run(r@, m) == m,
{
    word_test(s, expr, NIL)
}

/// Is the expression zero?  Compares the whole, unmasked word against the
/// fixnum tag constant.  The test is exact only because `NUM` is zero, which
/// makes the constant coincide with the encoding of zero.
pub fn zerop(s: &mut State, expr: &AST) -> (r: ASM)
    requires
        expr.wf(),
    ensures
        *final(s) == *old(s),
        forall|m: Machine| !m.fault ==> #[trigger] run(r@, m) == (Machine {
            rax: if expr.imm() == NUM {
                TRUE
            } else {
                FALSE
            },
            cmp_a: expr.imm(),
            cmp_b: NUM,
            ..m
        }),
        forall|m: Machine| m.fault ==> #[trigger] run(r@, m) == m,
{
    word_test(s, expr, NUM)
}

/// Logical not: true exactly when the operand is the false literal.
pub fn not(s: &mut State, expr: &AST) -> (r: ASM)
    requires
        expr.wf(),
    ensures
        *final(s) == *old(s),
        forall|m: Machine| !m.fault ==> #[trigger] run(r@, m) == (Machine {
            rax: if expr.imm() == FALSE {
                TRUE
            } else {
                FALSE
            },
            cmp_a: expr.imm(),
            cmp_b: FALSE,
            ..m
        }),
        forall|m: Machine| m.fault ==> #[trigger] run(r@, m) == m,
{
    word_test(s, expr, FALSE)
}

// Binary Primitives

/// Evaluate both arguments: the first is stashed in the stack slot at the
/// cursor, the second is left in the accumulator.
fn binop(s: &mut State, x: &AST, y: &AST) -> (r: ASM)
    requires
        x.wf(),
        y.wf(),
    ensures
        *final(s) == *old(s),
        forall|m: Machine| !m.fault ==> #[trigger] run(r@, m) == (Machine {
            rax: y.imm(),
            stack: m.stack.insert(old(s).si, x.imm()),
            ..m
        }),
        forall|m: Machine| m.fault ==> #[trigger] run(r@, m) == m,
{
    let mut r = eval(s, x);
    let ghost e1 = r@;
    let ghost si = s.si;
    let mut t = asm1(Ins::Save { r: Register::RAX, si: s.si });
    r.append(&mut t);
    let mut t = eval(s, y);
    let ghost e2 = t@;
    r.append(&mut t);
    proof {
        assert(r@ =~= (e1 + seq![Ins::Save { r: Register::RAX, si: si }]) + e2);
        assert forall|m: Machine| !m.fault implies #[trigger] run(r@, m) == (Machine {
            rax: y.imm(),
            stack: m.stack.insert(old(s).si, x.imm()),
            ..m
        }) by {
            lemma_run_append(e1 + seq![Ins::Save { r: Register::RAX, si: si }], e2, m);
            lemma_run_append(e1, seq![Ins::Save { r: Register::RAX, si: si }], m);
            lemma_run_one(Ins::Save { r: Register::RAX, si: si }, run(e1, m));
        }
        assert forall|m: Machine| m.fault implies #[trigger] run(r@, m) == m by {
            lemma_run_fault(r@, m);
        }
    }
    r
}

/// Add `x` and `y`; the encoded sum lands in the accumulator.  Addition of
/// encoded fixnums is addition of the encodings.
pub fn plus(s: &mut State, x: &AST, y: &AST) -> (r: ASM)
    requires
        x.wf(),
        y.wf(),
    ensures
        *final(s) == *old(s),
        forall|m: Machine| !m.fault ==> #[trigger] run(r@, m) == (Machine {
            rax: wrap_i64(x.imm() + y.imm()),
            stack: m.stack.insert(old(s).si, x.imm()),
            ..m
        }),
        forall|m: Machine| m.fault ==> #[trigger] run(r@, m) == m,
{
    let mut r = binop(s, x, y);
    let ghost b = r@;
    let ghost si = s.si;
    let mut t = asm1(Ins::Add { r: Register::RAX, v: Operand::Stack(s.si) });
    r.append(&mut t);
    proof {
        assert(r@ =~= b + seq![Ins::Add { r: Register::RAX, v: Operand::Stack(si) }]);
        assert forall|m: Machine| !m.fault implies #[trigger] run(r@, m) == (Machine {
            rax: wrap_i64(x.imm() + y.imm()),
            stack: m.stack.insert(old(s).si, x.imm()),
            ..m
        }) by {
            lemma_run_append(b, seq![Ins::Add { r: Register::RAX, v: Operand::Stack(si) }], m);
            lemma_run_one(Ins::Add { r: Register::RAX, v: Operand::Stack(si) }, run(b, m));
        }
        assert forall|m: Machine| m.fault implies #[trigger] run(r@, m) == m by {
            lemma_run_fault(r@, m);
        }
    }
    r
}

/// Subtract `y` from `x`; the encoded difference `x - y` lands in the
/// accumulator.  After the stash protocol the accumulator holds the second
/// operand, so the subtract targets the stack slot and the result is loaded
/// back, leaving the slot also holding the difference.
pub fn minus(s: &mut State, x: &AST, y: &AST) -> (r: ASM)
    requires
        x.wf(),
        y.wf(),
    ensures
        *final(s) == *old(s),
        forall|m: Machine| !m.fault ==> #[trigger] run(r@, m) == (Machine {
            rax: wrap_i64(x.imm() - y.imm()),
            stack: m.stack.insert(old(s).si, wrap_i64(x.imm() - y.imm())),
            ..m
        }),
        forall|m: Machine| m.fault ==> #[trigger] run(r@, m) == m,
{
    let mut r = binop(s, x, y);
    let ghost b = r@;
    let ghost si = s.si;
    let mut t = asm1(Ins::Sub { r: Register::RAX, v: Operand::Stack(s.si) });
    r.append(&mut t);
    let mut t = asm1(Ins::Load { r: Register::RAX, si: s.si });
    r.append(&mut t);
    proof {
        let sb = Ins::Sub { r: Register::RAX, v: Operand::Stack(si) };
        let ld = Ins::Load { r: Register::RAX, si: si };
        assert(r@ =~= (b + seq![sb]) + seq![ld]);
        assert forall|m: Machine| !m.fault implies #[trigger] run(r@, m) == (Machine {
            rax: wrap_i64(x.imm() - y.imm()),
            stack: m.stack.insert(old(s).si, wrap_i64(x.imm() - y.imm())),
            ..m
        }) by {
            lemma_run_append(b + seq![sb], seq![ld], m);
            lemma_run_append(b, seq![sb], m);
            lemma_run_one(sb, run(b, m));
            lemma_run_one(ld, run(b + seq![sb], m));
            assert(m.stack.insert(si, x.imm()).insert(si, wrap_i64(x.imm() - y.imm()))
                =~= m.stack.insert(si, wrap_i64(x.imm() - y.imm())));
        }
        assert forall|m: Machine| m.fault implies #[trigger] run(r@, m) == m by {
            lemma_run_fault(r@, m);
        }
    }
    r
}

/// Multiply `x` and `y`; the encoded product lands in the accumulator.  The
/// second operand is de-tagged by an arithmetic right shift before the
/// widening multiply against the stashed first encoding, so the product
/// comes out already in encoded form; the high-word register is clobbered.
pub fn mul(s: &mut State, x: &AST, y: &AST) -> (r: ASM)
    requires
        x.wf(),
        y.wf(),
    ensures
        *final(s) == *old(s),
        forall|m: Machine| !m.fault ==> #[trigger] run(r@, m) == (Machine {
            rax: wrap_i64(operand_num(*y) * x.imm()),
            rdx: mul_hi(spec_decode(y.imm()) as i64, x.imm()),
            stack: m.stack.insert(old(s).si, x.imm()),
            ..m
        }),
        forall|m: Machine| m.fault ==> #[trigger] run(r@, m) == m,
{
    let mut r = binop(s, x, y);
    let ghost b = r@;
    let ghost si = s.si;
    let mut t = asm1(Ins::Sar { r: Register::RAX, v: SHIFT });
    r.append(&mut t);
    let mut t = asm1(Ins::Mul { v: Operand::Stack(s.si) });
    r.append(&mut t);
    proof {
        let sr = Ins::Sar { r: Register::RAX, v: SHIFT };
        let ml = Ins::Mul { v: Operand::Stack(si) };
        assert(r@ =~= (b + seq![sr]) + seq![ml]);
        assert forall|m: Machine| !m.fault implies #[trigger] run(r@, m) == (Machine {
            rax: wrap_i64(operand_num(*y) * x.imm()),
            rdx: mul_hi(spec_decode(y.imm()) as i64, x.imm()),
            stack: m.stack.insert(old(s).si, x.imm()),
            ..m
        }) by {
            lemma2_to64();
            lemma_decode_in_range(y.imm());
            lemma_run_append(b + seq![sr], seq![ml], m);
            lemma_run_append(b, seq![sr], m);
            lemma_run_one(sr, run(b, m));
            lemma_run_one(ml, run(b + seq![sr], m));
        }
        assert forall|m: Machine| m.fault implies #[trigger] run(r@, m) == m by {
            lemma_run_fault(r@, m);
        }
    }
    r
}

/// The shared division sequence: de-tag the divisor into the fixed scratch
/// register, de-tag the dividend into the accumulator, sign-extend the
/// accumulator across the two-register dividend, and divide.  The truncated
/// quotient is left in the accumulator and the remainder in the paired
/// remainder register, both still raw (un-encoded).  A zero divisor faults
/// the machine, as the divide instruction does.
fn div(s: &mut State, x: &AST, y: &AST) -> (r: ASM)
    requires
        x.wf(),
        y.wf(),
    ensures
        *final(s) == *old(s),
        forall|m: Machine| !m.fault && operand_num(*y) != 0 ==> #[trigger] run(r@, m) == (Machine {
            rax: trunc_div(operand_num(*x), operand_num(*y)) as i64,
            rcx: operand_num(*y) as i64,
            rdx: trunc_rem(operand_num(*x), operand_num(*y)) as i64,
            ..m
        }),
        forall|m: Machine| !m.fault && operand_num(*y) == 0 ==> #[trigger] run(r@, m) == (Machine {
            rax: operand_num(*x) as i64,
            rcx: 0i64,
            rdx: if operand_num(*x) < 0 {
                -1i64
            } else {
                0i64
            },
            fault: true,
            ..m
        }),
        forall|m: Machine| m.fault ==> #[trigger] run(r@, m) == m,
{
    let mut r = eval(s, y);
    let ghost ey = r@;
    let mut t = asm1(Ins::Sar { r: Register::RAX, v: SHIFT });
    r.append(&mut t);
    let mut t = asm1(
        Ins::Mov { to: Operand::Reg(Register::RCX), from: Operand::Reg(Register::RAX) },
    );
    r.append(&mut t);
    let mut t = eval(s, x);
    let ghost ex = t@;
    r.append(&mut t);
    let mut t = asm1(Ins::Sar { r: Register::RAX, v: SHIFT });
    r.append(&mut t);
    let mut t = asm1(Ins::Mov { to: Operand::Reg(Register::RDX), from: Operand::Const(0) });
    r.append(&mut t);
    let mut t = asm1(Ins::Cqo);
    r.append(&mut t);
    let mut t = asm1(Ins::Idiv { r: Register::RCX });
    r.append(&mut t);
    proof {
        let sar = Ins::Sar { r: Register::RAX, v: SHIFT };
        let mvc = Ins::Mov { to: Operand::Reg(Register::RCX), from: Operand::Reg(Register::RAX) };
        let mvd = Ins::Mov { to: Operand::Reg(Register::RDX), from: Operand::Const(0) };
        let idv = Ins::Idiv { r: Register::RCX };
        let r5 = seq![mvd] + (seq![Ins::Cqo] + seq![idv]);
        let r4 = seq![sar] + r5;
        let r3 = ex + r4;
        let r2 = seq![mvc] + r3;
        let r1 = seq![sar] + r2;
        assert(r@ =~= ey + r1);
        let xd = operand_num(*x);
        let yd = operand_num(*y);
        assert forall|m: Machine| !m.fault implies #[trigger] run(r@, m) == (if yd != 0 {
            (Machine {
                rax: trunc_div(xd, yd) as i64,
                rcx: yd as i64,
                rdx: trunc_rem(xd, yd) as i64,
                ..m
            })
        } else {
            (Machine {
                rax: xd as i64,
                rcx: 0i64,
                rdx: if xd < 0 {
                    -1i64
                } else {
                    0i64
                },
                fault: true,
                ..m
            })
        }) by {
            lemma2_to64();
            lemma_decode_in_range(x.imm());
            lemma_decode_in_range(y.imm());
            lemma_run_append(ey, r1, m);
            let m1 = run(ey, m);
            lemma_run_append(seq![sar], r2, m1);
            lemma_run_one(sar, m1);
            let m2 = step(m1, sar);
            lemma_run_append(seq![mvc], r3, m2);
            lemma_run_one(mvc, m2);
            let m3 = step(m2, mvc);
            lemma_run_append(ex, r4, m3);
            let m4 = run(ex, m3);
            lemma_run_append(seq![sar], r5, m4);
            lemma_run_one(sar, m4);
            let m5 = step(m4, sar);
            lemma_run_append(seq![mvd], seq![Ins::Cqo] + seq![idv], m5);
            lemma_run_one(mvd, m5);
            let m6 = step(m5, mvd);
            lemma_run_append(seq![Ins::Cqo], seq![idv], m6);
            lemma_run_one(Ins::Cqo, m6);
            let m7 = step(m6, Ins::Cqo);
            lemma_run_one(idv, m7);
            lemma_as_unsigned(m7.rax);
            assert((m7.rdx as int) * 0x1_0000_0000_0000_0000 + crate::x86::as_unsigned(m7.rax)
                == xd);
            if yd != 0 {
                lemma_trunc_div_bounds(xd, yd);
            }
        }
        assert forall|m: Machine| m.fault implies #[trigger] run(r@, m) == m by {
            lemma_run_fault(r@, m);
        }
    }
    r
}

/// Quotient of `x` by `y`: the division sequence followed by re-tagging the
/// quotient with a left shift.  For fixnum operands with a non-zero divisor
/// the accumulator receives the encoding of the truncated quotient.
pub fn quotient(s: &mut State, x: &AST, y: &AST) -> (r: ASM)
    requires
        x.wf(),
        y.wf(),
    ensures
        *final(s) == *old(s),
        forall|m: Machine| !m.fault && operand_num(*y) != 0 ==> #[trigger] run(r@, m) == (Machine {
            rax: wrap_i64(8 * trunc_div(operand_num(*x), operand_num(*y))),
            rcx: operand_num(*y) as i64,
            rdx: trunc_rem(operand_num(*x), operand_num(*y)) as i64,
            ..m
        }),
        forall|m: Machine| !m.fault && operand_num(*y) == 0 ==> (#[trigger] run(r@, m)).fault,
        forall|m: Machine| m.fault ==> #[trigger] run(r@, m) == m,
{
    let mut r = div(s, x, y);
    let ghost d = r@;
    let mut t = asm1(Ins::Sal { r: Register::RAX, v: SHIFT });
    r.append(&mut t);
    proof {
        let sl = Ins::Sal { r: Register::RAX, v: SHIFT };
        assert(r@ =~= d + seq![sl]);
        let xd = operand_num(*x);
        let yd = operand_num(*y);
        assert forall|m: Machine| !m.fault && yd != 0 implies #[trigger] run(r@, m) == (Machine {
            rax: wrap_i64(8 * trunc_div(xd, yd)),
            rcx: yd as i64,
            rdx: trunc_rem(xd, yd) as i64,
            ..m
        }) by {
            lemma2_to64();
            lemma_decode_in_range(x.imm());
            lemma_decode_in_range(y.imm());
            lemma_trunc_div_bounds(xd, yd);
            lemma_run_append(d, seq![sl], m);
            let md = run(d, m);
            lemma_run_one(sl, md);
            assert(run(r@, m) == step(md, sl));
            assert(md.rax as int == trunc_div(xd, yd));
            assert(step(md, sl).rax == wrap_i64(trunc_div(xd, yd) * 8));
            assert(trunc_div(xd, yd) * 8 == 8 * trunc_div(xd, yd));
        }
        assert forall|m: Machine| !m.fault && yd == 0 implies (#[trigger] run(r@, m)).fault by {
            lemma_run_append(d, seq![sl], m);
            lemma_run_one(sl, run(d, m));
        }
        assert forall|m: Machine| m.fault implies #[trigger] run(r@, m) == m by {
            lemma_run_fault(r@, m);
        }
    }
    r
}

/// Remainder of `x` by `y`: the division sequence, then the remainder
/// register is moved to the accumulator and re-tagged with a left shift.
/// For fixnum operands with a non-zero divisor the accumulator receives the
/// encoding of the remainder of truncating division, whose sign follows the
/// dividend.
pub fn remainder(s: &mut State, x: &AST, y: &AST) -> (r: ASM)
    requires
        x.wf(),
        y.wf(),
    ensures
        *final(s) == *old(s),
        forall|m: Machine| !m.fault && operand_num(*y) != 0 ==> #[trigger] run(r@, m) == (Machine {
            rax: wrap_i64(8 * trunc_rem(operand_num(*x), operand_num(*y))),
            rcx: operand_num(*y) as i64,
            rdx: trunc_rem(operand_num(*x), operand_num(*y)) as i64,
            ..m
        }),
        forall|m: Machine| !m.fault && operand_num(*y) == 0 ==> (#[trigger] run(r@, m)).fault,
        forall|m: Machine| m.fault ==> #[trigger] run(r@, m) == m,
{
    let mut r = div(s, x, y);
    let ghost d = r@;
    let mut t = asm1(
        Ins::Mov { to: Operand::Reg(Register::RAX), from: Operand::Reg(Register::RDX) },
    );
    r.append(&mut t);
    let mut t = asm1(Ins::Sal { r: Register::RAX, v: SHIFT });
    r.append(&mut t);
    proof {
        let mv = Ins::Mov { to: Operand::Reg(Register::RAX), from: Operand::Reg(Register::RDX) };
        let sl = Ins::Sal { r: Register::RAX, v: SHIFT };
        assert(r@ =~= (d + seq![mv]) + seq![sl]);
        let xd = operand_num(*x);
        let yd = operand_num(*y);
        assert forall|m: Machine| !m.fault && yd != 0 implies #[trigger] run(r@, m) == (Machine {
            rax: wrap_i64(8 * trunc_rem(xd, yd)),
            rcx: yd as i64,
            rdx: trunc_rem(xd, yd) as i64,
            ..m
        }) by {
            lemma2_to64();
            lemma_decode_in_range(x.imm());
            lemma_decode_in_range(y.imm());
            lemma_trunc_div_bounds(xd, yd);
            lemma_run_append(d + seq![mv], seq![sl], m);
            lemma_run_append(d, seq![mv], m);
            let md = run(d, m);
            lemma_run_one(mv, md);
            let mm = step(md, mv);
            lemma_run_one(sl, run(d + seq![mv], m));
            assert(run(d + seq![mv], m) == mm);
            assert(run(r@, m) == step(mm, sl));
            assert(mm.rax as int == trunc_rem(xd, yd));
            assert(step(mm, sl).rax == wrap_i64(trunc_rem(xd, yd) * 8));
            assert(trunc_rem(xd, yd) * 8 == 8 * trunc_rem(xd, yd));
        }
        assert forall|m: Machine| !m.fault && yd == 0 implies (#[trigger] run(r@, m)).fault by {
            lemma_run_append(d + seq![mv], seq![sl], m);
            lemma_run_append(d, seq![mv], m);
            lemma_run_one(mv, run(d, m));
            lemma_run_one(sl, run(d + seq![mv], m));
        }
        assert forall|m: Machine| m.fault implies #[trigger] run(r@, m) == m by {
            lemma_run_fault(r@, m);
        }
    }
    r
}

/// Shared body of the comparison primitives: the stash protocol followed by
/// the comparison tail on the slot and the accumulator.
fn cmp_op(s: &mut State, x: &AST, y: &AST, cc: Cond) -> (r: ASM)
    requires
        x.wf(),
        y.wf(),
    ensures
        *final(s) == *old(s),
        forall|m: Machine| !m.fault ==> #[trigger] run(r@, m) == (Machine {
            rax: if cond_holds(cc, x.imm(), y.imm()) {
                TRUE
            } else {
                FALSE
            },
            cmp_a: x.imm(),
            cmp_b: y.imm(),
            stack: m.stack.insert(old(s).si, x.imm()),
            ..m
        }),
        forall|m: Machine| m.fault ==> #[trigger] run(r@, m) == m,
{
    let mut r = binop(s, x, y);
    let ghost b = r@;
    let mut c = compare(Operand::Stack(s.si), Operand::Reg(Register::RAX), cc);
    let ghost cp = c@;
    r.append(&mut c);
    proof {
        assert(r@ =~= b + cp);
        assert forall|m: Machine| !m.fault implies #[trigger] run(r@, m) == (Machine {
            rax: if cond_holds(cc, x.imm(), y.imm()) {
                TRUE
            } else {
                FALSE
            },
            cmp_a: x.imm(),
            cmp_b: y.imm(),
            stack: m.stack.insert(old(s).si, x.imm()),
            ..m
        }) by {
            lemma_run_append(b, cp, m);
        }
        assert forall|m: Machine| m.fault implies #[trigger] run(r@, m) == m by {
            lemma_run_fault(r@, m);
        }
    }
    r
}

/// Logical equality: true exactly when the two encodings are bit-identical
/// words.
pub fn eq(s: &mut State, x: &AST, y: &AST) -> (r: ASM)
    requires
        x.wf(),
        y.wf(),
    ensures
        *final(s) == *old(s),
        forall|m: Machine| !m.fault ==> #[trigger] run(r@, m) == (Machine {
            rax: if x.imm() == y.imm() {
                TRUE
            } else {
                FALSE
            },
            cmp_a: x.imm(),
            cmp_b: y.imm(),
            stack: m.stack.insert(old(s).si, x.imm()),
            ..m
        }),
        forall|m: Machine| m.fault ==> #[trigger] run(r@, m) == m,
{
    cmp_op(s, x, y, Cond::E)
}

/// Logical `<` on the signed encodings; encoding preserves order.
pub fn lt(s: &mut State, x: &AST, y: &AST) -> (r: ASM)
    requires
        x.wf(),
        y.wf(),
    ensures
        *final(s) == *old(s),
        forall|m: Machine| !m.fault ==> #[trigger] run(r@, m) == (Machine {
            rax: if x.imm() < y.imm() {
                TRUE
            } else {
                FALSE
            },
            cmp_a: x.imm(),
            cmp_b: y.imm(),
            stack: m.stack.insert(old(s).si, x.imm()),
            ..m
        }),
        forall|m: Machine| m.fault ==> #[trigger] run(r@, m) == m,
{
    cmp_op(s, x, y, Cond::L)
}

/// Logical `>` on the signed encodings.
pub fn gt(s: &mut State, x: &AST, y: &AST) -> (r: ASM)
    requires
        x.wf(),
        y.wf(),
    ensures
        *final(s) == *old(s),
        forall|m: Machine| !m.fault ==> #[trigger] run(r@, m) == (Machine {
            rax: if x.imm() > y.imm() {
                TRUE
            } else {
                FALSE
            },
            cmp_a: x.imm(),
            cmp_b: y.imm(),
            stack: m.stack.insert(old(s).si, x.imm()),
            ..m
        }),
        forall|m: Machine| m.fault ==> #[trigger] run(r@, m) == m,
{
    cmp_op(s, x, y, Cond::G)
}

/// Logical `<=` on the signed encodings.
pub fn lte(s: &mut State, x: &AST, y: &AST) -> (r: ASM)
    requires
        x.wf(),
        y.wf(),
    ensures
        *final(s) == *old(s),
        forall|m: Machine| !m.fault ==> #[trigger] run(r@, m) == (Machine {
            rax: if x.imm() <= y.imm() {
                TRUE
            } else {
                FALSE
            },
            cmp_a: x.imm(),
            cmp_b: y.imm(),
            stack: m.stack.insert(old(s).si, x.imm()),
            ..m
        }),
        forall|m: Machine| m.fault ==> #[trigger] run(r@, m) == m,
{
    cmp_op(s, x, y, Cond::LE)
}

/// Logical `>=` on the signed encodings.
pub fn gte(s: &mut State, x: &AST, y: &AST) -> (r: ASM)
    requires
        x.wf(),
        y.wf(),
    ensures
        *final(s) == *old(s),
        forall|m: Machine| !m.fault ==> #[trigger] run(r@, m) == (Machine {
            rax: if x.imm() >= y.imm() {
                TRUE
            } else {
                FALSE
            },
            cmp_a: x.imm(),
            cmp_b: y.imm(),
            stack: m.stack.insert(old(s).si, x.imm()),
            ..m
        }),
        forall|m: Machine| m.fault ==> #[trigger] run(r@, m) == m,
{
    cmp_op(s, x, y, Cond::GE)
}

// Laws connecting the machine-level contracts to the fixnum codec.

/// A well-formed number literal's decoded operand value is the number
/// itself.
pub proof fn lemma_operand_num(n: i64)
    requires
        in_fixnum_range(n as int),
    ensures
        operand_num(AST::Num(n)) == n as int,
        AST::Num(n).imm() == spec_encode(n as int),
{
    lemma_fixnum_round_trip(n as int);
}

/// Incrementing the encoding of `n` yields the encoding of `n + 1`.
pub proof fn lemma_increment_law(n: int)
    requires
        in_fixnum_range(n),
        in_fixnum_range(n + 1),
    ensures
        wrap_i64(spec_encode(n) + 8) == spec_encode(n + 1),
{
    lemma_wrap_i64_identity(8 * (n + 1));
}

/// Decrementing the encoding of `n` yields the encoding of `n - 1`.
pub proof fn lemma_decrement_law(n: int)
    requires
        in_fixnum_range(n),
        in_fixnum_range(n - 1),
    ensures
        wrap_i64(spec_encode(n) - 8) == spec_encode(n - 1),
{
    lemma_wrap_i64_identity(8 * (n - 1));
}

/// Adding the encodings of `a` and `b` yields the encoding of `a + b`.
pub proof fn lemma_plus_law(a: int, b: int)
    requires
        in_fixnum_range(a),
        in_fixnum_range(b),
        in_fixnum_range(a + b),
    ensures
        wrap_i64(spec_encode(a) + spec_encode(b)) == spec_encode(a + b),
{
    lemma_wrap_i64_identity(8 * (a + b));
}

/// Subtracting the encodings yields the encoding of the difference.
pub proof fn lemma_minus_law(a: int, b: int)
    requires
        in_fixnum_range(a),
        in_fixnum_range(b),
        in_fixnum_range(a - b),
    ensures
        wrap_i64(spec_encode(a) - spec_encode(b)) == spec_encode(a - b),
{
    lemma_wrap_i64_identity(8 * (a - b));
}

/// Multiplying the de-tagged second operand against the first encoding
/// yields the encoding of the product.
pub proof fn lemma_mul_law(a: int, b: int)
    requires
        in_fixnum_range(a),
        in_fixnum_range(b),
        in_fixnum_range(a * b),
    ensures
        wrap_i64(b * spec_encode(a)) == spec_encode(a * b),
{
    let e = spec_encode(a) as int;
    assert(b * e == 8 * (a * b)) by (nonlinear_arith)
        requires
            e == 8 * a,
    ;
    lemma_wrap_i64_identity(8 * (a * b));
}

/// Re-tagging the truncated quotient yields its encoding.
pub proof fn lemma_quotient_law(a: int, b: int)
    requires
        b != 0,
        in_fixnum_range(trunc_div(a, b)),
    ensures
        wrap_i64(8 * trunc_div(a, b)) == spec_encode(trunc_div(a, b)),
{
    lemma_wrap_i64_identity(8 * trunc_div(a, b));
}

/// Re-tagging the remainder yields its encoding; a fixnum divisor keeps the
/// remainder inside the fixnum range.
pub proof fn lemma_remainder_law(a: int, b: int)
    requires
        b != 0,
        in_fixnum_range(b),
    ensures
        in_fixnum_range(trunc_rem(a, b)),
        wrap_i64(8 * trunc_rem(a, b)) == spec_encode(trunc_rem(a, b)),
{
    lemma_trunc_div_bounds(a, b);
    lemma_wrap_i64_identity(8 * trunc_rem(a, b));
}

/// Fixnum encoding preserves equality and signed order, so comparing
/// encodings compares values.
pub proof fn lemma_compare_law(a: int, b: int)
    requires
        in_fixnum_range(a),
        in_fixnum_range(b),
    ensures
        (spec_encode(a) == spec_encode(b)) == (a == b),
        (spec_encode(a) < spec_encode(b)) == (a < b),
        (spec_encode(a) > spec_encode(b)) == (a > b),
        (spec_encode(a) <= spec_encode(b)) == (a <= b),
        (spec_encode(a) >= spec_encode(b)) == (a >= b),
{
}

} // verus!
