//! Instruction sequences and their semantics.
//!
//! An instruction sequence (`ASM`) is an ordered, concatenable list of
//! instruction descriptions over a named accumulator (`RAX`), two scratch
//! registers, and numbered stack slots.  `Machine` together with `step` and
//! `run` gives the sequences a formal meaning: the contracts of the code
//! generator in `primitives` state what the emitted sequence computes when
//! executed from an arbitrary starting machine.
//!
//! Register arithmetic wraps at 64 bits, shifts mask their count to six
//! bits, and the divide instruction faults on a zero divisor or an
//! out-of-range quotient, all as the target architecture does.  A faulted
//! machine is stuck: every later instruction leaves it unchanged.

use vstd::arithmetic::power2::pow2;
use vstd::math::abs;
use vstd::prelude::*;

verus! {

/// Bytes in one machine word.
pub const WORDSIZE: i64 = 8;

/// The registers the primitive sequences touch.  `RAX` is the accumulator:
/// every sequence leaves its result there.
#[derive(Clone, Copy, PartialEq, Eq, Structural, Debug)]
pub enum Register {
    RAX,
    RCX,
    RDX,
}

/// An instruction operand: a register, an immediate constant, or the stack
/// slot at a given index.
#[derive(Clone, Copy, PartialEq, Eq, Structural, Debug)]
pub enum Operand {
    Reg(Register),
    Const(i64),
    Stack(i64),
}

/// A processor condition tested by a conditional-set instruction: equal,
/// (signed) less, greater, less-or-equal, greater-or-equal.
#[derive(Clone, Copy, PartialEq, Eq, Structural, Debug)]
pub enum Cond {
    E,
    L,
    G,
    LE,
    GE,
}

/// One instruction description.
#[derive(Clone, Copy, PartialEq, Eq, Structural, Debug)]
#[allow(inconsistent_fields)]
pub enum Ins {
    /// Move `from` into `to`; the target must be a register or a stack slot.
    Mov { to: Operand, from: Operand },
    /// `r += v`, wrapping.
    Add { r: Register, v: Operand },
    /// With a constant or register operand: `r -= v`, wrapping.  With a
    /// stack operand the slot is the destination, mirroring a
    /// memory-destination subtract: `slot -= r`.
    Sub { r: Register, v: Operand },
    /// Widening multiply of the accumulator: `RAX` receives the low word of
    /// `RAX * v` and `RDX` is clobbered with the high word.
    Mul { v: Operand },
    /// `r &= v` bitwise.
    And { r: Register, v: Operand },
    /// Arithmetic shift right: `r` is floor-divided by two to the count.
    Sar { r: Register, v: i64 },
    /// Shift left: `r` is multiplied by two to the count, wrapping.
    Sal { r: Register, v: i64 },
    /// Sign-extend `RAX` across the two-register dividend: `RDX` becomes the
    /// sign word of `RAX`.
    Cqo,
    /// Signed divide of the two-register dividend `RDX:RAX` by `r`:
    /// quotient (truncated toward zero) to `RAX`, remainder to `RDX`.
    /// Faults when the divisor is zero or the quotient overflows.
    Idiv { r: Register },
    /// Store `r` into the stack slot at `si`.
    Save { r: Register, si: i64 },
    /// Load the stack slot at `si` into `r`.
    Load { r: Register, si: i64 },
    /// Compare two operands, recording them for a later conditional set.
    Cmp { a: Operand, b: Operand },
    /// Set the low byte of `RAX` to 1 or 0 as the recorded comparison
    /// satisfies the condition.
    SetCc { cc: Cond },
    /// Zero-extend the low byte of `RAX` over the whole register.
    Movzx,
    /// Shift the low byte of `RAX` left by the count, within the byte.
    SalAl { v: i64 },
    /// Or the low byte of the operand into the low byte of `RAX`.
    OrAl { v: i64 },
}

/// An instruction sequence; concatenation preserves execution order.
pub type ASM = Vec<Ins>;

/// A machine state: the three registers, the stack slots, the operands of
/// the last compare, and whether the machine has faulted.
pub struct Machine {
    pub rax: i64,
    pub rcx: i64,
    pub rdx: i64,
    pub stack: Map<i64, i64>,
    pub cmp_a: i64,
    pub cmp_b: i64,
    pub fault: bool,
}

/// The 64-bit two's-complement wrap of an unbounded integer.
pub open spec fn wrap_i64(x: int) -> i64 {
    (((x + 0x8000_0000_0000_0000) % 0x1_0000_0000_0000_0000) - 0x8000_0000_0000_0000) as i64
}

/// The unsigned reinterpretation of a word, as an integer.
pub open spec fn as_unsigned(x: i64) -> int {
    (x as int) % 0x1_0000_0000_0000_0000
}

/// The low byte of a word, as an integer.
pub open spec fn low_byte(w: i64) -> int {
    (w as int) % 256
}

/// The word with its low byte replaced by `b`.
pub open spec fn with_low_byte(w: i64, b: int) -> i64
    recommends
        0 <= b < 256,
{
    (w as int - (w as int) % 256 + b) as i64
}

/// Bitwise or of two bytes.
pub open spec fn or_byte(a: int, b: int) -> int
    recommends
        0 <= a < 256,
        0 <= b < 256,
{
    ((a as u8) | (b as u8)) as int
}

/// The high word of the widening multiply of two words.
pub open spec fn mul_hi(a: i64, b: i64) -> i64 {
    ((as_unsigned(a) * as_unsigned(b)) / 0x1_0000_0000_0000_0000) as i64
}

/// Signed division truncated toward zero, as the divide instruction rounds.
pub open spec fn trunc_div(a: int, b: int) -> int
    recommends
        b != 0,
{
    if (a < 0) == (b < 0) {
        abs(a) as int / abs(b) as int
    } else {
        -(abs(a) as int / abs(b) as int)
    }
}

/// The remainder matching `trunc_div`: it satisfies
/// `a == b * trunc_div(a, b) + trunc_rem(a, b)` and takes the dividend's sign.
pub open spec fn trunc_rem(a: int, b: int) -> int
    recommends
        b != 0,
{
    a - b * trunc_div(a, b)
}

/// Whether a condition holds of the recorded compare operands, signed.
pub open spec fn cond_holds(cc: Cond, a: i64, b: i64) -> bool {
    match cc {
        Cond::E => a == b,
        Cond::L => a < b,
        Cond::G => a > b,
        Cond::LE => a <= b,
        Cond::GE => a >= b,
    }
}

/// The value a register holds.
pub open spec fn read_reg(m: Machine, r: Register) -> i64 {
    match r {
        Register::RAX => m.rax,
        Register::RCX => m.rcx,
        Register::RDX => m.rdx,
    }
}

/// The machine with one register replaced.
pub open spec fn write_reg(m: Machine, r: Register, v: i64) -> Machine {
    match r {
        Register::RAX => Machine { rax: v, ..m },
        Register::RCX => Machine { rcx: v, ..m },
        Register::RDX => Machine { rdx: v, ..m },
    }
}

/// The value an operand denotes in a machine state.
pub open spec fn read_op(m: Machine, op: Operand) -> i64 {
    match op {
        Operand::Reg(r) => read_reg(m, r),
        Operand::Const(c) => c,
        Operand::Stack(si) => m.stack[si],
    }
}

/// The effect of one instruction.  A faulted machine is left unchanged.
pub open spec fn step(m: Machine, i: Ins) -> Machine {
    if m.fault {
        m
    } else {
        match i {
            Ins::Mov { to, from } => match to {
                Operand::Reg(r) => write_reg(m, r, read_op(m, from)),
                Operand::Stack(si) => Machine { stack: m.stack.insert(si, read_op(m, from)), ..m },
                Operand::Const(_) => Machine { fault: true, ..m },
            },
            Ins::Add { r, v } => write_reg(m, r, wrap_i64(read_reg(m, r) + read_op(m, v))),
            Ins::Sub { r, v } => match v {
                Operand::Stack(si) => Machine {
                    stack: m.stack.insert(si, wrap_i64(m.stack[si] - read_reg(m, r))),
                    ..m
                },
                _ => write_reg(m, r, wrap_i64(read_reg(m, r) - read_op(m, v))),
            },
            Ins::Mul { v } => Machine {
                rax: wrap_i64(m.rax * read_op(m, v)),
                rdx: mul_hi(m.rax, read_op(m, v)),
                ..m
            },
            Ins::And { r, v } => write_reg(
                m,
                r,
                (((read_reg(m, r) as u64) & (read_op(m, v) as u64)) as i64),
            ),
            Ins::Sar { r, v } => write_reg(
                m,
                r,
                (((read_reg(m, r) as int) / pow2(((v as int) % 64) as nat) as int) as i64),
            ),
            Ins::Sal { r, v } => write_reg(
                m,
                r,
                wrap_i64((read_reg(m, r) as int) * pow2(((v as int) % 64) as nat) as int),
            ),
            Ins::Cqo => Machine { rdx: if m.rax < 0 { -1i64 } else { 0i64 }, ..m },
            Ins::Idiv { r } => {
                let d = read_reg(m, r) as int;
                let dividend = (m.rdx as int) * 0x1_0000_0000_0000_0000 + as_unsigned(m.rax);
                let q = trunc_div(dividend, d);
                if d == 0 || q < i64::MIN || q > i64::MAX {
                    Machine { fault: true, ..m }
                } else {
                    Machine { rax: q as i64, rdx: trunc_rem(dividend, d) as i64, ..m }
                }
            },
            Ins::Save { r, si } => Machine { stack: m.stack.insert(si, read_reg(m, r)), ..m },
            Ins::Load { r, si } => write_reg(m, r, m.stack[si]),
            Ins::Cmp { a, b } => Machine { cmp_a: read_op(m, a), cmp_b: read_op(m, b), ..m },
            Ins::SetCc { cc } => Machine {
                rax: with_low_byte(
                    m.rax,
                    if cond_holds(cc, m.cmp_a, m.cmp_b) {
                        1
                    } else {
                        0
                    },
                ),
                ..m
            },
            Ins::Movzx => Machine { rax: low_byte(m.rax) as i64, ..m },
            Ins::SalAl { v } => Machine {
                rax: with_low_byte(
                    m.rax,
                    (low_byte(m.rax) * pow2(((v as int) % 64) as nat)) % 256,
                ),
                ..m
            },
            Ins::OrAl { v } => Machine {
                rax: with_low_byte(m.rax, or_byte(low_byte(m.rax), (v as int) % 256)),
                ..m
            },
        }
    }
}

/// Executing a sequence: each instruction in order.
pub open spec fn run(code: Seq<Ins>, m: Machine) -> Machine
    decreases code.len(),
{
    if code.len() == 0 {
        m
    } else {
        run(code.skip(1), step(m, code[0]))
    }
}

/// Wrapping is the identity on values already in the word range.
pub proof fn lemma_wrap_i64_identity(x: int)
    requires
        i64::MIN <= x <= i64::MAX,
    ensures
        wrap_i64(x) == x,
{
    vstd::arithmetic::div_mod::lemma_small_mod(
        (x + 0x8000_0000_0000_0000) as nat,
        0x1_0000_0000_0000_0000,
    );
}

/// Replacing the low byte of a word leaves a word whose low byte is the
/// replacement and whose remaining bits are unchanged.
pub proof fn lemma_with_low_byte(w: i64, b: int)
    requires
        0 <= b < 256,
    ensures
        low_byte(with_low_byte(w, b)) == b,
        with_low_byte(w, b) as int == w as int - low_byte(w) + b,
{
    vstd::arithmetic::div_mod::lemma_fundamental_div_mod(w as int, 256);
    vstd::arithmetic::div_mod::lemma_div_is_ordered(i64::MIN as int, w as int, 256);
    vstd::arithmetic::div_mod::lemma_div_is_ordered(w as int, i64::MAX as int, 256);
    vstd::arithmetic::div_mod::lemma_mod_multiples_vanish((w as int) / 256, b, 256);
    vstd::arithmetic::div_mod::lemma_small_mod(b as nat, 256);
}

/// Running five instructions is five steps.
pub proof fn lemma_run5(i0: Ins, i1: Ins, i2: Ins, i3: Ins, i4: Ins, m: Machine)
    ensures
        run(seq![i0, i1, i2, i3, i4], m) == step(
            step(step(step(step(m, i0), i1), i2), i3),
            i4,
        ),
{
    reveal_with_fuel(run, 6);
    assert(seq![i0, i1, i2, i3, i4].skip(1) =~= seq![i1, i2, i3, i4]);
    assert(seq![i1, i2, i3, i4].skip(1) =~= seq![i2, i3, i4]);
    assert(seq![i2, i3, i4].skip(1) =~= seq![i3, i4]);
    assert(seq![i3, i4].skip(1) =~= seq![i4]);
    assert(seq![i4].skip(1) =~= Seq::<Ins>::empty());
}

/// The unsigned reinterpretation of a non-negative word is the word itself;
/// of a negative word, the word plus two to the sixty-fourth.
pub proof fn lemma_as_unsigned(v: i64)
    ensures
        v >= 0 ==> as_unsigned(v) == v as int,
        v < 0 ==> as_unsigned(v) == v as int + 0x1_0000_0000_0000_0000,
{
    if v >= 0 {
        vstd::arithmetic::div_mod::lemma_small_mod(v as nat, 0x1_0000_0000_0000_0000);
    } else {
        vstd::arithmetic::div_mod::lemma_mod_multiples_vanish(
            1,
            v as int,
            0x1_0000_0000_0000_0000,
        );
        vstd::arithmetic::div_mod::lemma_small_mod(
            (v as int + 0x1_0000_0000_0000_0000) as nat,
            0x1_0000_0000_0000_0000,
        );
    }
}

/// Truncating division obeys the fundamental relation; the quotient is no
/// larger in magnitude than the dividend and the remainder is smaller in
/// magnitude than the divisor.
pub proof fn lemma_trunc_div_bounds(a: int, b: int)
    requires
        b != 0,
    ensures
        a == b * trunc_div(a, b) + trunc_rem(a, b),
        abs(trunc_div(a, b)) <= abs(a),
        abs(trunc_rem(a, b)) < abs(b),
{
    let p = abs(a) as int;
    let d = abs(b) as int;
    let q0 = p / d;
    let r0 = p % d;
    vstd::arithmetic::div_mod::lemma_fundamental_div_mod(p, d);
    vstd::arithmetic::div_mod::lemma_mod_division_less_than_divisor(p, d);
    vstd::arithmetic::div_mod::lemma_div_pos_is_pos(p, d);
    vstd::arithmetic::div_mod::lemma_div_nonincreasing(p, d);
    assert(p == d * q0 + r0);
    if (a < 0) == (b < 0) {
        assert(b * trunc_div(a, b) == b * q0);
        assert(a == b * q0 + (if a < 0 {
            -r0
        } else {
            r0
        })) by (nonlinear_arith)
            requires
                p == d * q0 + r0,
                p == abs(a),
                d == abs(b),
                (a < 0) == (b < 0),
                q0 >= 0,
        ;
    } else {
        assert(b * trunc_div(a, b) == b * (-q0));
        assert(a == b * (-q0) + (if a < 0 {
            -r0
        } else {
            r0
        })) by (nonlinear_arith)
            requires
                p == d * q0 + r0,
                p == abs(a),
                d == abs(b),
                (a < 0) != (b < 0),
                q0 >= 0,
        ;
    }
}

/// Running a concatenation runs the two parts in order.
pub proof fn lemma_run_append(a: Seq<Ins>, b: Seq<Ins>, m: Machine)
    ensures
        run(a + b, m) == run(b, run(a, m)),
    decreases a.len(),
{
    if a.len() == 0 {
        assert(a + b =~= b);
    } else {
        assert((a + b).skip(1) =~= a.skip(1) + b);
        lemma_run_append(a.skip(1), b, step(m, a[0]));
    }
}

/// A fault is permanent: running any code on a faulted machine changes
/// nothing.
pub proof fn lemma_run_fault(code: Seq<Ins>, m: Machine)
    requires
        m.fault,
    ensures
        run(code, m) == m,
    decreases code.len(),
{
    if code.len() > 0 {
        lemma_run_fault(code.skip(1), m);
    }
}

} // verus!
