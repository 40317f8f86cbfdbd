//! The boundary with the expression compiler.
//!
//! The primitive code generator consumes two building blocks from the
//! surrounding compiler: `eval`, which emits code depositing an operand's
//! tagged value in the accumulator, and `mask`, which emits code masking the
//! accumulator down to its tag field in place.  The primitives assume
//! nothing about the emitted code beyond the contracts stated here.
//!
//! Operand expressions are carried as already-parsed literals (`AST`), and
//! `State` is the scratch-allocation cursor: `si` is the index of the first
//! stack slot the current sequence may use.  Code emitted for a
//! sub-expression must leave every slot shallower than the entry cursor
//! untouched; the contracts below say so by giving the exact final machine.

use crate::immediate::{
    in_fixnum_range, lemma_and_mask_is_tag, spec_encode, tag_of, CHAR, FALSE, MASK, NIL, TRUE,
};
use crate::x86::{run, step, Ins, Machine, Operand, Register, ASM};
use vstd::prelude::*;

verus! {

/// The compiler state the primitives see: the scratch-allocation cursor.
/// A slot index names one word on the evaluation stack; slots at and past
/// `si` are free for the sequence being emitted.
#[derive(Clone, Copy, PartialEq, Eq, Structural, Debug)]
pub struct State {
    pub si: i64,
}

/// An already-parsed operand expression: one of the literal forms the
/// immediate encoding can represent without heap allocation.
#[derive(Clone, Copy, PartialEq, Eq, Structural, Debug)]
pub enum AST {
    Num(i64),
    Bool(bool),
    Char(u8),
    Nil,
}

impl AST {
    /// A literal is well formed when its payload fits the encoding.
    pub open spec fn wf(self) -> bool {
        match self {
            AST::Num(n) => in_fixnum_range(n as int),
            _ => true,
        }
    }

    /// The tagged word encoding the literal.
    pub open spec fn imm(self) -> i64 {
        match self {
            AST::Num(n) => spec_encode(n as int),
            AST::Bool(b) => if b {
                TRUE
            } else {
                FALSE
            },
            AST::Char(c) => (8 * (c as int) + CHAR) as i64,
            AST::Nil => NIL,
        }
    }
}

/// An instruction sequence of one instruction.
pub fn asm1(i: Ins) -> (r: ASM)
    ensures
        r@ == seq![i],
{
    let mut r: ASM = Vec::new();
    r.push(i);
    proof {
        assert(r@ =~= seq![i]);
    }
    r
}

/// Running a single instruction is one step.
pub proof fn lemma_run_one(i: Ins, m: Machine)
    ensures
        run(seq![i], m) == step(m, i),
{
    reveal_with_fuel(run, 2);
    assert(seq![i].skip(1) =~= Seq::<Ins>::empty());
}

/// Emit code that deposits the operand's tagged value in the accumulator
/// and changes nothing else; slots at the cursor and beyond are not used
/// because a literal needs no scratch space.
pub fn eval(s: &mut State, x: &AST) -> (r: ASM)
    requires
        x.wf(),
    ensures
        *final(s) == *old(s),
        forall|m: Machine| !m.fault ==> #[trigger] run(r@, m) == (Machine { rax: x.imm(), ..m }),
        forall|m: Machine| m.fault ==> #[trigger] run(r@, m) == m,
{
    let v: i64 = match *x {
        AST::Num(n) => n * 8,
        AST::Bool(b) => if b {
            TRUE
        } else {
            FALSE
        },
        AST::Char(c) => (c as i64) * 8 + CHAR,
        AST::Nil => NIL,
    };
    let r = asm1(Ins::Mov { to: Operand::Reg(Register::RAX), from: Operand::Const(v) });
    proof {
        assert forall|m: Machine| !m.fault implies #[trigger] run(r@, m) == (Machine {
            rax: x.imm(),
            ..m
        }) by {
            lemma_run_one(r@[0], m);
        }
        assert forall|m: Machine| m.fault implies #[trigger] run(r@, m) == m by {
            lemma_run_one(r@[0], m);
        }
    }
    r
}

/// Emit code that masks the accumulator down to its tag field in place.
pub fn mask() -> (r: ASM)
    ensures
        forall|m: Machine| !m.fault ==> #[trigger] run(r@, m) == (Machine {
            rax: tag_of(m.rax) as i64,
            ..m
        }),
        forall|m: Machine| m.fault ==> #[trigger] run(r@, m) == m,
{
    let r = asm1(Ins::And { r: Register::RAX, v: Operand::Const(MASK) });
    proof {
        assert forall|m: Machine| !m.fault implies #[trigger] run(r@, m) == (Machine {
            rax: tag_of(m.rax) as i64,
            ..m
        }) by {
            lemma_run_one(r@[0], m);
            lemma_and_mask_is_tag(m.rax);
        }
        assert forall|m: Machine| m.fault implies #[trigger] run(r@, m) == m by {
            lemma_run_one(r@[0], m);
        }
    }
    r
}

} // verus!
