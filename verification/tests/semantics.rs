//! Scenario tests that execute the emitted instruction sequences on a small
//! simulator mirroring the instruction semantics the library's contracts are
//! stated against, and check the value left in the accumulator.

use std::collections::HashMap;

use inc::emit::{State, AST};
use inc::immediate::{encode_fixnum, FALSE, TRUE};
use inc::primitives;
use inc::x86::{Cond, Ins, Operand, Register};

struct Sim {
    rax: i64,
    rcx: i64,
    rdx: i64,
    stack: HashMap<i64, i64>,
    cmp: (i64, i64),
    fault: bool,
}

impl Sim {
    fn new() -> Sim {
        Sim { rax: 0, rcx: 0, rdx: 0, stack: HashMap::new(), cmp: (0, 0), fault: false }
    }

    fn reg(&self, r: Register) -> i64 {
        match r {
            Register::RAX => self.rax,
            Register::RCX => self.rcx,
            Register::RDX => self.rdx,
        }
    }

    fn set_reg(&mut self, r: Register, v: i64) {
        match r {
            Register::RAX => self.rax = v,
            Register::RCX => self.rcx = v,
            Register::RDX => self.rdx = v,
        }
    }

    fn read(&self, op: Operand) -> i64 {
        match op {
            Operand::Reg(r) => self.reg(r),
            Operand::Const(c) => c,
            Operand::Stack(si) => *self.stack.get(&si).expect("read of unwritten slot"),
        }
    }

    fn holds(cc: Cond, a: i64, b: i64) -> bool {
        match cc {
            Cond::E => a == b,
            Cond::L => a < b,
            Cond::G => a > b,
            Cond::LE => a <= b,
            Cond::GE => a >= b,
        }
    }

    fn step(&mut self, i: &Ins) {
        if self.fault {
            return;
        }
        match *i {
            Ins::Mov { to, from } => {
                let v = self.read(from);
                match to {
                    Operand::Reg(r) => self.set_reg(r, v),
                    Operand::Stack(si) => {
                        self.stack.insert(si, v);
                    }
                    Operand::Const(_) => self.fault = true,
                }
            }
            Ins::Add { r, v } => {
                let x = self.reg(r).wrapping_add(self.read(v));
                self.set_reg(r, x);
            }
            Ins::Sub { r, v } => match v {
                Operand::Stack(si) => {
                    let x = self.read(v).wrapping_sub(self.reg(r));
                    self.stack.insert(si, x);
                }
                _ => {
                    let x = self.reg(r).wrapping_sub(self.read(v));
                    self.set_reg(r, x);
                }
            },
            Ins::Mul { v } => {
                let wide = (self.rax as u64 as u128) * (self.read(v) as u64 as u128);
                self.rax = wide as u64 as i64;
                self.rdx = (wide >> 64) as u64 as i64;
            }
            Ins::And { r, v } => {
                let x = ((self.reg(r) as u64) & (self.read(v) as u64)) as i64;
                self.set_reg(r, x);
            }
            Ins::Sar { r, v } => {
                let x = self.reg(r) >> ((v as u32) & 63);
                self.set_reg(r, x);
            }
            Ins::Sal { r, v } => {
                let x = self.reg(r).wrapping_shl((v as u32) & 63);
                self.set_reg(r, x);
            }
            Ins::Cqo => {
                self.rdx = if self.rax < 0 { -1 } else { 0 };
            }
            Ins::Idiv { r } => {
                let d = self.reg(r);
                let dividend = ((self.rdx as i128) << 64) | (self.rax as u64 as i128);
                if d == 0 {
                    self.fault = true;
                    return;
                }
                let q = dividend / (d as i128);
                if q > i64::MAX as i128 || q < i64::MIN as i128 {
                    self.fault = true;
                    return;
                }
                self.rax = q as i64;
                self.rdx = (dividend % (d as i128)) as i64;
            }
            Ins::Save { r, si } => {
                let v = self.reg(r);
                self.stack.insert(si, v);
            }
            Ins::Load { r, si } => {
                let v = *self.stack.get(&si).expect("load of unwritten slot");
                self.set_reg(r, v);
            }
            Ins::Cmp { a, b } => {
                self.cmp = (self.read(a), self.read(b));
            }
            Ins::SetCc { cc } => {
                let bit = if Sim::holds(cc, self.cmp.0, self.cmp.1) { 1 } else { 0 };
                self.rax = (self.rax & !0xff) | bit;
            }
            Ins::Movzx => {
                self.rax &= 0xff;
            }
            Ins::SalAl { v } => {
                let al = ((self.rax & 0xff) as u8).wrapping_shl(v as u32);
                self.rax = (self.rax & !0xff) | al as i64;
            }
            Ins::OrAl { v } => {
                let al = (self.rax & 0xff) as u8 | (v & 0xff) as u8;
                self.rax = (self.rax & !0xff) | al as i64;
            }
        }
    }

    fn run(&mut self, code: &[Ins]) {
        for i in code {
            self.step(i);
        }
        assert!(!self.fault, "the sequence faulted");
    }
}

const SI: i64 = -16;

fn state() -> State {
    State { si: SI }
}

#[test]
fn increment_produces_the_successor_encoding() {
    for n in [-5i64, 0, 41, 999] {
        let mut m = Sim::new();
        m.run(&primitives::inc(&mut state(), &AST::Num(n)));
        assert_eq!(m.rax, encode_fixnum(n + 1));
    }
}

#[test]
fn decrement_produces_the_predecessor_encoding() {
    for n in [-5i64, 0, 43, 999] {
        let mut m = Sim::new();
        m.run(&primitives::dec(&mut state(), &AST::Num(n)));
        assert_eq!(m.rax, encode_fixnum(n - 1));
    }
}

#[test]
fn addition_matches_integer_arithmetic() {
    let mut m = Sim::new();
    m.run(&primitives::plus(&mut state(), &AST::Num(3), &AST::Num(4)));
    assert_eq!(m.rax, encode_fixnum(7));
    let mut m = Sim::new();
    m.run(&primitives::plus(&mut state(), &AST::Num(-30), &AST::Num(12)));
    assert_eq!(m.rax, encode_fixnum(-18));
}

#[test]
fn subtraction_lands_first_minus_second() {
    let mut m = Sim::new();
    m.run(&primitives::minus(&mut state(), &AST::Num(10), &AST::Num(4)));
    assert_eq!(m.rax, encode_fixnum(6));
    let mut m = Sim::new();
    m.run(&primitives::minus(&mut state(), &AST::Num(4), &AST::Num(10)));
    assert_eq!(m.rax, encode_fixnum(-6));
}

#[test]
fn multiplication_matches_integer_arithmetic() {
    let mut m = Sim::new();
    m.run(&primitives::mul(&mut state(), &AST::Num(6), &AST::Num(7)));
    assert_eq!(m.rax, encode_fixnum(42));
    let mut m = Sim::new();
    m.run(&primitives::mul(&mut state(), &AST::Num(-6), &AST::Num(7)));
    assert_eq!(m.rax, encode_fixnum(-42));
}

#[test]
fn quotient_truncates_toward_zero() {
    let mut m = Sim::new();
    m.run(&primitives::quotient(&mut state(), &AST::Num(-7), &AST::Num(2)));
    assert_eq!(m.rax, encode_fixnum(-3));
    let mut m = Sim::new();
    m.run(&primitives::quotient(&mut state(), &AST::Num(7), &AST::Num(2)));
    assert_eq!(m.rax, encode_fixnum(3));
}

#[test]
fn remainder_follows_the_dividend_sign() {
    let mut m = Sim::new();
    m.run(&primitives::remainder(&mut state(), &AST::Num(-7), &AST::Num(2)));
    assert_eq!(m.rax, encode_fixnum(-1));
    let mut m = Sim::new();
    m.run(&primitives::remainder(&mut state(), &AST::Num(7), &AST::Num(2)));
    assert_eq!(m.rax, encode_fixnum(1));
}

#[test]
fn comparisons_yield_tagged_booleans() {
    let mut m = Sim::new();
    m.run(&primitives::lt(&mut state(), &AST::Num(1), &AST::Num(2)));
    assert_eq!(m.rax, TRUE);
    let mut m = Sim::new();
    m.run(&primitives::gte(&mut state(), &AST::Num(2), &AST::Num(2)));
    assert_eq!(m.rax, TRUE);
    let mut m = Sim::new();
    m.run(&primitives::gt(&mut state(), &AST::Num(2), &AST::Num(2)));
    assert_eq!(m.rax, FALSE);
    let mut m = Sim::new();
    m.run(&primitives::lte(&mut state(), &AST::Num(3), &AST::Num(2)));
    assert_eq!(m.rax, FALSE);
}

#[test]
fn eq_is_true_only_for_identical_encodings() {
    let mut m = Sim::new();
    m.run(&primitives::eq(&mut state(), &AST::Num(5), &AST::Num(5)));
    assert_eq!(m.rax, TRUE);
    let mut m = Sim::new();
    m.run(&primitives::eq(&mut state(), &AST::Num(5), &AST::Num(6)));
    assert_eq!(m.rax, FALSE);
    let mut m = Sim::new();
    m.run(&primitives::eq(&mut state(), &AST::Bool(true), &AST::Bool(true)));
    assert_eq!(m.rax, TRUE);
}

#[test]
fn type_tests_follow_the_tag() {
    let cases: [(fn(&mut State, &AST) -> Vec<Ins>, AST, i64); 8] = [
        (primitives::fixnump, AST::Num(42), TRUE),
        (primitives::fixnump, AST::Bool(true), FALSE),
        (primitives::booleanp, AST::Bool(false), TRUE),
        (primitives::booleanp, AST::Num(0), FALSE),
        (primitives::charp, AST::Char(b'x'), TRUE),
        (primitives::charp, AST::Nil, FALSE),
        (primitives::nullp, AST::Nil, TRUE),
        (primitives::nullp, AST::Num(0), FALSE),
    ];
    for (f, x, want) in cases {
        let mut m = Sim::new();
        m.run(&f(&mut state(), &x));
        assert_eq!(m.rax, want);
    }
}

#[test]
fn zerop_accepts_zero_and_not_rejects_false() {
    let mut m = Sim::new();
    m.run(&primitives::zerop(&mut state(), &AST::Num(0)));
    assert_eq!(m.rax, TRUE);
    let mut m = Sim::new();
    m.run(&primitives::zerop(&mut state(), &AST::Num(1)));
    assert_eq!(m.rax, FALSE);
    let mut m = Sim::new();
    m.run(&primitives::not(&mut state(), &AST::Bool(false)));
    assert_eq!(m.rax, TRUE);
    let mut m = Sim::new();
    m.run(&primitives::not(&mut state(), &AST::Num(3)));
    assert_eq!(m.rax, FALSE);
}

#[test]
fn binary_sequences_leave_other_slots_untouched() {
    let mut m = Sim::new();
    m.stack.insert(-8, 12345);
    m.stack.insert(-24, -777);
    m.run(&primitives::plus(&mut state(), &AST::Num(1), &AST::Num(2)));
    assert_eq!(m.stack[&-8], 12345);
    assert_eq!(m.stack[&-24], -777);
    assert_eq!(m.stack[&SI], encode_fixnum(1));
    assert_eq!(m.rax, encode_fixnum(3));
}
