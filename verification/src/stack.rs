//! The operand rules of the byte stack: what each operator makes of the
//! stack, and what it gives back when operands are missing.
//!
//! A stack is a sequence of bytes whose last element is the top.

use crate::op::Op;
use vstd::prelude::*;

verus! {

/// Whether `op` is one of the six operators that take two operands and
/// leave one result: the five of arithmetic, and greater-than.
pub open spec fn is_binary(op: Op) -> bool {
    matches!(op, Op::Add | Op::Sub | Op::Mul | Op::Div | Op::Mod | Op::Gre)
}

/// The result of a two-operand operator on the left operand `a` and the
/// right operand `b`.
///
/// Sums, differences and products are taken modulo 256. Dividing by zero
/// gives 0, as a quotient and as a remainder. Greater-than gives 1 or 0.
pub open spec fn combine(op: Op, a: u8, b: u8) -> u8
    recommends
        is_binary(op),
{
    match op {
        Op::Add => ((a + b) % 256) as u8,
        Op::Sub => ((a - b) % 256) as u8,
        Op::Mul => ((a * b) % 256) as u8,
        Op::Div => if b == 0 {
            0
        } else {
            a / b
        },
        Op::Mod => if b == 0 {
            0
        } else {
            a % b
        },
        Op::Gre => if a > b {
            1
        } else {
            0
        },
        _ => b,
    }
}

/// The stack after a two-operand operator: the two topmost values give
/// way to the result. With fewer than two values the stack stays as it is
/// (a lone right operand is put back).
pub open spec fn binary(op: Op, s: Seq<u8>) -> Seq<u8>
    recommends
        is_binary(op),
{
    if s.len() < 2 {
        s
    } else {
        s.take(s.len() - 2).push(combine(op, s[s.len() - 2], s[s.len() - 1]))
    }
}

/// The stack after logical not: a top of 0 becomes 1, any other top 0.
pub open spec fn negated(s: Seq<u8>) -> Seq<u8> {
    if s.len() == 0 {
        s
    } else {
        s.drop_last().push(
            if s.last() == 0 {
                1u8
            } else {
                0u8
            },
        )
    }
}

/// The stack after duplicating its top.
pub open spec fn duplicated(s: Seq<u8>) -> Seq<u8> {
    if s.len() == 0 {
        s
    } else {
        s.push(s.last())
    }
}

/// The stack after exchanging its two topmost values; with fewer than two
/// it stays as it is.
pub open spec fn swapped(s: Seq<u8>) -> Seq<u8> {
    if s.len() < 2 {
        s
    } else {
        s.take(s.len() - 2).push(s[s.len() - 1]).push(s[s.len() - 2])
    }
}

/// The stack without its top.
pub open spec fn dropped(s: Seq<u8>) -> Seq<u8> {
    if s.len() == 0 {
        s
    } else {
        s.drop_last()
    }
}

/// The top of the stack, read as 0 where the stack is empty.
pub open spec fn top_or_zero(s: Seq<u8>) -> u8 {
    if s.len() == 0 {
        0
    } else {
        s.last()
    }
}

/// Computes `combine(op, a, b)`.
pub(crate) fn compute(op: Op, a: u8, b: u8) -> (r: u8)
    requires
        is_binary(op),
    ensures
        r == combine(op, a, b),
{
    match op {
        Op::Add => a.wrapping_add(b),
        Op::Sub => a.wrapping_sub(b),
        Op::Mul => {
            assert((a as nat * b as nat) % 256nat == (a * b) % 256);
            a.wrapping_mul(b)
        },
        Op::Div => if b == 0 {
            0
        } else {
            a / b
        },
        Op::Mod => if b == 0 {
            0
        } else {
            a % b
        },
        _ => if a > b {
            1
        } else {
            0
        },
    }
}

/// Applies a two-operand operator: pops the right operand, then the left,
/// and pushes the result. A lone right operand is pushed back.
pub(crate) fn apply_binary(stack: &mut Vec<u8>, op: Op)
    requires
        is_binary(op),
    ensures
        final(stack)@ == binary(op, old(stack)@),
{
    if let Some(b) = stack.pop() {
        let mut r = b;
        if let Some(a) = stack.pop() {
            r = compute(op, a, b);
        }
        stack.push(r);
        assert(stack@ =~= binary(op, old(stack)@));
    }
}

/// Applies logical not.
pub(crate) fn apply_not(stack: &mut Vec<u8>)
    ensures
        final(stack)@ == negated(old(stack)@),
{
    if let Some(a) = stack.pop() {
        stack.push(
            if a == 0 {
                1
            } else {
                0
            },
        );
        assert(stack@ =~= negated(old(stack)@));
    }
}

/// Pushes a copy of the top.
pub(crate) fn apply_dup(stack: &mut Vec<u8>)
    ensures
        final(stack)@ == duplicated(old(stack)@),
{
    let n = stack.len();
    if n > 0 {
        let a = stack[n - 1];
        stack.push(a);
    }
}

/// Exchanges the two topmost values. A lone value is pushed back.
pub(crate) fn apply_swap(stack: &mut Vec<u8>)
    ensures
        final(stack)@ == swapped(old(stack)@),
{
    if let Some(b) = stack.pop() {
        if let Some(a) = stack.pop() {
            stack.push(b);
            stack.push(a);
        } else {
            stack.push(b);
        }
        assert(stack@ =~= swapped(old(stack)@));
    }
}

/// Pops the top, reading an empty stack as 0.
pub(crate) fn pop_or_zero(stack: &mut Vec<u8>) -> (v: u8)
    ensures
        v == top_or_zero(old(stack)@),
        final(stack)@ == dropped(old(stack)@),
{
    match stack.pop() {
        Some(a) => {
            assert(stack@ =~= dropped(old(stack)@));
            a
        },
        None => 0,
    }
}

} // verus!
