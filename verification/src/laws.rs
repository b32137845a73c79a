//! What the definitions of the engine come to: the laws that its users
//! rely on, each proved from [`Machine::step`] and [`Machine::run`].

use crate::error::RuntimeError;
use crate::machine::{quotient, remainder, trunc_div, trunc_rem, Machine, Outcome};
use crate::opp::Opp;
use vstd::arithmetic::div_mod::{lemma_fundamental_div_mod, lemma_mod_pos_bound};
use vstd::prelude::*;

verus! {

/// Whether a step that has run its token goes on: the budget of steps was
/// not used up before it, and the stack it leaves is within the limit.
pub open spec fn within_limits(m: Machine, depth_after: int) -> bool {
    &&& m.tokens_consumed < m.budget()
    &&& m.stack_limit matches Some(limit) ==> depth_after <= limit
}

/// The `exit` token, and the end of a program that will get no more tokens,
/// both pop exactly one value and hand it out as the result of the run. On
/// an empty stack both fail with `NoOut` and leave the engine as it was.
/// Whether more tokens may come makes no difference to `exit`.
pub proof fn lemma_result_is_popped(m: Machine)
    requires
        m.on_opp(Opp::Exit) || (m.eof && m.ptr == m.tokens.len()),
    ensures
        m.stack.len() == 0 ==> m.run() == (m, Err::<Option<i64>, RuntimeError>(RuntimeError::NoOut)),
        m.stack.len() > 0 ==> m.run() == (
            m.with_stack(m.stack.drop_last()),
            Ok::<Option<i64>, RuntimeError>(Some(m.stack.last())),
        ),
        m.tokens.len() > 0 ==> m.execute() == m.run(),
{
}

/// An engine without any token that is told that none will come fails with
/// `NoTokens`, whatever else it holds.
pub proof fn lemma_no_tokens(m: Machine)
    requires
        m.tokens.len() == 0,
        m.eof,
    ensures
        m.execute() == (m, Err::<Option<i64>, RuntimeError>(RuntimeError::NoTokens)),
{
}

/// While more tokens may come, an engine whose pointer stands at or past
/// the end of its program stops to wait, however far past the end, and is
/// left as it was.
pub proof fn lemma_waits_for_tokens(m: Machine)
    requires
        !m.eof,
        m.ptr >= m.tokens.len(),
    ensures
        m.run() == (m, Ok::<Option<i64>, RuntimeError>(None)),
        m.execute() == m.run(),
{
}

/// `hop` with the distance `d` on top of the stack pops it and leaves the
/// pointer at the index of the `hop` plus `d` plus one, provided that this
/// index is a 64-bit value; the run goes on there unless a limit is hit.
pub proof fn lemma_hop_lands(m: Machine)
    requires
        m.on_opp(Opp::Hop),
        m.stack.len() > 0,
        m.ptr + m.stack.last() + 1 <= i64::MAX,
    ensures
        m.step().machine().ptr == m.ptr + m.stack.last() + 1,
        m.step().machine().stack == m.stack.drop_last(),
        m.step() is Go <==> within_limits(m, m.stack.len() - 1),
{
}

/// `goto` with the index `v` on top of the stack pops it and leaves the
/// pointer at `v`; the run goes on there unless a limit is hit.
pub proof fn lemma_goto_lands(m: Machine)
    requires
        m.on_opp(Opp::Goto),
        m.stack.len() > 0,
    ensures
        m.step().machine().ptr == m.stack.last(),
        m.step().machine().stack == m.stack.drop_last(),
        m.step() is Go <==> within_limits(m, m.stack.len() - 1),
{
}

/// `swap` exchanges the two topmost values and leaves the rest of the stack
/// alone.
pub proof fn lemma_swap_exchanges(m: Machine, below: Seq<i64>, second: i64, top: i64)
    requires
        m.on_opp(Opp::Swap),
        m.stack == below.push(second).push(top),
    ensures
        m.step().machine().stack == below.push(top).push(second),
        m.step().machine().ptr == m.ptr.wrapping_add(1),
{
    assert(m.stack.take(m.stack.len() - 2) == below);
}

/// `flip` exchanges the topmost value with the bottom one and leaves what is
/// between them, and the depth of the stack, alone.
pub proof fn lemma_flip_exchanges(m: Machine)
    requires
        m.on_opp(Opp::Flip),
        m.stack.len() >= 2,
    ensures
        m.step().machine().stack == m.stack.update(0, m.stack.last()).update(
            m.stack.len() - 1,
            m.stack[0],
        ),
{
}

/// `div` pops the divisor, then the dividend, and pushes the remainder, then
/// the quotient, which ends on top.
pub proof fn lemma_div_pushes_both(m: Machine, below: Seq<i64>, lhs: i64, rhs: i64)
    requires
        m.on_opp(Opp::Div),
        m.stack == below.push(lhs).push(rhs),
        rhs != 0,
    ensures
        m.step().machine().stack == below.push(remainder(lhs, rhs)).push(quotient(lhs, rhs)),
{
    assert(m.stack.take(m.stack.len() - 2) == below);
}

/// `div` with zero as the divisor is an error of its own, and leaves the
/// engine as it was.
pub proof fn lemma_div_by_zero(m: Machine)
    requires
        m.on_opp(Opp::Div),
        m.stack.len() >= 2,
        m.stack.last() == 0,
    ensures
        m.step() == Outcome::Stop(
            m,
            Err::<Option<i64>, RuntimeError>(RuntimeError::DivideByZero(m.ptr)),
        ),
{
}

/// An operation that finds too few values on the stack fails with
/// `UnderRead` at its own index, and leaves the engine as it was. `flip`
/// needs two values: one to pop and one at the bottom to exchange it with.
pub proof fn lemma_under_read(m: Machine, op: Opp)
    requires
        m.on_opp(op),
        m.stack.len() < match op {
            Opp::Add | Opp::Sub | Opp::Mul | Opp::Div | Opp::Swap | Opp::Flip => 2int,
            Opp::Top | Opp::Drop | Opp::Hop | Opp::Goto => 1int,
            Opp::Dump | Opp::Pos | Opp::Exit => 0int,
        },
    ensures
        m.step() == Outcome::Stop(
            m,
            Err::<Option<i64>, RuntimeError>(RuntimeError::UnderRead(m.ptr)),
        ),
{
}

/// Quotient and remainder of a truncating division make up the dividend;
/// the remainder is smaller than the divisor and has the sign of the
/// dividend.
pub proof fn lemma_trunc_div_rem(lhs: int, rhs: int)
    requires
        rhs != 0,
    ensures
        lhs == rhs * trunc_div(lhs, rhs) + trunc_rem(lhs, rhs),
        -rhs < trunc_rem(lhs, rhs) < rhs || rhs < trunc_rem(lhs, rhs) < -rhs,
        lhs >= 0 ==> trunc_rem(lhs, rhs) >= 0,
        lhs <= 0 ==> trunc_rem(lhs, rhs) <= 0,
{
    let a = if lhs >= 0 {
        lhs
    } else {
        -lhs
    };
    let b = if rhs > 0 {
        rhs
    } else {
        -rhs
    };
    lemma_fundamental_div_mod(a, b);
    lemma_mod_pos_bound(a, b);
    let q = a / b;
    let r = a % b;
    assert(a == b * q + r);
    assert(lhs == rhs * trunc_div(lhs, rhs) + trunc_rem(lhs, rhs)) by (nonlinear_arith)
        requires
            a == b * q + r,
            a == if lhs >= 0 {
                lhs
            } else {
                -lhs
            },
            b == if rhs > 0 {
                rhs
            } else {
                -rhs
            },
            rhs != 0,
            trunc_div(lhs, rhs) == if (lhs >= 0) == (rhs > 0) {
                q
            } else {
                -q
            },
            trunc_rem(lhs, rhs) == if lhs >= 0 {
                r
            } else {
                -r
            },
    ;
}

} // verus!
