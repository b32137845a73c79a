//! The engine as mathematics: its state, what one step does to it, and what
//! a run of steps comes to.
//!
//! All arithmetic on values and on the pointer is 64-bit two's complement:
//! a sum, difference or product that leaves the range wraps around.
//! Division truncates toward zero.

use crate::diagnostic::Diagnostic;
use crate::error::RuntimeError;
use crate::opp::Opp;
use crate::token::Token;
use vstd::prelude::*;

verus! {

/// The state of an engine.
#[verifier::ext_equal]
pub struct Machine {
    /// The evaluation stack; its top is the last element.
    pub stack: Seq<i64>,
    /// The largest stack that a step may leave behind, if any.
    pub stack_limit: Option<usize>,
    /// Every token handed to the engine so far.
    pub tokens: Seq<Token>,
    /// The index of the token to run next.
    pub ptr: i64,
    /// The number of steps that may be counted, if bounded.
    pub token_limit: Option<usize>,
    /// The number of steps counted so far.
    pub tokens_consumed: usize,
    /// Whether no more tokens will come.
    pub eof: bool,
    /// What the program has asked to be shown so far.
    pub diagnostics: Seq<Diagnostic>,
}

/// Where one step leaves the engine.
#[verifier::ext_equal]
pub enum Outcome {
    /// The run goes on from this state.
    Go(Machine),
    /// The run stops in this state: with a result, with nothing yet
    /// (`Ok(None)`: more tokens are awaited), or with an error.
    Stop(Machine, Result<Option<i64>, RuntimeError>),
}

/// The quotient of a division that truncates toward zero.
pub open spec fn trunc_div(lhs: int, rhs: int) -> int {
    if lhs >= 0 {
        if rhs > 0 {
            lhs / rhs
        } else {
            -(lhs / (-rhs))
        }
    } else {
        if rhs > 0 {
            -((-lhs) / rhs)
        } else {
            (-lhs) / (-rhs)
        }
    }
}

/// The remainder of a division that truncates toward zero; it has the sign
/// of the dividend.
pub open spec fn trunc_rem(lhs: int, rhs: int) -> int {
    if lhs >= 0 {
        if rhs > 0 {
            lhs % rhs
        } else {
            lhs % (-rhs)
        }
    } else {
        if rhs > 0 {
            -((-lhs) % rhs)
        } else {
            -((-lhs) % (-rhs))
        }
    }
}

/// The quotient as a 64-bit value. The one quotient out of range, that of
/// the least value by -1, wraps around to the least value.
pub open spec fn quotient(lhs: i64, rhs: i64) -> i64 {
    if lhs == i64::MIN && rhs == -1 {
        i64::MIN
    } else {
        trunc_div(lhs as int, rhs as int) as i64
    }
}

/// The remainder as a 64-bit value.
pub open spec fn remainder(lhs: i64, rhs: i64) -> i64 {
    trunc_rem(lhs as int, rhs as int) as i64
}

/// The report of `dump` on a stack: every slot, bottom first.
pub open spec fn dumped(stack: Seq<i64>) -> Seq<Diagnostic> {
    Seq::new(stack.len(), |i: int| Diagnostic::Slot { index: i as usize, value: stack[i] })
}

impl Machine {
    /// An engine before its first token.
    pub open spec fn fresh() -> Machine {
        Machine {
            stack: Seq::empty(),
            stack_limit: None,
            tokens: Seq::empty(),
            ptr: 0,
            token_limit: None,
            tokens_consumed: 0,
            eof: false,
            diagnostics: Seq::empty(),
        }
    }

    /// The same engine with another stack.
    pub open spec fn with_stack(self, stack: Seq<i64>) -> Machine {
        Machine { stack, ..self }
    }

    /// The same engine with more tokens at the end of its program.
    pub open spec fn fed(self, more: Seq<Token>) -> Machine {
        Machine { tokens: self.tokens + more, ..self }
    }

    /// The number of steps that can be counted: the token limit, or, where
    /// none is set, the largest count that the counter can hold.
    pub open spec fn budget(self) -> usize {
        match self.token_limit {
            Some(limit) => limit,
            None => usize::MAX,
        }
    }

    /// Whether the pointer stands on a token.
    pub open spec fn on_token(self) -> bool {
        0 <= self.ptr < self.tokens.len()
    }

    /// Whether the pointer stands on the token of this operation.
    pub open spec fn on_opp(self, op: Opp) -> bool {
        self.on_token() && self.tokens[self.ptr as int] == Token::Opp(op)
    }

    /// The end of a run that hands out a result: the top of the stack is
    /// popped and is the result; an empty stack has none to give.
    pub open spec fn finish(self) -> Outcome {
        if self.stack.len() == 0 {
            Outcome::Stop(self, Err(RuntimeError::NoOut))
        } else {
            Outcome::Stop(self.with_stack(self.stack.drop_last()), Ok(Some(self.stack.last())))
        }
    }

    /// The end of a step whose token has run: the pointer moves on by one,
    /// the step is counted, and the two limits are checked, the token limit
    /// first. A step is over the token limit when the budget was used up
    /// before it; the counter stays where it is once it is full.
    pub open spec fn settle(self) -> Outcome {
        let moved = Machine {
            ptr: self.ptr.wrapping_add(1),
            tokens_consumed: if self.tokens_consumed < usize::MAX {
                (self.tokens_consumed + 1) as usize
            } else {
                self.tokens_consumed
            },
            ..self
        };
        if self.tokens_consumed >= self.budget() {
            Outcome::Stop(moved, Err(RuntimeError::TokenLimitHit(moved.ptr)))
        } else if self.stack_limit is Some && self.stack_limit->0 < self.stack.len() {
            Outcome::Stop(moved, Err(RuntimeError::StackLimitHit(moved.ptr)))
        } else {
            Outcome::Go(moved)
        }
    }

    /// The outcome of a step that cannot run its token for want of a value
    /// on the stack: the engine is left as it was.
    pub open spec fn under_read(self) -> Outcome {
        Outcome::Stop(self, Err(RuntimeError::UnderRead(self.ptr)))
    }

    /// What an operation does to the engine.
    pub open spec fn apply(self, op: Opp) -> Outcome {
        let depth = self.stack.len() as int;
        let below = self.stack.take(depth - 2);
        let lower = self.stack[depth - 2];
        let upper = self.stack[depth - 1];
        match op {
            Opp::Add => if depth < 2 {
                self.under_read()
            } else {
                self.with_stack(below.push(lower.wrapping_add(upper))).settle()
            },
            Opp::Sub => if depth < 2 {
                self.under_read()
            } else {
                self.with_stack(below.push(lower.wrapping_sub(upper))).settle()
            },
            Opp::Mul => if depth < 2 {
                self.under_read()
            } else {
                self.with_stack(below.push(upper.wrapping_mul(lower))).settle()
            },
            Opp::Div => if depth < 2 {
                self.under_read()
            } else if upper == 0 {
                Outcome::Stop(self, Err(RuntimeError::DivideByZero(self.ptr)))
            } else {
                self.with_stack(
                    below.push(remainder(lower, upper)).push(quotient(lower, upper)),
                ).settle()
            },
            Opp::Dump => (Machine {
                diagnostics: self.diagnostics + dumped(self.stack),
                ..self
            }).settle(),
            Opp::Top => if depth < 1 {
                self.under_read()
            } else {
                (Machine {
                    diagnostics: self.diagnostics.push(Diagnostic::Top(upper)),
                    ..self
                }).settle()
            },
            Opp::Swap => if depth < 2 {
                self.under_read()
            } else {
                self.with_stack(below.push(upper).push(lower)).settle()
            },
            Opp::Drop => if depth < 1 {
                self.under_read()
            } else {
                self.with_stack(self.stack.drop_last()).settle()
            },
            Opp::Hop => if depth < 1 {
                self.under_read()
            } else {
                (Machine {
                    stack: self.stack.drop_last(),
                    ptr: self.ptr.wrapping_add(upper),
                    ..self
                }).settle()
            },
            Opp::Pos => self.with_stack(self.stack.push(self.ptr)).settle(),
            Opp::Exit => self.finish(),
            Opp::Goto => if depth < 1 {
                self.under_read()
            } else {
                (Machine {
                    stack: self.stack.drop_last(),
                    ptr: upper.wrapping_sub(1),
                    ..self
                }).settle()
            },
            Opp::Flip => if depth < 2 {
                self.under_read()
            } else {
                self.with_stack(
                    self.stack.drop_last().update(0, upper).push(self.stack[0]),
                ).settle()
            },
        }
    }

    /// One step. A pointer below zero is an error. A pointer at or past the
    /// end of the program stops the run: while more tokens may come, with
    /// nothing yet; once none will, with the result if the pointer stands
    /// right at the end, and with an error if it stands beyond. A pointer on
    /// a token runs that token.
    pub open spec fn step(self) -> Outcome {
        if self.ptr < 0 {
            Outcome::Stop(self, Err(RuntimeError::BeforeProgramRead))
        } else if self.ptr >= self.tokens.len() {
            if !self.eof {
                Outcome::Stop(self, Ok(None))
            } else if self.ptr == self.tokens.len() {
                self.finish()
            } else {
                Outcome::Stop(self, Err(RuntimeError::AfterProgramRead))
            }
        } else {
            match self.tokens[self.ptr as int] {
                Token::Value(v) => self.with_stack(self.stack.push(v)).settle(),
                Token::Opp(op) => self.apply(op),
            }
        }
    }

    /// Steps until one stops: the state the engine is left in, and how the
    /// run ended.
    pub open spec fn run(self) -> (Machine, Result<Option<i64>, RuntimeError>)
        decreases usize::MAX - self.tokens_consumed,
    {
        match self.step() {
            Outcome::Stop(end, result) => (end, result),
            Outcome::Go(next) => next.run(),
        }
    }

    /// A whole call of the engine: with no token at all and none to come it
    /// fails at once; otherwise it runs.
    pub open spec fn execute(self) -> (Machine, Result<Option<i64>, RuntimeError>) {
        if self.tokens.len() == 0 && self.eof {
            (self, Err(RuntimeError::NoTokens))
        } else {
            self.run()
        }
    }

    /// What holds between an engine and the same engine later: its program
    /// is the same, its limits and its end-of-input mark stand, its counter
    /// has not gone down, and what it had shown is still the beginning of
    /// what it has shown.
    pub open spec fn leads_to(self, later: Machine) -> bool {
        &&& later.tokens == self.tokens
        &&& later.token_limit == self.token_limit
        &&& later.stack_limit == self.stack_limit
        &&& later.eof == self.eof
        &&& later.tokens_consumed >= self.tokens_consumed
        &&& later.diagnostics.len() >= self.diagnostics.len()
        &&& later.diagnostics.take(self.diagnostics.len() as int) == self.diagnostics
    }
}

impl Outcome {
    /// The state that the step left.
    pub open spec fn machine(self) -> Machine {
        match self {
            Outcome::Go(next) => next,
            Outcome::Stop(end, _) => end,
        }
    }
}

/// An engine leads to itself.
pub proof fn lemma_leads_to_self(m: Machine)
    ensures
        m.leads_to(m),
{
    assert(m.diagnostics.take(m.diagnostics.len() as int) == m.diagnostics);
}

/// What leads to a state that leads on, leads there too.
pub proof fn lemma_leads_to_chains(first: Machine, second: Machine, third: Machine)
    requires
        first.leads_to(second),
        second.leads_to(third),
    ensures
        first.leads_to(third),
{
    let n = first.diagnostics.len() as int;
    assert(third.diagnostics.take(second.diagnostics.len() as int).take(n)
        == third.diagnostics.take(n));
}

/// A step never touches the program, the limits or the end-of-input mark,
/// never takes back what was shown, and never lowers the counter; a step
/// after which the run goes on has been counted.
pub proof fn lemma_step_leads(m: Machine)
    ensures
        m.leads_to(m.step().machine()),
        m.step() is Go ==> m.step().machine().tokens_consumed == m.tokens_consumed + 1,
{
    let after = m.step().machine().diagnostics;
    assert(after.take(m.diagnostics.len() as int) == m.diagnostics);
}

/// A run never touches the program, the limits or the end-of-input mark,
/// never takes back what was shown, and never lowers the counter.
pub proof fn lemma_run_leads(m: Machine)
    ensures
        m.leads_to(m.run().0),
    decreases usize::MAX - m.tokens_consumed,
{
    lemma_step_leads(m);
    match m.step() {
        Outcome::Stop(end, result) => {},
        Outcome::Go(next) => {
            lemma_run_leads(next);
            lemma_leads_to_chains(m, next, next.run().0);
        },
    }
}

/// Once no more tokens will come, a run ends with a result or an error:
/// it never stops to wait.
pub proof fn lemma_closed_run_ends(m: Machine)
    requires
        m.eof,
    ensures
        m.run().1 != Ok::<Option<i64>, RuntimeError>(None),
        m.execute().1 != Ok::<Option<i64>, RuntimeError>(None),
    decreases usize::MAX - m.tokens_consumed,
{
    lemma_step_leads(m);
    match m.step() {
        Outcome::Stop(end, result) => {},
        Outcome::Go(next) => {
            lemma_closed_run_ends(next);
        },
    }
}

} // verus!
