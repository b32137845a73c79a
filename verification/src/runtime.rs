//! The engine: a stack, a pointer and a growing program, run step by step.

use crate::diagnostic::Diagnostic;
use crate::error::RuntimeError;
use crate::machine::{
    dumped, lemma_closed_run_ends, lemma_leads_to_chains, lemma_leads_to_self, lemma_step_leads,
    quotient, remainder, Machine, Outcome,
};
use crate::opp::Opp;
use crate::token::Token;
use vstd::arithmetic::div_mod::{
    lemma_div_nonincreasing, lemma_div_pos_is_pos, lemma_mod_pos_bound, lemma_small_mod,
};
use vstd::pervasive::unreached;
use vstd::prelude::*;

verus! {

/// A Slug runtime.
///
/// What `dump` and `top` report is appended to `diagnostics`; the caller
/// shows it, and may empty the list between calls.
pub struct Slug {
    pub stack: Vec<i64>,
    pub stack_limit: Option<usize>,
    pub tokens: Vec<Token>,
    /// Pointer to the position in execution.
    pub ptr: i64,
    pub token_limit: Option<usize>,
    pub tokens_consumed: usize,
    /// Whether no more input is to be considered.
    pub eof: bool,
    pub diagnostics: Vec<Diagnostic>,
}

impl View for Slug {
    type V = Machine;

    open spec fn view(&self) -> Machine {
        Machine {
            stack: self.stack@,
            stack_limit: self.stack_limit,
            tokens: self.tokens@,
            ptr: self.ptr,
            token_limit: self.token_limit,
            tokens_consumed: self.tokens_consumed,
            eof: self.eof,
            diagnostics: self.diagnostics@,
        }
    }
}

/// What one step of the engine came to.
#[derive(Debug, Clone, Copy, PartialEq, Eq)]
pub enum Step {
    /// The run goes on.
    Go,
    /// The run stops: with a result, with nothing yet (`Ok(None)`: more
    /// tokens are awaited), or with an error.
    Stop(Result<Option<i64>, RuntimeError>),
}

impl Step {
    /// Whether this is what is told of the given outcome.
    pub open spec fn tells(self, outcome: Outcome) -> bool {
        match outcome {
            Outcome::Go(_) => self == Step::Go,
            Outcome::Stop(_, result) => self == Step::Stop(result),
        }
    }
}

/// Takes the two topmost values off a stack that holds as many: the lower
/// one first, the top second.
fn take_two(stack: &mut Vec<i64>) -> (pair: Option<(i64, i64)>)
    ensures
        match pair {
            Some((lower, upper)) => {
                &&& old(stack)@.len() >= 2
                &&& lower == old(stack)@[old(stack)@.len() - 2]
                &&& upper == old(stack)@[old(stack)@.len() - 1]
                &&& final(stack)@ == old(stack)@.take(old(stack)@.len() - 2)
            },
            None => old(stack)@.len() < 2 && final(stack)@ == old(stack)@,
        },
{
    if stack.len() < 2 {
        return None;
    }
    let upper = stack.pop().unwrap();
    let lower = stack.pop().unwrap();
    Some((lower, upper))
}

/// Remainder and quotient of a division that truncates toward zero.
fn divide(lhs: i64, rhs: i64) -> (parts: (i64, i64))
    requires
        rhs != 0,
    ensures
        parts.0 == remainder(lhs, rhs),
        parts.1 == quotient(lhs, rhs),
{
    if lhs == i64::MIN && rhs == -1 {
        return (0, i64::MIN);
    }
    proof {
        let a: int = if lhs >= 0 {
            lhs as int
        } else {
            -(lhs as int)
        };
        let b: int = if rhs > 0 {
            rhs as int
        } else {
            -(rhs as int)
        };
        lemma_div_pos_is_pos(a, b);
        lemma_div_nonincreasing(a, b);
        lemma_mod_pos_bound(a, b);
        if a == 0 {
            lemma_small_mod(0, b as nat);
        }
        if lhs == i64::MIN && rhs < 0 {
            assert(a / b < a) by (nonlinear_arith)
                requires
                    a > 0,
                    b >= 2,
            ;
        }
    }
    let rem = lhs.checked_rem(rhs).unwrap();
    let quot = lhs.checked_div(rhs).unwrap();
    (rem, quot)
}

/// Appends the report of `dump` on a stack.
fn dump(stack: &Vec<i64>, diagnostics: &mut Vec<Diagnostic>)
    ensures
        final(diagnostics)@ == old(diagnostics)@ + dumped(stack@),
{
    let mut index: usize = 0;
    while index < stack.len()
        invariant
            index <= stack@.len(),
            diagnostics@ == old(diagnostics)@ + dumped(stack@.take(index as int)),
        decreases stack@.len() - index,
    {
        diagnostics.push(Diagnostic::Slot { index, value: stack[index] });
        assert(dumped(stack@.take(index + 1)) == dumped(stack@.take(index as int)).push(
            Diagnostic::Slot { index, value: stack@[index as int] },
        ));
        index = index + 1;
    }
    assert(stack@.take(index as int) == stack@);
}

impl Slug {
    /// An engine with no token, an empty stack, no limits, and more input
    /// to come.
    #[must_use]
    pub fn new() -> (slug: Self)
        ensures
            slug@ == Machine::fresh(),
    {
        Self {
            stack: Vec::new(),
            tokens: Vec::new(),
            ptr: 0,
            stack_limit: None,
            token_limit: None,
            tokens_consumed: 0,
            eof: false,
            diagnostics: Vec::new(),
        }
    }

    /// Appends a series of tokens to the program, then runs.
    pub fn execute_tokens(&mut self, toks: Vec<Token>) -> (result: Result<Option<i64>, RuntimeError>)
        ensures
            final(self)@ == old(self)@.fed(toks@).execute().0,
            result == old(self)@.fed(toks@).execute().1,
            old(self)@.fed(toks@).leads_to(final(self)@),
    {
        let mut toks = toks;
        self.tokens.append(&mut toks);
        self.execute()
    }

    /// Appends one token to the program, then runs.
    pub fn execute_token(&mut self, token: Token) -> (result: Result<Option<i64>, RuntimeError>)
        ensures
            final(self)@ == old(self)@.fed(seq![token]).execute().0,
            result == old(self)@.fed(seq![token]).execute().1,
            old(self)@.fed(seq![token]).leads_to(final(self)@),
    {
        self.tokens.push(token);
        assert(self@ == old(self)@.fed(seq![token]));
        self.execute()
    }

    /// Runs from the pointer until the run stops. `Ok(Some(v))` is the
    /// result of the program; `Ok(None)` says that the engine awaits more
    /// tokens, and can be called again once it has them or once `eof` is
    /// set. An error ends the run for good.
    ///
    /// The step counter is a `usize`: where no token limit is set, a run
    /// that has counted `usize::MAX` steps fails its next step with
    /// `TokenLimitHit`, as it would under a limit of `usize::MAX`.
    pub fn execute(&mut self) -> (result: Result<Option<i64>, RuntimeError>)
        ensures
            final(self)@ == old(self)@.execute().0,
            result == old(self)@.execute().1,
            old(self)@.leads_to(final(self)@),
            old(self)@.tokens.len() == 0 && old(self)@.eof ==> result == Err::<
                Option<i64>,
                RuntimeError,
            >(RuntimeError::NoTokens),
            old(self)@.eof ==> result != Ok::<Option<i64>, RuntimeError>(None),
    {
        proof {
            if self.eof {
                lemma_closed_run_ends(self@);
            }
            lemma_leads_to_self(self@);
        }
        if self.tokens.len() == 0 && self.eof {
            return Err(RuntimeError::NoTokens);
        }
        loop
            invariant
                self@.run() == old(self)@.run(),
                old(self)@.execute() == old(self)@.run(),
                old(self)@.leads_to(self@),
                old(self)@.eof ==> old(self)@.run().1 != Ok::<Option<i64>, RuntimeError>(None),
            decreases usize::MAX - self.tokens_consumed,
        {
            let ghost before = self@;
            proof {
                lemma_step_leads(before);
                lemma_leads_to_chains(old(self)@, before, before.step().machine());
            }
            match self.step() {
                Step::Go => {},
                Step::Stop(result) => {
                    return result;
                },
            }
        }
    }

    /// Ends the run: pops the topmost value and hands it out. Fails with
    /// `NoOut`, and changes nothing, if the stack is empty.
    pub fn exit(&mut self) -> (result: Result<i64, RuntimeError>)
        ensures
            old(self)@.stack.len() == 0 ==> result == Err::<i64, RuntimeError>(RuntimeError::NoOut)
                && final(self)@ == old(self)@,
            old(self)@.stack.len() > 0 ==> result == Ok::<i64, RuntimeError>(
                old(self)@.stack.last(),
            ) && final(self)@ == old(self)@.with_stack(old(self)@.stack.drop_last()),
    {
        match self.stack.pop() {
            Some(value) => Ok(value),
            None => Err(RuntimeError::NoOut),
        }
    }

    /// Ends a step whose token has run: moves the pointer on, counts the
    /// step and checks the limits.
    fn settle(&mut self) -> (taken: Step)
        ensures
            final(self)@ == old(self)@.settle().machine(),
            taken.tells(old(self)@.settle()),
    {
        let budget = match self.token_limit {
            Some(limit) => limit,
            None => usize::MAX,
        };
        let spent = self.tokens_consumed;
        self.ptr = self.ptr.wrapping_add(1);
        if spent < usize::MAX {
            self.tokens_consumed = spent + 1;
        }
        if spent >= budget {
            return Step::Stop(Err(RuntimeError::TokenLimitHit(self.ptr)));
        }
        if let Some(limit) = self.stack_limit {
            if limit < self.stack.len() {
                return Step::Stop(Err(RuntimeError::StackLimitHit(self.ptr)));
            }
        }
        Step::Go
    }

    /// Hands out the result of the run, as a step that stops.
    fn finish(&mut self) -> (taken: Step)
        ensures
            final(self)@ == old(self)@.finish().machine(),
            taken.tells(old(self)@.finish()),
    {
        match self.exit() {
            Ok(value) => Step::Stop(Ok(Some(value))),
            Err(e) => Step::Stop(Err(e)),
        }
    }

    /// Runs one operation.
    fn apply(&mut self, op: Opp) -> (taken: Step)
        ensures
            final(self)@ == old(self)@.apply(op).machine(),
            taken.tells(old(self)@.apply(op)),
    {
        let under = Step::Stop(Err(RuntimeError::UnderRead(self.ptr)));
        match op {
            Opp::Add => {
                match take_two(&mut self.stack) {
                    Some((lhs, rhs)) => self.stack.push(lhs.wrapping_add(rhs)),
                    None => {
                        return under;
                    },
                }
            },
            Opp::Sub => {
                match take_two(&mut self.stack) {
                    Some((lhs, rhs)) => self.stack.push(lhs.wrapping_sub(rhs)),
                    None => {
                        return under;
                    },
                }
            },
            Opp::Mul => {
                match take_two(&mut self.stack) {
                    Some((a2, a1)) => self.stack.push(a1.wrapping_mul(a2)),
                    None => {
                        return under;
                    },
                }
            },
            Opp::Div => {
                let depth = self.stack.len();
                if depth < 2 {
                    return under;
                }
                if self.stack[depth - 1] == 0 {
                    return Step::Stop(Err(RuntimeError::DivideByZero(self.ptr)));
                }
                match take_two(&mut self.stack) {
                    Some((lhs, rhs)) => {
                        let (rem, quot) = divide(lhs, rhs);
                        self.stack.push(rem);
                        self.stack.push(quot);
                    },
                    None => {
                        return under;
                    },
                }
            },
            Opp::Dump => {
                dump(&self.stack, &mut self.diagnostics);
            },
            Opp::Top => {
                let depth = self.stack.len();
                if depth < 1 {
                    return under;
                }
                self.diagnostics.push(Diagnostic::Top(self.stack[depth - 1]));
            },
            Opp::Swap => {
                match take_two(&mut self.stack) {
                    Some((a2, a1)) => {
                        self.stack.push(a1);
                        self.stack.push(a2);
                    },
                    None => {
                        return under;
                    },
                }
            },
            Opp::Drop => {
                match self.stack.pop() {
                    Some(_) => {},
                    None => {
                        return under;
                    },
                }
            },
            Opp::Hop => {
                match self.stack.pop() {
                    Some(d) => {
                        self.ptr = self.ptr.wrapping_add(d);
                    },
                    None => {
                        return under;
                    },
                }
            },
            Opp::Pos => {
                self.stack.push(self.ptr);
            },
            Opp::Exit => {
                return self.finish();
            },
            Opp::Goto => {
                match self.stack.pop() {
                    Some(v) => {
                        self.ptr = v.wrapping_sub(1);
                    },
                    None => {
                        return under;
                    },
                }
            },
            Opp::Flip => {
                if self.stack.len() < 2 {
                    return under;
                }
                let t = self.stack.pop().unwrap();
                let b = self.stack[0];
                self.stack.set(0, t);
                self.stack.push(b);
            },
        }
        self.settle()
    }

    /// Takes one step: checks the pointer, then runs the token under it, if
    /// one is there. See [`Machine::step`] for every case.
    pub fn step(&mut self) -> (taken: Step)
        ensures
            final(self)@ == old(self)@.step().machine(),
            taken.tells(old(self)@.step()),
            old(self)@.leads_to(final(self)@),
    {
        proof {
            lemma_step_leads(self@);
        }
        if self.ptr < 0 {
            return Step::Stop(Err(RuntimeError::BeforeProgramRead));
        }
        let at = self.ptr as u64;
        let len = self.tokens.len() as u64;
        if at >= len {
            if !self.eof {
                return Step::Stop(Ok(None));
            }
            if at == len {
                return self.finish();
            }
            return Step::Stop(Err(RuntimeError::AfterProgramRead));
        }
        match self.tokens[at as usize] {
            Token::Value(v) => {
                self.stack.push(v);
                self.settle()
            },
            Token::Opp(op) => self.apply(op),
        }
    }
}

impl Default for Slug {
    fn default() -> (slug: Self)
        ensures
            slug@ == Machine::fresh(),
    {
        Self::new()
    }
}

/// Runs a whole program: an engine that starts with these tokens and
/// limits, and knows that no more tokens will come. What the program asks
/// to be shown is appended to `diagnostics`.
pub fn run(
    tokens: Vec<Token>,
    token_limit: Option<usize>,
    stack_limit: Option<usize>,
    diagnostics: &mut Vec<Diagnostic>,
) -> (result: Result<i64, RuntimeError>)
    ensures
        ({
            let start = Machine {
                tokens: tokens@,
                token_limit,
                stack_limit,
                eof: true,
                ..Machine::fresh()
            };
            &&& final(diagnostics)@ == old(diagnostics)@ + start.execute().0.diagnostics
            &&& start.execute().1 == match result {
                Ok(value) => Ok::<Option<i64>, RuntimeError>(Some(value)),
                Err(e) => Err(e),
            }
        }),
{
    let mut slug = Slug {
        stack: Vec::new(),
        stack_limit,
        tokens,
        ptr: 0,
        token_limit,
        tokens_consumed: 0,
        eof: true,
        diagnostics: Vec::new(),
    };
    let result = slug.execute();
    diagnostics.append(&mut slug.diagnostics);
    match result {
        Ok(Some(value)) => Ok(value),
        Ok(None) => unreached(),
        Err(e) => Err(e),
    }
}

} // verus!
