//! The errors of the tokenizer and of the engine.

use crate::decimal::{int_text, push_decimal};
use vstd::prelude::*;
use vstd::std_specs::convert::FromSpecImpl;
use vstd::string::StringExecFns;

verus! {

/// The I/O error of the standard library, carried through unread.
#[verifier::external_type_specification]
#[verifier::external_body]
pub struct ExIoError(std::io::Error);

/// A word of the program text that is neither an integer nor a mnemonic.
#[derive(Debug, Clone, Copy, PartialEq, Eq, Structural)]
pub struct ParseTextError {
    /// The position of the word among the words of the text, from zero.
    pub idx: usize,
}

/// Why a run of the engine was given up. Token positions count from zero.
#[derive(Debug, Clone, Copy, PartialEq, Eq, Structural)]
pub enum RuntimeError {
    /// The token at this position needed a value that the stack did not hold.
    UnderRead(i64),
    /// The pointer went below zero.
    BeforeProgramRead,
    /// The pointer went past the last token, and no more tokens will come.
    AfterProgramRead,
    /// More tokens were run than the limit allows; the pointer stood here.
    TokenLimitHit(i64),
    /// The stack grew beyond its limit; the pointer stood here.
    StackLimitHit(i64),
    /// The run ended with no value on the stack to hand out.
    NoOut,
    /// There is no token to run, and none will come.
    NoTokens,
    /// The `div` at this position was given zero as its divisor.
    DivideByZero(i64),
}

impl RuntimeError {
    /// The wording of the error for a reader.
    pub open spec fn message(self) -> Seq<char> {
        match self {
            RuntimeError::UnderRead(at) => {
                "Attempted to read from the stack when it is empty, occured at token "@ + int_text(
                    at as int,
                )
            },
            RuntimeError::BeforeProgramRead => {
                "Moved the execution pointer before the start of the program"@
            },
            RuntimeError::AfterProgramRead => {
                "Moved the execution pointer past the end of the program"@
            },
            RuntimeError::TokenLimitHit(at) => {
                "Exceeded the given token limit, occured at token "@ + int_text(at as int)
            },
            RuntimeError::StackLimitHit(at) => {
                "Exceeded the given stack size limit, occured at token "@ + int_text(at as int)
            },
            RuntimeError::NoOut => "Exited without a value on the stack to return"@,
            RuntimeError::NoTokens => "There are no tokens in the input"@,
            RuntimeError::DivideByZero(at) => {
                "Attempted to divide by zero, occured at token "@ + int_text(at as int)
            },
        }
    }

    /// Renders the error for a reader.
    pub fn to_string(&self) -> (text: String)
        ensures
            text@ == self.message(),
    {
        match self {
            RuntimeError::UnderRead(at) => {
                let mut text = String::from_str(
                    "Attempted to read from the stack when it is empty, occured at token ",
                );
                push_decimal(&mut text, *at);
                text
            },
            RuntimeError::BeforeProgramRead => {
                String::from_str("Moved the execution pointer before the start of the program")
            },
            RuntimeError::AfterProgramRead => {
                String::from_str("Moved the execution pointer past the end of the program")
            },
            RuntimeError::TokenLimitHit(at) => {
                let mut text = String::from_str("Exceeded the given token limit, occured at token ");
                push_decimal(&mut text, *at);
                text
            },
            RuntimeError::StackLimitHit(at) => {
                let mut text = String::from_str(
                    "Exceeded the given stack size limit, occured at token ",
                );
                push_decimal(&mut text, *at);
                text
            },
            RuntimeError::NoOut => String::from_str("Exited without a value on the stack to return"),
            RuntimeError::NoTokens => String::from_str("There are no tokens in the input"),
            RuntimeError::DivideByZero(at) => {
                let mut text = String::from_str("Attempted to divide by zero, occured at token ");
                push_decimal(&mut text, *at);
                text
            },
        }
    }
}

/// Anything that can go wrong between reading a program and its result.
#[derive(Debug)]
pub enum ExecutionError {
    /// The program could not be read.
    IoError(std::io::Error),
    /// The program text holds a word that is no token.
    ParseTextError(ParseTextError),
    /// The engine gave up the run.
    RuntimeError(RuntimeError),
}

impl From<ParseTextError> for ExecutionError {
    fn from(v: ParseTextError) -> (e: Self) {
        ExecutionError::ParseTextError(v)
    }
}

impl FromSpecImpl<ParseTextError> for ExecutionError {
    open spec fn obeys_from_spec() -> bool {
        true
    }

    open spec fn from_spec(v: ParseTextError) -> Self {
        ExecutionError::ParseTextError(v)
    }
}

impl From<RuntimeError> for ExecutionError {
    fn from(v: RuntimeError) -> (e: Self) {
        ExecutionError::RuntimeError(v)
    }
}

impl FromSpecImpl<RuntimeError> for ExecutionError {
    open spec fn obeys_from_spec() -> bool {
        true
    }

    open spec fn from_spec(v: RuntimeError) -> Self {
        ExecutionError::RuntimeError(v)
    }
}

impl From<std::io::Error> for ExecutionError {
    fn from(v: std::io::Error) -> (e: Self) {
        ExecutionError::IoError(v)
    }
}

impl FromSpecImpl<std::io::Error> for ExecutionError {
    open spec fn obeys_from_spec() -> bool {
        true
    }

    open spec fn from_spec(v: std::io::Error) -> Self {
        ExecutionError::IoError(v)
    }
}

} // verus!
