//! What a program asks to be shown while it runs.

use crate::decimal::{int_text, nat_text, push_decimal, push_nat};
use vstd::prelude::*;
use vstd::string::StringExecFns;

verus! {

/// Something that the program asked to be shown.
#[derive(Debug, Clone, Copy, PartialEq, Eq, Structural)]
pub enum Diagnostic {
    /// One slot of the stack, as `dump` reports it: its index, counted from
    /// the bottom, and its value.
    Slot { index: usize, value: i64 },
    /// The topmost value of the stack, as `top` reports it.
    Top(i64),
}

impl Diagnostic {
    /// The line that shows the diagnostic.
    pub open spec fn text(self) -> Seq<char> {
        match self {
            Diagnostic::Slot { index, value } => nat_text(index as nat) + " | "@ + int_text(
                value as int,
            ),
            Diagnostic::Top(value) => "Top: "@ + int_text(value as int),
        }
    }

    /// Renders the diagnostic as a line of text, without a line ending.
    pub fn to_string(&self) -> (line: String)
        ensures
            line@ == self.text(),
    {
        match self {
            Diagnostic::Slot { index, value } => {
                let mut line = String::new();
                push_nat(&mut line, *index as u64);
                line.append(" | ");
                push_decimal(&mut line, *value);
                assert(line@ == self.text());
                line
            },
            Diagnostic::Top(value) => {
                let mut line = String::from_str("Top: ");
                push_decimal(&mut line, *value);
                line
            },
        }
    }
}

} // verus!
