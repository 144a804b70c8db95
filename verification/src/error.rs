//! The one way in which generation fails.

use vstd::prelude::*;
use crate::decimal::{decimal, decimal_string};
use crate::templates::{
    unclosed_open_message, unclosed_open_message_text, unmatched_close_message,
    unmatched_close_message_text,
};

verus! {

/// Loop brackets that do not pair up. Generation stops at the first fault that
/// it meets and produces no text.
#[derive(Debug, Clone, Copy, PartialEq, Eq, Structural)]
pub enum MalformedBracketNesting {
    /// A loop end came when no loop was open. `token_index` is the index of
    /// the offending token in the encoded sequence.
    UnmatchedClose { token_index: usize },
    /// The program ended inside a loop. The fields name the innermost loop
    /// start that is still open: the index of its token, and which of the
    /// token's repetitions it is.
    UnclosedOpen { token_index: usize, repetition: usize },
}

impl MalformedBracketNesting {
    /// The text of the diagnostic.
    pub open spec fn message_text(self) -> Seq<char> {
        match self {
            MalformedBracketNesting::UnmatchedClose { token_index } => unmatched_close_message_text(
                decimal(token_index as nat),
            ),
            MalformedBracketNesting::UnclosedOpen {
                token_index,
                repetition,
            } => unclosed_open_message_text(
                decimal(token_index as nat),
                decimal(repetition as nat),
            ),
        }
    }

    /// The diagnostic, which names the offending token by its index.
    pub fn message(&self) -> (s: String)
        ensures
            s@ == self.message_text(),
    {
        match self {
            MalformedBracketNesting::UnmatchedClose { token_index } => {
                let index = decimal_string(*token_index);
                unmatched_close_message(index.as_str())
            },
            MalformedBracketNesting::UnclosedOpen { token_index, repetition } => {
                let index = decimal_string(*token_index);
                let which = decimal_string(*repetition);
                unclosed_open_message(index.as_str(), which.as_str())
            },
        }
    }
}

} // verus!
