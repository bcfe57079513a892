//! The cursor into the text and the diagnostics of a failed match.

use std::rc::Rc;
use vstd::prelude::*;
use vstd::string::StringSliceAdditionalSpecFns;
use vstd::utf8::is_char_boundary;
use crate::semantics::{farther, Diagnostic, Outcome};
use crate::value::Value;

verus! {

/// A position in the text: the text itself and a byte offset into it.
#[derive(Copy, Clone, Debug)]
pub struct Input<'a> {
    pub text: &'a str,
    pub offset: usize,
}

impl<'a> Input<'a> {
    /// The bytes of the text.
    pub open spec fn bytes(self) -> Seq<u8> {
        self.text.spec_bytes()
    }

    /// The offset lies inside the text and does not split a code point.
    pub open spec fn wf(self) -> bool {
        &&& self.offset <= self.bytes().len()
        &&& is_char_boundary(self.bytes(), self.offset as int)
    }

    /// The cursor at the start of `text`.
    pub fn start(text: &'a str) -> (input: Input<'a>)
        ensures
            input.text == text,
            input.offset == 0,
            input.wf(),
    {
        proof {
            vstd::utf8::encode_utf8_valid_utf8(text@);
            vstd::utf8::is_char_boundary_start_end_of_seq(text.spec_bytes());
        }
        Input { text, offset: 0 }
    }

    /// The cursor `amount` bytes further into the same text.
    pub fn offset_by(&self, amount: usize) -> (input: Input<'a>)
        requires
            self.offset + amount <= usize::MAX,
        ensures
            input.text == self.text,
            input.offset == self.offset + amount,
    {
        Input { text: self.text, offset: self.offset + amount }
    }
}

/// A failed match: what was expected, and the byte offset where it was
/// missing.
#[derive(Copy, Clone, Debug, PartialEq, Eq)]
pub struct Error<'input> {
    pub expected: &'input str,
    pub offset: usize,
}

impl<'input> View for Error<'input> {
    type V = Diagnostic;

    open spec fn view(&self) -> Diagnostic {
        Diagnostic { expected: self.expected@, offset: self.offset as int }
    }
}

/// What a symbol returns: the cursor after the match and the value, or the
/// failure.
pub type ParseResult<'input, O> = Result<(Input<'input>, O), Error<'input>>;

/// What a symbol of a grammar returns, with the offset after the match in
/// place of the cursor.
pub type Step<'input> = Result<(usize, Value), Error<'input>>;

/// The outcome that a step stands for.
pub open spec fn step_outcome(step: Step) -> Outcome {
    match step {
        Ok((end, value)) => Outcome::Match { end: end as int, tree: value@ },
        Err(error) => Outcome::Fail(error@),
    }
}

/// The outcome that a result stands for.
pub open spec fn result_outcome(result: ParseResult<Value>) -> Outcome {
    match result {
        Ok((rest, value)) => Outcome::Match { end: rest.offset as int, tree: value@ },
        Err(error) => Outcome::Fail(error@),
    }
}

impl<'input> Error<'input> {
    /// Of this failure and a newer one, the one farther into the text; the
    /// newer one where both lie at the same offset.
    pub fn farther(self, newer: Error<'input>) -> (kept: Error<'input>)
        ensures
            kept@ == farther(self@, newer@),
            kept == (if newer.offset >= self.offset {
                newer
            } else {
                self
            }),
    {
        if newer.offset >= self.offset {
            newer
        } else {
            self
        }
    }
}

/// What the memo cache holds of a rule at an offset: the offset after the
/// match and the value, shared with every result that was given out, or the
/// failure.
pub type Entry<'input> = Result<(usize, Rc<Value>), Error<'input>>;

/// The step gives out what the entry holds: the same offset with the very
/// value of the entry, under the mark of a rule, or the same failure.
pub open spec fn gives_out(step: Step, entry: Entry) -> bool {
    match step {
        Ok((end, value)) => entry matches Ok((kept_end, shared)) && kept_end == end
            && value == Value::Rule(shared),
        Err(error) => entry matches Err(kept) && kept == error,
    }
}

/// The outcome that an entry stands for.
pub open spec fn entry_outcome(entry: Entry) -> Outcome {
    match entry {
        Ok((end, shared)) => Outcome::Match { end: end as int, tree: shared.tree() },
        Err(error) => Outcome::Fail(error@),
    }
}

} // verus!
