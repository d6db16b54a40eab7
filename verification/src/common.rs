//! The error value shared by every stage of the pipeline.

use vstd::prelude::*;

verus! {

/// What can go wrong while reading, resolving, checking or running a program.
///
/// `pos` is a column and `line` a line, both counted from 1. Conditions that
/// belong to no single place in the source carry 0 in both.
#[derive(Debug, PartialEq, Eq)]
pub enum Error {
    /// The source text holds a character or a word that is no token.
    UnknownToken { word: String, pos: usize, line: usize },
    /// The tokens do not form a program; `comment` says why.
    Parse { word: String, pos: usize, line: usize, comment: String },
    /// An instruction needed a value and the value stack was empty.
    StackEmpty { pos: usize, line: usize },
    /// The static depth analysis found an instruction short of operands.
    StaticCheck { word: String, pos: usize, line: usize, comment: String },
    /// A function that execution needs was never declared.
    FunctionNotFound { word: String, pos: usize, line: usize },
    /// A division whose divisor, the top of the stack, was zero.
    DivisionByZero { pos: usize, line: usize },
    /// The step budget ran out before the program came to an end.
    StepLimit { pos: usize, line: usize },
}

/// The mathematical content of an [`Error`]: strings become sequences of
/// characters.
pub enum ErrorView {
    UnknownToken { word: Seq<char>, pos: usize, line: usize },
    Parse { word: Seq<char>, pos: usize, line: usize, comment: Seq<char> },
    StackEmpty { pos: usize, line: usize },
    StaticCheck { word: Seq<char>, pos: usize, line: usize, comment: Seq<char> },
    FunctionNotFound { word: Seq<char>, pos: usize, line: usize },
    DivisionByZero { pos: usize, line: usize },
    StepLimit { pos: usize, line: usize },
}

impl View for Error {
    type V = ErrorView;

    open spec fn view(&self) -> ErrorView {
        match *self {
            Error::UnknownToken { word, pos, line } => ErrorView::UnknownToken {
                word: word@,
                pos,
                line,
            },
            Error::Parse { word, pos, line, comment } => ErrorView::Parse {
                word: word@,
                pos,
                line,
                comment: comment@,
            },
            Error::StackEmpty { pos, line } => ErrorView::StackEmpty { pos, line },
            Error::StaticCheck { word, pos, line, comment } => ErrorView::StaticCheck {
                word: word@,
                pos,
                line,
                comment: comment@,
            },
            Error::FunctionNotFound { word, pos, line } => ErrorView::FunctionNotFound {
                word: word@,
                pos,
                line,
            },
            Error::DivisionByZero { pos, line } => ErrorView::DivisionByZero { pos, line },
            Error::StepLimit { pos, line } => ErrorView::StepLimit { pos, line },
        }
    }
}

/// A result with the mathematical content of its error.
pub open spec fn result_view<T>(r: Result<T, Error>) -> Result<T, ErrorView> {
    match r {
        Ok(value) => Ok(value),
        Err(e) => Err(e@),
    }
}

} // verus!
