//! The error taxonomy of the library. Every error is fatal to the run that
//! raised it; positions are 1-based line and column numbers in the input.

use vstd::prelude::*;

verus! {

/// An error of the pipeline. `SyntaxError` is a grammar-level failure;
/// `UnknownCommand` a well-formed command whose identifier is not recognized;
/// `InvalidSyntax` a grammatically well-formed but semantically malformed
/// construct (a macro definition without exactly one `=`), carrying the
/// offending argument. `IoError` and `RenderError` are raised only by the
/// unverified rendering shell around the library.
#[derive(Debug)]
pub enum RustaTexError {
    SyntaxError { line: usize, column: usize },
    UnknownCommand { name: String, line: usize, column: usize },
    InvalidSyntax { argument: String, line: usize, column: usize },
    IoError(String),
    RenderError(String),
    Other(String),
}

/// Ghost mirror of `RustaTexError`.
pub ghost enum ErrSpec {
    Syntax { line: int, column: int },
    UnknownCommand { name: Seq<char>, line: int, column: int },
    InvalidSyntax { argument: Seq<char>, line: int, column: int },
    Io(Seq<char>),
    Render(Seq<char>),
    Other(Seq<char>),
}

impl View for RustaTexError {
    type V = ErrSpec;

    open spec fn view(&self) -> ErrSpec {
        match self {
            RustaTexError::SyntaxError { line, column } => ErrSpec::Syntax {
                line: *line as int,
                column: *column as int,
            },
            RustaTexError::UnknownCommand { name, line, column } => ErrSpec::UnknownCommand {
                name: name@,
                line: *line as int,
                column: *column as int,
            },
            RustaTexError::InvalidSyntax { argument, line, column } => ErrSpec::InvalidSyntax {
                argument: argument@,
                line: *line as int,
                column: *column as int,
            },
            RustaTexError::IoError(m) => ErrSpec::Io(m@),
            RustaTexError::RenderError(m) => ErrSpec::Render(m@),
            RustaTexError::Other(m) => ErrSpec::Other(m@),
        }
    }
}

} // verus!
