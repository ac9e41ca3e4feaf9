//! Why a program failed to compile.

use vstd::prelude::*;
use vstd::string::StringExecFns;

verus! {

/// The mathematical model of a compilation failure.
pub ghost enum CompileFailure {
    /// A line that is none of the keywords; the line is kept as written.
    UnknownCommand(Seq<char>),
    /// A block terminator where no block of its kind is open.
    Mismatched,
    /// The text ended inside a loop or a conditional.
    Unterminated,
}

impl CompileFailure {
    /// The text shown to the user for this failure.
    pub open spec fn message(self) -> Seq<char> {
        match self {
            CompileFailure::UnknownCommand(line) => "Нет такой комманды: "@ + line,
            CompileFailure::Mismatched => "Что то не так с циклами и ифами"@,
            CompileFailure::Unterminated => "Похоже есть if или цикл не закрытый"@,
        }
    }
}

/// A compilation failure. Compilation is all or nothing: with any of these
/// no program is produced.
#[derive(Debug)]
pub enum CompileError {
    /// A line that is none of the keywords; the line is kept as written.
    UnknownCommand(String),
    /// A block terminator where no block of its kind is open.
    Mismatched,
    /// The text ended inside a loop or a conditional.
    Unterminated,
}

impl View for CompileError {
    type V = CompileFailure;

    open spec fn view(&self) -> CompileFailure {
        match self {
            CompileError::UnknownCommand(line) => CompileFailure::UnknownCommand(line@),
            CompileError::Mismatched => CompileFailure::Mismatched,
            CompileError::Unterminated => CompileFailure::Unterminated,
        }
    }
}

impl CompileError {
    /// The text shown to the user for this failure. For an unknown command
    /// it ends with the offending line.
    pub fn message(&self) -> (text: String)
        ensures
            text@ == self@.message(),
    {
        match self {
            CompileError::UnknownCommand(line) => {
                String::from_str("Нет такой комманды: ").concat(line.as_str())
            },
            CompileError::Mismatched => String::from_str("Что то не так с циклами и ифами"),
            CompileError::Unterminated => String::from_str("Похоже есть if или цикл не закрытый"),
        }
    }
}

} // verus!
