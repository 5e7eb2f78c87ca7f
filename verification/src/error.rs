//! What can go wrong while compiling, and how it is reported.

use vstd::prelude::*;
use vstd::string::*;

verus! {

/// The stage that rejected the source.
#[derive(Debug, Clone, Copy, PartialEq, Eq, Structural)]
pub enum ErrorKind {
    Lexical,
    Syntax,
    Semantic,
}

/// The first fault found in a source. Compilation stops there.
#[derive(Debug, Clone, PartialEq, Eq)]
pub enum CompileError {
    /// A tag that is not in the keyword table.
    UnknownTag { token: String },
    /// The grammar asked for `expected` where the token `found` stands.
    Unexpected { expected: String, found: String },
    /// The tokens ran out in the middle of a construct.
    UnexpectedEnd,
    /// Tokens follow the end of the document.
    ExtraTokens,
    /// A variable name with whitespace inside; `name` is the token as written.
    InvalidVariableName { name: String },
    /// A variable used where no binding of it is in scope.
    UndefinedVariable { name: String },
}

/// The mathematical content of a [`CompileError`].
pub enum Fault {
    UnknownTag { token: Seq<char> },
    Unexpected { expected: Seq<char>, found: Seq<char> },
    UnexpectedEnd,
    ExtraTokens,
    InvalidVariableName { name: Seq<char> },
    UndefinedVariable { name: Seq<char> },
}

impl Fault {
    /// The stage that finds this fault.
    pub open spec fn kind(self) -> ErrorKind {
        match self {
            Fault::UnknownTag { .. } => ErrorKind::Lexical,
            Fault::UndefinedVariable { .. } => ErrorKind::Semantic,
            _ => ErrorKind::Syntax,
        }
    }

    /// The diagnostic, as one line of text.
    pub open spec fn message(self) -> Seq<char> {
        match self {
            Fault::UnknownTag { token } => "lexical error: '"@ + token
                + "' is not a recognized token"@,
            Fault::Unexpected { expected, found } => "syntax error: expected "@ + expected
                + " but found "@ + found + " instead"@,
            Fault::UnexpectedEnd => "syntax error: unexpected end of input"@,
            Fault::ExtraTokens => "syntax error: extra tokens found after #KTHXBYE"@,
            Fault::InvalidVariableName { name } => "syntax error: "@ + name
                + " is an invalid variable name"@,
            Fault::UndefinedVariable { name } => "static semantic error: variable "@ + name
                + " not found in scope"@,
        }
    }
}

impl View for CompileError {
    type V = Fault;

    open spec fn view(&self) -> Fault {
        match self {
            CompileError::UnknownTag { token } => Fault::UnknownTag { token: token@ },
            CompileError::Unexpected { expected, found } => Fault::Unexpected {
                expected: expected@,
                found: found@,
            },
            CompileError::UnexpectedEnd => Fault::UnexpectedEnd,
            CompileError::ExtraTokens => Fault::ExtraTokens,
            CompileError::InvalidVariableName { name } => Fault::InvalidVariableName {
                name: name@,
            },
            CompileError::UndefinedVariable { name } => Fault::UndefinedVariable { name: name@ },
        }
    }
}

impl CompileError {
    /// The stage that found the fault.
    pub fn kind(&self) -> (k: ErrorKind)
        ensures
            k == self@.kind(),
    {
        match self {
            CompileError::UnknownTag { .. } => ErrorKind::Lexical,
            CompileError::UndefinedVariable { .. } => ErrorKind::Semantic,
            _ => ErrorKind::Syntax,
        }
    }

    /// The diagnostic, as one line of text.
    pub fn message(&self) -> (m: String)
        ensures
            m@ == self@.message(),
    {
        match self {
            CompileError::UnknownTag { token } => {
                let mut m = String::from_str("lexical error: '");
                m.append(token.as_str());
                m.append("' is not a recognized token");
                m
            },
            CompileError::Unexpected { expected, found } => {
                let mut m = String::from_str("syntax error: expected ");
                m.append(expected.as_str());
                m.append(" but found ");
                m.append(found.as_str());
                m.append(" instead");
                m
            },
            CompileError::UnexpectedEnd => String::from_str(
                "syntax error: unexpected end of input",
            ),
            CompileError::ExtraTokens => String::from_str(
                "syntax error: extra tokens found after #KTHXBYE",
            ),
            CompileError::InvalidVariableName { name } => {
                let mut m = String::from_str("syntax error: ");
                m.append(name.as_str());
                m.append(" is an invalid variable name");
                m
            },
            CompileError::UndefinedVariable { name } => {
                let mut m = String::from_str("static semantic error: variable ");
                m.append(name.as_str());
                m.append(" not found in scope");
                m
            },
        }
    }
}

/// The error of an unmet expectation, ready to return.
pub fn unexpected(expected: &str, found: &String) -> (e: CompileError)
    ensures
        e@ == (Fault::Unexpected { expected: expected@, found: found@ }),
{
    CompileError::Unexpected { expected: String::from_str(expected), found: found.clone() }
}

} // verus!
