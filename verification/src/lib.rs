//! The front end of a compiler for a subset of R5RS Scheme.
//!
//! Source text is cut into tokens ([`lexer`]), the tokens of the lines of a source are
//! tagged with their place ([`reader`]), token streams are read into trees of data
//! ([`parser`]), and the trees are resolved into expressions of the core language
//! ([`ast`]), after the uses of `syntax-rules` macros in them have been expanded
//! ([`syntax_rules`]). What makes the expansion hygienic is stated and proved in
//! [`hygiene`].
//!
//! Every module states what its functions compute as specification functions over
//! mathematical models of its data, and every executable function is proved against them.

use vstd::prelude::*;

pub mod ast;
pub mod hygiene;
pub mod lexer;
pub mod parser;
pub mod reader;
pub mod syntax_rules;
pub mod text;

verus! {

/// Which rule of the core language or of macro expansion a form breaks.
#[derive(Debug, PartialEq, Eq, Clone, Copy, Structural)]
pub enum SyntaxErrorKind {
    /// A reserved keyword stands where a variable is bound or used.
    ReservedWord,
    /// A form that is no expression of the core language.
    NotAnExpression,
    /// `quote` without exactly one operand.
    MalformedQuote,
    /// `set!` without exactly a variable and an expression.
    MalformedAssignment,
    /// `if` without a test and one or two branches.
    MalformedConditional,
    /// `lambda` whose formals are no identifiers, or without a body.
    MalformedLambda,
    /// A body without a final expression, or with a definition behind an expression.
    MalformedBody,
    /// No rule of the macro matches its use.
    NoMatchingRule,
    /// A template repeats variables that were bound different numbers of times, or
    /// none that was bound by an ellipsis.
    EllipsisMismatch,
    /// An identifier that a template writes as it stands is bound, where the macro is
    /// used, by a scope inside the one that binds the macro.
    CapturedIdentifier,
    /// A datum that is to be a transformer is no well-formed `syntax-rules` form.
    MalformedSyntaxRules,
    /// `let-syntax` or `letrec-syntax` without a list of bindings of keywords to
    /// transformers.
    MalformedSyntaxBinding,
}

/// The errors of the front end.
#[derive(Debug)]
pub enum CompilerError {
    /// No token begins at the column of the line: the rest of the line from there on,
    /// the line, counted from 1, and the column, counted from 0 in bytes of UTF-8.
    LexError(String, usize, usize),
    /// A datum was asked for and the token stream had ended.
    TokenStreamEnded,
    /// The token at the line and column cannot begin a datum.
    UnexpectedToken(usize, usize),
    /// A list, a vector or a dotted pair is not closed.
    MissingCloseParen,
    /// A form breaks a rule of the core language or of macro expansion: the rule, and
    /// the name concerned, if any.
    SyntaxError(SyntaxErrorKind, String),
    /// The source could not be read: the message of the failure.
    IOError(String),
}

/// The mathematical model of a [`CompilerError`].
pub enum CompilerErrorView {
    LexError(Seq<char>, usize, usize),
    TokenStreamEnded,
    UnexpectedToken(usize, usize),
    MissingCloseParen,
    SyntaxError(SyntaxErrorKind, Seq<char>),
    IOError(Seq<char>),
}

impl View for CompilerError {
    type V = CompilerErrorView;

    open spec fn view(&self) -> CompilerErrorView {
        match self {
            CompilerError::LexError(rest, line, column) => CompilerErrorView::LexError(
                rest@,
                *line,
                *column,
            ),
            CompilerError::TokenStreamEnded => CompilerErrorView::TokenStreamEnded,
            CompilerError::UnexpectedToken(line, column) => CompilerErrorView::UnexpectedToken(
                *line,
                *column,
            ),
            CompilerError::MissingCloseParen => CompilerErrorView::MissingCloseParen,
            CompilerError::SyntaxError(kind, name) => CompilerErrorView::SyntaxError(*kind, name@),
            CompilerError::IOError(message) => CompilerErrorView::IOError(message@),
        }
    }
}

impl Clone for CompilerError {
    fn clone(&self) -> (r: Self)
        ensures
            r == *self,
    {
        match self {
            CompilerError::LexError(rest, line, column) => CompilerError::LexError(
                rest.clone(),
                *line,
                *column,
            ),
            CompilerError::TokenStreamEnded => CompilerError::TokenStreamEnded,
            CompilerError::UnexpectedToken(line, column) => CompilerError::UnexpectedToken(
                *line,
                *column,
            ),
            CompilerError::MissingCloseParen => CompilerError::MissingCloseParen,
            CompilerError::SyntaxError(kind, name) => CompilerError::SyntaxError(
                *kind,
                name.clone(),
            ),
            CompilerError::IOError(message) => CompilerError::IOError(message.clone()),
        }
    }
}

} // verus!
