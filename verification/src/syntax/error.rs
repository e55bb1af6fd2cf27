//! What is wrong with a source text, and how that is reported.
use vstd::prelude::*;
use codespan_reporting::diagnostic::Diagnostic;
use crate::syntax::token::{LexError, Span, Token};

verus! {

/// Why a text is no expression.
#[derive(Debug, PartialEq)]
pub enum ParseErrorCause {
    EndOfInput,
    UnexpectedToken,
    Expected(Token),
    ExpectedOneOf(Vec<Token>),
    ExpectedIdentifier,
    // Lexer
    TooMuchDots,
    InvalidNumber,
}

/// An error and the place in the text where it was met.
#[derive(Debug)]
pub struct ParseError {
    pub span: Span,
    pub cause: ParseErrorCause,
}

/// What parsing gives: the thing parsed, or why there is none.
pub type ParseResult<T> = Result<T, ParseErrorCause>;

/// The error that a piece of the text which is no token stands for.
pub open spec fn lex_error_cause(error: LexError) -> ParseErrorCause {
    match error {
        LexError::UnknownCharacter => ParseErrorCause::UnexpectedToken,
        LexError::TooMuchDots => ParseErrorCause::TooMuchDots,
        LexError::InvalidNumber => ParseErrorCause::InvalidNumber,
        LexError::UnterminatedText => ParseErrorCause::EndOfInput,
    }
}

/// The diagnostic type of the crate `codespan_reporting`.
#[verifier::external_type_specification]
#[verifier::external_body]
#[verifier::reject_recursive_types(FileId)]
pub struct ExDiagnostic<FileId>(Diagnostic<FileId>);

/// The main message of a diagnostic.
pub uninterp spec fn diagnostic_message(diagnostic: Diagnostic<()>) -> Seq<char>;

/// Whether a diagnostic has the severity of an error.
pub uninterp spec fn diagnostic_is_error(diagnostic: Diagnostic<()>) -> bool;

/// Whether a diagnostic holds nothing besides its severity and its
/// message: no code, no label and no note.
pub uninterp spec fn diagnostic_is_bare(diagnostic: Diagnostic<()>) -> bool;

/// Makes a diagnostic with `Diagnostic::error`, which gives one with the
/// severity of an error, an empty message, no code, no label and no note.
#[verifier::external_body]
fn error_diagnostic() -> (diagnostic: Diagnostic<()>)
    ensures
        diagnostic_is_error(diagnostic),
        diagnostic_is_bare(diagnostic),
        diagnostic_message(diagnostic) == Seq::<char>::empty(),
{
    Diagnostic::error()
}

/// Gives a diagnostic a message with `Diagnostic::with_message`, which
/// replaces the message by the given text and leaves the rest of the
/// diagnostic as it is.
#[verifier::external_body]
fn diagnostic_with_message(diagnostic: Diagnostic<()>, message: &str) -> (changed: Diagnostic<()>)
    ensures
        diagnostic_message(changed) == message@,
        diagnostic_is_error(changed) == diagnostic_is_error(diagnostic),
        diagnostic_is_bare(changed) == diagnostic_is_bare(diagnostic),
{
    diagnostic.with_message(message)
}

impl ParseErrorCause {
    /// The error that a piece of the text which is no token stands for.
    pub fn from_lex_error(error: LexError) -> (cause: Self)
        ensures
            cause == lex_error_cause(error),
    {
        match error {
            LexError::UnknownCharacter => ParseErrorCause::UnexpectedToken,
            LexError::TooMuchDots => ParseErrorCause::TooMuchDots,
            LexError::InvalidNumber => ParseErrorCause::InvalidNumber,
            LexError::UnterminatedText => ParseErrorCause::EndOfInput,
        }
    }

    /// The message that a report of the error carries, if it carries one.
    pub open spec fn message_text(self) -> Option<Seq<char>> {
        match self {
            ParseErrorCause::EndOfInput => Some("unexpected end of input"@),
            ParseErrorCause::UnexpectedToken => Some("unexpected token"@),
            _ => None,
        }
    }

    /// The message that a report of the error carries, if it carries one.
    pub fn message(&self) -> (message: Option<&'static str>)
        ensures
            match self.message_text() {
                Some(text) => message matches Some(m) && m@ == text,
                None => message is None,
            },
    {
        match self {
            ParseErrorCause::EndOfInput => Some("unexpected end of input"),
            ParseErrorCause::UnexpectedToken => Some("unexpected token"),
            _ => None,
        }
    }
}

impl ParseError {
    /// The text that the report of the error has as its message: that of
    /// the cause, or nothing where the cause has none.
    pub open spec fn report_text(self) -> Seq<char> {
        match self.cause.message_text() {
            Some(text) => text,
            None => Seq::empty(),
        }
    }

    /// The error as a diagnostic: one with the severity of an error and
    /// the message of the cause, if it has one, and with nothing else.
    pub fn report(&self) -> (diagnostic: Diagnostic<()>)
        ensures
            diagnostic_is_error(diagnostic),
            diagnostic_is_bare(diagnostic),
            diagnostic_message(diagnostic) == self.report_text(),
    {
        match self.cause.message() {
            Some(message) => diagnostic_with_message(error_diagnostic(), message),
            None => error_diagnostic(),
        }
    }
}

} // verus!
