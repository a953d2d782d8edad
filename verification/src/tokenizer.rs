//! What a tokenizer gives.

use vstd::prelude::*;

use crate::text;
use crate::text::push_decimal;

verus! {

/// A position in a source text.
#[derive(Clone, Copy, Debug, PartialEq, Eq, Structural)]
pub struct SourcePosition {
    /// How many characters stand before it.
    pub index: usize,
    /// Its line, from 1.
    pub line: usize,
    /// Its column, from 1.
    pub column: usize,
}

/// A stretch of a source text.
#[derive(Clone, Copy, Debug, PartialEq, Eq, Structural)]
pub struct SourceSpan {
    /// Where it starts.
    pub start: SourcePosition,
    /// Where it ends.
    pub end: SourcePosition,
}

/// A token of a shell script.
#[derive(Debug, PartialEq, Eq)]
pub enum Token {
    /// An operator.
    Operator(String, SourceSpan),
    /// A word.
    Word(String, SourceSpan),
}

impl Clone for Token {
    fn clone(&self) -> (r: Self)
        ensures
            r == *self,
    {
        match self {
            Token::Operator(s, span) => Token::Operator(s.clone(), *span),
            Token::Word(s, span) => Token::Word(s.clone(), *span),
        }
    }
}

/// Why a token ended.
#[derive(Clone, Copy, Debug, PartialEq, Eq, Structural)]
pub enum TokenEndReason {
    /// The input ended.
    EndOfInput,
    /// A line feed that is not escaped.
    UnescapedNewLine,
    /// The character that the caller asked to stop at.
    SpecifiedTerminatingChar,
    /// A blank other than a line feed.
    NonNewLineBlank,
    /// The body of a here-document starts.
    HereDocumentBodyStart,
    /// The body of a here-document ends.
    HereDocumentBodyEnd,
    /// The end tag of a here-document.
    HereDocumentEndTag,
    /// An operator starts.
    OperatorStart,
    /// An operator ends.
    OperatorEnd,
    /// Any other reason.
    Other,
}

/// What one step of a tokenizer found.
#[derive(Debug, PartialEq, Eq)]
pub struct TokenizeResult {
    /// Why the step ended.
    pub reason: TokenEndReason,
    /// The token, if there was one.
    pub token: Option<Token>,
}

/// Why a script cannot be tokenized.
#[derive(Debug, PartialEq, Eq)]
pub enum TokenizerError {
    /// A Python block has no end; the position is that of the line that starts it.
    UnterminatedPythonBlock(SourcePosition),
    /// The script could not be read, with the reason.
    ReadError(String),
    /// The tokenizer failed, with what it reports.
    Other(String),
}

impl Clone for TokenizerError {
    fn clone(&self) -> (r: Self)
        ensures
            r == *self,
    {
        match self {
            TokenizerError::UnterminatedPythonBlock(at) => {
                TokenizerError::UnterminatedPythonBlock(*at)
            },
            TokenizerError::ReadError(reason) => TokenizerError::ReadError(reason.clone()),
            TokenizerError::Other(report) => TokenizerError::Other(report.clone()),
        }
    }
}

impl TokenizerError {
    /// The text that describes this error.
    pub open spec fn text(self) -> Seq<char> {
        match self {
            TokenizerError::UnterminatedPythonBlock(at) => "unterminated PYTHON block at line "@
                + text::decimal_text(at.line as nat) + ": missing END_PYTHON"@,
            TokenizerError::ReadError(reason) => reason@,
            TokenizerError::Other(report) => report@,
        }
    }

    /// The text that describes this error.
    pub fn message(&self) -> (r: String)
        ensures
            r@ == self.text(),
    {
        match self {
            TokenizerError::UnterminatedPythonBlock(at) => {
                let mut r = "unterminated PYTHON block at line ".to_owned();
                push_decimal(&mut r, at.line as u64);
                r.append(": missing END_PYTHON");
                r
            },
            TokenizerError::ReadError(reason) => reason.clone(),
            TokenizerError::Other(report) => report.clone(),
        }
    }
}

/// A tokenizer's step: what it found, or why and where it failed.
pub type TokenStep = Result<TokenizeResult, (TokenizerError, Option<SourcePosition>)>;

} // verus!
