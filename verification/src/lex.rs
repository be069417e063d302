//! Tokens as the external lexer hands them to the front end.
//!
//! The lexer itself is an external collaborator: it turns raw characters
//! into a flat sequence of `Token` values, each carrying a kind, its text
//! and a source position. The front end consumes that sequence and never
//! looks at raw characters.

use vstd::prelude::*;

verus! {

/// The kinds of token the lexer can produce.
#[derive(Clone, Copy, PartialEq, Eq, Structural, Debug)]
pub enum TokenKind {
    Identifier,
    Port,
    Charge,
    Block,
    Comma,
    Semicolon,
    EndLine,
    Space,
}

/// A (line, column) position in the source text.
#[derive(Clone, Copy, PartialEq, Eq, Structural, Debug)]
pub struct SourcePosition {
    pub line: usize,
    pub column: usize,
}

impl SourcePosition {
    pub fn new(line: usize, column: usize) -> (r: SourcePosition)
        ensures
            r == (SourcePosition { line, column }),
    {
        SourcePosition { line, column }
    }
}

/// The mathematical value of a token: kind, text and position.
pub struct TokenV {
    pub kind: TokenKind,
    pub text: Seq<char>,
    pub position: SourcePosition,
}

/// One token of lexer output. Immutable once produced.
#[derive(Debug, PartialEq, Eq)]
pub struct Token {
    pub kind: TokenKind,
    pub text: String,
    pub position: SourcePosition,
}

impl View for Token {
    type V = TokenV;

    open spec fn view(&self) -> TokenV {
        TokenV { kind: self.kind, text: self.text@, position: self.position }
    }
}

impl DeepView for Token {
    type V = TokenV;

    open spec fn deep_view(&self) -> TokenV {
        self@
    }
}

impl Clone for Token {
    fn clone(&self) -> (r: Token)
        ensures
            r@ == self@,
    {
        Token { kind: self.kind, text: self.text.clone(), position: self.position }
    }
}

impl Token {
    pub fn new(kind: TokenKind, text: String, position: SourcePosition) -> (r: Token)
        ensures
            r@ == (TokenV { kind, text: text@, position }),
    {
        Token { kind, text, position }
    }

    pub fn kind(&self) -> (r: TokenKind)
        ensures
            r == self@.kind,
    {
        self.kind
    }

    pub fn text(&self) -> (r: &str)
        ensures
            r@ == self@.text,
    {
        self.text.as_str()
    }

    pub fn position(&self) -> (r: SourcePosition)
        ensures
            r == self@.position,
    {
        self.position
    }
}

/// A diagnostic from the external lexer. The front end treats it as opaque:
/// a non-empty list of lexer errors suppresses parsing and translation.
#[derive(Clone, Copy, PartialEq, Eq, Structural, Debug)]
pub struct LexerError {
    pub position: SourcePosition,
}

impl LexerError {
    pub fn new(position: SourcePosition) -> (r: LexerError)
        ensures
            r == (LexerError { position }),
    {
        LexerError { position }
    }
}

} // verus!
