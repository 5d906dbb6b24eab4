//! Tokens: the minimal lexical units handed from the lexer to the parser.

use vstd::prelude::*;
use crate::value::{Val, Value};

verus! {

/// The kind of a token. `StatementEnd` is the synthetic statement boundary
/// inferred from newlines; `EOF` is the end-of-input sentinel.
#[derive(Debug, Clone, Copy, PartialEq, Eq, Structural)]
pub enum TokenType {
    // Single character
    ParenOpen,
    ParenClose,
    SquareOpen,
    SquareClose,
    BraceOpen,
    BraceClose,
    Dot,
    Comma,
    Equal,
    Less,
    Greater,
    Plus,
    Minus,
    Multiply,
    Divide,

    // Two characters
    LessEqual,
    GreaterEqual,
    PlusPlus,
    MinusMinus,
    PlusEqual,
    MinusEqual,
    DollarLess,
    DollarGreater,

    // Literals
    String,
    Number,
    Identifier,

    // Keywords
    Offering,
    Ritual,
    End,
    Return,
    Not,
    And,
    Or,
    Is,
    Class,
    This,
    Super,
    While,
    For,
    If,
    Else,
    True,
    False,
    NoneKw,

    // Special
    StatementEnd,
    EOF,
}

/// One token: kind, source text, literal value carried by string and number
/// literals (`Value::Nil` for every other kind), and the source line the
/// token started on.
#[derive(Debug)]
pub struct Token {
    pub token_type: TokenType,
    pub lexeme: String,
    pub literal: Value,
    pub line: usize,
}

/// The model of a token.
pub struct TokenModel {
    pub token_type: TokenType,
    pub lexeme: Seq<char>,
    pub literal: Val,
    pub line: nat,
}

impl View for Token {
    type V = TokenModel;

    open spec fn view(&self) -> TokenModel {
        TokenModel {
            token_type: self.token_type,
            lexeme: self.lexeme@,
            literal: self.literal@,
            line: self.line as nat,
        }
    }
}

impl Clone for Token {
    /// A clone denotes the same token.
    fn clone(&self) -> (t: Token)
        ensures
            t@ == self@,
    {
        Token {
            token_type: self.token_type,
            lexeme: self.lexeme.clone(),
            literal: self.literal.clone(),
            line: self.line,
        }
    }
}

impl Token {
    pub fn new(token_type: TokenType, lexeme: String, literal: Value, line: usize) -> (t: Token)
        ensures
            t.token_type == token_type,
            t.lexeme == lexeme,
            t.literal == literal,
            t.line == line,
    {
        Token { token_type, lexeme, literal, line }
    }
}

} // verus!
