//! The token vocabulary shared by the lexer and the parser.

use vstd::prelude::*;

verus! {

/// The closed set of token kinds.
#[derive(Debug, Clone, Copy, PartialEq, Eq, Structural)]
pub enum TokenType {
    /// A character, or `\r` without `\n`, that belongs to no token.
    Illegal,
    /// End of input.
    EOF,
    /// A name: `foo`, `bar`, `x`.
    Ident,
    /// A run of decimal digits.
    Int,
    Assign,
    Eq,
    NotEq,
    Plus,
    Minus,
    Bang,
    Asterisk,
    Slash,
    Lt,
    Gt,
    Comma,
    Semicolon,
    LParen,
    RParen,
    LBrace,
    RBrace,
    Function,
    Let,
    True,
    False,
    If,
    Else,
    Return,
    /// A line break; the lexer counts these and hands none of them out.
    NewLine,
}

/// How a kind of token is written: an operator, a delimiter or a keyword
/// as it stands in a text, the others by name.
pub open spec fn kind_text(kind: TokenType) -> Seq<char> {
    match kind {
        TokenType::Illegal => "Illegal"@,
        TokenType::EOF => "EOF"@,
        TokenType::Ident => "IDENT"@,
        TokenType::Int => "int"@,
        TokenType::Assign => "="@,
        TokenType::Eq => "=="@,
        TokenType::NotEq => "!="@,
        TokenType::Plus => "+"@,
        TokenType::Minus => "-"@,
        TokenType::Bang => "!"@,
        TokenType::Asterisk => "*"@,
        TokenType::Slash => "/"@,
        TokenType::Lt => "<"@,
        TokenType::Gt => ">"@,
        TokenType::Comma => ","@,
        TokenType::Semicolon => ";"@,
        TokenType::LParen => "("@,
        TokenType::RParen => ")"@,
        TokenType::LBrace => "{"@,
        TokenType::RBrace => "}"@,
        TokenType::Function => "fn"@,
        TokenType::Let => "let"@,
        TokenType::True => "true"@,
        TokenType::False => "false"@,
        TokenType::If => "if"@,
        TokenType::Else => "else"@,
        TokenType::Return => "return"@,
        TokenType::NewLine => "\n"@,
    }
}

impl TokenType {
    /// How this kind of token is written.
    pub fn as_str(&self) -> (text: &'static str)
        ensures
            text@ == kind_text(*self),
    {
        match self {
            TokenType::Illegal => "Illegal",
            TokenType::EOF => "EOF",
            TokenType::Ident => "IDENT",
            TokenType::Int => "int",
            TokenType::Assign => "=",
            TokenType::Eq => "==",
            TokenType::NotEq => "!=",
            TokenType::Plus => "+",
            TokenType::Minus => "-",
            TokenType::Bang => "!",
            TokenType::Asterisk => "*",
            TokenType::Slash => "/",
            TokenType::Lt => "<",
            TokenType::Gt => ">",
            TokenType::Comma => ",",
            TokenType::Semicolon => ";",
            TokenType::LParen => "(",
            TokenType::RParen => ")",
            TokenType::LBrace => "{",
            TokenType::RBrace => "}",
            TokenType::Function => "fn",
            TokenType::Let => "let",
            TokenType::True => "true",
            TokenType::False => "false",
            TokenType::If => "if",
            TokenType::Else => "else",
            TokenType::Return => "return",
            TokenType::NewLine => "\n",
        }
    }

    /// How this kind of token is written, as a string of its own.
    pub fn to_string(&self) -> (text: String)
        ensures
            text@ == kind_text(*self),
    {
        self.as_str().to_owned()
    }
}

/// What a token is, as plain values: its kind and the characters of its text.
pub struct TokenModel {
    pub kind: TokenType,
    pub literal: Seq<char>,
}

/// A classified lexical unit with its text.
#[derive(Debug, Clone, PartialEq)]
pub struct Token {
    pub kind: TokenType,
    pub literal: String,
}

impl View for Token {
    type V = TokenModel;

    open spec fn view(&self) -> TokenModel {
        TokenModel { kind: self.kind, literal: self.literal@ }
    }
}

impl Token {
    /// A token of the given kind that owns a copy of `literal`.
    pub fn new(kind: TokenType, literal: &str) -> (token: Token)
        ensures
            token@ == (TokenModel { kind, literal: literal@ }),
    {
        Token { kind, literal: literal.to_owned() }
    }

    /// A second token with the same kind and text.
    pub fn duplicate(&self) -> (token: Token)
        ensures
            token == *self,
    {
        Token { kind: self.kind, literal: self.literal.clone() }
    }
}

} // verus!
