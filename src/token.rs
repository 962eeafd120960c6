use vstd::prelude::*;
use crate::number::Number;

verus! {

/// The kinds of lexical units.
#[derive(Debug, Clone, Copy, PartialEq, Eq, Structural)]
pub enum TokenType {
    Str,
    WhiteSpace,
    NewLine,
    LParen,
    RParen,
    LBrace,
    RBrace,
    LBracket,
    RBracket,
    Comma,
    Dot,
    Plus,
    PlusAssign,
    Minus,
    MinusAssign,
    Slash,
    Star,
    Percent,
    Bang,
    BangEqual,
    Equal,
    Assign,
    Greater,
    GreaterEqual,
    Less,
    LessEqual,
    Identifier,
    Number,
    And,
    Or,
    Struct,
    If,
    Else,
    Elif,
    True,
    False,
    Function,
    For,
    While,
    Print,
    EOF,
    Hash,
    Unknown,
}

/// The literal value that a token carries, if any.
#[derive(Debug, Clone, PartialEq)]
pub enum Literal {
    Empty,
    Number(Number),
    Str(String),
}

/// A lexical unit: its kind, its text, its literal value and its source line.
#[derive(Debug, Clone)]
pub struct Token {
    pub ty: TokenType,
    pub lexeme: String,
    pub literal: Literal,
    pub line: usize,
}

/// The model of a `Literal`.
pub enum LiteralView {
    Empty,
    Number(Number),
    Str(Seq<char>),
}

impl Literal {
    pub open spec fn view(&self) -> LiteralView {
        match self {
            Literal::Empty => LiteralView::Empty,
            Literal::Number(n) => LiteralView::Number(*n),
            Literal::Str(s) => LiteralView::Str(s@),
        }
    }
}

/// The model of a `Token`.
pub struct TokenView {
    pub ty: TokenType,
    pub lexeme: Seq<char>,
    pub literal: LiteralView,
    pub line: usize,
}

/// The models of a list of tokens.
pub open spec fn token_views(ts: Seq<Token>) -> Seq<TokenView> {
    Seq::new(ts.len(), |i: int| ts[i]@)
}

impl Token {
    pub open spec fn view(&self) -> TokenView {
        TokenView { ty: self.ty, lexeme: self.lexeme@, literal: self.literal@, line: self.line }
    }

    pub fn new(ty: TokenType, lexeme: String, literal: Literal, line: usize) -> (r: Token)
        ensures
            r.ty == ty,
            r.lexeme == lexeme,
            r.literal == literal,
            r.line == line,
    {
        Token { ty, lexeme, literal, line }
    }

    /// A token of kind `ty` with empty text, no literal, and line 0.
    pub fn from_ty(ty: TokenType) -> (r: Token)
        ensures
            r.ty == ty,
            r.lexeme@ == Seq::<char>::empty(),
            r.literal == Literal::Empty,
            r.line == 0,
    {
        Token { ty, lexeme: String::new(), literal: Literal::Empty, line: 0 }
    }
}

} // verus!
