//! Tokens produced by the scanner, and the lexical errors it can report.

use vstd::prelude::*;

verus! {

/// The closed set of token kinds: single- and two-character punctuation and
/// operators, the reserved words, and the three literal-carrying kinds.
///
/// A numeric literal keeps its lexeme text (a maximal digit run, optionally
/// followed by `.` and another digit run). The conversion of that text to a
/// machine floating-point value is left to unverified consumers, since
/// floating point is outside what the verified core models.
#[derive(Debug, Clone, PartialEq)]
pub enum TokenKind {
    LeftParen,
    RightParen,
    LeftBrace,
    RightBrace,
    Comma,
    Dot,
    Minus,
    Plus,
    Semicolon,
    Star,
    Slash,
    Bang,
    BangEqual,
    Equal,
    EqualEqual,
    Less,
    LessEqual,
    Greater,
    GreaterEqual,
    And,
    Class,
    Else,
    False,
    For,
    Fun,
    If,
    Nil,
    Or,
    Print,
    Return,
    Super,
    This,
    True,
    Var,
    While,
    StringLit(String),
    Number(String),
    Identifier(String),
}

/// The mathematical counterpart of [`TokenKind`]: literal-carrying kinds hold
/// their text as a `Seq<char>`.
pub enum TokenKindView {
    LeftParen,
    RightParen,
    LeftBrace,
    RightBrace,
    Comma,
    Dot,
    Minus,
    Plus,
    Semicolon,
    Star,
    Slash,
    Bang,
    BangEqual,
    Equal,
    EqualEqual,
    Less,
    LessEqual,
    Greater,
    GreaterEqual,
    And,
    Class,
    Else,
    False,
    For,
    Fun,
    If,
    Nil,
    Or,
    Print,
    Return,
    Super,
    This,
    True,
    Var,
    While,
    StringLit { text: Seq<char> },
    Number { text: Seq<char> },
    Identifier { name: Seq<char> },
}

impl View for TokenKind {
    type V = TokenKindView;

    open spec fn view(&self) -> TokenKindView {
        match self {
            TokenKind::LeftParen => TokenKindView::LeftParen,
            TokenKind::RightParen => TokenKindView::RightParen,
            TokenKind::LeftBrace => TokenKindView::LeftBrace,
            TokenKind::RightBrace => TokenKindView::RightBrace,
            TokenKind::Comma => TokenKindView::Comma,
            TokenKind::Dot => TokenKindView::Dot,
            TokenKind::Minus => TokenKindView::Minus,
            TokenKind::Plus => TokenKindView::Plus,
            TokenKind::Semicolon => TokenKindView::Semicolon,
            TokenKind::Star => TokenKindView::Star,
            TokenKind::Slash => TokenKindView::Slash,
            TokenKind::Bang => TokenKindView::Bang,
            TokenKind::BangEqual => TokenKindView::BangEqual,
            TokenKind::Equal => TokenKindView::Equal,
            TokenKind::EqualEqual => TokenKindView::EqualEqual,
            TokenKind::Less => TokenKindView::Less,
            TokenKind::LessEqual => TokenKindView::LessEqual,
            TokenKind::Greater => TokenKindView::Greater,
            TokenKind::GreaterEqual => TokenKindView::GreaterEqual,
            TokenKind::And => TokenKindView::And,
            TokenKind::Class => TokenKindView::Class,
            TokenKind::Else => TokenKindView::Else,
            TokenKind::False => TokenKindView::False,
            TokenKind::For => TokenKindView::For,
            TokenKind::Fun => TokenKindView::Fun,
            TokenKind::If => TokenKindView::If,
            TokenKind::Nil => TokenKindView::Nil,
            TokenKind::Or => TokenKindView::Or,
            TokenKind::Print => TokenKindView::Print,
            TokenKind::Return => TokenKindView::Return,
            TokenKind::Super => TokenKindView::Super,
            TokenKind::This => TokenKindView::This,
            TokenKind::True => TokenKindView::True,
            TokenKind::Var => TokenKindView::Var,
            TokenKind::While => TokenKindView::While,
            TokenKind::StringLit(t) => TokenKindView::StringLit { text: t@ },
            TokenKind::Number(t) => TokenKindView::Number { text: t@ },
            TokenKind::Identifier(n) => TokenKindView::Identifier { name: n@ },
        }
    }
}

/// One token: its kind and the 1-based source line on which its lexeme was
/// recognized (for multi-line literals, the line where scanning concluded).
#[derive(Debug, Clone, PartialEq)]
pub struct Token {
    pub kind: TokenKind,
    pub line: usize,
}

/// The mathematical counterpart of [`Token`].
pub struct TokenView {
    pub kind: TokenKindView,
    pub line: int,
}

impl View for Token {
    type V = TokenView;

    open spec fn view(&self) -> TokenView {
        TokenView { kind: self.kind@, line: self.line as int }
    }
}

impl Token {
    pub fn new(kind: TokenKind, line: usize) -> (t: Token)
        ensures
            t.kind == kind,
            t.line == line,
    {
        Token { kind, line }
    }
}

/// A fatal lexical error, tagged with the 1-based line it was raised on.
#[derive(Debug, Clone, Copy, PartialEq, Eq)]
pub enum ScanError {
    /// The current character starts no recognized lexeme class.
    UnexpectedCharacter { line: usize },
    /// A string literal's closing quote was not found before end of input.
    UnterminatedString { line: usize },
}

/// The mathematical counterpart of [`ScanError`].
pub enum ScanErrorView {
    UnexpectedCharacter { line: int },
    UnterminatedString { line: int },
}

impl View for ScanError {
    type V = ScanErrorView;

    open spec fn view(&self) -> ScanErrorView {
        match self {
            ScanError::UnexpectedCharacter { line } => ScanErrorView::UnexpectedCharacter {
                line: *line as int,
            },
            ScanError::UnterminatedString { line } => ScanErrorView::UnterminatedString {
                line: *line as int,
            },
        }
    }
}

} // verus!
