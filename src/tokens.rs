use vstd::prelude::*;
use crate::pos::BiPos;

verus! {

/// The closed set of token kinds.
#[derive(Clone, Copy, Debug, PartialEq, Eq, Structural)]
pub enum TokenType {
    Eof,
    Error,
    Identifier,
    KwLet,
    KwVal,
    KwVar,
    KwMut,
    KwNative,
    KwFun,
    Number,
    String,
    Equal,
    LParen,
    RParen,
    LBracket,
    RBracket,
    LCurly,
    RCurly,
    Pipe,
    Slash,
    QMark,
    Backslash,
    Semicolon,
    Colon,
    Apost,
    Quote,
    RAngle,
    LAngle,
    Dot,
    Comma,
    Minus,
    Plus,
    Underscore,
    Star,
    Percent,
    Dollar,
    Hash,
    At,
    Bang,
    And,
    Caret,
    Tick,
}

/// What a token carries.
#[derive(Clone, Debug)]
pub enum TokenData {
    Empty,
    /// The characters of the source text that the token stands for.
    Str(String),
    /// A diagnostic message, on an error token.
    Message(String),
    Integer(i64),
    /// A floating-point literal, kept as its decimal text: digits with exactly
    /// one `.` among them. Converting it to a binary float happens where
    /// floating point is at hand.
    Float(String),
}

/// The mathematical content of a token's payload.
pub enum DataView {
    Empty,
    Str(Seq<char>),
    Message(Seq<char>),
    Integer(int),
    Float(Seq<char>),
}

/// One classified lexical unit.
#[derive(Clone, Debug)]
pub struct LexerToken {
    pub type_: TokenType,
    pub data: TokenData,
    /// Line and column of the token's first and last significant positions.
    pub pos: BiPos,
    /// Index of the token's first character in the source text.
    pub lo: usize,
    /// Index just past the token's last character in the source text.
    pub hi: usize,
}

/// A token as a mathematical value: kind, payload and character span.
pub struct TokenView {
    pub kind: TokenType,
    pub data: DataView,
    pub lo: nat,
    pub hi: nat,
}

impl View for TokenData {
    type V = DataView;

    open spec fn view(&self) -> DataView {
        match self {
            TokenData::Empty => DataView::Empty,
            TokenData::Str(s) => DataView::Str(s@),
            TokenData::Message(s) => DataView::Message(s@),
            TokenData::Integer(n) => DataView::Integer(*n as int),
            TokenData::Float(s) => DataView::Float(s@),
        }
    }
}

impl View for LexerToken {
    type V = TokenView;

    open spec fn view(&self) -> TokenView {
        TokenView { kind: self.type_, data: self.data@, lo: self.lo as nat, hi: self.hi as nat }
    }
}

impl TokenView {
    /// End of input and errors end a token stream.
    pub open spec fn is_terminal(self) -> bool {
        self.kind == TokenType::Eof || self.kind == TokenType::Error
    }
}

impl LexerToken {
    /// Whether this token ends a token stream.
    pub fn is_terminal(&self) -> (r: bool)
        ensures
            r == self@.is_terminal(),
    {
        self.type_ == TokenType::Eof || self.type_ == TokenType::Error
    }
}

/// The views of a sequence of tokens.
pub open spec fn views(ts: Seq<LexerToken>) -> Seq<TokenView> {
    ts.map_values(|t: LexerToken| t@)
}

} // verus!
