//! Tokens: their kinds, their place in the source, and the keyword table.

use crate::span::span_at;
use crate::span::span_len;
use crate::span::span_offset;
use miette::SourceSpan;
use vstd::prelude::*;
use vstd::slice::slice_index_get;
use vstd::std_specs::cmp::PartialEqSpecImpl;
use vstd::string::StringSliceAdditionalSpecFns;

verus! {

/// A half-open interval of byte offsets into the source.
#[derive(Debug, Clone, Copy, PartialEq, Eq, Structural)]
pub struct Range {
    pub start: usize,
    pub end: usize,
}

impl Range {
    /// A range is well formed when it does not end before it starts.
    pub open spec fn wf(&self) -> bool {
        self.start <= self.end
    }

    pub fn new(start: usize, end: usize) -> (range: Self)
        ensures
            range.start == start,
            range.end == end,
    {
        Self { start, end }
    }

    /// The range in the offset-and-length form that the renderer takes.
    pub fn source_span(&self) -> (span: SourceSpan)
        requires
            self.wf(),
        ensures
            span_offset(span) == self.start,
            span_len(span) == self.end - self.start,
    {
        span_at(self.start, self.end - self.start)
    }
}

/// The kind of a token. Identifiers and string literals carry their text;
/// a number literal carries its decimal digits as written.
#[derive(Debug, Clone, Copy)]
pub enum TokenType<'a> {
    // Single-character tokens
    LeftParen,
    RightParen,
    LeftBrace,
    RightBrace,
    Comma,
    Dot,
    Minus,
    Plus,
    Semicolon,
    Slash,
    Star,
    // One or two character tokens
    Bang,
    BangEqual,
    Equal,
    EqualEqual,
    Greater,
    GreaterEqual,
    Less,
    LessEqual,
    // Literals
    Identifier(&'a str),
    String(&'a str),
    Number(&'a str),
    // Keywords
    And,
    Class,
    Else,
    False,
    Fun,
    For,
    If,
    Nil,
    Or,
    Print,
    Return,
    Super,
    This,
    True,
    Var,
    While,
    Eof,
}

/// The mathematical value of a [`TokenType`]: the same variants, with the
/// text of a payload given as its bytes.
pub ghost enum Kind {
    LeftParen,
    RightParen,
    LeftBrace,
    RightBrace,
    Comma,
    Dot,
    Minus,
    Plus,
    Semicolon,
    Slash,
    Star,
    Bang,
    BangEqual,
    Equal,
    EqualEqual,
    Greater,
    GreaterEqual,
    Less,
    LessEqual,
    Identifier(Seq<u8>),
    String(Seq<u8>),
    Number(Seq<u8>),
    And,
    Class,
    Else,
    False,
    Fun,
    For,
    If,
    Nil,
    Or,
    Print,
    Return,
    Super,
    This,
    True,
    Var,
    While,
    Eof,
}

impl<'a> View for TokenType<'a> {
    type V = Kind;

    open spec fn view(&self) -> Kind {
        match *self {
            TokenType::LeftParen => Kind::LeftParen,
            TokenType::RightParen => Kind::RightParen,
            TokenType::LeftBrace => Kind::LeftBrace,
            TokenType::RightBrace => Kind::RightBrace,
            TokenType::Comma => Kind::Comma,
            TokenType::Dot => Kind::Dot,
            TokenType::Minus => Kind::Minus,
            TokenType::Plus => Kind::Plus,
            TokenType::Semicolon => Kind::Semicolon,
            TokenType::Slash => Kind::Slash,
            TokenType::Star => Kind::Star,
            TokenType::Bang => Kind::Bang,
            TokenType::BangEqual => Kind::BangEqual,
            TokenType::Equal => Kind::Equal,
            TokenType::EqualEqual => Kind::EqualEqual,
            TokenType::Greater => Kind::Greater,
            TokenType::GreaterEqual => Kind::GreaterEqual,
            TokenType::Less => Kind::Less,
            TokenType::LessEqual => Kind::LessEqual,
            TokenType::Identifier(text) => Kind::Identifier(text.spec_bytes()),
            TokenType::String(text) => Kind::String(text.spec_bytes()),
            TokenType::Number(text) => Kind::Number(text.spec_bytes()),
            TokenType::And => Kind::And,
            TokenType::Class => Kind::Class,
            TokenType::Else => Kind::Else,
            TokenType::False => Kind::False,
            TokenType::Fun => Kind::Fun,
            TokenType::For => Kind::For,
            TokenType::If => Kind::If,
            TokenType::Nil => Kind::Nil,
            TokenType::Or => Kind::Or,
            TokenType::Print => Kind::Print,
            TokenType::Return => Kind::Return,
            TokenType::Super => Kind::Super,
            TokenType::This => Kind::This,
            TokenType::True => Kind::True,
            TokenType::Var => Kind::Var,
            TokenType::While => Kind::While,
            TokenType::Eof => Kind::Eof,
        }
    }
}

impl Kind {
    /// How a token of this kind is written out: the spelling of an operator
    /// or a keyword, the text that a literal or an identifier carries, and
    /// `eof` for the end of the input.
    pub open spec fn symbol(self) -> Seq<u8> {
        match self {
            Kind::LeftParen => "(".spec_bytes(),
            Kind::RightParen => ")".spec_bytes(),
            Kind::LeftBrace => "{".spec_bytes(),
            Kind::RightBrace => "}".spec_bytes(),
            Kind::Comma => ",".spec_bytes(),
            Kind::Dot => ".".spec_bytes(),
            Kind::Minus => "-".spec_bytes(),
            Kind::Plus => "+".spec_bytes(),
            Kind::Semicolon => ";".spec_bytes(),
            Kind::Slash => "/".spec_bytes(),
            Kind::Star => "*".spec_bytes(),
            Kind::Bang => "!".spec_bytes(),
            Kind::BangEqual => "!=".spec_bytes(),
            Kind::Equal => "=".spec_bytes(),
            Kind::EqualEqual => "==".spec_bytes(),
            Kind::Greater => ">".spec_bytes(),
            Kind::GreaterEqual => ">=".spec_bytes(),
            Kind::Less => "<".spec_bytes(),
            Kind::LessEqual => "<=".spec_bytes(),
            Kind::Identifier(text) => text,
            Kind::String(text) => text,
            Kind::Number(text) => text,
            Kind::And => "and".spec_bytes(),
            Kind::Class => "class".spec_bytes(),
            Kind::Else => "else".spec_bytes(),
            Kind::False => "false".spec_bytes(),
            Kind::Fun => "fun".spec_bytes(),
            Kind::For => "for".spec_bytes(),
            Kind::If => "if".spec_bytes(),
            Kind::Nil => "nil".spec_bytes(),
            Kind::Or => "or".spec_bytes(),
            Kind::Print => "print".spec_bytes(),
            Kind::Return => "return".spec_bytes(),
            Kind::Super => "super".spec_bytes(),
            Kind::This => "this".spec_bytes(),
            Kind::True => "true".spec_bytes(),
            Kind::Var => "var".spec_bytes(),
            Kind::While => "while".spec_bytes(),
            Kind::Eof => "eof".spec_bytes(),
        }
    }
}

/// The kind of an identifier-shaped word: the keyword that is spelled
/// exactly so, or else an identifier that carries the word.
pub open spec fn word_kind(word: Seq<u8>) -> Kind {
    if word == "and".spec_bytes() {
        Kind::And
    } else if word == "class".spec_bytes() {
        Kind::Class
    } else if word == "else".spec_bytes() {
        Kind::Else
    } else if word == "false".spec_bytes() {
        Kind::False
    } else if word == "fun".spec_bytes() {
        Kind::Fun
    } else if word == "for".spec_bytes() {
        Kind::For
    } else if word == "if".spec_bytes() {
        Kind::If
    } else if word == "nil".spec_bytes() {
        Kind::Nil
    } else if word == "or".spec_bytes() {
        Kind::Or
    } else if word == "print".spec_bytes() {
        Kind::Print
    } else if word == "return".spec_bytes() {
        Kind::Return
    } else if word == "super".spec_bytes() {
        Kind::Super
    } else if word == "this".spec_bytes() {
        Kind::This
    } else if word == "true".spec_bytes() {
        Kind::True
    } else if word == "var".spec_bytes() {
        Kind::Var
    } else if word == "while".spec_bytes() {
        Kind::While
    } else {
        Kind::Identifier(word)
    }
}

/// Whether two strings hold the same bytes.
pub fn same_text(left: &str, right: &str) -> (same: bool)
    ensures
        same == (left.spec_bytes() == right.spec_bytes()),
{
    let a = left.as_bytes();
    let b = right.as_bytes();
    if a.len() != b.len() {
        return false;
    }
    let mut i: usize = 0;
    while i < a.len()
        invariant
            a@ == left.spec_bytes(),
            b@ == right.spec_bytes(),
            a.len() == b.len(),
            i <= a.len(),
            a@.subrange(0, i as int) == b@.subrange(0, i as int),
        decreases a.len() - i,
    {
        if *slice_index_get(a, i) != *slice_index_get(b, i) {
            assert(a@[i as int] != b@[i as int]);
            return false;
        }
        assert(a@.subrange(0, i + 1) == a@.subrange(0, i as int).push(a@[i as int]));
        assert(b@.subrange(0, i + 1) == b@.subrange(0, i as int).push(b@[i as int]));
        i = i + 1;
    }
    assert(a@ == a@.subrange(0, i as int));
    assert(b@ == b@.subrange(0, i as int));
    true
}

impl<'a> PartialEq for TokenType<'a> {
    fn eq(&self, other: &Self) -> (same: bool) {
        match (*self, *other) {
            (TokenType::LeftParen, TokenType::LeftParen) => true,
            (TokenType::RightParen, TokenType::RightParen) => true,
            (TokenType::LeftBrace, TokenType::LeftBrace) => true,
            (TokenType::RightBrace, TokenType::RightBrace) => true,
            (TokenType::Comma, TokenType::Comma) => true,
            (TokenType::Dot, TokenType::Dot) => true,
            (TokenType::Minus, TokenType::Minus) => true,
            (TokenType::Plus, TokenType::Plus) => true,
            (TokenType::Semicolon, TokenType::Semicolon) => true,
            (TokenType::Slash, TokenType::Slash) => true,
            (TokenType::Star, TokenType::Star) => true,
            (TokenType::Bang, TokenType::Bang) => true,
            (TokenType::BangEqual, TokenType::BangEqual) => true,
            (TokenType::Equal, TokenType::Equal) => true,
            (TokenType::EqualEqual, TokenType::EqualEqual) => true,
            (TokenType::Greater, TokenType::Greater) => true,
            (TokenType::GreaterEqual, TokenType::GreaterEqual) => true,
            (TokenType::Less, TokenType::Less) => true,
            (TokenType::LessEqual, TokenType::LessEqual) => true,
            (TokenType::Identifier(left), TokenType::Identifier(right)) => same_text(left, right),
            (TokenType::String(left), TokenType::String(right)) => same_text(left, right),
            (TokenType::Number(left), TokenType::Number(right)) => same_text(left, right),
            (TokenType::And, TokenType::And) => true,
            (TokenType::Class, TokenType::Class) => true,
            (TokenType::Else, TokenType::Else) => true,
            (TokenType::False, TokenType::False) => true,
            (TokenType::Fun, TokenType::Fun) => true,
            (TokenType::For, TokenType::For) => true,
            (TokenType::If, TokenType::If) => true,
            (TokenType::Nil, TokenType::Nil) => true,
            (TokenType::Or, TokenType::Or) => true,
            (TokenType::Print, TokenType::Print) => true,
            (TokenType::Return, TokenType::Return) => true,
            (TokenType::Super, TokenType::Super) => true,
            (TokenType::This, TokenType::This) => true,
            (TokenType::True, TokenType::True) => true,
            (TokenType::Var, TokenType::Var) => true,
            (TokenType::While, TokenType::While) => true,
            (TokenType::Eof, TokenType::Eof) => true,
            _ => false,
        }
    }
}

/// Two kinds are equal when they are the same variant and carry the same
/// text.
impl<'a> PartialEqSpecImpl for TokenType<'a> {
    open spec fn obeys_eq_spec() -> bool {
        true
    }

    open spec fn eq_spec(&self, other: &Self) -> bool {
        self@ == other@
    }
}

impl<'a> TokenType<'a> {
    /// Looks a word up in the keyword table.
    pub fn get_token_type(literal: &'a str) -> (kind: TokenType<'a>)
        ensures
            kind@ == word_kind(literal.spec_bytes()),
    {
        if same_text(literal, "and") {
            TokenType::And
        } else if same_text(literal, "class") {
            TokenType::Class
        } else if same_text(literal, "else") {
            TokenType::Else
        } else if same_text(literal, "false") {
            TokenType::False
        } else if same_text(literal, "fun") {
            TokenType::Fun
        } else if same_text(literal, "for") {
            TokenType::For
        } else if same_text(literal, "if") {
            TokenType::If
        } else if same_text(literal, "nil") {
            TokenType::Nil
        } else if same_text(literal, "or") {
            TokenType::Or
        } else if same_text(literal, "print") {
            TokenType::Print
        } else if same_text(literal, "return") {
            TokenType::Return
        } else if same_text(literal, "super") {
            TokenType::Super
        } else if same_text(literal, "this") {
            TokenType::This
        } else if same_text(literal, "true") {
            TokenType::True
        } else if same_text(literal, "var") {
            TokenType::Var
        } else if same_text(literal, "while") {
            TokenType::While
        } else {
            TokenType::Identifier(literal)
        }
    }

    /// How this token is written out.
    pub fn symbol(&self) -> (text: &'a str)
        ensures
            text.spec_bytes() == self@.symbol(),
    {
        match *self {
            TokenType::LeftParen => "(",
            TokenType::RightParen => ")",
            TokenType::LeftBrace => "{",
            TokenType::RightBrace => "}",
            TokenType::Comma => ",",
            TokenType::Dot => ".",
            TokenType::Minus => "-",
            TokenType::Plus => "+",
            TokenType::Semicolon => ";",
            TokenType::Slash => "/",
            TokenType::Star => "*",
            TokenType::Bang => "!",
            TokenType::BangEqual => "!=",
            TokenType::Equal => "=",
            TokenType::EqualEqual => "==",
            TokenType::Greater => ">",
            TokenType::GreaterEqual => ">=",
            TokenType::Less => "<",
            TokenType::LessEqual => "<=",
            TokenType::Identifier(text) => text,
            TokenType::String(text) => text,
            TokenType::Number(text) => text,
            TokenType::And => "and",
            TokenType::Class => "class",
            TokenType::Else => "else",
            TokenType::False => "false",
            TokenType::Fun => "fun",
            TokenType::For => "for",
            TokenType::If => "if",
            TokenType::Nil => "nil",
            TokenType::Or => "or",
            TokenType::Print => "print",
            TokenType::Return => "return",
            TokenType::Super => "super",
            TokenType::This => "this",
            TokenType::True => "true",
            TokenType::Var => "var",
            TokenType::While => "while",
            TokenType::Eof => "eof",
        }
    }
}

/// One lexical unit: its kind, the source text it was read from, and where
/// that text stands in the source.
#[derive(Debug, Clone, Copy)]
pub struct Token<'a> {
    pub token_type: TokenType<'a>,
    pub literal: &'a str,
    pub range: Range,
}

/// The mathematical value of a [`Token`].
pub ghost struct TokenView {
    pub kind: Kind,
    pub lexeme: Seq<u8>,
    pub start: int,
    pub end: int,
}

impl<'a> View for Token<'a> {
    type V = TokenView;

    open spec fn view(&self) -> TokenView {
        TokenView {
            kind: self.token_type@,
            lexeme: self.literal.spec_bytes(),
            start: self.range.start as int,
            end: self.range.end as int,
        }
    }
}

impl<'a> Token<'a> {
    pub fn new(token_type: TokenType<'a>, literal: &'a str, range: Range) -> (token: Self)
        ensures
            token.token_type == token_type,
            token.literal == literal,
            token.range == range,
    {
        Self { token_type, literal, range }
    }
}

/// The values of a sequence of tokens, in order.
pub open spec fn token_views(tokens: Seq<Token>) -> Seq<TokenView> {
    tokens.map_values(|token: Token| token@)
}

} // verus!
