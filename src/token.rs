use vstd::prelude::*;

verus! {

/// What a span is, as a mathematical value: its offsets and its text.
pub struct TextSpanView {
    pub start: nat,
    pub end: nat,
    pub literal: Seq<char>,
}

/// A stretch of the input: `start` inclusive, `end` exclusive, and the
/// text it stands for.
#[derive(Debug)]
pub struct TextSpan {
    start: usize,
    end: usize,
    literal: String,
}

impl View for TextSpan {
    type V = TextSpanView;

    closed spec fn view(&self) -> TextSpanView {
        TextSpanView { start: self.start as nat, end: self.end as nat, literal: self.literal@ }
    }
}

impl TextSpan {
    pub fn new(start: usize, end: usize, literal: String) -> (r: TextSpan)
        ensures
            r@ == (TextSpanView { start: start as nat, end: end as nat, literal: literal@ }),
    {
        TextSpan { start, end, literal }
    }

    /// The number of offsets between `start` and `end`.
    pub fn length(&self) -> (r: usize)
        requires
            self@.start <= self@.end,
        ensures
            r == self@.end - self@.start,
    {
        self.end - self.start
    }

    pub fn start(&self) -> (r: usize)
        ensures
            r == self@.start,
    {
        self.start
    }

    pub fn end(&self) -> (r: usize)
        ensures
            r == self@.end,
    {
        self.end
    }

    pub fn literal(&self) -> (r: &str)
        ensures
            r@ == self@.literal,
    {
        self.literal.as_str()
    }
}

/// The class of a token. Only an integer carries a value.
#[derive(Debug, PartialEq, Eq, Structural)]
pub enum TokenKind {
    Integer(i64),
    Plus,
    Minus,
    Equals,
    Whitespace,
    EOF,
    Bad,
}

/// What a token is, as a mathematical value.
pub struct TokenView {
    pub kind: TokenKind,
    pub span: TextSpanView,
}

/// A classified piece of the input, with the span it was read from.
#[derive(Debug)]
pub struct Token {
    kind: TokenKind,
    span: TextSpan,
}

impl View for Token {
    type V = TokenView;

    closed spec fn view(&self) -> TokenView {
        TokenView { kind: self.kind, span: self.span@ }
    }
}

impl Token {
    pub fn new(kind: TokenKind, span: TextSpan) -> (r: Token)
        ensures
            r@ == (TokenView { kind: kind, span: span@ }),
    {
        Token { kind, span }
    }

    pub fn kind(&self) -> (r: &TokenKind)
        ensures
            *r == self@.kind,
    {
        &self.kind
    }

    pub fn span(&self) -> (r: &TextSpan)
        ensures
            r@ == self@.span,
    {
        &self.span
    }
}

} // verus!
