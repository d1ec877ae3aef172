use vstd::prelude::*;

use crate::range::Range;

verus! {

/// A token of ANRE.
#[derive(Debug, PartialEq)]
pub enum Token {
    /// A reserved word: `define` or `as`.
    Keyword(String),
    /// A function, macro, preset charset or capture name.
    Identifier(String),
    /// A decimal integer, used by repetition counts and numeric arguments.
    Number(usize),
    /// A character literal such as `'a'`.
    Char(char),
    /// A string literal such as `"abc"`.
    String(String),
    /// `?`
    Question,
    /// `??`
    QuestionLazy,
    /// `+`
    Plus,
    /// `+?`
    PlusLazy,
    /// `*`
    Asterisk,
    /// `*?`
    AsteriskLazy,
    /// `{`, opens a repetition such as `{3}`, `{3..}` or `{3..5}`.
    BraceOpen,
    /// `}`
    BraceClose,
    /// `!`, negates a character set written right after it.
    Exclamation,
    /// `..`, in character ranges and repetition ranges.
    Range,
    /// `#`, index capture.
    Hash,
    /// `^`, the prefix of an indexed back-reference such as `^1`.
    Caret,
    /// `.`, separates an expression from a method call.
    Dot,
    /// `||`, alternation.
    LogicOr,
    /// `[`
    BracketOpen,
    /// `]`
    BracketClose,
    /// `(`
    ParenthesisOpen,
    /// `)`
    ParenthesisClose,
}

/// A token with its texts taken as sequences of characters.
pub enum TokenView {
    Keyword(Seq<char>),
    Identifier(Seq<char>),
    Number(usize),
    Char(char),
    String(Seq<char>),
    Question,
    QuestionLazy,
    Plus,
    PlusLazy,
    Asterisk,
    AsteriskLazy,
    BraceOpen,
    BraceClose,
    Exclamation,
    Range,
    Hash,
    Caret,
    Dot,
    LogicOr,
    BracketOpen,
    BracketClose,
    ParenthesisOpen,
    ParenthesisClose,
}

impl View for Token {
    type V = TokenView;

    open spec fn view(&self) -> TokenView {
        match self {
            Token::Keyword(s) => TokenView::Keyword(s@),
            Token::Identifier(s) => TokenView::Identifier(s@),
            Token::Number(n) => TokenView::Number(*n),
            Token::Char(c) => TokenView::Char(*c),
            Token::String(s) => TokenView::String(s@),
            Token::Question => TokenView::Question,
            Token::QuestionLazy => TokenView::QuestionLazy,
            Token::Plus => TokenView::Plus,
            Token::PlusLazy => TokenView::PlusLazy,
            Token::Asterisk => TokenView::Asterisk,
            Token::AsteriskLazy => TokenView::AsteriskLazy,
            Token::BraceOpen => TokenView::BraceOpen,
            Token::BraceClose => TokenView::BraceClose,
            Token::Exclamation => TokenView::Exclamation,
            Token::Range => TokenView::Range,
            Token::Hash => TokenView::Hash,
            Token::Caret => TokenView::Caret,
            Token::Dot => TokenView::Dot,
            Token::LogicOr => TokenView::LogicOr,
            Token::BracketOpen => TokenView::BracketOpen,
            Token::BracketClose => TokenView::BracketClose,
            Token::ParenthesisOpen => TokenView::ParenthesisOpen,
            Token::ParenthesisClose => TokenView::ParenthesisClose,
        }
    }
}

impl Clone for Token {
    fn clone(&self) -> (token: Self)
        ensures
            token == *self,
    {
        match self {
            Token::Keyword(s) => Token::Keyword(s.clone()),
            Token::Identifier(s) => Token::Identifier(s.clone()),
            Token::Number(n) => Token::Number(*n),
            Token::Char(c) => Token::Char(*c),
            Token::String(s) => Token::String(s.clone()),
            Token::Question => Token::Question,
            Token::QuestionLazy => Token::QuestionLazy,
            Token::Plus => Token::Plus,
            Token::PlusLazy => Token::PlusLazy,
            Token::Asterisk => Token::Asterisk,
            Token::AsteriskLazy => Token::AsteriskLazy,
            Token::BraceOpen => Token::BraceOpen,
            Token::BraceClose => Token::BraceClose,
            Token::Exclamation => Token::Exclamation,
            Token::Range => Token::Range,
            Token::Hash => Token::Hash,
            Token::Caret => Token::Caret,
            Token::Dot => Token::Dot,
            Token::LogicOr => Token::LogicOr,
            Token::BracketOpen => Token::BracketOpen,
            Token::BracketClose => Token::BracketClose,
            Token::ParenthesisOpen => Token::ParenthesisOpen,
            Token::ParenthesisClose => Token::ParenthesisClose,
        }
    }
}

/// A token with the span of source text that it was read from.
#[derive(Debug, PartialEq)]
pub struct TokenWithRange {
    pub token: Token,
    pub range: Range,
}

impl Clone for TokenWithRange {
    fn clone(&self) -> (token_with_range: Self)
        ensures
            token_with_range == *self,
    {
        TokenWithRange { token: self.token.clone(), range: self.range }
    }
}

impl View for TokenWithRange {
    type V = (TokenView, Range);

    open spec fn view(&self) -> (TokenView, Range) {
        (self.token@, self.range)
    }
}

impl TokenWithRange {
    pub fn new(token: Token, range: Range) -> (token_with_range: Self)
        ensures
            token_with_range == (TokenWithRange { token, range }),
    {
        Self { token, range }
    }
}

} // verus!
