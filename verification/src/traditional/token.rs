use vstd::prelude::*;

use crate::range::Range;

verus! {

/// A token of a traditional regular expression.
#[derive(Debug, PartialEq, Clone)]
pub enum Token {
    /// `[`
    CharSetStart,
    /// `[^`
    CharSetStartNegative,
    /// `]`
    CharSetEnd,
    /// `*`
    ZeroOrMore,
    /// `*?`
    ZeroOrMoreLazy,
    /// `+`
    OneOrMore,
    /// `+?`
    OneOrMoreLazy,
    /// `?`
    Optional,
    /// `??`
    OptionalLazy,
    /// `|`
    LogicOr,
    /// `^`
    LineAssertionStart,
    /// `$`
    LineAssertionEnd,
    /// `.`
    Dot,
    Char(char),
    /// A range such as `a-z`: its start and its inclusive end.
    CharRange(char, char),
    /// A preset class such as `\d`, `\w` or `\s`, by its letter.
    PresetCharSet(char),
    /// `\b`, or `\B` when negative.
    BoundaryAssertion(bool),
    /// `{N}`, `{M,}` or `{M,N}`, and whether it is lazy.
    Repetition(Repetition, bool),
    /// `(`
    GroupStart,
    /// `(?:`
    NonCaptureGroupStart,
    /// `(?=`
    LookAheadGroupStart,
    /// `(?!`
    LookAheadNegativeGroupStart,
    /// `(?<name>`
    NamedCaptureGroupStart(String),
    /// `(?<=`
    LookBehindGroupStart,
    /// `(?<!`
    LookBehindNegativeGroupStart,
    /// `)`
    GroupEnd,
    /// `\number`
    BackReferenceNumber(usize),
    /// `\k<name>`
    BackReferenceName(String),
}

#[derive(Debug, PartialEq, Eq, Clone, Copy)]
pub enum Repetition {
    Repeat(usize),
    RepeatFrom(usize),
    RepeatRange(usize, usize),
}

/// A token with its names taken as sequences of characters.
pub enum TokenView {
    CharSetStart,
    CharSetStartNegative,
    CharSetEnd,
    ZeroOrMore,
    ZeroOrMoreLazy,
    OneOrMore,
    OneOrMoreLazy,
    Optional,
    OptionalLazy,
    LogicOr,
    LineAssertionStart,
    LineAssertionEnd,
    Dot,
    Char(char),
    CharRange(char, char),
    PresetCharSet(char),
    BoundaryAssertion(bool),
    Repetition(Repetition, bool),
    GroupStart,
    NonCaptureGroupStart,
    LookAheadGroupStart,
    LookAheadNegativeGroupStart,
    NamedCaptureGroupStart(Seq<char>),
    LookBehindGroupStart,
    LookBehindNegativeGroupStart,
    GroupEnd,
    BackReferenceNumber(usize),
    BackReferenceName(Seq<char>),
}

impl View for Token {
    type V = TokenView;

    open spec fn view(&self) -> TokenView {
        match self {
            Token::CharSetStart => TokenView::CharSetStart,
            Token::CharSetStartNegative => TokenView::CharSetStartNegative,
            Token::CharSetEnd => TokenView::CharSetEnd,
            Token::ZeroOrMore => TokenView::ZeroOrMore,
            Token::ZeroOrMoreLazy => TokenView::ZeroOrMoreLazy,
            Token::OneOrMore => TokenView::OneOrMore,
            Token::OneOrMoreLazy => TokenView::OneOrMoreLazy,
            Token::Optional => TokenView::Optional,
            Token::OptionalLazy => TokenView::OptionalLazy,
            Token::LogicOr => TokenView::LogicOr,
            Token::LineAssertionStart => TokenView::LineAssertionStart,
            Token::LineAssertionEnd => TokenView::LineAssertionEnd,
            Token::Dot => TokenView::Dot,
            Token::Char(c) => TokenView::Char(*c),
            Token::CharRange(a, b) => TokenView::CharRange(*a, *b),
            Token::PresetCharSet(c) => TokenView::PresetCharSet(*c),
            Token::BoundaryAssertion(b) => TokenView::BoundaryAssertion(*b),
            Token::Repetition(r, lazy) => TokenView::Repetition(*r, *lazy),
            Token::GroupStart => TokenView::GroupStart,
            Token::NonCaptureGroupStart => TokenView::NonCaptureGroupStart,
            Token::LookAheadGroupStart => TokenView::LookAheadGroupStart,
            Token::LookAheadNegativeGroupStart => TokenView::LookAheadNegativeGroupStart,
            Token::NamedCaptureGroupStart(name) => TokenView::NamedCaptureGroupStart(name@),
            Token::LookBehindGroupStart => TokenView::LookBehindGroupStart,
            Token::LookBehindNegativeGroupStart => TokenView::LookBehindNegativeGroupStart,
            Token::GroupEnd => TokenView::GroupEnd,
            Token::BackReferenceNumber(n) => TokenView::BackReferenceNumber(*n),
            Token::BackReferenceName(name) => TokenView::BackReferenceName(name@),
        }
    }
}

impl View for TokenWithRange {
    type V = (TokenView, Range);

    open spec fn view(&self) -> (TokenView, Range) {
        (self.token@, self.range)
    }
}

/// A token with the span of source text that it was read from.
#[derive(Debug, PartialEq, Clone)]
pub struct TokenWithRange {
    pub token: Token,
    pub range: Range,
}

impl TokenWithRange {
    pub fn new(token: Token, range: Range) -> (token_with_range: Self)
        ensures
            token_with_range == (TokenWithRange { token, range }),
    {
        Self { token, range }
    }
}

} // verus!
