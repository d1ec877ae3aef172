use vstd::prelude::*;

use crate::ast::{
    ArgumentView, BackReference, CharRange, CharSet, CharSetElement, CharSetElementView,
    CharSetView, Expression, ExpressionView, FunctionArgument, FunctionCall, FunctionName, Literal,
    LiteralView, PresetCharSetName, Program, BackReferenceView,
};
use crate::ast::{
    lemma_arguments_view_push,
    lemma_expressions_view_drop_last, lemma_expressions_view_index, lemma_expressions_view_push,
    lemma_elements_view_push, seq_arguments_view, seq_elements_view, seq_expressions_view,
};
use crate::compiler::quantified;
use crate::text::{push_char, string_of};
use crate::error::{AnreError, ErrorView};
use crate::range::Range;
use crate::traditional::token::{Repetition, Token, TokenView, TokenWithRange};

verus! {

/// What a parse step gives: a value and the index of the next token, or an
/// error.
pub type RegexParsed<T> = Result<(T, int), ErrorView>;

/// The error for the token at `p`, or for the end of the tokens.
pub open spec fn error_at(toks: Seq<(TokenView, Range)>, p: int, message: Seq<char>) -> ErrorView {
    if 0 <= p < toks.len() {
        ErrorView::MessageWithRange(message, toks[p].1)
    } else {
        ErrorView::UnexpectedEndOfDocument(message)
    }
}

/// The preset class of a letter: `d`, `w`, `s`, and their capitals for the
/// negated classes.
pub open spec fn preset_of(c: char) -> PresetCharSetName {
    if c == 'd' {
        PresetCharSetName::CharDigit
    } else if c == 'D' {
        PresetCharSetName::CharNotDigit
    } else if c == 'w' {
        PresetCharSetName::CharWord
    } else if c == 'W' {
        PresetCharSetName::CharNotWord
    } else if c == 's' {
        PresetCharSetName::CharSpace
    } else {
        PresetCharSetName::CharNotSpace
    }
}

/// The token at `p` ends a sequence: the end, `)` or `|`.
pub open spec fn ends_sequence(toks: Seq<(TokenView, Range)>, p: int) -> bool {
    p >= toks.len() || toks[p].0 is GroupEnd || toks[p].0 is LogicOr
}

/// An item appended to a sequence: a character after a character or a
/// string of them joins it into a string.
pub open spec fn append_item(items: Seq<ExpressionView>, item: ExpressionView) -> Seq<ExpressionView> {
    match item {
        ExpressionView::Literal(LiteralView::Char(c)) => if items.len() > 0 {
            match items.last() {
                ExpressionView::Literal(LiteralView::Char(d)) => items.drop_last().push(
                    ExpressionView::Literal(LiteralView::String(seq![d, c])),
                ),
                ExpressionView::Literal(LiteralView::String(s)) => items.drop_last().push(
                    ExpressionView::Literal(LiteralView::String(s.push(c))),
                ),
                _ => items.push(item),
            }
        } else {
            items.push(item)
        },
        _ => items.push(item),
    }
}

/// The items of a sequence as one expression: an empty group, the item
/// itself, or a group of them.
pub open spec fn sequence_of(items: Seq<ExpressionView>) -> ExpressionView {
    if items.len() == 1 {
        items[0]
    } else {
        ExpressionView::Group(items)
    }
}

/// A call of a function on two expressions.
pub open spec fn binary_call(name: FunctionName, first: ExpressionView, second: ExpressionView) -> ExpressionView {
    ExpressionView::FunctionCall(
        name,
        seq![ArgumentView::Expression(first), ArgumentView::Expression(second)],
    )
}

/// The quantifier after an item, if there is one.
pub open spec fn spec_quantifier(
    toks: Seq<(TokenView, Range)>,
    p: int,
    item: ExpressionView,
) -> (ExpressionView, int) {
    if 0 <= p < toks.len() {
        match toks[p].0 {
            TokenView::ZeroOrMore => (quantified(FunctionName::ZeroOrMore, item, seq![]), p + 1),
            TokenView::ZeroOrMoreLazy => (
                quantified(FunctionName::ZeroOrMoreLazy, item, seq![]),
                p + 1,
            ),
            TokenView::OneOrMore => (quantified(FunctionName::OneOrMore, item, seq![]), p + 1),
            TokenView::OneOrMoreLazy => (
                quantified(FunctionName::OneOrMoreLazy, item, seq![]),
                p + 1,
            ),
            TokenView::Optional => (quantified(FunctionName::Optional, item, seq![]), p + 1),
            TokenView::OptionalLazy => (quantified(FunctionName::OptionalLazy, item, seq![]), p + 1),
            TokenView::Repetition(Repetition::Repeat(n), _) => (
                quantified(FunctionName::Repeat, item, seq![n]),
                p + 1,
            ),
            TokenView::Repetition(Repetition::RepeatFrom(n), lazy) => (
                quantified(
                    if lazy {
                        FunctionName::RepeatFromLazy
                    } else {
                        FunctionName::RepeatFrom
                    },
                    item,
                    seq![n],
                ),
                p + 1,
            ),
            TokenView::Repetition(Repetition::RepeatRange(m, n), lazy) => (
                quantified(
                    if lazy {
                        FunctionName::RepeatRangeLazy
                    } else {
                        FunctionName::RepeatRange
                    },
                    item,
                    seq![m, n],
                ),
                p + 1,
            ),
            _ => (item, p),
        }
    } else {
        (item, p)
    }
}

/// The elements of a charset from `p` up to its `]`, after `elements`.
pub open spec fn spec_set_elements(
    toks: Seq<(TokenView, Range)>,
    p: int,
    elements: Seq<CharSetElementView>,
) -> RegexParsed<Seq<CharSetElementView>>
    decreases toks.len() - p,
{
    if p < 0 || p >= toks.len() {
        Err(ErrorView::UnexpectedEndOfDocument("Incomplete character set."@))
    } else {
        match toks[p].0 {
            TokenView::CharSetEnd => Ok((elements, p + 1)),
            TokenView::Char(c) => spec_set_elements(
                toks,
                p + 1,
                elements.push(CharSetElementView::Char(c)),
            ),
            TokenView::CharRange(a, b) => spec_set_elements(
                toks,
                p + 1,
                elements.push(CharSetElementView::CharRange(a, b)),
            ),
            TokenView::PresetCharSet(c) => spec_set_elements(
                toks,
                p + 1,
                elements.push(CharSetElementView::PresetCharSet(preset_of(c))),
            ),
            _ => Err(error_at(toks, p, "Unexpected token in character set."@)),
        }
    }
}

/// One atom at `p`: a character, a class, a charset, an assertion, a group
/// or a back-reference.
pub open spec fn spec_atom(toks: Seq<(TokenView, Range)>, p: int) -> RegexParsed<ExpressionView>
    decreases toks.len() - p, 0nat,
{
    if p < 0 || p >= toks.len() {
        Err(error_at(toks, p, "Expect an expression."@))
    } else {
        match toks[p].0 {
            TokenView::Char(c) => Ok((ExpressionView::Literal(LiteralView::Char(c)), p + 1)),
            TokenView::Dot => Ok((ExpressionView::Literal(LiteralView::AnyChar), p + 1)),
            TokenView::PresetCharSet(c) => Ok(
                (ExpressionView::Literal(LiteralView::PresetCharSet(preset_of(c))), p + 1),
            ),
            TokenView::CharSetStart => match spec_set_elements(toks, p + 1, seq![]) {
                Ok((elements, next)) => Ok(
                    (
                        ExpressionView::Literal(
                            LiteralView::CharSet(CharSetView { negative: false, elements }),
                        ),
                        next,
                    ),
                ),
                Err(e) => Err(e),
            },
            TokenView::CharSetStartNegative => match spec_set_elements(toks, p + 1, seq![]) {
                Ok((elements, next)) => Ok(
                    (
                        ExpressionView::Literal(
                            LiteralView::CharSet(CharSetView { negative: true, elements }),
                        ),
                        next,
                    ),
                ),
                Err(e) => Err(e),
            },
            TokenView::LineAssertionStart => Ok(
                (ExpressionView::FunctionCall(FunctionName::IsStart, seq![]), p + 1),
            ),
            TokenView::LineAssertionEnd => Ok(
                (ExpressionView::FunctionCall(FunctionName::IsEnd, seq![]), p + 1),
            ),
            TokenView::BoundaryAssertion(negative) => Ok(
                (
                    ExpressionView::FunctionCall(
                        if negative {
                            FunctionName::IsNotBound
                        } else {
                            FunctionName::IsBound
                        },
                        seq![],
                    ),
                    p + 1,
                ),
            ),
            TokenView::GroupStart => match spec_group_body(toks, p + 1) {
                Ok((inner, next)) => Ok((ExpressionView::IndexCapture(Box::new(inner)), next)),
                Err(e) => Err(e),
            },
            TokenView::NonCaptureGroupStart => spec_group_body(toks, p + 1),
            TokenView::NamedCaptureGroupStart(name) => match spec_group_body(toks, p + 1) {
                Ok((inner, next)) => Ok((ExpressionView::NameCapture(name, Box::new(inner)), next)),
                Err(e) => Err(e),
            },
            TokenView::BackReferenceNumber(n) => Ok(
                (ExpressionView::BackReference(BackReferenceView::Index(n)), p + 1),
            ),
            TokenView::BackReferenceName(name) => Ok(
                (ExpressionView::BackReference(BackReferenceView::Name(name)), p + 1),
            ),
            _ => Err(error_at(toks, p, "Unexpected token."@)),
        }
    }
}

/// An atom and the quantifier after it.
pub open spec fn spec_quantified_atom(toks: Seq<(TokenView, Range)>, p: int) -> RegexParsed<
    ExpressionView,
>
    decreases toks.len() - p, 1nat,
{
    match spec_atom(toks, p) {
        Ok((item, next)) => if next <= p {
            Err(ErrorView::Message(seq![]))
        } else {
            Ok(spec_quantifier(toks, next, item))
        },
        Err(e) => Err(e),
    }
}

/// The items of a sequence from `p` on, after `items`; `pending` holds a
/// look-behind assertion (negative or not) waiting for the item it applies
/// to.
pub open spec fn spec_items(
    toks: Seq<(TokenView, Range)>,
    p: int,
    items: Seq<ExpressionView>,
    pending: Option<(bool, ExpressionView)>,
) -> RegexParsed<ExpressionView>
    decreases toks.len() - p, 2nat,
{
    if p < 0 || ends_sequence(toks, p) {
        if pending is Some {
            Err(error_at(toks, p, "Expect an expression after a look-behind assertion."@))
        } else {
            Ok((sequence_of(items), p))
        }
    } else {
        match toks[p].0 {
            TokenView::LookBehindGroupStart | TokenView::LookBehindNegativeGroupStart => {
                if pending is Some {
                    Err(error_at(toks, p, "Expect an expression after a look-behind assertion."@))
                } else {
                    match spec_group_body(toks, p + 1) {
                        Ok((inner, next)) => if next <= p || next > toks.len() {
                            Err(ErrorView::Message(seq![]))
                        } else {
                            spec_items(
                                toks,
                                next,
                                items,
                                Some((toks[p].0 is LookBehindNegativeGroupStart, inner)),
                            )
                        },
                        Err(e) => Err(e),
                    }
                }
            },
            TokenView::LookAheadGroupStart | TokenView::LookAheadNegativeGroupStart => {
                if items.len() == 0 {
                    Err(error_at(toks, p, "Expect an expression before a look-ahead assertion."@))
                } else {
                    match spec_group_body(toks, p + 1) {
                        Ok((inner, next)) => if next <= p || next > toks.len() {
                            Err(ErrorView::Message(seq![]))
                        } else {
                            spec_items(
                                toks,
                                next,
                                items.drop_last().push(
                                    binary_call(
                                        if toks[p].0 is LookAheadNegativeGroupStart {
                                            FunctionName::IsNotBefore
                                        } else {
                                            FunctionName::IsBefore
                                        },
                                        items.last(),
                                        inner,
                                    ),
                                ),
                                pending,
                            )
                        },
                        Err(e) => Err(e),
                    }
                }
            },
            _ => match spec_quantified_atom(toks, p) {
                Ok((item, next)) => if next <= p || next > toks.len() {
                    Err(ErrorView::Message(seq![]))
                } else {
                    let applied = match pending {
                        Some((negative, previous)) => binary_call(
                            if negative {
                                FunctionName::IsNotAfter
                            } else {
                                FunctionName::IsAfter
                            },
                            item,
                            previous,
                        ),
                        None => item,
                    };
                    spec_items(toks, next, append_item(items, applied), None)
                },
                Err(e) => Err(e),
            },
        }
    }
}

/// A sequence of items from `p` up to the end, `)` or `|`.
pub open spec fn spec_sequence(toks: Seq<(TokenView, Range)>, p: int) -> RegexParsed<ExpressionView>
    decreases toks.len() - p, 3nat,
{
    spec_items(toks, p, seq![], None)
}

/// Sequences separated by `|`, right-associative.
pub open spec fn spec_alternation(toks: Seq<(TokenView, Range)>, p: int) -> RegexParsed<
    ExpressionView,
>
    decreases toks.len() - p, 4nat,
{
    match spec_sequence(toks, p) {
        Ok((left, next)) => if next < p {
            Err(ErrorView::Message(seq![]))
        } else if 0 <= next < toks.len() && toks[next].0 is LogicOr {
            match spec_alternation(toks, next + 1) {
                Ok((right, end)) => Ok((ExpressionView::Or(Box::new(left), Box::new(right)), end)),
                Err(e) => Err(e),
            }
        } else {
            Ok((left, next))
        },
        Err(e) => Err(e),
    }
}

/// The inside of a group from `p`, and the index after its `)`.
pub open spec fn spec_group_body(toks: Seq<(TokenView, Range)>, p: int) -> RegexParsed<ExpressionView>
    decreases toks.len() - p, 5nat,
{
    match spec_alternation(toks, p) {
        Ok((inner, next)) => if 0 <= next < toks.len() && toks[next].0 is GroupEnd {
            Ok((inner, next + 1))
        } else {
            Err(error_at(toks, next, "Expect a closing parenthesis."@))
        },
        Err(e) => Err(e),
    }
}

/// The program of the tokens of a traditional regular expression.
pub open spec fn spec_parse_regex(toks: Seq<(TokenView, Range)>) -> Result<ExpressionView, ErrorView> {
    match spec_alternation(toks, 0) {
        Ok((exp, next)) => if next < toks.len() {
            Err(error_at(toks, next, "Unexpected closing parenthesis."@))
        } else {
            Ok(exp)
        },
        Err(e) => Err(e),
    }
}


/// A call of a quantifier on `item` with the given numbers.
fn make_quantified(name: FunctionName, item: Expression, numbers: Vec<usize>) -> (exp: Expression)
    ensures
        exp@ == quantified(name, item@, numbers@),
{
    let ghost item_view = item@;
    let mut args: Vec<FunctionArgument> = Vec::new();
    proof {
        lemma_arguments_view_push(args@, FunctionArgument::Expression(item));
    }
    args.push(FunctionArgument::Expression(item));
    proof {
        assert(seq_arguments_view(seq![]) =~= seq![]);
    }
    let mut i: usize = 0;
    while i < numbers.len()
        invariant
            i <= numbers@.len(),
            seq_arguments_view(args@) == seq![ArgumentView::Expression(item_view)]
                + numbers@.subrange(0, i as int).map_values(|n: usize| ArgumentView::Number(n)),
        decreases numbers@.len() - i,
    {
        proof {
            lemma_arguments_view_push(args@, FunctionArgument::Number(numbers@[i as int]));
        }
        args.push(FunctionArgument::Number(numbers[i]));
        proof {
            assert(numbers@.subrange(0, i + 1).map_values(|n: usize| ArgumentView::Number(n))
                =~= numbers@.subrange(0, i as int).map_values(|n: usize| ArgumentView::Number(n)).push(
                ArgumentView::Number(numbers@[i as int]),
            ));
            assert(seq_arguments_view(args@) =~= seq![ArgumentView::Expression(item_view)]
                + numbers@.subrange(0, i + 1).map_values(|n: usize| ArgumentView::Number(n)));
        }
        i = i + 1;
    }
    proof {
        assert(numbers@.subrange(0, numbers@.len() as int) =~= numbers@);
    }
    Expression::FunctionCall(Box::new(FunctionCall { name, args }))
}

fn one_number(n: usize) -> (numbers: Vec<usize>)
    ensures
        numbers@ == seq![n],
{
    let mut numbers = Vec::new();
    numbers.push(n);
    assert(numbers@ =~= seq![n]);
    numbers
}

fn two_numbers(m: usize, n: usize) -> (numbers: Vec<usize>)
    ensures
        numbers@ == seq![m, n],
{
    let mut numbers = Vec::new();
    numbers.push(m);
    numbers.push(n);
    assert(numbers@ =~= seq![m, n]);
    numbers
}

/// A call of a function on two expressions.
fn make_binary(name: FunctionName, first: Expression, second: Expression) -> (exp: Expression)
    ensures
        exp@ == binary_call(name, first@, second@),
{
    let mut args: Vec<FunctionArgument> = Vec::new();
    proof {
        lemma_arguments_view_push(args@, FunctionArgument::Expression(first));
    }
    args.push(FunctionArgument::Expression(first));
    proof {
        lemma_arguments_view_push(args@, FunctionArgument::Expression(second));
    }
    args.push(FunctionArgument::Expression(second));
    proof {
        assert(seq_arguments_view(seq![]) =~= seq![]);
        assert(seq_arguments_view(args@) =~= seq![
            ArgumentView::Expression(first@),
            ArgumentView::Expression(second@),
        ]);
    }
    Expression::FunctionCall(Box::new(FunctionCall { name, args }))
}

/// A call of a function without arguments.
fn make_assertion(name: FunctionName) -> (exp: Expression)
    ensures
        exp@ == ExpressionView::FunctionCall(name, seq![]),
{
    let args: Vec<FunctionArgument> = Vec::new();
    proof {
        assert(seq_arguments_view(args@) =~= seq![]);
    }
    Expression::FunctionCall(Box::new(FunctionCall { name, args }))
}

/// Appends an item to a sequence, joining characters into strings.
fn push_item(items: &mut Vec<Expression>, item: Expression)
    ensures
        seq_expressions_view(final(items)@) == append_item(seq_expressions_view(old(items)@), item@),
{
    let ghost before = seq_expressions_view(items@);
    let ghost item_view = item@;
    match item {
        Expression::Literal(Literal::Char(c)) => {
            if items.len() > 0 {
                proof {
                    lemma_expressions_view_drop_last(items@);
                }
                let last = items.pop().unwrap();
                match last {
                    Expression::Literal(Literal::Char(d)) => {
                        let mut text = String::new();
                        push_char(&mut text, d);
                        push_char(&mut text, c);
                        let merged = Expression::Literal(Literal::String(text));
                        proof {
                            lemma_expressions_view_push(items@, merged);
                            assert(text@ =~= seq![d, c]);
                        }
                        items.push(merged);
                    },
                    Expression::Literal(Literal::String(text)) => {
                        let mut text = text;
                        push_char(&mut text, c);
                        let merged = Expression::Literal(Literal::String(text));
                        proof {
                            lemma_expressions_view_push(items@, merged);
                        }
                        items.push(merged);
                    },
                    other => {
                        proof {
                            lemma_expressions_view_push(items@, other);
                        }
                        items.push(other);
                        proof {
                            assert(items@ =~= old(items)@);
                            lemma_expressions_view_push(items@, Expression::Literal(Literal::Char(c)));
                        }
                        items.push(Expression::Literal(Literal::Char(c)));
                    },
                }
            } else {
                proof {
                    lemma_expressions_view_push(items@, Expression::Literal(Literal::Char(c)));
                }
                items.push(Expression::Literal(Literal::Char(c)));
            }
        },
        other => {
            proof {
                lemma_expressions_view_push(items@, other);
            }
            items.push(other);
        },
    }
}

/// The items of a sequence as one expression.
fn into_sequence(items: Vec<Expression>) -> (exp: Expression)
    ensures
        exp@ == sequence_of(seq_expressions_view(items@)),
{
    proof {
        lemma_expressions_view_index(items@, items@.len() as int);
    }
    if items.len() == 1 {
        let mut items = items;
        items.pop().unwrap()
    } else {
        Expression::Group(items)
    }
}


/// A pending look-behind assertion as a view.
pub open spec fn pending_view(pending: Option<(bool, Expression)>) -> Option<(bool, ExpressionView)> {
    match pending {
        Some((negative, exp)) => Some((negative, exp@)),
        None => None,
    }
}

/// A parser of the tokens of a traditional regular expression.
pub struct RegexParser {
    tokens: Vec<TokenWithRange>,
}

impl RegexParser {
    /// The tokens as views.
    pub closed spec fn toks(&self) -> Seq<(TokenView, Range)> {
        crate::traditional::lexer::regex_tokens_view(self.tokens@)
    }

    /// A parser of the given tokens.
    pub fn new(tokens: Vec<TokenWithRange>) -> (parser: Self)
        ensures
            parser.toks() == crate::traditional::lexer::regex_tokens_view(tokens@),
    {
        RegexParser { tokens }
    }

    fn error_at(&self, p: usize, message: &str) -> (e: AnreError)
        ensures
            e@ == error_at(self.toks(), p as int, message@),
    {
        if p < self.tokens.len() {
            AnreError::MessageWithRange(string_of(message), self.tokens[p].range)
        } else {
            AnreError::UnexpectedEndOfDocument(string_of(message))
        }
    }

    fn ends_sequence_at(&self, p: usize) -> (ends: bool)
        ensures
            ends == ends_sequence(self.toks(), p as int),
    {
        if p >= self.tokens.len() {
            true
        } else {
            match &self.tokens[p].token {
                Token::GroupEnd | Token::LogicOr => true,
                _ => false,
            }
        }
    }

    fn parse_set_elements(&self, p: usize) -> (result: Result<(Vec<CharSetElement>, usize), AnreError>)
        requires
            self.toks().len() < usize::MAX,
            p <= self.toks().len(),
        ensures
            match spec_set_elements(self.toks(), p as int, seq![]) {
                Ok((elements, next)) => result is Ok && seq_elements_view(result->Ok_0.0@)
                    == elements && result->Ok_0.1 == next,
                Err(e) => result is Err && result->Err_0@ == e,
            },
            result is Ok ==> p < result->Ok_0.1 <= self.toks().len(),
    {
        let mut elements: Vec<CharSetElement> = Vec::new();
        let mut q = p;
        proof {
            assert(seq_elements_view(elements@) =~= seq![]);
        }
        loop
            invariant
                p <= q <= self.toks().len(),
                self.toks().len() == self.tokens@.len(),
                spec_set_elements(self.toks(), p as int, seq![]) == spec_set_elements(
                    self.toks(),
                    q as int,
                    seq_elements_view(elements@),
                ),
            decreases self.toks().len() - q,
        {
            if q >= self.tokens.len() {
                return Err(
                    AnreError::UnexpectedEndOfDocument(string_of("Incomplete character set.")),
                );
            }
            let element = match &self.tokens[q].token {
                Token::CharSetEnd => {
                    return Ok((elements, q + 1));
                },
                Token::Char(c) => CharSetElement::Char(*c),
                Token::CharRange(a, b) => CharSetElement::CharRange(
                    CharRange { start: *a, end_inclusive: *b },
                ),
                Token::PresetCharSet(c) => CharSetElement::PresetCharSet(preset_name_of(*c)),
                _ => {
                    return Err(self.error_at(q, "Unexpected token in character set."));
                },
            };
            proof {
                lemma_elements_view_push(elements@, element);
            }
            elements.push(element);
            q = q + 1;
        }
    }

    fn parse_atom(&self, p: usize) -> (result: Result<(Expression, usize), AnreError>)
        requires
            self.toks().len() < usize::MAX,
            p < self.toks().len(),
        ensures
            match spec_atom(self.toks(), p as int) {
                Ok((exp, next)) => result is Ok && result->Ok_0.0@ == exp && result->Ok_0.1 == next,
                Err(e) => result is Err && result->Err_0@ == e,
            },
            result is Ok ==> p < result->Ok_0.1 <= self.toks().len(),
        decreases self.toks().len() - p, 0nat,
    {
        match &self.tokens[p].token {
            Token::Char(c) => Ok((Expression::Literal(Literal::Char(*c)), p + 1)),
            Token::Dot => Ok((Expression::Literal(Literal::AnyChar), p + 1)),
            Token::PresetCharSet(c) => Ok(
                (Expression::Literal(Literal::PresetCharSet(preset_name_of(*c))), p + 1),
            ),
            Token::CharSetStart => match self.parse_set_elements(p + 1) {
                Ok((elements, next)) => Ok(
                    (Expression::Literal(Literal::CharSet(CharSet { negative: false, elements })), next),
                ),
                Err(e) => Err(e),
            },
            Token::CharSetStartNegative => match self.parse_set_elements(p + 1) {
                Ok((elements, next)) => Ok(
                    (Expression::Literal(Literal::CharSet(CharSet { negative: true, elements })), next),
                ),
                Err(e) => Err(e),
            },
            Token::LineAssertionStart => Ok((make_assertion(FunctionName::IsStart), p + 1)),
            Token::LineAssertionEnd => Ok((make_assertion(FunctionName::IsEnd), p + 1)),
            Token::BoundaryAssertion(negative) => {
                let name = if *negative {
                    FunctionName::IsNotBound
                } else {
                    FunctionName::IsBound
                };
                Ok((make_assertion(name), p + 1))
            },
            Token::GroupStart => match self.parse_group_body(p + 1) {
                Ok((inner, next)) => Ok((Expression::IndexCapture(Box::new(inner)), next)),
                Err(e) => Err(e),
            },
            Token::NonCaptureGroupStart => self.parse_group_body(p + 1),
            Token::NamedCaptureGroupStart(name) => match self.parse_group_body(p + 1) {
                Ok((inner, next)) => Ok(
                    (Expression::NameCapture(name.clone(), Box::new(inner)), next),
                ),
                Err(e) => Err(e),
            },
            Token::BackReferenceNumber(n) => Ok(
                (Expression::BackReference(BackReference::Index(*n)), p + 1),
            ),
            Token::BackReferenceName(name) => Ok(
                (Expression::BackReference(BackReference::Name(name.clone())), p + 1),
            ),
            _ => Err(self.error_at(p, "Unexpected token.")),
        }
    }

    fn parse_quantifier(&self, p: usize, item: Expression) -> (result: (Expression, usize))
        requires
            self.toks().len() < usize::MAX,
            p <= self.toks().len(),
        ensures
            (result.0@, result.1 as int) == spec_quantifier(self.toks(), p as int, item@),
            p <= result.1 <= self.toks().len(),
    {
        if p >= self.tokens.len() {
            return (item, p);
        }
        match &self.tokens[p].token {
            Token::ZeroOrMore => (make_quantified(FunctionName::ZeroOrMore, item, Vec::new()), p + 1),
            Token::ZeroOrMoreLazy => (
                make_quantified(FunctionName::ZeroOrMoreLazy, item, Vec::new()),
                p + 1,
            ),
            Token::OneOrMore => (make_quantified(FunctionName::OneOrMore, item, Vec::new()), p + 1),
            Token::OneOrMoreLazy => (make_quantified(FunctionName::OneOrMoreLazy, item, Vec::new()), p + 1),
            Token::Optional => (make_quantified(FunctionName::Optional, item, Vec::new()), p + 1),
            Token::OptionalLazy => (make_quantified(FunctionName::OptionalLazy, item, Vec::new()), p + 1),
            Token::Repetition(Repetition::Repeat(n), _) => (
                make_quantified(FunctionName::Repeat, item, one_number(*n)),
                p + 1,
            ),
            Token::Repetition(Repetition::RepeatFrom(n), lazy) => {
                let name = if *lazy {
                    FunctionName::RepeatFromLazy
                } else {
                    FunctionName::RepeatFrom
                };
                (make_quantified(name, item, one_number(*n)), p + 1)
            },
            Token::Repetition(Repetition::RepeatRange(m, n), lazy) => {
                let name = if *lazy {
                    FunctionName::RepeatRangeLazy
                } else {
                    FunctionName::RepeatRange
                };
                (make_quantified(name, item, two_numbers(*m, *n)), p + 1)
            },
            _ => (item, p),
        }
    }

    fn parse_quantified_atom(&self, p: usize) -> (result: Result<(Expression, usize), AnreError>)
        requires
            self.toks().len() < usize::MAX,
            p < self.toks().len(),
        ensures
            match spec_quantified_atom(self.toks(), p as int) {
                Ok((exp, next)) => result is Ok && result->Ok_0.0@ == exp && result->Ok_0.1 == next,
                Err(e) => result is Err && result->Err_0@ == e,
            },
            result is Ok ==> p < result->Ok_0.1 <= self.toks().len(),
        decreases self.toks().len() - p, 1nat,
    {
        match self.parse_atom(p) {
            Ok((item, next)) => Ok(self.parse_quantifier(next, item)),
            Err(e) => Err(e),
        }
    }
}

/// The preset class of a letter.
fn preset_name_of(c: char) -> (name: PresetCharSetName)
    ensures
        name == preset_of(c),
{
    if c == 'd' {
        PresetCharSetName::CharDigit
    } else if c == 'D' {
        PresetCharSetName::CharNotDigit
    } else if c == 'w' {
        PresetCharSetName::CharWord
    } else if c == 'W' {
        PresetCharSetName::CharNotWord
    } else if c == 's' {
        PresetCharSetName::CharSpace
    } else {
        PresetCharSetName::CharNotSpace
    }
}


impl RegexParser {
    fn parse_sequence(&self, p: usize) -> (result: Result<(Expression, usize), AnreError>)
        requires
            self.toks().len() < usize::MAX,
            p <= self.toks().len(),
        ensures
            match spec_sequence(self.toks(), p as int) {
                Ok((exp, next)) => result is Ok && result->Ok_0.0@ == exp && result->Ok_0.1 == next,
                Err(e) => result is Err && result->Err_0@ == e,
            },
            result is Ok ==> p <= result->Ok_0.1 <= self.toks().len(),
        decreases self.toks().len() - p, 3nat,
    {
        let mut items: Vec<Expression> = Vec::new();
        let mut pending: Option<(bool, Expression)> = None;
        let mut q = p;
        proof {
            assert(seq_expressions_view(items@) =~= seq![]);
        }
        loop
            invariant
                p <= q <= self.toks().len(),
                self.toks().len() < usize::MAX,
                self.toks().len() == self.tokens@.len(),
                spec_sequence(self.toks(), p as int) == spec_items(
                    self.toks(),
                    q as int,
                    seq_expressions_view(items@),
                    pending_view(pending),
                ),
            decreases self.toks().len() - q,
        {
            if self.ends_sequence_at(q) {
                if pending.is_some() {
                    return Err(
                        self.error_at(q, "Expect an expression after a look-behind assertion."),
                    );
                }
                return Ok((into_sequence(items), q));
            }
            let kind: u8 = match &self.tokens[q].token {
                Token::LookBehindGroupStart => 1,
                Token::LookBehindNegativeGroupStart => 2,
                Token::LookAheadGroupStart => 3,
                Token::LookAheadNegativeGroupStart => 4,
                _ => 0,
            };
            if kind == 1 || kind == 2 {
                if pending.is_some() {
                    return Err(
                        self.error_at(q, "Expect an expression after a look-behind assertion."),
                    );
                }
                let (inner, next) = match self.parse_group_body(q + 1) {
                    Ok(parsed) => parsed,
                    Err(e) => {
                        return Err(e);
                    },
                };
                pending = Some((kind == 2, inner));
                q = next;
            } else if kind == 3 || kind == 4 {
                if items.len() == 0 {
                    return Err(
                        self.error_at(q, "Expect an expression before a look-ahead assertion."),
                    );
                }
                let (inner, next) = match self.parse_group_body(q + 1) {
                    Ok(parsed) => parsed,
                    Err(e) => {
                        return Err(e);
                    },
                };
                let name = if kind == 4 {
                    FunctionName::IsNotBefore
                } else {
                    FunctionName::IsBefore
                };
                proof {
                    lemma_expressions_view_drop_last(items@);
                }
                let last = items.pop().unwrap();
                let call = make_binary(name, last, inner);
                proof {
                    lemma_expressions_view_push(items@, call);
                }
                items.push(call);
                q = next;
            } else {
                let (item, next) = match self.parse_quantified_atom(q) {
                    Ok(parsed) => parsed,
                    Err(e) => {
                        return Err(e);
                    },
                };
                let applied = match pending {
                    Some((negative, previous)) => {
                        let name = if negative {
                            FunctionName::IsNotAfter
                        } else {
                            FunctionName::IsAfter
                        };
                        make_binary(name, item, previous)
                    },
                    None => item,
                };
                pending = None;
                push_item(&mut items, applied);
                q = next;
            }
        }
    }

    fn parse_alternation(&self, p: usize) -> (result: Result<(Expression, usize), AnreError>)
        requires
            self.toks().len() < usize::MAX,
            p <= self.toks().len(),
        ensures
            match spec_alternation(self.toks(), p as int) {
                Ok((exp, next)) => result is Ok && result->Ok_0.0@ == exp && result->Ok_0.1 == next,
                Err(e) => result is Err && result->Err_0@ == e,
            },
            result is Ok ==> p <= result->Ok_0.1 <= self.toks().len(),
        decreases self.toks().len() - p, 4nat,
    {
        let (left, next) = match self.parse_sequence(p) {
            Ok(parsed) => parsed,
            Err(e) => {
                return Err(e);
            },
        };
        let is_or = next < self.tokens.len() && match &self.tokens[next].token {
            Token::LogicOr => true,
            _ => false,
        };
        if is_or {
            match self.parse_alternation(next + 1) {
                Ok((right, end)) => Ok((Expression::Or(Box::new(left), Box::new(right)), end)),
                Err(e) => Err(e),
            }
        } else {
            Ok((left, next))
        }
    }

    fn parse_group_body(&self, p: usize) -> (result: Result<(Expression, usize), AnreError>)
        requires
            self.toks().len() < usize::MAX,
            p <= self.toks().len(),
        ensures
            match spec_group_body(self.toks(), p as int) {
                Ok((exp, next)) => result is Ok && result->Ok_0.0@ == exp && result->Ok_0.1 == next,
                Err(e) => result is Err && result->Err_0@ == e,
            },
            result is Ok ==> p < result->Ok_0.1 <= self.toks().len(),
        decreases self.toks().len() - p, 5nat,
    {
        let (inner, next) = match self.parse_alternation(p) {
            Ok(parsed) => parsed,
            Err(e) => {
                return Err(e);
            },
        };
        let closed = next < self.tokens.len() && match &self.tokens[next].token {
            Token::GroupEnd => true,
            _ => false,
        };
        if closed {
            Ok((inner, next + 1))
        } else {
            Err(self.error_at(next, "Expect a closing parenthesis."))
        }
    }

    /// Parses the tokens into a program.
    pub fn parse_program(&self) -> (result: Result<Program, AnreError>)
        requires
            self.toks().len() < usize::MAX,
        ensures
            match spec_parse_regex(self.toks()) {
                Ok(exp) => result is Ok && result->Ok_0@ == exp,
                Err(e) => result is Err && result->Err_0@ == e,
            },
    {
        let (expression, next) = match self.parse_alternation(0) {
            Ok(parsed) => parsed,
            Err(e) => {
                return Err(e);
            },
        };
        if next < self.tokens.len() {
            return Err(self.error_at(next, "Unexpected closing parenthesis."));
        }
        Ok(Program { expression })
    }
}


/// The program of a traditional regular expression: its tokens parsed.
pub open spec fn spec_parse_regex_text(text: Seq<char>) -> Result<ExpressionView, ErrorView> {
    match crate::traditional::lexer::spec_regex_lex(text) {
        Ok(toks) => spec_parse_regex(toks),
        Err(e) => Err(e),
    }
}

proof fn lemma_lex_from_count(chars: Seq<char>, i: int, in_set: bool)
    requires
        0 <= i <= chars.len(),
    ensures
        crate::traditional::lexer::spec_regex_lex_from(chars, i, in_set) matches Ok(toks)
            ==> toks.len() <= chars.len() - i,
    decreases chars.len() - i,
{
    if i < chars.len() {
        match crate::traditional::lexer::regex_step(chars, i, in_set) {
            crate::traditional::lexer::RegexStep::Emit(_, next, now_in_set) => {
                if i < next <= chars.len() {
                    lemma_lex_from_count(chars, next, now_in_set);
                }
            },
            _ => {},
        }
    }
}

/// Parses a traditional regular expression.
pub fn parse_from_str(s: &str) -> (result: Result<Program, AnreError>)
    requires
        s@.len() < usize::MAX,
    ensures
        match spec_parse_regex_text(s@) {
            Ok(exp) => result is Ok && result->Ok_0@ == exp,
            Err(e) => result is Err && result->Err_0@ == e,
        },
{
    let tokens = match crate::traditional::lexer::lex_regex_from_str(s) {
        Ok(tokens) => tokens,
        Err(e) => {
            return Err(e);
        },
    };
    proof {
        lemma_lex_from_count(s@, 0, false);
    }
    let parser = RegexParser::new(tokens);
    parser.parse_program()
}

} // verus!
