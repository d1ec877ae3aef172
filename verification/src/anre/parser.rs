use vstd::prelude::*;

use crate::anre::lexer::{lex_from_str, spec_lex, tokens_view};
use crate::anre::macro_expander::{expand, is_symbol, same_symbol, spec_expand};
use crate::anre::token::{Token, TokenView, TokenWithRange};
use crate::anre::views::law_parse_depends_on_token_views;
use crate::ast::{
    ArgumentView, BackReference, BackReferenceView, CharRange, CharSet, CharSetElement,
    CharSetElementView, CharSetView, Expression, ExpressionView, FunctionArgument, FunctionCall,
    FunctionName, Literal, LiteralView, PresetCharSetName, Program, lemma_arguments_view_push,
    lemma_elements_view_push, lemma_expressions_view_index, lemma_expressions_view_push,
    seq_arguments_view, seq_elements_view, seq_expressions_view,
};
use crate::error::{AnreError, ErrorView};
use crate::peekable_iter::PeekableIter;
use crate::range::{Range, spec_default_range};
use crate::text::{push_decimal, push_str, string_of, text_is};

verus! {

/// Where a parse stands: the tokens not read yet and the range of the token
/// read last.
pub struct ParseState {
    pub tokens: Seq<TokenWithRange>,
    pub last_range: Range,
}

/// What a parse step gives: a value and the state after it, or an error.
pub type Parsed<T> = Result<(T, ParseState), ErrorView>;

/// A repetition written in braces: `{m}`, `{m..}` or `{m..n}`.
#[derive(Debug, PartialEq, Eq, Clone, Copy)]
pub enum Repetition {
    Repeat(usize),
    RepeatFrom(usize),
    RepeatRange(usize, usize),
}

/// The state after reading one token.
pub open spec fn advance(st: ParseState) -> ParseState {
    if st.tokens.len() == 0 {
        st
    } else {
        ParseState { tokens: st.tokens.drop_first(), last_range: st.tokens[0].range }
    }
}

/// `after` is `before` with tokens read from the front only.
pub open spec fn reads_on(before: ParseState, after: ParseState) -> bool {
    &&& after.tokens.len() <= before.tokens.len()
    &&& forall|i: int|
        0 <= i < after.tokens.len() ==> #[trigger] after.tokens[i] == before.tokens[i
            + before.tokens.len() - after.tokens.len()]
}

/// Reading on is transitive.
proof fn lemma_reads_on_trans(a: ParseState, b: ParseState, c: ParseState)
    requires
        reads_on(a, b),
        reads_on(b, c),
    ensures
        reads_on(a, c),
{
    assert forall|i: int| 0 <= i < c.tokens.len() implies #[trigger] c.tokens[i] == a.tokens[i
        + a.tokens.len() - c.tokens.len()] by {
        assert(c.tokens[i] == b.tokens[i + b.tokens.len() - c.tokens.len()]);
    }
}

/// Reading one token reads on.
proof fn lemma_reads_on_advance(st: ParseState)
    ensures
        reads_on(st, advance(st)),
{
}

/// The token `k` places ahead is `token`.
pub open spec fn peek_is(st: ParseState, k: int, token: Token) -> bool {
    0 <= k < st.tokens.len() && st.tokens[k].token == token
}

/// The preset charset with the given name.
pub open spec fn spec_preset_charset(name: Seq<char>) -> Option<PresetCharSetName> {
    if name == "char_word"@ {
        Some(PresetCharSetName::CharWord)
    } else if name == "char_not_word"@ {
        Some(PresetCharSetName::CharNotWord)
    } else if name == "char_digit"@ {
        Some(PresetCharSetName::CharDigit)
    } else if name == "char_not_digit"@ {
        Some(PresetCharSetName::CharNotDigit)
    } else if name == "char_space"@ {
        Some(PresetCharSetName::CharSpace)
    } else if name == "char_not_space"@ {
        Some(PresetCharSetName::CharNotSpace)
    } else {
        None
    }
}

/// The function with the given name.
pub open spec fn spec_function_name(name: Seq<char>) -> Option<FunctionName> {
    if name == "optional"@ {
        Some(FunctionName::Optional)
    } else if name == "one_or_more"@ {
        Some(FunctionName::OneOrMore)
    } else if name == "zero_or_more"@ {
        Some(FunctionName::ZeroOrMore)
    } else if name == "repeat"@ {
        Some(FunctionName::Repeat)
    } else if name == "repeat_range"@ {
        Some(FunctionName::RepeatRange)
    } else if name == "repeat_from"@ {
        Some(FunctionName::RepeatFrom)
    } else if name == "optional_lazy"@ {
        Some(FunctionName::OptionalLazy)
    } else if name == "one_or_more_lazy"@ {
        Some(FunctionName::OneOrMoreLazy)
    } else if name == "zero_or_more_lazy"@ {
        Some(FunctionName::ZeroOrMoreLazy)
    } else if name == "repeat_range_lazy"@ {
        Some(FunctionName::RepeatRangeLazy)
    } else if name == "repeat_from_lazy"@ {
        Some(FunctionName::RepeatFromLazy)
    } else if name == "is_start"@ {
        Some(FunctionName::IsStart)
    } else if name == "is_end"@ {
        Some(FunctionName::IsEnd)
    } else if name == "is_bound"@ {
        Some(FunctionName::IsBound)
    } else if name == "is_not_bound"@ {
        Some(FunctionName::IsNotBound)
    } else if name == "is_before"@ {
        Some(FunctionName::IsBefore)
    } else if name == "is_after"@ {
        Some(FunctionName::IsAfter)
    } else if name == "is_not_before"@ {
        Some(FunctionName::IsNotBefore)
    } else if name == "is_not_after"@ {
        Some(FunctionName::IsNotAfter)
    } else {
        None
    }
}

/// An error value used where a guard that always holds would fail.
pub open spec fn unreached_error() -> ErrorView {
    ErrorView::Message(seq![])
}

/// Reads an identifier.
pub open spec fn spec_consume_identifier(st: ParseState) -> Parsed<Seq<char>> {
    if st.tokens.len() == 0 {
        Err(ErrorView::UnexpectedEndOfDocument("Expect an identifier."@))
    } else {
        match st.tokens[0].token {
            Token::Identifier(id) => Ok((id@, advance(st))),
            _ => Err(ErrorView::MessageWithPosition("Expect an identifier."@, st.tokens[0].range.start)),
        }
    }
}

/// Reads a number.
pub open spec fn spec_consume_number(st: ParseState) -> Parsed<usize> {
    if st.tokens.len() == 0 {
        Err(ErrorView::UnexpectedEndOfDocument("Expect a number."@))
    } else {
        match st.tokens[0].token {
            Token::Number(n) => Ok((n, advance(st))),
            _ => Err(ErrorView::MessageWithPosition("Expect a number."@, st.tokens[0].range.start)),
        }
    }
}

/// The text of the error for a missing token described by `description`.
pub open spec fn expect_token_message(description: Seq<char>) -> Seq<char> {
    "Expect token: "@ + description + "."@
}

/// Reads the token `expected`, described by `description` in the error.
pub open spec fn spec_consume_token(st: ParseState, expected: Token, description: Seq<char>) -> Parsed<()> {
    if st.tokens.len() == 0 {
        Err(ErrorView::UnexpectedEndOfDocument(expect_token_message(description)))
    } else if st.tokens[0].token == expected {
        Ok(((), advance(st)))
    } else {
        Err(ErrorView::MessageWithRange(expect_token_message(description), st.tokens[0].range))
    }
}

/// The text of the error for a function name that is unknown.
pub open spec fn unsupported_function_message(name: Seq<char>) -> Seq<char> {
    "Unsupported function \""@ + name + "\""@
}

/// The text of the error for a lazy `{n}?`.
pub open spec fn lazy_repeat_message(n: usize) -> Seq<char> {
    "Specified repetition does not support lazy mode, \"{"@ + crate::text::decimal(n as nat)
        + "}?\" is not allowed."@
}

/// The text of the error for a lazy `{m..m}?`.
pub open spec fn lazy_repeat_range_message(m: usize, n: usize) -> Seq<char> {
    "Specified repetition does not support lazy mode, \"{"@ + crate::text::decimal(m as nat) + ","@
        + crate::text::decimal(n as nat) + "}?\" is not allowed."@
}

/// A call with the given name and arguments.
pub open spec fn call_view(name: FunctionName, args: Seq<ArgumentView>) -> ExpressionView {
    ExpressionView::FunctionCall(name, args)
}

/// A program: one expression and nothing after it.
pub open spec fn spec_parse_program(st: ParseState) -> Parsed<ExpressionView> {
    match spec_parse_expression(st) {
        Ok((exp, st1)) => if st1.tokens.len() > 0 {
            Err(
                ErrorView::MessageWithRange(
                    "Only one expression is allowed at ANRE root, consider wrapping multiple expressions in a group."@,
                    st1.tokens[0].range,
                ),
            )
        } else {
            Ok((exp, st1))
        },
        Err(e) => Err(e),
    }
}

/// An expression: alternations of captures of method calls of quantified
/// primary expressions, from the loosest binding to the tightest.
pub open spec fn spec_parse_expression(st: ParseState) -> Parsed<ExpressionView>
    decreases st.tokens.len(), 11nat,
{
    spec_parse_logic_or(st)
}

/// `a || b`, right-associative.
pub open spec fn spec_parse_logic_or(st: ParseState) -> Parsed<ExpressionView>
    decreases st.tokens.len(), 10nat,
{
    match spec_parse_named_capture(st) {
        Ok((left, st1)) => if st1.tokens.len() <= st.tokens.len() {
            spec_logic_or_rest(left, st1)
        } else {
            Err(unreached_error())
        },
        Err(e) => Err(e),
    }
}

/// The `|| expression` parts after `left`.
pub open spec fn spec_logic_or_rest(left: ExpressionView, st: ParseState) -> Parsed<ExpressionView>
    decreases st.tokens.len(), 9nat,
{
    if peek_is(st, 0, Token::LogicOr) {
        match spec_parse_expression(advance(st)) {
            Ok((right, st2)) => if st2.tokens.len() < st.tokens.len() {
                spec_logic_or_rest(ExpressionView::Or(Box::new(left), Box::new(right)), st2)
            } else {
                Err(unreached_error())
            },
            Err(e) => Err(e),
        }
    } else {
        Ok((left, st))
    }
}

/// `expression as name`. A named index capture becomes a plain name capture.
pub open spec fn spec_parse_named_capture(st: ParseState) -> Parsed<ExpressionView>
    decreases st.tokens.len(), 8nat,
{
    match spec_parse_index_capture(st) {
        Ok((exp, st1)) => if st1.tokens.len() > 0 && is_as_keyword(st1.tokens[0].token) {
            match spec_consume_identifier(advance(st1)) {
                Ok((name, st2)) => {
                    let named = match exp {
                        ExpressionView::IndexCapture(inner) => ExpressionView::NameCapture(
                            name,
                            inner,
                        ),
                        _ => ExpressionView::NameCapture(name, Box::new(exp)),
                    };
                    Ok((named, st2))
                },
                Err(e) => Err(e),
            }
        } else {
            Ok((exp, st1))
        },
        Err(e) => Err(e),
    }
}

/// The token is the keyword `as`.
pub open spec fn is_as_keyword(token: Token) -> bool {
    token matches Token::Keyword(k) && k@ == "as"@
}

/// `# expression`. An index capture of a name capture is the name capture.
pub open spec fn spec_parse_index_capture(st: ParseState) -> Parsed<ExpressionView>
    decreases st.tokens.len(), 7nat,
{
    if peek_is(st, 0, Token::Hash) {
        match spec_parse_method_call(advance(st)) {
            Ok((exp, st1)) => if exp is NameCapture {
                Ok((exp, st1))
            } else {
                Ok((ExpressionView::IndexCapture(Box::new(exp)), st1))
            },
            Err(e) => Err(e),
        }
    } else {
        spec_parse_method_call(st)
    }
}

/// `expression.name(arguments)`, chained.
pub open spec fn spec_parse_method_call(st: ParseState) -> Parsed<ExpressionView>
    decreases st.tokens.len(), 6nat,
{
    match spec_parse_quantifier(st) {
        Ok((exp, st1)) => if st1.tokens.len() <= st.tokens.len() {
            spec_method_call_rest(exp, st1)
        } else {
            Err(unreached_error())
        },
        Err(e) => Err(e),
    }
}

/// The token stream continues with `.`, an identifier and `(`.
pub open spec fn at_method_call(st: ParseState) -> bool {
    &&& peek_is(st, 0, Token::Dot)
    &&& st.tokens.len() > 1 && st.tokens[1].token is Identifier
    &&& peek_is(st, 2, Token::ParenthesisOpen)
}

/// The method calls after `exp`.
pub open spec fn spec_method_call_rest(exp: ExpressionView, st: ParseState) -> Parsed<
    ExpressionView,
>
    decreases st.tokens.len(), 5nat,
{
    if at_method_call(st) {
        match spec_continue_parse_method_call(exp, st) {
            Ok((call, st2)) => if st2.tokens.len() < st.tokens.len() {
                spec_method_call_rest(call, st2)
            } else {
                Err(unreached_error())
            },
            Err(e) => Err(e),
        }
    } else {
        Ok((exp, st))
    }
}

/// `.name(arguments)` after `exp`: the call with `exp` as its first argument.
pub open spec fn spec_continue_parse_method_call(exp: ExpressionView, st: ParseState) -> Parsed<
    ExpressionView,
>
    decreases st.tokens.len(), 4nat,
{
    match spec_consume_identifier(advance(st)) {
        Ok((id, st2)) => match spec_function_name(id) {
            Some(name) => {
                let st3 = advance(st2);
                if st3.tokens.len() < st.tokens.len() {
                    match spec_arguments(seq![ArgumentView::Expression(exp)], st3) {
                        Ok((args, st4)) => match spec_consume_token(
                            st4,
                            Token::ParenthesisClose,
                            "closing parenthesis"@,
                        ) {
                            Ok((_, st5)) => Ok((call_view(name, args), st5)),
                            Err(e) => Err(e),
                        },
                        Err(e) => Err(e),
                    }
                } else {
                    Err(unreached_error())
                }
            },
            None => Err(
                ErrorView::MessageWithRange(unsupported_function_message(id), st2.last_range),
            ),
        },
        Err(e) => Err(e),
    }
}

/// The arguments of a call up to `)`: numbers and expressions.
pub open spec fn spec_arguments(args: Seq<ArgumentView>, st: ParseState) -> Parsed<
    Seq<ArgumentView>,
>
    decreases st.tokens.len(), 12nat,
{
    if st.tokens.len() == 0 || st.tokens[0].token == Token::ParenthesisClose {
        Ok((args, st))
    } else {
        match st.tokens[0].token {
            Token::Number(n) => spec_arguments(args.push(ArgumentView::Number(n)), advance(st)),
            _ => match spec_parse_expression(st) {
                Ok((exp, st1)) => if st1.tokens.len() < st.tokens.len() {
                    spec_arguments(args.push(ArgumentView::Expression(exp)), st1)
                } else {
                    Err(unreached_error())
                },
                Err(e) => Err(e),
            },
        }
    }
}

/// The function that a quantifier notation stands for.
pub open spec fn notation_function(token: Token) -> Option<FunctionName> {
    match token {
        Token::Question => Some(FunctionName::Optional),
        Token::Plus => Some(FunctionName::OneOrMore),
        Token::Asterisk => Some(FunctionName::ZeroOrMore),
        Token::QuestionLazy => Some(FunctionName::OptionalLazy),
        Token::PlusLazy => Some(FunctionName::OneOrMoreLazy),
        Token::AsteriskLazy => Some(FunctionName::ZeroOrMoreLazy),
        _ => None,
    }
}

/// The call that a repetition in braces stands for, or the error for a lazy
/// fixed repetition (reported at `range`).
pub open spec fn repetition_call(
    exp: ExpressionView,
    repetition: Repetition,
    lazy: bool,
    range: Range,
) -> Result<ExpressionView, ErrorView> {
    let base = ArgumentView::Expression(exp);
    match repetition {
        Repetition::Repeat(n) => if lazy {
            Err(ErrorView::MessageWithRange(lazy_repeat_message(n), range))
        } else {
            Ok(call_view(FunctionName::Repeat, seq![base, ArgumentView::Number(n)]))
        },
        Repetition::RepeatFrom(n) => Ok(
            call_view(
                if lazy {
                    FunctionName::RepeatFromLazy
                } else {
                    FunctionName::RepeatFrom
                },
                seq![base, ArgumentView::Number(n)],
            ),
        ),
        Repetition::RepeatRange(m, n) => if m == n {
            if lazy {
                Err(ErrorView::MessageWithRange(lazy_repeat_range_message(m, n), range))
            } else {
                Ok(call_view(FunctionName::Repeat, seq![base, ArgumentView::Number(n)]))
            }
        } else {
            Ok(
                call_view(
                    if lazy {
                        FunctionName::RepeatRangeLazy
                    } else {
                        FunctionName::RepeatRange
                    },
                    seq![base, ArgumentView::Number(m), ArgumentView::Number(n)],
                ),
            )
        },
    }
}

/// A primary expression with an optional quantifier: `?`, `+`, `*`, their lazy
/// forms, or a repetition in braces.
pub open spec fn spec_parse_quantifier(st: ParseState) -> Parsed<ExpressionView>
    decreases st.tokens.len(), 5nat,
{
    match spec_parse_primary_expression(st) {
        Ok((exp, st1)) => if st1.tokens.len() == 0 {
            Ok((exp, st1))
        } else {
            match notation_function(st1.tokens[0].token) {
                Some(name) => Ok(
                    (call_view(name, seq![ArgumentView::Expression(exp)]), advance(st1)),
                ),
                None => if st1.tokens[0].token == Token::BraceOpen {
                    match spec_continue_parse_repetition(st1) {
                        Ok(((repetition, lazy), st2)) => match repetition_call(
                            exp,
                            repetition,
                            lazy,
                            st2.last_range,
                        ) {
                            Ok(call) => Ok((call, st2)),
                            Err(e) => Err(e),
                        },
                        Err(e) => Err(e),
                    }
                } else {
                    Ok((exp, st1))
                },
            }
        },
        Err(e) => Err(e),
    }
}

/// `{m}`, `{m..}` or `{m..n}`, then an optional `?` for laziness.
pub open spec fn spec_continue_parse_repetition(st: ParseState) -> Parsed<(Repetition, bool)> {
    match spec_consume_number(advance(st)) {
        Ok((from, st2)) => {
            let (repetition, st3) = if peek_is(st2, 0, Token::Range) {
                let after_range = advance(st2);
                if after_range.tokens.len() > 0 {
                    match after_range.tokens[0].token {
                        Token::Number(to) => (
                            Repetition::RepeatRange(from, to),
                            advance(after_range),
                        ),
                        _ => (Repetition::RepeatFrom(from), after_range),
                    }
                } else {
                    (Repetition::RepeatFrom(from), after_range)
                }
            } else {
                (Repetition::Repeat(from), st2)
            };
            match spec_consume_token(st3, Token::BraceClose, "closing brace"@) {
                Ok((_, st4)) => if peek_is(st4, 0, Token::Question) {
                    Ok(((repetition, true), advance(st4)))
                } else {
                    Ok(((repetition, false), st4))
                },
                Err(e) => Err(e),
            }
        },
        Err(e) => Err(e),
    }
}

/// A group, a function call, a named or indexed back-reference, or a literal.
pub open spec fn spec_parse_primary_expression(st: ParseState) -> Parsed<ExpressionView>
    decreases st.tokens.len(), 4nat,
{
    if st.tokens.len() == 0 {
        Err(ErrorView::UnexpectedEndOfDocument("Expect an expression."@))
    } else {
        match st.tokens[0].token {
            Token::ParenthesisOpen => spec_parse_group(st),
            Token::Identifier(id) => if peek_is(st, 1, Token::ParenthesisOpen) {
                spec_parse_function_call(st)
            } else if id@ != "char_any"@ && spec_preset_charset(id@) is None {
                Ok((ExpressionView::BackReference(BackReferenceView::Name(id@)), advance(st)))
            } else {
                spec_literal_expression(st)
            },
            Token::Caret => if st.tokens.len() > 1 && st.tokens[1].token is Number {
                match spec_consume_number(advance(st)) {
                    Ok((index, st2)) => Ok(
                        (ExpressionView::BackReference(BackReferenceView::Index(index)), st2),
                    ),
                    Err(e) => Err(e),
                }
            } else {
                spec_literal_expression(st)
            },
            _ => spec_literal_expression(st),
        }
    }
}

/// A literal as an expression.
pub open spec fn spec_literal_expression(st: ParseState) -> Parsed<ExpressionView>
    decreases st.tokens.len(), 3nat,
{
    match spec_parse_literal(st) {
        Ok((literal, st1)) => Ok((ExpressionView::Literal(literal), st1)),
        Err(e) => Err(e),
    }
}

/// `(expression ...)`. A group of one expression is that expression.
pub open spec fn spec_parse_group(st: ParseState) -> Parsed<ExpressionView>
    decreases st.tokens.len(), 3nat,
{
    let st1 = advance(st);
    if st1.tokens.len() < st.tokens.len() {
        match spec_group_items(seq![], st1) {
            Ok((exps, st2)) => match spec_consume_token(
                st2,
                Token::ParenthesisClose,
                "closing parenthesis"@,
            ) {
                Ok((_, st3)) => if exps.len() == 1 {
                    Ok((exps[0], st3))
                } else {
                    Ok((ExpressionView::Group(exps), st3))
                },
                Err(e) => Err(e),
            },
            Err(e) => Err(e),
        }
    } else {
        Err(unreached_error())
    }
}

/// The expressions of a group up to `)`.
pub open spec fn spec_group_items(exps: Seq<ExpressionView>, st: ParseState) -> Parsed<
    Seq<ExpressionView>,
>
    decreases st.tokens.len(), 12nat,
{
    if st.tokens.len() == 0 || st.tokens[0].token == Token::ParenthesisClose {
        Ok((exps, st))
    } else {
        match spec_parse_expression(st) {
            Ok((exp, st1)) => if st1.tokens.len() < st.tokens.len() {
                spec_group_items(exps.push(exp), st1)
            } else {
                Err(unreached_error())
            },
            Err(e) => Err(e),
        }
    }
}

/// `name(arguments)`.
pub open spec fn spec_parse_function_call(st: ParseState) -> Parsed<ExpressionView>
    decreases st.tokens.len(), 3nat,
{
    match spec_consume_identifier(st) {
        Ok((id, st1)) => match spec_function_name(id) {
            Some(name) => match spec_consume_token(
                st1,
                Token::ParenthesisOpen,
                "opening parenthesis"@,
            ) {
                Ok((_, st2)) => if st2.tokens.len() < st.tokens.len() {
                    match spec_arguments(seq![], st2) {
                        Ok((args, st3)) => match spec_consume_token(
                            st3,
                            Token::ParenthesisClose,
                            "closing parenthesis"@,
                        ) {
                            Ok((_, st4)) => Ok((call_view(name, args), st4)),
                            Err(e) => Err(e),
                        },
                        Err(e) => Err(e),
                    }
                } else {
                    Err(unreached_error())
                },
                Err(e) => Err(e),
            },
            None => Err(
                ErrorView::MessageWithRange(unsupported_function_message(id), st1.last_range),
            ),
        },
        Err(e) => Err(e),
    }
}

/// A literal: a charset, a negative charset, a char, a string, `char_any`
/// or a preset charset.
pub open spec fn spec_parse_literal(st: ParseState) -> Parsed<LiteralView>
    decreases st.tokens.len(), 2nat,
{
    if st.tokens.len() == 0 {
        Err(unreached_error())
    } else {
        match st.tokens[0].token {
            Token::BracketOpen => match spec_parse_charset_elements(st) {
                Ok((elements, st1)) => Ok(
                    (LiteralView::CharSet(CharSetView { negative: false, elements }), st1),
                ),
                Err(e) => Err(e),
            },
            Token::Exclamation => if peek_is(st, 1, Token::BracketOpen) {
                let st1 = advance(st);
                if st1.tokens.len() < st.tokens.len() {
                    match spec_parse_charset_elements(st1) {
                        Ok((elements, st2)) => Ok(
                            (LiteralView::CharSet(CharSetView { negative: true, elements }), st2),
                        ),
                        Err(e) => Err(e),
                    }
                } else {
                    Err(unreached_error())
                }
            } else {
                Err(ErrorView::MessageWithRange("Expect a literal."@, st.last_range))
            },
            Token::Char(c) => Ok((LiteralView::Char(c), advance(st))),
            Token::String(s) => Ok((LiteralView::String(s@), advance(st))),
            Token::Identifier(id) => if id@ == "char_any"@ {
                Ok((LiteralView::AnyChar, advance(st)))
            } else {
                match spec_preset_charset(id@) {
                    Some(name) => Ok((LiteralView::PresetCharSet(name), advance(st))),
                    None => Err(unreached_error()),
                }
            },
            _ => Err(ErrorView::MessageWithRange("Expect a literal."@, st.last_range)),
        }
    }
}

/// `[elements]`.
pub open spec fn spec_parse_charset_elements(st: ParseState) -> Parsed<Seq<CharSetElementView>>
    decreases st.tokens.len(), 1nat,
{
    let st1 = advance(st);
    if st1.tokens.len() < st.tokens.len() {
        match spec_charset_items(seq![], st1) {
            Ok((elements, st2)) => match spec_consume_token(
                st2,
                Token::BracketClose,
                "closing bracket"@,
            ) {
                Ok((_, st3)) => Ok((elements, st3)),
                Err(e) => Err(e),
            },
            Err(e) => Err(e),
        }
    } else {
        Err(unreached_error())
    }
}

/// The elements of a charset up to `]`: chars, char ranges `'a'..'z'`,
/// preset charsets and nested charsets.
pub open spec fn spec_charset_items(elements: Seq<CharSetElementView>, st: ParseState) -> Parsed<
    Seq<CharSetElementView>,
>
    decreases st.tokens.len(), 12nat,
{
    if st.tokens.len() == 0 || st.tokens[0].token == Token::BracketClose {
        Ok((elements, st))
    } else {
        let start_range = st.tokens[0].range;
        match spec_parse_expression(st) {
            Ok((exp, st1)) => if st1.tokens.len() < st.tokens.len() {
                match exp {
                    ExpressionView::Literal(LiteralView::Char(c)) => if peek_is(
                        st1,
                        0,
                        Token::Range,
                    ) {
                        let st2 = advance(st1);
                        if st2.tokens.len() == 0 {
                            Err(
                                ErrorView::UnexpectedEndOfDocument(
                                    "Expect a char literal after '..' in char range."@,
                                ),
                            )
                        } else {
                            let end_range = st2.tokens[0].range;
                            match spec_parse_expression(st2) {
                                Ok((end_exp, st3)) => if st3.tokens.len() < st.tokens.len() {
                                    match end_exp {
                                        ExpressionView::Literal(LiteralView::Char(end_char)) => {
                                            spec_charset_items(
                                                elements.push(
                                                    CharSetElementView::CharRange(c, end_char),
                                                ),
                                                st3,
                                            )
                                        },
                                        _ => Err(
                                            ErrorView::MessageWithRange(
                                                "Expect a char literal."@,
                                                Range {
                                                    start: end_range.start,
                                                    end_inclusive: st3.last_range.end_inclusive,
                                                },
                                            ),
                                        ),
                                    }
                                } else {
                                    Err(unreached_error())
                                },
                                Err(e) => Err(e),
                            }
                        }
                    } else {
                        spec_charset_items(elements.push(CharSetElementView::Char(c)), st1)
                    },
                    ExpressionView::Literal(LiteralView::PresetCharSet(name)) => spec_charset_items(
                        elements.push(CharSetElementView::PresetCharSet(name)),
                        st1,
                    ),
                    ExpressionView::Literal(LiteralView::CharSet(charset)) => spec_charset_items(
                        elements.push(CharSetElementView::CharSet(Box::new(charset))),
                        st1,
                    ),
                    _ => Err(
                        ErrorView::MessageWithRange(
                            "Unsupported char set element."@,
                            Range {
                                start: start_range.start,
                                end_inclusive: st1.last_range.end_inclusive,
                            },
                        ),
                    ),
                }
            } else {
                Err(unreached_error())
            },
            Err(e) => Err(e),
        }
    }
}

/// The outcome of a step that gives an expression.
pub open spec fn expression_outcome(result: Result<Expression, AnreError>, st: ParseState) -> Parsed<
    ExpressionView,
> {
    match result {
        Ok(exp) => Ok((exp@, st)),
        Err(e) => Err(e@),
    }
}

/// The outcome of a step that gives a call.
pub open spec fn call_outcome(result: Result<FunctionCall, AnreError>, st: ParseState) -> Parsed<
    ExpressionView,
> {
    match result {
        Ok(call) => Ok((call_view(call.name, seq_arguments_view(call.args@)), st)),
        Err(e) => Err(e@),
    }
}

/// The outcome of a step that gives a literal.
pub open spec fn literal_outcome(result: Result<Literal, AnreError>, st: ParseState) -> Parsed<
    LiteralView,
> {
    match result {
        Ok(literal) => Ok((literal@, st)),
        Err(e) => Err(e@),
    }
}

/// The outcome of a step that gives a list of arguments.
pub open spec fn arguments_outcome(
    result: Result<Vec<FunctionArgument>, AnreError>,
    st: ParseState,
) -> Parsed<Seq<ArgumentView>> {
    match result {
        Ok(args) => Ok((seq_arguments_view(args@), st)),
        Err(e) => Err(e@),
    }
}

/// The outcome of a step that gives a list of expressions.
pub open spec fn expressions_outcome(
    result: Result<Vec<Expression>, AnreError>,
    st: ParseState,
) -> Parsed<Seq<ExpressionView>> {
    match result {
        Ok(exps) => Ok((seq_expressions_view(exps@), st)),
        Err(e) => Err(e@),
    }
}

/// The outcome of a step that gives a list of charset elements.
pub open spec fn elements_outcome(
    result: Result<Vec<CharSetElement>, AnreError>,
    st: ParseState,
) -> Parsed<Seq<CharSetElementView>> {
    match result {
        Ok(elements) => Ok((seq_elements_view(elements@), st)),
        Err(e) => Err(e@),
    }
}

/// The outcome of a step that gives a string.
pub open spec fn string_outcome(result: Result<String, AnreError>, st: ParseState) -> Parsed<
    Seq<char>,
> {
    match result {
        Ok(s) => Ok((s@, st)),
        Err(e) => Err(e@),
    }
}

/// The outcome of a step that gives a value that is its own view.
pub open spec fn plain_outcome<T>(result: Result<T, AnreError>, st: ParseState) -> Parsed<T> {
    match result {
        Ok(v) => Ok((v, st)),
        Err(e) => Err(e@),
    }
}

/// The preset charset named `name`, if any.
pub fn preset_charset_from_name(name: &String) -> (preset: Option<PresetCharSetName>)
    ensures
        preset == spec_preset_charset(name@),
{
    if text_is(name, "char_word") {
        Some(PresetCharSetName::CharWord)
    } else if text_is(name, "char_not_word") {
        Some(PresetCharSetName::CharNotWord)
    } else if text_is(name, "char_digit") {
        Some(PresetCharSetName::CharDigit)
    } else if text_is(name, "char_not_digit") {
        Some(PresetCharSetName::CharNotDigit)
    } else if text_is(name, "char_space") {
        Some(PresetCharSetName::CharSpace)
    } else if text_is(name, "char_not_space") {
        Some(PresetCharSetName::CharNotSpace)
    } else {
        None
    }
}

/// The function named `name`, if any.
pub fn function_name_from_name(name: &String) -> (function: Option<FunctionName>)
    ensures
        function == spec_function_name(name@),
{
    if text_is(name, "optional") {
        Some(FunctionName::Optional)
    } else if text_is(name, "one_or_more") {
        Some(FunctionName::OneOrMore)
    } else if text_is(name, "zero_or_more") {
        Some(FunctionName::ZeroOrMore)
    } else if text_is(name, "repeat") {
        Some(FunctionName::Repeat)
    } else if text_is(name, "repeat_range") {
        Some(FunctionName::RepeatRange)
    } else if text_is(name, "repeat_from") {
        Some(FunctionName::RepeatFrom)
    } else if text_is(name, "optional_lazy") {
        Some(FunctionName::OptionalLazy)
    } else if text_is(name, "one_or_more_lazy") {
        Some(FunctionName::OneOrMoreLazy)
    } else if text_is(name, "zero_or_more_lazy") {
        Some(FunctionName::ZeroOrMoreLazy)
    } else if text_is(name, "repeat_range_lazy") {
        Some(FunctionName::RepeatRangeLazy)
    } else if text_is(name, "repeat_from_lazy") {
        Some(FunctionName::RepeatFromLazy)
    } else if text_is(name, "is_start") {
        Some(FunctionName::IsStart)
    } else if text_is(name, "is_end") {
        Some(FunctionName::IsEnd)
    } else if text_is(name, "is_bound") {
        Some(FunctionName::IsBound)
    } else if text_is(name, "is_not_bound") {
        Some(FunctionName::IsNotBound)
    } else if text_is(name, "is_before") {
        Some(FunctionName::IsBefore)
    } else if text_is(name, "is_after") {
        Some(FunctionName::IsAfter)
    } else if text_is(name, "is_not_before") {
        Some(FunctionName::IsNotBefore)
    } else if text_is(name, "is_not_after") {
        Some(FunctionName::IsNotAfter)
    } else {
        None
    }
}

fn notation_of(token: &Token) -> (name: Option<FunctionName>)
    ensures
        name == notation_function(*token),
{
    match token {
        Token::Question => Some(FunctionName::Optional),
        Token::Plus => Some(FunctionName::OneOrMore),
        Token::Asterisk => Some(FunctionName::ZeroOrMore),
        Token::QuestionLazy => Some(FunctionName::OptionalLazy),
        Token::PlusLazy => Some(FunctionName::OneOrMoreLazy),
        Token::AsteriskLazy => Some(FunctionName::ZeroOrMoreLazy),
        _ => None,
    }
}

fn unsupported_function_error(name: &String, range: Range) -> (e: AnreError)
    ensures
        e@ == ErrorView::MessageWithRange(unsupported_function_message(name@), range),
{
    let mut message = string_of("Unsupported function \"");
    push_str(&mut message, name.as_str());
    push_str(&mut message, "\"");
    AnreError::MessageWithRange(message, range)
}

fn lazy_repeat_error(n: usize, range: Range) -> (e: AnreError)
    ensures
        e@ == ErrorView::MessageWithRange(lazy_repeat_message(n), range),
{
    let mut message = string_of("Specified repetition does not support lazy mode, \"{");
    push_decimal(&mut message, n);
    push_str(&mut message, "}?\" is not allowed.");
    AnreError::MessageWithRange(message, range)
}

fn lazy_repeat_range_error(m: usize, n: usize, range: Range) -> (e: AnreError)
    ensures
        e@ == ErrorView::MessageWithRange(lazy_repeat_range_message(m, n), range),
{
    let mut message = string_of("Specified repetition does not support lazy mode, \"{");
    push_decimal(&mut message, m);
    push_str(&mut message, ",");
    push_decimal(&mut message, n);
    push_str(&mut message, "}?\" is not allowed.");
    AnreError::MessageWithRange(message, range)
}

/// The call that a repetition in braces stands for, or the error for a lazy
/// fixed repetition.
fn repetition_expression(
    expression: Expression,
    repetition: Repetition,
    lazy: bool,
    range: Range,
) -> (result: Result<Expression, AnreError>)
    ensures
        match result {
            Ok(call) => repetition_call(expression@, repetition, lazy, range) == Ok::<
                _,
                ErrorView,
            >(call@),
            Err(e) => repetition_call(expression@, repetition, lazy, range) == Err::<
                ExpressionView,
                _,
            >(e@),
        },
{
    let ghost base = ArgumentView::Expression(expression@);
    let mut args: Vec<FunctionArgument> = Vec::new();
    let arg = FunctionArgument::Expression(expression);
    proof {
        lemma_arguments_view_push(args@, arg);
        assert(seq_arguments_view(args@) =~= seq![]);
    }
    args.push(arg);
    let name = match repetition {
        Repetition::Repeat(n) => {
            if lazy {
                return Err(lazy_repeat_error(n, range));
            }
            proof {
                lemma_arguments_view_push(args@, FunctionArgument::Number(n));
            }
            args.push(FunctionArgument::Number(n));
            assert(seq_arguments_view(args@) =~= seq![base, ArgumentView::Number(n)]);
            FunctionName::Repeat
        },
        Repetition::RepeatFrom(n) => {
            proof {
                lemma_arguments_view_push(args@, FunctionArgument::Number(n));
            }
            args.push(FunctionArgument::Number(n));
            assert(seq_arguments_view(args@) =~= seq![base, ArgumentView::Number(n)]);
            if lazy {
                FunctionName::RepeatFromLazy
            } else {
                FunctionName::RepeatFrom
            }
        },
        Repetition::RepeatRange(m, n) => {
            if m == n {
                if lazy {
                    return Err(lazy_repeat_range_error(m, n, range));
                }
                proof {
                    lemma_arguments_view_push(args@, FunctionArgument::Number(n));
                }
                args.push(FunctionArgument::Number(n));
                assert(seq_arguments_view(args@) =~= seq![base, ArgumentView::Number(n)]);
                FunctionName::Repeat
            } else {
                proof {
                    lemma_arguments_view_push(args@, FunctionArgument::Number(m));
                }
                args.push(FunctionArgument::Number(m));
                proof {
                    lemma_arguments_view_push(args@, FunctionArgument::Number(n));
                }
                args.push(FunctionArgument::Number(n));
                assert(seq_arguments_view(args@) =~= seq![
                    base,
                    ArgumentView::Number(m),
                    ArgumentView::Number(n),
                ]);
                if lazy {
                    FunctionName::RepeatRangeLazy
                } else {
                    FunctionName::RepeatRange
                }
            }
        },
    };
    Ok(Expression::FunctionCall(Box::new(FunctionCall { name, args })))
}

/// A recursive-descent parser of ANRE over a token stream.
pub struct Parser {
    upstream: PeekableIter,
    /// Range of the token read last.
    pub last_range: Range,
}

impl Parser {
    /// The tokens not read yet and the range of the token read last.
    pub closed spec fn state(&self) -> ParseState {
        ParseState { tokens: self.upstream.remaining(), last_range: self.last_range }
    }

    pub fn new(upstream: PeekableIter) -> (parser: Self)
        ensures
            parser.state() == (ParseState {
                tokens: upstream.remaining(),
                last_range: crate::range::spec_default_range(),
            }),
    {
        Self { upstream, last_range: Range::default() }
    }

    fn next_token(&mut self) -> (token: Option<Token>)
        ensures
            final(self).state() == advance(old(self).state()),
            old(self).state().tokens.len() == 0 ==> token is None,
            old(self).state().tokens.len() > 0 ==> token == Some(
                old(self).state().tokens[0].token,
            ),
    {
        match self.next_token_with_range() {
            Some(TokenWithRange { token, range }) => {
                self.last_range = range;
                Some(token)
            },
            None => None,
        }
    }

    fn next_token_with_range(&mut self) -> (token: Option<TokenWithRange>)
        ensures
            final(self).state() == advance(old(self).state()),
            old(self).state().tokens.len() == 0 ==> token is None,
            old(self).state().tokens.len() > 0 ==> token == Some(old(self).state().tokens[0]),
    {
        match self.upstream.next() {
            Some(token_with_range) => {
                self.last_range = token_with_range.range;
                Some(token_with_range)
            },
            None => None,
        }
    }

    fn peek_token(&self, offset: usize) -> (token: Option<&Token>)
        ensures
            offset < self.state().tokens.len() ==> token == Some(
                &self.state().tokens[offset as int].token,
            ),
            offset >= self.state().tokens.len() ==> token is None,
    {
        match self.upstream.peek(offset) {
            Some(TokenWithRange { token, .. }) => Some(token),
            None => None,
        }
    }

    fn peek_token_with_range(&self, offset: usize) -> (token: Option<&TokenWithRange>)
        ensures
            offset < self.state().tokens.len() ==> token == Some(
                &self.state().tokens[offset as int],
            ),
            offset >= self.state().tokens.len() ==> token is None,
    {
        self.upstream.peek(offset)
    }

    fn peek_range(&self, offset: usize) -> (range: Option<&Range>)
        ensures
            offset < self.state().tokens.len() ==> range == Some(
                &self.state().tokens[offset as int].range,
            ),
            offset >= self.state().tokens.len() ==> range is None,
    {
        match self.upstream.peek(offset) {
            Some(TokenWithRange { range, .. }) => Some(range),
            None => None,
        }
    }

    /// The token `offset` places ahead is the symbol `expected_token`.
    fn peek_token_and_equals(&self, offset: usize, expected_token: &Token) -> (equals: bool)
        requires
            is_symbol(*expected_token),
        ensures
            equals == peek_is(self.state(), offset as int, *expected_token),
    {
        match self.peek_token(offset) {
            Some(token) => same_symbol(token, expected_token),
            None => false,
        }
    }

    /// The next token is the keyword `as`.
    fn peek_as_keyword(&self) -> (is_as: bool)
        ensures
            is_as == (self.state().tokens.len() > 0 && is_as_keyword(self.state().tokens[0].token)),
    {
        match self.peek_token(0) {
            Some(Token::Keyword(keyword)) => text_is(keyword, "as"),
            _ => false,
        }
    }

    fn consume_identifier(&mut self) -> (result: Result<String, AnreError>)
        ensures
            reads_on(old(self).state(), final(self).state()),
            string_outcome(result, final(self).state()) == spec_consume_identifier(
                old(self).state(),
            ),
            final(self).state() == advance(old(self).state()),
    {
        match self.next_token() {
            Some(Token::Identifier(id)) => Ok(id),
            Some(_) => Err(
                AnreError::MessageWithPosition(string_of("Expect an identifier."), self.last_range.start),
            ),
            None => Err(AnreError::UnexpectedEndOfDocument(string_of("Expect an identifier."))),
        }
    }

    /// Reads an identifier that must be `identifier`.
    fn consume_identifier_and_assert(&mut self, identifier: &str) -> (result: Result<
        String,
        AnreError,
    >)
        ensures
            reads_on(old(self).state(), final(self).state()),
            final(self).state() == advance(old(self).state()),
            result matches Ok(id) ==> id@ == identifier@ && old(self).state().tokens.len() > 0
                && old(self).state().tokens[0].token == Token::Identifier(id),
            result is Err ==> old(self).state().tokens.len() == 0 || !(old(
                self,
            ).state().tokens[0].token matches Token::Identifier(id) && id@ == identifier@),
    {
        match self.next_token() {
            Some(Token::Identifier(id)) => {
                if text_is(&id, identifier) {
                    return Ok(id);
                }
                let mut message = string_of("Expect identifier \"");
                push_str(&mut message, identifier);
                push_str(&mut message, "\".");
                Err(AnreError::MessageWithPosition(message, self.last_range.start))
            },
            Some(_) => {
                let mut message = string_of("Expect identifier \"");
                push_str(&mut message, identifier);
                push_str(&mut message, "\".");
                Err(AnreError::MessageWithPosition(message, self.last_range.start))
            },
            None => {
                let mut message = string_of("Expect identifier \"");
                push_str(&mut message, identifier);
                push_str(&mut message, "\".");
                Err(AnreError::UnexpectedEndOfDocument(message))
            },
        }
    }

    /// Reads a character literal.
    fn consume_char(&mut self) -> (result: Result<char, AnreError>)
        ensures
            reads_on(old(self).state(), final(self).state()),
            final(self).state() == advance(old(self).state()),
            result matches Ok(c) ==> old(self).state().tokens.len() > 0 && old(
                self,
            ).state().tokens[0].token == Token::Char(c),
            result is Err ==> old(self).state().tokens.len() == 0 || !(old(
                self,
            ).state().tokens[0].token is Char),
    {
        match self.next_token() {
            Some(Token::Char(c)) => Ok(c),
            Some(_) => Err(
                AnreError::MessageWithPosition(string_of("Expect a character."), self.last_range.start),
            ),
            None => Err(AnreError::UnexpectedEndOfDocument(string_of("Expect a character."))),
        }
    }

    /// Reads a string literal.
    fn consume_string(&mut self) -> (result: Result<String, AnreError>)
        ensures
            reads_on(old(self).state(), final(self).state()),
            final(self).state() == advance(old(self).state()),
            result matches Ok(s) ==> old(self).state().tokens.len() > 0 && old(
                self,
            ).state().tokens[0].token == Token::String(s),
            result is Err ==> old(self).state().tokens.len() == 0 || !(old(
                self,
            ).state().tokens[0].token is String),
    {
        match self.next_token() {
            Some(Token::String(s)) => Ok(s),
            Some(_) => Err(
                AnreError::MessageWithPosition(string_of("Expect a string."), self.last_range.start),
            ),
            None => Err(AnreError::UnexpectedEndOfDocument(string_of("Expect a string."))),
        }
    }

    fn consume_number(&mut self) -> (result: Result<usize, AnreError>)
        ensures
            reads_on(old(self).state(), final(self).state()),
            plain_outcome(result, final(self).state()) == spec_consume_number(old(self).state()),
            final(self).state() == advance(old(self).state()),
    {
        match self.next_token() {
            Some(Token::Number(i)) => Ok(i),
            Some(_) => Err(
                AnreError::MessageWithPosition(string_of("Expect a number."), self.last_range.start),
            ),
            None => Err(AnreError::UnexpectedEndOfDocument(string_of("Expect a number."))),
        }
    }

    /// Reads one token, which must be `expected_token`.
    fn consume_token_and_assert(&mut self, expected_token: &Token, token_description: &str) -> (result: Result<(), AnreError>)
        requires
            is_symbol(*expected_token),
        ensures
            reads_on(old(self).state(), final(self).state()),
            plain_outcome(result, final(self).state()) == spec_consume_token(
                old(self).state(),
                *expected_token,
                token_description@,
            ),
            final(self).state() == advance(old(self).state()),
    {
        match self.next_token() {
            Some(token) => {
                if same_symbol(&token, expected_token) {
                    Ok(())
                } else {
                    let mut message = string_of("Expect token: ");
                    push_str(&mut message, token_description);
                    push_str(&mut message, ".");
                    Err(AnreError::MessageWithRange(message, self.last_range))
                }
            },
            None => {
                let mut message = string_of("Expect token: ");
                push_str(&mut message, token_description);
                push_str(&mut message, ".");
                Err(AnreError::UnexpectedEndOfDocument(message))
            },
        }
    }

    fn consume_opening_parenthesis(&mut self) -> (result: Result<(), AnreError>)
        ensures
            reads_on(old(self).state(), final(self).state()),
            plain_outcome(result, final(self).state()) == spec_consume_token(
                old(self).state(),
                Token::ParenthesisOpen,
                "opening parenthesis"@,
            ),
            final(self).state() == advance(old(self).state()),
    {
        self.consume_token_and_assert(&Token::ParenthesisOpen, "opening parenthesis")
    }

    fn consume_closing_parenthesis(&mut self) -> (result: Result<(), AnreError>)
        ensures
            reads_on(old(self).state(), final(self).state()),
            plain_outcome(result, final(self).state()) == spec_consume_token(
                old(self).state(),
                Token::ParenthesisClose,
                "closing parenthesis"@,
            ),
            final(self).state() == advance(old(self).state()),
    {
        self.consume_token_and_assert(&Token::ParenthesisClose, "closing parenthesis")
    }

    fn consume_closing_bracket(&mut self) -> (result: Result<(), AnreError>)
        ensures
            reads_on(old(self).state(), final(self).state()),
            plain_outcome(result, final(self).state()) == spec_consume_token(
                old(self).state(),
                Token::BracketClose,
                "closing bracket"@,
            ),
            final(self).state() == advance(old(self).state()),
    {
        self.consume_token_and_assert(&Token::BracketClose, "closing bracket")
    }

    fn consume_closing_brace(&mut self) -> (result: Result<(), AnreError>)
        ensures
            reads_on(old(self).state(), final(self).state()),
            plain_outcome(result, final(self).state()) == spec_consume_token(
                old(self).state(),
                Token::BraceClose,
                "closing brace"@,
            ),
            final(self).state() == advance(old(self).state()),
    {
        self.consume_token_and_assert(&Token::BraceClose, "closing brace")
    }
}

impl Parser {
    /// Parses one expression that takes all the tokens.
    pub fn parse_program(&mut self) -> (result: Result<Program, AnreError>)
        ensures
            reads_on(old(self).state(), final(self).state()),
            match result {
                Ok(program) => spec_parse_program(old(self).state()) == Ok::<_, ErrorView>(
                    (program@, final(self).state()),
                ),
                Err(e) => spec_parse_program(old(self).state()) == Err::<
                    (ExpressionView, ParseState),
                    _,
                >(e@),
            },
    {
        let expression = match self.parse_expression() {
            Ok(expression) => expression,
            Err(e) => {
                return Err(e);
            },
        };
        if self.peek_token(0).is_some() {
            let range = *self.peek_range(0).unwrap();
            return Err(
                AnreError::MessageWithRange(
                    string_of(
                        "Only one expression is allowed at ANRE root, consider wrapping multiple expressions in a group.",
                    ),
                    range,
                ),
            );
        }
        Ok(Program { expression })
    }

    fn parse_expression(&mut self) -> (result: Result<Expression, AnreError>)
        ensures
            reads_on(old(self).state(), final(self).state()),
            expression_outcome(result, final(self).state()) == spec_parse_expression(
                old(self).state(),
            ),
            result is Ok ==> final(self).state().tokens.len() < old(self).state().tokens.len(),
        decreases old(self).state().tokens.len(), 11nat,
    {
        self.parse_logic_or()
    }

    #[verifier::spinoff_prover]
    #[verifier::rlimit(60)]
    fn parse_logic_or(&mut self) -> (result: Result<Expression, AnreError>)
        ensures
            reads_on(old(self).state(), final(self).state()),
            expression_outcome(result, final(self).state()) == spec_parse_logic_or(
                old(self).state(),
            ),
            result is Ok ==> final(self).state().tokens.len() < old(self).state().tokens.len(),
        decreases old(self).state().tokens.len(), 10nat,
    {
        let ghost st0 = self.state();
        let mut left = match self.parse_named_capture() {
            Ok(left) => left,
            Err(e) => {
                return Err(e);
            },
        };
        #[verifier::loop_isolation(false)]
        while self.peek_token_and_equals(0, &Token::LogicOr)
            invariant
                reads_on(st0, self.state()),
                self.state().tokens.len() < st0.tokens.len(),
                spec_parse_logic_or(st0) == spec_logic_or_rest(left@, self.state()),
            decreases self.state().tokens.len(),
        {
            let ghost st = self.state();
            self.next_token();
            let right = match self.parse_expression() {
                Ok(right) => right,
                Err(e) => {
                    return Err(e);
                },
            };
            left = Expression::Or(Box::new(left), Box::new(right));
        }
        Ok(left)
    }

    fn parse_named_capture(&mut self) -> (result: Result<Expression, AnreError>)
        ensures
            reads_on(old(self).state(), final(self).state()),
            expression_outcome(result, final(self).state()) == spec_parse_named_capture(
                old(self).state(),
            ),
            result is Ok ==> final(self).state().tokens.len() < old(self).state().tokens.len(),
        decreases old(self).state().tokens.len(), 8nat,
    {
        let expression = match self.parse_index_capture() {
            Ok(expression) => expression,
            Err(e) => {
                return Err(e);
            },
        };
        if self.peek_as_keyword() {
            self.next_token();
            let name = match self.consume_identifier() {
                Ok(name) => name,
                Err(e) => {
                    return Err(e);
                },
            };
            match expression {
                Expression::IndexCapture(exp) => Ok(Expression::NameCapture(name, exp)),
                other => Ok(Expression::NameCapture(name, Box::new(other))),
            }
        } else {
            Ok(expression)
        }
    }

    fn parse_index_capture(&mut self) -> (result: Result<Expression, AnreError>)
        ensures
            reads_on(old(self).state(), final(self).state()),
            expression_outcome(result, final(self).state()) == spec_parse_index_capture(
                old(self).state(),
            ),
            result is Ok ==> final(self).state().tokens.len() < old(self).state().tokens.len(),
        decreases old(self).state().tokens.len(), 7nat,
    {
        if self.peek_token_and_equals(0, &Token::Hash) {
            self.next_token();
            let expression = match self.parse_method_call() {
                Ok(expression) => expression,
                Err(e) => {
                    return Err(e);
                },
            };
            if matches!(expression, Expression::NameCapture(_, _)) {
                Ok(expression)
            } else {
                Ok(Expression::IndexCapture(Box::new(expression)))
            }
        } else {
            self.parse_method_call()
        }
    }

    /// The tokens continue with `.`, an identifier and `(`.
    fn peek_method_call(&self) -> (found: bool)
        ensures
            found == at_method_call(self.state()),
    {
        self.peek_token_and_equals(0, &Token::Dot) && matches!(
            self.peek_token(1),
            Some(Token::Identifier(_))
        ) && self.peek_token_and_equals(2, &Token::ParenthesisOpen)
    }

    #[verifier::spinoff_prover]
    #[verifier::rlimit(60)]
    fn parse_method_call(&mut self) -> (result: Result<Expression, AnreError>)
        ensures
            reads_on(old(self).state(), final(self).state()),
            expression_outcome(result, final(self).state()) == spec_parse_method_call(
                old(self).state(),
            ),
            result is Ok ==> final(self).state().tokens.len() < old(self).state().tokens.len(),
        decreases old(self).state().tokens.len(), 6nat,
    {
        let ghost st0 = self.state();
        let mut expression = match self.parse_quantifier() {
            Ok(expression) => expression,
            Err(e) => {
                return Err(e);
            },
        };
        #[verifier::loop_isolation(false)]
        while self.peek_method_call()
            invariant
                reads_on(st0, self.state()),
                self.state().tokens.len() < st0.tokens.len(),
                spec_parse_method_call(st0) == spec_method_call_rest(expression@, self.state()),
            decreases self.state().tokens.len(),
        {
            let ghost st = self.state();
            let function_call = match self.continue_parse_method_call(expression) {
                Ok(function_call) => function_call,
                Err(e) => {
                    proof {
                        lemma_reads_on_trans(st0, st, self.state());
                    }
                    return Err(e);
                },
            };
            proof {
                lemma_reads_on_trans(st0, st, self.state());
            }
            expression = Expression::FunctionCall(Box::new(function_call));
        }
        Ok(expression)
    }

    #[verifier::spinoff_prover]
    #[verifier::rlimit(60)]
    fn continue_parse_method_call(&mut self, expression: Expression) -> (result: Result<
        FunctionCall,
        AnreError,
    >)
        requires
            at_method_call(old(self).state()),
        ensures
            reads_on(old(self).state(), final(self).state()),
            call_outcome(result, final(self).state()) == spec_continue_parse_method_call(
                expression@,
                old(self).state(),
            ),
            result is Ok ==> final(self).state().tokens.len() < old(self).state().tokens.len(),
        decreases old(self).state().tokens.len(), 4nat,
    {
        self.next_token();
        let identifier = match self.consume_identifier() {
            Ok(identifier) => identifier,
            Err(e) => {
                return Err(e);
            },
        };
        let name = match function_name_from_name(&identifier) {
            Some(name) => name,
            None => {
                return Err(unsupported_function_error(&identifier, self.last_range));
            },
        };
        self.next_token();
        let mut args: Vec<FunctionArgument> = Vec::new();
        let first = FunctionArgument::Expression(expression);
        proof {
            lemma_arguments_view_push(args@, first);
            assert(seq_arguments_view(args@) =~= seq![]);
        }
        args.push(first);
        let args = match self.parse_arguments(args) {
            Ok(args) => args,
            Err(e) => {
                return Err(e);
            },
        };
        match self.consume_closing_parenthesis() {
            Ok(()) => {},
            Err(e) => {
                return Err(e);
            },
        }
        Ok(FunctionCall { name, args })
    }

    /// The arguments of a call up to `)`, after `args`.
    #[verifier::spinoff_prover]
    #[verifier::rlimit(60)]
    fn parse_arguments(&mut self, args: Vec<FunctionArgument>) -> (result: Result<
        Vec<FunctionArgument>,
        AnreError,
    >)
        ensures
            reads_on(old(self).state(), final(self).state()),
            arguments_outcome(result, final(self).state()) == spec_arguments(
                seq_arguments_view(args@),
                old(self).state(),
            ),
            result is Ok ==> final(self).state().tokens.len() <= old(self).state().tokens.len(),
        decreases old(self).state().tokens.len(), 12nat,
    {
        let ghost st0 = self.state();
        let ghost args0 = seq_arguments_view(args@);
        let mut args = args;
        #[verifier::loop_isolation(false)]
        loop
            invariant
                reads_on(st0, self.state()),
                self.state().tokens.len() <= st0.tokens.len(),
                spec_arguments(args0, st0) == spec_arguments(
                    seq_arguments_view(args@),
                    self.state(),
                ),
            decreases self.state().tokens.len(),
        {
            let at_end = match self.peek_token(0) {
                Some(token) => same_symbol(token, &Token::ParenthesisClose),
                None => true,
            };
            if at_end {
                return Ok(args);
            }
            if matches!(self.peek_token(0), Some(Token::Number(_))) {
                let number = match self.consume_number() {
                    Ok(number) => number,
                    Err(e) => {
                        return Err(e);
                    },
                };
                let arg = FunctionArgument::Number(number);
                proof {
                    lemma_arguments_view_push(args@, arg);
                }
                args.push(arg);
            } else {
                let expression = match self.parse_expression() {
                    Ok(expression) => expression,
                    Err(e) => {
                        return Err(e);
                    },
                };
                let arg = FunctionArgument::Expression(expression);
                proof {
                    lemma_arguments_view_push(args@, arg);
                }
                args.push(arg);
            }
        }
    }

    #[verifier::spinoff_prover]
    #[verifier::rlimit(60)]
    fn parse_quantifier(&mut self) -> (result: Result<Expression, AnreError>)
        ensures
            reads_on(old(self).state(), final(self).state()),
            expression_outcome(result, final(self).state()) == spec_parse_quantifier(
                old(self).state(),
            ),
            result is Ok ==> final(self).state().tokens.len() < old(self).state().tokens.len(),
        decreases old(self).state().tokens.len(), 5nat,
    {
        let ghost st0 = self.state();
        let expression = match self.parse_primary_expression() {
            Ok(expression) => expression,
            Err(e) => {
                return Err(e);
            },
        };
        let ghost st1 = self.state();
        proof {
            lemma_reads_on_advance(st1);
            lemma_reads_on_trans(st0, st1, advance(st1));
        }
        let notation = match self.peek_token(0) {
            Some(token) => notation_of(token),
            None => None,
        };
        if let Some(name) = notation {
            let mut args: Vec<FunctionArgument> = Vec::new();
            let arg = FunctionArgument::Expression(expression);
            proof {
                lemma_arguments_view_push(args@, arg);
                assert(seq_arguments_view(args@) =~= seq![]);
            }
            args.push(arg);
            self.next_token();
            return Ok(Expression::FunctionCall(Box::new(FunctionCall { name, args })));
        }
        if !self.peek_token_and_equals(0, &Token::BraceOpen) {
            return Ok(expression);
        }
        let (repetition, lazy) = match self.continue_parse_repetition() {
            Ok(parsed) => parsed,
            Err(e) => {
                proof {
                    lemma_reads_on_trans(st0, st1, self.state());
                }
                return Err(e);
            },
        };
        proof {
            lemma_reads_on_trans(st0, st1, self.state());
        }
        repetition_expression(expression, repetition, lazy, self.last_range)
    }

    fn continue_parse_repetition(&mut self) -> (result: Result<(Repetition, bool), AnreError>)
        ensures
            reads_on(old(self).state(), final(self).state()),
            plain_outcome(result, final(self).state()) == spec_continue_parse_repetition(
                old(self).state(),
            ),
            result is Ok ==> final(self).state().tokens.len() < old(self).state().tokens.len(),
    {
        self.next_token();
        let from = match self.consume_number() {
            Ok(from) => from,
            Err(e) => {
                return Err(e);
            },
        };
        let repetition = if self.peek_token_and_equals(0, &Token::Range) {
            self.next_token();
            let to = match self.peek_token(0) {
                Some(Token::Number(v)) => Some(*v),
                _ => None,
            };
            match to {
                Some(to) => {
                    self.next_token();
                    Repetition::RepeatRange(from, to)
                },
                None => Repetition::RepeatFrom(from),
            }
        } else {
            Repetition::Repeat(from)
        };
        match self.consume_closing_brace() {
            Ok(()) => {},
            Err(e) => {
                return Err(e);
            },
        }
        let lazy = if self.peek_token_and_equals(0, &Token::Question) {
            self.next_token();
            true
        } else {
            false
        };
        Ok((repetition, lazy))
    }

    #[verifier::spinoff_prover]
    #[verifier::rlimit(60)]
    fn parse_primary_expression(&mut self) -> (result: Result<Expression, AnreError>)
        ensures
            reads_on(old(self).state(), final(self).state()),
            expression_outcome(result, final(self).state()) == spec_parse_primary_expression(
                old(self).state(),
            ),
            result is Ok ==> final(self).state().tokens.len() < old(self).state().tokens.len(),
            old(self).state().tokens.len() == 0 ==> result is Err && final(self).state() == old(
                self,
            ).state(),
        decreases old(self).state().tokens.len(), 4nat,
    {
        // 0: end, 1: group, 2: function call, 3: named back-reference,
        // 4: indexed back-reference, 5: literal
        let kind: u8 = match self.peek_token(0) {
            None => 0,
            Some(Token::ParenthesisOpen) => 1,
            Some(Token::Identifier(id)) => {
                if self.peek_token_and_equals(1, &Token::ParenthesisOpen) {
                    2
                } else if !text_is(id, "char_any") && preset_charset_from_name(id).is_none() {
                    3
                } else {
                    5
                }
            },
            Some(Token::Caret) => {
                if matches!(self.peek_token(1), Some(Token::Number(_))) {
                    4
                } else {
                    5
                }
            },
            Some(_) => 5,
        };
        if kind == 0 {
            return Err(AnreError::UnexpectedEndOfDocument(string_of("Expect an expression.")));
        } else if kind == 1 {
            return self.parse_group();
        } else if kind == 2 {
            return self.parse_function_call();
        } else if kind == 3 {
            match self.next_token() {
                Some(Token::Identifier(name)) => {
                    return Ok(Expression::BackReference(BackReference::Name(name)));
                },
                _ => {
                    proof {
                        assert(false);
                    }
                    return Err(AnreError::Message(string_of("")));
                },
            }
        } else if kind == 4 {
            self.next_token();
            let index = match self.consume_number() {
                Ok(index) => index,
                Err(e) => {
                    return Err(e);
                },
            };
            return Ok(Expression::BackReference(BackReference::Index(index)));
        }
        match self.parse_literal() {
            Ok(literal) => Ok(Expression::Literal(literal)),
            Err(e) => Err(e),
        }
    }

    fn parse_group(&mut self) -> (result: Result<Expression, AnreError>)
        requires
            peek_is(old(self).state(), 0, Token::ParenthesisOpen),
        ensures
            reads_on(old(self).state(), final(self).state()),
            expression_outcome(result, final(self).state()) == spec_parse_group(
                old(self).state(),
            ),
            result is Ok ==> final(self).state().tokens.len() < old(self).state().tokens.len(),
        decreases old(self).state().tokens.len(), 3nat,
    {
        self.next_token();
        let mut expressions = match self.parse_group_items(Vec::new()) {
            Ok(expressions) => expressions,
            Err(e) => {
                return Err(e);
            },
        };
        match self.consume_closing_parenthesis() {
            Ok(()) => {},
            Err(e) => {
                return Err(e);
            },
        }
        proof {
            lemma_expressions_view_index(expressions@, expressions@.len() as int);
        }
        if expressions.len() == 1 {
            let expression = expressions.remove(0);
            Ok(expression)
        } else {
            Ok(Expression::Group(expressions))
        }
    }

    /// The expressions of a group up to `)`, after `expressions`.
    #[verifier::spinoff_prover]
    #[verifier::rlimit(60)]
    fn parse_group_items(&mut self, expressions: Vec<Expression>) -> (result: Result<
        Vec<Expression>,
        AnreError,
    >)
        ensures
            reads_on(old(self).state(), final(self).state()),
            expressions_outcome(result, final(self).state()) == spec_group_items(
                seq_expressions_view(expressions@),
                old(self).state(),
            ),
            result is Ok ==> final(self).state().tokens.len() <= old(self).state().tokens.len(),
        decreases old(self).state().tokens.len(), 12nat,
    {
        let ghost st0 = self.state();
        let ghost exps0 = seq_expressions_view(expressions@);
        let mut expressions = expressions;
        #[verifier::loop_isolation(false)]
        loop
            invariant
                reads_on(st0, self.state()),
                self.state().tokens.len() <= st0.tokens.len(),
                spec_group_items(exps0, st0) == spec_group_items(
                    seq_expressions_view(expressions@),
                    self.state(),
                ),
            decreases self.state().tokens.len(),
        {
            let at_end = match self.peek_token(0) {
                Some(token) => same_symbol(token, &Token::ParenthesisClose),
                None => true,
            };
            if at_end {
                return Ok(expressions);
            }
            let expression = match self.parse_expression() {
                Ok(expression) => expression,
                Err(e) => {
                    return Err(e);
                },
            };
            proof {
                lemma_expressions_view_push(expressions@, expression);
            }
            expressions.push(expression);
        }
    }

    #[verifier::spinoff_prover]
    #[verifier::rlimit(60)]
    fn parse_function_call(&mut self) -> (result: Result<Expression, AnreError>)
        ensures
            reads_on(old(self).state(), final(self).state()),
            expression_outcome(result, final(self).state()) == spec_parse_function_call(
                old(self).state(),
            ),
            result is Ok ==> final(self).state().tokens.len() < old(self).state().tokens.len(),
            spec_consume_identifier(old(self).state()) is Err ==> final(self).state() == advance(
                old(self).state(),
            ),
            spec_consume_identifier(old(self).state()) matches Ok((id, after_name)) ==> (
            spec_function_name(id) is None ==> result is Err && final(self).state()
                == after_name),
        decreases old(self).state().tokens.len(), 3nat,
    {
        let identifier = match self.consume_identifier() {
            Ok(identifier) => identifier,
            Err(e) => {
                return Err(e);
            },
        };
        let name = match function_name_from_name(&identifier) {
            Some(name) => name,
            None => {
                return Err(unsupported_function_error(&identifier, self.last_range));
            },
        };
        match self.consume_opening_parenthesis() {
            Ok(()) => {},
            Err(e) => {
                return Err(e);
            },
        }
        proof {
            assert(seq_arguments_view(Seq::<FunctionArgument>::empty()) =~= seq![]);
        }
        let args = match self.parse_arguments(Vec::new()) {
            Ok(args) => args,
            Err(e) => {
                return Err(e);
            },
        };
        match self.consume_closing_parenthesis() {
            Ok(()) => {},
            Err(e) => {
                return Err(e);
            },
        }
        Ok(Expression::FunctionCall(Box::new(FunctionCall { name, args })))
    }

    #[verifier::spinoff_prover]
    #[verifier::rlimit(60)]
    fn parse_literal(&mut self) -> (result: Result<Literal, AnreError>)
        requires
            old(self).state().tokens.len() > 0,
            old(self).state().tokens[0].token matches Token::Identifier(id) ==> id@ == "char_any"@
                || spec_preset_charset(id@) is Some,
        ensures
            reads_on(old(self).state(), final(self).state()),
            literal_outcome(result, final(self).state()) == spec_parse_literal(old(self).state()),
            result is Ok ==> final(self).state().tokens.len() < old(self).state().tokens.len(),
        decreases old(self).state().tokens.len(), 2nat,
    {
        // 0: charset, 1: negative charset, 2: char, 3: string, 4: char_any,
        // 5: preset charset, 6: no literal
        let kind: u8 = match self.peek_token(0) {
            Some(Token::BracketOpen) => 0,
            Some(Token::Exclamation) => {
                if self.peek_token_and_equals(1, &Token::BracketOpen) {
                    1
                } else {
                    6
                }
            },
            Some(Token::Char(_)) => 2,
            Some(Token::String(_)) => 3,
            Some(Token::Identifier(id)) => {
                if text_is(id, "char_any") {
                    4
                } else {
                    5
                }
            },
            _ => 6,
        };
        if kind == 0 || kind == 1 {
            if kind == 1 {
                self.next_token();
            }
            let elements = match self.parse_charset_elements() {
                Ok(elements) => elements,
                Err(e) => {
                    return Err(e);
                },
            };
            return Ok(Literal::CharSet(CharSet { negative: kind == 1, elements }));
        }
        if kind == 6 {
            return Err(AnreError::MessageWithRange(string_of("Expect a literal."), self.last_range));
        }
        match self.next_token() {
            Some(Token::Char(c)) => Ok(Literal::Char(c)),
            Some(Token::String(s)) => Ok(Literal::String(s)),
            Some(Token::Identifier(id)) => {
                if kind == 4 {
                    Ok(Literal::AnyChar)
                } else {
                    match preset_charset_from_name(&id) {
                        Some(name) => Ok(Literal::PresetCharSet(name)),
                        None => {
                            proof {
                                assert(false);
                            }
                            Err(AnreError::Message(string_of("")))
                        },
                    }
                }
            },
            _ => {
                proof {
                    assert(false);
                }
                Err(AnreError::Message(string_of("")))
            },
        }
    }

    #[verifier::spinoff_prover]
    #[verifier::rlimit(60)]
    fn parse_charset_elements(&mut self) -> (result: Result<Vec<CharSetElement>, AnreError>)
        requires
            peek_is(old(self).state(), 0, Token::BracketOpen),
        ensures
            reads_on(old(self).state(), final(self).state()),
            elements_outcome(result, final(self).state()) == spec_parse_charset_elements(
                old(self).state(),
            ),
            result is Ok ==> final(self).state().tokens.len() < old(self).state().tokens.len(),
        decreases old(self).state().tokens.len(), 1nat,
    {
        let ghost st0 = self.state();
        self.next_token();
        let ghost st1 = self.state();
        proof {
            lemma_reads_on_advance(st0);
            assert(seq_elements_view(Seq::<CharSetElement>::empty()) =~= seq![]);
        }
        let elements = match self.parse_charset_items(Vec::new()) {
            Ok(elements) => elements,
            Err(e) => {
                proof {
                    lemma_reads_on_trans(st0, st1, self.state());
                }
                return Err(e);
            },
        };
        let ghost st2 = self.state();
        proof {
            lemma_reads_on_trans(st0, st1, st2);
            lemma_reads_on_advance(st2);
            lemma_reads_on_trans(st0, st2, advance(st2));
        }
        match self.consume_closing_bracket() {
            Ok(()) => {},
            Err(e) => {
                return Err(e);
            },
        }
        Ok(elements)
    }

    /// The elements of a charset up to `]`, after `elements`.
    #[verifier::spinoff_prover]
    #[verifier::rlimit(60)]
    fn parse_charset_items(&mut self, elements: Vec<CharSetElement>) -> (result: Result<
        Vec<CharSetElement>,
        AnreError,
    >)
        ensures
            reads_on(old(self).state(), final(self).state()),
            elements_outcome(result, final(self).state()) == spec_charset_items(
                seq_elements_view(elements@),
                old(self).state(),
            ),
            result is Ok ==> final(self).state().tokens.len() <= old(self).state().tokens.len(),
        decreases old(self).state().tokens.len(), 12nat,
    {
        let ghost st0 = self.state();
        let ghost elements0 = seq_elements_view(elements@);
        let mut elements = elements;
        #[verifier::loop_isolation(false)]
        loop
            invariant
                reads_on(st0, self.state()),
                self.state().tokens.len() <= st0.tokens.len(),
                spec_charset_items(elements0, st0) == spec_charset_items(
                    seq_elements_view(elements@),
                    self.state(),
                ),
            decreases self.state().tokens.len(),
        {
            let at_end = match self.peek_token(0) {
                Some(token) => same_symbol(token, &Token::BracketClose),
                None => true,
            };
            if at_end {
                return Ok(elements);
            }
            let start_range = *self.peek_range(0).unwrap();
            let expression = match self.parse_expression() {
                Ok(expression) => expression,
                Err(e) => {
                    return Err(e);
                },
            };
            let element = match expression {
                Expression::Literal(Literal::Char(c)) => {
                    if self.peek_token_and_equals(0, &Token::Range) {
                        self.next_token();
                        if self.peek_token(0).is_none() {
                            return Err(
                                AnreError::UnexpectedEndOfDocument(
                                    string_of("Expect a char literal after '..' in char range."),
                                ),
                            );
                        }
                        let end_range = *self.peek_range(0).unwrap();
                        let end_expression = match self.parse_expression() {
                            Ok(end_expression) => end_expression,
                            Err(e) => {
                                return Err(e);
                            },
                        };
                        match end_expression {
                            Expression::Literal(Literal::Char(end_char)) => {
                                CharSetElement::CharRange(
                                    CharRange { start: c, end_inclusive: end_char },
                                )
                            },
                            _ => {
                                let range = Range::merge(&end_range, &self.last_range);
                                return Err(
                                    AnreError::MessageWithRange(
                                        string_of("Expect a char literal."),
                                        range,
                                    ),
                                );
                            },
                        }
                    } else {
                        CharSetElement::Char(c)
                    }
                },
                Expression::Literal(Literal::PresetCharSet(name)) => {
                    CharSetElement::PresetCharSet(name)
                },
                Expression::Literal(Literal::CharSet(charset)) => {
                    CharSetElement::CharSet(Box::new(charset))
                },
                _ => {
                    let range = Range::merge(&start_range, &self.last_range);
                    return Err(
                        AnreError::MessageWithRange(
                            string_of("Unsupported char set element."),
                            range,
                        ),
                    );
                },
            };
            proof {
                lemma_elements_view_push(elements@, element);
            }
            elements.push(element);
        }
    }
}


/// The program of a token stream: its macros expanded, then parsed.
pub open spec fn spec_parse_tokens(tokens: Seq<TokenWithRange>) -> Result<ExpressionView, ErrorView> {
    match spec_expand(tokens) {
        Ok(expanded) => match spec_parse_program(
            ParseState { tokens: expanded, last_range: spec_default_range() },
        ) {
            Ok((exp, _)) => Ok(exp),
            Err(e) => Err(e),
        },
        Err(e) => Err(e),
    }
}

/// The outcome of parsing, as views.
pub open spec fn program_outcome(result: Result<Program, AnreError>) -> Result<ExpressionView, ErrorView> {
    match result {
        Ok(program) => Ok(program@),
        Err(e) => Err(e@),
    }
}

/// What parsing gives for an ANRE text: the program of its tokens after
/// macro expansion, or the error of lexing, expanding or parsing. Tokens of
/// the same views parse alike (`law_parse_depends_on_token_views`), so any
/// tokens of the lexed views give it.
pub open spec fn spec_parse_text(text: Seq<char>) -> Result<ExpressionView, ErrorView> {
    match spec_lex(text) {
        Ok(lexed) => spec_parse_tokens(
            choose|tokens: Seq<TokenWithRange>| tokens_view(tokens) == lexed,
        ),
        Err(e) => Err(e),
    }
}

/// Parses an ANRE text: lexes it, expands its macros and parses the tokens.
pub fn parse_from_str(s: &str) -> (result: Result<Program, AnreError>)
    requires
        s@.len() < usize::MAX,
    ensures
        program_outcome(result) == spec_parse_text(s@),
{
    let tokens = match lex_from_str(s) {
        Ok(tokens) => tokens,
        Err(e) => {
            return Err(e);
        },
    };
    let ghost lexed = tokens@;
    let expanded_tokens = match expand(tokens) {
        Ok(expanded) => expanded,
        Err(e) => {
            proof {
                assert(program_outcome(Err(e)) == spec_parse_tokens(lexed));
                lemma_parse_lexed(s@, lexed);
            }
            return Err(e);
        },
    };
    let mut parser = Parser::new(PeekableIter::new(expanded_tokens));
    let result = parser.parse_program();
    proof {
        assert(program_outcome(result) == spec_parse_tokens(lexed));
        lemma_parse_lexed(s@, lexed);
    }
    result
}

/// Tokens of the lexed views parse as the text does.
proof fn lemma_parse_lexed(text: Seq<char>, tokens: Seq<TokenWithRange>)
    requires
        spec_lex(text) == Ok::<Seq<(TokenView, Range)>, ErrorView>(tokens_view(tokens)),
    ensures
        spec_parse_text(text) == spec_parse_tokens(tokens),
{
    let chosen = choose|t: Seq<TokenWithRange>| tokens_view(t) == tokens_view(tokens);
    law_parse_depends_on_token_views(tokens, chosen);
}

} // verus!
