use vstd::prelude::*;

use crate::anre::lexer::tokens_view;
use crate::anre::macro_expander::{
    CloseSearch, is_define_keyword, spec_expand, spec_extract_definitions, spec_find_close,
    spec_first_define, spec_read_definition, spec_replace, spec_replace_all,
};
use crate::anre::parser::{
    ParseState, Parsed, advance, spec_arguments, spec_charset_items,
    spec_consume_identifier, spec_consume_number, spec_consume_token,
    spec_continue_parse_method_call, spec_continue_parse_repetition, spec_group_items,
    spec_logic_or_rest, spec_method_call_rest, spec_parse_charset_elements,
    spec_parse_expression, spec_parse_function_call, spec_parse_group, spec_parse_index_capture,
    spec_parse_literal, spec_parse_logic_or, spec_parse_method_call, spec_parse_named_capture,
    spec_parse_primary_expression, spec_parse_program, spec_parse_quantifier, spec_parse_tokens,
};
use crate::anre::token::{Token, TokenWithRange};
use crate::ast::{ArgumentView, CharSetElementView, ExpressionView, LiteralView};
use crate::error::ErrorView;
use crate::range::spec_default_range;

verus! {

/// Two parse states with tokens of the same views, after the same range.
spec fn alike_states(a: ParseState, b: ParseState) -> bool {
    tokens_view(a.tokens) == tokens_view(b.tokens) && a.last_range == b.last_range
}

/// Two outcomes of a parse step: the same error, or the same value and
/// alike states.
spec fn alike<T>(x: Parsed<T>, y: Parsed<T>) -> bool {
    match x {
        Ok((v, s)) => match y {
            Ok((w, t)) => v == w && alike_states(s, t),
            Err(_) => false,
        },
        Err(e) => match y {
            Ok(_) => false,
            Err(f) => e == f,
        },
    }
}

/// Two tokens of the same kind with the same values; the tokens without
/// text are equal.
spec fn same_token(x: Token, y: Token) -> bool {
    &&& x is Keyword <==> y is Keyword
    &&& x is Keyword ==> x->Keyword_0@ == y->Keyword_0@
    &&& x is Identifier <==> y is Identifier
    &&& x is Identifier ==> x->Identifier_0@ == y->Identifier_0@
    &&& x is String <==> y is String
    &&& x is String ==> x->String_0@ == y->String_0@
    &&& !(x is Keyword || x is Identifier || x is String) ==> x == y
}

/// Tokens of the same view are the same token, up to how their text is held.
proof fn lemma_token_view(x: Token, y: Token)
    requires
        x@ == y@,
    ensures
        same_token(x, y),
{
}

/// Token sequences of the same view agree at each place.
proof fn lemma_tokens_view_index(a: Seq<TokenWithRange>, b: Seq<TokenWithRange>, k: int)
    requires
        tokens_view(a) == tokens_view(b),
        0 <= k < a.len(),
    ensures
        a.len() == b.len(),
        a[k].token@ == b[k].token@,
        same_token(a[k].token, b[k].token),
        a[k].range == b[k].range,
{
    assert(tokens_view(a).len() == a.len());
    assert(tokens_view(b).len() == b.len());
    assert(tokens_view(a)[k] == a[k]@);
    assert(tokens_view(b)[k] == b[k]@);
    lemma_token_view(a[k].token, b[k].token);
}

proof fn lemma_first(a: ParseState, b: ParseState)
    requires
        alike_states(a, b),
    ensures
        a.tokens.len() == b.tokens.len(),
        a.tokens.len() > 0 ==> same_token(a.tokens[0].token, b.tokens[0].token) && a.tokens[0].range
            == b.tokens[0].range,
        a.tokens.len() > 1 ==> same_token(a.tokens[1].token, b.tokens[1].token),
        a.tokens.len() > 2 ==> same_token(a.tokens[2].token, b.tokens[2].token),
        alike_states(advance(a), advance(b)),
{
    assert(tokens_view(a.tokens).len() == a.tokens.len());
    assert(tokens_view(b.tokens).len() == b.tokens.len());
    if a.tokens.len() > 0 {
        lemma_tokens_view_index(a.tokens, b.tokens, 0);
        assert(tokens_view(a.tokens.drop_first()) =~= tokens_view(a.tokens).drop_first());
        assert(tokens_view(b.tokens.drop_first()) =~= tokens_view(b.tokens).drop_first());
    }
    if a.tokens.len() > 1 {
        lemma_tokens_view_index(a.tokens, b.tokens, 1);
    }
    if a.tokens.len() > 2 {
        lemma_tokens_view_index(a.tokens, b.tokens, 2);
    }
}


proof fn lemma_consume_identifier(a: ParseState, b: ParseState)
    requires
        alike_states(a, b),
    ensures
        alike(spec_consume_identifier(a), spec_consume_identifier(b)),
{
    lemma_first(a, b);
}

proof fn lemma_consume_number(a: ParseState, b: ParseState)
    requires
        alike_states(a, b),
    ensures
        alike(spec_consume_number(a), spec_consume_number(b)),
{
    lemma_first(a, b);
}

proof fn lemma_consume_token(a: ParseState, b: ParseState, expected: Token, description: Seq<char>)
    requires
        alike_states(a, b),
        !(expected is Keyword || expected is Identifier || expected is String),
    ensures
        alike(spec_consume_token(a, expected, description), spec_consume_token(b, expected, description)),
{
    lemma_first(a, b);
}

proof fn lemma_continue_repetition(a: ParseState, b: ParseState)
    requires
        alike_states(a, b),
    ensures
        alike(spec_continue_parse_repetition(a), spec_continue_parse_repetition(b)),
{
    lemma_first(a, b);
    lemma_consume_number(advance(a), advance(b));
    if let Ok((_, s2)) = spec_consume_number(advance(a)) {
        if let Ok((_, t2)) = spec_consume_number(advance(b)) {
            lemma_first(s2, t2);
            lemma_first(advance(s2), advance(t2));
            lemma_first(advance(advance(s2)), advance(advance(t2)));
            lemma_consume_token(s2, t2, Token::BraceClose, "closing brace"@);
            lemma_consume_token(advance(s2), advance(t2), Token::BraceClose, "closing brace"@);
            lemma_consume_token(
                advance(advance(s2)),
                advance(advance(t2)),
                Token::BraceClose,
                "closing brace"@,
            );
            if let Ok((_, s4)) = spec_consume_token(s2, Token::BraceClose, "closing brace"@) {
                if let Ok((_, t4)) = spec_consume_token(t2, Token::BraceClose, "closing brace"@) {
                    lemma_first(s4, t4);
                }
            }
            if let Ok((_, s4)) = spec_consume_token(advance(s2), Token::BraceClose, "closing brace"@) {
                if let Ok((_, t4)) = spec_consume_token(advance(t2), Token::BraceClose, "closing brace"@) {
                    lemma_first(s4, t4);
                }
            }
            if let Ok((_, s4)) = spec_consume_token(
                advance(advance(s2)),
                Token::BraceClose,
                "closing brace"@,
            ) {
                if let Ok((_, t4)) = spec_consume_token(
                    advance(advance(t2)),
                    Token::BraceClose,
                    "closing brace"@,
                ) {
                    lemma_first(s4, t4);
                }
            }
        }
    }
}


proof fn lemma_expression(a: ParseState, b: ParseState)
    requires
        alike_states(a, b),
    ensures
        alike(spec_parse_expression(a), spec_parse_expression(b)),
    decreases a.tokens.len(), 11nat,
{
    lemma_logic_or(a, b);
}

#[verifier::spinoff_prover]
proof fn lemma_logic_or(a: ParseState, b: ParseState)
    requires
        alike_states(a, b),
    ensures
        alike(spec_parse_logic_or(a), spec_parse_logic_or(b)),
    decreases a.tokens.len(), 10nat,
{
    lemma_first(a, b);
    lemma_named_capture(a, b);
    if let Ok((left, s1)) = spec_parse_named_capture(a) {
        if let Ok((_, t1)) = spec_parse_named_capture(b) {
            lemma_first(s1, t1);
            if s1.tokens.len() <= a.tokens.len() {
                lemma_logic_or_rest(left, s1, t1);
            }
        }
    }
}

proof fn lemma_logic_or_rest(left: ExpressionView, a: ParseState, b: ParseState)
    requires
        alike_states(a, b),
    ensures
        alike(spec_logic_or_rest(left, a), spec_logic_or_rest(left, b)),
    decreases a.tokens.len(), 9nat,
{
    lemma_first(a, b);
    if a.tokens.len() > 0 {
        lemma_expression(advance(a), advance(b));
        if let Ok((right, s2)) = spec_parse_expression(advance(a)) {
            if let Ok((_, t2)) = spec_parse_expression(advance(b)) {
                lemma_first(s2, t2);
                if s2.tokens.len() < a.tokens.len() {
                    lemma_logic_or_rest(ExpressionView::Or(Box::new(left), Box::new(right)), s2, t2);
                }
            }
        }
    }
}

proof fn lemma_named_capture(a: ParseState, b: ParseState)
    requires
        alike_states(a, b),
    ensures
        alike(spec_parse_named_capture(a), spec_parse_named_capture(b)),
    decreases a.tokens.len(), 8nat,
{
    lemma_index_capture(a, b);
    if let Ok((_, s1)) = spec_parse_index_capture(a) {
        if let Ok((_, t1)) = spec_parse_index_capture(b) {
            lemma_first(s1, t1);
            lemma_consume_identifier(advance(s1), advance(t1));
        }
    }
}

proof fn lemma_index_capture(a: ParseState, b: ParseState)
    requires
        alike_states(a, b),
    ensures
        alike(spec_parse_index_capture(a), spec_parse_index_capture(b)),
    decreases a.tokens.len(), 7nat,
{
    lemma_first(a, b);
    if a.tokens.len() > 0 {
        lemma_method_call(advance(a), advance(b));
    }
    lemma_method_call(a, b);
}

proof fn lemma_method_call(a: ParseState, b: ParseState)
    requires
        alike_states(a, b),
    ensures
        alike(spec_parse_method_call(a), spec_parse_method_call(b)),
    decreases a.tokens.len(), 6nat,
{
    lemma_first(a, b);
    lemma_quantifier(a, b);
    if let Ok((exp, s1)) = spec_parse_quantifier(a) {
        if let Ok((_, t1)) = spec_parse_quantifier(b) {
            lemma_first(s1, t1);
            if s1.tokens.len() <= a.tokens.len() {
                lemma_method_call_rest(exp, s1, t1);
            }
        }
    }
}

proof fn lemma_method_call_rest(exp: ExpressionView, a: ParseState, b: ParseState)
    requires
        alike_states(a, b),
    ensures
        alike(spec_method_call_rest(exp, a), spec_method_call_rest(exp, b)),
    decreases a.tokens.len(), 5nat,
{
    lemma_first(a, b);
    lemma_continue_parse_method_call(exp, a, b);
    if let Ok((call, s2)) = spec_continue_parse_method_call(exp, a) {
        if let Ok((_, t2)) = spec_continue_parse_method_call(exp, b) {
            lemma_first(s2, t2);
            if s2.tokens.len() < a.tokens.len() {
                lemma_method_call_rest(call, s2, t2);
            }
        }
    }
}

proof fn lemma_continue_parse_method_call(exp: ExpressionView, a: ParseState, b: ParseState)
    requires
        alike_states(a, b),
    ensures
        alike(spec_continue_parse_method_call(exp, a), spec_continue_parse_method_call(exp, b)),
    decreases a.tokens.len(), 4nat,
{
    lemma_first(a, b);
    lemma_consume_identifier(advance(a), advance(b));
    if let Ok((_, s2)) = spec_consume_identifier(advance(a)) {
        if let Ok((_, t2)) = spec_consume_identifier(advance(b)) {
            lemma_first(s2, t2);
            let s3 = advance(s2);
            if s3.tokens.len() < a.tokens.len() {
                let first = seq![ArgumentView::Expression(exp)];
                lemma_arguments(first, s3, advance(t2));
                if let Ok((_, s4)) = spec_arguments(first, s3) {
                    if let Ok((_, t4)) = spec_arguments(first, advance(t2)) {
                        lemma_consume_token(s4, t4, Token::ParenthesisClose, "closing parenthesis"@);
                    }
                }
            }
        }
    }
}

proof fn lemma_arguments(args: Seq<ArgumentView>, a: ParseState, b: ParseState)
    requires
        alike_states(a, b),
    ensures
        alike(spec_arguments(args, a), spec_arguments(args, b)),
    decreases a.tokens.len(), 12nat,
{
    lemma_first(a, b);
    if a.tokens.len() > 0 {
        if a.tokens[0].token is Number {
            lemma_arguments(
                args.push(ArgumentView::Number(a.tokens[0].token->Number_0)),
                advance(a),
                advance(b),
            );
        }
        lemma_expression(a, b);
        if let Ok((exp, s1)) = spec_parse_expression(a) {
            if let Ok((_, t1)) = spec_parse_expression(b) {
                lemma_first(s1, t1);
                if s1.tokens.len() < a.tokens.len() {
                    lemma_arguments(args.push(ArgumentView::Expression(exp)), s1, t1);
                }
            }
        }
    }
}

proof fn lemma_quantifier(a: ParseState, b: ParseState)
    requires
        alike_states(a, b),
    ensures
        alike(spec_parse_quantifier(a), spec_parse_quantifier(b)),
    decreases a.tokens.len(), 5nat,
{
    lemma_primary(a, b);
    if let Ok((_, s1)) = spec_parse_primary_expression(a) {
        if let Ok((_, t1)) = spec_parse_primary_expression(b) {
            lemma_first(s1, t1);
            lemma_continue_repetition(s1, t1);
        }
    }
}

proof fn lemma_primary(a: ParseState, b: ParseState)
    requires
        alike_states(a, b),
    ensures
        alike(spec_parse_primary_expression(a), spec_parse_primary_expression(b)),
    decreases a.tokens.len(), 4nat,
{
    lemma_first(a, b);
    lemma_group(a, b);
    lemma_function_call(a, b);
    lemma_literal(a, b);
    lemma_consume_number(advance(a), advance(b));
}

proof fn lemma_group(a: ParseState, b: ParseState)
    requires
        alike_states(a, b),
    ensures
        alike(spec_parse_group(a), spec_parse_group(b)),
    decreases a.tokens.len(), 3nat,
{
    lemma_first(a, b);
    let s1 = advance(a);
    if s1.tokens.len() < a.tokens.len() {
        lemma_group_items(seq![], s1, advance(b));
        if let Ok((_, s2)) = spec_group_items(seq![], s1) {
            if let Ok((_, t2)) = spec_group_items(seq![], advance(b)) {
                lemma_consume_token(s2, t2, Token::ParenthesisClose, "closing parenthesis"@);
            }
        }
    }
}

proof fn lemma_group_items(exps: Seq<ExpressionView>, a: ParseState, b: ParseState)
    requires
        alike_states(a, b),
    ensures
        alike(spec_group_items(exps, a), spec_group_items(exps, b)),
    decreases a.tokens.len(), 12nat,
{
    lemma_first(a, b);
    if a.tokens.len() > 0 {
        lemma_expression(a, b);
        if let Ok((exp, s1)) = spec_parse_expression(a) {
            if let Ok((_, t1)) = spec_parse_expression(b) {
                lemma_first(s1, t1);
                if s1.tokens.len() < a.tokens.len() {
                    lemma_group_items(exps.push(exp), s1, t1);
                }
            }
        }
    }
}

proof fn lemma_function_call(a: ParseState, b: ParseState)
    requires
        alike_states(a, b),
    ensures
        alike(spec_parse_function_call(a), spec_parse_function_call(b)),
    decreases a.tokens.len(), 3nat,
{
    lemma_consume_identifier(a, b);
    if let Ok((_, s1)) = spec_consume_identifier(a) {
        if let Ok((_, t1)) = spec_consume_identifier(b) {
            lemma_consume_token(s1, t1, Token::ParenthesisOpen, "opening parenthesis"@);
            if let Ok((_, s2)) = spec_consume_token(s1, Token::ParenthesisOpen, "opening parenthesis"@) {
                if let Ok((_, t2)) = spec_consume_token(
                    t1,
                    Token::ParenthesisOpen,
                    "opening parenthesis"@,
                ) {
                    if s2.tokens.len() < a.tokens.len() {
                        lemma_arguments(seq![], s2, t2);
                        if let Ok((_, s3)) = spec_arguments(seq![], s2) {
                            if let Ok((_, t3)) = spec_arguments(seq![], t2) {
                                lemma_consume_token(
                                    s3,
                                    t3,
                                    Token::ParenthesisClose,
                                    "closing parenthesis"@,
                                );
                            }
                        }
                    }
                }
            }
        }
    }
}

proof fn lemma_literal(a: ParseState, b: ParseState)
    requires
        alike_states(a, b),
    ensures
        alike(spec_parse_literal(a), spec_parse_literal(b)),
    decreases a.tokens.len(), 2nat,
{
    lemma_first(a, b);
    lemma_charset_elements(a, b);
    if a.tokens.len() > 0 {
        lemma_charset_elements(advance(a), advance(b));
    }
}

proof fn lemma_charset_elements(a: ParseState, b: ParseState)
    requires
        alike_states(a, b),
    ensures
        alike(spec_parse_charset_elements(a), spec_parse_charset_elements(b)),
    decreases a.tokens.len(), 1nat,
{
    lemma_first(a, b);
    let s1 = advance(a);
    if s1.tokens.len() < a.tokens.len() {
        lemma_charset_items(seq![], s1, advance(b));
        if let Ok((_, s2)) = spec_charset_items(seq![], s1) {
            if let Ok((_, t2)) = spec_charset_items(seq![], advance(b)) {
                lemma_consume_token(s2, t2, Token::BracketClose, "closing bracket"@);
            }
        }
    }
}

#[verifier::spinoff_prover]
proof fn lemma_charset_items(elements: Seq<CharSetElementView>, a: ParseState, b: ParseState)
    requires
        alike_states(a, b),
    ensures
        alike(spec_charset_items(elements, a), spec_charset_items(elements, b)),
    decreases a.tokens.len(), 12nat,
{
    lemma_first(a, b);
    if a.tokens.len() > 0 {
        lemma_expression(a, b);
        if let Ok((exp, s1)) = spec_parse_expression(a) {
            if let Ok((_, t1)) = spec_parse_expression(b) {
                lemma_first(s1, t1);
                if s1.tokens.len() < a.tokens.len() {
                    let s2 = advance(s1);
                    let t2 = advance(t1);
                    lemma_first(s2, t2);
                    lemma_expression(s2, t2);
                    if let Ok((end_exp, s3)) = spec_parse_expression(s2) {
                        if let Ok((_, t3)) = spec_parse_expression(t2) {
                            lemma_first(s3, t3);
                            if s3.tokens.len() < a.tokens.len() {
                                if let ExpressionView::Literal(
                                    LiteralView::Char(c),
                                ) = exp {
                                    if let ExpressionView::Literal(
                                        LiteralView::Char(d),
                                    ) = end_exp {
                                        lemma_charset_items(
                                            elements.push(CharSetElementView::CharRange(c, d)),
                                            s3,
                                            t3,
                                        );
                                    }
                                }
                            }
                        }
                    }
                    match exp {
                        ExpressionView::Literal(LiteralView::Char(c)) => {
                            lemma_charset_items(elements.push(CharSetElementView::Char(c)), s1, t1);
                        },
                        ExpressionView::Literal(LiteralView::PresetCharSet(name)) => {
                            lemma_charset_items(
                                elements.push(CharSetElementView::PresetCharSet(name)),
                                s1,
                                t1,
                            );
                        },
                        ExpressionView::Literal(LiteralView::CharSet(charset)) => {
                            lemma_charset_items(
                                elements.push(CharSetElementView::CharSet(Box::new(charset))),
                                s1,
                                t1,
                            );
                        },
                        _ => {},
                    }
                }
            }
        }
    }
}

/// A program read from tokens of the same views is the same program, or the
/// same error.
proof fn lemma_program(a: ParseState, b: ParseState)
    requires
        alike_states(a, b),
    ensures
        alike(spec_parse_program(a), spec_parse_program(b)),
{
    lemma_expression(a, b);
    if let Ok((_, s1)) = spec_parse_expression(a) {
        if let Ok((_, t1)) = spec_parse_expression(b) {
            lemma_first(s1, t1);
        }
    }
}


/// Definitions with the same names and bodies of the same views.
spec fn alike_definitions(
    x: Seq<(Seq<char>, Seq<TokenWithRange>)>,
    y: Seq<(Seq<char>, Seq<TokenWithRange>)>,
) -> bool {
    &&& x.len() == y.len()
    &&& forall|i: int|
        0 <= i < x.len() ==> (#[trigger] x[i]).0 == y[i].0 && tokens_view(x[i].1) == tokens_view(
            y[i].1,
        )
}

proof fn lemma_view_subrange(t: Seq<TokenWithRange>, from: int, to: int)
    requires
        0 <= from <= to <= t.len(),
    ensures
        tokens_view(t.subrange(from, to)) == tokens_view(t).subrange(from, to),
{
    assert(tokens_view(t.subrange(from, to)) =~= tokens_view(t).subrange(from, to));
}

proof fn lemma_view_concat(x: Seq<TokenWithRange>, y: Seq<TokenWithRange>)
    ensures
        tokens_view(x + y) == tokens_view(x) + tokens_view(y),
{
    assert(tokens_view(x + y) =~= tokens_view(x) + tokens_view(y));
}

/// The first `define` keyword is the first place that holds one.
proof fn lemma_first_define_is_first(x: Seq<TokenWithRange>)
    ensures
        match spec_first_define(x) {
            Some(i) => 0 <= i < x.len() && is_define_keyword(x[i].token) && forall|j: int|
                0 <= j < i ==> !is_define_keyword(#[trigger] x[j].token),
            None => forall|j: int| 0 <= j < x.len() ==> !is_define_keyword(#[trigger] x[j].token),
        },
{
    if exists|i: int| 0 <= i < x.len() && is_define_keyword(#[trigger] x[i].token) {
        let w = choose|i: int| 0 <= i < x.len() && is_define_keyword(#[trigger] x[i].token);
        lemma_least_define(x, w);
    }
}

/// Below a place that holds a `define` keyword there is a first one.
proof fn lemma_least_define(x: Seq<TokenWithRange>, w: int)
    requires
        0 <= w < x.len(),
        is_define_keyword(x[w].token),
    ensures
        exists|i: int|
            0 <= i < x.len() && is_define_keyword(#[trigger] x[i].token) && forall|j: int|
                0 <= j < i ==> !is_define_keyword(#[trigger] x[j].token),
    decreases w,
{
    if exists|j: int| 0 <= j < w && is_define_keyword(#[trigger] x[j].token) {
        let j = choose|j: int| 0 <= j < w && is_define_keyword(#[trigger] x[j].token);
        lemma_least_define(x, j);
    } else {
        assert(forall|j: int| 0 <= j < w ==> !is_define_keyword(#[trigger] x[j].token));
    }
}

#[verifier::spinoff_prover]
proof fn lemma_first_define(x: Seq<TokenWithRange>, y: Seq<TokenWithRange>)
    requires
        tokens_view(x) == tokens_view(y),
    ensures
        spec_first_define(x) == spec_first_define(y),
{
    assert(tokens_view(x).len() == x.len());
    assert(tokens_view(y).len() == y.len());
    assert forall|i: int| 0 <= i < x.len() implies is_define_keyword(#[trigger] x[i].token)
        == is_define_keyword(y[i].token) by {
        lemma_tokens_view_index(x, y, i);
    }
    lemma_first_define_is_first(x);
    lemma_first_define_is_first(y);
    match spec_first_define(x) {
        Some(i) => {
            assert(is_define_keyword(y[i].token));
            match spec_first_define(y) {
                Some(j) => {
                    if j < i {
                        assert(is_define_keyword(x[j].token));
                    }
                    if i < j {
                        assert(!is_define_keyword(y[i].token));
                    }
                },
                None => {},
            }
        },
        None => {
            if let Some(j) = spec_first_define(y) {
                assert(is_define_keyword(x[j].token));
            }
        },
    }
}

proof fn lemma_find_close(x: Seq<TokenWithRange>, y: Seq<TokenWithRange>, index: int, depth: nat)
    requires
        tokens_view(x) == tokens_view(y),
    ensures
        spec_find_close(x, index, depth) == spec_find_close(y, index, depth),
    decreases x.len() - index,
{
    assert(tokens_view(x).len() == x.len());
    assert(tokens_view(y).len() == y.len());
    if 0 <= index < x.len() {
        lemma_tokens_view_index(x, y, index);
        lemma_find_close(x, y, index + 1, depth + 1);
        lemma_find_close(x, y, index + 1, depth);
        if depth > 1 {
            lemma_find_close(x, y, index + 1, (depth - 1) as nat);
        }
    }
}

proof fn lemma_replace(
    x: Seq<TokenWithRange>,
    y: Seq<TokenWithRange>,
    name: Seq<char>,
    rx: Seq<TokenWithRange>,
    ry: Seq<TokenWithRange>,
)
    requires
        tokens_view(x) == tokens_view(y),
        tokens_view(rx) == tokens_view(ry),
    ensures
        tokens_view(spec_replace(x, name, rx)) == tokens_view(spec_replace(y, name, ry)),
    decreases x.len(),
{
    assert(tokens_view(x).len() == x.len());
    assert(tokens_view(y).len() == y.len());
    if x.len() > 0 {
        lemma_tokens_view_index(x, y, x.len() - 1);
        assert(tokens_view(x.drop_last()) =~= tokens_view(x).drop_last());
        assert(tokens_view(y.drop_last()) =~= tokens_view(y).drop_last());
        lemma_replace(x.drop_last(), y.drop_last(), name, rx, ry);
        let tail_x = if x.last().token matches Token::Identifier(id) && id@ == name {
            rx
        } else {
            seq![x.last()]
        };
        let tail_y = if y.last().token matches Token::Identifier(id) && id@ == name {
            ry
        } else {
            seq![y.last()]
        };
        assert(tokens_view(tail_x) =~= tokens_view(tail_y));
        lemma_view_concat(spec_replace(x.drop_last(), name, rx), tail_x);
        lemma_view_concat(spec_replace(y.drop_last(), name, ry), tail_y);
    }
}

proof fn lemma_replace_all(
    px: Seq<TokenWithRange>,
    py: Seq<TokenWithRange>,
    dx: Seq<(Seq<char>, Seq<TokenWithRange>)>,
    dy: Seq<(Seq<char>, Seq<TokenWithRange>)>,
)
    requires
        tokens_view(px) == tokens_view(py),
        alike_definitions(dx, dy),
    ensures
        tokens_view(spec_replace_all(px, dx)) == tokens_view(spec_replace_all(py, dy)),
    decreases dx.len(),
{
    if dx.len() > 0 {
        let (name, body) = dx[0];
        let (name_y, body_y) = dy[0];
        lemma_replace(px, py, name, body, body_y);
        let rest_x = dx.drop_first().map_values(
            |d: (Seq<char>, Seq<TokenWithRange>)| (d.0, spec_replace(d.1, name, body)),
        );
        let rest_y = dy.drop_first().map_values(
            |d: (Seq<char>, Seq<TokenWithRange>)| (d.0, spec_replace(d.1, name_y, body_y)),
        );
        assert forall|i: int| 0 <= i < rest_x.len() implies (#[trigger] rest_x[i]).0 == rest_y[i].0
            && tokens_view(rest_x[i].1) == tokens_view(rest_y[i].1) by {
            assert(dx[i + 1].0 == dy[i + 1].0);
            lemma_replace(dx[i + 1].1, dy[i + 1].1, name, body, body_y);
        }
        lemma_replace_all(spec_replace(px, name, body), spec_replace(py, name_y, body_y), rest_x, rest_y);
    }
}


proof fn lemma_find_close_unmatched_within(t: Seq<TokenWithRange>, index: int, depth: nat)
    ensures
        spec_find_close(t, index, depth) matches CloseSearch::Unmatched(k) ==> 0 <= k < t.len(),
    decreases t.len() - index,
{
    if 0 <= index < t.len() {
        lemma_find_close_unmatched_within(t, index + 1, depth + 1);
        lemma_find_close_unmatched_within(t, index + 1, depth);
        if depth > 1 {
            lemma_find_close_unmatched_within(t, index + 1, (depth - 1) as nat);
        }
    }
}

/// Two outcomes that agree: the same error, or values that agree by `same`.
spec fn agree<T>(x: Result<T, ErrorView>, y: Result<T, ErrorView>, same: spec_fn(T, T) -> bool) -> bool {
    match x {
        Ok(v) => match y {
            Ok(w) => same(v, w),
            Err(_) => false,
        },
        Err(e) => match y {
            Ok(_) => false,
            Err(f) => e == f,
        },
    }
}

proof fn lemma_read_definition(x: Seq<TokenWithRange>, y: Seq<TokenWithRange>)
    requires
        tokens_view(x) == tokens_view(y),
    ensures
        agree(
            spec_read_definition(x),
            spec_read_definition(y),
            |a: (Seq<char>, Seq<TokenWithRange>), b: (Seq<char>, Seq<TokenWithRange>)|
                a.0 == b.0 && tokens_view(a.1) == tokens_view(b.1),
        ),
{
    assert(tokens_view(x).len() == x.len());
    assert(tokens_view(y).len() == y.len());
    if x.len() >= 2 {
        lemma_tokens_view_index(x, y, 1);
        lemma_view_subrange(x, 2, x.len() as int);
        lemma_view_subrange(y, 2, y.len() as int);
    }
}

proof fn lemma_statement_views(x: Seq<TokenWithRange>, y: Seq<TokenWithRange>, start: int, end: int)
    requires
        tokens_view(x) == tokens_view(y),
        0 <= start < end < x.len(),
    ensures
        x.len() == y.len(),
        tokens_view(x.subrange(start, end + 1)) == tokens_view(y.subrange(start, end + 1)),
        tokens_view(x.subrange(0, start) + x.subrange(end + 1, x.len() as int)) == tokens_view(
            y.subrange(0, start) + y.subrange(end + 1, y.len() as int),
        ),
{
    assert(tokens_view(x).len() == x.len());
    assert(tokens_view(y).len() == y.len());
    lemma_view_subrange(x, start, end + 1);
    lemma_view_subrange(y, start, end + 1);
    lemma_view_subrange(x, 0, start);
    lemma_view_subrange(y, 0, start);
    lemma_view_subrange(x, end + 1, x.len() as int);
    lemma_view_subrange(y, end + 1, y.len() as int);
    lemma_view_concat(x.subrange(0, start), x.subrange(end + 1, x.len() as int));
    lemma_view_concat(y.subrange(0, start), y.subrange(end + 1, y.len() as int));
}

#[verifier::spinoff_prover]
proof fn lemma_extract_definitions(
    x: Seq<TokenWithRange>,
    y: Seq<TokenWithRange>,
    fx: Seq<(Seq<char>, Seq<TokenWithRange>)>,
    fy: Seq<(Seq<char>, Seq<TokenWithRange>)>,
)
    requires
        tokens_view(x) == tokens_view(y),
        alike_definitions(fx, fy),
    ensures
        agree(
            spec_extract_definitions(x, fx),
            spec_extract_definitions(y, fy),
            |
                a: (Seq<TokenWithRange>, Seq<(Seq<char>, Seq<TokenWithRange>)>),
                b: (Seq<TokenWithRange>, Seq<(Seq<char>, Seq<TokenWithRange>)>),
            |
                tokens_view(a.0) == tokens_view(b.0) && alike_definitions(a.1, b.1),
        ),
    decreases x.len(),
{
    assert(tokens_view(x).len() == x.len());
    assert(tokens_view(y).len() == y.len());
    lemma_first_define(x, y);
    if let Some(start) = spec_first_define(x) {
        lemma_find_close(x, y, start + 1, 0);
        lemma_find_close_unmatched_within(x, start + 1, 0);
        match spec_find_close(x, start + 1, 0) {
            CloseSearch::Found(end) => {
                if 0 <= start < end < x.len() {
                    lemma_statement_views(x, y, start, end);
                    lemma_read_definition(x.subrange(start, end + 1), y.subrange(start, end + 1));
                    if let Ok(dx) = spec_read_definition(x.subrange(start, end + 1)) {
                        let dy = spec_read_definition(y.subrange(start, end + 1))->Ok_0;
                        assert(alike_definitions(fx.push(dx), fy.push(dy)));
                        lemma_extract_definitions(
                            x.subrange(0, start) + x.subrange(end + 1, x.len() as int),
                            y.subrange(0, start) + y.subrange(end + 1, y.len() as int),
                            fx.push(dx),
                            fy.push(dy),
                        );
                    }
                }
            },
            CloseSearch::Unmatched(index) => {
                lemma_tokens_view_index(x, y, index);
            },
            CloseSearch::NotFound => {},
        }
    }
}

/// Macro expansion of tokens of the same views gives tokens of the same
/// views, or the same error.
proof fn lemma_expand(x: Seq<TokenWithRange>, y: Seq<TokenWithRange>)
    requires
        tokens_view(x) == tokens_view(y),
    ensures
        agree(
            spec_expand(x),
            spec_expand(y),
            |a: Seq<TokenWithRange>, b: Seq<TokenWithRange>| tokens_view(a) == tokens_view(b),
        ),
{
    lemma_extract_definitions(x, y, seq![], seq![]);
    if let Ok((px, dx)) = spec_extract_definitions(x, seq![]) {
        if let Ok((py, dy)) = spec_extract_definitions(y, seq![]) {
            lemma_replace_all(px, py, dx, dy);
        }
    }
}

/// Parsing depends on the tokens' views alone: tokens of the same views,
/// kinds, texts and ranges, give the same program or the same error.
pub proof fn law_parse_depends_on_token_views(x: Seq<TokenWithRange>, y: Seq<TokenWithRange>)
    requires
        tokens_view(x) == tokens_view(y),
    ensures
        spec_parse_tokens(x) == spec_parse_tokens(y),
{
    lemma_expand(x, y);
    if let Ok(ex) = spec_expand(x) {
        if let Ok(ey) = spec_expand(y) {
            let a = ParseState { tokens: ex, last_range: spec_default_range() };
            let b = ParseState { tokens: ey, last_range: spec_default_range() };
            lemma_program(a, b);
        }
    }
}

} // verus!
