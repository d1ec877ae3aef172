use vstd::prelude::*;

use crate::anre::parser::{
    ParseState, Parsed, Repetition, advance, call_view, notation_function, repetition_call,
    spec_arguments, spec_continue_parse_method_call, spec_continue_parse_repetition,
    spec_function_name, spec_parse_expression, spec_parse_function_call,
    spec_parse_index_capture, spec_parse_literal, spec_parse_method_call,
    spec_parse_named_capture, spec_parse_primary_expression, spec_parse_quantifier,
};
use crate::anre::token::{Token, TokenWithRange};
use crate::ast::{ArgumentView, ExpressionView, FunctionName};
use crate::error::ErrorView;
use crate::range::Range;

verus! {

/// The parse state with the given tokens still to read, after a token
/// spanning `last_range`.
pub open spec fn parse_state(tokens: Seq<TokenWithRange>, last_range: Range) -> ParseState {
    ParseState { tokens, last_range }
}

/// The same tokens still to read, after a token spanning `range`.
spec fn relabeled(st: ParseState, range: Range) -> ParseState {
    ParseState { tokens: st.tokens, last_range: range }
}

/// A success of `a` is a success of `b` with the same value and the same
/// tokens left; where `a` read one of the `n` tokens it was given, the two
/// final states are equal.
spec fn succeeds_alike<T>(a: Parsed<T>, b: Parsed<T>, n: int) -> bool {
    match a {
        Ok((v, s)) => match b {
            Ok((w, t)) => w == v && t.tokens == s.tokens && (s.tokens.len() < n ==> t == s),
            Err(_) => false,
        },
        Err(_) => true,
    }
}

proof fn lemma_literal(st: ParseState, r: Range)
    requires
        st.tokens.len() > 0,
    ensures
        spec_parse_literal(st) is Ok ==> spec_parse_literal(relabeled(st, r)) == spec_parse_literal(st),
{
    assert(advance(relabeled(st, r)) == advance(st));
}

proof fn lemma_primary(st: ParseState, r: Range)
    ensures
        succeeds_alike(
            spec_parse_primary_expression(st),
            spec_parse_primary_expression(relabeled(st, r)),
            st.tokens.len() as int,
        ),
{
    if st.tokens.len() > 0 {
        assert(advance(relabeled(st, r)) == advance(st));
        lemma_literal(st, r);
    }
}

proof fn lemma_quantifier(st: ParseState, r: Range)
    ensures
        succeeds_alike(
            spec_parse_quantifier(st),
            spec_parse_quantifier(relabeled(st, r)),
            st.tokens.len() as int,
        ),
{
    lemma_primary(st, r);
    if let Ok((_, st1)) = spec_parse_primary_expression(st) {
        if let Ok((_, t1)) = spec_parse_primary_expression(relabeled(st, r)) {
            if st1.tokens.len() > 0 {
                assert(advance(t1) == advance(st1));
            }
        }
    }
}

proof fn lemma_method_call(st: ParseState, r: Range)
    ensures
        succeeds_alike(
            spec_parse_method_call(st),
            spec_parse_method_call(relabeled(st, r)),
            st.tokens.len() as int,
        ),
{
    lemma_quantifier(st, r);
    if let Ok((_, st1)) = spec_parse_quantifier(st) {
        if let Ok((_, t1)) = spec_parse_quantifier(relabeled(st, r)) {
            if st1.tokens.len() > 0 {
                assert(advance(t1) == advance(st1));
            }
        }
    }
}

proof fn lemma_index_capture(st: ParseState, r: Range)
    ensures
        succeeds_alike(
            spec_parse_index_capture(st),
            spec_parse_index_capture(relabeled(st, r)),
            st.tokens.len() as int,
        ),
{
    lemma_method_call(st, r);
    if st.tokens.len() > 0 {
        assert(advance(relabeled(st, r)) == advance(st));
    }
}

proof fn lemma_named_capture(st: ParseState, r: Range)
    ensures
        succeeds_alike(
            spec_parse_named_capture(st),
            spec_parse_named_capture(relabeled(st, r)),
            st.tokens.len() as int,
        ),
{
    lemma_index_capture(st, r);
    if let Ok((_, st1)) = spec_parse_index_capture(st) {
        if let Ok((_, t1)) = spec_parse_index_capture(relabeled(st, r)) {
            if st1.tokens.len() > 0 {
                assert(advance(t1) == advance(st1));
            }
        }
    }
}

proof fn lemma_expression(st: ParseState, r: Range)
    ensures
        succeeds_alike(
            spec_parse_expression(st),
            spec_parse_expression(relabeled(st, r)),
            st.tokens.len() as int,
        ),
{
    lemma_named_capture(st, r);
    if let Ok((_, st1)) = spec_parse_named_capture(st) {
        if let Ok((_, t1)) = spec_parse_named_capture(relabeled(st, r)) {
            if st1.tokens.len() > 0 {
                assert(advance(t1) == advance(st1));
            }
        }
    }
}

proof fn lemma_arguments(args: Seq<ArgumentView>, st: ParseState, r: Range)
    ensures
        succeeds_alike(
            spec_arguments(args, st),
            spec_arguments(args, relabeled(st, r)),
            st.tokens.len() as int,
        ),
{
    if st.tokens.len() > 0 {
        assert(advance(relabeled(st, r)) == advance(st));
        lemma_expression(st, r);
    }
}

/// A method-like call `receiver.name(arguments)` parses as the call
/// `name(receiver, arguments)`: where the receiver's tokens, read as the
/// first argument of the call, give the receiver's expression, the two forms
/// give the same expression and stop at the same place whenever either one
/// succeeds.
#[verifier::spinoff_prover]
#[verifier::rlimit(40)]
pub proof fn law_method_call_is_function_call(
    receiver_exp: ExpressionView,
    receiver: Seq<TokenWithRange>,
    dot: TokenWithRange,
    name: TokenWithRange,
    open: TokenWithRange,
    rest: Seq<TokenWithRange>,
    before_method: Range,
    before_function: Range,
)
    requires
        dot.token == Token::Dot,
        name.token is Identifier,
        open.token == Token::ParenthesisOpen,
        receiver.len() > 0,
        !(receiver[0].token is Number),
        receiver[0].token != Token::ParenthesisClose,
        spec_parse_expression(parse_state(receiver + rest, open.range)) matches Ok((e, s)) && e
            == receiver_exp && s.tokens == rest,
    ensures
        spec_continue_parse_method_call(
            receiver_exp,
            parse_state(seq![dot, name, open] + rest, before_method),
        ) is Ok || spec_parse_function_call(
            parse_state(seq![name, open] + receiver + rest, before_function),
        ) is Ok ==> spec_continue_parse_method_call(
            receiver_exp,
            parse_state(seq![dot, name, open] + rest, before_method),
        ) == spec_parse_function_call(
            parse_state(seq![name, open] + receiver + rest, before_function),
        ),
{
    let method_tokens = seq![dot, name, open] + rest;
    let function_tokens = seq![name, open] + receiver + rest;
    assert(method_tokens.drop_first() =~= seq![name, open] + rest);
    assert((seq![name, open] + rest).drop_first() =~= seq![open] + rest);
    assert((seq![open] + rest).drop_first() =~= rest);
    assert(function_tokens.drop_first() =~= seq![open] + receiver + rest);
    assert((seq![open] + receiver + rest).drop_first() =~= receiver + rest);
    assert(function_tokens[0] == name);
    assert((seq![open] + receiver + rest)[0] == open);
    assert((receiver + rest)[0] == receiver[0]);
    let first = seq![ArgumentView::Expression(receiver_exp)];
    assert(seq![].push(ArgumentView::Expression(receiver_exp)) =~= first);
    let after_open = parse_state(rest, open.range);
    if let Ok((_, s)) = spec_parse_expression(parse_state(receiver + rest, open.range)) {
        assert(relabeled(after_open, s.last_range) == s);
        lemma_arguments(first, after_open, s.last_range);
        lemma_arguments(first, s, open.range);
        assert(relabeled(s, open.range) == after_open);
    }
}

/// A quantifier written as a notation after an expression, `exp?`, `exp+`,
/// `exp*` or their lazy forms, parses as the call of the function that it
/// stands for, `optional(exp)` and so on: where the expression's tokens give
/// the same expression before the notation and as the call's argument, both
/// forms give that call and stop before the same tokens.
pub proof fn law_notation_is_function_call(
    exp: ExpressionView,
    tokens: Seq<TokenWithRange>,
    notation: TokenWithRange,
    name: TokenWithRange,
    open: TokenWithRange,
    close: TokenWithRange,
    rest: Seq<TokenWithRange>,
    before_notation: Range,
    before_function: Range,
)
    requires
        notation_function(notation.token) is Some,
        name.token matches Token::Identifier(id) && spec_function_name(id@) == notation_function(
            notation.token,
        ),
        open.token == Token::ParenthesisOpen,
        close.token == Token::ParenthesisClose,
        tokens.len() > 0,
        !(tokens[0].token is Number),
        tokens[0].token != Token::ParenthesisClose,
        spec_parse_primary_expression(parse_state(tokens + seq![notation] + rest, before_notation))
            matches Ok((e, s)) && e == exp && s.tokens == seq![notation] + rest,
        spec_parse_expression(parse_state(tokens + seq![close] + rest, open.range)) matches Ok(
            (e, s),
        ) && e == exp && s.tokens == seq![close] + rest,
    ensures
        spec_parse_quantifier(parse_state(tokens + seq![notation] + rest, before_notation))
            matches Ok((e, s)) && e == call_view(
            notation_function(notation.token)->0,
            seq![ArgumentView::Expression(exp)],
        ) && s.tokens == rest,
        spec_parse_function_call(
            parse_state(seq![name, open] + tokens + seq![close] + rest, before_function),
        ) matches Ok((e, s)) && e == call_view(
            notation_function(notation.token)->0,
            seq![ArgumentView::Expression(exp)],
        ) && s.tokens == rest,
{
    lemma_notation_form(exp, tokens, notation, rest, before_notation);
    lemma_call_form(exp, tokens, name, open, close, rest, before_function);
}

proof fn lemma_notation_form(
    exp: ExpressionView,
    tokens: Seq<TokenWithRange>,
    notation: TokenWithRange,
    rest: Seq<TokenWithRange>,
    before: Range,
)
    requires
        notation_function(notation.token) is Some,
        spec_parse_primary_expression(parse_state(tokens + seq![notation] + rest, before))
            matches Ok((e, s)) && e == exp && s.tokens == seq![notation] + rest,
    ensures
        spec_parse_quantifier(parse_state(tokens + seq![notation] + rest, before)) matches Ok(
            (e, s),
        ) && e == call_view(
            notation_function(notation.token)->0,
            seq![ArgumentView::Expression(exp)],
        ) && s.tokens == rest,
{
    assert((seq![notation] + rest)[0] == notation);
    assert((seq![notation] + rest).drop_first() =~= rest);
}

#[verifier::spinoff_prover]
proof fn lemma_call_form(
    exp: ExpressionView,
    tokens: Seq<TokenWithRange>,
    name: TokenWithRange,
    open: TokenWithRange,
    close: TokenWithRange,
    rest: Seq<TokenWithRange>,
    before: Range,
)
    requires
        name.token is Identifier,
        spec_function_name(name.token->Identifier_0@) is Some,
        open.token == Token::ParenthesisOpen,
        close.token == Token::ParenthesisClose,
        tokens.len() > 0,
        !(tokens[0].token is Number),
        tokens[0].token != Token::ParenthesisClose,
        spec_parse_expression(parse_state(tokens + seq![close] + rest, open.range)) matches Ok(
            (e, s),
        ) && e == exp && s.tokens == seq![close] + rest,
    ensures
        spec_parse_function_call(
            parse_state(seq![name, open] + tokens + seq![close] + rest, before),
        ) matches Ok((e, s)) && e == call_view(
            spec_function_name(name.token->Identifier_0@)->0,
            seq![ArgumentView::Expression(exp)],
        ) && s.tokens == rest,
{
    let all = seq![name, open] + tokens + seq![close] + rest;
    let after_name = seq![open] + tokens + seq![close] + rest;
    let inner = tokens + seq![close] + rest;
    assert(all.drop_first() =~= after_name);
    assert(after_name.drop_first() =~= inner);
    assert(all[0] == name);
    assert(after_name[0] == open);
    assert(inner[0] == tokens[0]);
    assert((seq![close] + rest)[0] == close);
    assert((seq![close] + rest).drop_first() =~= rest);
    assert(seq![].push(ArgumentView::Expression(exp)) =~= seq![ArgumentView::Expression(exp)]);
    let st2 = parse_state(inner, open.range);
    assert(advance(parse_state(after_name, name.range)) == st2);
    if let Ok((e, s)) = spec_parse_expression(st2) {
        assert(spec_arguments(seq![], st2) == spec_arguments(
            seq![ArgumentView::Expression(exp)],
            s,
        ));
    }
}
/// The numbers that a run of number tokens holds.
pub open spec fn number_values(numbers: Seq<TokenWithRange>) -> Seq<usize> {
    numbers.map_values(|t: TokenWithRange| t.token->Number_0)
}

/// The numbers as arguments of a call.
pub open spec fn numeric_arguments(counts: Seq<usize>) -> Seq<ArgumentView> {
    counts.map_values(|n: usize| ArgumentView::Number(n))
}

/// The function and the numbers of the call that a repetition in braces
/// stands for; none for a lazy fixed repetition.
pub open spec fn braces_call(repetition: Repetition, lazy: bool) -> Option<(FunctionName, Seq<usize>)> {
    match repetition {
        Repetition::Repeat(n) => if lazy {
            None
        } else {
            Some((FunctionName::Repeat, seq![n]))
        },
        Repetition::RepeatFrom(n) => Some(
            (
                if lazy {
                    FunctionName::RepeatFromLazy
                } else {
                    FunctionName::RepeatFrom
                },
                seq![n],
            ),
        ),
        Repetition::RepeatRange(m, n) => if m == n {
            if lazy {
                None
            } else {
                Some((FunctionName::Repeat, seq![n]))
            }
        } else {
            Some(
                (
                    if lazy {
                        FunctionName::RepeatRangeLazy
                    } else {
                        FunctionName::RepeatRange
                    },
                    seq![m, n],
                ),
            )
        },
    }
}

proof fn lemma_number_arguments(
    args: Seq<ArgumentView>,
    numbers: Seq<TokenWithRange>,
    close: TokenWithRange,
    rest: Seq<TokenWithRange>,
    last: Range,
)
    requires
        forall|k: int| 0 <= k < numbers.len() ==> (#[trigger] numbers[k]).token is Number,
        close.token == Token::ParenthesisClose,
    ensures
        spec_arguments(args, parse_state(numbers + seq![close] + rest, last)) matches Ok((a, s))
            && a == args + numeric_arguments(number_values(numbers)) && s.tokens == seq![close]
            + rest,
    decreases numbers.len(),
{
    let all = numbers + seq![close] + rest;
    if numbers.len() == 0 {
        assert(all =~= seq![close] + rest);
        assert(args + numeric_arguments(number_values(numbers)) =~= args);
    } else {
        let first = numbers[0];
        let tail = numbers.drop_first();
        assert(all[0] == first);
        assert(all.drop_first() =~= tail + seq![close] + rest);
        let pushed = args.push(ArgumentView::Number(first.token->Number_0));
        lemma_number_arguments(pushed, tail, close, rest, first.range);
        assert(pushed + numeric_arguments(number_values(tail)) =~= args + numeric_arguments(
            number_values(numbers),
        ));
    }
}

proof fn lemma_braces_call(exp: ExpressionView, repetition: Repetition, lazy: bool, range: Range)
    requires
        braces_call(repetition, lazy) is Some,
    ensures
        repetition_call(exp, repetition, lazy, range) == Ok::<ExpressionView, ErrorView>(
            call_view(
                (braces_call(repetition, lazy)->0).0,
                seq![ArgumentView::Expression(exp)] + numeric_arguments(
                    (braces_call(repetition, lazy)->0).1,
                ),
            ),
        ),
{
    let base = seq![ArgumentView::Expression(exp)];
    match repetition {
        Repetition::Repeat(n) => {
            assert(base + numeric_arguments(seq![n]) =~= seq![
                ArgumentView::Expression(exp),
                ArgumentView::Number(n),
            ]);
        },
        Repetition::RepeatFrom(n) => {
            assert(base + numeric_arguments(seq![n]) =~= seq![
                ArgumentView::Expression(exp),
                ArgumentView::Number(n),
            ]);
        },
        Repetition::RepeatRange(m, n) => {
            assert(base + numeric_arguments(seq![n]) =~= seq![
                ArgumentView::Expression(exp),
                ArgumentView::Number(n),
            ]);
            assert(base + numeric_arguments(seq![m, n]) =~= seq![
                ArgumentView::Expression(exp),
                ArgumentView::Number(m),
                ArgumentView::Number(n),
            ]);
        },
    }
}

#[verifier::spinoff_prover]
proof fn lemma_numbers_call_form(
    exp: ExpressionView,
    tokens: Seq<TokenWithRange>,
    name: TokenWithRange,
    open: TokenWithRange,
    numbers: Seq<TokenWithRange>,
    close: TokenWithRange,
    rest: Seq<TokenWithRange>,
    before: Range,
)
    requires
        name.token is Identifier,
        spec_function_name(name.token->Identifier_0@) is Some,
        open.token == Token::ParenthesisOpen,
        close.token == Token::ParenthesisClose,
        forall|k: int| 0 <= k < numbers.len() ==> (#[trigger] numbers[k]).token is Number,
        tokens.len() > 0,
        !(tokens[0].token is Number),
        tokens[0].token != Token::ParenthesisClose,
        spec_parse_expression(parse_state(tokens + numbers + seq![close] + rest, open.range))
            matches Ok((e, s)) && e == exp && s.tokens == numbers + seq![close] + rest,
    ensures
        spec_parse_function_call(
            parse_state(seq![name, open] + tokens + numbers + seq![close] + rest, before),
        ) matches Ok((e, s)) && e == call_view(
            spec_function_name(name.token->Identifier_0@)->0,
            seq![ArgumentView::Expression(exp)] + numeric_arguments(number_values(numbers)),
        ) && s.tokens == rest,
{
    let all = seq![name, open] + tokens + numbers + seq![close] + rest;
    let after_name = seq![open] + tokens + numbers + seq![close] + rest;
    let inner = tokens + numbers + seq![close] + rest;
    assert(all.drop_first() =~= after_name);
    assert(after_name.drop_first() =~= inner);
    assert(all[0] == name);
    assert(after_name[0] == open);
    assert(inner[0] == tokens[0]);
    assert((seq![close] + rest)[0] == close);
    assert((seq![close] + rest).drop_first() =~= rest);
    let first = seq![ArgumentView::Expression(exp)];
    assert(seq![].push(ArgumentView::Expression(exp)) =~= first);
    let st2 = parse_state(inner, open.range);
    assert(advance(parse_state(after_name, name.range)) == st2);
    if let Ok((e, s)) = spec_parse_expression(st2) {
        assert(s == parse_state(numbers + seq![close] + rest, s.last_range));
        lemma_number_arguments(first, numbers, close, rest, s.last_range);
        assert(spec_arguments(seq![], st2) == spec_arguments(first, s));
    }
}

/// A repetition written in braces after an expression, `exp{n}`, `exp{m..}`,
/// `exp{m..n}` or a lazy form, parses as the call of the function that it
/// stands for with the expression and the numbers, such as `repeat(exp, n)`:
/// where the call is written with those numbers and the expression's tokens
/// give the same expression before the braces and as the call's first
/// argument, both forms give the same expression and stop before the same
/// tokens.
pub proof fn law_repetition_is_function_call(
    exp: ExpressionView,
    tokens: Seq<TokenWithRange>,
    braces: Seq<TokenWithRange>,
    repetition: Repetition,
    lazy: bool,
    function: FunctionName,
    name: TokenWithRange,
    open: TokenWithRange,
    numbers: Seq<TokenWithRange>,
    close: TokenWithRange,
    rest: Seq<TokenWithRange>,
    before_braces: Range,
    before_function: Range,
)
    requires
        name.token is Identifier,
        spec_function_name(name.token->Identifier_0@) == Some(function),
        open.token == Token::ParenthesisOpen,
        close.token == Token::ParenthesisClose,
        forall|k: int| 0 <= k < numbers.len() ==> (#[trigger] numbers[k]).token is Number,
        tokens.len() > 0,
        !(tokens[0].token is Number),
        tokens[0].token != Token::ParenthesisClose,
        braces.len() > 0,
        braces[0].token == Token::BraceOpen,
        spec_parse_primary_expression(parse_state(tokens + braces + rest, before_braces))
            matches Ok((e, s)) && e == exp && s.tokens == braces + rest,
        spec_continue_parse_repetition(parse_state(braces + rest, before_braces)) matches Ok(
            (found, s),
        ) && found == (repetition, lazy) && s.tokens == rest,
        braces_call(repetition, lazy) == Some((function, number_values(numbers))),
        spec_parse_expression(parse_state(tokens + numbers + seq![close] + rest, open.range))
            matches Ok((e, s)) && e == exp && s.tokens == numbers + seq![close] + rest,
    ensures
        spec_parse_quantifier(parse_state(tokens + braces + rest, before_braces)) matches Ok(
            (e, s),
        ) && e == call_view(
            function,
            seq![ArgumentView::Expression(exp)] + numeric_arguments(number_values(numbers)),
        ) && s.tokens == rest,
        spec_parse_function_call(
            parse_state(seq![name, open] + tokens + numbers + seq![close] + rest, before_function),
        ) matches Ok((e, s)) && e == call_view(
            function,
            seq![ArgumentView::Expression(exp)] + numeric_arguments(number_values(numbers)),
        ) && s.tokens == rest,
{
    lemma_numbers_call_form(exp, tokens, name, open, numbers, close, rest, before_function);
    if let Ok((_, st1)) = spec_parse_primary_expression(
        parse_state(tokens + braces + rest, before_braces),
    ) {
        assert(st1.tokens[0] == braces[0]);
        assert(advance(st1) == advance(parse_state(braces + rest, before_braces)));
        if let Ok((_, s)) = spec_continue_parse_repetition(st1) {
            lemma_braces_call(exp, repetition, lazy, s.last_range);
        }
    }
}

} // verus!
