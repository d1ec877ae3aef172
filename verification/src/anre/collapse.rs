use vstd::prelude::*;

use crate::anre::parser::{
    ParseState, Repetition, advance, call_view, notation_function, repetition_call,
    spec_arguments, spec_continue_parse_method_call, spec_continue_parse_repetition,
    spec_group_items, spec_logic_or_rest, spec_method_call_rest, spec_parse_expression,
    spec_parse_function_call, spec_parse_group, spec_parse_index_capture, spec_parse_logic_or,
    spec_parse_method_call, spec_parse_named_capture, spec_parse_primary_expression,
    spec_parse_program, spec_parse_quantifier, spec_parse_tokens,
};
use crate::anre::macro_expander::spec_expand;
use crate::anre::token::TokenWithRange;
use crate::ast::{
    ArgumentView, ExpressionView, all_without_single_item_groups,
    arguments_without_single_item_groups, no_single_item_groups,
};
use crate::range::{Range, spec_default_range};

verus! {

proof fn lemma_expression(st: ParseState)
    ensures
        spec_parse_expression(st) matches Ok((e, _)) ==> no_single_item_groups(e),
    decreases st.tokens.len(), 11nat,
{
    lemma_logic_or(st);
}

proof fn lemma_logic_or(st: ParseState)
    ensures
        spec_parse_logic_or(st) matches Ok((e, _)) ==> no_single_item_groups(e),
    decreases st.tokens.len(), 10nat,
{
    lemma_named_capture(st);
    if let Ok((left, st1)) = spec_parse_named_capture(st) {
        if st1.tokens.len() <= st.tokens.len() {
            lemma_logic_or_rest(left, st1);
        }
    }
}

proof fn lemma_logic_or_rest(left: ExpressionView, st: ParseState)
    requires
        no_single_item_groups(left),
    ensures
        spec_logic_or_rest(left, st) matches Ok((e, _)) ==> no_single_item_groups(e),
    decreases st.tokens.len(), 9nat,
{
    if st.tokens.len() > 0 {
        lemma_expression(advance(st));
        if let Ok((right, st2)) = spec_parse_expression(advance(st)) {
            if st2.tokens.len() < st.tokens.len() {
                lemma_logic_or_rest(ExpressionView::Or(Box::new(left), Box::new(right)), st2);
            }
        }
    }
}

proof fn lemma_named_capture(st: ParseState)
    ensures
        spec_parse_named_capture(st) matches Ok((e, _)) ==> no_single_item_groups(e),
    decreases st.tokens.len(), 8nat,
{
    lemma_index_capture(st);
}

proof fn lemma_index_capture(st: ParseState)
    ensures
        spec_parse_index_capture(st) matches Ok((e, _)) ==> no_single_item_groups(e),
    decreases st.tokens.len(), 7nat,
{
    if st.tokens.len() > 0 {
        lemma_method_call(advance(st));
    }
    lemma_method_call(st);
}

proof fn lemma_method_call(st: ParseState)
    ensures
        spec_parse_method_call(st) matches Ok((e, _)) ==> no_single_item_groups(e),
    decreases st.tokens.len(), 6nat,
{
    lemma_quantifier(st);
    if let Ok((exp, st1)) = spec_parse_quantifier(st) {
        if st1.tokens.len() <= st.tokens.len() {
            lemma_method_call_rest(exp, st1);
        }
    }
}

proof fn lemma_method_call_rest(exp: ExpressionView, st: ParseState)
    requires
        no_single_item_groups(exp),
    ensures
        spec_method_call_rest(exp, st) matches Ok((e, _)) ==> no_single_item_groups(e),
    decreases st.tokens.len(), 5nat,
{
    lemma_continue_parse_method_call(exp, st);
    if let Ok((call, st2)) = spec_continue_parse_method_call(exp, st) {
        if st2.tokens.len() < st.tokens.len() {
            lemma_method_call_rest(call, st2);
        }
    }
}

proof fn lemma_continue_parse_method_call(exp: ExpressionView, st: ParseState)
    requires
        no_single_item_groups(exp),
    ensures
        spec_continue_parse_method_call(exp, st) matches Ok((e, _)) ==> no_single_item_groups(e),
    decreases st.tokens.len(), 4nat,
{
    let first = seq![ArgumentView::Expression(exp)];
    assert(arguments_without_single_item_groups(first));
    let st1 = advance(st);
    if st1.tokens.len() > 0 {
        let st3 = advance(advance(st1));
        if st3.tokens.len() < st.tokens.len() {
            lemma_arguments(first, st3);
        }
    }
}

proof fn lemma_arguments(args: Seq<ArgumentView>, st: ParseState)
    requires
        arguments_without_single_item_groups(args),
    ensures
        spec_arguments(args, st) matches Ok((a, _)) ==> arguments_without_single_item_groups(a),
    decreases st.tokens.len(), 12nat,
{
    if st.tokens.len() > 0 {
        if st.tokens[0].token is Number {
            let n = st.tokens[0].token->Number_0;
            assert(arguments_without_single_item_groups(args.push(ArgumentView::Number(n))));
            lemma_arguments(args.push(ArgumentView::Number(n)), advance(st));
        } else {
            lemma_expression(st);
            if let Ok((exp, st1)) = spec_parse_expression(st) {
                if st1.tokens.len() < st.tokens.len() {
                    let pushed = args.push(ArgumentView::Expression(exp));
                    assert(arguments_without_single_item_groups(pushed));
                    lemma_arguments(pushed, st1);
                }
            }
        }
    }
}

proof fn lemma_quantifier(st: ParseState)
    ensures
        spec_parse_quantifier(st) matches Ok((e, _)) ==> no_single_item_groups(e),
    decreases st.tokens.len(), 5nat,
{
    lemma_primary(st);
    if let Ok((exp, st1)) = spec_parse_primary_expression(st) {
        if st1.tokens.len() > 0 {
            if let Some(name) = notation_function(st1.tokens[0].token) {
                let call = call_view(name, seq![ArgumentView::Expression(exp)]);
                assert(no_single_item_groups(call)) by {
                    assert(arguments_without_single_item_groups(seq![ArgumentView::Expression(exp)]));
                }
            } else if let Ok(((repetition, lazy), st2)) = spec_continue_parse_repetition(st1) {
                lemma_repetition_call(exp, repetition, lazy, st2.last_range);
            }
        }
    }
}

proof fn lemma_repetition_call(exp: ExpressionView, repetition: Repetition, lazy: bool, range: Range)
    requires
        no_single_item_groups(exp),
    ensures
        repetition_call(exp, repetition, lazy, range) matches Ok(call) ==> no_single_item_groups(
            call,
        ),
{
    let base = ArgumentView::Expression(exp);
    match repetition {
        Repetition::RepeatRange(m, n) => {
            assert(arguments_without_single_item_groups(seq![base, ArgumentView::Number(n)]));
            assert(arguments_without_single_item_groups(
                seq![base, ArgumentView::Number(m), ArgumentView::Number(n)],
            ));
        },
        Repetition::Repeat(n) => {
            assert(arguments_without_single_item_groups(seq![base, ArgumentView::Number(n)]));
        },
        Repetition::RepeatFrom(n) => {
            assert(arguments_without_single_item_groups(seq![base, ArgumentView::Number(n)]));
        },
    }
}

proof fn lemma_primary(st: ParseState)
    ensures
        spec_parse_primary_expression(st) matches Ok((e, _)) ==> no_single_item_groups(e),
    decreases st.tokens.len(), 4nat,
{
    lemma_group(st);
    lemma_function_call(st);
}

proof fn lemma_group(st: ParseState)
    ensures
        spec_parse_group(st) matches Ok((e, _)) ==> no_single_item_groups(e),
    decreases st.tokens.len(), 3nat,
{
    let st1 = advance(st);
    if st1.tokens.len() < st.tokens.len() {
        lemma_group_items(seq![], st1);
    }
}

proof fn lemma_group_items(exps: Seq<ExpressionView>, st: ParseState)
    requires
        all_without_single_item_groups(exps),
    ensures
        spec_group_items(exps, st) matches Ok((all, _)) ==> all_without_single_item_groups(all),
    decreases st.tokens.len(), 12nat,
{
    if st.tokens.len() > 0 {
        lemma_expression(st);
        if let Ok((exp, st1)) = spec_parse_expression(st) {
            if st1.tokens.len() < st.tokens.len() {
                let pushed = exps.push(exp);
                assert(all_without_single_item_groups(pushed));
                lemma_group_items(pushed, st1);
            }
        }
    }
}

proof fn lemma_function_call(st: ParseState)
    ensures
        spec_parse_function_call(st) matches Ok((e, _)) ==> no_single_item_groups(e),
    decreases st.tokens.len(), 3nat,
{
    if st.tokens.len() > 1 {
        let st2 = advance(advance(st));
        if st2.tokens.len() < st.tokens.len() {
            lemma_arguments(seq![], st2);
        }
    }
}

/// Parsing collapses a group of one expression into that expression: no
/// program that parsing gives holds a group of exactly one expression.
pub proof fn law_parsed_program_has_no_single_item_groups(tokens: Seq<TokenWithRange>)
    ensures
        spec_parse_tokens(tokens) matches Ok(program) ==> no_single_item_groups(program),
{
    if let Ok(expanded) = spec_expand(tokens) {
        let st = ParseState { tokens: expanded, last_range: spec_default_range() };
        lemma_expression(st);
        assert(spec_parse_program(st) matches Ok((e, _)) ==> spec_parse_expression(st) matches Ok(
            (f, _),
        ) && f == e);
    }
}

} // verus!
