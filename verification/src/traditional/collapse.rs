use vstd::prelude::*;

use crate::ast::{
    ArgumentView, ExpressionView, FunctionName, all_without_single_item_groups,
    arguments_without_single_item_groups, no_single_item_groups,
};
use crate::compiler::quantified;
use crate::range::Range;
use crate::traditional::parser::{
    append_item, binary_call, spec_alternation, spec_atom, spec_group_body,
    spec_items, spec_parse_regex, spec_quantified_atom, spec_quantifier, spec_sequence,
};
use crate::traditional::token::{Repetition, TokenView};

verus! {

proof fn lemma_quantified(name: FunctionName, exp: ExpressionView, numbers: Seq<usize>)
    requires
        no_single_item_groups(exp),
    ensures
        no_single_item_groups(quantified(name, exp, numbers)),
{
    let args = seq![ArgumentView::Expression(exp)] + numbers.map_values(
        |n: usize| ArgumentView::Number(n),
    );
    assert(arguments_without_single_item_groups(args)) by {
        assert forall|i: int| 0 <= i < args.len() implies (#[trigger] args[i] matches ArgumentView::Expression(arg)
            ==> no_single_item_groups(arg)) by {
            if i > 0 {
                assert(args[i] == ArgumentView::Number(numbers[i - 1]));
            }
        }
    }
}

proof fn lemma_binary_call(name: FunctionName, first: ExpressionView, second: ExpressionView)
    requires
        no_single_item_groups(first),
        no_single_item_groups(second),
    ensures
        no_single_item_groups(binary_call(name, first, second)),
{
    assert(arguments_without_single_item_groups(
        seq![ArgumentView::Expression(first), ArgumentView::Expression(second)],
    ));
}

proof fn lemma_append_item(items: Seq<ExpressionView>, item: ExpressionView)
    requires
        all_without_single_item_groups(items),
        no_single_item_groups(item),
    ensures
        all_without_single_item_groups(append_item(items, item)),
{
    assert(all_without_single_item_groups(items.push(item)));
    if items.len() > 0 {
        assert(all_without_single_item_groups(items.drop_last()));
    }
}

proof fn lemma_quantifier(toks: Seq<(TokenView, Range)>, p: int, item: ExpressionView)
    requires
        no_single_item_groups(item),
    ensures
        no_single_item_groups(spec_quantifier(toks, p, item).0),
{
    if 0 <= p < toks.len() {
        lemma_quantified(FunctionName::ZeroOrMore, item, seq![]);
        lemma_quantified(FunctionName::ZeroOrMoreLazy, item, seq![]);
        lemma_quantified(FunctionName::OneOrMore, item, seq![]);
        lemma_quantified(FunctionName::OneOrMoreLazy, item, seq![]);
        lemma_quantified(FunctionName::Optional, item, seq![]);
        lemma_quantified(FunctionName::OptionalLazy, item, seq![]);
        match toks[p].0 {
            TokenView::Repetition(repetition, _) => match repetition {
                Repetition::Repeat(n) => {
                    lemma_quantified(FunctionName::Repeat, item, seq![n]);
                },
                Repetition::RepeatFrom(n) => {
                    lemma_quantified(FunctionName::RepeatFrom, item, seq![n]);
                    lemma_quantified(FunctionName::RepeatFromLazy, item, seq![n]);
                },
                Repetition::RepeatRange(m, n) => {
                    lemma_quantified(FunctionName::RepeatRange, item, seq![m, n]);
                    lemma_quantified(FunctionName::RepeatRangeLazy, item, seq![m, n]);
                },
            },
            _ => {},
        }
    }
}

proof fn lemma_atom(toks: Seq<(TokenView, Range)>, p: int)
    ensures
        spec_atom(toks, p) matches Ok((e, _)) ==> no_single_item_groups(e),
    decreases toks.len() - p, 0nat,
{
    if 0 <= p < toks.len() {
        lemma_group_body(toks, p + 1);
    }
}

proof fn lemma_quantified_atom(toks: Seq<(TokenView, Range)>, p: int)
    ensures
        spec_quantified_atom(toks, p) matches Ok((e, _)) ==> no_single_item_groups(e),
    decreases toks.len() - p, 1nat,
{
    lemma_atom(toks, p);
    if let Ok((item, next)) = spec_atom(toks, p) {
        lemma_quantifier(toks, next, item);
    }
}

proof fn lemma_items(
    toks: Seq<(TokenView, Range)>,
    p: int,
    items: Seq<ExpressionView>,
    pending: Option<(bool, ExpressionView)>,
)
    requires
        all_without_single_item_groups(items),
        pending matches Some((_, previous)) ==> no_single_item_groups(previous),
    ensures
        spec_items(toks, p, items, pending) matches Ok((e, _)) ==> no_single_item_groups(e),
    decreases toks.len() - p, 2nat,
{
    if 0 <= p < toks.len() {
        lemma_group_body(toks, p + 1);
        if let Ok((inner, next)) = spec_group_body(toks, p + 1) {
            if p < next <= toks.len() {
                lemma_items(toks, next, items, Some((toks[p].0 is LookBehindNegativeGroupStart, inner)));
                if items.len() > 0 {
                    lemma_binary_call(FunctionName::IsBefore, items.last(), inner);
                    lemma_binary_call(FunctionName::IsNotBefore, items.last(), inner);
                    let name = if toks[p].0 is LookAheadNegativeGroupStart {
                        FunctionName::IsNotBefore
                    } else {
                        FunctionName::IsBefore
                    };
                    let replaced = items.drop_last().push(binary_call(name, items.last(), inner));
                    assert(all_without_single_item_groups(replaced));
                    lemma_items(toks, next, replaced, pending);
                }
            }
        }
        lemma_quantified_atom(toks, p);
        if let Ok((item, next)) = spec_quantified_atom(toks, p) {
            if p < next <= toks.len() {
                if let Some((negative, previous)) = pending {
                    lemma_binary_call(FunctionName::IsAfter, item, previous);
                    lemma_binary_call(FunctionName::IsNotAfter, item, previous);
                }
                let applied = match pending {
                    Some((negative, previous)) => binary_call(
                        if negative {
                            FunctionName::IsNotAfter
                        } else {
                            FunctionName::IsAfter
                        },
                        item,
                        previous,
                    ),
                    None => item,
                };
                lemma_append_item(items, applied);
                lemma_items(toks, next, append_item(items, applied), None);
            }
        }
    }
}

proof fn lemma_sequence(toks: Seq<(TokenView, Range)>, p: int)
    ensures
        spec_sequence(toks, p) matches Ok((e, _)) ==> no_single_item_groups(e),
    decreases toks.len() - p, 3nat,
{
    lemma_items(toks, p, seq![], None);
}

proof fn lemma_alternation(toks: Seq<(TokenView, Range)>, p: int)
    ensures
        spec_alternation(toks, p) matches Ok((e, _)) ==> no_single_item_groups(e),
    decreases toks.len() - p, 4nat,
{
    lemma_sequence(toks, p);
    if let Ok((_, next)) = spec_sequence(toks, p) {
        if p <= next && 0 <= next < toks.len() {
            lemma_alternation(toks, next + 1);
        }
    }
}

proof fn lemma_group_body(toks: Seq<(TokenView, Range)>, p: int)
    ensures
        spec_group_body(toks, p) matches Ok((e, _)) ==> no_single_item_groups(e),
    decreases toks.len() - p, 5nat,
{
    lemma_alternation(toks, p);
}

/// Reading a traditional regular expression gives no group of exactly one
/// expression: a sequence of one item, such as the inside of `(?:a)`, is
/// that item.
pub proof fn law_parsed_regex_has_no_single_item_groups(toks: Seq<(TokenView, Range)>)
    ensures
        spec_parse_regex(toks) matches Ok(program) ==> no_single_item_groups(program),
{
    lemma_alternation(toks, 0);
}

} // verus!
