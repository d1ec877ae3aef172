use vstd::prelude::*;

use crate::ast::{
    ArgumentView, BackReference, BackReferenceView, CharRange, CharSet, CharSetElement,
    CharSetElementView, CharSetView, Expression, ExpressionView, FunctionArgument, FunctionCall,
    FunctionName, Literal, LiteralView, PresetCharSetName, Program, argument_view,
    charset_element_view, expression_view, lemma_arguments_view_index,
    lemma_elements_view_index, lemma_expressions_view_index, seq_arguments_view,
    seq_elements_view, seq_expressions_view,
};
use crate::anre::parser::{parse_from_str, spec_parse_text};
use crate::traditional::parser::spec_parse_regex_text;
use crate::error::{AnreError, ErrorView};
use crate::match_length_calculator::{
    MatchLength, calculate_match_length, match_length_computable, spec_match_length,
};
use crate::object_file::{
    CharSetItem, Component, MapView, RepetitionType, Route, RouteMap, Transition,
    TransitionView, empty_map, lemma_closed_with_node,
    lemma_closed_with_path, lemma_closed_with_ports, map_closed,
    map_with_group, map_with_node, map_with_path, map_with_ports, map_with_route, ports_within,
    spec_group_index_by_name, transition_refers_within,
};
use crate::text::{decimal, push_decimal, push_str, string_of};

verus! {

/// What emitting gives: the component and the map after it; or an error
/// (`Err(Some(..))`); or `Err(None)` where the compiler would panic on a
/// malformed call.
pub type Emission<T> = Result<(T, MapView), Option<ErrorView>>;

/// The error of the compiler with the given text.
pub open spec fn syntax_error(message: Seq<char>) -> Option<ErrorView> {
    Some(ErrorView::SyntaxIncorrect(message))
}

/// A component of two new nodes joined by one path with `transition`.
pub open spec fn spec_emit_single(m: MapView, r: int, transition: TransitionView) -> (
    Component,
    MapView,
) {
    let (in_node, m1) = map_with_node(m, r);
    let (out_node, m2) = map_with_node(m1, r);
    (Component { in_node_index: in_node, out_node_index: out_node }, map_with_path(m2, r, in_node as int, out_node, transition))
}

/// A component that matches nothing.
pub open spec fn spec_emit_empty(m: MapView, r: int) -> (Component, MapView) {
    spec_emit_single(m, r, TransitionView::Jump)
}

/// The characters of the word class.
pub open spec fn word_items() -> Seq<CharSetItem> {
    seq![
        CharSetItem::Range('A', 'Z'),
        CharSetItem::Range('a', 'z'),
        CharSetItem::Range('0', '9'),
        CharSetItem::Char('_'),
    ]
}

/// The characters of the space class.
pub open spec fn space_items() -> Seq<CharSetItem> {
    seq![
        CharSetItem::Char(' '),
        CharSetItem::Char('\t'),
        CharSetItem::Char('\r'),
        CharSetItem::Char('\n'),
    ]
}

/// The characters of the digit class.
pub open spec fn digit_items() -> Seq<CharSetItem> {
    seq![CharSetItem::Range('0', '9')]
}

/// The items of a preset charset, and whether it is negative.
pub open spec fn preset_items(name: PresetCharSetName) -> (Seq<CharSetItem>, bool) {
    match name {
        PresetCharSetName::CharWord => (word_items(), false),
        PresetCharSetName::CharNotWord => (word_items(), true),
        PresetCharSetName::CharSpace => (space_items(), false),
        PresetCharSetName::CharNotSpace => (space_items(), true),
        PresetCharSetName::CharDigit => (digit_items(), false),
        PresetCharSetName::CharNotDigit => (digit_items(), true),
    }
}

/// The ANRE name of a preset charset.
pub open spec fn preset_name_text(name: PresetCharSetName) -> Seq<char> {
    match name {
        PresetCharSetName::CharWord => "char_word"@,
        PresetCharSetName::CharNotWord => "char_not_word"@,
        PresetCharSetName::CharSpace => "char_space"@,
        PresetCharSetName::CharNotSpace => "char_not_space"@,
        PresetCharSetName::CharDigit => "char_digit"@,
        PresetCharSetName::CharNotDigit => "char_not_digit"@,
    }
}

/// The text of the error for a char range whose start comes after its end.
pub open spec fn reversed_range_message() -> Seq<char> {
    "The start of a char range must not come after its end."@
}

/// The items of a charset appended to `items`, nested charsets flattened;
/// a char range whose start comes after its end, a negative nested charset
/// or a negative preset charset is an error.
pub open spec fn spec_append_charset(charset: CharSetView, items: Seq<CharSetItem>) -> Result<
    Seq<CharSetItem>,
    ErrorView,
>
    decreases charset, 0nat,
{
    spec_append_elements(charset.elements, charset.elements.len() as int, items)
}

/// The first `n` elements appended to `items`.
pub open spec fn spec_append_elements(
    elements: Seq<CharSetElementView>,
    n: int,
    items: Seq<CharSetItem>,
) -> Result<Seq<CharSetItem>, ErrorView>
    decreases elements, n,
{
    if n <= 0 || n > elements.len() {
        Ok(items)
    } else {
        match spec_append_elements(elements, n - 1, items) {
            Ok(before) => match elements[n - 1] {
                CharSetElementView::Char(c) => Ok(before.push(CharSetItem::Char(c))),
                CharSetElementView::CharRange(start, end) => if (start as u32) > (end as u32) {
                    Err(ErrorView::SyntaxIncorrect(reversed_range_message()))
                } else {
                    Ok(before.push(CharSetItem::Range(start, end)))
                },
                CharSetElementView::PresetCharSet(name) => {
                    let (preset, negative) = preset_items(name);
                    if negative {
                        Err(
                            ErrorView::SyntaxIncorrect(
                                "Can not append negative preset charset \""@ + preset_name_text(
                                    name,
                                ) + "\" into charset."@,
                            ),
                        )
                    } else {
                        Ok(before + preset)
                    }
                },
                CharSetElementView::CharSet(inner) => if inner.negative {
                    Err(
                        ErrorView::SyntaxIncorrect(
                            "Negative custom charset cannot be nested in another charset."@,
                        ),
                    )
                } else {
                    spec_append_charset(*inner, before)
                },
            },
            Err(e) => Err(e),
        }
    }
}

/// A literal component.
pub open spec fn spec_emit_literal(literal: LiteralView, m: MapView, r: int) -> Emission<Component> {
    match literal {
        LiteralView::AnyChar => Ok(spec_emit_single(m, r, TransitionView::AnyChar)),
        LiteralView::Char(c) => Ok(spec_emit_single(m, r, TransitionView::Char(c))),
        LiteralView::String(s) => Ok(spec_emit_single(m, r, TransitionView::String(s))),
        LiteralView::PresetCharSet(name) => {
            let (items, negative) = preset_items(name);
            Ok(spec_emit_single(m, r, TransitionView::CharSet(items, negative)))
        },
        LiteralView::CharSet(charset) => match spec_append_charset(charset, seq![]) {
            Ok(items) => Ok(spec_emit_single(m, r, TransitionView::CharSet(items, charset.negative))),
            Err(e) => Err(Some(e)),
        },
    }
}

/// A back-reference component.
pub open spec fn spec_emit_backreference(
    back_reference: BackReferenceView,
    m: MapView,
    r: int,
) -> Emission<Component> {
    match back_reference {
        BackReferenceView::Index(index) => if index >= m.capture_groups.len() {
            Err(
                syntax_error(
                    "The group index ("@ + decimal(index as nat)
                        + ") of back-reference is out of range, the max index is: "@ + decimal(
                        (m.capture_groups.len() - 1) as nat,
                    ) + "."@,
                ),
            )
        } else {
            Ok(spec_emit_single(m, r, TransitionView::BackReference(index)))
        },
        BackReferenceView::Name(name) => match spec_group_index_by_name(m.capture_groups, name) {
            Some(index) => Ok(spec_emit_single(m, r, TransitionView::BackReference(index))),
            None => Err(
                syntax_error("Cannot find the capture group with name: \""@ + name + "\"."@),
            ),
        },
    }
}

/// Wraps a component so that it may be skipped; greedy tries it first,
/// lazy tries skipping first.
pub open spec fn spec_continue_optional(component: Component, lazy: bool, m: MapView, r: int) -> (
    Component,
    MapView,
) {
    let (in_node, m1) = map_with_node(m, r);
    let (out_node, m2) = map_with_node(m1, r);
    let m3 = if lazy {
        map_with_path(m2, r, in_node as int, out_node, TransitionView::Jump)
    } else {
        m2
    };
    let m4 = map_with_path(m3, r, in_node as int, component.in_node_index, TransitionView::Jump);
    let m5 = map_with_path(
        m4,
        r,
        component.out_node_index as int,
        out_node,
        TransitionView::Jump,
    );
    let m6 = if lazy {
        m5
    } else {
        map_with_path(m5, r, in_node as int, out_node, TransitionView::Jump)
    };
    (Component { in_node_index: in_node, out_node_index: out_node }, m6)
}

/// Wraps the component of an expression in a counted loop.
pub open spec fn spec_wrap_repetition(
    component: Component,
    repetition: RepetitionType,
    lazy: bool,
    m: MapView,
    r: int,
) -> (Component, MapView) {
    let (in_node, m1) = map_with_node(m, r);
    let (left_node, m2) = map_with_node(m1, r);
    let m3 = map_with_path(m2, r, in_node as int, left_node, TransitionView::CounterReset);
    let m4 = map_with_path(
        m3,
        r,
        left_node as int,
        component.in_node_index,
        TransitionView::CounterSave,
    );
    let (right_node, m5) = map_with_node(m4, r);
    let m6 = map_with_path(
        m5,
        r,
        component.out_node_index as int,
        right_node,
        TransitionView::CounterInc,
    );
    let (out_node, m7) = map_with_node(m6, r);
    let m8 = if lazy {
        let n1 = map_with_path(
            m7,
            r,
            right_node as int,
            out_node,
            TransitionView::RepetitionForward(repetition),
        );
        map_with_path(n1, r, right_node as int, left_node, TransitionView::RepetitionBack(repetition))
    } else {
        let n1 = map_with_path(
            m7,
            r,
            right_node as int,
            left_node,
            TransitionView::RepetitionBack(repetition),
        );
        map_with_path(n1, r, right_node as int, out_node, TransitionView::RepetitionForward(repetition))
    };
    (Component { in_node_index: in_node, out_node_index: out_node }, m8)
}

/// The function is a quantifier.
pub open spec fn is_repetition_function(name: FunctionName) -> bool {
    match name {
        FunctionName::Optional | FunctionName::OneOrMore | FunctionName::ZeroOrMore
        | FunctionName::Repeat | FunctionName::RepeatRange | FunctionName::RepeatFrom
        | FunctionName::OptionalLazy | FunctionName::OneOrMoreLazy | FunctionName::ZeroOrMoreLazy
        | FunctionName::RepeatRangeLazy | FunctionName::RepeatFromLazy => true,
        _ => false,
    }
}

/// The function is a lazy quantifier.
pub open spec fn is_lazy_function(name: FunctionName) -> bool {
    match name {
        FunctionName::OptionalLazy | FunctionName::OneOrMoreLazy | FunctionName::ZeroOrMoreLazy
        | FunctionName::RepeatRangeLazy | FunctionName::RepeatFromLazy => true,
        _ => false,
    }
}

/// The arguments after the first are all numbers.
pub open spec fn numeric_tail(args: Seq<ArgumentView>) -> bool {
    forall|i: int| 1 <= i < args.len() ==> #[trigger] args[i] is Number
}

/// The number in argument `i`.
pub open spec fn number_at(args: Seq<ArgumentView>, i: int) -> usize {
    match args[i] {
        ArgumentView::Number(n) => n,
        _ => 0,
    }
}

/// The numbers after the first argument.
pub open spec fn argument_numbers(args: Seq<ArgumentView>) -> Seq<usize> {
    Seq::new((args.len() - 1) as nat, |i: int| number_at(args, i + 1))
}

/// An expression compiled in route `r` of map `m`.
pub open spec fn spec_emit(exp: ExpressionView, m: MapView, r: int) -> Emission<Component>
    decreases exp, 0nat,
{
    match exp {
        ExpressionView::Literal(literal) => spec_emit_literal(literal, m, r),
        ExpressionView::BackReference(back_reference) => spec_emit_backreference(
            back_reference,
            m,
            r,
        ),
        ExpressionView::Group(exps) => match spec_emit_list(exps, exps.len() as int, m, r) {
            Ok((components, m1)) => if components.len() == 0 {
                Ok(spec_emit_empty(m1, r))
            } else if components.len() == 1 {
                Ok((components[0], m1))
            } else {
                Ok(
                    (
                        Component {
                            in_node_index: components[0].in_node_index,
                            out_node_index: components.last().out_node_index,
                        },
                        spec_link(components, components.len() - 1, m1, r),
                    ),
                )
            },
            Err(e) => Err(e),
        },
        ExpressionView::FunctionCall(name, args) => {
            if is_repetition_function(name) {
                if args.len() >= 1 && numeric_tail(args) {
                    match args[0] {
                        ArgumentView::Expression(base) => spec_emit_repetition(
                            name,
                            base,
                            argument_numbers(args),
                            m,
                            r,
                        ),
                        _ => Err(None),
                    }
                } else {
                    Err(None)
                }
            } else {
                match name {
                    FunctionName::IsBefore | FunctionName::IsNotBefore => if args.len() >= 1 {
                        match args[0] {
                            ArgumentView::Expression(_) => if args.len() < 2 {
                                Err(syntax_error("Missing argument for look-ahead assertion."@))
                            } else {
                                match args[1] {
                                    ArgumentView::Expression(_) => spec_emit_lookahead(
                                        args,
                                        name == FunctionName::IsNotBefore,
                                        m,
                                        r,
                                    ),
                                    _ => Err(None),
                                }
                            },
                            _ => Err(None),
                        }
                    } else {
                        Err(None)
                    },
                    FunctionName::IsAfter | FunctionName::IsNotAfter => if args.len() >= 1 {
                        match args[0] {
                            ArgumentView::Expression(_) => if args.len() < 2 {
                                Err(syntax_error("Missing argument for look-behind assertion."@))
                            } else {
                                match args[1] {
                                    ArgumentView::Expression(_) => spec_emit_lookbehind(
                                        args,
                                        name == FunctionName::IsNotAfter,
                                        m,
                                        r,
                                    ),
                                    _ => Err(None),
                                }
                            },
                            _ => Err(None),
                        }
                    } else {
                        Err(None)
                    },
                    FunctionName::IsStart => Ok(
                        spec_emit_single(m, r, TransitionView::LineBoundaryAssertion(false)),
                    ),
                    FunctionName::IsEnd => Ok(
                        spec_emit_single(m, r, TransitionView::LineBoundaryAssertion(true)),
                    ),
                    FunctionName::IsBound => Ok(
                        spec_emit_single(m, r, TransitionView::WordBoundaryAssertion(false)),
                    ),
                    _ => Ok(spec_emit_single(m, r, TransitionView::WordBoundaryAssertion(true))),
                }
            }
        },
        ExpressionView::Or(left, right) => match spec_emit(*left, m, r) {
            Ok((left_component, m1)) => match spec_emit(*right, m1, r) {
                Ok((right_component, m2)) => {
                    let (in_node, m3) = map_with_node(m2, r);
                    let (out_node, m4) = map_with_node(m3, r);
                    let m5 = map_with_path(
                        m4,
                        r,
                        in_node as int,
                        left_component.in_node_index,
                        TransitionView::Jump,
                    );
                    let m6 = map_with_path(
                        m5,
                        r,
                        in_node as int,
                        right_component.in_node_index,
                        TransitionView::Jump,
                    );
                    let m7 = map_with_path(
                        m6,
                        r,
                        left_component.out_node_index as int,
                        out_node,
                        TransitionView::Jump,
                    );
                    let m8 = map_with_path(
                        m7,
                        r,
                        right_component.out_node_index as int,
                        out_node,
                        TransitionView::Jump,
                    );
                    Ok((Component { in_node_index: in_node, out_node_index: out_node }, m8))
                },
                Err(e) => Err(e),
            },
            Err(e) => Err(e),
        },
        ExpressionView::IndexCapture(inner) => spec_emit_capture(*inner, None, m, r),
        ExpressionView::NameCapture(name, inner) => spec_emit_capture(*inner, Some(name), m, r),
    }
}

/// The first `n` expressions compiled one after another.
pub open spec fn spec_emit_list(exps: Seq<ExpressionView>, n: int, m: MapView, r: int) -> Emission<
    Seq<Component>,
>
    decreases exps, n,
{
    if n <= 0 || n > exps.len() {
        Ok((seq![], m))
    } else {
        match spec_emit_list(exps, n - 1, m, r) {
            Ok((components, m1)) => match spec_emit(exps[n - 1], m1, r) {
                Ok((component, m2)) => Ok((components.push(component), m2)),
                Err(e) => Err(e),
            },
            Err(e) => Err(e),
        }
    }
}

/// The jump paths that join the first `k + 1` components in sequence.
pub open spec fn spec_link(components: Seq<Component>, k: int, m: MapView, r: int) -> MapView
    decreases k,
{
    if k <= 0 {
        m
    } else {
        let m1 = spec_link(components, k - 1, m, r);
        map_with_path(
            m1,
            r,
            components[k - 1].out_node_index as int,
            components[k].in_node_index,
            TransitionView::Jump,
        )
    }
}

/// A capture group around an expression.
pub open spec fn spec_emit_capture(
    exp: ExpressionView,
    name: Option<Seq<char>>,
    m: MapView,
    r: int,
) -> Emission<Component>
    decreases exp, 1nat,
{
    let (group, m1) = map_with_group(m, name);
    match spec_emit(exp, m1, r) {
        Ok((component, m2)) => {
            let (in_node, m3) = map_with_node(m2, r);
            let (out_node, m4) = map_with_node(m3, r);
            let m5 = map_with_path(
                m4,
                r,
                in_node as int,
                component.in_node_index,
                TransitionView::CaptureStart(group),
            );
            let m6 = map_with_path(
                m5,
                r,
                component.out_node_index as int,
                out_node,
                TransitionView::CaptureEnd(group),
            );
            Ok((Component { in_node_index: in_node, out_node_index: out_node }, m6))
        },
        Err(e) => Err(e),
    }
}

/// An expression compiled and made optional.
pub open spec fn spec_emit_optional(exp: ExpressionView, lazy: bool, m: MapView, r: int) -> Emission<
    Component,
>
    decreases exp, 1nat,
{
    match spec_emit(exp, m, r) {
        Ok((component, m1)) => Ok(spec_continue_optional(component, lazy, m1, r)),
        Err(e) => Err(e),
    }
}

/// An expression compiled and wrapped in a counted loop.
pub open spec fn spec_emit_repetition_loop(
    exp: ExpressionView,
    repetition: RepetitionType,
    lazy: bool,
    m: MapView,
    r: int,
) -> Emission<Component>
    decreases exp, 1nat,
{
    match spec_emit(exp, m, r) {
        Ok((component, m1)) => Ok(spec_wrap_repetition(component, repetition, lazy, m1, r)),
        Err(e) => Err(e),
    }
}

/// `{from..}` made optional.
pub open spec fn spec_emit_optional_loop(
    exp: ExpressionView,
    repetition: RepetitionType,
    lazy: bool,
    m: MapView,
    r: int,
) -> Emission<Component>
    decreases exp, 2nat,
{
    match spec_emit_repetition_loop(exp, repetition, lazy, m, r) {
        Ok((component, m1)) => Ok(spec_continue_optional(component, lazy, m1, r)),
        Err(e) => Err(e),
    }
}

/// A quantifier applied to `exp` with the given numbers (the count, or
/// the bounds).
pub open spec fn spec_emit_repetition(
    name: FunctionName,
    exp: ExpressionView,
    numbers: Seq<usize>,
    m: MapView,
    r: int,
) -> Emission<Component>
    decreases exp, 3nat,
{
    let lazy = is_lazy_function(name);
    match name {
        FunctionName::Optional | FunctionName::OptionalLazy => spec_emit_optional(exp, lazy, m, r),
        FunctionName::OneOrMore | FunctionName::OneOrMoreLazy => spec_emit_repetition_loop(
            exp,
            RepetitionType::RepeatFrom(1),
            lazy,
            m,
            r,
        ),
        FunctionName::ZeroOrMore | FunctionName::ZeroOrMoreLazy => spec_emit_optional_loop(
            exp,
            RepetitionType::RepeatFrom(1),
            lazy,
            m,
            r,
        ),
        FunctionName::Repeat => if numbers.len() < 1 {
            Err(None)
        } else {
            let times = numbers[0];
            if times == 0 {
                Ok(spec_emit_empty(m, r))
            } else if times == 1 {
                spec_emit(exp, m, r)
            } else {
                spec_emit_repetition_loop(exp, RepetitionType::Repeat(times), true, m, r)
            }
        },
        FunctionName::RepeatFrom | FunctionName::RepeatFromLazy => if numbers.len() < 1 {
            Err(None)
        } else {
            let from = numbers[0];
            if from == 0 {
                spec_emit_optional_loop(exp, RepetitionType::RepeatFrom(1), lazy, m, r)
            } else {
                spec_emit_repetition_loop(exp, RepetitionType::RepeatFrom(from), lazy, m, r)
            }
        },
        FunctionName::RepeatRange | FunctionName::RepeatRangeLazy => if numbers.len() < 2 {
            Err(None)
        } else {
            let from = numbers[0];
            let to = numbers[1];
            if from > to {
                Err(syntax_error("Repeated range values should be from small to large."@))
            } else if from == 0 {
                if to == 0 {
                    Ok(spec_emit_empty(m, r))
                } else if to == 1 {
                    spec_emit_optional(exp, lazy, m, r)
                } else {
                    spec_emit_optional_loop(exp, RepetitionType::RepeatRange(1, to), lazy, m, r)
                }
            } else if to == 1 {
                spec_emit(exp, m, r)
            } else if from == to {
                spec_emit_repetition_loop(exp, RepetitionType::Repeat(from), true, m, r)
            } else {
                spec_emit_repetition_loop(exp, RepetitionType::RepeatRange(from, to), lazy, m, r)
            }
        },
        _ => Err(None),
    }
}

/// `current` followed by the lookahead assertion `next`, compiled in a new
/// route.
pub open spec fn spec_emit_lookahead(
    args: Seq<ArgumentView>,
    negative: bool,
    m: MapView,
    r: int,
) -> Emission<Component>
    decreases args, 0nat,
{
    if args.len() < 2 {
        Err(None)
    } else {
        match (args[0], args[1]) {
            (ArgumentView::Expression(current), ArgumentView::Expression(next)) => {
                match spec_emit(current, m, r) {
                    Ok((component, m1)) => {
                        let (sub_route, m2) = map_with_route(m1);
                        match spec_emit(next, m2, sub_route as int) {
                            Ok((sub_component, m3)) => {
                                let m4 = map_with_ports(
                                    m3,
                                    sub_route as int,
                                    sub_component.in_node_index,
                                    sub_component.out_node_index,
                                    true,
                                );
                                let (in_node, m5) = map_with_node(m4, r);
                                let (out_node, m6) = map_with_node(m5, r);
                                let m7 = map_with_path(
                                    m6,
                                    r,
                                    in_node as int,
                                    component.in_node_index,
                                    TransitionView::Jump,
                                );
                                let m8 = map_with_path(
                                    m7,
                                    r,
                                    component.out_node_index as int,
                                    out_node,
                                    TransitionView::LookAheadAssertion(sub_route, negative),
                                );
                                Ok(
                                    (
                                        Component { in_node_index: in_node, out_node_index: out_node },
                                        m8,
                                    ),
                                )
                            },
                            Err(e) => Err(e),
                        }
                    },
                    Err(e) => Err(e),
                }
            },
            _ => Err(None),
        }
    }
}

/// The lookbehind assertion `previous`, compiled in a new route, followed by
/// `current`. `previous` must have a fixed match length.
pub open spec fn spec_emit_lookbehind(
    args: Seq<ArgumentView>,
    negative: bool,
    m: MapView,
    r: int,
) -> Emission<Component>
    decreases args, 0nat,
{
    if args.len() < 2 {
        Err(None)
    } else {
        match (args[0], args[1]) {
            (ArgumentView::Expression(current), ArgumentView::Expression(previous)) => {
                let (sub_route, m1) = map_with_route(m);
                if !match_length_computable(previous) {
                    Err(None)
                } else {
                    match spec_match_length(previous) {
                        None => Err(
                            syntax_error(
                                "Look behind assertion (is_after, is_not_after) requires a fixed length pattern."@,
                            ),
                        ),
                        Some(length) => match spec_emit(previous, m1, sub_route as int) {
                            Ok((sub_component, m2)) => {
                                let m3 = map_with_ports(
                                    m2,
                                    sub_route as int,
                                    sub_component.in_node_index,
                                    sub_component.out_node_index,
                                    true,
                                );
                                match spec_emit(current, m3, r) {
                                    Ok((component, m4)) => {
                                        let (in_node, m5) = map_with_node(m4, r);
                                        let (out_node, m6) = map_with_node(m5, r);
                                        let m7 = map_with_path(
                                            m6,
                                            r,
                                            in_node as int,
                                            component.in_node_index,
                                            TransitionView::LookBehindAssertion(
                                                sub_route,
                                                negative,
                                                length as usize,
                                            ),
                                        );
                                        let m8 = map_with_path(
                                            m7,
                                            r,
                                            component.out_node_index as int,
                                            out_node,
                                            TransitionView::Jump,
                                        );
                                        Ok((Component { in_node_index: in_node, out_node_index: out_node }, m8))
                                    },
                                    Err(e) => Err(e),
                                }
                            },
                            Err(e) => Err(e),
                        },
                    }
                }
            },
            _ => Err(None),
        }
    }
}

/// The expression begins with a start-of-text assertion, through groups and
/// captures.
pub open spec fn spec_starts_with_start_assertion(exp: ExpressionView) -> bool
    decreases exp,
{
    match exp {
        ExpressionView::Group(exps) => exps.len() > 0 && spec_starts_with_start_assertion(exps[0]),
        ExpressionView::NameCapture(_, inner) => spec_starts_with_start_assertion(*inner),
        ExpressionView::IndexCapture(inner) => spec_starts_with_start_assertion(*inner),
        ExpressionView::FunctionCall(name, _) => name == FunctionName::IsStart,
        _ => false,
    }
}

/// The map of a program: the main route 0 holds the root expression wrapped
/// in capture group 0; its entry and exit are the wrapper's ports.
pub open spec fn spec_compile(exp: ExpressionView) -> Result<MapView, Option<ErrorView>> {
    let (route, m1) = map_with_route(empty_map());
    let (group, m2) = map_with_group(m1, None);
    match spec_emit(exp, m2, route as int) {
        Ok((component, m3)) => {
            let (in_node, m4) = map_with_node(m3, route as int);
            let (out_node, m5) = map_with_node(m4, route as int);
            let m6 = map_with_path(
                m5,
                route as int,
                in_node as int,
                component.in_node_index,
                TransitionView::CaptureStart(group),
            );
            let m7 = map_with_path(
                m6,
                route as int,
                component.out_node_index as int,
                out_node,
                TransitionView::CaptureEnd(group),
            );
            Ok(
                map_with_ports(
                    m7,
                    route as int,
                    in_node,
                    out_node,
                    spec_starts_with_start_assertion(exp),
                ),
            )
        },
        Err(e) => Err(e),
    }
}

/// What every compiled map satisfies: it has the main route, whose entry
/// and exit are nodes of it, and capture group 0 without a name; every path
/// leads to a node of its route and names only groups and routes that the
/// map has; the ports of every route are nodes of it or still 0.
pub open spec fn well_formed_map(m: MapView) -> bool {
    &&& m.routes.len() >= 1
    &&& m.capture_groups.len() >= 1
    &&& m.capture_groups[0] is None
    &&& m.routes[0].entry_node_index < m.routes[0].nodes.len()
    &&& m.routes[0].exit_node_index < m.routes[0].nodes.len()
    &&& map_closed(m)
    &&& ports_within(m)
}

/// The outcome is not one where the compiler would panic.
pub open spec fn is_defined<T>(outcome: Result<T, Option<ErrorView>>) -> bool {
    match outcome {
        Err(None) => false,
        _ => true,
    }
}

/// The outcome of an emitting step, with the map after it.
pub open spec fn emission_outcome(result: Result<Component, AnreError>, m: MapView) -> Emission<
    Component,
> {
    match result {
        Ok(component) => Ok((component, m)),
        Err(e) => Err(Some(e@)),
    }
}

/// Nothing that `m0` holds is lost in `m1`: no route, node or group fewer,
/// and the groups of `m0` unchanged.
pub open spec fn grows(m0: MapView, m1: MapView) -> bool {
    &&& m0.routes.len() <= m1.routes.len()
    &&& m0.capture_groups.len() <= m1.capture_groups.len()
    &&& forall|i: int|
        0 <= i < m0.capture_groups.len() ==> #[trigger] m1.capture_groups[i]
            == m0.capture_groups[i]
    &&& forall|i: int|
        0 <= i < m0.routes.len() ==> #[trigger] m0.routes[i].nodes.len() <= m1.routes[i].nodes.len()
}

/// Both ports of the component are nodes of route `r`.
pub open spec fn component_in(component: Component, m: MapView, r: int) -> bool {
    &&& component.in_node_index < m.routes[r].nodes.len()
    &&& component.out_node_index < m.routes[r].nodes.len()
}

proof fn lemma_grows_trans(m0: MapView, m1: MapView, m2: MapView)
    requires
        grows(m0, m1),
        grows(m1, m2),
    ensures
        grows(m0, m2),
{
    assert forall|i: int| 0 <= i < m0.routes.len() implies #[trigger] m0.routes[i].nodes.len()
        <= m2.routes[i].nodes.len() by {
        assert(m0.routes[i].nodes.len() <= m1.routes[i].nodes.len());
        assert(m1.routes[i].nodes.len() <= m2.routes[i].nodes.len());
    }
}

proof fn lemma_grows_refl(m: MapView)
    ensures
        grows(m, m),
{
}

/// Components of route `r` stay in it when the map grows.
proof fn lemma_components_grow(components: Seq<Component>, m0: MapView, m1: MapView, r: int)
    requires
        grows(m0, m1),
        0 <= r < m0.routes.len(),
        forall|k: int| 0 <= k < components.len() ==> component_in(#[trigger] components[k], m0, r),
    ensures
        forall|k: int| 0 <= k < components.len() ==> component_in(#[trigger] components[k], m1, r),
{
    assert(m0.routes[r].nodes.len() <= m1.routes[r].nodes.len());
}

/// A component of route `r` stays in it when the map grows.
proof fn lemma_component_grows(component: Component, m0: MapView, m1: MapView, r: int)
    requires
        grows(m0, m1),
        0 <= r < m0.routes.len(),
        component_in(component, m0, r),
    ensures
        component_in(component, m1, r),
{
    assert(m0.routes[r].nodes.len() <= m1.routes[r].nodes.len());
}

/// An error among the first `n` expressions is the error of the whole list.
proof fn lemma_emit_list_error(exps: Seq<ExpressionView>, n: int, m: MapView, r: int)
    requires
        0 < n <= exps.len(),
        spec_emit_list(exps, n, m, r) is Err,
    ensures
        spec_emit_list(exps, exps.len() as int, m, r) == spec_emit_list(exps, n, m, r),
    decreases exps.len() - n,
{
    if n < exps.len() {
        lemma_emit_list_error(exps, n + 1, m, r);
    }
}

/// The compiler: the program, the map it builds and the route it emits into.
pub struct Compiler<'a> {
    program: &'a Program,
    map: RouteMap,
    current_route_index: usize,
}

/// An emitting step from `before` to `after` gave `result` as `expected`
/// says; when it succeeded the route is unchanged, the map only grew and the
/// component lies in the route.
spec fn emits<'a>(
    before: Compiler<'a>,
    after: Compiler<'a>,
    result: Result<Component, AnreError>,
    expected: Emission<Component>,
) -> bool {
    &&& emission_outcome(result, after.map_view()) == expected
    &&& result is Ok ==> {
        &&& after.route() == before.route()
        &&& after.wf()
        &&& grows(before.map_view(), after.map_view())
        &&& component_in(result->Ok_0, after.map_view(), after.route())
    }
}

impl<'a> Compiler<'a> {
    /// The map built so far.
    pub closed spec fn map_view(&self) -> MapView {
        self.map@
    }

    /// The route that components are emitted into.
    pub closed spec fn route(&self) -> int {
        self.current_route_index as int
    }

    /// The route exists, the map has a capture group, and the map is closed
    /// with its ports within.
    pub closed spec fn wf(&self) -> bool {
        &&& self.current_route_index < self.map@.routes.len()
        &&& self.map@.capture_groups.len() >= 1
        &&& map_closed(self.map@)
        &&& ports_within(self.map@)
    }

    /// A compiler of `program` with a map that has one empty route, the main
    /// route.
    fn new(program: &'a Program) -> (compiler: Self)
        ensures
            compiler.map_view() == map_with_route(empty_map()).1,
            compiler.route() == 0,
            compiler.current_route_index < compiler.map_view().routes.len(),
            compiler.program == program,
    {
        let mut map = RouteMap::new();
        let current_route_index = map.create_route();
        Compiler { program, map, current_route_index }
    }

    fn get_current_route_index(&self) -> (index: usize)
        ensures
            index == self.route(),
    {
        self.current_route_index
    }

    fn set_current_route_index(&mut self, index: usize)
        ensures
            final(self).route() == index,
            final(self).map_view() == old(self).map_view(),
    {
        self.current_route_index = index;
    }

    fn get_current_route_ref_mut(&mut self) -> (route: &mut Route)
        requires
            old(self).current_route_index < old(self).map.routes@.len(),
        ensures
            *route == old(self).map.routes@[old(self).current_route_index as int],
            final(self).map.routes@ == old(self).map.routes@.update(
                old(self).current_route_index as int,
                *final(route),
            ),
            final(self).map.capture_groups == old(self).map.capture_groups,
            final(self).current_route_index == old(self).current_route_index,
    {
        &mut self.map.routes[self.current_route_index]
    }

    /// Adds a node to the current route.
    fn create_node(&mut self) -> (index: usize)
        requires
            old(self).wf(),
        ensures
            (index, final(self).map_view()) == map_with_node(
                old(self).map_view(),
                old(self).route(),
            ),
            final(self).route() == old(self).route(),
            final(self).wf(),
            grows(old(self).map_view(), final(self).map_view()),
            final(self).map_view().routes[final(self).route()].nodes.len() == old(
                self,
            ).map_view().routes[old(self).route()].nodes.len() + 1,
    {
        let ghost r = self.route();
        let ghost before = self.map@;
        let route = self.get_current_route_ref_mut();
        let index = route.create_node();
        proof {
            assert(self.map@.routes =~= map_with_node(before, r).1.routes);
            assert(self.map@.capture_groups =~= before.capture_groups);
            lemma_closed_with_node(before, r);
        }
        index
    }

    /// Adds a path to the current route.
    fn create_path(&mut self, source: usize, target: usize, transition: Transition)
        requires
            old(self).wf(),
            source < old(self).map_view().routes[old(self).route()].nodes.len(),
            target < old(self).map_view().routes[old(self).route()].nodes.len(),
            transition_refers_within(transition@, old(self).map_view()),
        ensures
            final(self).map_view() == map_with_path(
                old(self).map_view(),
                old(self).route(),
                source as int,
                target,
                transition@,
            ),
            final(self).route() == old(self).route(),
            final(self).wf(),
            grows(old(self).map_view(), final(self).map_view()),
            final(self).map_view().routes[final(self).route()].nodes.len() == old(
                self,
            ).map_view().routes[old(self).route()].nodes.len(),
    {
        let ghost r = self.route();
        let ghost before = self.map@;
        let ghost t = transition@;
        let route = self.get_current_route_ref_mut();
        route.create_path(source, target, transition);
        proof {
            assert(self.map@.routes =~= map_with_path(before, r, source as int, target, t).routes);
            assert(self.map@.capture_groups =~= before.capture_groups);
            lemma_closed_with_path(before, r, source as int, target, t);
        }
    }

    /// Sets the entry, the exit and the fixed begin point of the current route.
    fn set_route_ports(&mut self, entry: usize, exit: usize, fixed: bool)
        requires
            old(self).wf(),
            entry < old(self).map_view().routes[old(self).route()].nodes.len(),
            exit < old(self).map_view().routes[old(self).route()].nodes.len(),
        ensures
            final(self).map_view() == map_with_ports(
                old(self).map_view(),
                old(self).route(),
                entry,
                exit,
                fixed,
            ),
            final(self).route() == old(self).route(),
            final(self).wf(),
            grows(old(self).map_view(), final(self).map_view()),
    {
        let ghost r = self.route();
        let ghost before = self.map@;
        let route = self.get_current_route_ref_mut();
        route.entry_node_index = entry;
        route.exit_node_index = exit;
        route.is_fixed_matching_begin_point = fixed;
        proof {
            assert(self.map@.routes =~= map_with_ports(before, r, entry, exit, fixed).routes);
            assert(self.map@.capture_groups =~= before.capture_groups);
            lemma_closed_with_ports(before, r, entry, exit, fixed);
        }
    }

    /// A component of two new nodes joined by a path with `transition`.
    fn emit_single(&mut self, transition: Transition) -> (component: Component)
        requires
            old(self).wf(),
            transition_refers_within(transition@, old(self).map_view()),
        ensures
            (component, final(self).map_view()) == spec_emit_single(
                old(self).map_view(),
                old(self).route(),
                transition@,
            ),
            final(self).route() == old(self).route(),
            final(self).wf(),
            grows(old(self).map_view(), final(self).map_view()),
            component_in(component, final(self).map_view(), final(self).route()),
    {
        let ghost m0 = self.map_view();
        let in_node_index = self.create_node();
        let ghost m1 = self.map_view();
        let out_node_index = self.create_node();
        let ghost m2 = self.map_view();
        self.create_path(in_node_index, out_node_index, transition);
        proof {
            lemma_grows_trans(m0, m1, m2);
            lemma_grows_trans(m0, m2, self.map_view());
        }
        Component::new(in_node_index, out_node_index)
    }

    /// Empty component: one unconditional jump, for `{0}` and `{0..0}`.
    fn emit_empty(&mut self) -> (component: Component)
        requires
            old(self).wf(),
        ensures
            (component, final(self).map_view()) == spec_emit_empty(
                old(self).map_view(),
                old(self).route(),
            ),
            final(self).route() == old(self).route(),
            final(self).wf(),
            grows(old(self).map_view(), final(self).map_view()),
            component_in(component, final(self).map_view(), final(self).route()),
    {
        self.emit_single(Transition::Jump)
    }

    fn emit_literal_char(&mut self, character: char) -> (component: Component)
        requires
            old(self).wf(),
        ensures
            (component, final(self).map_view()) == spec_emit_single(
                old(self).map_view(),
                old(self).route(),
                TransitionView::Char(character),
            ),
            final(self).route() == old(self).route(),
            final(self).wf(),
            grows(old(self).map_view(), final(self).map_view()),
            component_in(component, final(self).map_view(), final(self).route()),
    {
        self.emit_single(Transition::Char(character))
    }

    fn emit_literal_any_char(&mut self) -> (component: Component)
        requires
            old(self).wf(),
        ensures
            (component, final(self).map_view()) == spec_emit_single(
                old(self).map_view(),
                old(self).route(),
                TransitionView::AnyChar,
            ),
            final(self).route() == old(self).route(),
            final(self).wf(),
            grows(old(self).map_view(), final(self).map_view()),
            component_in(component, final(self).map_view(), final(self).route()),
    {
        self.emit_single(Transition::AnyChar)
    }

    fn emit_literal_string(&mut self, s: &String) -> (component: Component)
        requires
            old(self).wf(),
        ensures
            (component, final(self).map_view()) == spec_emit_single(
                old(self).map_view(),
                old(self).route(),
                TransitionView::String(s@),
            ),
            final(self).route() == old(self).route(),
            final(self).wf(),
            grows(old(self).map_view(), final(self).map_view()),
            component_in(component, final(self).map_view(), final(self).route()),
    {
        self.emit_single(Transition::String(s.clone()))
    }

    fn emit_literal_preset_charset(&mut self, name: &PresetCharSetName) -> (component: Component)
        requires
            old(self).wf(),
        ensures
            (component, final(self).map_view()) == spec_emit_single(
                old(self).map_view(),
                old(self).route(),
                TransitionView::CharSet(preset_items(*name).0, preset_items(*name).1),
            ),
            final(self).route() == old(self).route(),
            final(self).wf(),
            grows(old(self).map_view(), final(self).map_view()),
            component_in(component, final(self).map_view(), final(self).route()),
    {
        let mut items: Vec<CharSetItem> = Vec::new();
        let negative = match name {
            PresetCharSetName::CharWord => {
                add_preset_word(&mut items);
                false
            },
            PresetCharSetName::CharNotWord => {
                add_preset_word(&mut items);
                true
            },
            PresetCharSetName::CharSpace => {
                add_preset_space(&mut items);
                false
            },
            PresetCharSetName::CharNotSpace => {
                add_preset_space(&mut items);
                true
            },
            PresetCharSetName::CharDigit => {
                add_preset_digit(&mut items);
                false
            },
            PresetCharSetName::CharNotDigit => {
                add_preset_digit(&mut items);
                true
            },
        };
        assert(items@ =~= preset_items(*name).0);
        self.emit_single(Transition::CharSet(items, negative))
    }

    fn emit_line_boundary_assertion(&mut self, is_end: bool) -> (component: Component)
        requires
            old(self).wf(),
        ensures
            (component, final(self).map_view()) == spec_emit_single(
                old(self).map_view(),
                old(self).route(),
                TransitionView::LineBoundaryAssertion(is_end),
            ),
            final(self).route() == old(self).route(),
            final(self).wf(),
            grows(old(self).map_view(), final(self).map_view()),
            component_in(component, final(self).map_view(), final(self).route()),
    {
        self.emit_single(Transition::LineBoundaryAssertion(is_end))
    }

    fn emit_word_boundary_assertion(&mut self, is_negative: bool) -> (component: Component)
        requires
            old(self).wf(),
        ensures
            (component, final(self).map_view()) == spec_emit_single(
                old(self).map_view(),
                old(self).route(),
                TransitionView::WordBoundaryAssertion(is_negative),
            ),
            final(self).route() == old(self).route(),
            final(self).wf(),
            grows(old(self).map_view(), final(self).map_view()),
            component_in(component, final(self).map_view(), final(self).route()),
    {
        self.emit_single(Transition::WordBoundaryAssertion(is_negative))
    }

    fn continue_emit_backreference(&mut self, capture_group_index: usize) -> (component: Component)
        requires
            old(self).wf(),
            capture_group_index < old(self).map_view().capture_groups.len(),
        ensures
            (component, final(self).map_view()) == spec_emit_single(
                old(self).map_view(),
                old(self).route(),
                TransitionView::BackReference(capture_group_index),
            ),
            final(self).route() == old(self).route(),
            final(self).wf(),
            grows(old(self).map_view(), final(self).map_view()),
            component_in(component, final(self).map_view(), final(self).route()),
    {
        self.emit_single(Transition::BackReference(capture_group_index))
    }

    /// Compiles the program.
    fn compile(&mut self) -> (result: Result<(), AnreError>)
        requires
            old(self).map_view() == map_with_route(empty_map()).1,
            old(self).route() == 0,
            is_defined(spec_compile(old(self).program@)),
        ensures
            match spec_compile(old(self).program@) {
                Ok(m) => result is Ok && final(self).map_view() == m,
                Err(e) => result is Err && e == Some(result->Err_0@),
            },
            result is Ok ==> well_formed_map(final(self).map_view()),
            result is Ok ==> final(self).map_view().routes[0].is_fixed_matching_begin_point
                == spec_starts_with_start_assertion(old(self).program@),
    {
        let program = self.program;
        self.emit_program(program)
    }

    /// Compiles the main route: the root expression wrapped in capture
    /// group 0.
    fn emit_program(&mut self, program: &Program) -> (result: Result<(), AnreError>)
        requires
            old(self).map_view() == map_with_route(empty_map()).1,
            old(self).route() == 0,
            is_defined(spec_compile(program@)),
        ensures
            match spec_compile(program@) {
                Ok(m) => result is Ok && final(self).map_view() == m,
                Err(e) => result is Err && e == Some(result->Err_0@),
            },
            result is Ok ==> well_formed_map(final(self).map_view()),
            result is Ok ==> final(self).map_view().routes[0].is_fixed_matching_begin_point
                == spec_starts_with_start_assertion(program@),
    {
        let capture_group_index = self.map.create_capture_group(None);
        let root_expression_component = match self.emit_expression(&program.expression) {
            Ok(component) => component,
            Err(e) => {
                return Err(e);
            },
        };
        let in_node_index = self.create_node();
        let out_node_index = self.create_node();
        self.create_path(
            in_node_index,
            root_expression_component.in_node_index,
            Transition::CaptureStart(capture_group_index),
        );
        self.create_path(
            root_expression_component.out_node_index,
            out_node_index,
            Transition::CaptureEnd(capture_group_index),
        );
        let is_fixed_matching_begin_point = check_first_expression_is_start_assertion(
            &program.expression,
        );
        self.set_route_ports(in_node_index, out_node_index, is_fixed_matching_begin_point);
        Ok(())
    }

    /// Compiles an expression to a component of the current route.
    fn emit_expression(&mut self, expression: &Expression) -> (result: Result<Component, AnreError>)
        requires
            old(self).wf(),
            is_defined(spec_emit(expression@, old(self).map_view(), old(self).route())),
        ensures
            emits(
                *old(self),
                *final(self),
                result,
                spec_emit(expression@, old(self).map_view(), old(self).route()),
            ),
        decreases expression, 2nat,
    {
        match expression {
            Expression::Literal(literal) => self.emit_literal(literal),
            Expression::BackReference(back_reference) => self.emit_backreference(back_reference),
            Expression::Group(expressions) => self.emit_group(expressions),
            Expression::FunctionCall(function_call) => self.emit_function_call(function_call),
            Expression::Or(left, right) => self.emit_logic_or(left, right),
            Expression::IndexCapture(inner) => self.emit_indexed_capture(inner),
            Expression::NameCapture(name, inner) => self.emit_named_capture(name.as_str(), inner),
        }
    }

    /// A sequence of expressions joined by jumps; a single one is returned
    /// as it is, none gives an empty component.
    fn emit_group(&mut self, expressions: &Vec<Expression>) -> (result: Result<Component, AnreError>)
        requires
            old(self).wf(),
            is_defined(
                spec_emit(
                    ExpressionView::Group(seq_expressions_view(expressions@)),
                    old(self).map_view(),
                    old(self).route(),
                ),
            ),
        ensures
            emits(
                *old(self),
                *final(self),
                result,
                spec_emit(
                    ExpressionView::Group(seq_expressions_view(expressions@)),
                    old(self).map_view(),
                    old(self).route(),
                ),
            ),
        decreases expressions, 0nat,
    {
        let ghost views = seq_expressions_view(expressions@);
        let ghost m0 = self.map_view();
        let ghost r = self.route();
        proof {
            lemma_expressions_view_index(expressions@, expressions@.len() as int);
        }
        let mut components: Vec<Component> = Vec::new();
        let mut i: usize = 0;
        while i < expressions.len()
            invariant
                i <= expressions@.len(),
                views == seq_expressions_view(expressions@),
                views.len() == expressions@.len(),
                forall|k: int|
                    0 <= k < views.len() ==> views[k] == expression_view(
                        #[trigger] expressions@[k],
                    ),
                self.wf(),
                self.route() == r,
                r == old(self).route(),
                m0 == old(self).map_view(),
                spec_emit_list(views, i as int, m0, r) == Emission::Ok((components@, self.map_view())),
                is_defined(spec_emit(ExpressionView::Group(views), m0, r)),
                grows(m0, self.map_view()),
                forall|k: int|
                    0 <= k < components@.len() ==> component_in(
                        #[trigger] components@[k],
                        self.map_view(),
                        r,
                    ),
            decreases expressions@.len() - i,
        {
            let ghost m1 = self.map_view();
            proof {
                if !is_defined(spec_emit(views[i as int], m1, r)) {
                    lemma_emit_list_error(views, i as int + 1, m0, r);
                }
            }
            match self.emit_expression(&expressions[i]) {
                Ok(component) => {
                    proof {
                        lemma_components_grow(components@, m1, self.map_view(), r);
                        lemma_grows_trans(m0, m1, self.map_view());
                    }
                    components.push(component);
                },
                Err(e) => {
                    proof {
                        lemma_emit_list_error(views, i as int + 1, m0, r);
                    }
                    return Err(e);
                },
            }
            i = i + 1;
        }
        if components.len() == 0 {
            let component = self.emit_empty();
            proof {
                lemma_grows_trans(m0, spec_emit_list(views, views.len() as int, m0, r)->Ok_0.1, self.map_view());
            }
            Ok(component)
        } else if components.len() == 1 {
            Ok(components[0])
        } else {
            let ghost m1 = self.map_view();
            let ghost cs = components@;
            let mut idx: usize = 0;
            while idx < components.len() - 1
                invariant
                    cs == components@,
                    cs.len() >= 2,
                    idx <= cs.len() - 1,
                    0 <= r < m1.routes.len(),
                    self.wf(),
                    self.route() == r,
                    self.map_view() == spec_link(cs, idx as int, m1, r),
                    grows(m1, self.map_view()),
                    forall|k: int| 0 <= k < cs.len() ==> component_in(#[trigger] cs[k], m1, r),
                decreases cs.len() - 1 - idx,
            {
                let ghost m2 = self.map_view();
                proof {
                    lemma_components_grow(cs, m1, m2, r);
                    assert(component_in(cs[idx as int], m2, r));
                }
                let current_out_node_index = components[idx].out_node_index;
                let next_in_node_index = components[idx + 1].in_node_index;
                self.create_path(current_out_node_index, next_in_node_index, Transition::Jump);
                proof {
                    lemma_grows_trans(m1, m2, self.map_view());
                }
                idx = idx + 1;
            }
            proof {
                lemma_grows_trans(m0, m1, self.map_view());
                lemma_components_grow(cs, m1, self.map_view(), r);
                assert(component_in(cs[0], self.map_view(), r));
                assert(component_in(cs[cs.len() - 1], self.map_view(), r));
            }
            Ok(
                Component::new(
                    components[0].in_node_index,
                    components[components.len() - 1].out_node_index,
                ),
            )
        }
    }

    /// Either of two expressions.
    fn emit_logic_or(&mut self, left: &Expression, right: &Expression) -> (result: Result<
        Component,
        AnreError,
    >)
        requires
            old(self).wf(),
            is_defined(
                spec_emit(
                    ExpressionView::Or(Box::new(left@), Box::new(right@)),
                    old(self).map_view(),
                    old(self).route(),
                ),
            ),
        ensures
            emits(
                *old(self),
                *final(self),
                result,
                spec_emit(
                    ExpressionView::Or(Box::new(left@), Box::new(right@)),
                    old(self).map_view(),
                    old(self).route(),
                ),
            ),
        decreases Expression::Or(Box::new(*left), Box::new(*right)), 1nat,
    {
        proof {
            let whole = Expression::Or(Box::new(*left), Box::new(*right));
            assert(decreases_to!(whole => whole->Or_0));
            assert(decreases_to!(whole => whole->Or_1));
        }
        let ghost m0 = self.map_view();
        let left_component = match self.emit_expression(left) {
            Ok(component) => component,
            Err(e) => {
                return Err(e);
            },
        };
        let ghost m1 = self.map_view();
        let right_component = match self.emit_expression(right) {
            Ok(component) => component,
            Err(e) => {
                return Err(e);
            },
        };
        let ghost m2 = self.map_view();
        let in_node_index = self.create_node();
        let ghost m3 = self.map_view();
        let out_node_index = self.create_node();
        let ghost m4 = self.map_view();
        proof {
            lemma_grows_trans(m0, m1, m2);
            lemma_components_grow(seq![left_component], m1, m4, self.route());
            lemma_grows_trans(m2, m3, m4);
            lemma_components_grow(seq![right_component], m2, m4, self.route());
            assert(component_in(left_component, m4, self.route()));
            assert(component_in(right_component, m4, self.route()));
        }
        self.create_path(in_node_index, left_component.in_node_index, Transition::Jump);
        let ghost m5 = self.map_view();
        self.create_path(in_node_index, right_component.in_node_index, Transition::Jump);
        let ghost m6 = self.map_view();
        self.create_path(left_component.out_node_index, out_node_index, Transition::Jump);
        let ghost m7 = self.map_view();
        self.create_path(right_component.out_node_index, out_node_index, Transition::Jump);
        proof {
            lemma_grows_trans(m4, m5, m6);
            lemma_grows_trans(m4, m6, m7);
            lemma_grows_trans(m4, m7, self.map_view());
            lemma_grows_trans(m0, m2, m4);
            lemma_grows_trans(m0, m4, self.map_view());
        }
        Ok(Component::new(in_node_index, out_node_index))
    }

    /// A quantifier or an assertion.
    fn emit_function_call(&mut self, function_call: &FunctionCall) -> (result: Result<
        Component,
        AnreError,
    >)
        requires
            old(self).wf(),
            is_defined(
                spec_emit(
                    ExpressionView::FunctionCall(
                        function_call.name,
                        seq_arguments_view(function_call.args@),
                    ),
                    old(self).map_view(),
                    old(self).route(),
                ),
            ),
        ensures
            emits(
                *old(self),
                *final(self),
                result,
                spec_emit(
                    ExpressionView::FunctionCall(
                        function_call.name,
                        seq_arguments_view(function_call.args@),
                    ),
                    old(self).map_view(),
                    old(self).route(),
                ),
            ),
            (function_call.name == FunctionName::IsBefore || function_call.name
                == FunctionName::IsNotBefore || function_call.name == FunctionName::IsAfter
                || function_call.name == FunctionName::IsNotAfter) && function_call.args@.len() < 2
                ==> result is Err && final(self).map_view() == old(self).map_view()
                && final(self).route() == old(self).route(),
        decreases function_call, 1nat,
    {
        let ghost views = seq_arguments_view(function_call.args@);
        proof {
            lemma_arguments_view_index(function_call.args@, function_call.args@.len() as int);
        }
        let args = &function_call.args;
        match function_call.name {
            FunctionName::Optional
            | FunctionName::OneOrMore
            | FunctionName::ZeroOrMore
            | FunctionName::Repeat
            | FunctionName::RepeatRange
            | FunctionName::RepeatFrom
            | FunctionName::OptionalLazy
            | FunctionName::OneOrMoreLazy
            | FunctionName::ZeroOrMoreLazy
            | FunctionName::RepeatRangeLazy
            | FunctionName::RepeatFromLazy => {
                let expression = match &args[0] {
                    FunctionArgument::Expression(expression) => expression,
                    _ => {
                        proof {
                            assert(views[0] == argument_view(args@[0]));
                        }
                        return Err(AnreError::Message(string_of("")));
                    },
                };
                let mut numbers: Vec<usize> = Vec::new();
                let mut i: usize = 1;
                while i < args.len()
                    invariant
                        1 <= i <= args@.len(),
                        views.len() == args@.len(),
                        numeric_tail(views),
                        forall|k: int|
                            0 <= k < views.len() ==> views[k] == argument_view(#[trigger] args@[k]),
                        numbers@ == argument_numbers(views).subrange(0, i - 1),
                    decreases args@.len() - i,
                {
                    proof {
                        assert(views[i as int] == argument_view(args@[i as int]));
                        assert(views[i as int] is Number);
                    }
                    match &args[i] {
                        FunctionArgument::Number(n) => {
                            numbers.push(*n);
                        },
                        _ => {
                            return Err(AnreError::Message(string_of("")));
                        },
                    }
                    proof {
                        assert(numbers@ =~= argument_numbers(views).subrange(0, i as int));
                    }
                    i = i + 1;
                }
                proof {
                    assert(numbers@ =~= argument_numbers(views));
                    assert(views[0] == argument_view(args@[0]));
                }
                self.emit_repetition_function_call(function_call.name, expression, numbers.as_slice())
            },
            FunctionName::IsBefore | FunctionName::IsNotBefore => {
                let expression = match &args[0] {
                    FunctionArgument::Expression(expression) => expression,
                    _ => {
                        proof {
                            assert(views[0] == argument_view(args@[0]));
                        }
                        return Err(AnreError::Message(string_of("")));
                    },
                };
                if args.len() < 2 {
                    return Err(
                        AnreError::SyntaxIncorrect(
                            string_of("Missing argument for look-ahead assertion."),
                        ),
                    );
                }
                let next_expression = match &args[1] {
                    FunctionArgument::Expression(next_expression) => next_expression,
                    _ => {
                        proof {
                            assert(views[1] == argument_view(args@[1]));
                        }
                        return Err(AnreError::Message(string_of("")));
                    },
                };
                let negative = matches!(function_call.name, FunctionName::IsNotBefore);
                self.emit_lookahead_assertion(expression, next_expression, negative, Ghost(args@))
            },
            FunctionName::IsAfter | FunctionName::IsNotAfter => {
                let expression = match &args[0] {
                    FunctionArgument::Expression(expression) => expression,
                    _ => {
                        proof {
                            assert(views[0] == argument_view(args@[0]));
                        }
                        return Err(AnreError::Message(string_of("")));
                    },
                };
                if args.len() < 2 {
                    return Err(
                        AnreError::SyntaxIncorrect(
                            string_of("Missing argument for look-behind assertion."),
                        ),
                    );
                }
                let previous_expression = match &args[1] {
                    FunctionArgument::Expression(previous_expression) => previous_expression,
                    _ => {
                        proof {
                            assert(views[1] == argument_view(args@[1]));
                        }
                        return Err(AnreError::Message(string_of("")));
                    },
                };
                let negative = matches!(function_call.name, FunctionName::IsNotAfter);
                self.emit_lookbehind_assertion(
                    expression,
                    previous_expression,
                    negative,
                    Ghost(args@),
                )
            },
            FunctionName::IsStart => Ok(self.emit_line_boundary_assertion(false)),
            FunctionName::IsEnd => Ok(self.emit_line_boundary_assertion(true)),
            FunctionName::IsBound => Ok(self.emit_word_boundary_assertion(false)),
            FunctionName::IsNotBound => Ok(self.emit_word_boundary_assertion(true)),
        }
    }

    /// A quantifier applied to an expression; `numbers` holds the count or
    /// the bounds.
    fn emit_repetition_function_call(
        &mut self,
        function_name: FunctionName,
        expression: &Expression,
        numbers: &[usize],
    ) -> (result: Result<Component, AnreError>)
        requires
            old(self).wf(),
            is_defined(
                spec_emit_repetition(
                    function_name,
                    expression@,
                    numbers@,
                    old(self).map_view(),
                    old(self).route(),
                ),
            ),
        ensures
            emits(
                *old(self),
                *final(self),
                result,
                spec_emit_repetition(
                    function_name,
                    expression@,
                    numbers@,
                    old(self).map_view(),
                    old(self).route(),
                ),
            ),
            (function_name == FunctionName::RepeatRange || function_name
                == FunctionName::RepeatRangeLazy) && numbers@.len() >= 2 && numbers@[0]
                > numbers@[1] ==> result is Err && final(self).map_view() == old(self).map_view()
                && final(self).route() == old(self).route(),
        decreases expression, 6nat,
    {
        let is_lazy = matches!(
            function_name,
            FunctionName::OptionalLazy | FunctionName::OneOrMoreLazy | FunctionName::ZeroOrMoreLazy
                | FunctionName::RepeatRangeLazy | FunctionName::RepeatFromLazy
        );
        match function_name {
            FunctionName::Optional | FunctionName::OptionalLazy => {
                self.emit_optional(expression, is_lazy)
            },
            FunctionName::OneOrMore | FunctionName::OneOrMoreLazy => {
                self.emit_repeat_from(expression, 1, is_lazy)
            },
            FunctionName::ZeroOrMore | FunctionName::ZeroOrMoreLazy => {
                let ghost m0 = self.map_view();
                let component = match self.emit_repeat_from(expression, 1, is_lazy) {
                    Ok(component) => component,
                    Err(e) => {
                        return Err(e);
                    },
                };
                let ghost m1 = self.map_view();
                let result = self.continue_emit_optional(component, is_lazy);
                proof {
                    lemma_grows_trans(m0, m1, self.map_view());
                }
                result
            },
            FunctionName::Repeat => {
                let times = numbers[0];
                if times == 0 {
                    Ok(self.emit_empty())
                } else if times == 1 {
                    self.emit_expression(expression)
                } else {
                    self.emit_repeat(expression, times)
                }
            },
            FunctionName::RepeatFrom | FunctionName::RepeatFromLazy => {
                let from = numbers[0];
                if from == 0 {
                    let ghost m0 = self.map_view();
                    let component = match self.emit_repeat_from(expression, 1, is_lazy) {
                        Ok(component) => component,
                        Err(e) => {
                            return Err(e);
                        },
                    };
                    let ghost m1 = self.map_view();
                    let result = self.continue_emit_optional(component, is_lazy);
                    proof {
                        lemma_grows_trans(m0, m1, self.map_view());
                    }
                    result
                } else {
                    self.emit_repeat_from(expression, from, is_lazy)
                }
            },
            FunctionName::RepeatRange | FunctionName::RepeatRangeLazy => {
                let from = numbers[0];
                let to = numbers[1];
                if from > to {
                    return Err(
                        AnreError::SyntaxIncorrect(
                            string_of("Repeated range values should be from small to large."),
                        ),
                    );
                }
                if from == 0 {
                    if to == 0 {
                        Ok(self.emit_empty())
                    } else if to == 1 {
                        self.emit_optional(expression, is_lazy)
                    } else {
                        let ghost m0 = self.map_view();
                        let component = match self.emit_repeat_range(expression, 1, to, is_lazy) {
                            Ok(component) => component,
                            Err(e) => {
                                return Err(e);
                            },
                        };
                        let ghost m1 = self.map_view();
                        let result = self.continue_emit_optional(component, is_lazy);
                        proof {
                            lemma_grows_trans(m0, m1, self.map_view());
                        }
                        result
                    }
                } else if to == 1 {
                    self.emit_expression(expression)
                } else if from == to {
                    self.emit_repeat(expression, from)
                } else {
                    self.emit_repeat_range(expression, from, to, is_lazy)
                }
            },
            _ => Err(AnreError::Message(string_of(""))),
        }
    }

    /// An expression that may be skipped.
    fn emit_optional(&mut self, expression: &Expression, is_lazy: bool) -> (result: Result<
        Component,
        AnreError,
    >)
        requires
            old(self).wf(),
            is_defined(
                spec_emit_optional(expression@, is_lazy, old(self).map_view(), old(self).route()),
            ),
        ensures
            emits(
                *old(self),
                *final(self),
                result,
                spec_emit_optional(expression@, is_lazy, old(self).map_view(), old(self).route()),
            ),
        decreases expression, 5nat,
    {
        let ghost m0 = self.map_view();
        let component = match self.emit_expression(expression) {
            Ok(component) => component,
            Err(e) => {
                return Err(e);
            },
        };
        let ghost m1 = self.map_view();
        let result = self.continue_emit_optional(component, is_lazy);
        proof {
            lemma_grows_trans(m0, m1, self.map_view());
        }
        result
    }

    /// `{times}` with `times > 1`.
    fn emit_repeat(&mut self, expression: &Expression, times: usize) -> (result: Result<
        Component,
        AnreError,
    >)
        requires
            old(self).wf(),
            is_defined(
                spec_emit_repetition_loop(
                    expression@,
                    RepetitionType::Repeat(times),
                    true,
                    old(self).map_view(),
                    old(self).route(),
                ),
            ),
        ensures
            emits(
                *old(self),
                *final(self),
                result,
                spec_emit_repetition_loop(
                    expression@,
                    RepetitionType::Repeat(times),
                    true,
                    old(self).map_view(),
                    old(self).route(),
                ),
            ),
        decreases expression, 4nat,
    {
        self.continue_emit_repetition(expression, RepetitionType::Repeat(times), true)
    }

    /// `{from..}` with `from > 0`.
    fn emit_repeat_from(&mut self, expression: &Expression, from: usize, is_lazy: bool) -> (result:
        Result<Component, AnreError>)
        requires
            old(self).wf(),
            is_defined(
                spec_emit_repetition_loop(
                    expression@,
                    RepetitionType::RepeatFrom(from),
                    is_lazy,
                    old(self).map_view(),
                    old(self).route(),
                ),
            ),
        ensures
            emits(
                *old(self),
                *final(self),
                result,
                spec_emit_repetition_loop(
                    expression@,
                    RepetitionType::RepeatFrom(from),
                    is_lazy,
                    old(self).map_view(),
                    old(self).route(),
                ),
            ),
        decreases expression, 4nat,
    {
        self.continue_emit_repetition(expression, RepetitionType::RepeatFrom(from), is_lazy)
    }

    /// `{from..to}` with `0 < from < to`.
    fn emit_repeat_range(
        &mut self,
        expression: &Expression,
        from: usize,
        to: usize,
        is_lazy: bool,
    ) -> (result: Result<Component, AnreError>)
        requires
            old(self).wf(),
            is_defined(
                spec_emit_repetition_loop(
                    expression@,
                    RepetitionType::RepeatRange(from, to),
                    is_lazy,
                    old(self).map_view(),
                    old(self).route(),
                ),
            ),
        ensures
            emits(
                *old(self),
                *final(self),
                result,
                spec_emit_repetition_loop(
                    expression@,
                    RepetitionType::RepeatRange(from, to),
                    is_lazy,
                    old(self).map_view(),
                    old(self).route(),
                ),
            ),
        decreases expression, 4nat,
    {
        self.continue_emit_repetition(expression, RepetitionType::RepeatRange(from, to), is_lazy)
    }

    /// Wraps a component so that it may be skipped.
    fn continue_emit_optional(&mut self, component: Component, is_lazy: bool) -> (result: Result<
        Component,
        AnreError,
    >)
        requires
            old(self).wf(),
            component_in(component, old(self).map_view(), old(self).route()),
        ensures
            result is Ok,
            (result->Ok_0, final(self).map_view()) == spec_continue_optional(
                component,
                is_lazy,
                old(self).map_view(),
                old(self).route(),
            ),
            final(self).route() == old(self).route(),
            final(self).wf(),
            grows(old(self).map_view(), final(self).map_view()),
            component_in(result->Ok_0, final(self).map_view(), final(self).route()),
    {
        let ghost m0 = self.map_view();
        let in_node_index = self.create_node();
        let ghost m1 = self.map_view();
        let out_node_index = self.create_node();
        let ghost m2 = self.map_view();
        if is_lazy {
            self.create_path(in_node_index, out_node_index, Transition::Jump);
        }
        let ghost m3 = self.map_view();
        self.create_path(in_node_index, component.in_node_index, Transition::Jump);
        let ghost m4 = self.map_view();
        self.create_path(component.out_node_index, out_node_index, Transition::Jump);
        let ghost m5 = self.map_view();
        if !is_lazy {
            self.create_path(in_node_index, out_node_index, Transition::Jump);
        }
        proof {
            lemma_grows_refl(m2);
            lemma_grows_trans(m0, m1, m2);
            lemma_grows_trans(m0, m2, m3);
            lemma_grows_trans(m0, m3, m4);
            lemma_grows_trans(m0, m4, m5);
            lemma_grows_refl(m5);
            lemma_grows_trans(m0, m5, self.map_view());
        }
        Ok(Component::new(in_node_index, out_node_index))
    }

    /// An expression wrapped in a counted loop.
    #[verifier::rlimit(40)]
    fn continue_emit_repetition(
        &mut self,
        expression: &Expression,
        repetition_type: RepetitionType,
        is_lazy: bool,
    ) -> (result: Result<Component, AnreError>)
        requires
            old(self).wf(),
            is_defined(
                spec_emit_repetition_loop(
                    expression@,
                    repetition_type,
                    is_lazy,
                    old(self).map_view(),
                    old(self).route(),
                ),
            ),
        ensures
            emits(
                *old(self),
                *final(self),
                result,
                spec_emit_repetition_loop(
                    expression@,
                    repetition_type,
                    is_lazy,
                    old(self).map_view(),
                    old(self).route(),
                ),
            ),
        decreases expression, 3nat,
    {
        let ghost m0 = self.map_view();
        let component = match self.emit_expression(expression) {
            Ok(component) => component,
            Err(e) => {
                return Err(e);
            },
        };
        let ghost m1 = self.map_view();
        let in_node_index = self.create_node();
        let ghost m2 = self.map_view();
        let left_node_index = self.create_node();
        let ghost m3 = self.map_view();
        self.create_path(in_node_index, left_node_index, Transition::CounterReset);
        let ghost m4 = self.map_view();
        self.create_path(left_node_index, component.in_node_index, Transition::CounterSave);
        let ghost m5 = self.map_view();
        let right_node_index = self.create_node();
        let ghost m6 = self.map_view();
        self.create_path(component.out_node_index, right_node_index, Transition::CounterInc);
        let ghost m7 = self.map_view();
        let out_node_index = self.create_node();
        let ghost m8 = self.map_view();
        proof {
            lemma_grows_trans(m0, m1, m2);
            lemma_grows_trans(m0, m2, m3);
            lemma_grows_trans(m0, m3, m4);
            lemma_grows_trans(m0, m4, m5);
            lemma_grows_trans(m0, m5, m6);
            lemma_grows_trans(m0, m6, m7);
            lemma_grows_trans(m0, m7, m8);
        }
        if is_lazy {
            self.create_path(
                right_node_index,
                out_node_index,
                Transition::RepetitionForward(repetition_type),
            );
            let ghost m = self.map_view();
            self.create_path(
                right_node_index,
                left_node_index,
                Transition::RepetitionBack(repetition_type),
            );
            proof {
                lemma_grows_trans(m8, m, self.map_view());
            }
        } else {
            self.create_path(
                right_node_index,
                left_node_index,
                Transition::RepetitionBack(repetition_type),
            );
            let ghost m = self.map_view();
            self.create_path(
                right_node_index,
                out_node_index,
                Transition::RepetitionForward(repetition_type),
            );
            proof {
                lemma_grows_trans(m8, m, self.map_view());
            }
        }
        proof {
            lemma_grows_trans(m0, m8, self.map_view());
        }
        Ok(Component::new(in_node_index, out_node_index))
    }

    /// A capture group named `name`.
    fn emit_named_capture(&mut self, name: &str, expression: &Expression) -> (result: Result<
        Component,
        AnreError,
    >)
        requires
            old(self).wf(),
            is_defined(
                spec_emit_capture(
                    expression@,
                    Some(name@),
                    old(self).map_view(),
                    old(self).route(),
                ),
            ),
        ensures
            emits(
                *old(self),
                *final(self),
                result,
                spec_emit_capture(
                    expression@,
                    Some(name@),
                    old(self).map_view(),
                    old(self).route(),
                ),
            ),
        decreases expression, 4nat,
    {
        self.continue_emit_capture(expression, Some(string_of(name)))
    }

    /// A capture group without a name.
    fn emit_indexed_capture(&mut self, expression: &Expression) -> (result: Result<
        Component,
        AnreError,
    >)
        requires
            old(self).wf(),
            is_defined(
                spec_emit_capture(expression@, None, old(self).map_view(), old(self).route()),
            ),
        ensures
            emits(
                *old(self),
                *final(self),
                result,
                spec_emit_capture(expression@, None, old(self).map_view(), old(self).route()),
            ),
        decreases expression, 4nat,
    {
        self.continue_emit_capture(expression, None)
    }

    /// A new capture group around an expression.
    fn continue_emit_capture(&mut self, expression: &Expression, name_option: Option<String>) -> (result:
        Result<Component, AnreError>)
        requires
            old(self).wf(),
            is_defined(
                spec_emit_capture(
                    expression@,
                    match name_option {
                        Some(name) => Some(name@),
                        None => None,
                    },
                    old(self).map_view(),
                    old(self).route(),
                ),
            ),
        ensures
            emits(
                *old(self),
                *final(self),
                result,
                spec_emit_capture(
                    expression@,
                    match name_option {
                        Some(name) => Some(name@),
                        None => None,
                    },
                    old(self).map_view(),
                    old(self).route(),
                ),
            ),
        decreases expression, 3nat,
    {
        let ghost m0 = self.map_view();
        let capture_group_index = self.map.create_capture_group(name_option);
        let ghost m1 = self.map_view();
        let component = match self.emit_expression(expression) {
            Ok(component) => component,
            Err(e) => {
                return Err(e);
            },
        };
        let ghost m2 = self.map_view();
        let in_node_index = self.create_node();
        let ghost m3 = self.map_view();
        let out_node_index = self.create_node();
        let ghost m4 = self.map_view();
        self.create_path(
            in_node_index,
            component.in_node_index,
            Transition::CaptureStart(capture_group_index),
        );
        let ghost m5 = self.map_view();
        self.create_path(
            component.out_node_index,
            out_node_index,
            Transition::CaptureEnd(capture_group_index),
        );
        proof {
            lemma_grows_trans(m0, m1, m2);
            lemma_grows_trans(m0, m2, m3);
            lemma_grows_trans(m0, m3, m4);
            lemma_grows_trans(m0, m4, m5);
            lemma_grows_trans(m0, m5, self.map_view());
        }
        Ok(Component::new(in_node_index, out_node_index))
    }

    /// `current` followed by the lookahead assertion `next`, which is
    /// compiled in a new route; `args` are the arguments of the call.
    fn emit_lookahead_assertion(
        &mut self,
        current_expression: &Expression,
        next_expression: &Expression,
        negative: bool,
        Ghost(args): Ghost<Seq<FunctionArgument>>,
    ) -> (result: Result<Component, AnreError>)
        requires
            old(self).wf(),
            args.len() >= 2,
            args[0] == FunctionArgument::Expression(*current_expression),
            args[1] == FunctionArgument::Expression(*next_expression),
            is_defined(
                spec_emit_lookahead(
                    seq_arguments_view(args),
                    negative,
                    old(self).map_view(),
                    old(self).route(),
                ),
            ),
        ensures
            emits(
                *old(self),
                *final(self),
                result,
                spec_emit_lookahead(
                    seq_arguments_view(args),
                    negative,
                    old(self).map_view(),
                    old(self).route(),
                ),
            ),
        decreases args, 0nat,
    {
        proof {
            lemma_arguments_view_index(args, args.len() as int);
            assert(seq_arguments_view(args)[0] == argument_view(args[0]));
            assert(seq_arguments_view(args)[1] == argument_view(args[1]));
        }
        let ghost m0 = self.map_view();
        let component = match self.emit_expression(current_expression) {
            Ok(component) => component,
            Err(e) => {
                return Err(e);
            },
        };
        let ghost m1 = self.map_view();
        let saved_route_index = self.get_current_route_index();
        let sub_route_index = self.map.create_route();
        let ghost m2 = self.map_view();
        self.set_current_route_index(sub_route_index);
        let sub_component = match self.emit_expression(next_expression) {
            Ok(component) => component,
            Err(e) => {
                return Err(e);
            },
        };
        let ghost m3 = self.map_view();
        self.set_route_ports(sub_component.in_node_index, sub_component.out_node_index, true);
        let ghost m4 = self.map_view();
        self.set_current_route_index(saved_route_index);
        proof {
            lemma_grows_trans(m0, m1, m2);
            lemma_grows_trans(m0, m2, m3);
            lemma_grows_trans(m0, m3, m4);
            lemma_grows_trans(m1, m2, m3);
            lemma_grows_trans(m1, m3, m4);
            lemma_component_grows(component, m1, m4, saved_route_index as int);
        }
        let in_node_index = self.create_node();
        let ghost m5 = self.map_view();
        let out_node_index = self.create_node();
        let ghost m6 = self.map_view();
        self.create_path(in_node_index, component.in_node_index, Transition::Jump);
        let ghost m7 = self.map_view();
        self.create_path(
            component.out_node_index,
            out_node_index,
            Transition::LookAheadAssertion(sub_route_index, negative),
        );
        proof {
            lemma_grows_trans(m0, m4, m5);
            lemma_grows_trans(m0, m5, m6);
            lemma_grows_trans(m0, m6, m7);
            lemma_grows_trans(m0, m7, self.map_view());
        }
        Ok(Component::new(in_node_index, out_node_index))
    }

    /// The lookbehind assertion `previous`, which is compiled in a new route
    /// and must have a fixed match length, followed by `current`; `args` are
    /// the arguments of the call.
    fn emit_lookbehind_assertion(
        &mut self,
        current_expression: &Expression,
        previous_expression: &Expression,
        negative: bool,
        Ghost(args): Ghost<Seq<FunctionArgument>>,
    ) -> (result: Result<Component, AnreError>)
        requires
            old(self).wf(),
            args.len() >= 2,
            args[0] == FunctionArgument::Expression(*current_expression),
            args[1] == FunctionArgument::Expression(*previous_expression),
            is_defined(
                spec_emit_lookbehind(
                    seq_arguments_view(args),
                    negative,
                    old(self).map_view(),
                    old(self).route(),
                ),
            ),
        ensures
            emits(
                *old(self),
                *final(self),
                result,
                spec_emit_lookbehind(
                    seq_arguments_view(args),
                    negative,
                    old(self).map_view(),
                    old(self).route(),
                ),
            ),
        decreases args, 0nat,
    {
        proof {
            lemma_arguments_view_index(args, args.len() as int);
            assert(seq_arguments_view(args)[0] == argument_view(args[0]));
            assert(seq_arguments_view(args)[1] == argument_view(args[1]));
        }
        let ghost m0 = self.map_view();
        let saved_route_index = self.get_current_route_index();
        let sub_route_index = self.map.create_route();
        let ghost m1 = self.map_view();
        self.set_current_route_index(sub_route_index);
        let match_length = match calculate_match_length(previous_expression) {
            MatchLength::Fixed(length) => length,
            MatchLength::Variable => {
                return Err(
                    AnreError::SyntaxIncorrect(
                        string_of(
                            "Look behind assertion (is_after, is_not_after) requires a fixed length pattern.",
                        ),
                    ),
                );
            },
        };
        let sub_component = match self.emit_expression(previous_expression) {
            Ok(component) => component,
            Err(e) => {
                return Err(e);
            },
        };
        let ghost m2 = self.map_view();
        self.set_route_ports(sub_component.in_node_index, sub_component.out_node_index, true);
        let ghost m3 = self.map_view();
        self.set_current_route_index(saved_route_index);
        let component = match self.emit_expression(current_expression) {
            Ok(component) => component,
            Err(e) => {
                return Err(e);
            },
        };
        let ghost m4 = self.map_view();
        let in_node_index = self.create_node();
        let ghost m5 = self.map_view();
        let out_node_index = self.create_node();
        let ghost m6 = self.map_view();
        self.create_path(
            in_node_index,
            component.in_node_index,
            Transition::LookBehindAssertion(sub_route_index, negative, match_length),
        );
        let ghost m7 = self.map_view();
        self.create_path(component.out_node_index, out_node_index, Transition::Jump);
        proof {
            lemma_grows_trans(m0, m1, m2);
            lemma_grows_trans(m0, m2, m3);
            lemma_grows_trans(m0, m3, m4);
            lemma_grows_trans(m0, m4, m5);
            lemma_grows_trans(m0, m5, m6);
            lemma_grows_trans(m0, m6, m7);
            lemma_grows_trans(m0, m7, self.map_view());
        }
        Ok(Component::new(in_node_index, out_node_index))
    }

    fn emit_literal(&mut self, literal: &Literal) -> (result: Result<Component, AnreError>)
        requires
            old(self).wf(),
        ensures
            emission_outcome(result, final(self).map_view()) == spec_emit_literal(
                literal@,
                old(self).map_view(),
                old(self).route(),
            ),
            result is Ok ==> {
                &&& final(self).route() == old(self).route()
                &&& final(self).wf()
                &&& grows(old(self).map_view(), final(self).map_view())
                &&& component_in(result->Ok_0, final(self).map_view(), final(self).route())
            },
    {
        match literal {
            Literal::AnyChar => Ok(self.emit_literal_any_char()),
            Literal::Char(character) => Ok(self.emit_literal_char(*character)),
            Literal::String(s) => Ok(self.emit_literal_string(s)),
            Literal::CharSet(charset) => self.emit_literal_charset(charset),
            Literal::PresetCharSet(name) => Ok(self.emit_literal_preset_charset(name)),
        }
    }

    fn emit_literal_charset(&mut self, charset: &CharSet) -> (result: Result<Component, AnreError>)
        requires
            old(self).wf(),
        ensures
            emission_outcome(result, final(self).map_view()) == spec_emit_literal(
                LiteralView::CharSet(charset@),
                old(self).map_view(),
                old(self).route(),
            ),
            result is Ok ==> {
                &&& final(self).route() == old(self).route()
                &&& final(self).wf()
                &&& grows(old(self).map_view(), final(self).map_view())
                &&& component_in(result->Ok_0, final(self).map_view(), final(self).route())
            },
    {
        let ghost m0 = self.map_view();
        let in_node_index = self.create_node();
        let ghost m1 = self.map_view();
        let out_node_index = self.create_node();
        let ghost m2 = self.map_view();
        let mut items: Vec<CharSetItem> = Vec::new();
        match append_charset(charset, &mut items) {
            Ok(()) => {},
            Err(e) => {
                return Err(e);
            },
        }
        let ghost t = TransitionView::CharSet(items@, charset.negative);
        self.create_path(in_node_index, out_node_index, Transition::CharSet(items, charset.negative));
        proof {
            lemma_grows_trans(m0, m1, m2);
            lemma_grows_trans(m0, m2, self.map_view());
        }
        Ok(Component::new(in_node_index, out_node_index))
    }

    fn emit_backreference(&mut self, back_reference: &BackReference) -> (result: Result<
        Component,
        AnreError,
    >)
        requires
            old(self).wf(),
        ensures
            emission_outcome(result, final(self).map_view()) == spec_emit_backreference(
                back_reference@,
                old(self).map_view(),
                old(self).route(),
            ),
            result is Ok ==> {
                &&& final(self).route() == old(self).route()
                &&& final(self).wf()
                &&& grows(old(self).map_view(), final(self).map_view())
                &&& component_in(result->Ok_0, final(self).map_view(), final(self).route())
            },
    {
        match back_reference {
            BackReference::Index(index) => self.emit_backreference_by_index(*index),
            BackReference::Name(name) => self.emit_backreference_by_name(name.as_str()),
        }
    }

    fn emit_backreference_by_index(&mut self, capture_group_index: usize) -> (result: Result<
        Component,
        AnreError,
    >)
        requires
            old(self).wf(),
        ensures
            emission_outcome(result, final(self).map_view()) == spec_emit_backreference(
                BackReferenceView::Index(capture_group_index),
                old(self).map_view(),
                old(self).route(),
            ),
            result is Err ==> final(self).map_view() == old(self).map_view() && final(self).route()
                == old(self).route(),
            result is Ok ==> {
                &&& final(self).route() == old(self).route()
                &&& final(self).wf()
                &&& grows(old(self).map_view(), final(self).map_view())
                &&& component_in(result->Ok_0, final(self).map_view(), final(self).route())
            },
    {
        let count = self.map.capture_groups.len();
        if capture_group_index >= count {
            let mut message = string_of("The group index (");
            push_decimal(&mut message, capture_group_index);
            push_str(&mut message, ") of back-reference is out of range, the max index is: ");
            push_decimal(&mut message, count - 1);
            push_str(&mut message, ".");
            return Err(AnreError::SyntaxIncorrect(message));
        }
        Ok(self.continue_emit_backreference(capture_group_index))
    }

    fn emit_backreference_by_name(&mut self, name: &str) -> (result: Result<Component, AnreError>)
        requires
            old(self).wf(),
        ensures
            emission_outcome(result, final(self).map_view()) == spec_emit_backreference(
                BackReferenceView::Name(name@),
                old(self).map_view(),
                old(self).route(),
            ),
            result is Err ==> final(self).map_view() == old(self).map_view() && final(self).route()
                == old(self).route(),
            result is Ok ==> {
                &&& final(self).route() == old(self).route()
                &&& final(self).wf()
                &&& grows(old(self).map_view(), final(self).map_view())
                &&& component_in(result->Ok_0, final(self).map_view(), final(self).route())
            },
    {
        match self.map.get_capture_group_index_by_name(name) {
            Some(capture_group_index) => Ok(self.continue_emit_backreference(capture_group_index)),
            None => {
                let mut message = string_of("Cannot find the capture group with name: \"");
                push_str(&mut message, name);
                push_str(&mut message, "\".");
                Err(AnreError::SyntaxIncorrect(message))
            },
        }
    }
}

/// Compiles a traditional regular expression: parses it, then compiles the
/// program.
pub fn compile_from_regex(s: &str) -> (result: Result<RouteMap, AnreError>)
    requires
        s@.len() < usize::MAX,
        spec_parse_regex_text(s@) matches Ok(exp) ==> is_defined(spec_compile(exp)),
    ensures
        match spec_parse_regex_text(s@) {
            Ok(exp) => map_outcome(result) == spec_compile(exp),
            Err(e) => result is Err && result->Err_0@ == e,
        },
        result is Ok ==> well_formed_map(result->Ok_0@),
        result matches Ok(map) ==> (spec_parse_regex_text(s@) matches Ok(exp)
            && map@.routes[0].is_fixed_matching_begin_point == spec_starts_with_start_assertion(
            exp,
        )),
{
    let program = match crate::traditional::parser::parse_from_str(s) {
        Ok(program) => program,
        Err(e) => {
            return Err(e);
        },
    };
    compile(&program)
}

/// The outcome of compiling, as views.
pub open spec fn map_outcome(result: Result<RouteMap, AnreError>) -> Result<MapView, Option<ErrorView>> {
    match result {
        Ok(m) => Ok(m@),
        Err(e) => Err(Some(e@)),
    }
}

/// Compiles an ANRE text: parses it, then compiles the program.
pub fn compile_from_anre(s: &str) -> (result: Result<RouteMap, AnreError>)
    requires
        s@.len() < usize::MAX,
        spec_parse_text(s@) matches Ok(exp) ==> is_defined(spec_compile(exp)),
    ensures
        map_outcome(result) == match spec_parse_text(s@) {
            Ok(exp) => spec_compile(exp),
            Err(e) => Err(Some(e)),
        },
        result is Ok ==> well_formed_map(result->Ok_0@),
        result matches Ok(map) ==> (spec_parse_text(s@) matches Ok(exp)
            && map@.routes[0].is_fixed_matching_begin_point == spec_starts_with_start_assertion(
            exp,
        )),
{
    let program = match parse_from_str(s) {
        Ok(program) => program,
        Err(e) => {
            return Err(e);
        },
    };
    compile(&program)
}

/// Compiles a program to a map of routes.
pub fn compile(program: &Program) -> (result: Result<RouteMap, AnreError>)
    requires
        is_defined(spec_compile(program@)),
    ensures
        match spec_compile(program@) {
            Ok(m) => result is Ok && result->Ok_0@ == m,
            Err(e) => result is Err && e == Some(result->Err_0@),
        },
        result is Ok ==> well_formed_map(result->Ok_0@),
        result matches Ok(map) ==> map@.routes[0].is_fixed_matching_begin_point
            == spec_starts_with_start_assertion(program@),
{
    let mut compiler = Compiler::new(program);
    match compiler.compile() {
        Ok(()) => Ok(compiler.map),
        Err(e) => Err(e),
    }
}

/// The expression begins with a start-of-text assertion, through groups and
/// captures.
fn check_first_expression_is_start_assertion(expression: &Expression) -> (result: bool)
    ensures
        result == spec_starts_with_start_assertion(expression@),
    decreases expression,
{
    match expression {
        Expression::Group(exps) => {
            proof {
                lemma_expressions_view_index(exps@, exps@.len() as int);
            }
            if exps.len() > 0 {
                check_first_expression_is_start_assertion(&exps[0])
            } else {
                false
            }
        },
        Expression::NameCapture(_, exp) => check_first_expression_is_start_assertion(exp),
        Expression::IndexCapture(exp) => check_first_expression_is_start_assertion(exp),
        Expression::FunctionCall(function_call) => matches!(function_call.name, FunctionName::IsStart),
        _ => false,
    }
}

/// The ANRE name of a preset charset.
fn preset_name_str(name: &PresetCharSetName) -> (text: &'static str)
    ensures
        text@ == preset_name_text(*name),
{
    match name {
        PresetCharSetName::CharWord => "char_word",
        PresetCharSetName::CharNotWord => "char_not_word",
        PresetCharSetName::CharSpace => "char_space",
        PresetCharSetName::CharNotSpace => "char_not_space",
        PresetCharSetName::CharDigit => "char_digit",
        PresetCharSetName::CharNotDigit => "char_not_digit",
    }
}

/// Appends the items of a charset, nested charsets flattened.
fn append_charset(charset: &CharSet, items: &mut Vec<CharSetItem>) -> (result: Result<(), AnreError>)
    ensures
        match spec_append_charset(charset@, old(items)@) {
            Ok(all) => result is Ok && final(items)@ == all,
            Err(e) => result is Err && result->Err_0@ == e,
        },
    decreases charset,
{
    let ghost elements = seq_elements_view(charset.elements@);
    let ghost start = items@;
    proof {
        lemma_elements_view_index(charset.elements@, charset.elements@.len() as int);
    }
    let mut i: usize = 0;
    while i < charset.elements.len()
        invariant
            i <= charset.elements@.len(),
            start == old(items)@,
            elements == seq_elements_view(charset.elements@),
            elements.len() == charset.elements@.len(),
            forall|k: int| 0 <= k < elements.len() ==> elements[k] == charset_element_view(#[trigger] charset.elements@[k]),
            spec_append_elements(elements, i as int, start) == Ok::<Seq<CharSetItem>, ErrorView>(items@),
            spec_append_charset(charset@, start) == spec_append_elements(elements, elements.len() as int, start),
        decreases charset.elements@.len() - i,
    {
        let element = &charset.elements[i];
        match element {
            CharSetElement::Char(c) => add_char(items, *c),
            CharSetElement::CharRange(range) => {
                if (range.start as u32) > (range.end_inclusive as u32) {
                    proof {
                        lemma_append_elements_error(elements, i as int + 1, start);
                    }
                    return Err(
                        AnreError::SyntaxIncorrect(
                            string_of("The start of a char range must not come after its end."),
                        ),
                    );
                }
                add_range(items, range.start, range.end_inclusive)
            },
            CharSetElement::PresetCharSet(name) => {
                match append_preset_charset(name, items) {
                    Ok(()) => {},
                    Err(e) => {
                        proof {
                            lemma_append_elements_error(elements, i as int + 1, start);
                        }
                        return Err(e);
                    },
                }
            },
            CharSetElement::CharSet(custom_charset) => {
                if custom_charset.negative {
                    proof {
                        lemma_append_elements_error(elements, i as int + 1, start);
                    }
                    return Err(
                        AnreError::SyntaxIncorrect(
                            string_of("Negative custom charset cannot be nested in another charset."),
                        ),
                    );
                }
                match append_charset(custom_charset, items) {
                    Ok(()) => {},
                    Err(e) => {
                        proof {
                            lemma_append_elements_error(elements, i as int + 1, start);
                        }
                        return Err(e);
                    },
                }
            },
        }
        i = i + 1;
    }
    Ok(())
}

/// Appends the items of a preset charset; a negative one is an error.
fn append_preset_charset(name: &PresetCharSetName, items: &mut Vec<CharSetItem>) -> (result: Result<
    (),
    AnreError,
>)
    ensures
        preset_items(*name).1 ==> {
            &&& result is Err
            &&& result->Err_0@ == ErrorView::SyntaxIncorrect(
                "Can not append negative preset charset \""@ + preset_name_text(*name)
                    + "\" into charset."@,
            )
        },
        !preset_items(*name).1 ==> result is Ok && final(items)@ == old(items)@ + preset_items(
            *name,
        ).0,
{
    match name {
        PresetCharSetName::CharWord => {
            add_preset_word(items);
            Ok(())
        },
        PresetCharSetName::CharSpace => {
            add_preset_space(items);
            Ok(())
        },
        PresetCharSetName::CharDigit => {
            add_preset_digit(items);
            Ok(())
        },
        _ => {
            let mut message = string_of("Can not append negative preset charset \"");
            push_str(&mut message, preset_name_str(name));
            push_str(&mut message, "\" into charset.");
            Err(AnreError::SyntaxIncorrect(message))
        },
    }
}

/// An error among the first `n` elements stays an error when more follow.
proof fn lemma_append_elements_error(elements: Seq<CharSetElementView>, n: int, items: Seq<CharSetItem>)
    requires
        0 < n <= elements.len(),
        spec_append_elements(elements, n, items) is Err,
    ensures
        spec_append_elements(elements, elements.len() as int, items) == spec_append_elements(
            elements,
            n,
            items,
        ),
    decreases elements.len() - n,
{
    if n < elements.len() {
        lemma_append_elements_error(elements, n + 1, items);
    }
}

fn add_char(items: &mut Vec<CharSetItem>, c: char)
    ensures
        final(items)@ == old(items)@.push(CharSetItem::Char(c)),
{
    items.push(CharSetItem::Char(c));
}

fn add_range(items: &mut Vec<CharSetItem>, start: char, end_inclusive: char)
    ensures
        final(items)@ == old(items)@.push(CharSetItem::Range(start, end_inclusive)),
{
    items.push(CharSetItem::Range(start, end_inclusive));
}

fn add_preset_word(items: &mut Vec<CharSetItem>)
    ensures
        final(items)@ == old(items)@ + word_items(),
{
    add_range(items, 'A', 'Z');
    add_range(items, 'a', 'z');
    add_range(items, '0', '9');
    add_char(items, '_');
    assert(items@ =~= old(items)@ + word_items());
}

fn add_preset_space(items: &mut Vec<CharSetItem>)
    ensures
        final(items)@ == old(items)@ + space_items(),
{
    add_char(items, ' ');
    add_char(items, '\t');
    add_char(items, '\r');
    add_char(items, '\n');
    assert(items@ =~= old(items)@ + space_items());
}

fn add_preset_digit(items: &mut Vec<CharSetItem>)
    ensures
        final(items)@ == old(items)@ + digit_items(),
{
    add_range(items, '0', '9');
    assert(items@ =~= old(items)@ + digit_items());
}


/// A call of a quantifier on `exp` with the given numbers.
pub open spec fn quantified(name: FunctionName, exp: ExpressionView, numbers: Seq<usize>) -> ExpressionView {
    ExpressionView::FunctionCall(
        name,
        seq![ArgumentView::Expression(exp)] + numbers.map_values(|n: usize| ArgumentView::Number(n)),
    )
}

proof fn lemma_quantified_numbers(name: FunctionName, exp: ExpressionView, numbers: Seq<usize>)
    ensures
        ({
            let args = seq![ArgumentView::Expression(exp)] + numbers.map_values(
                |n: usize| ArgumentView::Number(n),
            );
            &&& args.len() >= 1
            &&& args[0] == ArgumentView::Expression(exp)
            &&& numeric_tail(args)
            &&& argument_numbers(args) == numbers
        }),
{
    let args = seq![ArgumentView::Expression(exp)] + numbers.map_values(
        |n: usize| ArgumentView::Number(n),
    );
    assert(args[0] == ArgumentView::Expression(exp));
    assert forall|i: int| 1 <= i < args.len() implies #[trigger] args[i] is Number by {
        assert(args[i] == ArgumentView::Number(numbers[i - 1]));
    }
    assert(argument_numbers(args) =~= numbers);
}

/// A quantifier call compiles as the quantifier applied to its expression
/// with its numbers.
proof fn lemma_emit_quantified(
    name: FunctionName,
    exp: ExpressionView,
    numbers: Seq<usize>,
    m: MapView,
    r: int,
)
    requires
        is_repetition_function(name),
    ensures
        spec_emit(quantified(name, exp, numbers), m, r) == spec_emit_repetition(
            name,
            exp,
            numbers,
            m,
            r,
        ),
{
    lemma_quantified_numbers(name, exp, numbers);
    let q = quantified(name, exp, numbers);
    assert(q matches ExpressionView::FunctionCall(n, args) && n == name && args.len() >= 1
        && numeric_tail(args) && args[0] == ArgumentView::Expression(exp) && argument_numbers(args)
        == numbers);
}

/// A group of one expression compiles as the expression itself.
pub proof fn law_single_group_is_its_item(exp: ExpressionView, m: MapView, r: int)
    ensures
        spec_emit(ExpressionView::Group(seq![exp]), m, r) == spec_emit(exp, m, r),
{
    let exps = seq![exp];
    assert(spec_emit_list(exps, 0, m, r) == Emission::<Seq<Component>>::Ok((seq![], m)));
    match spec_emit(exp, m, r) {
        Ok((c, m1)) => {
            assert(spec_emit_list(exps, 1, m, r) == Emission::<Seq<Component>>::Ok((seq![c], m1)));
        },
        Err(e) => {},
    }
}

/// `exp{1..}` compiles as `exp+`, and `exp{1..}?` as `exp+?`.
pub proof fn law_repeat_from_one_is_one_or_more(exp: ExpressionView, m: MapView, r: int)
    ensures
        spec_emit(quantified(FunctionName::RepeatFrom, exp, seq![1]), m, r) == spec_emit(
            quantified(FunctionName::OneOrMore, exp, seq![]),
            m,
            r,
        ),
        spec_emit(quantified(FunctionName::RepeatFromLazy, exp, seq![1]), m, r) == spec_emit(
            quantified(FunctionName::OneOrMoreLazy, exp, seq![]),
            m,
            r,
        ),
{
    lemma_emit_quantified(FunctionName::RepeatFrom, exp, seq![1], m, r);
    lemma_emit_quantified(FunctionName::RepeatFromLazy, exp, seq![1], m, r);
    lemma_emit_quantified(FunctionName::OneOrMore, exp, seq![], m, r);
    lemma_emit_quantified(FunctionName::OneOrMoreLazy, exp, seq![], m, r);
}

/// `exp{0..}` compiles as `exp*`, and `exp{0..}?` as `exp*?`.
pub proof fn law_repeat_from_zero_is_zero_or_more(exp: ExpressionView, m: MapView, r: int)
    ensures
        spec_emit(quantified(FunctionName::RepeatFrom, exp, seq![0]), m, r) == spec_emit(
            quantified(FunctionName::ZeroOrMore, exp, seq![]),
            m,
            r,
        ),
        spec_emit(quantified(FunctionName::RepeatFromLazy, exp, seq![0]), m, r) == spec_emit(
            quantified(FunctionName::ZeroOrMoreLazy, exp, seq![]),
            m,
            r,
        ),
{
    lemma_emit_quantified(FunctionName::RepeatFrom, exp, seq![0], m, r);
    lemma_emit_quantified(FunctionName::RepeatFromLazy, exp, seq![0], m, r);
    lemma_emit_quantified(FunctionName::ZeroOrMore, exp, seq![], m, r);
    lemma_emit_quantified(FunctionName::ZeroOrMoreLazy, exp, seq![], m, r);
}

/// `exp{1}` compiles as `exp`, and `exp{0}` as an empty component.
pub proof fn law_repeat_once_and_never(exp: ExpressionView, m: MapView, r: int)
    ensures
        spec_emit(quantified(FunctionName::Repeat, exp, seq![1]), m, r) == spec_emit(exp, m, r),
        spec_emit(quantified(FunctionName::Repeat, exp, seq![0]), m, r) == Emission::<
            Component,
        >::Ok(spec_emit_empty(m, r)),
{
    lemma_emit_quantified(FunctionName::Repeat, exp, seq![1], m, r);
    lemma_emit_quantified(FunctionName::Repeat, exp, seq![0], m, r);
}

/// `exp{n..n}` and `exp{n..n}?` compile as `exp{n}`.
pub proof fn law_repeat_range_of_one_count_is_repeat(
    exp: ExpressionView,
    n: usize,
    m: MapView,
    r: int,
)
    ensures
        spec_emit(quantified(FunctionName::RepeatRange, exp, seq![n, n]), m, r) == spec_emit(
            quantified(FunctionName::Repeat, exp, seq![n]),
            m,
            r,
        ),
        spec_emit(quantified(FunctionName::RepeatRangeLazy, exp, seq![n, n]), m, r) == spec_emit(
            quantified(FunctionName::Repeat, exp, seq![n]),
            m,
            r,
        ),
{
    lemma_emit_quantified(FunctionName::RepeatRange, exp, seq![n, n], m, r);
    lemma_emit_quantified(FunctionName::RepeatRangeLazy, exp, seq![n, n], m, r);
    lemma_emit_quantified(FunctionName::Repeat, exp, seq![n], m, r);
}

/// `exp{0..1}` compiles as `exp?`, and `exp{0..1}?` as `exp??`.
pub proof fn law_repeat_range_zero_one_is_optional(exp: ExpressionView, m: MapView, r: int)
    ensures
        spec_emit(quantified(FunctionName::RepeatRange, exp, seq![0, 1]), m, r) == spec_emit(
            quantified(FunctionName::Optional, exp, seq![]),
            m,
            r,
        ),
        spec_emit(quantified(FunctionName::RepeatRangeLazy, exp, seq![0, 1]), m, r) == spec_emit(
            quantified(FunctionName::OptionalLazy, exp, seq![]),
            m,
            r,
        ),
{
    lemma_emit_quantified(FunctionName::RepeatRange, exp, seq![0, 1], m, r);
    lemma_emit_quantified(FunctionName::RepeatRangeLazy, exp, seq![0, 1], m, r);
    lemma_emit_quantified(FunctionName::Optional, exp, seq![], m, r);
    lemma_emit_quantified(FunctionName::OptionalLazy, exp, seq![], m, r);
}

/// `zero_or_more(exp)` compiles as `optional(one_or_more(exp))`, and the
/// lazy forms alike.
pub proof fn law_zero_or_more_is_optional_one_or_more(exp: ExpressionView, m: MapView, r: int)
    ensures
        spec_emit(quantified(FunctionName::ZeroOrMore, exp, seq![]), m, r) == spec_emit(
            quantified(
                FunctionName::Optional,
                quantified(FunctionName::OneOrMore, exp, seq![]),
                seq![],
            ),
            m,
            r,
        ),
        spec_emit(quantified(FunctionName::ZeroOrMoreLazy, exp, seq![]), m, r) == spec_emit(
            quantified(
                FunctionName::OptionalLazy,
                quantified(FunctionName::OneOrMoreLazy, exp, seq![]),
                seq![],
            ),
            m,
            r,
        ),
{
    lemma_emit_quantified(FunctionName::ZeroOrMore, exp, seq![], m, r);
    lemma_emit_quantified(FunctionName::ZeroOrMoreLazy, exp, seq![], m, r);
    lemma_emit_quantified(FunctionName::OneOrMore, exp, seq![], m, r);
    lemma_emit_quantified(FunctionName::OneOrMoreLazy, exp, seq![], m, r);
    let greedy = quantified(FunctionName::OneOrMore, exp, seq![]);
    let lazy = quantified(FunctionName::OneOrMoreLazy, exp, seq![]);
    assert(spec_emit(greedy, m, r) == spec_emit_repetition_loop(
        exp,
        RepetitionType::RepeatFrom(1),
        false,
        m,
        r,
    ));
    assert(spec_emit(lazy, m, r) == spec_emit_repetition_loop(
        exp,
        RepetitionType::RepeatFrom(1),
        true,
        m,
        r,
    ));
    assert(spec_emit_optional(greedy, false, m, r) == spec_emit_optional_loop(
        exp,
        RepetitionType::RepeatFrom(1),
        false,
        m,
        r,
    ));
    assert(spec_emit_optional(lazy, true, m, r) == spec_emit_optional_loop(
        exp,
        RepetitionType::RepeatFrom(1),
        true,
        m,
        r,
    ));
    assert(spec_emit_repetition(FunctionName::Optional, greedy, seq![], m, r) == spec_emit_optional(
        greedy,
        false,
        m,
        r,
    ));
    assert(spec_emit_repetition(FunctionName::OptionalLazy, lazy, seq![], m, r)
        == spec_emit_optional(lazy, true, m, r));
    assert(spec_emit_repetition(FunctionName::ZeroOrMore, exp, seq![], m, r)
        == spec_emit_optional_loop(exp, RepetitionType::RepeatFrom(1), false, m, r));
    assert(spec_emit_repetition(FunctionName::ZeroOrMoreLazy, exp, seq![], m, r)
        == spec_emit_optional_loop(exp, RepetitionType::RepeatFrom(1), true, m, r));
    lemma_quantified_numbers(
        FunctionName::Optional,
        quantified(FunctionName::OneOrMore, exp, seq![]),
        seq![],
    );
    lemma_quantified_numbers(
        FunctionName::OptionalLazy,
        quantified(FunctionName::OneOrMoreLazy, exp, seq![]),
        seq![],
    );
}


/// The items of the first `n` elements depend on those elements only.
proof fn lemma_append_elements_prefix(
    first: Seq<CharSetElementView>,
    second: Seq<CharSetElementView>,
    n: int,
    items: Seq<CharSetItem>,
)
    requires
        0 <= n <= first.len(),
        n <= second.len(),
        first.take(n) == second.take(n),
    ensures
        spec_append_elements(first, n, items) == spec_append_elements(second, n, items),
    decreases n,
{
    if n > 0 {
        assert(first.take(n - 1) =~= second.take(n - 1)) by {
            assert forall|i: int| 0 <= i < n - 1 implies #[trigger] first.take(n - 1)[i]
                == second.take(n - 1)[i] by {
                assert(first.take(n)[i] == second.take(n)[i]);
            }
        }
        assert(first[n - 1] == first.take(n)[n - 1]);
        assert(second[n - 1] == second.take(n)[n - 1]);
        lemma_append_elements_prefix(first, second, n - 1, items);
    }
}

/// The items of `front + back` are those of `back` appended after those of
/// `front`.
proof fn lemma_append_elements_concat(
    front: Seq<CharSetElementView>,
    back: Seq<CharSetElementView>,
    k: int,
    items: Seq<CharSetItem>,
)
    requires
        0 <= k <= back.len(),
    ensures
        spec_append_elements(front + back, front.len() + k, items) == match spec_append_elements(
            front,
            front.len() as int,
            items,
        ) {
            Ok(before) => spec_append_elements(back, k, before),
            Err(e) => Err(e),
        },
    decreases k,
{
    if k == 0 {
        assert((front + back).take(front.len() as int) =~= front.take(front.len() as int));
        lemma_append_elements_prefix(front + back, front, front.len() as int, items);
    } else {
        lemma_append_elements_concat(front, back, k - 1, items);
        assert((front + back)[front.len() + k - 1] == back[k - 1]);
    }
}

/// A charset nested in another charset, when it is not negative, compiles as
/// its elements written in its place: `[['a'..'z'], '_']` as
/// `['a'..'z', '_']`.
pub proof fn law_nested_charset_is_flattened(
    negative: bool,
    before: Seq<CharSetElementView>,
    inner: CharSetView,
    after: Seq<CharSetElementView>,
    m: MapView,
    r: int,
)
    requires
        !inner.negative,
    ensures
        spec_emit_literal(
            LiteralView::CharSet(
                CharSetView {
                    negative,
                    elements: before + seq![CharSetElementView::CharSet(Box::new(inner))] + after,
                },
            ),
            m,
            r,
        ) == spec_emit_literal(
            LiteralView::CharSet(
                CharSetView { negative, elements: before + inner.elements + after },
            ),
            m,
            r,
        ),
{
    let nested = before + seq![CharSetElementView::CharSet(Box::new(inner))];
    let spread = before + inner.elements;
    let empty = Seq::<CharSetItem>::empty();
    lemma_append_elements_concat(nested, after, after.len() as int, empty);
    lemma_append_elements_concat(spread, after, after.len() as int, empty);
    lemma_append_elements_concat(before, inner.elements, inner.elements.len() as int, empty);
    assert(nested.take(before.len() as int) =~= before.take(before.len() as int));
    lemma_append_elements_prefix(nested, before, before.len() as int, empty);
    assert(nested[before.len() as int] == CharSetElementView::CharSet(Box::new(inner)));
    let head = spec_append_elements(before, before.len() as int, empty);
    assert(spec_append_elements(nested, nested.len() as int, empty) == match spec_append_elements(
        nested,
        before.len() as int,
        empty,
    ) {
        Ok(b) => spec_append_charset(inner, b),
        Err(e) => Err(e),
    });
    if let Ok(b) = head {
        assert(spec_append_charset(inner, b) == spec_append_elements(
            inner.elements,
            inner.elements.len() as int,
            b,
        ));
    }
    assert(spec_append_elements(nested, nested.len() as int, empty) == match head {
        Ok(b) => spec_append_elements(inner.elements, inner.elements.len() as int, b),
        Err(e) => Err(e),
    });
    assert(spec_append_elements(spread, spread.len() as int, empty) == match head {
        Ok(b) => spec_append_elements(inner.elements, inner.elements.len() as int, b),
        Err(e) => Err(e),
    });
    assert(spec_append_charset(CharSetView { negative, elements: nested + after }, empty)
        == spec_append_charset(CharSetView { negative, elements: spread + after }, empty));
}

/// A preset charset that is not negative, written inside a charset, appends
/// exactly its items after those of the elements before it.
pub proof fn law_preset_in_charset_appends_its_items(
    elements: Seq<CharSetElementView>,
    name: PresetCharSetName,
    items: Seq<CharSetItem>,
)
    requires
        !preset_items(name).1,
    ensures
        spec_append_elements(
            elements.push(CharSetElementView::PresetCharSet(name)),
            elements.len() + 1int,
            items,
        ) == match spec_append_elements(elements, elements.len() as int, items) {
            Ok(before) => Ok::<Seq<CharSetItem>, ErrorView>(before + preset_items(name).0),
            Err(e) => Err(e),
        },
{
    let pushed = elements.push(CharSetElementView::PresetCharSet(name));
    assert(pushed.take(elements.len() as int) =~= elements.take(elements.len() as int));
    lemma_append_elements_prefix(pushed, elements, elements.len() as int, items);
}

/// The preset charsets stand for these characters: `char_digit` for
/// `'0'..'9'`, `char_word` for letters, digits and `_`, `char_space` for
/// space, tab, carriage return and line feed; the `char_not_*` forms are
/// the same items negated, and only those may not stand inside a charset.
pub proof fn law_preset_items()
    ensures
        preset_items(PresetCharSetName::CharDigit) == (
        seq![CharSetItem::Range('0', '9')],
        false,
    ),
        preset_items(PresetCharSetName::CharNotDigit) == (
        seq![CharSetItem::Range('0', '9')],
        true,
    ),
        preset_items(PresetCharSetName::CharWord) == (
        seq![
            CharSetItem::Range('A', 'Z'),
            CharSetItem::Range('a', 'z'),
            CharSetItem::Range('0', '9'),
            CharSetItem::Char('_'),
        ],
        false,
    ),
        preset_items(PresetCharSetName::CharNotWord).0 == preset_items(
            PresetCharSetName::CharWord,
        ).0 && preset_items(PresetCharSetName::CharNotWord).1,
        preset_items(PresetCharSetName::CharSpace) == (
        seq![
            CharSetItem::Char(' '),
            CharSetItem::Char('\t'),
            CharSetItem::Char('\r'),
            CharSetItem::Char('\n'),
        ],
        false,
    ),
        preset_items(PresetCharSetName::CharNotSpace).0 == preset_items(
            PresetCharSetName::CharSpace,
        ).0 && preset_items(PresetCharSetName::CharNotSpace).1,
{
}

/// `char_digit` inside a charset appends the range `'0'..'9'` after the
/// items of the elements before it.
pub proof fn law_digits_in_charset(elements: Seq<CharSetElementView>, items: Seq<CharSetItem>)
    ensures
        spec_append_elements(
            elements.push(CharSetElementView::PresetCharSet(PresetCharSetName::CharDigit)),
            elements.len() + 1int,
            items,
        ) == match spec_append_elements(elements, elements.len() as int, items) {
            Ok(before) => Ok::<Seq<CharSetItem>, ErrorView>(
                before.push(CharSetItem::Range('0', '9')),
            ),
            Err(e) => Err(e),
        },
{
    law_preset_items();
    law_preset_in_charset_appends_its_items(elements, PresetCharSetName::CharDigit, items);
    if let Ok(before) = spec_append_elements(elements, elements.len() as int, items) {
        assert(before + seq![CharSetItem::Range('0', '9')] =~= before.push(
            CharSetItem::Range('0', '9'),
        ));
    }
}

/// A program is marked to match only from the start of the text only when
/// every match must begin with `is_start()`: an alternation only when both
/// of its branches do, a group only when its first item does, a capture
/// only when what it captures does, a call only when it is `is_start()`,
/// and never a literal or a back-reference. The compiled main route carries
/// that mark (see `compile`).
pub proof fn law_fixed_start_needs_leading_start(exp: ExpressionView)
    ensures
        spec_starts_with_start_assertion(exp) ==> match exp {
            ExpressionView::Or(left, right) => spec_starts_with_start_assertion(*left)
                && spec_starts_with_start_assertion(*right),
            ExpressionView::Group(exps) => exps.len() > 0 && spec_starts_with_start_assertion(
                exps[0],
            ),
            ExpressionView::IndexCapture(inner) => spec_starts_with_start_assertion(*inner),
            ExpressionView::NameCapture(_, inner) => spec_starts_with_start_assertion(*inner),
            ExpressionView::FunctionCall(name, _) => name == FunctionName::IsStart,
            ExpressionView::Literal(_) => false,
            ExpressionView::BackReference(_) => false,
        },
{
}


/// Some node of route `r` of `m` has a path with the transition `t`.
pub open spec fn route_has_transition(m: MapView, r: int, t: TransitionView) -> bool {
    exists|i: int, j: int|
        0 <= i < m.routes[r].nodes.len() && 0 <= j < m.routes[r].nodes[i].len() && (
        #[trigger] m.routes[r].nodes[i][j]).1 == t
}

/// A counted loop around a component of route `r` has the forward and the
/// back transitions of its repetition in route `r`.
proof fn lemma_wrap_has_repetition(
    component: Component,
    repetition: RepetitionType,
    lazy: bool,
    m: MapView,
    r: int,
)
    requires
        0 <= r < m.routes.len(),
        component_in(component, m, r),
        m.routes[r].nodes.len() + 4 <= usize::MAX,
    ensures
        spec_wrap_repetition(component, repetition, lazy, m, r).1.routes.len() == m.routes.len(),
        route_has_transition(
            spec_wrap_repetition(component, repetition, lazy, m, r).1,
            r,
            TransitionView::RepetitionForward(repetition),
        ),
        route_has_transition(
            spec_wrap_repetition(component, repetition, lazy, m, r).1,
            r,
            TransitionView::RepetitionBack(repetition),
        ),
        component_in(spec_wrap_repetition(component, repetition, lazy, m, r).0,
            spec_wrap_repetition(component, repetition, lazy, m, r).1, r),
{
    let len = m.routes[r].nodes.len();
    let (in_node, m1) = map_with_node(m, r);
    let (left_node, m2) = map_with_node(m1, r);
    let m3 = map_with_path(m2, r, in_node as int, left_node, TransitionView::CounterReset);
    let m4 = map_with_path(
        m3,
        r,
        left_node as int,
        component.in_node_index,
        TransitionView::CounterSave,
    );
    let (right_node, m5) = map_with_node(m4, r);
    let m6 = map_with_path(
        m5,
        r,
        component.out_node_index as int,
        right_node,
        TransitionView::CounterInc,
    );
    let (out_node, m7) = map_with_node(m6, r);
    assert(in_node == len && left_node == len + 1 && right_node == len + 2 && out_node == len + 3);
    assert(m7.routes.len() == m.routes.len());
    assert(m7.routes[r].nodes.len() == len + 4);
    assert(m7.routes[r].nodes[right_node as int] == Seq::<(usize, TransitionView)>::empty());
    let forward = TransitionView::RepetitionForward(repetition);
    let back = TransitionView::RepetitionBack(repetition);
    let result = spec_wrap_repetition(component, repetition, lazy, m, r).1;
    if lazy {
        let n1 = map_with_path(m7, r, right_node as int, out_node, forward);
        assert(result == map_with_path(n1, r, right_node as int, left_node, back));
        assert(result.routes[r].nodes[right_node as int] =~= seq![(out_node, forward), (left_node, back)]);
        assert(result.routes[r].nodes[right_node as int][0].1 == forward);
        assert(result.routes[r].nodes[right_node as int][1].1 == back);
    } else {
        let n1 = map_with_path(m7, r, right_node as int, left_node, back);
        assert(result == map_with_path(n1, r, right_node as int, out_node, forward));
        assert(result.routes[r].nodes[right_node as int] =~= seq![(left_node, back), (out_node, forward)]);
        assert(result.routes[r].nodes[right_node as int][0].1 == back);
        assert(result.routes[r].nodes[right_node as int][1].1 == forward);
    }
}

/// `exp{from..to}` and its lazy form, for `1 <= from < to`, compile to a
/// loop that counts the repetition from `from` to `to`: route `r` then has
/// both the forward and the back transitions of `RepeatRange(from, to)`.
/// (Wherever `exp` is compiled into route `r`, as every emission does, and
/// the route has room for the loop's four nodes.)
pub proof fn law_repeat_range_is_counted_loop(
    exp: ExpressionView,
    from: usize,
    to: usize,
    lazy: bool,
    m: MapView,
    r: int,
)
    requires
        1 <= from < to,
        0 <= r < m.routes.len(),
        spec_emit(exp, m, r) matches Ok((component, m1)) ==> 0 <= r < m1.routes.len()
            && component_in(component, m1, r) && m1.routes[r].nodes.len() + 4 <= usize::MAX,
    ensures
        spec_emit_repetition(
            if lazy {
                FunctionName::RepeatRangeLazy
            } else {
                FunctionName::RepeatRange
            },
            exp,
            seq![from, to],
            m,
            r,
        ) matches Ok((_, m2)) ==> route_has_transition(
            m2,
            r,
            TransitionView::RepetitionForward(RepetitionType::RepeatRange(from, to)),
        ) && route_has_transition(
            m2,
            r,
            TransitionView::RepetitionBack(RepetitionType::RepeatRange(from, to)),
        ),
{
    if let Ok((component, m1)) = spec_emit(exp, m, r) {
        lemma_wrap_has_repetition(component, RepetitionType::RepeatRange(from, to), lazy, m1, r);
    }
}
} // verus!
