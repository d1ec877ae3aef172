use vstd::prelude::*;

use crate::ast::{
    ArgumentView, Expression, ExpressionView, FunctionArgument, FunctionName, Literal, Program, lemma_arguments_view_index, lemma_expressions_view_index,
};
use crate::anre::parser::spec_parse_text;
use crate::compiler::{
    Emission, compile, map_outcome, well_formed_map, argument_numbers, is_defined, is_repetition_function, numeric_tail,
    spec_compile, spec_emit, spec_emit_capture, spec_emit_list, spec_emit_lookahead,
    spec_emit_lookbehind, spec_emit_optional, spec_emit_optional_loop, spec_emit_repetition,
    spec_emit_repetition_loop,
};
use crate::match_length_calculator::{
    MatchLength, group_computable, match_length_computable, spec_group_length, spec_match_length,
};
use crate::error::AnreError;
use crate::object_file::{MapView, RouteMap, empty_map, map_with_group, map_with_route};
use crate::traditional::parser::spec_parse_regex_text;

verus! {

/// Every call in the expression has the arguments that its function needs:
/// a quantifier an expression and then numbers (one for `repeat` and
/// `repeat_from`, two for `repeat_range`), an assertion around another
/// expression an expression first and, when there is a second, an
/// expression; the second of a lookbehind can be measured.
pub open spec fn compilable(exp: ExpressionView) -> bool
    decreases exp, 1nat,
{
    match exp {
        ExpressionView::Literal(_) => true,
        ExpressionView::BackReference(_) => true,
        ExpressionView::Group(exps) => all_compilable(exps, exps.len() as int),
        ExpressionView::FunctionCall(name, args) => {
            if is_repetition_function(name) {
                &&& args.len() >= 1
                &&& numeric_tail(args)
                &&& args[0] matches ArgumentView::Expression(base) && compilable(base)
                &&& (name == FunctionName::Repeat || name == FunctionName::RepeatFrom || name
                    == FunctionName::RepeatFromLazy) ==> args.len() >= 2
                &&& (name == FunctionName::RepeatRange || name == FunctionName::RepeatRangeLazy)
                    ==> args.len() >= 3
            } else if name == FunctionName::IsBefore || name == FunctionName::IsNotBefore
                || name == FunctionName::IsAfter || name == FunctionName::IsNotAfter {
                &&& args.len() >= 1
                &&& args[0] matches ArgumentView::Expression(current) && compilable(current)
                &&& args.len() >= 2 ==> (args[1] matches ArgumentView::Expression(other)
                    && compilable(other) && ((name == FunctionName::IsAfter || name
                    == FunctionName::IsNotAfter) ==> match_length_computable(other)))
            } else {
                true
            }
        },
        ExpressionView::Or(left, right) => compilable(*left) && compilable(*right),
        ExpressionView::IndexCapture(inner) => compilable(*inner),
        ExpressionView::NameCapture(_, inner) => compilable(*inner),
    }
}

/// The first `n` expressions are compilable.
pub open spec fn all_compilable(exps: Seq<ExpressionView>, n: int) -> bool
    decreases exps, n,
{
    if n <= 0 || n > exps.len() {
        true
    } else {
        all_compilable(exps, n - 1) && compilable(exps[n - 1])
    }
}

proof fn lemma_emit_defined(exp: ExpressionView, m: MapView, r: int)
    requires
        compilable(exp),
    ensures
        is_defined(spec_emit(exp, m, r)),
    decreases exp, 0nat,
{
    match exp {
        ExpressionView::Group(exps) => {
            lemma_emit_list_defined(exps, exps.len() as int, m, r);
            match spec_emit_list(exps, exps.len() as int, m, r) {
                Ok((components, m1)) => {
                    assert(spec_emit(exp, m, r) is Ok);
                },
                Err(e) => {
                    assert(spec_emit(exp, m, r) == Emission::<crate::object_file::Component>::Err(
                        e,
                    ));
                },
            }
        },
        ExpressionView::FunctionCall(name, args) => {
            if is_repetition_function(name) {
                if let ArgumentView::Expression(base) = args[0] {
                    lemma_emit_repetition_defined(name, base, argument_numbers(args), m, r);
                    assert(is_defined(spec_emit(exp, m, r)));
                }
            } else if name == FunctionName::IsBefore || name == FunctionName::IsNotBefore {
                if args.len() >= 2 {
                    lemma_emit_lookahead_defined(args, name == FunctionName::IsNotBefore, m, r);
                    assert(is_defined(spec_emit(exp, m, r)));
                }
            } else if name == FunctionName::IsAfter || name == FunctionName::IsNotAfter {
                if args.len() >= 2 {
                    lemma_emit_lookbehind_defined(args, name == FunctionName::IsNotAfter, m, r);
                    assert(is_defined(spec_emit(exp, m, r)));
                }
            }
        },
        ExpressionView::Or(left, right) => {
            lemma_emit_defined(*left, m, r);
            if let Ok((_, m1)) = spec_emit(*left, m, r) {
                lemma_emit_defined(*right, m1, r);
            }
            assert(is_defined(spec_emit(exp, m, r)));
        },
        ExpressionView::IndexCapture(inner) => {
            lemma_emit_defined(*inner, map_with_group(m, None).1, r);
            assert(is_defined(spec_emit_capture(*inner, None, m, r)));
            assert(spec_emit(exp, m, r) == spec_emit_capture(*inner, None, m, r));
        },
        ExpressionView::NameCapture(name, inner) => {
            lemma_emit_defined(*inner, map_with_group(m, Some(name)).1, r);
            assert(is_defined(spec_emit_capture(*inner, Some(name), m, r)));
            assert(spec_emit(exp, m, r) == spec_emit_capture(*inner, Some(name), m, r));
        },
        _ => {
            assert(is_defined(spec_emit(exp, m, r)));
        },
    }
}

proof fn lemma_emit_list_defined(exps: Seq<ExpressionView>, n: int, m: MapView, r: int)
    requires
        all_compilable(exps, exps.len() as int),
        n <= exps.len(),
    ensures
        is_defined(spec_emit_list(exps, n, m, r)),
    decreases exps, n,
{
    if 0 < n {
        lemma_all_compilable_prefix(exps, exps.len() as int, n);
        lemma_emit_list_defined(exps, n - 1, m, r);
        if let Ok((_, m1)) = spec_emit_list(exps, n - 1, m, r) {
            lemma_emit_defined(exps[n - 1], m1, r);
        }
    }
}

proof fn lemma_all_compilable_prefix(exps: Seq<ExpressionView>, n: int, k: int)
    requires
        all_compilable(exps, n),
        0 < k <= n <= exps.len(),
    ensures
        all_compilable(exps, k),
        compilable(exps[k - 1]),
    decreases n - k,
{
    if k < n {
        lemma_all_compilable_prefix(exps, n - 1, k);
    }
}

proof fn lemma_emit_repetition_defined(
    name: FunctionName,
    exp: ExpressionView,
    numbers: Seq<usize>,
    m: MapView,
    r: int,
)
    requires
        is_repetition_function(name),
        compilable(exp),
        (name == FunctionName::Repeat || name == FunctionName::RepeatFrom || name
            == FunctionName::RepeatFromLazy) ==> numbers.len() >= 1,
        (name == FunctionName::RepeatRange || name == FunctionName::RepeatRangeLazy)
            ==> numbers.len() >= 2,
    ensures
        is_defined(spec_emit_repetition(name, exp, numbers, m, r)),
    decreases exp, 1nat,
{
    lemma_emit_defined(exp, m, r);
    let lazy = crate::compiler::is_lazy_function(name);
    assert(is_defined(spec_emit_optional(exp, lazy, m, r)));
    assert forall|repetition: crate::object_file::RepetitionType, l: bool|
        is_defined(#[trigger] spec_emit_repetition_loop(exp, repetition, l, m, r)) by {
        assert(is_defined(spec_emit(exp, m, r)));
    }
    assert forall|repetition: crate::object_file::RepetitionType, l: bool|
        is_defined(#[trigger] spec_emit_optional_loop(exp, repetition, l, m, r)) by {
        assert(is_defined(spec_emit_repetition_loop(exp, repetition, l, m, r)));
    }
    let outcome = spec_emit_repetition(name, exp, numbers, m, r);
    match name {
        FunctionName::Optional | FunctionName::OptionalLazy => {
            assert(outcome == spec_emit_optional(exp, lazy, m, r));
        },
        FunctionName::OneOrMore | FunctionName::OneOrMoreLazy => {
            assert(outcome == spec_emit_repetition_loop(
                exp,
                crate::object_file::RepetitionType::RepeatFrom(1),
                lazy,
                m,
                r,
            ));
        },
        FunctionName::ZeroOrMore | FunctionName::ZeroOrMoreLazy => {
            assert(outcome == spec_emit_optional_loop(
                exp,
                crate::object_file::RepetitionType::RepeatFrom(1),
                lazy,
                m,
                r,
            ));
        },
        FunctionName::Repeat => {
            let times = numbers[0];
            if times == 0 {
                assert(outcome is Ok);
            } else if times == 1 {
                assert(outcome == spec_emit(exp, m, r));
            } else {
                assert(outcome == spec_emit_repetition_loop(
                    exp,
                    crate::object_file::RepetitionType::Repeat(times),
                    true,
                    m,
                    r,
                ));
            }
        },
        FunctionName::RepeatFrom | FunctionName::RepeatFromLazy => {
            let from = numbers[0];
            if from == 0 {
                assert(outcome == spec_emit_optional_loop(
                    exp,
                    crate::object_file::RepetitionType::RepeatFrom(1),
                    lazy,
                    m,
                    r,
                ));
            } else {
                assert(outcome == spec_emit_repetition_loop(
                    exp,
                    crate::object_file::RepetitionType::RepeatFrom(from),
                    lazy,
                    m,
                    r,
                ));
            }
        },
        FunctionName::RepeatRange | FunctionName::RepeatRangeLazy => {
            let from = numbers[0];
            let to = numbers[1];
            if from > to {
                assert(outcome is Err && outcome->Err_0 is Some);
            } else if from == 0 {
                if to == 0 {
                    assert(outcome is Ok);
                } else if to == 1 {
                    assert(outcome == spec_emit_optional(exp, lazy, m, r));
                } else {
                    assert(outcome == spec_emit_optional_loop(
                        exp,
                        crate::object_file::RepetitionType::RepeatRange(1, to),
                        lazy,
                        m,
                        r,
                    ));
                }
            } else if to == 1 {
                assert(outcome == spec_emit(exp, m, r));
            } else if from == to {
                assert(outcome == spec_emit_repetition_loop(
                    exp,
                    crate::object_file::RepetitionType::Repeat(from),
                    true,
                    m,
                    r,
                ));
            } else {
                assert(outcome == spec_emit_repetition_loop(
                    exp,
                    crate::object_file::RepetitionType::RepeatRange(from, to),
                    lazy,
                    m,
                    r,
                ));
            }
        },
        _ => {},
    }
}

proof fn lemma_emit_lookahead_defined(args: Seq<ArgumentView>, negative: bool, m: MapView, r: int)
    requires
        args.len() >= 2,
        args[0] matches ArgumentView::Expression(current) && compilable(current),
        args[1] matches ArgumentView::Expression(next) && compilable(next),
    ensures
        is_defined(spec_emit_lookahead(args, negative, m, r)),
    decreases args, 1nat,
{
    if let (ArgumentView::Expression(current), ArgumentView::Expression(next)) = (args[0], args[1]) {
        lemma_emit_defined(current, m, r);
        if let Ok((_, m1)) = spec_emit(current, m, r) {
            let (sub_route, m2) = map_with_route(m1);
            lemma_emit_defined(next, m2, sub_route as int);
        }
    }
}

proof fn lemma_emit_lookbehind_defined(args: Seq<ArgumentView>, negative: bool, m: MapView, r: int)
    requires
        args.len() >= 2,
        args[0] matches ArgumentView::Expression(current) && compilable(current),
        args[1] matches ArgumentView::Expression(previous) && compilable(previous)
            && match_length_computable(previous),
    ensures
        is_defined(spec_emit_lookbehind(args, negative, m, r)),
    decreases args, 1nat,
{
    if let (ArgumentView::Expression(current), ArgumentView::Expression(previous)) = (
        args[0],
        args[1],
    ) {
        let (sub_route, m1) = map_with_route(m);
        lemma_emit_defined(previous, m1, sub_route as int);
        if let Ok((sub_component, m2)) = spec_emit(previous, m1, sub_route as int) {
            let m3 = crate::object_file::map_with_ports(
                m2,
                sub_route as int,
                sub_component.in_node_index,
                sub_component.out_node_index,
                true,
            );
            lemma_emit_defined(current, m3, r);
        }
    }
}

/// A compilable program compiles without meeting a malformed call: to a
/// map or to an error.
pub proof fn law_compilable_programs_compile(exp: ExpressionView)
    requires
        compilable(exp),
    ensures
        is_defined(spec_compile(exp)),
{
    let (route, m1) = map_with_route(empty_map());
    let (group, m2) = map_with_group(m1, None);
    lemma_emit_defined(exp, m2, route as int);
}


/// The number of characters in a string, or `None` when it exceeds
/// `usize::MAX`.
fn checked_char_count(s: &str) -> (n: Option<usize>)
    ensures
        match n {
            Some(k) => k == s@.len(),
            None => s@.len() > usize::MAX,
        },
{
    broadcast use vstd::string::group_string_axioms;

    let mut n: usize = 0;
    for c in it: s.chars()
        invariant
            n == it.index(),
            it.seq() == s@,
    {
        if n == usize::MAX {
            return None;
        }
        n = n + 1;
    }
    Some(n)
}

/// The match length of an expression, or `None` when measuring it would
/// meet a malformed call or an overflow.
fn checked_match_length(exp: &Expression) -> (result: Option<MatchLength>)
    ensures
        result is Some == match_length_computable(exp@),
        result matches Some(length) ==> length.spec_value() == spec_match_length(exp@),
    decreases exp,
{
    match exp {
        Expression::Literal(literal) => match literal {
            Literal::String(s) => match checked_char_count(s.as_str()) {
                Some(n) => Some(MatchLength::Fixed(n)),
                None => None,
            },
            _ => Some(MatchLength::Fixed(1)),
        },
        Expression::BackReference(_) => Some(MatchLength::Variable),
        Expression::Group(exps) => {
            let ghost views = crate::ast::seq_expressions_view(exps@);
            proof {
                lemma_expressions_view_index(exps@, exps@.len() as int);
            }
            let mut acc = MatchLength::Fixed(0);
            let mut i: usize = 0;
            #[verifier::loop_isolation(false)]
            while i < exps.len()
                invariant
                    0 <= i <= exps@.len(),
                    views.len() == exps@.len(),
                    group_computable(views, i as int),
                    acc.spec_value() == spec_group_length(views, i as int),
                decreases exps@.len() - i,
            {
                let item = match checked_match_length(&exps[i]) {
                    Some(length) => length,
                    None => {
                        proof {
                            lemma_group_not_computable(views, views.len() as int, i as int + 1);
                        }
                        return None;
                    },
                };
                acc = match (acc, item) {
                    (MatchLength::Fixed(a), MatchLength::Fixed(b)) => match a.checked_add(b) {
                        Some(sum) => MatchLength::Fixed(sum),
                        None => {
                            proof {
                                lemma_group_not_computable(
                                    views,
                                    views.len() as int,
                                    i as int + 1,
                                );
                            }
                            return None;
                        },
                    },
                    _ => MatchLength::Variable,
                };
                i = i + 1;
            }
            Some(acc)
        },
        Expression::FunctionCall(function_call) => {
            let args = &function_call.args;
            proof {
                lemma_arguments_view_index(args@, args@.len() as int);
            }
            match function_call.name {
                FunctionName::IsStart | FunctionName::IsEnd | FunctionName::IsBound
                | FunctionName::IsNotBound => Some(MatchLength::Fixed(0)),
                FunctionName::Repeat => {
                    if args.len() < 2 {
                        return None;
                    }
                    match (&args[0], &args[1]) {
                        (FunctionArgument::Expression(base), FunctionArgument::Number(k)) => {
                            match checked_match_length(base) {
                                Some(MatchLength::Fixed(v)) => match v.checked_mul(*k) {
                                    Some(product) => Some(MatchLength::Fixed(product)),
                                    None => None,
                                },
                                Some(MatchLength::Variable) => Some(MatchLength::Variable),
                                None => None,
                            }
                        },
                        _ => None,
                    }
                },
                FunctionName::IsBefore | FunctionName::IsNotBefore | FunctionName::IsAfter
                | FunctionName::IsNotAfter => {
                    if args.len() < 1 {
                        return None;
                    }
                    match &args[0] {
                        FunctionArgument::Expression(base) => checked_match_length(base),
                        _ => None,
                    }
                },
                _ => Some(MatchLength::Variable),
            }
        },
        Expression::Or(left, right) => {
            let a = checked_match_length(left);
            let b = checked_match_length(right);
            match (a, b) {
                (Some(x), Some(y)) => Some(x.bitor(y)),
                _ => None,
            }
        },
        Expression::IndexCapture(inner) => checked_match_length(inner),
        Expression::NameCapture(_, inner) => checked_match_length(inner),
    }
}

/// A group whose items up to `k` are not all measurable, or whose partial
/// sum up to `k` overflows, is not measurable.
proof fn lemma_group_not_computable(exps: Seq<ExpressionView>, n: int, k: int)
    requires
        0 < k <= n <= exps.len(),
        !group_computable(exps, k),
    ensures
        !group_computable(exps, n),
    decreases n - k,
{
    if k < n {
        lemma_group_not_computable(exps, n - 1, k);
    }
}


/// The function is a quantifier.
fn is_quantifier(name: FunctionName) -> (result: bool)
    ensures
        result == is_repetition_function(name),
{
    matches!(
        name,
        FunctionName::Optional | FunctionName::OneOrMore | FunctionName::ZeroOrMore
            | FunctionName::Repeat | FunctionName::RepeatRange | FunctionName::RepeatFrom
            | FunctionName::OptionalLazy | FunctionName::OneOrMoreLazy
            | FunctionName::ZeroOrMoreLazy | FunctionName::RepeatRangeLazy
            | FunctionName::RepeatFromLazy
    )
}

/// Whether every call in the expression has the arguments that its function
/// needs.
#[verifier::loop_isolation(false)]
fn check_expression(exp: &Expression) -> (ok: bool)
    ensures
        ok == compilable(exp@),
    decreases exp,
{
    match exp {
        Expression::Literal(_) => true,
        Expression::BackReference(_) => true,
        Expression::Group(exps) => {
            let ghost views = crate::ast::seq_expressions_view(exps@);
            proof {
                lemma_expressions_view_index(exps@, exps@.len() as int);
            }
            let mut i: usize = 0;
            while i < exps.len()
                invariant
                    i <= exps@.len(),
                    views.len() == exps@.len(),
                    all_compilable(views, i as int),
                decreases exps@.len() - i,
            {
                if !check_expression(&exps[i]) {
                    proof {
                        lemma_all_compilable_not(views, views.len() as int, i as int + 1);
                    }
                    return false;
                }
                i = i + 1;
            }
            true
        },
        Expression::FunctionCall(function_call) => {
            let name = function_call.name;
            let args = &function_call.args;
            let ghost views = crate::ast::seq_arguments_view(args@);
            proof {
                lemma_arguments_view_index(args@, args@.len() as int);
            }
            if is_quantifier(name) {
                if args.len() < 1 {
                    return false;
                }
                let mut i: usize = 1;
                while i < args.len()
                    invariant
                        1 <= i <= args@.len(),
                        views.len() == args@.len(),
                        forall|k: int| 1 <= k < i ==> #[trigger] views[k] is Number,
                    decreases args@.len() - i,
                {
                    match &args[i] {
                        FunctionArgument::Number(_) => {},
                        _ => {
                            proof {
                                assert(!(views[i as int] is Number));
                            }
                            return false;
                        },
                    }
                    i = i + 1;
                }
                let base_ok = match &args[0] {
                    FunctionArgument::Expression(base) => check_expression(base),
                    _ => false,
                };
                let count_ok = match name {
                    FunctionName::Repeat | FunctionName::RepeatFrom
                    | FunctionName::RepeatFromLazy => args.len() >= 2,
                    FunctionName::RepeatRange | FunctionName::RepeatRangeLazy => args.len() >= 3,
                    _ => true,
                };
                base_ok && count_ok
            } else if matches!(
                name,
                FunctionName::IsBefore | FunctionName::IsNotBefore | FunctionName::IsAfter
                    | FunctionName::IsNotAfter
            ) {
                if args.len() < 1 {
                    return false;
                }
                let current_ok = match &args[0] {
                    FunctionArgument::Expression(current) => check_expression(current),
                    _ => false,
                };
                if !current_ok {
                    return false;
                }
                if args.len() < 2 {
                    return true;
                }
                match &args[1] {
                    FunctionArgument::Expression(other) => {
                        if !check_expression(other) {
                            return false;
                        }
                        if matches!(name, FunctionName::IsAfter | FunctionName::IsNotAfter) {
                            checked_match_length(other).is_some()
                        } else {
                            true
                        }
                    },
                    _ => false,
                }
            } else {
                true
            }
        },
        Expression::Or(left, right) => check_expression(left) && check_expression(right),
        Expression::IndexCapture(inner) => check_expression(inner),
        Expression::NameCapture(_, inner) => check_expression(inner),
    }
}

proof fn lemma_all_compilable_not(exps: Seq<ExpressionView>, n: int, k: int)
    requires
        0 < k <= n <= exps.len(),
        !all_compilable(exps, k),
    ensures
        !all_compilable(exps, n),
    decreases n - k,
{
    if k < n {
        lemma_all_compilable_not(exps, n - 1, k);
    }
}

/// Whether the program can be compiled without meeting a malformed call:
/// when it can, compiling gives a map or an error (see
/// `law_compilable_programs_compile`).
pub fn check_program(program: &Program) -> (ok: bool)
    ensures
        ok == compilable(program@),
        ok ==> is_defined(spec_compile(program@)),
{
    let ok = check_expression(&program.expression);
    proof {
        if ok {
            law_compilable_programs_compile(program@);
        }
    }
    ok
}


/// Compiles an ANRE text after checking it: the parse error when the text
/// does not parse, `None` when the program it gives cannot be compiled
/// without meeting a malformed call, and otherwise what compiling gives.
pub fn checked_compile_from_anre(s: &str) -> (result: Option<Result<RouteMap, AnreError>>)
    requires
        s@.len() < usize::MAX,
    ensures
        match spec_parse_text(s@) {
            Ok(exp) => if compilable(exp) {
                result matches Some(outcome) && map_outcome(outcome) == spec_compile(exp)
            } else {
                result is None
            },
            Err(e) => result matches Some(Err(error)) && error@ == e,
        },
        result matches Some(Ok(map)) ==> well_formed_map(map@),
{
    let program = match crate::anre::parser::parse_from_str(s) {
        Ok(program) => program,
        Err(e) => {
            return Some(Err(e));
        },
    };
    if !check_program(&program) {
        return None;
    }
    Some(compile(&program))
}

/// Compiles a traditional regular expression after checking it: the parse
/// error when the text does not parse, `None` when the program it gives
/// cannot be compiled without meeting a malformed call, and otherwise what
/// compiling gives.
pub fn checked_compile_from_regex(s: &str) -> (result: Option<Result<RouteMap, AnreError>>)
    requires
        s@.len() < usize::MAX,
    ensures
        match spec_parse_regex_text(s@) {
            Ok(exp) => if compilable(exp) {
                result matches Some(outcome) && map_outcome(outcome) == spec_compile(exp)
            } else {
                result is None
            },
            Err(e) => result matches Some(Err(error)) && error@ == e,
        },
        result matches Some(Ok(map)) ==> well_formed_map(map@),
{
    let program = match crate::traditional::parser::parse_from_str(s) {
        Ok(program) => program,
        Err(e) => {
            return Some(Err(e));
        },
    };
    if !check_program(&program) {
        return None;
    }
    Some(compile(&program))
}
} // verus!
