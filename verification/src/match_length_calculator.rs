use vstd::prelude::*;

use crate::ast::{
    ArgumentView, Expression, ExpressionView, FunctionArgument, FunctionName, Literal, LiteralView,
    lemma_arguments_view_index, lemma_expressions_view_index,
};

verus! {

/// The number of characters that an expression matches: `Variable` when
/// it depends on the text, `Fixed(n)` when it is always `n` (counted in
/// Unicode code points). A look-behind assertion needs a fixed length.
#[derive(Debug, PartialEq, Eq, Clone, Copy)]
pub enum MatchLength {
    Variable,
    Fixed(usize),
}

impl MatchLength {
    /// `None` for a variable length, `Some(n)` for a fixed length of `n` characters.
    pub open spec fn spec_value(self) -> Option<nat> {
        match self {
            MatchLength::Variable => None,
            MatchLength::Fixed(n) => Some(n as nat),
        }
    }

    /// The length of one pattern followed by another: fixed only when both are.
    pub fn add(self, rhs: Self) -> (result: Self)
        requires
            self.spec_value() is Some && rhs.spec_value() is Some ==> self.spec_value()->0
                + rhs.spec_value()->0 <= usize::MAX,
        ensures
            result.spec_value() == length_sum(self.spec_value(), rhs.spec_value()),
    {
        match self {
            MatchLength::Variable => MatchLength::Variable,
            MatchLength::Fixed(v0) => match rhs {
                MatchLength::Variable => MatchLength::Variable,
                MatchLength::Fixed(v1) => MatchLength::Fixed(v0 + v1),
            },
        }
    }

    /// The length of a pattern repeated `rhs` times.
    pub fn mul(self, rhs: usize) -> (result: Self)
        requires
            self.spec_value() is Some ==> self.spec_value()->0 * rhs <= usize::MAX,
        ensures
            result.spec_value() == length_times(self.spec_value(), rhs as nat),
    {
        match self {
            MatchLength::Variable => MatchLength::Variable,
            MatchLength::Fixed(v) => MatchLength::Fixed(v * rhs),
        }
    }

    /// The length of an alternation: fixed only when both branches have the
    /// same fixed length.
    pub fn bitor(self, rhs: Self) -> (result: Self)
        ensures
            result.spec_value() == length_either(self.spec_value(), rhs.spec_value()),
    {
        match self {
            MatchLength::Variable => MatchLength::Variable,
            MatchLength::Fixed(v0) => match rhs {
                MatchLength::Variable => MatchLength::Variable,
                MatchLength::Fixed(v1) => {
                    if v0 == v1 {
                        MatchLength::Fixed(v0)
                    } else {
                        MatchLength::Variable
                    }
                },
            },
        }
    }
}

pub open spec fn length_sum(a: Option<nat>, b: Option<nat>) -> Option<nat> {
    match (a, b) {
        (Some(x), Some(y)) => Some(x + y),
        _ => None,
    }
}

pub open spec fn length_times(a: Option<nat>, k: nat) -> Option<nat> {
    match a {
        Some(x) => Some(x * k),
        None => None,
    }
}

pub open spec fn length_either(a: Option<nat>, b: Option<nat>) -> Option<nat> {
    match (a, b) {
        (Some(x), Some(y)) => if x == y {
            Some(x)
        } else {
            None
        },
        _ => None,
    }
}

pub open spec fn fits(a: Option<nat>) -> bool {
    a is Some ==> a->0 <= usize::MAX
}

/// The match length of an expression (`None` when variable).
///
/// Literals match one character, a string as many characters as it holds;
/// a back-reference and every quantifier but a fixed `repeat` have a variable
/// length; boundary assertions match nothing; a look-ahead or look-behind
/// assertion matches what its subject matches, its pattern being zero-width;
/// a group matches the sum of its items (an empty group nothing) and an
/// alternation is fixed only when both sides have the same fixed length.
pub open spec fn spec_match_length(exp: ExpressionView) -> Option<nat>
    decreases exp, 0nat,
{
    match exp {
        ExpressionView::Literal(literal) => match literal {
            LiteralView::String(s) => Some(s.len()),
            _ => Some(1),
        },
        ExpressionView::BackReference(_) => None,
        ExpressionView::Group(exps) => spec_group_length(exps, exps.len() as int),
        ExpressionView::FunctionCall(name, args) => match name {
            FunctionName::IsStart | FunctionName::IsEnd | FunctionName::IsBound
            | FunctionName::IsNotBound => Some(0),
            FunctionName::Repeat => {
                if 2 <= args.len() {
                    match (args[0], args[1]) {
                        (ArgumentView::Expression(base), ArgumentView::Number(k)) => {
                            length_times(spec_match_length(base), k as nat)
                        },
                        _ => None,
                    }
                } else {
                    None
                }
            },
            FunctionName::IsBefore | FunctionName::IsNotBefore | FunctionName::IsAfter
            | FunctionName::IsNotAfter => {
                if 1 <= args.len() {
                    match args[0] {
                        ArgumentView::Expression(base) => spec_match_length(base),
                        _ => None,
                    }
                } else {
                    None
                }
            },
            _ => None,
        },
        ExpressionView::Or(left, right) => length_either(
            spec_match_length(*left),
            spec_match_length(*right),
        ),
        ExpressionView::IndexCapture(inner) => spec_match_length(*inner),
        ExpressionView::NameCapture(_, inner) => spec_match_length(*inner),
    }
}

/// The length of the first `n` items of a group, added up from the left
/// (nothing for no items).
pub open spec fn spec_group_length(exps: Seq<ExpressionView>, n: int) -> Option<nat>
    decreases exps, n,
{
    if n <= 0 {
        Some(0)
    } else if n > exps.len() {
        None
    } else {
        length_sum(spec_group_length(exps, n - 1), spec_match_length(exps[n - 1]))
    }
}

/// The expression can be measured without a malformed call on the way (the
/// measure panics there), and without a fixed length, or a partial sum of
/// one, that exceeds `usize::MAX`.
pub open spec fn match_length_computable(exp: ExpressionView) -> bool
    decreases exp, 0nat,
{
    match exp {
        ExpressionView::Literal(literal) => match literal {
            LiteralView::String(s) => s.len() <= usize::MAX,
            _ => true,
        },
        ExpressionView::BackReference(_) => true,
        ExpressionView::Group(exps) => group_computable(exps, exps.len() as int),
        ExpressionView::FunctionCall(name, args) => match name {
            FunctionName::Repeat => {
                &&& 2 <= args.len()
                &&& match (args[0], args[1]) {
                    (ArgumentView::Expression(base), ArgumentView::Number(k)) => {
                        &&& match_length_computable(base)
                        &&& fits(length_times(spec_match_length(base), k as nat))
                    },
                    _ => false,
                }
            },
            FunctionName::IsBefore | FunctionName::IsNotBefore | FunctionName::IsAfter
            | FunctionName::IsNotAfter => {
                &&& 1 <= args.len()
                &&& match args[0] {
                    ArgumentView::Expression(base) => match_length_computable(base),
                    _ => false,
                }
            },
            _ => true,
        },
        ExpressionView::Or(left, right) => match_length_computable(*left)
            && match_length_computable(*right),
        ExpressionView::IndexCapture(inner) => match_length_computable(*inner),
        ExpressionView::NameCapture(_, inner) => match_length_computable(*inner),
    }
}

/// The first `n` items of a group are measurable and every partial sum fits.
pub open spec fn group_computable(exps: Seq<ExpressionView>, n: int) -> bool
    decreases exps, n,
{
    if n <= 0 || n > exps.len() {
        true
    } else {
        &&& group_computable(exps, n - 1)
        &&& match_length_computable(exps[n - 1])
        &&& fits(spec_group_length(exps, n))
    }
}

/// The number of characters (Unicode scalar values) in a string.
fn char_count(s: &str) -> (n: usize)
    requires
        s@.len() <= usize::MAX,
    ensures
        n == s@.len(),
{
    broadcast use vstd::string::group_string_axioms;

    let mut n: usize = 0;
    for c in it: s.chars()
        invariant
            n == it.index(),
            it.seq() == s@,
            s@.len() <= usize::MAX,
    {
        n = n + 1;
    }
    n
}

/// Calculates the match length of an expression: the number of characters
/// that it matches when that number does not depend on the text.
pub fn calculate_match_length(exp: &Expression) -> (result: MatchLength)
    requires
        match_length_computable(exp@),
    ensures
        result.spec_value() == spec_match_length(exp@),
    decreases exp,
{
    match exp {
        Expression::Literal(literal) => match literal {
            Literal::Char(_) => MatchLength::Fixed(1),
            Literal::String(s) => MatchLength::Fixed(char_count(s.as_str())),
            Literal::AnyChar => MatchLength::Fixed(1),
            Literal::CharSet(_) => MatchLength::Fixed(1),
            Literal::PresetCharSet(_) => MatchLength::Fixed(1),
        },
        Expression::BackReference(_) => MatchLength::Variable,
        Expression::Group(exps) => {
            let ghost views = crate::ast::seq_expressions_view(exps@);
            proof {
                lemma_expressions_view_index(exps@, exps@.len() as int);
            }
            let mut acc = MatchLength::Fixed(0);
            let mut i: usize = 0;
            #[verifier::loop_isolation(false)]
            while i < exps.len()
                invariant
                    0 <= i <= exps@.len(),
                    views.len() == exps@.len(),
                    group_computable(views, views.len() as int),
                    acc.spec_value() == spec_group_length(views, i as int),
                decreases exps@.len() - i,
            {
                proof {
                    lemma_group_computable_prefix(views, views.len() as int, i + 1);
                }
                let item = calculate_match_length(&exps[i]);
                acc = acc.add(item);
                i = i + 1;
            }
            acc
        },
        Expression::FunctionCall(function_call) => {
            proof {
                lemma_arguments_view_index(function_call.args@, function_call.args@.len() as int);
            }
            match function_call.name {
            FunctionName::IsStart | FunctionName::IsEnd => MatchLength::Fixed(0),
            FunctionName::IsBound | FunctionName::IsNotBound => MatchLength::Fixed(0),
            FunctionName::Repeat => {
                match (&function_call.args[0], &function_call.args[1]) {
                    (FunctionArgument::Expression(base_exp), FunctionArgument::Number(factor)) => {
                        calculate_match_length(base_exp).mul(*factor)
                    },
                    _ => {
                        proof {
                            assert(false);
                        }
                        MatchLength::Variable
                    },
                }
            },
            FunctionName::IsBefore | FunctionName::IsNotBefore | FunctionName::IsAfter
            | FunctionName::IsNotAfter => {
                match &function_call.args[0] {
                    FunctionArgument::Expression(base_exp) => calculate_match_length(base_exp),
                    _ => {
                        proof {
                            assert(false);
                        }
                        MatchLength::Variable
                    },
                }
            },
            _ => MatchLength::Variable,
        }
        },
        Expression::Or(left_exp, right_exp) => {
            let left = calculate_match_length(left_exp);
            let right = calculate_match_length(right_exp);
            left.bitor(right)
        },
        Expression::IndexCapture(inner) => calculate_match_length(inner),
        Expression::NameCapture(_, inner) => calculate_match_length(inner),
    }
}

proof fn lemma_group_computable_prefix(exps: Seq<ExpressionView>, n: int, k: int)
    requires
        group_computable(exps, n),
        0 < k <= n <= exps.len(),
    ensures
        group_computable(exps, k),
        match_length_computable(exps[k - 1]),
        fits(spec_group_length(exps, k)),
    decreases n - k,
{
    if k < n {
        lemma_group_computable_prefix(exps, n - 1, k);
    }
}


/// The sum of a sequence of lengths.
pub open spec fn total(lengths: Seq<nat>) -> nat
    decreases lengths.len(),
{
    if lengths.len() == 0 {
        0
    } else {
        total(lengths.drop_last()) + lengths.last()
    }
}

/// The fixed lengths of the first `n` items of a group.
pub open spec fn item_lengths(exps: Seq<ExpressionView>, n: int) -> Seq<nat> {
    Seq::new(n as nat, |i: int| spec_match_length(exps[i])->0)
}

/// A group's match length is the sum of its items' fixed lengths, and it is
/// variable when the length of some item is variable.
pub proof fn law_group_length_is_sum(exps: Seq<ExpressionView>)
    ensures
        (forall|i: int| 0 <= i < exps.len() ==> spec_match_length(#[trigger] exps[i]) is Some)
            ==> spec_match_length(ExpressionView::Group(exps)) == Some(
            total(item_lengths(exps, exps.len() as int)),
        ),
        (exists|i: int| 0 <= i < exps.len() && spec_match_length(#[trigger] exps[i]) is None)
            ==> spec_match_length(ExpressionView::Group(exps)) is None,
{
    lemma_group_length_prefix(exps, exps.len() as int);
}

proof fn lemma_group_length_prefix(exps: Seq<ExpressionView>, n: int)
    requires
        0 <= n <= exps.len(),
    ensures
        (forall|i: int| 0 <= i < n ==> spec_match_length(#[trigger] exps[i]) is Some)
            ==> spec_group_length(exps, n) == Some(total(item_lengths(exps, n))),
        (exists|i: int| 0 <= i < n && spec_match_length(#[trigger] exps[i]) is None)
            ==> spec_group_length(exps, n) is None,
    decreases n,
{
    if n > 0 {
        lemma_group_length_prefix(exps, n - 1);
        assert(item_lengths(exps, n).drop_last() =~= item_lengths(exps, n - 1));
        if exists|i: int| 0 <= i < n && spec_match_length(#[trigger] exps[i]) is None {
            let i = choose|i: int| 0 <= i < n && spec_match_length(#[trigger] exps[i]) is None;
            if i < n - 1 {
                assert(spec_group_length(exps, n - 1) is None);
            }
        }
    }
}

/// Every literal but a string matches exactly one character: a character,
/// `char_any`, a preset charset or a charset, negative or not, however many
/// items it lists; a string matches as many characters as it holds.
pub proof fn law_literal_lengths(literal: LiteralView)
    ensures
        literal is String ==> spec_match_length(ExpressionView::Literal(literal)) == Some(
            literal->String_0.len(),
        ),
        !(literal is String) ==> spec_match_length(ExpressionView::Literal(literal)) == Some(
            1nat,
        ),
{
}
} // verus!
