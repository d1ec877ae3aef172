use vstd::prelude::*;

verus! {

/// A parsed ANRE program: one root expression.
#[derive(Debug, PartialEq)]
pub struct Program {
    pub expression: Expression,
}

/// An ANRE expression.
///
/// A `Group` is a sequence of expressions; it is not captured unless wrapped
/// in an `IndexCapture` or a `NameCapture` (it matches like a non-capturing
/// group of a traditional regular expression). `Or` is a disjunction.
#[derive(Debug, PartialEq)]
pub enum Expression {
    Literal(Literal),
    BackReference(BackReference),
    Group(Vec<Expression>),
    FunctionCall(Box<FunctionCall>),
    IndexCapture(Box<Expression>),
    NameCapture(String, Box<Expression>),
    Or(Box<Expression>, Box<Expression>),
}

/// A call of a quantifier or an assertion, such as `optional(..)` or `is_before(..)`.
#[derive(Debug, PartialEq)]
pub struct FunctionCall {
    pub name: FunctionName,
    pub args: Vec<FunctionArgument>,
}

#[derive(Debug, PartialEq)]
pub enum FunctionArgument {
    Expression(Expression),
    Number(usize),
}

#[derive(Debug, PartialEq)]
pub enum Literal {
    /// `char_any`: any single character except a line terminator.
    AnyChar,
    Char(char),
    String(String),
    PresetCharSet(PresetCharSetName),
    CharSet(CharSet),
}

#[derive(Debug, PartialEq)]
pub struct CharSet {
    pub negative: bool,
    pub elements: Vec<CharSetElement>,
}

/// An element of a character set. A nested character set is accepted here by
/// the parser; the compiler refuses it when it is negative.
#[derive(Debug, PartialEq)]
pub enum CharSetElement {
    Char(char),
    CharRange(CharRange),
    PresetCharSet(PresetCharSetName),
    CharSet(Box<CharSet>),
}

#[derive(Debug, PartialEq)]
pub struct CharRange {
    pub start: char,
    pub end_inclusive: char,
}

#[derive(Debug, PartialEq)]
pub enum BackReference {
    Index(usize),
    Name(String),
}

#[derive(Debug, PartialEq, Eq, Clone, Copy)]
pub enum PresetCharSetName {
    CharWord,
    CharNotWord,
    CharDigit,
    CharNotDigit,
    CharSpace,
    CharNotSpace,
}

/// The functions of ANRE: greedy and lazy quantifiers, boundary assertions,
/// and lookahead / lookbehind assertions.
#[derive(Debug, PartialEq, Eq, Clone, Copy)]
pub enum FunctionName {
    Optional,
    OneOrMore,
    ZeroOrMore,
    Repeat,
    RepeatRange,
    RepeatFrom,
    OptionalLazy,
    OneOrMoreLazy,
    ZeroOrMoreLazy,
    RepeatRangeLazy,
    RepeatFromLazy,
    IsStart,
    IsEnd,
    IsBound,
    IsNotBound,
    IsBefore,
    IsAfter,
    IsNotBefore,
    IsNotAfter,
}

/// An expression with its lists taken as sequences and its names and
/// strings as sequences of characters.
pub enum ExpressionView {
    Literal(LiteralView),
    BackReference(BackReferenceView),
    Group(Seq<ExpressionView>),
    FunctionCall(FunctionName, Seq<ArgumentView>),
    IndexCapture(Box<ExpressionView>),
    NameCapture(Seq<char>, Box<ExpressionView>),
    Or(Box<ExpressionView>, Box<ExpressionView>),
}

pub enum ArgumentView {
    Expression(ExpressionView),
    Number(usize),
}

pub enum LiteralView {
    AnyChar,
    Char(char),
    String(Seq<char>),
    PresetCharSet(PresetCharSetName),
    CharSet(CharSetView),
}

pub struct CharSetView {
    pub negative: bool,
    pub elements: Seq<CharSetElementView>,
}

pub enum CharSetElementView {
    Char(char),
    CharRange(char, char),
    PresetCharSet(PresetCharSetName),
    CharSet(Box<CharSetView>),
}

pub enum BackReferenceView {
    Index(usize),
    Name(Seq<char>),
}

impl View for Program {
    type V = ExpressionView;

    open spec fn view(&self) -> ExpressionView {
        self.expression@
    }
}

impl View for Expression {
    type V = ExpressionView;

    open spec fn view(&self) -> ExpressionView {
        expression_view(*self)
    }
}

impl View for FunctionArgument {
    type V = ArgumentView;

    open spec fn view(&self) -> ArgumentView {
        argument_view(*self)
    }
}

impl View for Literal {
    type V = LiteralView;

    open spec fn view(&self) -> LiteralView {
        match self {
            Literal::AnyChar => LiteralView::AnyChar,
            Literal::Char(c) => LiteralView::Char(*c),
            Literal::String(s) => LiteralView::String(s@),
            Literal::PresetCharSet(name) => LiteralView::PresetCharSet(*name),
            Literal::CharSet(charset) => LiteralView::CharSet(charset_view(*charset)),
        }
    }
}

impl View for CharSet {
    type V = CharSetView;

    open spec fn view(&self) -> CharSetView {
        charset_view(*self)
    }
}

impl View for CharSetElement {
    type V = CharSetElementView;

    open spec fn view(&self) -> CharSetElementView {
        charset_element_view(*self)
    }
}

impl View for BackReference {
    type V = BackReferenceView;

    open spec fn view(&self) -> BackReferenceView {
        match self {
            BackReference::Index(i) => BackReferenceView::Index(*i),
            BackReference::Name(name) => BackReferenceView::Name(name@),
        }
    }
}

pub open spec fn expression_view(exp: Expression) -> ExpressionView
    decreases exp, 0nat,
{
    match exp {
        Expression::Literal(literal) => ExpressionView::Literal(literal@),
        Expression::BackReference(back_reference) => ExpressionView::BackReference(back_reference@),
        Expression::Group(exps) => ExpressionView::Group(expressions_view(exps@, exps@.len() as int)),
        Expression::FunctionCall(call) => ExpressionView::FunctionCall(
            call.name,
            arguments_view(call.args@, call.args@.len() as int),
        ),
        Expression::IndexCapture(inner) => ExpressionView::IndexCapture(
            Box::new(expression_view(*inner)),
        ),
        Expression::NameCapture(name, inner) => ExpressionView::NameCapture(
            name@,
            Box::new(expression_view(*inner)),
        ),
        Expression::Or(left, right) => ExpressionView::Or(
            Box::new(expression_view(*left)),
            Box::new(expression_view(*right)),
        ),
    }
}

/// The views of the first `n` expressions.
pub open spec fn expressions_view(exps: Seq<Expression>, n: int) -> Seq<ExpressionView>
    decreases exps, n,
{
    if n <= 0 || n > exps.len() {
        seq![]
    } else {
        expressions_view(exps, n - 1).push(expression_view(exps[n - 1]))
    }
}

pub open spec fn argument_view(arg: FunctionArgument) -> ArgumentView
    decreases arg, 0nat,
{
    match arg {
        FunctionArgument::Expression(exp) => ArgumentView::Expression(expression_view(exp)),
        FunctionArgument::Number(n) => ArgumentView::Number(n),
    }
}

/// The views of the first `n` arguments.
pub open spec fn arguments_view(args: Seq<FunctionArgument>, n: int) -> Seq<ArgumentView>
    decreases args, n,
{
    if n <= 0 || n > args.len() {
        seq![]
    } else {
        arguments_view(args, n - 1).push(argument_view(args[n - 1]))
    }
}

pub open spec fn charset_view(charset: CharSet) -> CharSetView
    decreases charset, 0nat,
{
    CharSetView {
        negative: charset.negative,
        elements: charset_elements_view(charset.elements@, charset.elements@.len() as int),
    }
}

pub open spec fn charset_element_view(element: CharSetElement) -> CharSetElementView
    decreases element, 0nat,
{
    match element {
        CharSetElement::Char(c) => CharSetElementView::Char(c),
        CharSetElement::CharRange(range) => CharSetElementView::CharRange(
            range.start,
            range.end_inclusive,
        ),
        CharSetElement::PresetCharSet(name) => CharSetElementView::PresetCharSet(name),
        CharSetElement::CharSet(inner) => CharSetElementView::CharSet(Box::new(charset_view(*inner))),
    }
}

/// The views of the first `n` elements.
pub open spec fn charset_elements_view(elements: Seq<CharSetElement>, n: int) -> Seq<
    CharSetElementView,
>
    decreases elements, n,
{
    if n <= 0 || n > elements.len() {
        seq![]
    } else {
        charset_elements_view(elements, n - 1).push(charset_element_view(elements[n - 1]))
    }
}

/// The view of a whole list of expressions.
pub open spec fn seq_expressions_view(exps: Seq<Expression>) -> Seq<ExpressionView> {
    expressions_view(exps, exps.len() as int)
}

/// The view of a whole list of arguments.
pub open spec fn seq_arguments_view(args: Seq<FunctionArgument>) -> Seq<ArgumentView> {
    arguments_view(args, args.len() as int)
}

/// The view of a whole list of charset elements.
pub open spec fn seq_elements_view(elements: Seq<CharSetElement>) -> Seq<CharSetElementView> {
    charset_elements_view(elements, elements.len() as int)
}

proof fn lemma_expressions_view_prefix(s: Seq<Expression>, x: Expression, k: int)
    requires
        0 <= k <= s.len(),
    ensures
        expressions_view(s.push(x), k) == expressions_view(s, k),
    decreases k,
{
    if k > 0 {
        lemma_expressions_view_prefix(s, x, k - 1);
        assert(s.push(x)[k - 1] == s[k - 1]);
    }
}

/// The view of a list grows by the view of the item pushed.
pub proof fn lemma_expressions_view_push(s: Seq<Expression>, x: Expression)
    ensures
        seq_expressions_view(s.push(x)) == seq_expressions_view(s).push(expression_view(x)),
{
    lemma_expressions_view_prefix(s, x, s.len() as int);
    assert(s.push(x)[s.len() as int] == x);
}

/// The view of a list has its length, item by item.
pub proof fn lemma_expressions_view_index(s: Seq<Expression>, k: int)
    requires
        0 <= k <= s.len(),
    ensures
        expressions_view(s, k).len() == k,
        forall|i: int| 0 <= i < k ==> expressions_view(s, k)[i] == expression_view(s[i]),
    decreases k,
{
    if k > 0 {
        lemma_expressions_view_index(s, k - 1);
    }
}

proof fn lemma_arguments_view_prefix(s: Seq<FunctionArgument>, x: FunctionArgument, k: int)
    requires
        0 <= k <= s.len(),
    ensures
        arguments_view(s.push(x), k) == arguments_view(s, k),
    decreases k,
{
    if k > 0 {
        lemma_arguments_view_prefix(s, x, k - 1);
        assert(s.push(x)[k - 1] == s[k - 1]);
    }
}

/// The view of an argument list grows by the view of the argument pushed.
pub proof fn lemma_arguments_view_push(s: Seq<FunctionArgument>, x: FunctionArgument)
    ensures
        seq_arguments_view(s.push(x)) == seq_arguments_view(s).push(argument_view(x)),
{
    lemma_arguments_view_prefix(s, x, s.len() as int);
    assert(s.push(x)[s.len() as int] == x);
}

/// The view of an argument list has its length, argument by argument.
pub proof fn lemma_arguments_view_index(s: Seq<FunctionArgument>, k: int)
    requires
        0 <= k <= s.len(),
    ensures
        arguments_view(s, k).len() == k,
        forall|i: int| 0 <= i < k ==> arguments_view(s, k)[i] == argument_view(s[i]),
    decreases k,
{
    if k > 0 {
        lemma_arguments_view_index(s, k - 1);
    }
}

proof fn lemma_elements_view_prefix(s: Seq<CharSetElement>, x: CharSetElement, k: int)
    requires
        0 <= k <= s.len(),
    ensures
        charset_elements_view(s.push(x), k) == charset_elements_view(s, k),
    decreases k,
{
    if k > 0 {
        lemma_elements_view_prefix(s, x, k - 1);
        assert(s.push(x)[k - 1] == s[k - 1]);
    }
}

/// The view of an element list grows by the view of the element pushed.
pub proof fn lemma_elements_view_push(s: Seq<CharSetElement>, x: CharSetElement)
    ensures
        seq_elements_view(s.push(x)) == seq_elements_view(s).push(charset_element_view(x)),
{
    lemma_elements_view_prefix(s, x, s.len() as int);
    assert(s.push(x)[s.len() as int] == x);
}

/// The view of an element list has its length, element by element.
pub proof fn lemma_elements_view_index(s: Seq<CharSetElement>, k: int)
    requires
        0 <= k <= s.len(),
    ensures
        charset_elements_view(s, k).len() == k,
        forall|i: int| 0 <= i < k ==> charset_elements_view(s, k)[i] == charset_element_view(s[i]),
    decreases k,
{
    if k > 0 {
        lemma_elements_view_index(s, k - 1);
    }
}


/// Dropping the last expression drops the last view.
pub proof fn lemma_expressions_view_drop_last(s: Seq<Expression>)
    requires
        s.len() > 0,
    ensures
        seq_expressions_view(s.drop_last()) == seq_expressions_view(s).drop_last(),
        seq_expressions_view(s).last() == expression_view(s.last()),
        seq_expressions_view(s).len() == s.len(),
{
    lemma_expressions_view_push(s.drop_last(), s.last());
    assert(s.drop_last().push(s.last()) =~= s);
    lemma_expressions_view_index(s, s.len() as int);
    assert(seq_expressions_view(s).drop_last() =~= seq_expressions_view(s.drop_last()));
}

/// No group in the expression holds exactly one expression.
pub open spec fn no_single_item_groups(exp: ExpressionView) -> bool
    decreases exp,
{
    match exp {
        ExpressionView::Group(exps) => exps.len() != 1 && forall|i: int|
            0 <= i < exps.len() ==> no_single_item_groups(#[trigger] exps[i]),
        ExpressionView::FunctionCall(_, args) => forall|i: int|
            0 <= i < args.len() ==> (#[trigger] args[i] matches ArgumentView::Expression(arg)
                ==> no_single_item_groups(arg)),
        ExpressionView::IndexCapture(inner) => no_single_item_groups(*inner),
        ExpressionView::NameCapture(_, inner) => no_single_item_groups(*inner),
        ExpressionView::Or(left, right) => no_single_item_groups(*left) && no_single_item_groups(
            *right,
        ),
        _ => true,
    }
}

/// Every expression argument has no group of one expression.
pub open spec fn arguments_without_single_item_groups(args: Seq<ArgumentView>) -> bool {
    forall|i: int|
        0 <= i < args.len() ==> (#[trigger] args[i] matches ArgumentView::Expression(arg)
            ==> no_single_item_groups(arg))
}

/// Every expression has no group of one expression.
pub open spec fn all_without_single_item_groups(exps: Seq<ExpressionView>) -> bool {
    forall|i: int| 0 <= i < exps.len() ==> no_single_item_groups(#[trigger] exps[i])
}

} // verus!
