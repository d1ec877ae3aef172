use vstd::prelude::*;

use crate::ast::{
    ArgumentView, BackReference, CharSet, CharSetElement, CharSetElementView, CharSetView,
    Expression, ExpressionView, FunctionArgument, FunctionName, Literal, LiteralView,
    PresetCharSetName, Program, lemma_arguments_view_index, lemma_elements_view_index,
    lemma_expressions_view_index, seq_arguments_view, seq_elements_view, seq_expressions_view,
};
use crate::anre::lexer::{
    LexStep, lex_step, range_between, spec_char_body, spec_escape, spec_lex, spec_lex_from,
    spec_string_body, tokens_view,
};
use crate::anre::macro_expander::{is_define_keyword, law_expand_without_definitions_is_identity};
use crate::anre::parser::{
    ParseState, advance, spec_logic_or_rest, spec_method_call_rest, spec_parse_expression,
    spec_parse_index_capture, spec_parse_literal, spec_parse_method_call,
    spec_parse_named_capture, spec_parse_primary_expression, spec_parse_program,
    spec_parse_quantifier, spec_parse_text, spec_parse_tokens,
};
use crate::anre::token::{Token, TokenView, TokenWithRange};
use crate::anre::views::law_parse_depends_on_token_views;
use crate::error::ErrorView;
use crate::range::{Range, spec_default_range};
use crate::text::{decimal, push_char, push_decimal, push_str};

verus! {

/// A character as it is written inside quotes: backslash, quotes and the
/// control characters with an escape sequence, others as they are.
pub open spec fn escaped_char(c: char) -> Seq<char> {
    if c == '\\' {
        "\\\\"@
    } else if c == '\'' {
        "\\'"@
    } else if c == '"' {
        "\\\""@
    } else if c == '\n' {
        "\\n"@
    } else if c == '\r' {
        "\\r"@
    } else if c == '\t' {
        "\\t"@
    } else if c == '\0' {
        "\\0"@
    } else {
        seq![c]
    }
}

/// The first `n` characters of a text, escaped.
pub open spec fn escaped_text(s: Seq<char>, n: int) -> Seq<char>
    decreases n,
{
    if n <= 0 || n > s.len() {
        seq![]
    } else {
        escaped_text(s, n - 1) + escaped_char(s[n - 1])
    }
}

/// A character literal.
pub open spec fn char_text(c: char) -> Seq<char> {
    "'"@ + escaped_char(c) + "'"@
}

/// A string literal.
pub open spec fn string_text(s: Seq<char>) -> Seq<char> {
    "\""@ + escaped_text(s, s.len() as int) + "\""@
}

/// The name of a preset charset.
pub open spec fn preset_text(name: PresetCharSetName) -> Seq<char> {
    match name {
        PresetCharSetName::CharWord => "char_word"@,
        PresetCharSetName::CharNotWord => "char_not_word"@,
        PresetCharSetName::CharDigit => "char_digit"@,
        PresetCharSetName::CharNotDigit => "char_not_digit"@,
        PresetCharSetName::CharSpace => "char_space"@,
        PresetCharSetName::CharNotSpace => "char_not_space"@,
    }
}

/// The name of a function.
pub open spec fn function_text(name: FunctionName) -> Seq<char> {
    match name {
        FunctionName::Optional => "optional"@,
        FunctionName::OneOrMore => "one_or_more"@,
        FunctionName::ZeroOrMore => "zero_or_more"@,
        FunctionName::Repeat => "repeat"@,
        FunctionName::RepeatRange => "repeat_range"@,
        FunctionName::RepeatFrom => "repeat_from"@,
        FunctionName::OptionalLazy => "optional_lazy"@,
        FunctionName::OneOrMoreLazy => "one_or_more_lazy"@,
        FunctionName::ZeroOrMoreLazy => "zero_or_more_lazy"@,
        FunctionName::RepeatRangeLazy => "repeat_range_lazy"@,
        FunctionName::RepeatFromLazy => "repeat_from_lazy"@,
        FunctionName::IsStart => "is_start"@,
        FunctionName::IsEnd => "is_end"@,
        FunctionName::IsBound => "is_bound"@,
        FunctionName::IsNotBound => "is_not_bound"@,
        FunctionName::IsBefore => "is_before"@,
        FunctionName::IsAfter => "is_after"@,
        FunctionName::IsNotBefore => "is_not_before"@,
        FunctionName::IsNotAfter => "is_not_after"@,
    }
}

/// A charset: its elements in brackets, `!` before a negative one.
pub open spec fn charset_text(charset: CharSetView) -> Seq<char>
    decreases charset, 0nat,
{
    (if charset.negative {
        "!"@
    } else {
        seq![]
    }) + "["@ + elements_text(charset.elements, charset.elements.len() as int) + "]"@
}

/// The first `n` elements of a charset, separated by commas.
pub open spec fn elements_text(elements: Seq<CharSetElementView>, n: int) -> Seq<char>
    decreases elements, n,
{
    if n <= 0 || n > elements.len() {
        seq![]
    } else {
        let item = match elements[n - 1] {
            CharSetElementView::Char(c) => char_text(c),
            CharSetElementView::CharRange(start, end) => char_text(start) + ".."@ + char_text(end),
            CharSetElementView::PresetCharSet(name) => preset_text(name),
            CharSetElementView::CharSet(inner) => charset_text(*inner),
        };
        if n == 1 {
            item
        } else {
            elements_text(elements, n - 1) + ", "@ + item
        }
    }
}

/// A literal.
pub open spec fn literal_text(literal: LiteralView) -> Seq<char> {
    match literal {
        LiteralView::AnyChar => "char_any"@,
        LiteralView::Char(c) => char_text(c),
        LiteralView::String(s) => string_text(s),
        LiteralView::PresetCharSet(name) => preset_text(name),
        LiteralView::CharSet(charset) => charset_text(charset),
    }
}

/// An expression as ANRE text. An alternation that is an operand of another
/// alternation or of a capture is put in parentheses.
pub open spec fn expression_text(exp: ExpressionView) -> Seq<char>
    decreases exp, 1nat,
{
    match exp {
        ExpressionView::Literal(literal) => literal_text(literal),
        ExpressionView::BackReference(back_reference) => match back_reference {
            crate::ast::BackReferenceView::Index(i) => "^"@ + decimal(i as nat),
            crate::ast::BackReferenceView::Name(name) => name,
        },
        ExpressionView::Group(exps) => "("@ + expressions_text(exps, exps.len() as int) + ")"@,
        ExpressionView::FunctionCall(name, args) => function_text(name) + "("@ + arguments_text(
            args,
            args.len() as int,
        ) + ")"@,
        ExpressionView::Or(left, right) => operand_text(*left) + " || "@ + operand_text(*right),
        ExpressionView::IndexCapture(inner) => "#"@ + operand_text(*inner),
        ExpressionView::NameCapture(name, inner) => operand_text(*inner) + " as "@ + name,
    }
}

/// An operand: an alternation in parentheses, anything else as it is.
pub open spec fn operand_text(exp: ExpressionView) -> Seq<char>
    decreases exp, 2nat,
{
    if exp is Or {
        "("@ + expression_text(exp) + ")"@
    } else {
        expression_text(exp)
    }
}

/// The first `n` expressions, separated by commas.
pub open spec fn expressions_text(exps: Seq<ExpressionView>, n: int) -> Seq<char>
    decreases exps, n,
{
    if n <= 0 || n > exps.len() {
        seq![]
    } else if n == 1 {
        expression_text(exps[0])
    } else {
        expressions_text(exps, n - 1) + ", "@ + expression_text(exps[n - 1])
    }
}

/// The first `n` arguments, separated by commas.
pub open spec fn arguments_text(args: Seq<ArgumentView>, n: int) -> Seq<char>
    decreases args, n,
{
    if n <= 0 || n > args.len() {
        seq![]
    } else {
        let item = match args[n - 1] {
            ArgumentView::Expression(e) => expression_text(e),
            ArgumentView::Number(k) => decimal(k as nat),
        };
        if n == 1 {
            item
        } else {
            arguments_text(args, n - 1) + ", "@ + item
        }
    }
}

fn write_escaped_char(out: &mut String, c: char)
    ensures
        final(out)@ == old(out)@ + escaped_char(c),
{
    if c == '\\' {
        push_str(out, "\\\\");
    } else if c == '\'' {
        push_str(out, "\\'");
    } else if c == '"' {
        push_str(out, "\\\"");
    } else if c == '\n' {
        push_str(out, "\\n");
    } else if c == '\r' {
        push_str(out, "\\r");
    } else if c == '\t' {
        push_str(out, "\\t");
    } else if c == '\0' {
        push_str(out, "\\0");
    } else {
        push_char(out, c);
    }
}

pub(crate) fn write_char(out: &mut String, c: char)
    ensures
        final(out)@ == old(out)@ + char_text(c),
{
    push_str(out, "'");
    write_escaped_char(out, c);
    push_str(out, "'");
    assert(out@ =~= old(out)@ + char_text(c));
}

pub(crate) fn write_string(out: &mut String, s: &String)
    ensures
        final(out)@ == old(out)@ + string_text(s@),
{
    broadcast use vstd::string::group_string_axioms;

    let ghost start = out@;
    push_str(out, "\"");
    let ghost opened = out@;
    for c in it: s.as_str().chars()
        invariant
            it.seq() == s@,
            out@ == opened + escaped_text(s@, it.index() as int),
    {
        let ghost before = out@;
        write_escaped_char(out, c);
        proof {
            assert(out@ =~= opened + escaped_text(s@, it.index() + 1));
        }
    }
    push_str(out, "\"");
    assert(out@ =~= start + string_text(s@));
}

fn write_preset(out: &mut String, name: &PresetCharSetName)
    ensures
        final(out)@ == old(out)@ + preset_text(*name),
{
    let text = match name {
        PresetCharSetName::CharWord => "char_word",
        PresetCharSetName::CharNotWord => "char_not_word",
        PresetCharSetName::CharDigit => "char_digit",
        PresetCharSetName::CharNotDigit => "char_not_digit",
        PresetCharSetName::CharSpace => "char_space",
        PresetCharSetName::CharNotSpace => "char_not_space",
    };
    push_str(out, text);
}

fn write_function_name(out: &mut String, name: FunctionName)
    ensures
        final(out)@ == old(out)@ + function_text(name),
{
    let text = match name {
        FunctionName::Optional => "optional",
        FunctionName::OneOrMore => "one_or_more",
        FunctionName::ZeroOrMore => "zero_or_more",
        FunctionName::Repeat => "repeat",
        FunctionName::RepeatRange => "repeat_range",
        FunctionName::RepeatFrom => "repeat_from",
        FunctionName::OptionalLazy => "optional_lazy",
        FunctionName::OneOrMoreLazy => "one_or_more_lazy",
        FunctionName::ZeroOrMoreLazy => "zero_or_more_lazy",
        FunctionName::RepeatRangeLazy => "repeat_range_lazy",
        FunctionName::RepeatFromLazy => "repeat_from_lazy",
        FunctionName::IsStart => "is_start",
        FunctionName::IsEnd => "is_end",
        FunctionName::IsBound => "is_bound",
        FunctionName::IsNotBound => "is_not_bound",
        FunctionName::IsBefore => "is_before",
        FunctionName::IsAfter => "is_after",
        FunctionName::IsNotBefore => "is_not_before",
        FunctionName::IsNotAfter => "is_not_after",
    };
    push_str(out, text);
}

fn write_charset(out: &mut String, charset: &CharSet)
    ensures
        final(out)@ == old(out)@ + charset_text(charset@),
    decreases charset,
{
    let ghost start = out@;
    let ghost elements = seq_elements_view(charset.elements@);
    proof {
        lemma_elements_view_index(charset.elements@, charset.elements@.len() as int);
    }
    if charset.negative {
        push_str(out, "!");
    }
    push_str(out, "[");
    let ghost opened = out@;
    let mut i: usize = 0;
    while i < charset.elements.len()
        invariant
            i <= charset.elements@.len(),
            elements == seq_elements_view(charset.elements@),
            elements.len() == charset.elements@.len(),
            forall|k: int|
                0 <= k < elements.len() ==> elements[k] == crate::ast::charset_element_view(
                    #[trigger] charset.elements@[k],
                ),
            out@ == opened + elements_text(elements, i as int),
        decreases charset.elements@.len() - i,
    {
        let ghost before = out@;
        if i > 0 {
            push_str(out, ", ");
        }
        match &charset.elements[i] {
            CharSetElement::Char(c) => write_char(out, *c),
            CharSetElement::CharRange(range) => {
                write_char(out, range.start);
                push_str(out, "..");
                write_char(out, range.end_inclusive);
            },
            CharSetElement::PresetCharSet(name) => write_preset(out, name),
            CharSetElement::CharSet(inner) => write_charset(out, inner),
        }
        proof {
            assert(out@ =~= opened + elements_text(elements, i + 1));
        }
        i = i + 1;
    }
    push_str(out, "]");
    assert(out@ =~= start + charset_text(charset@));
}

fn write_literal(out: &mut String, literal: &Literal)
    ensures
        final(out)@ == old(out)@ + literal_text(literal@),
{
    match literal {
        Literal::AnyChar => push_str(out, "char_any"),
        Literal::Char(c) => write_char(out, *c),
        Literal::String(s) => write_string(out, s),
        Literal::PresetCharSet(name) => write_preset(out, name),
        Literal::CharSet(charset) => write_charset(out, charset),
    }
}

fn write_operand(out: &mut String, exp: &Expression)
    ensures
        final(out)@ == old(out)@ + operand_text(exp@),
    decreases exp, 2nat,
{
    match exp {
        Expression::Or(_, _) => {
            let ghost start = out@;
            push_str(out, "(");
            write_expression(out, exp);
            push_str(out, ")");
            assert(out@ =~= start + operand_text(exp@));
        },
        _ => write_expression(out, exp),
    }
}

#[verifier::loop_isolation(false)]
fn write_expression(out: &mut String, exp: &Expression)
    ensures
        final(out)@ == old(out)@ + expression_text(exp@),
    decreases exp, 1nat,
{
    let ghost start = out@;
    match exp {
        Expression::Literal(literal) => write_literal(out, literal),
        Expression::BackReference(back_reference) => match back_reference {
            BackReference::Index(i) => {
                push_str(out, "^");
                push_decimal(out, *i);
                assert(out@ =~= start + expression_text(exp@));
            },
            BackReference::Name(name) => push_str(out, name.as_str()),
        },
        Expression::Group(exps) => {
            let ghost views = seq_expressions_view(exps@);
            proof {
                lemma_expressions_view_index(exps@, exps@.len() as int);
            }
            push_str(out, "(");
            let ghost opened = out@;
            let mut i: usize = 0;
            while i < exps.len()
                invariant
                    i <= exps@.len(),
                    views == seq_expressions_view(exps@),
                    views.len() == exps@.len(),
                    forall|k: int|
                        0 <= k < views.len() ==> views[k] == crate::ast::expression_view(
                            #[trigger] exps@[k],
                        ),
                    out@ == opened + expressions_text(views, i as int),
                decreases exps@.len() - i,
            {
                if i > 0 {
                    push_str(out, ", ");
                }
                write_expression(out, &exps[i]);
                proof {
                    assert(out@ =~= opened + expressions_text(views, i + 1));
                }
                i = i + 1;
            }
            push_str(out, ")");
            assert(out@ =~= start + expression_text(exp@));
        },
        Expression::FunctionCall(function_call) => {
            let args = &function_call.args;
            let ghost views = seq_arguments_view(args@);
            proof {
                lemma_arguments_view_index(args@, args@.len() as int);
            }
            write_function_name(out, function_call.name);
            push_str(out, "(");
            let ghost opened = out@;
            let mut i: usize = 0;
            while i < args.len()
                invariant
                    i <= args@.len(),
                    views == seq_arguments_view(args@),
                    views.len() == args@.len(),
                    forall|k: int|
                        0 <= k < views.len() ==> views[k] == crate::ast::argument_view(
                            #[trigger] args@[k],
                        ),
                    out@ == opened + arguments_text(views, i as int),
                decreases args@.len() - i,
            {
                if i > 0 {
                    push_str(out, ", ");
                }
                match &args[i] {
                    FunctionArgument::Expression(e) => write_expression(out, e),
                    FunctionArgument::Number(n) => push_decimal(out, *n),
                }
                proof {
                    assert(out@ =~= opened + arguments_text(views, i + 1));
                }
                i = i + 1;
            }
            push_str(out, ")");
            assert(out@ =~= start + expression_text(exp@));
        },
        Expression::Or(left, right) => {
            write_operand(out, left);
            push_str(out, " || ");
            write_operand(out, right);
            assert(out@ =~= start + expression_text(exp@));
        },
        Expression::IndexCapture(inner) => {
            push_str(out, "#");
            write_operand(out, inner);
            assert(out@ =~= start + expression_text(exp@));
        },
        Expression::NameCapture(name, inner) => {
            write_operand(out, inner);
            push_str(out, " as ");
            push_str(out, name.as_str());
            assert(out@ =~= start + expression_text(exp@));
        },
    }
}

impl Program {
    /// The program as ANRE text.
    pub fn to_string(&self) -> (text: String)
        ensures
            text@ == expression_text(self@),
    {
        let mut out = String::new();
        write_expression(&mut out, &self.expression);
        assert(out@ =~= expression_text(self@));
        out
    }
}


/// A character literal as it is written reads back as that character.
pub proof fn law_char_literal_reads_back(c: char)
    ensures
        spec_lex(char_text(c)) == Ok::<_, crate::error::ErrorView>(
            seq![(TokenView::Char(c), range_between(char_text(c), 0, char_text(c).len() as int))],
        ),
{
    reveal_strlit("'");
    reveal_strlit("\\\\");
    reveal_strlit("\\'");
    reveal_strlit("\\\"");
    reveal_strlit("\\n");
    reveal_strlit("\\r");
    reveal_strlit("\\t");
    reveal_strlit("\\0");
    let text = char_text(c);
    let end = text.len() as int;
    assert(text[0] == '\'');
    assert(text[end - 1] == '\'');
    assert(spec_char_body(text, 1) == Ok::<_, crate::error::ErrorView>((c, end)));
    assert(lex_step(text, 0) == LexStep::Emit(TokenView::Char(c), end));
    assert(spec_lex_from(text, end) == Ok::<Seq<(TokenView, crate::range::Range)>, crate::error::ErrorView>(seq![]));
    assert(seq![(TokenView::Char(c), range_between(text, 0, end))] + seq![] =~= seq![(TokenView::Char(c), range_between(text, 0, end))]);
}


proof fn lemma_escaped_text_front(s: Seq<char>, n: int)
    requires
        1 <= n <= s.len(),
    ensures
        escaped_text(s, n) == escaped_char(s[0]) + escaped_text(s.drop_first(), n - 1),
    decreases n,
{
    if n > 1 {
        lemma_escaped_text_front(s, n - 1);
        assert(s.drop_first()[n - 2] == s[n - 1]);
        assert(escaped_text(s, n) =~= escaped_char(s[0]) + escaped_text(s.drop_first(), n - 1));
    } else {
        assert(escaped_text(s.drop_first(), 0) =~= seq![]);
        assert(escaped_text(s, 0) =~= seq![]);
        assert(escaped_text(s, 1) =~= escaped_char(s[0]));
    }
}

/// The escaped characters of `s` from index `k` of `text`, followed by a
/// double quote, read back as `s`.
proof fn lemma_string_body_reads_back(text: Seq<char>, k: int, s: Seq<char>)
    requires
        0 <= k,
        k + escaped_text(s, s.len() as int).len() < text.len(),
        text.subrange(k, k + escaped_text(s, s.len() as int).len()) == escaped_text(
            s,
            s.len() as int,
        ),
        text[k + escaped_text(s, s.len() as int).len()] == '"',
    ensures
        spec_string_body(text, k) == Ok::<_, crate::error::ErrorView>(
            (s, k + escaped_text(s, s.len() as int).len() + 1),
        ),
    decreases s.len(),
{
    reveal_strlit("\\\\");
    reveal_strlit("\\'");
    reveal_strlit("\\\"");
    reveal_strlit("\\n");
    reveal_strlit("\\r");
    reveal_strlit("\\t");
    reveal_strlit("\\0");
    let e = escaped_text(s, s.len() as int);
    if s.len() == 0 {
        assert(e.len() == 0);
        assert(s =~= seq![]);
    } else {
        lemma_escaped_text_front(s, s.len() as int);
        let head = escaped_char(s[0]);
        let rest = s.drop_first();
        let e2 = escaped_text(rest, rest.len() as int);
        assert(e == head + e2);
        let k2 = k + head.len();
        assert(text.subrange(k2, k2 + e2.len()) =~= e2) by {
            assert forall|j: int| 0 <= j < e2.len() implies text.subrange(k2, k2 + e2.len())[j]
                == e2[j] by {
                assert(text.subrange(k, k + e.len())[head.len() + j] == e[head.len() + j]);
            }
        }
        assert(text[k] == e[0]) by {
            assert(text.subrange(k, k + e.len())[0] == e[0]);
        }
        if head.len() == 2 {
            assert(text[k + 1] == e[1]) by {
                assert(text.subrange(k, k + e.len())[1] == e[1]);
            }
        }
        lemma_string_body_reads_back(text, k2, rest);
        assert(seq![s[0]] + rest =~= s);
        if head.len() == 2 {
            assert(text[k] == '\\');
            assert(spec_escape(text, k + 1) == Ok::<_, crate::error::ErrorView>((s[0], k + 2)));
        } else {
            assert(text[k] == s[0]);
            assert(s[0] != '"' && s[0] != '\\');
        }
    }
}

/// A string literal as it is written reads back as that string.
pub proof fn law_string_literal_reads_back(s: Seq<char>)
    ensures
        spec_lex(string_text(s)) == Ok::<_, crate::error::ErrorView>(
            seq![
                (
                    TokenView::String(s),
                    range_between(string_text(s), 0, string_text(s).len() as int),
                ),
            ],
        ),
{
    reveal_strlit("\"");
    let text = string_text(s);
    let e = escaped_text(s, s.len() as int);
    let end = text.len() as int;
    assert(text =~= seq!['"'] + e + seq!['"']);
    assert(text.subrange(1, 1 + e.len() as int) =~= e);
    lemma_string_body_reads_back(text, 1, s);
    assert(lex_step(text, 0) == LexStep::Emit(TokenView::String(s), end));
    assert(spec_lex_from(text, end) == Ok::<Seq<(TokenView, crate::range::Range)>, crate::error::ErrorView>(seq![]));
    assert(seq![(TokenView::String(s), range_between(text, 0, end))] + seq![] =~= seq![(TokenView::String(s), range_between(text, 0, end))]);
}


/// Tokens of one literal token parse, after macro expansion, to that literal.
proof fn lemma_single_literal_parses(tokens: Seq<TokenWithRange>, literal: LiteralView)
    requires
        tokens.len() == 1,
        tokens[0].token is Char || tokens[0].token is String,
        tokens[0].token is Char ==> literal == LiteralView::Char(tokens[0].token->Char_0),
        tokens[0].token is String ==> literal == LiteralView::String(
            tokens[0].token->String_0@,
        ),
    ensures
        spec_parse_tokens(tokens) == Ok::<ExpressionView, ErrorView>(
            ExpressionView::Literal(literal),
        ),
{
    assert(!is_define_keyword(tokens[0].token));
    law_expand_without_definitions_is_identity(tokens);
    let st = ParseState { tokens, last_range: spec_default_range() };
    let after = advance(st);
    assert(after.tokens.len() == 0);
    let exp = ExpressionView::Literal(literal);
    assert(spec_parse_literal(st) == Ok::<(LiteralView, ParseState), ErrorView>((literal, after)));
    assert(spec_parse_primary_expression(st) == Ok::<(ExpressionView, ParseState), ErrorView>(
        (exp, after),
    ));
    assert(spec_parse_quantifier(st) == Ok::<(ExpressionView, ParseState), ErrorView>(
        (exp, after),
    ));
    assert(spec_method_call_rest(exp, after) == Ok::<(ExpressionView, ParseState), ErrorView>(
        (exp, after),
    ));
    assert(spec_parse_method_call(st) == Ok::<(ExpressionView, ParseState), ErrorView>(
        (exp, after),
    ));
    assert(spec_parse_index_capture(st) == Ok::<(ExpressionView, ParseState), ErrorView>(
        (exp, after),
    ));
    assert(spec_parse_named_capture(st) == Ok::<(ExpressionView, ParseState), ErrorView>(
        (exp, after),
    ));
    assert(spec_logic_or_rest(exp, after) == Ok::<(ExpressionView, ParseState), ErrorView>(
        (exp, after),
    ));
    assert(spec_parse_expression(st) == Ok::<(ExpressionView, ParseState), ErrorView>(
        (exp, after),
    ));
    assert(spec_parse_program(st) == Ok::<(ExpressionView, ParseState), ErrorView>(
        (exp, after),
    ));
}

/// A program of one character literal, printed, parses back to itself.
pub proof fn law_char_program_reads_back(c: char)
    ensures
        spec_parse_text(expression_text(ExpressionView::Literal(LiteralView::Char(c))))
            == Ok::<ExpressionView, ErrorView>(ExpressionView::Literal(LiteralView::Char(c))),
{
    let text = expression_text(ExpressionView::Literal(LiteralView::Char(c)));
    assert(text == char_text(c));
    law_char_literal_reads_back(c);
    let lexed = seq![(TokenView::Char(c), range_between(text, 0, text.len() as int))];
    let witness = seq![
        TokenWithRange { token: Token::Char(c), range: range_between(text, 0, text.len() as int) },
    ];
    assert(tokens_view(witness) =~= lexed);
    let chosen = choose|t: Seq<TokenWithRange>| tokens_view(t) == lexed;
    assert(tokens_view(chosen) == lexed);
    law_parse_depends_on_token_views(witness, chosen);
    lemma_single_literal_parses(witness, LiteralView::Char(c));
}

/// A program of one string literal, printed and lexed, parses back to
/// itself: any tokens of the lexed views give that string.
pub proof fn law_string_program_reads_back(s: Seq<char>, tokens: Seq<TokenWithRange>)
    requires
        spec_lex(expression_text(ExpressionView::Literal(LiteralView::String(s))))
            == Ok::<Seq<(TokenView, Range)>, ErrorView>(tokens_view(tokens)),
    ensures
        spec_parse_tokens(tokens) == Ok::<ExpressionView, ErrorView>(
            ExpressionView::Literal(LiteralView::String(s)),
        ),
        spec_parse_text(expression_text(ExpressionView::Literal(LiteralView::String(s))))
            == Ok::<ExpressionView, ErrorView>(ExpressionView::Literal(LiteralView::String(s))),
{
    let text = expression_text(ExpressionView::Literal(LiteralView::String(s)));
    assert(text == string_text(s));
    law_string_literal_reads_back(s);
    let lexed = tokens_view(tokens);
    assert(lexed.len() == 1 && lexed[0] == tokens[0]@);
    lemma_single_literal_parses(tokens, LiteralView::String(s));
    let chosen = choose|t: Seq<TokenWithRange>| tokens_view(t) == lexed;
    assert(tokens_view(chosen) == lexed);
    law_parse_depends_on_token_views(tokens, chosen);
}
} // verus!
