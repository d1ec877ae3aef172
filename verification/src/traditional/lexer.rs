use vstd::prelude::*;

use crate::anre::lexer::{
    collect_chars, compute_positions, decimal_number, decimal_value, digits_end,
    lex_unicode_escape, position_at, positions_of, range_between, scan_digits_end,
    spans_in_order, spec_unicode_escape, substring,
};
use crate::error::{AnreError, ErrorView};
use crate::range::{Position, Range};
use crate::text::string_of;
use crate::traditional::token::{Repetition, Token, TokenView, TokenWithRange};

verus! {

/// `(`
pub const PAREN_OPEN: char = '\u{28}';

/// `)`
pub const PAREN_CLOSE: char = '\u{29}';

/// `[`
pub const BRACKET_OPEN: char = '\u{5b}';

/// `]`
pub const BRACKET_CLOSE: char = '\u{5d}';

/// The opening brace.
pub const BRACE_OPEN: char = '\u{7b}';

/// The closing brace.
pub const BRACE_CLOSE: char = '\u{7d}';

/// The index of the first `>` from `k` on, or the length.
pub open spec fn name_end(chars: Seq<char>, k: int) -> int
    decreases chars.len() - k,
{
    if k < 0 || k >= chars.len() || chars[k] == '>' {
        k
    } else {
        name_end(chars, k + 1)
    }
}

/// The letter of a preset class: `d`, `w`, `s` and their capitals.
pub open spec fn is_preset_letter(c: char) -> bool {
    c == 'd' || c == 'D' || c == 'w' || c == 'W' || c == 's' || c == 'S'
}

/// A decimal number from `k` that must be there: its value and the index
/// after it.
pub open spec fn spec_number(chars: Seq<char>, k: int) -> Result<(usize, int), ErrorView> {
    let end = digits_end(chars, k);
    if k >= chars.len() {
        Err(ErrorView::UnexpectedEndOfDocument("Incomplete repetition."@))
    } else if end == k {
        Err(ErrorView::MessageWithPosition("Expect a number."@, position_at(chars, k)))
    } else if decimal_value(chars, k, end) > usize::MAX {
        Err(ErrorView::MessageWithRange("Number is too large."@, range_between(chars, k, end)))
    } else {
        Ok((decimal_value(chars, k, end) as usize, end))
    }
}

/// The bounds of a repetition whose opening brace is just before `k`, and
/// the index after its closing brace.
pub open spec fn spec_repetition(chars: Seq<char>, k: int) -> Result<(Repetition, int), ErrorView> {
    match spec_number(chars, k) {
        Ok((from, e1)) => if e1 >= chars.len() {
            Err(ErrorView::UnexpectedEndOfDocument("Incomplete repetition."@))
        } else if chars[e1] == BRACE_CLOSE {
            Ok((Repetition::Repeat(from), e1 + 1))
        } else if chars[e1] != ',' {
            Err(
                ErrorView::MessageWithPosition(
                    "Expect a comma or a closing brace in repetition."@,
                    position_at(chars, e1),
                ),
            )
        } else if e1 + 1 >= chars.len() {
            Err(ErrorView::UnexpectedEndOfDocument("Incomplete repetition."@))
        } else if chars[e1 + 1] == BRACE_CLOSE {
            Ok((Repetition::RepeatFrom(from), e1 + 2))
        } else {
            match spec_number(chars, e1 + 1) {
                Ok((to, e2)) => if e2 >= chars.len() {
                    Err(ErrorView::UnexpectedEndOfDocument("Incomplete repetition."@))
                } else if chars[e2] != BRACE_CLOSE {
                    Err(
                        ErrorView::MessageWithPosition(
                            "Expect a closing brace in repetition."@,
                            position_at(chars, e2),
                        ),
                    )
                } else {
                    Ok((Repetition::RepeatRange(from, to), e2 + 1))
                },
                Err(e) => Err(e),
            }
        },
        Err(e) => Err(e),
    }
}

/// A name from `k` up to a `>`, and the index after the `>`.
pub open spec fn spec_name(chars: Seq<char>, k: int) -> Result<(Seq<char>, int), ErrorView> {
    let end = name_end(chars, k);
    if end >= chars.len() {
        Err(ErrorView::UnexpectedEndOfDocument("Incomplete name."@))
    } else if end == k {
        Err(ErrorView::MessageWithPosition("Empty name."@, position_at(chars, k)))
    } else {
        Ok((chars.subrange(k, end), end + 1))
    }
}

/// A character given by an escape sequence: `\t`, `\n`, `\r`, `\0`,
/// `\u{X}`, or any other character standing for itself.
pub open spec fn spec_char_escape(chars: Seq<char>, k: int) -> Result<(char, int), ErrorView> {
    let c = chars[k];
    if c == 't' {
        Ok(('\t', k + 1))
    } else if c == 'n' {
        Ok(('\n', k + 1))
    } else if c == 'r' {
        Ok(('\r', k + 1))
    } else if c == '0' {
        Ok(('\0', k + 1))
    } else if c == 'u' {
        spec_unicode_escape(chars, k + 1)
    } else {
        Ok((c, k + 1))
    }
}

/// A group opening at index `i`: an opening round bracket and what may
/// follow it.
pub open spec fn spec_group_start(chars: Seq<char>, i: int) -> Result<(TokenView, int), ErrorView> {
    if i + 1 < chars.len() && chars[i + 1] == '?' {
        if i + 2 >= chars.len() {
            Err(ErrorView::UnexpectedEndOfDocument("Incomplete group."@))
        } else if chars[i + 2] == ':' {
            Ok((TokenView::NonCaptureGroupStart, i + 3))
        } else if chars[i + 2] == '=' {
            Ok((TokenView::LookAheadGroupStart, i + 3))
        } else if chars[i + 2] == '!' {
            Ok((TokenView::LookAheadNegativeGroupStart, i + 3))
        } else if chars[i + 2] == '<' {
            if i + 3 >= chars.len() {
                Err(ErrorView::UnexpectedEndOfDocument("Incomplete group."@))
            } else if chars[i + 3] == '=' {
                Ok((TokenView::LookBehindGroupStart, i + 4))
            } else if chars[i + 3] == '!' {
                Ok((TokenView::LookBehindNegativeGroupStart, i + 4))
            } else {
                match spec_name(chars, i + 3) {
                    Ok((name, next)) => Ok((TokenView::NamedCaptureGroupStart(name), next)),
                    Err(e) => Err(e),
                }
            }
        } else {
            Err(
                ErrorView::MessageWithPosition("Unsupported group."@, position_at(chars, i + 2)),
            )
        }
    } else {
        Ok((TokenView::GroupStart, i + 1))
    }
}

/// An escape sequence outside a charset whose `\` is just before `k`.
pub open spec fn spec_escape_token(chars: Seq<char>, k: int) -> Result<(TokenView, int), ErrorView> {
    if k >= chars.len() {
        Err(ErrorView::UnexpectedEndOfDocument("Incomplete escape sequence."@))
    } else {
        let c = chars[k];
        if is_preset_letter(c) {
            Ok((TokenView::PresetCharSet(c), k + 1))
        } else if c == 'b' {
            Ok((TokenView::BoundaryAssertion(false), k + 1))
        } else if c == 'B' {
            Ok((TokenView::BoundaryAssertion(true), k + 1))
        } else if '1' <= c <= '9' {
            match spec_number(chars, k) {
                Ok((n, end)) => Ok((TokenView::BackReferenceNumber(n), end)),
                Err(e) => Err(e),
            }
        } else if c == 'k' {
            if k + 1 >= chars.len() {
                Err(ErrorView::UnexpectedEndOfDocument("Incomplete back-reference."@))
            } else if chars[k + 1] != '<' {
                Err(
                    ErrorView::MessageWithPosition(
                        "Expect '<' for a named back-reference."@,
                        position_at(chars, k + 1),
                    ),
                )
            } else {
                match spec_name(chars, k + 2) {
                    Ok((name, next)) => Ok((TokenView::BackReferenceName(name), next)),
                    Err(e) => Err(e),
                }
            }
        } else {
            match spec_char_escape(chars, k) {
                Ok((ch, next)) => Ok((TokenView::Char(ch), next)),
                Err(e) => Err(e),
            }
        }
    }
}

/// A character of a charset from `k` and the index after it, with whether
/// it is the letter of a preset class.
pub open spec fn spec_set_char(chars: Seq<char>, k: int) -> Result<(char, int, bool), ErrorView> {
    if k >= chars.len() {
        Err(ErrorView::UnexpectedEndOfDocument("Incomplete character set."@))
    } else if chars[k] == '\\' {
        if k + 1 >= chars.len() {
            Err(ErrorView::UnexpectedEndOfDocument("Incomplete escape sequence."@))
        } else if is_preset_letter(chars[k + 1]) {
            Ok((chars[k + 1], k + 2, true))
        } else {
            match spec_char_escape(chars, k + 1) {
                Ok((c, next)) => Ok((c, next, false)),
                Err(e) => Err(e),
            }
        }
    } else {
        Ok((chars[k], k + 1, false))
    }
}

/// What the lexer does at one index: reads a token that ends just before
/// another index, after which it is inside a charset or not, or fails.
pub enum RegexStep {
    Emit(TokenView, int, bool),
    Fail(ErrorView),
}

/// A quantifier sign, lazy when `?` follows.
pub open spec fn quantifier_step(chars: Seq<char>, i: int, greedy: TokenView, lazy: TokenView) -> RegexStep {
    if i + 1 < chars.len() && chars[i + 1] == '?' {
        RegexStep::Emit(lazy, i + 2, false)
    } else {
        RegexStep::Emit(greedy, i + 1, false)
    }
}

/// The step of the lexer at index `i`, inside a charset or not.
pub open spec fn regex_step(chars: Seq<char>, i: int, in_set: bool) -> RegexStep {
    let c = chars[i];
    if in_set {
        if c == BRACKET_CLOSE {
            RegexStep::Emit(TokenView::CharSetEnd, i + 1, false)
        } else {
            match spec_set_char(chars, i) {
                Ok((a, next, true)) => RegexStep::Emit(TokenView::PresetCharSet(a), next, true),
                Ok((a, next, false)) => if next + 1 < chars.len() && chars[next] == '-' && chars[next
                    + 1] != BRACKET_CLOSE {
                    match spec_set_char(chars, next + 1) {
                        Ok((b, end, false)) => RegexStep::Emit(TokenView::CharRange(a, b), end, true),
                        Ok((_, _, true)) => RegexStep::Fail(
                            ErrorView::MessageWithPosition(
                                "A range cannot end with a character class."@,
                                position_at(chars, next + 1),
                            ),
                        ),
                        Err(e) => RegexStep::Fail(e),
                    }
                } else {
                    RegexStep::Emit(TokenView::Char(a), next, true)
                },
                Err(e) => RegexStep::Fail(e),
            }
        }
    } else if c == BRACKET_OPEN {
        if i + 1 < chars.len() && chars[i + 1] == '^' {
            RegexStep::Emit(TokenView::CharSetStartNegative, i + 2, true)
        } else {
            RegexStep::Emit(TokenView::CharSetStart, i + 1, true)
        }
    } else if c == '*' {
        quantifier_step(chars, i, TokenView::ZeroOrMore, TokenView::ZeroOrMoreLazy)
    } else if c == '+' {
        quantifier_step(chars, i, TokenView::OneOrMore, TokenView::OneOrMoreLazy)
    } else if c == '?' {
        quantifier_step(chars, i, TokenView::Optional, TokenView::OptionalLazy)
    } else if c == BRACE_OPEN {
        match spec_repetition(chars, i + 1) {
            Ok((repetition, end)) => if end < chars.len() && chars[end] == '?' {
                RegexStep::Emit(TokenView::Repetition(repetition, true), end + 1, false)
            } else {
                RegexStep::Emit(TokenView::Repetition(repetition, false), end, false)
            },
            Err(e) => RegexStep::Fail(e),
        }
    } else if c == '|' {
        RegexStep::Emit(TokenView::LogicOr, i + 1, false)
    } else if c == '^' {
        RegexStep::Emit(TokenView::LineAssertionStart, i + 1, false)
    } else if c == '$' {
        RegexStep::Emit(TokenView::LineAssertionEnd, i + 1, false)
    } else if c == '.' {
        RegexStep::Emit(TokenView::Dot, i + 1, false)
    } else if c == PAREN_OPEN {
        match spec_group_start(chars, i) {
            Ok((token, next)) => RegexStep::Emit(token, next, false),
            Err(e) => RegexStep::Fail(e),
        }
    } else if c == PAREN_CLOSE {
        RegexStep::Emit(TokenView::GroupEnd, i + 1, false)
    } else if c == '\\' {
        match spec_escape_token(chars, i + 1) {
            Ok((token, next)) => RegexStep::Emit(token, next, false),
            Err(e) => RegexStep::Fail(e),
        }
    } else {
        RegexStep::Emit(TokenView::Char(c), i + 1, false)
    }
}

/// The tokens of the text from index `i` on, inside a charset or not.
pub open spec fn spec_regex_lex_from(chars: Seq<char>, i: int, in_set: bool) -> Result<
    Seq<(TokenView, Range)>,
    ErrorView,
>
    decreases chars.len() - i,
{
    if i < 0 || i >= chars.len() {
        if in_set {
            Err(ErrorView::UnexpectedEndOfDocument("Incomplete character set."@))
        } else {
            Ok(seq![])
        }
    } else {
        match regex_step(chars, i, in_set) {
            RegexStep::Emit(token, next, now_in_set) => if next <= i || next > chars.len() {
                Err(ErrorView::Message(seq![]))
            } else {
                match spec_regex_lex_from(chars, next, now_in_set) {
                    Ok(rest) => Ok(seq![(token, range_between(chars, i, next))] + rest),
                    Err(e) => Err(e),
                }
            },
            RegexStep::Fail(e) => Err(e),
        }
    }
}

/// The tokens of a traditional regular expression, each with its span.
pub open spec fn spec_regex_lex(text: Seq<char>) -> Result<Seq<(TokenView, Range)>, ErrorView> {
    spec_regex_lex_from(text, 0, false)
}

/// The views of a list of tokens.
pub open spec fn regex_tokens_view(tokens: Seq<TokenWithRange>) -> Seq<(TokenView, Range)> {
    tokens.map_values(|t: TokenWithRange| t@)
}


fn scan_name_end(chars: &Vec<char>, k: usize) -> (end: usize)
    requires
        k <= chars@.len(),
    ensures
        end == name_end(chars@, k as int),
        k <= end <= chars@.len(),
{
    let mut j = k;
    while j < chars.len() && chars[j] != '>'
        invariant
            k <= j <= chars@.len(),
            name_end(chars@, k as int) == name_end(chars@, j as int),
        decreases chars@.len() - j,
    {
        j = j + 1;
    }
    j
}

fn char_is_preset_letter(c: char) -> (b: bool)
    ensures
        b == is_preset_letter(c),
{
    c == 'd' || c == 'D' || c == 'w' || c == 'W' || c == 's' || c == 'S'
}

fn lex_number(chars: &Vec<char>, positions: &Vec<Position>, k: usize) -> (result: Result<
    (usize, usize),
    AnreError,
>)
    requires
        positions_of(positions@, chars@),
        k <= chars@.len(),
    ensures
        match spec_number(chars@, k as int) {
            Ok((n, next)) => result is Ok && result->Ok_0.0 == n && result->Ok_0.1 == next,
            Err(e) => result is Err && result->Err_0@ == e,
        },
        result is Ok ==> k < result->Ok_0.1 <= chars@.len(),
{
    if k >= chars.len() {
        return Err(AnreError::UnexpectedEndOfDocument(string_of("Incomplete repetition.")));
    }
    let end = scan_digits_end(chars, k);
    if end == k {
        return Err(AnreError::MessageWithPosition(string_of("Expect a number."), positions[k]));
    }
    match decimal_number(chars, k, end) {
        Some(n) => Ok((n, end)),
        None => Err(
            AnreError::MessageWithRange(
                string_of("Number is too large."),
                Range::new(positions[k], positions[end - 1]),
            ),
        ),
    }
}

fn lex_repetition(chars: &Vec<char>, positions: &Vec<Position>, k: usize) -> (result: Result<
    (Repetition, usize),
    AnreError,
>)
    requires
        positions_of(positions@, chars@),
        k <= chars@.len(),
    ensures
        match spec_repetition(chars@, k as int) {
            Ok((r, next)) => result is Ok && result->Ok_0.0 == r && result->Ok_0.1 == next,
            Err(e) => result is Err && result->Err_0@ == e,
        },
        result is Ok ==> k < result->Ok_0.1 <= chars@.len(),
{
    let (from, e1) = match lex_number(chars, positions, k) {
        Ok(read) => read,
        Err(e) => {
            return Err(e);
        },
    };
    if e1 >= chars.len() {
        return Err(AnreError::UnexpectedEndOfDocument(string_of("Incomplete repetition.")));
    }
    if chars[e1] == BRACE_CLOSE {
        return Ok((Repetition::Repeat(from), e1 + 1));
    }
    if chars[e1] != ',' {
        return Err(
            AnreError::MessageWithPosition(
                string_of("Expect a comma or a closing brace in repetition."),
                positions[e1],
            ),
        );
    }
    if e1 + 1 >= chars.len() {
        return Err(AnreError::UnexpectedEndOfDocument(string_of("Incomplete repetition.")));
    }
    if chars[e1 + 1] == BRACE_CLOSE {
        return Ok((Repetition::RepeatFrom(from), e1 + 2));
    }
    let (to, e2) = match lex_number(chars, positions, e1 + 1) {
        Ok(read) => read,
        Err(e) => {
            return Err(e);
        },
    };
    if e2 >= chars.len() {
        return Err(AnreError::UnexpectedEndOfDocument(string_of("Incomplete repetition.")));
    }
    if chars[e2] != BRACE_CLOSE {
        return Err(
            AnreError::MessageWithPosition(
                string_of("Expect a closing brace in repetition."),
                positions[e2],
            ),
        );
    }
    Ok((Repetition::RepeatRange(from, to), e2 + 1))
}

fn lex_name(chars: &Vec<char>, positions: &Vec<Position>, k: usize) -> (result: Result<
    (String, usize),
    AnreError,
>)
    requires
        positions_of(positions@, chars@),
        k <= chars@.len(),
    ensures
        match spec_name(chars@, k as int) {
            Ok((name, next)) => result is Ok && result->Ok_0.0@ == name && result->Ok_0.1 == next,
            Err(e) => result is Err && result->Err_0@ == e,
        },
        result is Ok ==> k < result->Ok_0.1 <= chars@.len(),
{
    let end = scan_name_end(chars, k);
    if end >= chars.len() {
        return Err(AnreError::UnexpectedEndOfDocument(string_of("Incomplete name.")));
    }
    if end == k {
        return Err(AnreError::MessageWithPosition(string_of("Empty name."), positions[k]));
    }
    Ok((substring(chars, k, end), end + 1))
}

fn lex_char_escape(chars: &Vec<char>, positions: &Vec<Position>, k: usize) -> (result: Result<
    (char, usize),
    AnreError,
>)
    requires
        positions_of(positions@, chars@),
        k < chars@.len() < usize::MAX,
    ensures
        match spec_char_escape(chars@, k as int) {
            Ok((c, next)) => result is Ok && result->Ok_0.0 == c && result->Ok_0.1 == next,
            Err(e) => result is Err && result->Err_0@ == e,
        },
        result is Ok ==> k < result->Ok_0.1 <= chars@.len(),
{
    let c = chars[k];
    if c == 't' {
        Ok(('\t', k + 1))
    } else if c == 'n' {
        Ok(('\n', k + 1))
    } else if c == 'r' {
        Ok(('\r', k + 1))
    } else if c == '0' {
        Ok(('\0', k + 1))
    } else if c == 'u' {
        lex_unicode_escape(chars, positions, k + 1)
    } else {
        Ok((c, k + 1))
    }
}

fn lex_group_start(chars: &Vec<char>, positions: &Vec<Position>, i: usize) -> (result: Result<
    (Token, usize),
    AnreError,
>)
    requires
        positions_of(positions@, chars@),
        i < chars@.len() < usize::MAX,
    ensures
        match spec_group_start(chars@, i as int) {
            Ok((t, next)) => result is Ok && result->Ok_0.0@ == t && result->Ok_0.1 == next,
            Err(e) => result is Err && result->Err_0@ == e,
        },
        result is Ok ==> i < result->Ok_0.1 <= chars@.len(),
{
    if i + 1 < chars.len() && chars[i + 1] == '?' {
        if i + 2 >= chars.len() {
            return Err(AnreError::UnexpectedEndOfDocument(string_of("Incomplete group.")));
        }
        let c = chars[i + 2];
        if c == ':' {
            Ok((Token::NonCaptureGroupStart, i + 3))
        } else if c == '=' {
            Ok((Token::LookAheadGroupStart, i + 3))
        } else if c == '!' {
            Ok((Token::LookAheadNegativeGroupStart, i + 3))
        } else if c == '<' {
            if i + 3 >= chars.len() {
                return Err(AnreError::UnexpectedEndOfDocument(string_of("Incomplete group.")));
            }
            if chars[i + 3] == '=' {
                Ok((Token::LookBehindGroupStart, i + 4))
            } else if chars[i + 3] == '!' {
                Ok((Token::LookBehindNegativeGroupStart, i + 4))
            } else {
                match lex_name(chars, positions, i + 3) {
                    Ok((name, next)) => Ok((Token::NamedCaptureGroupStart(name), next)),
                    Err(e) => Err(e),
                }
            }
        } else {
            Err(
                AnreError::MessageWithPosition(string_of("Unsupported group."), positions[i + 2]),
            )
        }
    } else {
        Ok((Token::GroupStart, i + 1))
    }
}

fn lex_escape_token(chars: &Vec<char>, positions: &Vec<Position>, k: usize) -> (result: Result<
    (Token, usize),
    AnreError,
>)
    requires
        positions_of(positions@, chars@),
        k <= chars@.len() < usize::MAX,
    ensures
        match spec_escape_token(chars@, k as int) {
            Ok((t, next)) => result is Ok && result->Ok_0.0@ == t && result->Ok_0.1 == next,
            Err(e) => result is Err && result->Err_0@ == e,
        },
        result is Ok ==> k < result->Ok_0.1 <= chars@.len(),
{
    if k >= chars.len() {
        return Err(AnreError::UnexpectedEndOfDocument(string_of("Incomplete escape sequence.")));
    }
    let c = chars[k];
    if char_is_preset_letter(c) {
        Ok((Token::PresetCharSet(c), k + 1))
    } else if c == 'b' {
        Ok((Token::BoundaryAssertion(false), k + 1))
    } else if c == 'B' {
        Ok((Token::BoundaryAssertion(true), k + 1))
    } else if '1' <= c && c <= '9' {
        match lex_number(chars, positions, k) {
            Ok((n, end)) => Ok((Token::BackReferenceNumber(n), end)),
            Err(e) => Err(e),
        }
    } else if c == 'k' {
        if k + 1 >= chars.len() {
            return Err(AnreError::UnexpectedEndOfDocument(string_of("Incomplete back-reference.")));
        }
        if chars[k + 1] != '<' {
            return Err(
                AnreError::MessageWithPosition(
                    string_of("Expect '<' for a named back-reference."),
                    positions[k + 1],
                ),
            );
        }
        match lex_name(chars, positions, k + 2) {
            Ok((name, next)) => Ok((Token::BackReferenceName(name), next)),
            Err(e) => Err(e),
        }
    } else {
        match lex_char_escape(chars, positions, k) {
            Ok((ch, next)) => Ok((Token::Char(ch), next)),
            Err(e) => Err(e),
        }
    }
}

fn lex_set_char(chars: &Vec<char>, positions: &Vec<Position>, k: usize) -> (result: Result<
    (char, usize, bool),
    AnreError,
>)
    requires
        positions_of(positions@, chars@),
        k <= chars@.len() < usize::MAX,
    ensures
        match spec_set_char(chars@, k as int) {
            Ok((c, next, preset)) => result is Ok && result->Ok_0.0 == c && result->Ok_0.1 == next
                && result->Ok_0.2 == preset,
            Err(e) => result is Err && result->Err_0@ == e,
        },
        result is Ok ==> k < result->Ok_0.1 <= chars@.len(),
{
    if k >= chars.len() {
        return Err(AnreError::UnexpectedEndOfDocument(string_of("Incomplete character set.")));
    }
    if chars[k] == '\\' {
        if k + 1 >= chars.len() {
            return Err(
                AnreError::UnexpectedEndOfDocument(string_of("Incomplete escape sequence.")),
            );
        }
        if char_is_preset_letter(chars[k + 1]) {
            Ok((chars[k + 1], k + 2, true))
        } else {
            match lex_char_escape(chars, positions, k + 1) {
                Ok((c, next)) => Ok((c, next, false)),
                Err(e) => Err(e),
            }
        }
    } else {
        Ok((chars[k], k + 1, false))
    }
}

/// What the lexer does at one index.
enum Stepped {
    Emit(Token, usize, bool),
    Fail(AnreError),
}

spec fn stepped_as(stepped: Stepped, step: RegexStep) -> bool {
    match (stepped, step) {
        (Stepped::Emit(t, n, s), RegexStep::Emit(v, m, w)) => t@ == v && n == m && s == w,
        (Stepped::Fail(e), RegexStep::Fail(v)) => e@ == v,
        _ => false,
    }
}

fn lex_quantifier(chars: &Vec<char>, i: usize, greedy: Token, lazy: Token) -> (stepped: Stepped)
    requires
        i < chars@.len() < usize::MAX,
    ensures
        stepped_as(stepped, quantifier_step(chars@, i as int, greedy@, lazy@)),
{
    if i + 1 < chars.len() && chars[i + 1] == '?' {
        Stepped::Emit(lazy, i + 2, false)
    } else {
        Stepped::Emit(greedy, i + 1, false)
    }
}

fn regex_step_at(chars: &Vec<char>, positions: &Vec<Position>, i: usize, in_set: bool) -> (stepped:
    Stepped)
    requires
        positions_of(positions@, chars@),
        i < chars@.len() < usize::MAX,
    ensures
        stepped_as(stepped, regex_step(chars@, i as int, in_set)),
        stepped matches Stepped::Emit(_, n, _) ==> i < n <= chars@.len(),
{
    let c = chars[i];
    if in_set {
        if c == BRACKET_CLOSE {
            return Stepped::Emit(Token::CharSetEnd, i + 1, false);
        }
        match lex_set_char(chars, positions, i) {
            Ok((a, next, true)) => Stepped::Emit(Token::PresetCharSet(a), next, true),
            Ok((a, next, false)) => {
                if next + 1 < chars.len() && chars[next] == '-' && chars[next + 1] != BRACKET_CLOSE {
                    match lex_set_char(chars, positions, next + 1) {
                        Ok((b, end, false)) => Stepped::Emit(Token::CharRange(a, b), end, true),
                        Ok((_, _, true)) => Stepped::Fail(
                            AnreError::MessageWithPosition(
                                string_of("A range cannot end with a character class."),
                                positions[next + 1],
                            ),
                        ),
                        Err(e) => Stepped::Fail(e),
                    }
                } else {
                    Stepped::Emit(Token::Char(a), next, true)
                }
            },
            Err(e) => Stepped::Fail(e),
        }
    } else if c == BRACKET_OPEN {
        if i + 1 < chars.len() && chars[i + 1] == '^' {
            Stepped::Emit(Token::CharSetStartNegative, i + 2, true)
        } else {
            Stepped::Emit(Token::CharSetStart, i + 1, true)
        }
    } else if c == '*' {
        lex_quantifier(chars, i, Token::ZeroOrMore, Token::ZeroOrMoreLazy)
    } else if c == '+' {
        lex_quantifier(chars, i, Token::OneOrMore, Token::OneOrMoreLazy)
    } else if c == '?' {
        lex_quantifier(chars, i, Token::Optional, Token::OptionalLazy)
    } else if c == BRACE_OPEN {
        match lex_repetition(chars, positions, i + 1) {
            Ok((repetition, end)) => if end < chars.len() && chars[end] == '?' {
                Stepped::Emit(Token::Repetition(repetition, true), end + 1, false)
            } else {
                Stepped::Emit(Token::Repetition(repetition, false), end, false)
            },
            Err(e) => Stepped::Fail(e),
        }
    } else if c == '|' {
        Stepped::Emit(Token::LogicOr, i + 1, false)
    } else if c == '^' {
        Stepped::Emit(Token::LineAssertionStart, i + 1, false)
    } else if c == '$' {
        Stepped::Emit(Token::LineAssertionEnd, i + 1, false)
    } else if c == '.' {
        Stepped::Emit(Token::Dot, i + 1, false)
    } else if c == PAREN_OPEN {
        match lex_group_start(chars, positions, i) {
            Ok((token, next)) => Stepped::Emit(token, next, false),
            Err(e) => Stepped::Fail(e),
        }
    } else if c == PAREN_CLOSE {
        Stepped::Emit(Token::GroupEnd, i + 1, false)
    } else if c == '\\' {
        match lex_escape_token(chars, positions, i + 1) {
            Ok((token, next)) => Stepped::Emit(token, next, false),
            Err(e) => Stepped::Fail(e),
        }
    } else {
        Stepped::Emit(Token::Char(c), i + 1, false)
    }
}

/// Splits a traditional regular expression into tokens, each with its
/// span.
pub fn lex_regex_from_str(s: &str) -> (result: Result<Vec<TokenWithRange>, AnreError>)
    requires
        s@.len() < usize::MAX,
    ensures
        match spec_regex_lex(s@) {
            Ok(tokens) => result is Ok && regex_tokens_view(result->Ok_0@) == tokens,
            Err(e) => result is Err && result->Err_0@ == e,
        },
{
    let chars = collect_chars(s);
    let positions = compute_positions(&chars);
    let mut tokens: Vec<TokenWithRange> = Vec::new();
    let mut i: usize = 0;
    let mut in_set = false;
    while i < chars.len()
        invariant
            chars@ == s@,
            chars@.len() < usize::MAX,
            positions_of(positions@, chars@),
            i <= chars@.len(),
            spec_regex_lex(chars@) == match spec_regex_lex_from(chars@, i as int, in_set) {
                Ok(rest) => Ok(regex_tokens_view(tokens@) + rest),
                Err(e) => Err(e),
            },
        decreases chars@.len() - i,
    {
        match regex_step_at(&chars, &positions, i, in_set) {
            Stepped::Emit(token, next, now_in_set) => {
                let ghost done = regex_tokens_view(tokens@);
                let token_with_range = TokenWithRange::new(
                    token,
                    Range::new(positions[i], positions[next - 1]),
                );
                let ghost item = token_with_range@;
                tokens.push(token_with_range);
                proof {
                    assert(regex_tokens_view(tokens@) =~= done.push(item));
                    assert forall|rest: Seq<(TokenView, Range)>|
                        done + (seq![item] + rest) =~= done.push(item) + rest by {}
                }
                i = next;
                in_set = now_in_set;
            },
            Stepped::Fail(e) => {
                return Err(e);
            },
        }
    }
    if in_set {
        return Err(AnreError::UnexpectedEndOfDocument(string_of("Incomplete character set.")));
    }
    proof {
        assert(regex_tokens_view(tokens@) + seq![] =~= regex_tokens_view(tokens@));
    }
    Ok(tokens)
}


proof fn lemma_regex_lex_from_in_order(chars: Seq<char>, i: int, in_set: bool)
    requires
        0 <= i,
        chars.len() < usize::MAX,
    ensures
        spec_regex_lex_from(chars, i, in_set) matches Ok(tokens) ==> spans_in_order(
            tokens,
            i,
            chars.len() as int,
        ),
    decreases chars.len() - i,
{
    if i < chars.len() {
        if let RegexStep::Emit(token, next, now_in_set) = regex_step(chars, i, in_set) {
            if i < next <= chars.len() {
                lemma_regex_lex_from_in_order(chars, next, now_in_set);
                if let Ok(rest) = spec_regex_lex_from(chars, next, now_in_set) {
                    let tokens = seq![(token, range_between(chars, i, next))] + rest;
                    assert forall|k: int| 0 <= k < tokens.len() implies i <= (
                    #[trigger] tokens[k]).1.start.index <= tokens[k].1.end_inclusive.index
                        < chars.len() by {
                        if k > 0 {
                            assert(tokens[k] == rest[k - 1]);
                        }
                    }
                    assert forall|k: int| 0 <= k < tokens.len() - 1 implies (
                    #[trigger] tokens[k]).1.end_inclusive.index < tokens[k + 1].1.start.index by {
                        assert(tokens[k + 1] == rest[k]);
                        if k > 0 {
                            assert(tokens[k] == rest[k - 1]);
                        }
                    }
                }
            }
        }
    }
}

/// The tokens of a traditional regular expression come in the order of the
/// text: each span lies within the text and ends before the next one starts.
pub proof fn law_regex_lexed_spans_in_order(text: Seq<char>)
    requires
        text.len() < usize::MAX,
    ensures
        spec_regex_lex(text) matches Ok(tokens) ==> spans_in_order(tokens, 0, text.len() as int),
{
    lemma_regex_lex_from_in_order(text, 0, false);
}

} // verus!
