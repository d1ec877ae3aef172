use vstd::prelude::*;

use crate::anre::token::{Token, TokenView, TokenWithRange};
use crate::error::{AnreError, ErrorView};
use crate::range::{Position, Range};
use crate::text::{push_char, string_of, text_is};

verus! {

/// The zero-based line of character `i`: the line breaks before it.
pub open spec fn line_of(chars: Seq<char>, i: int) -> nat
    decreases i,
{
    if i <= 0 {
        0
    } else if chars[i - 1] == '\n' {
        line_of(chars, i - 1) + 1
    } else {
        line_of(chars, i - 1)
    }
}

/// The zero-based column of character `i`: the characters between the last
/// line break before it and it.
pub open spec fn column_of(chars: Seq<char>, i: int) -> nat
    decreases i,
{
    if i <= 0 {
        0
    } else if chars[i - 1] == '\n' {
        0
    } else {
        column_of(chars, i - 1) + 1
    }
}

/// The position of character `i`.
pub open spec fn position_at(chars: Seq<char>, i: int) -> Position {
    Position { index: i as usize, line: line_of(chars, i) as usize, column: column_of(chars, i) as usize }
}

/// The span of the characters from `start` up to, not including, `end`.
pub open spec fn range_between(chars: Seq<char>, start: int, end: int) -> Range {
    Range { start: position_at(chars, start), end_inclusive: position_at(chars, end - 1) }
}

/// A separator: white space or a comma.
pub open spec fn is_blank(c: char) -> bool {
    c == ' ' || c == '\t' || c == '\r' || c == '\n' || c == ','
}

pub open spec fn is_decimal_digit(c: char) -> bool {
    '0' <= c <= '9'
}

pub open spec fn is_hex_digit(c: char) -> bool {
    ('0' <= c <= '9') || ('a' <= c <= 'f') || ('A' <= c <= 'F')
}

/// A character that may begin an identifier: an ASCII letter, `_`, or any
/// character beyond ASCII.
pub open spec fn is_identifier_start(c: char) -> bool {
    ('a' <= c <= 'z') || ('A' <= c <= 'Z') || c == '_' || (c as u32) >= 0x80
}

/// A character that may continue an identifier.
pub open spec fn is_identifier_char(c: char) -> bool {
    is_identifier_start(c) || is_decimal_digit(c)
}

/// The value of a hexadecimal digit.
pub open spec fn hex_digit_value(c: char) -> nat {
    if '0' <= c <= '9' {
        (c as u32 - '0' as u32) as nat
    } else if 'a' <= c <= 'f' {
        (c as u32 - 'a' as u32 + 10) as nat
    } else {
        (c as u32 - 'A' as u32 + 10) as nat
    }
}

/// The first index from `k` on whose character does not continue an
/// identifier.
pub open spec fn identifier_end(chars: Seq<char>, k: int) -> int
    decreases chars.len() - k,
{
    if k < 0 || k >= chars.len() || !is_identifier_char(chars[k]) {
        k
    } else {
        identifier_end(chars, k + 1)
    }
}

/// The first index from `k` on whose character is not a decimal digit.
pub open spec fn digits_end(chars: Seq<char>, k: int) -> int
    decreases chars.len() - k,
{
    if k < 0 || k >= chars.len() || !is_decimal_digit(chars[k]) {
        k
    } else {
        digits_end(chars, k + 1)
    }
}

/// The first index from `k` on whose character is not a hexadecimal digit.
pub open spec fn hex_digits_end(chars: Seq<char>, k: int) -> int
    decreases chars.len() - k,
{
    if k < 0 || k >= chars.len() || !is_hex_digit(chars[k]) {
        k
    } else {
        hex_digits_end(chars, k + 1)
    }
}

/// The index of the first line break from `k` on, or the length.
pub open spec fn line_end(chars: Seq<char>, k: int) -> int
    decreases chars.len() - k,
{
    if k < 0 || k >= chars.len() || chars[k] == '\n' {
        k
    } else {
        line_end(chars, k + 1)
    }
}

/// The index just after the first `*/` from `k` on.
pub open spec fn block_comment_end(chars: Seq<char>, k: int) -> Option<int>
    decreases chars.len() - k,
{
    if k < 0 || k + 1 >= chars.len() {
        None
    } else if chars[k] == '*' && chars[k + 1] == '/' {
        Some(k + 2)
    } else {
        block_comment_end(chars, k + 1)
    }
}

/// The value of the decimal digits from `start` up to `end`.
pub open spec fn decimal_value(chars: Seq<char>, start: int, end: int) -> nat
    decreases end - start,
{
    if end <= start {
        0
    } else {
        decimal_value(chars, start, end - 1) * 10 + (chars[end - 1] as u32 - '0' as u32) as nat
    }
}

/// The value of the hexadecimal digits from `start` up to `end`.
pub open spec fn hex_value(chars: Seq<char>, start: int, end: int) -> nat
    decreases end - start,
{
    if end <= start {
        0
    } else {
        hex_value(chars, start, end - 1) * 16 + hex_digit_value(chars[end - 1])
    }
}

/// A code point of a character: in range and not a surrogate.
pub open spec fn is_scalar_value(v: nat) -> bool {
    v <= 0xD7FF || (0xE000 <= v && v <= 0x10FFFF)
}

/// An escape sequence whose backslash is just before `k`: the character and
/// the index after the sequence.
pub open spec fn spec_escape(chars: Seq<char>, k: int) -> Result<(char, int), ErrorView> {
    if k >= chars.len() {
        Err(ErrorView::UnexpectedEndOfDocument("Incomplete escape character sequence."@))
    } else {
        let c = chars[k];
        if c == '\\' {
            Ok(('\\', k + 1))
        } else if c == '\'' {
            Ok(('\'', k + 1))
        } else if c == '"' {
            Ok(('"', k + 1))
        } else if c == 'n' {
            Ok(('\n', k + 1))
        } else if c == 'r' {
            Ok(('\r', k + 1))
        } else if c == 't' {
            Ok(('\t', k + 1))
        } else if c == '0' {
            Ok(('\0', k + 1))
        } else if c == 'u' {
            spec_unicode_escape(chars, k + 1)
        } else {
            Err(
                ErrorView::MessageWithPosition(
                    "Unsupported escape character."@,
                    position_at(chars, k),
                ),
            )
        }
    }
}

/// The `{X}` part of a unicode escape sequence, starting at `k`.
pub open spec fn spec_unicode_escape(chars: Seq<char>, k: int) -> Result<(char, int), ErrorView> {
    if k >= chars.len() {
        Err(ErrorView::UnexpectedEndOfDocument("Incomplete unicode escape sequence."@))
    } else if chars[k] != '{' {
        Err(
            ErrorView::MessageWithPosition(
                "Missing left brace for unicode escape sequence."@,
                position_at(chars, k),
            ),
        )
    } else {
        let end = hex_digits_end(chars, k + 1);
        if end >= chars.len() {
            Err(ErrorView::UnexpectedEndOfDocument("Incomplete unicode escape sequence."@))
        } else if chars[end] != '}' {
            Err(
                ErrorView::MessageWithPosition(
                    "Invalid hexadecimal digit in unicode escape sequence."@,
                    position_at(chars, end),
                ),
            )
        } else if end == k + 1 {
            Err(
                ErrorView::MessageWithPosition(
                    "Empty unicode code point."@,
                    position_at(chars, end),
                ),
            )
        } else if end - (k + 1) > 6 || !is_scalar_value(hex_value(chars, k + 1, end)) {
            Err(
                ErrorView::MessageWithRange(
                    "Invalid unicode code point."@,
                    range_between(chars, k + 1, end),
                ),
            )
        } else {
            Ok((hex_value(chars, k + 1, end) as char, end + 1))
        }
    }
}

/// The content of a string literal from `k`, and the index after its closing
/// quote.
pub open spec fn spec_string_body(chars: Seq<char>, k: int) -> Result<(Seq<char>, int), ErrorView>
    decreases chars.len() - k,
{
    if k < 0 || k >= chars.len() {
        Err(ErrorView::UnexpectedEndOfDocument("Incomplete string."@))
    } else if chars[k] == '"' {
        Ok((seq![], k + 1))
    } else if chars[k] == '\\' {
        match spec_escape(chars, k + 1) {
            Ok((c, next)) => if next <= k {
                Err(ErrorView::Message(seq![]))
            } else {
                match spec_string_body(chars, next) {
                    Ok((rest, end)) => Ok((seq![c] + rest, end)),
                    Err(e) => Err(e),
                }
            },
            Err(e) => Err(e),
        }
    } else {
        match spec_string_body(chars, k + 1) {
            Ok((rest, end)) => Ok((seq![chars[k]] + rest, end)),
            Err(e) => Err(e),
        }
    }
}

/// The character of a character literal from `k`, and the index after its
/// closing quote.
pub open spec fn spec_char_body(chars: Seq<char>, k: int) -> Result<(char, int), ErrorView> {
    if k >= chars.len() {
        Err(ErrorView::UnexpectedEndOfDocument("Incomplete character."@))
    } else if chars[k] == '\'' {
        Err(ErrorView::MessageWithPosition("Empty character."@, position_at(chars, k)))
    } else {
        let read = if chars[k] == '\\' {
            spec_escape(chars, k + 1)
        } else {
            Ok((chars[k], k + 1))
        };
        match read {
            Ok((c, next)) => if next >= chars.len() {
                Err(ErrorView::UnexpectedEndOfDocument("Incomplete character."@))
            } else if chars[next] != '\'' {
                Err(
                    ErrorView::MessageWithPosition(
                        "Expect a closing single quote for character."@,
                        position_at(chars, next),
                    ),
                )
            } else {
                Ok((c, next + 1))
            },
            Err(e) => Err(e),
        }
    }
}

/// What the lexer does at one index: skips to another index, reads a token
/// that ends just before another index, or fails.
pub enum LexStep {
    Skip(int),
    Emit(TokenView, int),
    Fail(ErrorView),
}

/// A punctuation token of one character, or of two when `second` follows.
pub open spec fn one_or_two(
    chars: Seq<char>,
    i: int,
    second: char,
    single: TokenView,
    double: TokenView,
) -> LexStep {
    if i + 1 < chars.len() && chars[i + 1] == second {
        LexStep::Emit(double, i + 2)
    } else {
        LexStep::Emit(single, i + 1)
    }
}

/// The step of the lexer at index `i`.
pub open spec fn lex_step(chars: Seq<char>, i: int) -> LexStep {
    let c = chars[i];
    if is_blank(c) {
        LexStep::Skip(i + 1)
    } else if c == '/' {
        if i + 1 < chars.len() && chars[i + 1] == '/' {
            LexStep::Skip(line_end(chars, i + 2))
        } else if i + 1 < chars.len() && chars[i + 1] == '*' {
            match block_comment_end(chars, i + 2) {
                Some(end) => LexStep::Skip(end),
                None => LexStep::Fail(
                    ErrorView::UnexpectedEndOfDocument("Incomplete block comment."@),
                ),
            }
        } else {
            LexStep::Fail(
                ErrorView::MessageWithPosition("Unexpected character."@, position_at(chars, i)),
            )
        }
    } else if c == '\'' {
        match spec_char_body(chars, i + 1) {
            Ok((ch, end)) => LexStep::Emit(TokenView::Char(ch), end),
            Err(e) => LexStep::Fail(e),
        }
    } else if c == '"' {
        match spec_string_body(chars, i + 1) {
            Ok((s, end)) => LexStep::Emit(TokenView::String(s), end),
            Err(e) => LexStep::Fail(e),
        }
    } else if is_decimal_digit(c) {
        let end = digits_end(chars, i);
        let value = decimal_value(chars, i, end);
        if value > usize::MAX {
            LexStep::Fail(
                ErrorView::MessageWithRange("Number is too large."@, range_between(chars, i, end)),
            )
        } else {
            LexStep::Emit(TokenView::Number(value as usize), end)
        }
    } else if is_identifier_start(c) {
        let end = identifier_end(chars, i);
        let name = chars.subrange(i, end);
        if name == "define"@ || name == "as"@ {
            LexStep::Emit(TokenView::Keyword(name), end)
        } else {
            LexStep::Emit(TokenView::Identifier(name), end)
        }
    } else if c == '?' {
        one_or_two(chars, i, '?', TokenView::Question, TokenView::QuestionLazy)
    } else if c == '+' {
        one_or_two(chars, i, '?', TokenView::Plus, TokenView::PlusLazy)
    } else if c == '*' {
        one_or_two(chars, i, '?', TokenView::Asterisk, TokenView::AsteriskLazy)
    } else if c == '.' {
        one_or_two(chars, i, '.', TokenView::Dot, TokenView::Range)
    } else if c == '|' {
        if i + 1 < chars.len() && chars[i + 1] == '|' {
            LexStep::Emit(TokenView::LogicOr, i + 2)
        } else {
            LexStep::Fail(
                ErrorView::MessageWithPosition("Unexpected character."@, position_at(chars, i)),
            )
        }
    } else if c == '{' {
        LexStep::Emit(TokenView::BraceOpen, i + 1)
    } else if c == '}' {
        LexStep::Emit(TokenView::BraceClose, i + 1)
    } else if c == '!' {
        LexStep::Emit(TokenView::Exclamation, i + 1)
    } else if c == '#' {
        LexStep::Emit(TokenView::Hash, i + 1)
    } else if c == '^' {
        LexStep::Emit(TokenView::Caret, i + 1)
    } else if c == '[' {
        LexStep::Emit(TokenView::BracketOpen, i + 1)
    } else if c == ']' {
        LexStep::Emit(TokenView::BracketClose, i + 1)
    } else if c == '(' {
        LexStep::Emit(TokenView::ParenthesisOpen, i + 1)
    } else if c == ')' {
        LexStep::Emit(TokenView::ParenthesisClose, i + 1)
    } else {
        LexStep::Fail(
            ErrorView::MessageWithPosition("Unexpected character."@, position_at(chars, i)),
        )
    }
}

/// The tokens of the text from index `i` on, each with its span.
pub open spec fn spec_lex_from(chars: Seq<char>, i: int) -> Result<Seq<(TokenView, Range)>, ErrorView>
    decreases chars.len() - i,
{
    if i < 0 || i >= chars.len() {
        Ok(seq![])
    } else {
        match lex_step(chars, i) {
            LexStep::Skip(next) => if next <= i || next > chars.len() {
                Err(ErrorView::Message(seq![]))
            } else {
                spec_lex_from(chars, next)
            },
            LexStep::Emit(token, next) => if next <= i || next > chars.len() {
                Err(ErrorView::Message(seq![]))
            } else {
                match spec_lex_from(chars, next) {
                    Ok(rest) => Ok(seq![(token, range_between(chars, i, next))] + rest),
                    Err(e) => Err(e),
                }
            },
            LexStep::Fail(e) => Err(e),
        }
    }
}

/// The tokens of an ANRE text, each with its span.
pub open spec fn spec_lex(text: Seq<char>) -> Result<Seq<(TokenView, Range)>, ErrorView> {
    spec_lex_from(text, 0)
}

/// The views of a list of tokens.
pub open spec fn tokens_view(tokens: Seq<TokenWithRange>) -> Seq<(TokenView, Range)> {
    tokens.map_values(|t: TokenWithRange| t@)
}


/// The character with code point `value` (`char::from_u32`), or `None` when
/// `value` is not a Unicode scalar value.
#[verifier::external_body]
fn char_from_u32(value: u32) -> (c: Option<char>)
    ensures
        is_scalar_value(value as nat) ==> c == Some(value as char),
        !is_scalar_value(value as nat) ==> c is None,
{
    char::from_u32(value)
}

/// The characters of a text.
pub(crate) fn collect_chars(s: &str) -> (chars: Vec<char>)
    ensures
        chars@ == s@,
{
    broadcast use vstd::string::group_string_axioms;

    let mut chars: Vec<char> = Vec::new();
    for c in it: s.chars()
        invariant
            it.seq() == s@,
            chars@ == s@.take(it.index() as int),
    {
        chars.push(c);
        proof {
            assert(chars@ =~= s@.take(it.index() + 1));
        }
    }
    proof {
        assert(chars@ =~= s@);
    }
    chars
}

proof fn lemma_line_column_bound(chars: Seq<char>, i: int)
    requires
        0 <= i,
    ensures
        line_of(chars, i) <= i,
        column_of(chars, i) <= i,
    decreases i,
{
    if i > 0 {
        lemma_line_column_bound(chars, i - 1);
    }
}

/// The position of every character of the text.
pub(crate) fn compute_positions(chars: &Vec<char>) -> (positions: Vec<Position>)
    requires
        chars@.len() < usize::MAX,
    ensures
        positions@.len() == chars@.len(),
        forall|i: int| 0 <= i < chars@.len() ==> #[trigger] positions@[i] == position_at(chars@, i),
{
    let mut positions: Vec<Position> = Vec::new();
    let mut line: usize = 0;
    let mut column: usize = 0;
    let mut i: usize = 0;
    while i < chars.len()
        invariant
            i <= chars@.len() < usize::MAX,
            positions@.len() == i,
            line == line_of(chars@, i as int),
            column == column_of(chars@, i as int),
            forall|k: int| 0 <= k < i ==> #[trigger] positions@[k] == position_at(chars@, k),
        decreases chars@.len() - i,
    {
        positions.push(Position::new(i, line, column));
        proof {
            lemma_line_column_bound(chars@, i as int);
        }
        if chars[i] == '\n' {
            line = line + 1;
            column = 0;
        } else {
            column = column + 1;
        }
        i = i + 1;
    }
    positions
}

fn char_is_blank(c: char) -> (b: bool)
    ensures
        b == is_blank(c),
{
    c == ' ' || c == '\t' || c == '\r' || c == '\n' || c == ','
}

pub(crate) fn char_is_decimal_digit(c: char) -> (b: bool)
    ensures
        b == is_decimal_digit(c),
{
    '0' <= c && c <= '9'
}

fn char_is_hex_digit(c: char) -> (b: bool)
    ensures
        b == is_hex_digit(c),
{
    ('0' <= c && c <= '9') || ('a' <= c && c <= 'f') || ('A' <= c && c <= 'F')
}

fn char_is_identifier_start(c: char) -> (b: bool)
    ensures
        b == is_identifier_start(c),
{
    ('a' <= c && c <= 'z') || ('A' <= c && c <= 'Z') || c == '_' || (c as u32) >= 0x80
}

fn char_is_identifier_char(c: char) -> (b: bool)
    ensures
        b == is_identifier_char(c),
{
    char_is_identifier_start(c) || char_is_decimal_digit(c)
}

fn scan_identifier_end(chars: &Vec<char>, k: usize) -> (end: usize)
    requires
        k <= chars@.len(),
    ensures
        end == identifier_end(chars@, k as int),
        k <= end <= chars@.len(),
{
    let mut j = k;
    while j < chars.len() && char_is_identifier_char(chars[j])
        invariant
            k <= j <= chars@.len(),
            identifier_end(chars@, k as int) == identifier_end(chars@, j as int),
        decreases chars@.len() - j,
    {
        j = j + 1;
    }
    j
}

pub(crate) fn scan_digits_end(chars: &Vec<char>, k: usize) -> (end: usize)
    requires
        k <= chars@.len(),
    ensures
        end == digits_end(chars@, k as int),
        k <= end <= chars@.len(),
        forall|t: int| k <= t < end ==> is_decimal_digit(#[trigger] chars@[t]),
{
    let mut j = k;
    while j < chars.len() && char_is_decimal_digit(chars[j])
        invariant
            k <= j <= chars@.len(),
            digits_end(chars@, k as int) == digits_end(chars@, j as int),
            forall|t: int| k <= t < j ==> is_decimal_digit(#[trigger] chars@[t]),
        decreases chars@.len() - j,
    {
        j = j + 1;
    }
    j
}

pub(crate) fn scan_hex_digits_end(chars: &Vec<char>, k: usize) -> (end: usize)
    requires
        k <= chars@.len(),
    ensures
        end == hex_digits_end(chars@, k as int),
        k <= end <= chars@.len(),
        forall|t: int| k <= t < end ==> is_hex_digit(#[trigger] chars@[t]),
{
    let mut j = k;
    while j < chars.len() && char_is_hex_digit(chars[j])
        invariant
            k <= j <= chars@.len(),
            hex_digits_end(chars@, k as int) == hex_digits_end(chars@, j as int),
            forall|t: int| k <= t < j ==> is_hex_digit(#[trigger] chars@[t]),
        decreases chars@.len() - j,
    {
        j = j + 1;
    }
    j
}

fn scan_line_end(chars: &Vec<char>, k: usize) -> (end: usize)
    requires
        k <= chars@.len(),
    ensures
        end == line_end(chars@, k as int),
        k <= end <= chars@.len(),
{
    let mut j = k;
    while j < chars.len() && chars[j] != '\n'
        invariant
            k <= j <= chars@.len(),
            line_end(chars@, k as int) == line_end(chars@, j as int),
        decreases chars@.len() - j,
    {
        j = j + 1;
    }
    j
}

fn scan_block_comment_end(chars: &Vec<char>, k: usize) -> (end: Option<usize>)
    requires
        k <= chars@.len(),
    ensures
        match end {
            Some(e) => block_comment_end(chars@, k as int) == Some(e as int) && k + 2 <= e
                <= chars@.len(),
            None => block_comment_end(chars@, k as int) is None,
        },
{
    let mut j = k;
    while j < chars.len() && j + 1 < chars.len()
        invariant
            k <= j <= chars@.len(),
            block_comment_end(chars@, k as int) == block_comment_end(chars@, j as int),
        decreases chars@.len() - j,
    {
        if chars[j] == '*' && chars[j + 1] == '/' {
            return Some(j + 2);
        }
        j = j + 1;
    }
    None
}

proof fn lemma_decimal_value_grows(chars: Seq<char>, start: int, j: int, end: int)
    requires
        start <= j <= end,
    ensures
        decimal_value(chars, start, j) <= decimal_value(chars, start, end),
    decreases end - j,
{
    if j < end {
        lemma_decimal_value_grows(chars, start, j, end - 1);
    }
}

/// The value of the decimal digits from `start` up to `end`, or `None` when
/// it does not fit in `usize`.
pub(crate) fn decimal_number(chars: &Vec<char>, start: usize, end: usize) -> (value: Option<usize>)
    requires
        start <= end <= chars@.len(),
        forall|t: int| start <= t < end ==> is_decimal_digit(#[trigger] chars@[t]),
    ensures
        match value {
            Some(v) => v == decimal_value(chars@, start as int, end as int),
            None => decimal_value(chars@, start as int, end as int) > usize::MAX,
        },
{
    let mut acc: usize = 0;
    let mut j = start;
    while j < end
        invariant
            start <= j <= end <= chars@.len(),
            forall|t: int| start <= t < end ==> is_decimal_digit(#[trigger] chars@[t]),
            acc == decimal_value(chars@, start as int, j as int),
        decreases end - j,
    {
        let c = chars[j];
        assert(is_decimal_digit(chars@[j as int]));
        let digit = (c as u32) - ('0' as u32);
        let next = match acc.checked_mul(10) {
            Some(m) => m.checked_add(digit as usize),
            None => None,
        };
        match next {
            Some(v) => {
                acc = v;
            },
            None => {
                proof {
                    lemma_decimal_value_grows(chars@, start as int, j as int + 1, end as int);
                }
                return None;
            },
        }
        j = j + 1;
    }
    Some(acc)
}

/// Sixteen to the power `n`.
spec fn pow16(n: nat) -> nat
    decreases n,
{
    if n == 0 {
        1
    } else {
        16 * pow16((n - 1) as nat)
    }
}

proof fn lemma_pow16_grows(a: nat, b: nat)
    requires
        a <= b,
    ensures
        pow16(a) <= pow16(b),
    decreases b - a,
{
    if a < b {
        lemma_pow16_grows(a, (b - 1) as nat);
    }
}

proof fn lemma_hex_value_bound(chars: Seq<char>, start: int, end: int)
    requires
        start <= end,
        forall|t: int| start <= t < end ==> is_hex_digit(#[trigger] chars[t]),
    ensures
        hex_value(chars, start, end) < pow16((end - start) as nat),
    decreases end - start,
{
    if end > start {
        lemma_hex_value_bound(chars, start, end - 1);
        assert(is_hex_digit(chars[end - 1]));
        let p = pow16((end - 1 - start) as nat);
        assert(hex_value(chars, start, end - 1) * 16 + hex_digit_value(chars[end - 1]) < p * 16)
            by (nonlinear_arith)
            requires
                hex_value(chars, start, end - 1) < p,
                hex_digit_value(chars[end - 1]) < 16,
        ;
    }
}

/// The value of at most six hexadecimal digits from `start` up to `end`.
fn hex_number(chars: &Vec<char>, start: usize, end: usize) -> (value: u32)
    requires
        start <= end <= chars@.len(),
        end - start <= 6,
        forall|t: int| start <= t < end ==> is_hex_digit(#[trigger] chars@[t]),
    ensures
        value == hex_value(chars@, start as int, end as int),
{
    let mut acc: u32 = 0;
    let mut j = start;
    while j < end
        invariant
            start <= j <= end <= chars@.len(),
            end - start <= 6,
            forall|t: int| start <= t < end ==> is_hex_digit(#[trigger] chars@[t]),
            acc == hex_value(chars@, start as int, j as int),
        decreases end - j,
    {
        proof {
            lemma_hex_value_bound(chars@, start as int, j as int + 1);
            lemma_pow16_grows((j + 1 - start) as nat, 6);
            reveal_with_fuel(pow16, 7);
        }
        let c = chars[j];
        let digit: u32 = if '0' <= c && c <= '9' {
            (c as u32) - ('0' as u32)
        } else if 'a' <= c && c <= 'f' {
            (c as u32) - ('a' as u32) + 10
        } else {
            (c as u32) - ('A' as u32) + 10
        };
        acc = acc * 16 + digit;
        j = j + 1;
    }
    acc
}


/// `positions` holds the position of every character of `chars`.
pub open spec fn positions_of(positions: Seq<Position>, chars: Seq<char>) -> bool {
    &&& positions.len() == chars.len()
    &&& forall|i: int| 0 <= i < chars.len() ==> #[trigger] positions[i] == position_at(chars, i)
}

/// The escape sequence whose backslash is just before `k`.
fn lex_escape(chars: &Vec<char>, positions: &Vec<Position>, k: usize) -> (result: Result<
    (char, usize),
    AnreError,
>)
    requires
        positions_of(positions@, chars@),
        k <= chars@.len(),
    ensures
        match spec_escape(chars@, k as int) {
            Ok((c, next)) => result is Ok && result->Ok_0.0 == c && result->Ok_0.1 == next,
            Err(e) => result is Err && result->Err_0@ == e,
        },
        result is Ok ==> k < result->Ok_0.1 <= chars@.len(),
{
    if k >= chars.len() {
        return Err(
            AnreError::UnexpectedEndOfDocument(string_of("Incomplete escape character sequence.")),
        );
    }
    let c = chars[k];
    if c == '\\' {
        Ok(('\\', k + 1))
    } else if c == '\'' {
        Ok(('\'', k + 1))
    } else if c == '"' {
        Ok(('"', k + 1))
    } else if c == 'n' {
        Ok(('\n', k + 1))
    } else if c == 'r' {
        Ok(('\r', k + 1))
    } else if c == 't' {
        Ok(('\t', k + 1))
    } else if c == '0' {
        Ok(('\0', k + 1))
    } else if c == 'u' {
        lex_unicode_escape(chars, positions, k + 1)
    } else {
        Err(
            AnreError::MessageWithPosition(
                string_of("Unsupported escape character."),
                positions[k],
            ),
        )
    }
}

/// The `{X}` part of a unicode escape sequence, starting at `k`.
pub(crate) fn lex_unicode_escape(chars: &Vec<char>, positions: &Vec<Position>, k: usize) -> (result: Result<
    (char, usize),
    AnreError,
>)
    requires
        positions_of(positions@, chars@),
        k <= chars@.len(),
    ensures
        match spec_unicode_escape(chars@, k as int) {
            Ok((c, next)) => result is Ok && result->Ok_0.0 == c && result->Ok_0.1 == next,
            Err(e) => result is Err && result->Err_0@ == e,
        },
        result is Ok ==> k < result->Ok_0.1 <= chars@.len(),
{
    if k >= chars.len() {
        return Err(
            AnreError::UnexpectedEndOfDocument(string_of("Incomplete unicode escape sequence.")),
        );
    }
    if chars[k] != '{' {
        return Err(
            AnreError::MessageWithPosition(
                string_of("Missing left brace for unicode escape sequence."),
                positions[k],
            ),
        );
    }
    let end = scan_hex_digits_end(chars, k + 1);
    if end >= chars.len() {
        return Err(
            AnreError::UnexpectedEndOfDocument(string_of("Incomplete unicode escape sequence.")),
        );
    }
    if chars[end] != '}' {
        return Err(
            AnreError::MessageWithPosition(
                string_of("Invalid hexadecimal digit in unicode escape sequence."),
                positions[end],
            ),
        );
    }
    if end == k + 1 {
        return Err(
            AnreError::MessageWithPosition(string_of("Empty unicode code point."), positions[end]),
        );
    }
    if end - (k + 1) > 6 {
        return Err(
            AnreError::MessageWithRange(
                string_of("Invalid unicode code point."),
                Range::new(positions[k + 1], positions[end - 1]),
            ),
        );
    }
    let value = hex_number(chars, k + 1, end);
    match char_from_u32(value) {
        Some(c) => Ok((c, end + 1)),
        None => Err(
            AnreError::MessageWithRange(
                string_of("Invalid unicode code point."),
                Range::new(positions[k + 1], positions[end - 1]),
            ),
        ),
    }
}

/// The content of a string literal from `k`, and the index after its
/// closing quote.
fn lex_string_body(chars: &Vec<char>, positions: &Vec<Position>, k: usize) -> (result: Result<
    (String, usize),
    AnreError,
>)
    requires
        positions_of(positions@, chars@),
        k <= chars@.len(),
    ensures
        match spec_string_body(chars@, k as int) {
            Ok((content, next)) => result is Ok && result->Ok_0.0@ == content && result->Ok_0.1
                == next,
            Err(e) => result is Err && result->Err_0@ == e,
        },
        result is Ok ==> k < result->Ok_0.1 <= chars@.len(),
{
    let mut content = String::new();
    let mut j = k;
    loop
        invariant
            positions_of(positions@, chars@),
            k <= j <= chars@.len(),
            spec_string_body(chars@, k as int) == match spec_string_body(chars@, j as int) {
                Ok((rest, next)) => Ok((content@ + rest, next)),
                Err(e) => Err(e),
            },
        decreases chars@.len() - j,
    {
        if j >= chars.len() {
            return Err(AnreError::UnexpectedEndOfDocument(string_of("Incomplete string.")));
        }
        let c = chars[j];
        if c == '"' {
            proof {
                assert(content@ + seq![] =~= content@);
            }
            return Ok((content, j + 1));
        }
        let ghost before = content@;
        if c == '\\' {
            match lex_escape(chars, positions, j + 1) {
                Ok((escaped, next)) => {
                    push_char(&mut content, escaped);
                    proof {
                        assert forall|rest: Seq<char>| before + (seq![escaped] + rest) =~= content@
                            + rest by {}
                    }
                    j = next;
                },
                Err(e) => {
                    return Err(e);
                },
            }
        } else {
            push_char(&mut content, c);
            proof {
                assert forall|rest: Seq<char>| before + (seq![c] + rest) =~= content@ + rest by {}
            }
            j = j + 1;
        }
    }
}

/// The character of a character literal from `k`, and the index after its
/// closing quote.
fn lex_char_body(chars: &Vec<char>, positions: &Vec<Position>, k: usize) -> (result: Result<
    (char, usize),
    AnreError,
>)
    requires
        positions_of(positions@, chars@),
        k <= chars@.len(),
    ensures
        match spec_char_body(chars@, k as int) {
            Ok((c, next)) => result is Ok && result->Ok_0.0 == c && result->Ok_0.1 == next,
            Err(e) => result is Err && result->Err_0@ == e,
        },
        result is Ok ==> k < result->Ok_0.1 <= chars@.len(),
{
    if k >= chars.len() {
        return Err(AnreError::UnexpectedEndOfDocument(string_of("Incomplete character.")));
    }
    if chars[k] == '\'' {
        return Err(AnreError::MessageWithPosition(string_of("Empty character."), positions[k]));
    }
    let (c, next) = if chars[k] == '\\' {
        match lex_escape(chars, positions, k + 1) {
            Ok(read) => read,
            Err(e) => {
                return Err(e);
            },
        }
    } else {
        (chars[k], k + 1)
    };
    if next >= chars.len() {
        return Err(AnreError::UnexpectedEndOfDocument(string_of("Incomplete character.")));
    }
    if chars[next] != '\'' {
        return Err(
            AnreError::MessageWithPosition(
                string_of("Expect a closing single quote for character."),
                positions[next],
            ),
        );
    }
    Ok((c, next + 1))
}

/// The characters from `start` up to `end` as a string.
pub(crate) fn substring(chars: &Vec<char>, start: usize, end: usize) -> (s: String)
    requires
        start <= end <= chars@.len(),
    ensures
        s@ == chars@.subrange(start as int, end as int),
{
    let mut s = String::new();
    let mut j = start;
    while j < end
        invariant
            start <= j <= end <= chars@.len(),
            s@ == chars@.subrange(start as int, j as int),
        decreases end - j,
    {
        push_char(&mut s, chars[j]);
        proof {
            assert(s@ =~= chars@.subrange(start as int, j + 1));
        }
        j = j + 1;
    }
    s
}

/// What the lexer does at one index.
enum Lexed {
    Skip(usize),
    Emit(Token, usize),
    Fail(AnreError),
}

/// The lexed step matches the step of the specification.
spec fn lexed_as(lexed: Lexed, step: LexStep) -> bool {
    match (lexed, step) {
        (Lexed::Skip(n), LexStep::Skip(m)) => n == m,
        (Lexed::Emit(t, n), LexStep::Emit(v, m)) => t@ == v && n == m,
        (Lexed::Fail(e), LexStep::Fail(v)) => e@ == v,
        _ => false,
    }
}

/// A punctuation token of one character, or of two when `second` follows.
fn lex_one_or_two(chars: &Vec<char>, i: usize, second: char, single: Token, double: Token) -> (lexed:
    Lexed)
    requires
        i < chars@.len() < usize::MAX,
    ensures
        lexed_as(lexed, one_or_two(chars@, i as int, second, single@, double@)),
{
    if i + 1 < chars.len() && chars[i + 1] == second {
        Lexed::Emit(double, i + 2)
    } else {
        Lexed::Emit(single, i + 1)
    }
}

/// The step of the lexer at index `i`.
fn lex_step_at(chars: &Vec<char>, positions: &Vec<Position>, i: usize) -> (lexed: Lexed)
    requires
        positions_of(positions@, chars@),
        i < chars@.len() < usize::MAX,
    ensures
        lexed_as(lexed, lex_step(chars@, i as int)),
        lexed matches Lexed::Skip(n) ==> i < n <= chars@.len(),
        lexed matches Lexed::Emit(_, n) ==> i < n <= chars@.len(),
{
    let c = chars[i];
    if char_is_blank(c) {
        Lexed::Skip(i + 1)
    } else if c == '/' {
        if i + 1 < chars.len() && chars[i + 1] == '/' {
            Lexed::Skip(scan_line_end(chars, i + 2))
        } else if i + 1 < chars.len() && chars[i + 1] == '*' {
            match scan_block_comment_end(chars, i + 2) {
                Some(end) => Lexed::Skip(end),
                None => Lexed::Fail(
                    AnreError::UnexpectedEndOfDocument(string_of("Incomplete block comment.")),
                ),
            }
        } else {
            Lexed::Fail(
                AnreError::MessageWithPosition(string_of("Unexpected character."), positions[i]),
            )
        }
    } else if c == '\'' {
        match lex_char_body(chars, positions, i + 1) {
            Ok((ch, end)) => Lexed::Emit(Token::Char(ch), end),
            Err(e) => Lexed::Fail(e),
        }
    } else if c == '"' {
        match lex_string_body(chars, positions, i + 1) {
            Ok((content, end)) => Lexed::Emit(Token::String(content), end),
            Err(e) => Lexed::Fail(e),
        }
    } else if char_is_decimal_digit(c) {
        let end = scan_digits_end(chars, i + 1);
        match decimal_number(chars, i, end) {
            Some(value) => Lexed::Emit(Token::Number(value), end),
            None => Lexed::Fail(
                AnreError::MessageWithRange(
                    string_of("Number is too large."),
                    Range::new(positions[i], positions[end - 1]),
                ),
            ),
        }
    } else if char_is_identifier_start(c) {
        let end = scan_identifier_end(chars, i + 1);
        let name = substring(chars, i, end);
        if text_is(&name, "define") || text_is(&name, "as") {
            Lexed::Emit(Token::Keyword(name), end)
        } else {
            Lexed::Emit(Token::Identifier(name), end)
        }
    } else if c == '?' {
        lex_one_or_two(chars, i, '?', Token::Question, Token::QuestionLazy)
    } else if c == '+' {
        lex_one_or_two(chars, i, '?', Token::Plus, Token::PlusLazy)
    } else if c == '*' {
        lex_one_or_two(chars, i, '?', Token::Asterisk, Token::AsteriskLazy)
    } else if c == '.' {
        lex_one_or_two(chars, i, '.', Token::Dot, Token::Range)
    } else if c == '|' {
        if i + 1 < chars.len() && chars[i + 1] == '|' {
            Lexed::Emit(Token::LogicOr, i + 2)
        } else {
            Lexed::Fail(
                AnreError::MessageWithPosition(string_of("Unexpected character."), positions[i]),
            )
        }
    } else if c == '{' {
        Lexed::Emit(Token::BraceOpen, i + 1)
    } else if c == '}' {
        Lexed::Emit(Token::BraceClose, i + 1)
    } else if c == '!' {
        Lexed::Emit(Token::Exclamation, i + 1)
    } else if c == '#' {
        Lexed::Emit(Token::Hash, i + 1)
    } else if c == '^' {
        Lexed::Emit(Token::Caret, i + 1)
    } else if c == '[' {
        Lexed::Emit(Token::BracketOpen, i + 1)
    } else if c == ']' {
        Lexed::Emit(Token::BracketClose, i + 1)
    } else if c == '(' {
        Lexed::Emit(Token::ParenthesisOpen, i + 1)
    } else if c == ')' {
        Lexed::Emit(Token::ParenthesisClose, i + 1)
    } else {
        Lexed::Fail(
            AnreError::MessageWithPosition(string_of("Unexpected character."), positions[i]),
        )
    }
}

/// Splits an ANRE text into tokens, each with its span; white space,
/// commas and comments only separate them.
pub fn lex_from_str(s: &str) -> (result: Result<Vec<TokenWithRange>, AnreError>)
    requires
        s@.len() < usize::MAX,
    ensures
        match spec_lex(s@) {
            Ok(tokens) => result is Ok && tokens_view(result->Ok_0@) == tokens,
            Err(e) => result is Err && result->Err_0@ == e,
        },
{
    let chars = collect_chars(s);
    let positions = compute_positions(&chars);
    let mut tokens: Vec<TokenWithRange> = Vec::new();
    let mut i: usize = 0;
    while i < chars.len()
        invariant
            chars@ == s@,
            chars@.len() < usize::MAX,
            positions_of(positions@, chars@),
            i <= chars@.len(),
            spec_lex(chars@) == match spec_lex_from(chars@, i as int) {
                Ok(rest) => Ok(tokens_view(tokens@) + rest),
                Err(e) => Err(e),
            },
        decreases chars@.len() - i,
    {
        match lex_step_at(&chars, &positions, i) {
            Lexed::Skip(next) => {
                i = next;
            },
            Lexed::Emit(token, next) => {
                let ghost done = tokens_view(tokens@);
                let token_with_range = TokenWithRange::new(
                    token,
                    Range::new(positions[i], positions[next - 1]),
                );
                let ghost item = token_with_range@;
                tokens.push(token_with_range);
                proof {
                    assert(tokens_view(tokens@) =~= done.push(item));
                    assert forall|rest: Seq<(TokenView, Range)>| done + (seq![item] + rest) =~= done.push(item) + rest by {}
                }
                i = next;
            },
            Lexed::Fail(e) => {
                return Err(e);
            },
        }
    }
    proof {
        assert(tokens_view(tokens@) + seq![] =~= tokens_view(tokens@));
    }
    Ok(tokens)
}


/// The spans lie at or after character `from` and before character `end`,
/// each ending before the next one starts.
pub open spec fn spans_in_order<T>(tokens: Seq<(T, Range)>, from: int, end: int) -> bool {
    &&& forall|k: int|
        0 <= k < tokens.len() ==> from <= (#[trigger] tokens[k]).1.start.index
            <= tokens[k].1.end_inclusive.index < end
    &&& forall|k: int|
        0 <= k < tokens.len() - 1 ==> (#[trigger] tokens[k]).1.end_inclusive.index
            < tokens[k + 1].1.start.index
}

proof fn lemma_lex_from_in_order(chars: Seq<char>, i: int)
    requires
        0 <= i,
        chars.len() < usize::MAX,
    ensures
        spec_lex_from(chars, i) matches Ok(tokens) ==> spans_in_order(
            tokens,
            i,
            chars.len() as int,
        ),
    decreases chars.len() - i,
{
    if i < chars.len() {
        match lex_step(chars, i) {
            LexStep::Skip(next) => {
                if i < next <= chars.len() {
                    lemma_lex_from_in_order(chars, next);
                }
            },
            LexStep::Emit(token, next) => {
                if i < next <= chars.len() {
                    lemma_lex_from_in_order(chars, next);
                    if let Ok(rest) = spec_lex_from(chars, next) {
                        let tokens = seq![(token, range_between(chars, i, next))] + rest;
                        assert forall|k: int| 0 <= k < tokens.len() implies i <= (
                        #[trigger] tokens[k]).1.start.index <= tokens[k].1.end_inclusive.index
                            < chars.len() by {
                            if k > 0 {
                                assert(tokens[k] == rest[k - 1]);
                            }
                        }
                        assert forall|k: int| 0 <= k < tokens.len() - 1 implies (
                        #[trigger] tokens[k]).1.end_inclusive.index < tokens[k + 1].1.start.index by {
                            assert(tokens[k + 1] == rest[k]);
                            if k > 0 {
                                assert(tokens[k] == rest[k - 1]);
                            }
                        }
                    }
                }
            },
            LexStep::Fail(_) => {},
        }
    }
}

/// The tokens of a text come in the order of the text: each span lies
/// within the text and ends before the next one starts.
pub proof fn law_lexed_spans_in_order(text: Seq<char>)
    requires
        text.len() < usize::MAX,
    ensures
        spec_lex(text) matches Ok(tokens) ==> spans_in_order(tokens, 0, text.len() as int),
{
    lemma_lex_from_in_order(text, 0);
}


/// The hexadecimal digits have their usual values, and an upper-case digit
/// has the value of the lower-case one: `\u{4E2D}` and `\u{4e2d}` read the
/// same character.
pub proof fn law_hex_digit_values(k: u32)
    ensures
        k < 10 ==> hex_digit_value((('0' as u32) + k) as char) == k,
        k < 6 ==> hex_digit_value((('a' as u32) + k) as char) == 10 + k,
        k < 6 ==> hex_digit_value((('A' as u32) + k) as char) == 10 + k,
{
}
} // verus!
