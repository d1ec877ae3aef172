use regex_anre::anre::lexer::lex_from_str;
use regex_anre::compile_check::{checked_compile_from_anre, checked_compile_from_regex};
use regex_anre::anre::macro_expander::expand;
use regex_anre::anre::parser::{parse_from_str, Parser};
use regex_anre::anre::token::TokenWithRange;
use regex_anre::peekable_iter::PeekableIter;
use regex_anre::anre::token::Token;
use regex_anre::ast::{Expression, FunctionArgument, FunctionCall, FunctionName, Literal, Program};
use regex_anre::compiler::{compile, compile_from_anre};
use regex_anre::error::AnreError;
use regex_anre::match_length_calculator::{calculate_match_length, MatchLength};
use regex_anre::object_file::{RouteMap, Transition, MAIN_ROUTE_INDEX};
use regex_anre::range::{Position, Range};
use regex_anre::traditional::lexer::lex_regex_from_str;
use regex_anre::traditional::parser::parse_from_str as parse_regex;
use regex_anre::traditional::token::{Repetition, Token as RegexToken};

fn debug_text(anre: &str) -> String {
    compile_from_anre(anre).unwrap().get_debug_text()
}

fn tokens_of(s: &str) -> Vec<Token> {
    lex_from_str(s).unwrap().into_iter().map(|t| t.token).collect()
}

fn is_closed(map: &RouteMap) -> bool {
    for route in &map.routes {
        for node in &route.nodes {
            for path in &node.paths {
                if path.target_node_index >= route.nodes.len() {
                    return false;
                }
                let fits = match &path.transition {
                    Transition::CaptureStart(i)
                    | Transition::CaptureEnd(i)
                    | Transition::BackReference(i) => *i < map.capture_groups.len(),
                    Transition::LookAheadAssertion(r, _) => *r < map.routes.len(),
                    Transition::LookBehindAssertion(r, _, _) => *r < map.routes.len(),
                    _ => true,
                };
                if !fits {
                    return false;
                }
            }
        }
    }
    true
}

#[test]
fn test_lex_tokens_and_separators() {
    assert_eq!(
        tokens_of("('a', \"b\" /* note */ 12) // end"),
        vec![
            Token::ParenthesisOpen,
            Token::Char('a'),
            Token::String("b".to_owned()),
            Token::Number(12),
            Token::ParenthesisClose,
        ]
    );
    assert_eq!(
        tokens_of("x? y?? z+ w+? v* u*? {1..2} !#^.|| []"),
        vec![
            Token::Identifier("x".to_owned()),
            Token::Question,
            Token::Identifier("y".to_owned()),
            Token::QuestionLazy,
            Token::Identifier("z".to_owned()),
            Token::Plus,
            Token::Identifier("w".to_owned()),
            Token::PlusLazy,
            Token::Identifier("v".to_owned()),
            Token::Asterisk,
            Token::Identifier("u".to_owned()),
            Token::AsteriskLazy,
            Token::BraceOpen,
            Token::Number(1),
            Token::Range,
            Token::Number(2),
            Token::BraceClose,
            Token::Exclamation,
            Token::Hash,
            Token::Caret,
            Token::Dot,
            Token::LogicOr,
            Token::BracketOpen,
            Token::BracketClose,
        ]
    );
    assert_eq!(
        tokens_of("define as defined"),
        vec![
            Token::Keyword("define".to_owned()),
            Token::Keyword("as".to_owned()),
            Token::Identifier("defined".to_owned()),
        ]
    );
}

#[test]
fn test_lex_escapes() {
    assert_eq!(
        tokens_of(r#"'\n' '\t' '\r' '\0' '\\' '\'' '\"' '\u{6587}'"#),
        vec![
            Token::Char('\n'),
            Token::Char('\t'),
            Token::Char('\r'),
            Token::Char('\0'),
            Token::Char('\\'),
            Token::Char('\''),
            Token::Char('"'),
            Token::Char('文'),
        ]
    );
    assert_eq!(
        tokens_of(r#""a\u{5b57}\"b""#),
        vec![Token::String("a字\"b".to_owned())]
    );
}

#[test]
fn test_lex_ranges() {
    let tokens = lex_from_str("'a'\n  bc").unwrap();
    assert_eq!(
        tokens[0].range,
        Range {
            start: Position { index: 0, line: 0, column: 0 },
            end_inclusive: Position { index: 2, line: 0, column: 2 },
        }
    );
    assert_eq!(
        tokens[1].range,
        Range {
            start: Position { index: 6, line: 1, column: 2 },
            end_inclusive: Position { index: 7, line: 1, column: 3 },
        }
    );
}

#[test]
fn test_lexed_spans_in_order() {
    let tokens = lex_from_str("(char_digit+, \"xy\") || 'z'").unwrap();
    for pair in tokens.windows(2) {
        assert!(pair[0].range.start.index <= pair[0].range.end_inclusive.index);
        assert!(pair[0].range.end_inclusive.index < pair[1].range.start.index);
    }
}

#[test]
fn test_lex_errors() {
    assert!(matches!(lex_from_str("'a' % 'b'"), Err(AnreError::MessageWithPosition(_, _))));
    assert!(matches!(lex_from_str("'a' | 'b'"), Err(AnreError::MessageWithPosition(_, _))));
    assert!(matches!(lex_from_str("\"abc"), Err(AnreError::UnexpectedEndOfDocument(_))));
    assert!(matches!(lex_from_str("'a"), Err(AnreError::UnexpectedEndOfDocument(_))));
    assert!(matches!(lex_from_str("''"), Err(AnreError::MessageWithPosition(_, _))));
    assert!(matches!(lex_from_str("'ab'"), Err(AnreError::MessageWithPosition(_, _))));
    assert!(matches!(lex_from_str(r"'\q'"), Err(AnreError::MessageWithPosition(_, _))));
    assert!(matches!(lex_from_str(r"'\u{d800}'"), Err(AnreError::MessageWithRange(_, _))));
    assert!(matches!(lex_from_str(r"'\u{}'"), Err(AnreError::MessageWithPosition(_, _))));
    assert!(matches!(lex_from_str(r"'\u{1234567}'"), Err(AnreError::MessageWithRange(_, _))));
    assert!(matches!(lex_from_str("/* open"), Err(AnreError::UnexpectedEndOfDocument(_))));
    assert!(matches!(
        lex_from_str("'a'{99999999999999999999999}"),
        Err(AnreError::MessageWithRange(_, _))
    ));
}

#[test]
fn test_expand_without_definitions_is_identity() {
    let tokens = lex_from_str("('a', foo, \"b\")").unwrap();
    let expanded = expand(tokens.clone()).unwrap();
    assert_eq!(expanded, tokens);
}

#[test]
fn test_definition_is_replaced() {
    let expanded: Vec<Token> = expand(lex_from_str("define a ('x', 'z')\n(a, 'y', a.optional())").unwrap())
        .unwrap()
        .into_iter()
        .map(|t| t.token)
        .collect();
    assert_eq!(expanded, tokens_of("(('x', 'z'), 'y', ('x', 'z').optional())"));
}

#[test]
fn test_expand_errors() {
    assert!(matches!(
        expand(lex_from_str("define ('a') 'b'").unwrap()),
        Err(AnreError::MessageWithPosition(_, _))
    ));
    assert!(matches!(
        expand(lex_from_str("define A ('a'").unwrap()),
        Err(AnreError::UnexpectedEndOfDocument(_))
    ));
}

#[test]
fn test_program_text_round_trips_literals() {
    let program = parse_from_str(r#"('\'', '\\', "say \"hi\"\n", '\t')"#).unwrap();
    let text = program.to_string();
    assert_eq!(text, r#"('\'', '\\', "say \"hi\"\n", '\t')"#);
    assert_eq!(parse_from_str(&text).unwrap(), program);
}

#[test]
fn test_program_text_of_captures_and_alternations() {
    let program = Program {
        expression: Expression::IndexCapture(Box::new(Expression::Or(
            Box::new(Expression::Literal(Literal::Char('a'))),
            Box::new(Expression::BackReference(regex_anre::ast::BackReference::Index(2))),
        ))),
    };
    assert_eq!(program.to_string(), "#('a' || ^2)");
}

fn hand_tokens(name: &str) -> Vec<TokenWithRange> {
    let at = |i: usize| Range::new(Position::new(i, 0, i), Position::new(i, 0, i));
    vec![
        TokenWithRange::new(Token::Char('a'), at(0)),
        TokenWithRange::new(Token::Dot, at(1)),
        TokenWithRange::new(Token::Identifier(name.to_owned()), at(2)),
        TokenWithRange::new(Token::ParenthesisOpen, at(3)),
        TokenWithRange::new(Token::Number(2), at(4)),
        TokenWithRange::new(Token::ParenthesisClose, at(5)),
    ]
}

fn parse_tokens(tokens: Vec<TokenWithRange>) -> Result<String, AnreError> {
    let expanded = expand(tokens)?;
    let mut parser = Parser::new(PeekableIter::new(expanded));
    parser.parse_program().map(|program| program.to_string())
}

#[test]
fn test_parse_depends_on_token_views() {
    let name = String::from("repeat");
    let first = parse_tokens(hand_tokens(&name));
    let second = parse_tokens(hand_tokens("repeat"));
    assert_eq!(first, second);
    assert_eq!(first.unwrap(), "repeat('a', 2)");
    assert_eq!(parse_tokens(hand_tokens("unknown")), parse_tokens(hand_tokens("unknown")));
}

#[test]
fn test_printed_literal_programs_read_back() {
    for c in ['a', '\'', '"', '\\', '\n', '\t', '\r', '文', '\0'] {
        let program = Program { expression: Expression::Literal(Literal::Char(c)) };
        assert_eq!(parse_from_str(&program.to_string()).unwrap(), program);
    }
    for s in ["", "abc", "a'b\"c\\d\n", "你好"] {
        let program = Program { expression: Expression::Literal(Literal::String(s.to_owned())) };
        assert_eq!(parse_from_str(&program.to_string()).unwrap(), program);
    }
}

#[test]
fn test_parse_errors() {
    assert!(matches!(parse_from_str("'a' 'b'"), Err(AnreError::MessageWithRange(_, _))));
    assert!(matches!(parse_from_str("('a'"), Err(AnreError::UnexpectedEndOfDocument(_))));
    assert!(parse_from_str("unknown_function('a')").is_err());
}

fn program_text(anre: &str) -> String {
    parse_from_str(anre).unwrap().to_string()
}

#[test]
fn test_method_call_is_function_call() {
    assert_eq!(program_text("'a'.repeat(3)"), program_text("repeat('a', 3)"));
    assert_eq!(program_text("'a'.is_before(\"bc\")"), program_text("is_before('a', \"bc\")"));
    assert_eq!(
        program_text("'a'.repeat(3).optional()"),
        program_text("optional(repeat('a', 3))")
    );
    assert_eq!(program_text("'a'.optional()"), "optional('a')");
}

#[test]
fn test_notation_is_function_call() {
    assert_eq!(program_text("'a'?"), program_text("optional('a')"));
    assert_eq!(program_text("'a'+"), program_text("one_or_more('a')"));
    assert_eq!(program_text("'a'*"), program_text("zero_or_more('a')"));
    assert_eq!(program_text("'a'??"), program_text("optional_lazy('a')"));
    assert_eq!(program_text("'a'+?"), program_text("one_or_more_lazy('a')"));
    assert_eq!(program_text("'a'*?"), program_text("zero_or_more_lazy('a')"));
}

#[test]
fn test_repetition_is_function_call() {
    assert_eq!(program_text("'a'{3}"), program_text("repeat('a', 3)"));
    assert_eq!(program_text("'a'{3..3}"), program_text("repeat('a', 3)"));
    assert_eq!(program_text("'a'{2..}"), program_text("repeat_from('a', 2)"));
    assert_eq!(program_text("'a'{2..}?"), program_text("repeat_from_lazy('a', 2)"));
    assert_eq!(program_text("'a'{2..4}"), program_text("repeat_range('a', 2, 4)"));
    assert_eq!(program_text("'a'{2..4}?"), program_text("repeat_range_lazy('a', 2, 4)"));
    assert!(parse_from_str("'a'{3}?").is_err());
}

#[test]
fn test_single_item_groups_collapse() {
    assert_eq!(program_text("(('a'))"), "'a'");
    assert_eq!(program_text("((('a', 'b')))"), "('a', 'b')");
    assert_eq!(program_text("(('a').optional(), ('b' || ('c')))"), "(optional('a'), 'b' || 'c')");
    assert_eq!(parse_regex("(?:a)").unwrap().to_string(), "'a'");
    assert_eq!(parse_regex("(?:(?:ab))+").unwrap().to_string(), "one_or_more(\"ab\")");
}

#[test]
fn test_nested_charset_is_flattened() {
    assert_eq!(debug_text("[['a'..'z'], '_']"), debug_text("['a'..'z', '_']"));
    assert_eq!(
        debug_text("!['0', ['a'..'z', 'A'..'Z'], ['+', '-']]"),
        debug_text("!['0', 'a'..'z', 'A'..'Z', '+', '-']")
    );
    assert_eq!(debug_text("[[char_digit], 'x']"), debug_text("[char_digit, 'x']"));
}

#[test]
fn test_single_group_compiles_as_its_item() {
    assert_eq!(debug_text("('a')"), debug_text("'a'"));
    assert_eq!(debug_text("((('a', 'b')))"), debug_text("('a', 'b')"));
}

#[test]
fn test_quantifier_equivalences() {
    assert_eq!(debug_text("'a'{1..}"), debug_text("'a'+"));
    assert_eq!(debug_text("'a'{1..}?"), debug_text("'a'+?"));
    assert_eq!(debug_text("'a'{0..}"), debug_text("'a'*"));
    assert_eq!(debug_text("'a'{0..}?"), debug_text("'a'*?"));
    assert_eq!(debug_text("'a'{1}"), debug_text("'a'"));
    assert_eq!(debug_text("'a'{3..3}"), debug_text("'a'{3}"));
    assert_eq!(debug_text("'a'{1..1}"), debug_text("'a'"));
    assert_eq!(debug_text("'a'{0..1}"), debug_text("'a'?"));
    assert_eq!(debug_text("'a'{0..1}?"), debug_text("'a'??"));
    assert_eq!(debug_text("'a'*"), debug_text("('a'+)?"));
    assert_eq!(debug_text("'a'*?"), debug_text("('a'+?)??"));
}

#[test]
fn test_compiled_maps_are_well_formed() {
    for anre in [
        "'a'",
        "('a' as x, 'b'.is_before(\"c\"), x, ^1)",
        "'z'.is_after(\"xy\").one_or_more()",
        "[char_word, '-']{2..5}? || is_start()",
    ] {
        let map = compile_from_anre(anre).unwrap();
        assert!(is_closed(&map));
        assert!(map.capture_groups[0].name.is_none());
        let main = &map.routes[MAIN_ROUTE_INDEX];
        assert!(main.entry_node_index < main.nodes.len());
        assert!(main.exit_node_index < main.nodes.len());
    }
}

#[test]
fn test_compile_errors() {
    let out_of_range = compile_from_anre("(#'a', ^2)");
    match out_of_range {
        Err(AnreError::SyntaxIncorrect(message)) => assert_eq!(
            message,
            "The group index (2) of back-reference is out of range, the max index is: 1."
        ),
        _ => panic!("expected an error"),
    }
    match compile_from_anre("('a' as x, y)") {
        Err(AnreError::SyntaxIncorrect(message)) => {
            assert_eq!(message, "Cannot find the capture group with name: \"y\".")
        }
        _ => panic!("expected an error"),
    }
    match compile_from_anre("[char_not_digit]") {
        Err(AnreError::SyntaxIncorrect(message)) => assert_eq!(
            message,
            "Can not append negative preset charset \"char_not_digit\" into charset."
        ),
        _ => panic!("expected an error"),
    }
    assert!(matches!(
        compile_from_anre("'a'.repeat_range(5, 3)"),
        Err(AnreError::SyntaxIncorrect(_))
    ));
    assert!(matches!(
        compile_from_anre("'a'.is_after('b'+)"),
        Err(AnreError::SyntaxIncorrect(_))
    ));
}

#[test]
fn test_compile_from_ast() {
    let program = Program {
        expression: Expression::FunctionCall(Box::new(FunctionCall {
            name: FunctionName::Repeat,
            args: vec![
                FunctionArgument::Expression(Expression::Literal(Literal::Char('a'))),
                FunctionArgument::Number(0),
            ],
        })),
    };
    let map = compile(&program).unwrap();
    assert_eq!(
        map.get_debug_text(),
        "\
- 0
  -> 1, Jump
- 1
  -> 3, Capture end {0}
> 2
  -> 0, Capture start {0}
< 3
# {0}"
    );
}

#[test]
fn test_fixed_start_is_recorded() {
    let map = compile_from_anre("(#(is_start(), 'a'), 'b')").unwrap();
    assert!(map.routes[MAIN_ROUTE_INDEX].is_fixed_matching_begin_point);
    let map = compile_from_anre("('b', is_start())").unwrap();
    assert!(!map.routes[MAIN_ROUTE_INDEX].is_fixed_matching_begin_point);
}

#[test]
fn test_look_behind_pattern_is_zero_width() {
    let program = parse_from_str("'a'.is_after(\"xyz\")").unwrap();
    assert_eq!(calculate_match_length(&program.expression), MatchLength::Fixed(1));
    let program = parse_from_str("\"ab\".is_not_after(char_digit+)").unwrap();
    assert_eq!(calculate_match_length(&program.expression), MatchLength::Fixed(2));
    assert!(compile_from_anre("'b'.is_after('a'.is_after(\"xyz\"))").is_ok());
}

#[test]
fn test_empty_group_matches_nothing() {
    let program = parse_from_str("()").unwrap();
    assert_eq!(calculate_match_length(&program.expression), MatchLength::Fixed(0));
    let program = parse_from_str("('a', (), 'b')").unwrap();
    assert_eq!(calculate_match_length(&program.expression), MatchLength::Fixed(2));
    assert!(compile_from_anre("'a'.is_after(())").is_ok());
}

#[test]
fn test_reversed_char_range_is_refused() {
    assert!(matches!(compile_from_anre("['9'..'0']"), Err(AnreError::SyntaxIncorrect(_))));
    assert!(matches!(compile_from_anre("!['a', 'z'..'b']"), Err(AnreError::SyntaxIncorrect(_))));
    assert!(matches!(
        regex_anre::compiler::compile_from_regex("[9-0]"),
        Err(AnreError::SyntaxIncorrect(_))
    ));
    assert!(compile_from_anre("['a'..'a']").is_ok());
    assert!(regex_anre::compiler::compile_from_regex("[0-9]").is_ok());
}

#[test]
fn test_refused_calls() {
    assert!(matches!(compile_from_anre("'a'{5..3}"), Err(AnreError::SyntaxIncorrect(_))));
    assert!(matches!(compile_from_anre("'a'.is_before()"), Err(AnreError::SyntaxIncorrect(_))));
    assert!(matches!(compile_from_anre("'a'.is_after()"), Err(AnreError::SyntaxIncorrect(_))));
    assert!(matches!(compile_from_anre("(^1, #'a')"), Err(AnreError::SyntaxIncorrect(_))));
    assert!(matches!(compile_from_anre("(foo, 'a' as foo)"), Err(AnreError::SyntaxIncorrect(_))));
}

#[test]
fn test_group_length_is_sum() {
    let program = parse_from_str("('a', \"bc\", ('d', is_start()), char_digit.repeat(2))").unwrap();
    assert_eq!(calculate_match_length(&program.expression), MatchLength::Fixed(6));
    let program = parse_from_str("('a', 'b'+, 'c')").unwrap();
    assert_eq!(calculate_match_length(&program.expression), MatchLength::Variable);
}

#[test]
fn test_checked_compile() {
    assert_eq!(
        checked_compile_from_anre("'a'.one_or_more()").unwrap().unwrap().get_debug_text(),
        debug_text("'a'+")
    );
    assert!(checked_compile_from_anre("repeat('a')").is_none());
    assert!(matches!(checked_compile_from_anre("('a'"), Some(Err(AnreError::UnexpectedEndOfDocument(_)))));
    assert!(matches!(checked_compile_from_anre("'a'{5..3}"), Some(Err(AnreError::SyntaxIncorrect(_)))));
    assert!(checked_compile_from_regex("a+").unwrap().is_ok());
    assert!(matches!(checked_compile_from_regex("[9-0]"), Some(Err(AnreError::SyntaxIncorrect(_)))));
    assert!(matches!(checked_compile_from_regex("(a"), Some(Err(AnreError::UnexpectedEndOfDocument(_)))));
}

#[test]
fn test_match_length() {
    let program = parse_from_str("(\"ab文\", 'c'.repeat(3), 'd' || 'e', is_end())").unwrap();
    assert_eq!(calculate_match_length(&program.expression), MatchLength::Fixed(7));
    let program = parse_from_str("('a' || \"bc\")").unwrap();
    assert_eq!(calculate_match_length(&program.expression), MatchLength::Variable);
    assert_eq!(MatchLength::Fixed(2).add(MatchLength::Fixed(3)), MatchLength::Fixed(5));
    assert_eq!(MatchLength::Fixed(2).add(MatchLength::Variable), MatchLength::Variable);
    assert_eq!(MatchLength::Fixed(2).mul(4), MatchLength::Fixed(8));
    assert_eq!(MatchLength::Fixed(2).bitor(MatchLength::Fixed(2)), MatchLength::Fixed(2));
    assert_eq!(MatchLength::Fixed(2).bitor(MatchLength::Fixed(3)), MatchLength::Variable);
}

#[test]
fn test_error_text() {
    assert_eq!(AnreError::Message("m".to_owned()).to_string(), "m");
    assert_eq!(
        AnreError::UnexpectedEndOfDocument("d".to_owned()).to_string(),
        "Unexpected end of document.\nd"
    );
    assert_eq!(
        AnreError::MessageWithPosition("d".to_owned(), Position { index: 5, line: 1, column: 2 })
            .to_string(),
        "Error at line: 2 column: 3\nd"
    );
    assert_eq!(
        AnreError::MessageWithRange(
            "d".to_owned(),
            Range {
                start: Position { index: 0, line: 0, column: 0 },
                end_inclusive: Position { index: 9, line: 2, column: 4 },
            }
        )
        .to_string(),
        "Error from line: 1 column: 1, to line: 3 column: 5\nd"
    );
}

#[test]
fn test_debug_text_of_special_characters() {
    assert_eq!(
        debug_text(r#"('\'', "a\"b")"#),
        "\
- 0
  -> 1, Char '\\''
- 1
  -> 2, Jump
- 2
  -> 3, String \"a\\\"b\"
- 3
  -> 5, Capture end {0}
> 4
  -> 0, Capture start {0}
< 5
# {0}"
    );
}

#[test]
fn test_check_program() {
    for anre in ["('a' as x, x)", "'a'.is_after(\"bc\")", "'a'{2..3}", "is_start()", "'a'.is_after('b'+)"] {
        assert!(regex_anre::compile_check::check_program(&parse_from_str(anre).unwrap()));
    }
    for anre in [
        "repeat('a')",
        "repeat_range('a', 2)",
        "optional()",
        "'a'.is_after(\"ab\".repeat(18446744073709551615))",
    ] {
        let program = parse_from_str(anre).unwrap();
        assert!(!regex_anre::compile_check::check_program(&program));
    }
    let program = parse_from_str("('x', repeat('a'))").unwrap();
    assert!(!regex_anre::compile_check::check_program(&program));
}

#[test]
fn test_regex_lex_tokens() {
    let tokens: Vec<RegexToken> = lex_regex_from_str(r"[^a-c\d]x{2,}?(?<n>\k<n>)\1\B")
        .unwrap()
        .into_iter()
        .map(|t| t.token)
        .collect();
    assert_eq!(
        tokens,
        vec![
            RegexToken::CharSetStartNegative,
            RegexToken::CharRange('a', 'c'),
            RegexToken::PresetCharSet('d'),
            RegexToken::CharSetEnd,
            RegexToken::Char('x'),
            RegexToken::Repetition(Repetition::RepeatFrom(2), true),
            RegexToken::NamedCaptureGroupStart("n".to_owned()),
            RegexToken::BackReferenceName("n".to_owned()),
            RegexToken::GroupEnd,
            RegexToken::BackReferenceNumber(1),
            RegexToken::BoundaryAssertion(true),
        ]
    );
}

#[test]
fn test_regex_lexed_spans_in_order() {
    let text = r"(?<n>[a-c]\d{2,3})|x+?";
    let tokens = lex_regex_from_str(text).unwrap();
    assert!(tokens.last().unwrap().range.end_inclusive.index < text.chars().count());
    for pair in tokens.windows(2) {
        assert!(pair[0].range.start.index <= pair[0].range.end_inclusive.index);
        assert!(pair[0].range.end_inclusive.index < pair[1].range.start.index);
    }
}

#[test]
fn test_regex_lazy_fixed_repetition_is_plain() {
    assert_eq!(
        regex_anre::compiler::compile_from_regex("a{2}?").unwrap().get_debug_text(),
        regex_anre::compiler::compile_from_regex("a{2}").unwrap().get_debug_text()
    );
}

#[test]
fn test_regex_errors() {
    assert!(matches!(parse_regex("[abc"), Err(AnreError::UnexpectedEndOfDocument(_))));
    assert!(matches!(parse_regex("a{2"), Err(AnreError::UnexpectedEndOfDocument(_))));
    assert!(matches!(parse_regex("a{x}"), Err(AnreError::MessageWithPosition(_, _))));
    assert!(matches!(parse_regex("(?x)"), Err(AnreError::MessageWithPosition(_, _))));
    assert!(matches!(parse_regex("(ab"), Err(AnreError::UnexpectedEndOfDocument(_))));
    assert!(matches!(parse_regex("ab)"), Err(AnreError::MessageWithRange(_, _))));
    assert!(matches!(parse_regex("*a"), Err(AnreError::MessageWithRange(_, _))));
    assert!(matches!(parse_regex("(?=a)"), Err(AnreError::MessageWithRange(_, _))));
    assert!(matches!(parse_regex("a(?<=b)"), Err(AnreError::UnexpectedEndOfDocument(_))));
}

#[test]
fn test_regex_programs() {
    assert_eq!(parse_regex("abc").unwrap().to_string(), "\"abc\"");
    assert_eq!(parse_regex("ab+c").unwrap().to_string(), "('a', one_or_more('b'), 'c')");
    assert_eq!(parse_regex("a|").unwrap().to_string(), "'a' || ()");
    assert_eq!(
        parse_regex(r"(?<y>\d{4})-\k<y>").unwrap().to_string(),
        "(repeat(char_digit, 4) as y, '-', y)"
    );
    assert_eq!(
        parse_regex("[^a-z_]{1,3}?").unwrap().to_string(),
        "repeat_range_lazy(!['a'..'z', '_'], 1, 3)"
    );
    assert_eq!(
        compile_from_anre("\"abc\".is_before('d')").unwrap().get_debug_text(),
        regex_anre::compiler::compile_from_regex("abc(?=d)").unwrap().get_debug_text()
    );
}
