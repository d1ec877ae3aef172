# regex_anre

A regular expression compiler for ANRE, a language of literals, functions
and groups that reads like code:

```anre
define hex (['0'..'9', 'a'..'f', 'A'..'F'])
('#', hex.repeat(2) as red, hex.repeat(2) as green, hex.repeat(2) as blue)
```

The text is split into tokens (`anre::lexer`), its macros are expanded
(`anre::macro_expander`), the tokens are parsed into a program
(`anre::parser`, `ast`), and the program is compiled into a map of routes,
graphs of nodes joined by transitions (`compiler`, `object_file`).
Traditional regular expressions are read too: `traditional::lexer` and
`traditional::parser` turn them into the same programs, and
`compiler::compile_from_regex` compiles them.
`ast_text` writes a program back as ANRE text and `map_text` lists a compiled
map; `compile_check` tells whether a program can be compiled, and its
`checked_compile_from_anre` and `checked_compile_from_regex` parse, check and
compile a text in one call; the
`utf8_codepoint_reader` reads code points from UTF-8 bytes.

Every function of the library is verified with Verus against a contract
written over spec functions: the lexer against `spec_lex`, macro expansion
against `spec_expand`, the parsers against `spec_parse_program` and `spec_parse_regex`, the compiler
against `spec_compile`. The proof functions named `law_*` state what holds
across them, such as that `exp{1..}` compiles as `exp+`, that a written
string literal reads back as the same string, that `exp.f(args)` parses as
`f(exp, args)` and `exp?` as `optional(exp)` (`anre::equivalence`), or that
parsing never leaves a group of one expression (`anre::collapse`,
`traditional::collapse`).
