use vstd::prelude::*;

use crate::anre::token::{Token, TokenWithRange};
use crate::error::{AnreError, ErrorView};
use crate::peekable_iter::PeekableIter;
use crate::range::Range;

verus! {

/// A macro definition `define name (body)`: the name and the tokens that
/// replace it.
#[derive(Debug, PartialEq)]
pub struct Definition {
    pub name: String,
    pub tokens: Vec<TokenWithRange>,
}

/// A definition as a name (its characters) and a body.
pub open spec fn definition_view(definition: Definition) -> (Seq<char>, Seq<TokenWithRange>) {
    (definition.name@, definition.tokens@)
}

/// The definitions as names and bodies.
pub open spec fn definitions_view(definitions: Seq<Definition>) -> Seq<
    (Seq<char>, Seq<TokenWithRange>),
> {
    definitions.map_values(|d: Definition| definition_view(d))
}

/// The result of extraction with its text and definitions taken by view.
pub open spec fn extraction_view(
    result: Result<(Vec<TokenWithRange>, Vec<Definition>), AnreError>,
) -> Result<(Seq<TokenWithRange>, Seq<(Seq<char>, Seq<TokenWithRange>)>), ErrorView> {
    match result {
        Ok((program, definitions)) => Ok((program@, definitions_view(definitions@))),
        Err(e) => Err(e@),
    }
}

/// The token is the keyword `define`.
pub open spec fn is_define_keyword(token: Token) -> bool {
    token matches Token::Keyword(k) && k@ == "define"@
}

/// The index of the first `define` keyword.
pub open spec fn spec_first_define(tokens: Seq<TokenWithRange>) -> Option<int> {
    if exists|i: int| 0 <= i < tokens.len() && is_define_keyword(#[trigger] tokens[i].token) {
        Some(
            choose|i: int|
                0 <= i < tokens.len() && is_define_keyword(#[trigger] tokens[i].token) && forall|
                    j: int,
                | 0 <= j < i ==> !is_define_keyword(#[trigger] tokens[j].token),
        )
    } else {
        None
    }
}

/// What the search for the `)` that closes a definition finds.
pub enum CloseSearch {
    /// The index of the closing `)`.
    Found(int),
    /// The index of a `)` met before any `(`.
    Unmatched(int),
    /// The tokens ended first.
    NotFound,
}

/// Searches from `index` for the `)` that brings the parenthesis depth from 1
/// to 0, starting at depth `depth`.
pub open spec fn spec_find_close(tokens: Seq<TokenWithRange>, index: int, depth: nat) -> CloseSearch
    decreases tokens.len() - index,
{
    if index < 0 || index >= tokens.len() {
        CloseSearch::NotFound
    } else {
        match tokens[index].token {
            Token::ParenthesisOpen => spec_find_close(tokens, index + 1, depth + 1),
            Token::ParenthesisClose => if depth == 0 {
                CloseSearch::Unmatched(index)
            } else if depth == 1 {
                CloseSearch::Found(index)
            } else {
                spec_find_close(tokens, index + 1, (depth - 1) as nat)
            },
            _ => spec_find_close(tokens, index + 1, depth),
        }
    }
}

/// The definition read from a statement `define name body...`, or the error.
pub open spec fn spec_read_definition(statement: Seq<TokenWithRange>) -> Result<
    (Seq<char>, Seq<TokenWithRange>),
    ErrorView,
> {
    if statement.len() < 2 {
        Err(ErrorView::UnexpectedEndOfDocument("Expect an identifier."@))
    } else {
        match statement[1].token {
            Token::Identifier(name) => Ok((name@, statement.subrange(2, statement.len() as int))),
            _ => Err(ErrorView::MessageWithPosition("Expect an identifier."@, statement[1].range.start)),
        }
    }
}

/// Takes the definition statements out of the tokens, first to last: returns
/// the program tokens and the definitions after `found`, or the error.
pub open spec fn spec_extract_definitions(
    tokens: Seq<TokenWithRange>,
    found: Seq<(Seq<char>, Seq<TokenWithRange>)>,
) -> Result<(Seq<TokenWithRange>, Seq<(Seq<char>, Seq<TokenWithRange>)>), ErrorView>
    decreases tokens.len(),
{
    match spec_first_define(tokens) {
        None => Ok((tokens, found)),
        Some(start) => match spec_find_close(tokens, start + 1, 0) {
            CloseSearch::Found(end) => {
                if 0 <= start < end < tokens.len() {
                    match spec_read_definition(tokens.subrange(start, end + 1)) {
                        Ok(definition) => spec_extract_definitions(
                            tokens.subrange(0, start) + tokens.subrange(end + 1, tokens.len() as int),
                            found.push(definition),
                        ),
                        Err(e) => Err(e),
                    }
                } else {
                    Err(ErrorView::UnexpectedEndOfDocument("Incomplete definition statement."@))
                }
            },
            CloseSearch::Unmatched(index) => Err(
                ErrorView::MessageWithRange(
                    "Unexpected ')' without matching '('."@,
                    tokens[index].range,
                ),
            ),
            CloseSearch::NotFound => Err(
                ErrorView::UnexpectedEndOfDocument("Incomplete definition statement."@),
            ),
        },
    }
}

/// The tokens with every identifier `name` replaced by `replacement`.
pub open spec fn spec_replace(
    tokens: Seq<TokenWithRange>,
    name: Seq<char>,
    replacement: Seq<TokenWithRange>,
) -> Seq<TokenWithRange>
    decreases tokens.len(),
{
    if tokens.len() == 0 {
        seq![]
    } else {
        let last = tokens.last();
        spec_replace(tokens.drop_last(), name, replacement) + if last.token matches Token::Identifier(
            id,
        ) && id@ == name {
            replacement
        } else {
            seq![last]
        }
    }
}

/// Expands the definitions in turn: each one is replaced in the definitions
/// after it and in the program.
pub open spec fn spec_replace_all(
    program: Seq<TokenWithRange>,
    definitions: Seq<(Seq<char>, Seq<TokenWithRange>)>,
) -> Seq<TokenWithRange>
    decreases definitions.len(),
{
    if definitions.len() == 0 {
        program
    } else {
        let (name, body) = definitions[0];
        spec_replace_all(
            spec_replace(program, name, body),
            definitions.drop_first().map_values(
                |d: (Seq<char>, Seq<TokenWithRange>)| (d.0, spec_replace(d.1, name, body)),
            ),
        )
    }
}

/// What macro expansion gives for the tokens of a program.
pub open spec fn spec_expand(tokens: Seq<TokenWithRange>) -> Result<Seq<TokenWithRange>, ErrorView> {
    match spec_extract_definitions(tokens, seq![]) {
        Ok((program, definitions)) => Ok(spec_replace_all(program, definitions)),
        Err(e) => Err(e),
    }
}

/// Expands macros: takes out the definition statements `define name (body)`
/// and replaces each use of a defined name by its body, a definition being
/// expanded in the definitions after it as well.
pub fn expand(tokens: Vec<TokenWithRange>) -> (result: Result<Vec<TokenWithRange>, AnreError>)
    ensures
        match result {
            Ok(expanded) => spec_expand(tokens@) == Ok::<_, ErrorView>(expanded@),
            Err(e) => spec_expand(tokens@) == Err::<Seq<TokenWithRange>, _>(e@),
        },
{
    let (program_tokens, definitions) = match extract_definitions(tokens) {
        Ok(extracted) => extracted,
        Err(e) => return Err(e),
    };
    let expand_tokens = replace_identifiers(program_tokens, definitions);
    Ok(expand_tokens)
}

fn find_define_keyword(tokens: &Vec<TokenWithRange>) -> (index: Option<usize>)
    ensures
        match index {
            Some(i) => spec_first_define(tokens@) == Some(i as int),
            None => spec_first_define(tokens@) is None,
        },
        index matches Some(i) ==> i < tokens@.len(),
{
    let mut i: usize = 0;
    while i < tokens.len()
        invariant
            i <= tokens@.len(),
            forall|j: int| 0 <= j < i ==> !is_define_keyword(#[trigger] tokens@[j].token),
        decreases tokens@.len() - i,
    {
        if let Token::Keyword(keyword) = &tokens[i].token {
            if *keyword == "define".to_owned() {
                assert(is_define_keyword(tokens@[i as int].token));
                proof {
                    let c = choose|c: int|
                        0 <= c < tokens@.len() && is_define_keyword(#[trigger] tokens@[c].token)
                            && forall|j: int|
                            0 <= j < c ==> !is_define_keyword(#[trigger] tokens@[j].token);
                    assert(c == i);
                }
                return Some(i);
            }
        }
        i = i + 1;
    }
    None
}

fn find_definition_end(tokens: &Vec<TokenWithRange>, start: usize) -> (search: (u8, usize))
    ensures
        search.0 == 0 ==> spec_find_close(tokens@, start as int, 0) == CloseSearch::Found(
            search.1 as int,
        ) && start <= search.1 < tokens@.len(),
        search.0 == 1 ==> spec_find_close(tokens@, start as int, 0) == CloseSearch::Unmatched(
            search.1 as int,
        ) && start <= search.1 < tokens@.len(),
        search.0 == 2 ==> spec_find_close(tokens@, start as int, 0) == CloseSearch::NotFound,
        search.0 <= 2,
{
    let mut depth: usize = 0;
    let mut idx = start;
    while idx < tokens.len()
        invariant
            start <= idx,
            depth <= idx - start,
            spec_find_close(tokens@, start as int, 0) == spec_find_close(
                tokens@,
                idx as int,
                depth as nat,
            ),
        decreases tokens@.len() - idx,
    {
        match tokens[idx].token {
            Token::ParenthesisOpen => {
                depth = depth + 1;
            },
            Token::ParenthesisClose => {
                if depth == 0 {
                    return (1, idx);
                } else if depth == 1 {
                    return (0, idx);
                } else {
                    depth = depth - 1;
                }
            },
            _ => {},
        }
        idx = idx + 1;
    }
    (2, idx)
}

/// Takes the definition statements out of the token stream.
fn extract_definitions(tokens: Vec<TokenWithRange>) -> (result: Result<
    (Vec<TokenWithRange>, Vec<Definition>),
    AnreError,
>)
    ensures
        extraction_view(result) == spec_extract_definitions(tokens@, seq![]),
{
    let ghost initial = tokens@;
    let mut remaining = tokens;
    let mut definitions: Vec<Definition> = Vec::new();
    assert(definitions_view(definitions@) =~= seq![]);
    loop
        invariant
            initial == tokens@,
            spec_extract_definitions(remaining@, definitions_view(definitions@))
                == spec_extract_definitions(initial, seq![]),
        decreases remaining@.len(),
    {
        let ghost found = definitions_view(definitions@);
        let define_keyword_index = match find_define_keyword(&remaining) {
            Some(i) => i,
            None => {
                return Ok((remaining, definitions));
            },
        };
        let total = remaining.len();
        assert(define_keyword_index < total);
        let search = find_definition_end(&remaining, define_keyword_index + 1);
        if search.0 == 1 {
            return Err(
                AnreError::MessageWithRange(
                    "Unexpected ')' without matching '('.".to_owned(),
                    remaining[search.1].range,
                ),
            );
        } else if search.0 == 2 {
            return Err(
                AnreError::UnexpectedEndOfDocument("Incomplete definition statement.".to_owned()),
            );
        }
        let end_index = search.1;
        let definition_tokens = take_statement(&mut remaining, define_keyword_index, end_index);
        let mut extractor = DefinitionExtractor::new(PeekableIter::new(definition_tokens));
        let definition = match extractor.extract() {
            Ok(definition) => definition,
            Err(e) => {
                return Err(e);
            },
        };
        let ghost new_entry = definition_view(definition);
        definitions.push(definition);
        assert(definitions_view(definitions@) =~= found.push(
            new_entry,
        ));
    }
}

/// Removes the tokens from `start` to `end` inclusive and returns them.
fn take_statement(tokens: &mut Vec<TokenWithRange>, start: usize, end: usize) -> (statement: Vec<
    TokenWithRange,
>)
    requires
        start <= end < old(tokens)@.len(),
    ensures
        statement@ == old(tokens)@.subrange(start as int, end + 1),
        final(tokens)@ == old(tokens)@.subrange(0, start as int) + old(tokens)@.subrange(
            end + 1,
            old(tokens)@.len() as int,
        ),
{
    let ghost before = tokens@;
    let total = tokens.len();
    let mut statement: Vec<TokenWithRange> = Vec::new();
    let mut k: usize = start;
    while k <= end
        invariant
            start <= k <= end + 1,
            end < before.len(),
            before.len() == total,
            tokens@ == before.subrange(0, start as int) + before.subrange(
                k as int,
                before.len() as int,
            ),
            statement@ == before.subrange(start as int, k as int),
        decreases end + 1 - k,
    {
        let token = tokens.remove(start);
        statement.push(token);
        k = k + 1;
        assert(tokens@ =~= before.subrange(0, start as int) + before.subrange(
            k as int,
            before.len() as int,
        ));
        assert(statement@ =~= before.subrange(start as int, k as int));
    }
    statement
}

/// Replaces the defined names in the definitions after each definition and in
/// the program tokens.
fn replace_identifiers(
    program_tokens: Vec<TokenWithRange>,
    definitions: Vec<Definition>,
) -> (result: Vec<TokenWithRange>)
    ensures
        result@ == spec_replace_all(
            program_tokens@,
            definitions_view(definitions@),
        ),
{
    let mut program_tokens = program_tokens;
    let mut definitions = definitions;
    let ghost goal = spec_replace_all(
        program_tokens@,
        definitions_view(definitions@),
    );
    let mut i: usize = 0;
    assert(definitions@.skip(0) =~= definitions@);
    while i < definitions.len()
        invariant
            i <= definitions@.len(),
            spec_replace_all(
                program_tokens@,
                definitions_view(definitions@.skip(i as int)),
            ) == goal,
        decreases definitions@.len() - i,
    {
        let ghost rest_before = definitions_view(definitions@.skip(i as int));
        let ghost defs_before = definitions@;
        let ghost name = definitions@[i as int].name@;
        let ghost body = definitions@[i as int].tokens@;
        let current_name = definitions[i].name.clone();
        let replacement = clone_tokens(&definitions[i].tokens);
        let mut j: usize = i + 1;
        while j < definitions.len()
            invariant
                i < j <= definitions@.len(),
                definitions@.len() == defs_before.len(),
                definitions@[i as int] == defs_before[i as int],
                forall|k: int| 0 <= k <= i ==> definitions@[k] == defs_before[k],
                forall|k: int|
                    i < k < j ==> #[trigger] definition_view(definitions@[k]) == (
                        defs_before[k].name@,
                        spec_replace(defs_before[k].tokens@, name, body),
                    ),
                forall|k: int| j <= k < definitions@.len() ==> definitions@[k] == defs_before[k],
                name == defs_before[i as int].name@,
                body == defs_before[i as int].tokens@,
                current_name@ == name,
                replacement@ == body,
            decreases definitions@.len() - j,
        {
            find_and_replace_identifiers(
                &mut definitions[j].tokens,
                current_name.as_str(),
                replacement.as_slice(),
            );
            j = j + 1;
        }
        find_and_replace_identifiers(
            &mut program_tokens,
            current_name.as_str(),
            replacement.as_slice(),
        );
        i = i + 1;
        proof {
            let next = definitions_view(definitions@.skip(i as int));
            assert(next =~= rest_before.drop_first().map_values(
                |d: (Seq<char>, Seq<TokenWithRange>)| (d.0, spec_replace(d.1, name, body)),
            ));
        }
    }
    assert(definitions_view(definitions@.skip(i as int)) =~= seq![]);
    program_tokens
}

/// A copy of a token list.
fn clone_tokens(tokens: &Vec<TokenWithRange>) -> (copy: Vec<TokenWithRange>)
    ensures
        copy@ == tokens@,
{
    let mut copy: Vec<TokenWithRange> = Vec::new();
    let mut i: usize = 0;
    while i < tokens.len()
        invariant
            i <= tokens@.len(),
            copy@ == tokens@.take(i as int),
        decreases tokens@.len() - i,
    {
        copy.push(tokens[i].clone());
        i = i + 1;
        assert(copy@ =~= tokens@.take(i as int));
    }
    assert(copy@ =~= tokens@);
    copy
}

/// Replaces each identifier `find_id` in the tokens with the tokens `replace_with`.
fn find_and_replace_identifiers(
    source_tokens: &mut Vec<TokenWithRange>,
    find_id: &str,
    replace_with: &[TokenWithRange],
)
    ensures
        final(source_tokens)@ == spec_replace(old(source_tokens)@, find_id@, replace_with@),
{
    let ghost initial = source_tokens@;
    let mut result: Vec<TokenWithRange> = Vec::new();
    let mut idx: usize = 0;
    while idx < source_tokens.len()
        invariant
            source_tokens@ == initial,
            idx <= initial.len(),
            result@ == spec_replace(initial.take(idx as int), find_id@, replace_with@),
        decreases initial.len() - idx,
    {
        let ghost before = result@;
        let matched = match &source_tokens[idx].token {
            Token::Identifier(id) => *id == find_id.to_owned(),
            _ => false,
        };
        if matched {
            let mut k: usize = 0;
            while k < replace_with.len()
                invariant
                    k <= replace_with@.len(),
                    result@ == before + replace_with@.take(k as int),
                decreases replace_with@.len() - k,
            {
                result.push(replace_with[k].clone());
                k = k + 1;
                assert(result@ =~= before + replace_with@.take(k as int));
            }
            assert(replace_with@.take(k as int) =~= replace_with@);
        } else {
            result.push(source_tokens[idx].clone());
        }
        assert(initial.take(idx + 1).drop_last() =~= initial.take(idx as int));
        idx = idx + 1;
    }
    assert(initial.take(idx as int) =~= initial);
    *source_tokens = result;
}

/// Reads one definition statement `define name body...`.
pub struct DefinitionExtractor {
    upstream: PeekableIter,
    /// The range of the token read last.
    last_range: Range,
}

impl DefinitionExtractor {
    /// The tokens not read yet.
    pub closed spec fn remaining(&self) -> Seq<TokenWithRange> {
        self.upstream.remaining()
    }

    fn new(upstream: PeekableIter) -> (extractor: Self)
        ensures
            extractor.remaining() == upstream.remaining(),
    {
        Self { upstream, last_range: Range::default() }
    }

    fn next_token(&mut self) -> (token: Option<Token>)
        ensures
            old(self).remaining().len() == 0 ==> token is None && final(self).remaining()
                == old(self).remaining(),
            old(self).remaining().len() > 0 ==> token == Some(old(self).remaining()[0].token)
                && final(self).remaining() == old(self).remaining().drop_first()
                && final(self).last_range == old(self).remaining()[0].range,
    {
        match self.next_token_with_range() {
            Some(TokenWithRange { token, range }) => {
                self.last_range = range;
                Some(token)
            },
            None => None,
        }
    }

    fn next_token_with_range(&mut self) -> (token: Option<TokenWithRange>)
        ensures
            old(self).remaining().len() == 0 ==> token is None && final(self).remaining()
                == old(self).remaining(),
            old(self).remaining().len() > 0 ==> token == Some(old(self).remaining()[0])
                && final(self).remaining() == old(self).remaining().drop_first()
                && final(self).last_range == old(self).remaining()[0].range,
    {
        match self.upstream.next() {
            Some(token_with_range) => {
                self.last_range = token_with_range.range;
                Some(token_with_range)
            },
            None => None,
        }
    }

    fn peek_token(&self, offset: usize) -> (token: Option<&Token>)
        ensures
            offset < self.remaining().len() ==> token == Some(
                &self.remaining()[offset as int].token,
            ),
            offset >= self.remaining().len() ==> token is None,
    {
        match self.upstream.peek(offset) {
            Some(TokenWithRange { token, .. }) => Some(token),
            None => None,
        }
    }

    fn peek_token_with_range(&self, offset: usize) -> (token: Option<&TokenWithRange>)
        ensures
            offset < self.remaining().len() ==> token == Some(&self.remaining()[offset as int]),
            offset >= self.remaining().len() ==> token is None,
    {
        self.upstream.peek(offset)
    }

    fn peek_range(&self, offset: usize) -> (range: Option<&Range>)
        ensures
            offset < self.remaining().len() ==> range == Some(
                &self.remaining()[offset as int].range,
            ),
            offset >= self.remaining().len() ==> range is None,
    {
        match self.upstream.peek(offset) {
            Some(TokenWithRange { range, .. }) => Some(range),
            None => None,
        }
    }

    /// The token `offset` places ahead is the symbol `expected_token` (a token
    /// without a payload).
    fn peek_token_and_equals(&self, offset: usize, expected_token: &Token) -> (equals: bool)
        requires
            is_symbol(*expected_token),
        ensures
            equals == (offset < self.remaining().len() && self.remaining()[offset as int].token
                == *expected_token),
    {
        match self.peek_token(offset) {
            Some(token) => same_symbol(token, expected_token),
            None => false,
        }
    }

    fn consume_identifier(&mut self) -> (result: Result<String, AnreError>)
        ensures
            old(self).remaining().len() == 0 ==> (result matches Err(e) && e@
                == ErrorView::UnexpectedEndOfDocument("Expect an identifier."@)),
            old(self).remaining().len() > 0 ==> {
                &&& final(self).remaining() == old(self).remaining().drop_first()
                &&& match old(self).remaining()[0].token {
                    Token::Identifier(id) => result == Ok::<String, AnreError>(id),
                    _ => (result matches Err(e) && e@ == ErrorView::MessageWithPosition(
                        "Expect an identifier."@,
                        old(self).remaining()[0].range.start,
                    )),
                }
            },
    {
        match self.next_token() {
            Some(Token::Identifier(id)) => Ok(id),
            Some(_) => Err(
                AnreError::MessageWithPosition(
                    "Expect an identifier.".to_owned(),
                    self.last_range.start,
                ),
            ),
            None => Err(AnreError::UnexpectedEndOfDocument("Expect an identifier.".to_owned())),
        }
    }

    /// Reads the statement: the `define` keyword, the name, and the tokens of
    /// the body.
    fn extract(&mut self) -> (result: Result<Definition, AnreError>)
        requires
            old(self).remaining().len() > 0,
        ensures
            match result {
                Ok(definition) => spec_read_definition(old(self).remaining()) == Ok::<
                    _,
                    ErrorView,
                >(definition_view(definition)),
                Err(e) => spec_read_definition(old(self).remaining()) == Err::<
                    (Seq<char>, Seq<TokenWithRange>),
                    _,
                >(e@),
            },
    {
        let ghost statement = self.remaining();
        self.next_token();
        let name = match self.consume_identifier() {
            Ok(name) => name,
            Err(e) => {
                return Err(e);
            },
        };
        let tokens: Vec<TokenWithRange> = self.upstream.collect();
        assert(tokens@ =~= statement.subrange(2, statement.len() as int));
        Ok(Definition { name, tokens })
    }
}

/// The token carries no payload.
pub open spec fn is_symbol(token: Token) -> bool {
    !(token is Keyword || token is Identifier || token is Number || token is Char
        || token is String)
}

/// Compares a token with a token that carries no payload.
pub fn same_symbol(token: &Token, symbol: &Token) -> (same: bool)
    requires
        is_symbol(*symbol),
    ensures
        same == (*token == *symbol),
{
    match (token, symbol) {
        (Token::Question, Token::Question) => true,
        (Token::QuestionLazy, Token::QuestionLazy) => true,
        (Token::Plus, Token::Plus) => true,
        (Token::PlusLazy, Token::PlusLazy) => true,
        (Token::Asterisk, Token::Asterisk) => true,
        (Token::AsteriskLazy, Token::AsteriskLazy) => true,
        (Token::BraceOpen, Token::BraceOpen) => true,
        (Token::BraceClose, Token::BraceClose) => true,
        (Token::Exclamation, Token::Exclamation) => true,
        (Token::Range, Token::Range) => true,
        (Token::Hash, Token::Hash) => true,
        (Token::Caret, Token::Caret) => true,
        (Token::Dot, Token::Dot) => true,
        (Token::LogicOr, Token::LogicOr) => true,
        (Token::BracketOpen, Token::BracketOpen) => true,
        (Token::BracketClose, Token::BracketClose) => true,
        (Token::ParenthesisOpen, Token::ParenthesisOpen) => true,
        (Token::ParenthesisClose, Token::ParenthesisClose) => true,
        _ => false,
    }
}


/// Replacing a name that no identifier of the tokens carries changes
/// nothing.
pub proof fn law_replace_absent_name_is_identity(
    tokens: Seq<TokenWithRange>,
    name: Seq<char>,
    replacement: Seq<TokenWithRange>,
)
    requires
        forall|i: int|
            0 <= i < tokens.len() ==> !(#[trigger] tokens[i].token matches Token::Identifier(id)
                && id@ == name),
    ensures
        spec_replace(tokens, name, replacement) == tokens,
    decreases tokens.len(),
{
    if tokens.len() > 0 {
        let init = tokens.drop_last();
        assert forall|i: int| 0 <= i < init.len() implies !(#[trigger] init[i].token matches Token::Identifier(
            id,
        ) && id@ == name) by {
            assert(init[i] == tokens[i]);
        }
        law_replace_absent_name_is_identity(init, name, replacement);
        assert(!(tokens[tokens.len() - 1].token matches Token::Identifier(id) && id@ == name));
        assert(init + seq![tokens.last()] =~= tokens);
    }
}

/// Tokens without a `define` statement expand to themselves.
pub proof fn law_expand_without_definitions_is_identity(tokens: Seq<TokenWithRange>)
    requires
        forall|i: int| 0 <= i < tokens.len() ==> !is_define_keyword(#[trigger] tokens[i].token),
    ensures
        spec_expand(tokens) == Ok::<Seq<TokenWithRange>, ErrorView>(tokens),
{
    assert(spec_first_define(tokens) is None);
}


/// The tokens end at the `)` that closes their first `(`.
pub open spec fn closes_at_end(tokens: Seq<TokenWithRange>) -> bool {
    spec_find_close(tokens, 0, 0) == CloseSearch::Found(tokens.len() - 1)
}

/// A search result moved by `offset` places.
spec fn shifted(found: CloseSearch, offset: int) -> CloseSearch {
    match found {
        CloseSearch::Found(j) => CloseSearch::Found(j + offset),
        CloseSearch::Unmatched(j) => CloseSearch::Unmatched(j + offset),
        CloseSearch::NotFound => CloseSearch::NotFound,
    }
}

/// Searching in `front + back` from a place in `back` searches `back`.
proof fn lemma_find_close_offset(
    front: Seq<TokenWithRange>,
    back: Seq<TokenWithRange>,
    index: int,
    depth: nat,
)
    requires
        0 <= index,
    ensures
        spec_find_close(front + back, front.len() + index, depth) == shifted(
            spec_find_close(back, index, depth),
            front.len() as int,
        ),
    decreases back.len() - index,
{
    if index < back.len() {
        assert((front + back)[front.len() + index] == back[index]);
        match back[index].token {
            Token::ParenthesisOpen => lemma_find_close_offset(front, back, index + 1, depth + 1),
            Token::ParenthesisClose => if depth > 1 {
                lemma_find_close_offset(front, back, index + 1, (depth - 1) as nat);
            },
            _ => lemma_find_close_offset(front, back, index + 1, depth),
        }
    }
}

/// A `)` found within `front` is found in `front + back` as well.
proof fn lemma_find_close_extend(
    front: Seq<TokenWithRange>,
    back: Seq<TokenWithRange>,
    index: int,
    depth: nat,
)
    requires
        0 <= index,
        spec_find_close(front, index, depth) is Found,
    ensures
        spec_find_close(front + back, index, depth) == spec_find_close(front, index, depth),
    decreases front.len() - index,
{
    if index < front.len() {
        assert((front + back)[index] == front[index]);
        match front[index].token {
            Token::ParenthesisOpen => lemma_find_close_extend(front, back, index + 1, depth + 1),
            Token::ParenthesisClose => if depth > 1 {
                lemma_find_close_extend(front, back, index + 1, (depth - 1) as nat);
            },
            _ => lemma_find_close_extend(front, back, index + 1, depth),
        }
    }
}

/// A definition `define name body` before a program without definitions
/// expands to the program with each use of `name` replaced by `body`, where
/// the body runs to the `)` that closes its first `(`.
pub proof fn law_definition_is_replaced(
    define: TokenWithRange,
    name: TokenWithRange,
    body: Seq<TokenWithRange>,
    program: Seq<TokenWithRange>,
)
    requires
        is_define_keyword(define.token),
        name.token is Identifier,
        closes_at_end(body),
        forall|i: int| 0 <= i < program.len() ==> !is_define_keyword(#[trigger] program[i].token),
    ensures
        spec_expand(seq![define, name] + body + program) == Ok::<Seq<TokenWithRange>, ErrorView>(
            spec_replace(program, name.token->Identifier_0@, body),
        ),
{
    let head = seq![define, name];
    let tokens = head + body + program;
    let end = body.len() as int + 1;
    assert(tokens[0] == define);
    assert(tokens[1] == name);
    let first = spec_first_define(tokens);
    assert(first == Some(0int)) by {
        assert(is_define_keyword(tokens[0].token));
        let c = choose|i: int|
            0 <= i < tokens.len() && is_define_keyword(#[trigger] tokens[i].token) && forall|
                j: int,
            | 0 <= j < i ==> !is_define_keyword(#[trigger] tokens[j].token);
        if c > 0 {
            assert(!is_define_keyword(tokens[0].token));
        }
    }
    assert(body.len() > 0) by {
        assert(spec_find_close(body, 0, 0) is Found);
    }
    lemma_find_close_extend(body, program, 0, 0);
    assert(head + body + program =~= head + (body + program));
    lemma_find_close_offset(head, body + program, 0, 0);
    assert(spec_find_close(tokens, 1, 0) == CloseSearch::Found(end));
    let statement = tokens.subrange(0, end + 1);
    assert(statement =~= head + body);
    assert(statement.subrange(2, statement.len() as int) =~= body);
    let remaining = tokens.subrange(0, 0) + tokens.subrange(end + 1, tokens.len() as int);
    assert(remaining =~= program);
    law_expand_without_definitions_is_identity(program);
    assert(spec_first_define(program) is None);
    let definition = (name.token->Identifier_0@, body);
    assert(seq![].push(definition) =~= seq![definition]);
    assert(spec_extract_definitions(program, seq![definition]) == Ok::<
        (Seq<TokenWithRange>, Seq<(Seq<char>, Seq<TokenWithRange>)>),
        ErrorView,
    >((program, seq![definition])));
    let later = seq![definition].drop_first().map_values(
        |d: (Seq<char>, Seq<TokenWithRange>)| (d.0, spec_replace(d.1, definition.0, definition.1)),
    );
    assert(later =~= seq![]);
    assert(spec_read_definition(statement) == Ok::<(Seq<char>, Seq<TokenWithRange>), ErrorView>(
        definition,
    ));
    assert(spec_extract_definitions(tokens, seq![]) == Ok::<
        (Seq<TokenWithRange>, Seq<(Seq<char>, Seq<TokenWithRange>)>),
        ErrorView,
    >((program, seq![definition])));
    assert(spec_replace_all(spec_replace(program, definition.0, definition.1), later) == spec_replace(
        program,
        definition.0,
        definition.1,
    ));
}
} // verus!
