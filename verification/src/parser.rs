//! Reading the statements of a Flowscript source from its tokens: a name
//! with its attributes, or a chain of names joined by arrows.
//!
//! ```text
//! statement  := word ('->' word)* attributes? ';'?
//! attributes := '[' (attribute (',' attribute)*)? ']'
//! attribute  := word '=' (word | text)
//! ```

use vstd::prelude::*;
use crate::lexer::{
    after, tokenize, tokens_from, tokens_model, Fault, FaultModel, Token, TokenKind, TokenKindModel,
    TokenModel,
};
use crate::nodes::names_model;

verus! {

/// One statement: its names in order (one for a definition, more for a chain
/// of connections), its attributes where it has a list of them, and the
/// offset of its first character.
#[derive(Debug, Clone, PartialEq, Eq)]
pub struct Statement {
    pub names: Vec<String>,
    pub attributes: Option<Vec<(String, String)>>,
    pub offset: usize,
}

/// The model of [`Statement`]: its texts are sequences of characters.
pub struct StatementModel {
    pub names: Seq<Seq<char>>,
    pub attributes: Option<Seq<(Seq<char>, Seq<char>)>>,
    pub offset: int,
}

pub open spec fn pairs_model(pairs: Seq<(String, String)>) -> Seq<(Seq<char>, Seq<char>)> {
    pairs.map_values(|p: (String, String)| (p.0@, p.1@))
}

pub open spec fn attributes_model(attributes: Option<Vec<(String, String)>>) -> Option<
    Seq<(Seq<char>, Seq<char>)>,
> {
    match attributes {
        Some(pairs) => Some(pairs_model(pairs@)),
        None => None,
    }
}

impl View for Statement {
    type V = StatementModel;

    open spec fn view(&self) -> StatementModel {
        StatementModel {
            names: names_model(self.names@),
            attributes: attributes_model(self.attributes),
            offset: self.offset as int,
        }
    }
}

pub open spec fn statements_model(statements: Seq<Statement>) -> Seq<StatementModel> {
    statements.map_values(|s: Statement| s@)
}

/// The value of the attribute `key`: that of the last pair with this key.
pub open spec fn attribute(pairs: Seq<(Seq<char>, Seq<char>)>, key: Seq<char>) -> Option<Seq<char>>
    decreases pairs.len(),
{
    if pairs.len() == 0 {
        None
    } else if pairs.last().0 == key {
        Some(pairs.last().1)
    } else {
        attribute(pairs.drop_last(), key)
    }
}

pub open spec fn fault(message: Seq<char>, offset: int) -> FaultModel {
    FaultModel { message, offset }
}

pub open spec fn expected_name() -> Seq<char> {
    "Expected a name"@
}

pub open spec fn expected_target() -> Seq<char> {
    "Expected a name after '->'"@
}

pub open spec fn expected_attribute() -> Seq<char> {
    "Expected an attribute of the form name=value"@
}

pub open spec fn expected_separator() -> Seq<char> {
    "Expected ',' or ']' after an attribute"@
}

/// The names that follow arrows from the token `i` on, and the index of the
/// token after them.
pub open spec fn targets_at(t: Seq<TokenModel>, i: int) -> Result<(Seq<Seq<char>>, int), FaultModel>
    decreases t.len() - i,
{
    if 0 <= i < t.len() && t[i].kind is Arrow {
        if i + 1 < t.len() && t[i + 1].kind is Word {
            match targets_at(t, i + 2) {
                Ok((more, end)) => Ok((seq![t[i + 1].kind->Word_0] + more, end)),
                Err(e) => Err(e),
            }
        } else {
            Err(fault(expected_target(), t[i].offset))
        }
    } else {
        Ok((Seq::empty(), i))
    }
}

/// The value that a token gives an attribute, where it can.
pub open spec fn value_of(kind: TokenKindModel) -> Option<Seq<char>> {
    match kind {
        TokenKindModel::Word(v) => Some(v),
        TokenKindModel::Text(v) => Some(v),
        _ => None,
    }
}

/// The attribute that starts at the token `i`: a word, `=`, and a word or a
/// quoted text.
pub open spec fn pair_at(t: Seq<TokenModel>, i: int) -> Option<(Seq<char>, Seq<char>)> {
    if 0 <= i && i + 2 < t.len() && t[i].kind is Word && t[i + 1].kind is Equals && value_of(
        t[i + 2].kind,
    ) is Some {
        Some((t[i].kind->Word_0, value_of(t[i + 2].kind)->Some_0))
    } else {
        None
    }
}

/// The attributes from the token `i` on, up to the closing bracket, and the
/// index of the token after it. `open` is the offset of the opening bracket.
pub open spec fn pairs_at(t: Seq<TokenModel>, i: int, open: int) -> Result<
    (Seq<(Seq<char>, Seq<char>)>, int),
    FaultModel,
>
    decreases t.len() - i,
{
    if !(0 <= i < t.len()) {
        Err(fault(expected_attribute(), open))
    } else {
        match pair_at(t, i) {
            None => Err(fault(expected_attribute(), t[i].offset)),
            Some(pair) => if i + 3 < t.len() && t[i + 3].kind is Close {
                Ok((seq![pair], i + 4))
            } else if i + 3 < t.len() && t[i + 3].kind is Comma {
                match pairs_at(t, i + 4, open) {
                    Ok((more, end)) => Ok((seq![pair] + more, end)),
                    Err(e) => Err(e),
                }
            } else {
                Err(fault(expected_separator(), t[i + 2].offset))
            },
        }
    }
}

/// The attribute list whose opening bracket is the token `i`, and the index
/// of the token after its closing bracket.
pub open spec fn list_at(t: Seq<TokenModel>, i: int) -> Result<
    (Seq<(Seq<char>, Seq<char>)>, int),
    FaultModel,
> {
    if i + 1 < t.len() && t[i + 1].kind is Close {
        Ok((Seq::empty(), i + 2))
    } else {
        pairs_at(t, i + 1, t[i].offset)
    }
}

/// The index after an optional semicolon at the token `i`.
pub open spec fn skip_semicolon(t: Seq<TokenModel>, i: int) -> int {
    if 0 <= i < t.len() && t[i].kind is Semicolon {
        i + 1
    } else {
        i
    }
}

/// The statement that starts at the token `i`, and the index of the token
/// after it.
pub open spec fn statement_at(t: Seq<TokenModel>, i: int) -> Result<(StatementModel, int), FaultModel> {
    if !(t[i].kind is Word) {
        Err(fault(expected_name(), t[i].offset))
    } else {
        match targets_at(t, i + 1) {
            Err(e) => Err(e),
            Ok((more, j)) => {
                let names = seq![t[i].kind->Word_0] + more;
                if 0 <= j < t.len() && t[j].kind is Open {
                    match list_at(t, j) {
                        Err(e) => Err(e),
                        Ok((pairs, k)) => Ok(
                            (
                                StatementModel { names, attributes: Some(pairs), offset: t[i].offset },
                                skip_semicolon(t, k),
                            ),
                        ),
                    }
                } else {
                    Ok(
                        (
                            StatementModel { names, attributes: None, offset: t[i].offset },
                            skip_semicolon(t, j),
                        ),
                    )
                }
            },
        }
    }
}

/// The statements from the token `i` on, or the first fault.
pub open spec fn statements_from(t: Seq<TokenModel>, i: int) -> Result<Seq<StatementModel>, FaultModel>
    decreases t.len() - i,
{
    if !(0 <= i < t.len()) {
        Ok(Seq::empty())
    } else {
        match statement_at(t, i) {
            Err(e) => Err(e),
            Ok((statement, end)) => {
                proof {
                    lemma_statement_at_bounds(t, i);
                }
                after(seq![statement], statements_from(t, end))
            },
        }
    }
}

pub proof fn lemma_targets_at_bounds(t: Seq<TokenModel>, i: int)
    requires
        0 <= i <= t.len(),
    ensures
        targets_at(t, i) matches Ok((_, end)) ==> i <= end <= t.len(),
    decreases t.len() - i,
{
    if i < t.len() && t[i].kind is Arrow && i + 1 < t.len() && t[i + 1].kind is Word {
        lemma_targets_at_bounds(t, i + 2);
    }
}

pub proof fn lemma_pairs_at_bounds(t: Seq<TokenModel>, i: int, open: int)
    requires
        0 <= i,
    ensures
        pairs_at(t, i, open) matches Ok((_, end)) ==> i < end <= t.len(),
    decreases t.len() - i,
{
    if i < t.len() && pair_at(t, i) is Some && i + 3 < t.len() && t[i + 3].kind is Comma {
        lemma_pairs_at_bounds(t, i + 4, open);
    }
}

/// A statement ends after where it starts, within the tokens.
pub proof fn lemma_statement_at_bounds(t: Seq<TokenModel>, i: int)
    requires
        0 <= i < t.len(),
    ensures
        statement_at(t, i) matches Ok((_, end)) ==> i < end <= t.len(),
{
    lemma_targets_at_bounds(t, i + 1);
    if let Ok((_, j)) = targets_at(t, i + 1) {
        if 0 <= j < t.len() && t[j].kind is Open {
            lemma_pairs_at_bounds(t, j + 1, t[j].offset);
        }
    }
}

/// Every token starts before `limit`.
pub open spec fn tokens_below(t: Seq<TokenModel>, limit: int) -> bool {
    forall|k: int| 0 <= k < t.len() ==> (#[trigger] t[k]).offset < limit
}

/// Every statement starts before `limit`, or the fault lies before it.
pub open spec fn statements_below(r: Result<Seq<StatementModel>, FaultModel>, limit: int) -> bool {
    match r {
        Ok(statements) => forall|k: int|
            0 <= k < statements.len() ==> (#[trigger] statements[k]).offset < limit,
        Err(e) => e.offset < limit,
    }
}

proof fn lemma_targets_fault_below(t: Seq<TokenModel>, i: int, limit: int)
    requires
        tokens_below(t, limit),
        0 <= i,
    ensures
        targets_at(t, i) matches Err(e) ==> e.offset < limit,
    decreases t.len() - i,
{
    if i < t.len() && t[i].kind is Arrow && i + 1 < t.len() && t[i + 1].kind is Word {
        lemma_targets_fault_below(t, i + 2, limit);
    }
}

proof fn lemma_pairs_fault_below(t: Seq<TokenModel>, i: int, open: int, limit: int)
    requires
        tokens_below(t, limit),
        open < limit,
        0 <= i,
    ensures
        pairs_at(t, i, open) matches Err(e) ==> e.offset < limit,
    decreases t.len() - i,
{
    if i < t.len() && pair_at(t, i) is Some && i + 3 < t.len() && t[i + 3].kind is Comma {
        lemma_pairs_fault_below(t, i + 4, open, limit);
    }
}

proof fn lemma_statement_below(t: Seq<TokenModel>, i: int, limit: int)
    requires
        tokens_below(t, limit),
        0 <= i < t.len(),
    ensures
        match statement_at(t, i) {
            Ok((statement, _)) => statement.offset < limit,
            Err(e) => e.offset < limit,
        },
{
    lemma_targets_fault_below(t, i + 1, limit);
    lemma_targets_at_bounds(t, i + 1);
    if let Ok((_, j)) = targets_at(t, i + 1) {
        if 0 <= j < t.len() && t[j].kind is Open {
            lemma_pairs_fault_below(t, j + 1, t[j].offset, limit);
        }
    }
}

/// Where every token starts within a source, so does every statement read
/// from the tokens, and a fault lies within it.
pub proof fn lemma_statements_below(t: Seq<TokenModel>, i: int, limit: int)
    requires
        tokens_below(t, limit),
        0 <= i,
    ensures
        statements_below(statements_from(t, i), limit),
    decreases t.len() - i,
{
    if i < t.len() {
        lemma_statement_below(t, i, limit);
        lemma_statement_at_bounds(t, i);
        if let Ok((statement, end)) = statement_at(t, i) {
            lemma_statements_below(t, end, limit);
            if let Ok(more) = statements_from(t, end) {
                let all = seq![statement] + more;
                assert forall|k: int| 0 <= k < all.len() implies (#[trigger] all[k]).offset
                    < limit by {
                    if k > 0 {
                        assert(all[k] == more[k - 1]);
                    }
                }
            }
        }
    }
}

fn is_kind_arrow(token: &Token) -> (r: bool)
    ensures
        r == (token@.kind is Arrow),
{
    match token.kind {
        TokenKind::Arrow => true,
        _ => false,
    }
}

fn is_kind_open(token: &Token) -> (r: bool)
    ensures
        r == (token@.kind is Open),
{
    match token.kind {
        TokenKind::Open => true,
        _ => false,
    }
}

fn is_kind_close(token: &Token) -> (r: bool)
    ensures
        r == (token@.kind is Close),
{
    match token.kind {
        TokenKind::Close => true,
        _ => false,
    }
}

fn is_kind_comma(token: &Token) -> (r: bool)
    ensures
        r == (token@.kind is Comma),
{
    match token.kind {
        TokenKind::Comma => true,
        _ => false,
    }
}

fn is_kind_equals(token: &Token) -> (r: bool)
    ensures
        r == (token@.kind is Equals),
{
    match token.kind {
        TokenKind::Equals => true,
        _ => false,
    }
}

fn is_kind_semicolon(token: &Token) -> (r: bool)
    ensures
        r == (token@.kind is Semicolon),
{
    match token.kind {
        TokenKind::Semicolon => true,
        _ => false,
    }
}

/// The word of a token that is one.
fn word_of(token: &Token) -> (r: Option<String>)
    ensures
        match r {
            Some(w) => token@.kind == TokenKindModel::Word(w@),
            None => !(token@.kind is Word),
        },
{
    match &token.kind {
        TokenKind::Word(w) => Some(w.clone()),
        _ => None,
    }
}

/// The value that a token gives an attribute, where it can.
fn value_text(token: &Token) -> (r: Option<String>)
    ensures
        match r {
            Some(v) => value_of(token@.kind) == Some(v@),
            None => value_of(token@.kind) is None,
        },
{
    match &token.kind {
        TokenKind::Word(v) => Some(v.clone()),
        TokenKind::Text(v) => Some(v.clone()),
        _ => None,
    }
}

/// Reads the names that follow arrows from the token `i` on, onto `names`.
fn read_targets(tokens: &Vec<Token>, i: usize, names: &mut Vec<String>) -> (r: Result<usize, Fault>)
    requires
        i <= tokens.len(),
    ensures
        match r {
            Ok(end) => {
                &&& targets_at(tokens_model(tokens@), i as int) is Ok
                &&& targets_at(tokens_model(tokens@), i as int)->Ok_0.1 == end
                &&& names_model(final(names)@) == names_model(old(names)@) + targets_at(
                    tokens_model(tokens@),
                    i as int,
                )->Ok_0.0
                &&& i <= end <= tokens.len()
            },
            Err(e) => targets_at(tokens_model(tokens@), i as int) == Err::<
                (Seq<Seq<char>>, int),
                FaultModel,
            >(e@),
        },
{
    let ghost t = tokens_model(tokens@);
    let ghost start = names_model(names@);
    let ghost mut read: Seq<Seq<char>> = Seq::empty();
    let mut j: usize = i;
    loop
        invariant
            i <= j <= tokens.len(),
            t == tokens_model(tokens@),
            forall|k: int| 0 <= k < tokens.len() ==> #[trigger] t[k] == tokens@[k]@,
            start == names_model(old(names)@),
            names_model(names@) == start + read,
            targets_at(t, i as int) == match targets_at(t, j as int) {
                Ok((more, end)) => Ok::<(Seq<Seq<char>>, int), FaultModel>((read + more, end)),
                Err(e) => Err(e),
            },
        decreases tokens.len() - j,
    {
        if j < tokens.len() && is_kind_arrow(&tokens[j]) {
            let target = if j + 1 < tokens.len() {
                word_of(&tokens[j + 1])
            } else {
                None
            };
            match target {
                Some(w) => {
                    proof {
                        match targets_at(t, j + 2) {
                            Ok((more, end)) => {
                                assert(read + (seq![w@] + more) =~= read.push(w@) + more);
                            },
                            Err(_) => {},
                        }
                    }
                    let ghost before = names_model(names@);
                    names.push(w);
                    proof {
                        assert(names_model(names@) =~= before.push(w@));
                        assert(before.push(w@) =~= start + read.push(w@));
                        read = read.push(w@);
                    }
                    j += 2;
                },
                None => {
                    return Err(Fault { message: "Expected a name after '->'".to_owned(), offset: tokens[j].offset });
                },
            }
        } else {
            proof {
                assert(read + Seq::<Seq<char>>::empty() =~= read);
                lemma_targets_at_bounds(t, i as int);
            }
            return Ok(j);
        }
    }
}

/// Reads the attribute that starts at the token `i`.
fn read_pair(tokens: &Vec<Token>, i: usize) -> (r: Option<(String, String)>)
    requires
        i < tokens.len(),
    ensures
        match r {
            Some(pair) => pair_at(tokens_model(tokens@), i as int) == Some((pair.0@, pair.1@)),
            None => pair_at(tokens_model(tokens@), i as int) is None,
        },
{
    if tokens.len() - i <= 2 {
        return None;
    }
    if !is_kind_equals(&tokens[i + 1]) {
        return None;
    }
    match (word_of(&tokens[i]), value_text(&tokens[i + 2])) {
        (Some(key), Some(value)) => Some((key, value)),
        _ => None,
    }
}

/// Reads the attribute list whose opening bracket is the token `i`.
fn read_list(tokens: &Vec<Token>, i: usize) -> (r: Result<(Vec<(String, String)>, usize), Fault>)
    requires
        i < tokens.len(),
    ensures
        match r {
            Ok((pairs, end)) => list_at(tokens_model(tokens@), i as int) == Ok::<
                (Seq<(Seq<char>, Seq<char>)>, int),
                FaultModel,
            >((pairs_model(pairs@), end as int)) && i < end <= tokens.len(),
            Err(e) => list_at(tokens_model(tokens@), i as int) == Err::<
                (Seq<(Seq<char>, Seq<char>)>, int),
                FaultModel,
            >(e@),
        },
{
    let ghost t = tokens_model(tokens@);
    let open = tokens[i].offset;
    let mut pairs: Vec<(String, String)> = Vec::new();
    assert(pairs_model(pairs@) =~= Seq::empty());
    assert(forall|k: int| 0 <= k < tokens.len() ==> #[trigger] t[k] == tokens@[k]@);
    if tokens.len() - i > 1 && is_kind_close(&tokens[i + 1]) {
        assert(pairs_model(pairs@) =~= Seq::empty());
        return Ok((pairs, i + 2));
    }
    let mut j: usize = i + 1;
    loop
        invariant
            i < j <= tokens.len(),
            t == tokens_model(tokens@),
            forall|k: int| 0 <= k < tokens.len() ==> #[trigger] t[k] == tokens@[k]@,
            open == tokens[i as int].offset,
            list_at(t, i as int) == pairs_at(t, i + 1, open as int),
            pairs_at(t, i + 1, open as int) == match pairs_at(t, j as int, open as int) {
                Ok((more, end)) => Ok::<(Seq<(Seq<char>, Seq<char>)>, int), FaultModel>(
                    (pairs_model(pairs@) + more, end),
                ),
                Err(e) => Err(e),
            },
        decreases tokens.len() - j,
    {
        if j >= tokens.len() {
            return Err(
                Fault { message: "Expected an attribute of the form name=value".to_owned(), offset: open },
            );
        }
        match read_pair(tokens, j) {
            None => {
                return Err(
                    Fault {
                        message: "Expected an attribute of the form name=value".to_owned(),
                        offset: tokens[j].offset,
                    },
                );
            },
            Some(pair) => {
                let ghost before = pairs_model(pairs@);
                let ghost p = (pair.0@, pair.1@);
                pairs.push(pair);
                assert(pairs_model(pairs@) =~= before.push(p));
                if tokens.len() - j > 3 && is_kind_close(&tokens[j + 3]) {
                    assert(before + seq![p] =~= before.push(p));
                    return Ok((pairs, j + 4));
                } else if tokens.len() - j > 3 && is_kind_comma(&tokens[j + 3]) {
                    proof {
                        match pairs_at(t, j + 4, open as int) {
                            Ok((more, end)) => {
                                assert(before + (seq![p] + more) =~= before.push(p) + more);
                            },
                            Err(_) => {},
                        }
                    }
                    j += 4;
                } else {
                    return Err(
                        Fault {
                            message: "Expected ',' or ']' after an attribute".to_owned(),
                            offset: tokens[j + 2].offset,
                        },
                    );
                }
            },
        }
    }
}

/// The index after an optional semicolon at the token `i`.
fn read_semicolon(tokens: &Vec<Token>, i: usize) -> (r: usize)
    requires
        i <= tokens.len(),
    ensures
        r == skip_semicolon(tokens_model(tokens@), i as int),
        i <= r <= tokens.len(),
{
    if i < tokens.len() && is_kind_semicolon(&tokens[i]) {
        i + 1
    } else {
        i
    }
}

/// Reads the statement that starts at the token `i`.
fn read_statement(tokens: &Vec<Token>, i: usize) -> (r: Result<(Statement, usize), Fault>)
    requires
        i < tokens.len(),
    ensures
        match r {
            Ok((statement, end)) => statement_at(tokens_model(tokens@), i as int) == Ok::<
                (StatementModel, int),
                FaultModel,
            >((statement@, end as int)) && i < end <= tokens.len(),
            Err(e) => statement_at(tokens_model(tokens@), i as int) == Err::<
                (StatementModel, int),
                FaultModel,
            >(e@),
        },
{
    let ghost t = tokens_model(tokens@);
    let offset = tokens[i].offset;
    match word_of(&tokens[i]) {
        None => Err(Fault { message: "Expected a name".to_owned(), offset }),
        Some(first) => {
            let mut names: Vec<String> = Vec::new();
            names.push(first);
            assert(names_model(names@) =~= seq![first@]);
            match read_targets(tokens, i + 1, &mut names) {
                Err(e) => Err(e),
                Ok(j) => {
                    if j < tokens.len() && is_kind_open(&tokens[j]) {
                        match read_list(tokens, j) {
                            Err(e) => Err(e),
                            Ok((pairs, k)) => {
                                let end = read_semicolon(tokens, k);
                                Ok((Statement { names, attributes: Some(pairs), offset }, end))
                            },
                        }
                    } else {
                        let end = read_semicolon(tokens, j);
                        Ok((Statement { names, attributes: None, offset }, end))
                    }
                },
            }
        },
    }
}

/// The model of a list of statements, or of the fault.
pub open spec fn parsed_model(r: Result<Vec<Statement>, Fault>) -> Result<Seq<StatementModel>, FaultModel> {
    match r {
        Ok(statements) => Ok(statements_model(statements@)),
        Err(e) => Err(e@),
    }
}

/// The statements that the tokens make up, or the first fault.
pub fn parse_statements(tokens: &Vec<Token>) -> (r: Result<Vec<Statement>, Fault>)
    ensures
        parsed_model(r) == statements_from(tokens_model(tokens@), 0),
{
    let ghost t = tokens_model(tokens@);
    let mut statements: Vec<Statement> = Vec::new();
    let mut i: usize = 0;
    while i < tokens.len()
        invariant
            i <= tokens.len(),
            t == tokens_model(tokens@),
            statements_from(t, 0) == after(statements_model(statements@), statements_from(t, i as int)),
        decreases tokens.len() - i,
    {
        match read_statement(tokens, i) {
            Err(e) => {
                return Err(e);
            },
            Ok((statement, end)) => {
                let ghost before = statements_model(statements@);
                let ghost first = statement@;
                statements.push(statement);
                proof {
                    assert(statements_model(statements@) =~= before.push(first));
                    match statements_from(t, end as int) {
                        Ok(more) => {
                            assert(before + (seq![first] + more) =~= before.push(first) + more);
                        },
                        Err(_) => {},
                    }
                }
                i = end;
            },
        }
    }
    proof {
        assert(statements_model(statements@) + Seq::<StatementModel>::empty() =~= statements_model(
            statements@,
        ));
    }
    Ok(statements)
}

/// The reader of Flowscript sources.
#[derive(Debug, Clone, Copy)]
pub struct FlowscriptParser;

impl FlowscriptParser {
    /// The statements of a source, or the first fault in it.
    pub fn parse(chars: &Vec<char>) -> (r: Result<Vec<Statement>, Fault>)
        ensures
            parsed_model(r) == match tokens_from(chars@, 0) {
                Ok(tokens) => statements_from(tokens, 0),
                Err(f) => Err(f),
            },
    {
        match tokenize(chars) {
            Ok(tokens) => parse_statements(&tokens),
            Err(f) => Err(f),
        }
    }
}

} // verus!
