//! Cutting a Flowscript source into tokens.
//!
//! A token is one of `->`, `[`, `]`, `,`, `=`, `;`, a word, or a text
//! between double quotes. A word is a run of letters, digits, `_` and `.`,
//! or such a run that starts with a digit and has a minus sign before it.
//! In a quoted text a backslash before a double quote stands for the quote.
//! Spaces, tabs and line ends separate tokens and mean nothing else.

use vstd::prelude::*;
use crate::text::string_of;

verus! {

/// What a token is.
#[derive(Debug, Clone, PartialEq, Eq)]
pub enum TokenKind {
    /// A bare word: a name or a number.
    Word(String),
    /// A text between double quotes, without them.
    Text(String),
    Arrow,
    Open,
    Close,
    Comma,
    Equals,
    Semicolon,
}

/// The model of [`TokenKind`]: its texts are sequences of characters.
pub enum TokenKindModel {
    Word(Seq<char>),
    Text(Seq<char>),
    Arrow,
    Open,
    Close,
    Comma,
    Equals,
    Semicolon,
}

impl View for TokenKind {
    type V = TokenKindModel;

    open spec fn view(&self) -> TokenKindModel {
        match *self {
            TokenKind::Word(s) => TokenKindModel::Word(s@),
            TokenKind::Text(s) => TokenKindModel::Text(s@),
            TokenKind::Arrow => TokenKindModel::Arrow,
            TokenKind::Open => TokenKindModel::Open,
            TokenKind::Close => TokenKindModel::Close,
            TokenKind::Comma => TokenKindModel::Comma,
            TokenKind::Equals => TokenKindModel::Equals,
            TokenKind::Semicolon => TokenKindModel::Semicolon,
        }
    }
}

/// A token and the offset of its first character.
#[derive(Debug, Clone, PartialEq, Eq)]
pub struct Token {
    pub kind: TokenKind,
    pub offset: usize,
}

/// The model of [`Token`]: its texts are sequences of characters.
pub struct TokenModel {
    pub kind: TokenKindModel,
    pub offset: int,
}

impl View for Token {
    type V = TokenModel;

    open spec fn view(&self) -> TokenModel {
        TokenModel { kind: self.kind@, offset: self.offset as int }
    }
}

/// What is wrong with a source, and the offset of the character where.
#[derive(Debug, Clone, PartialEq, Eq)]
pub struct Fault {
    pub message: String,
    pub offset: usize,
}

/// The model of [`Fault`]: its texts are sequences of characters.
pub struct FaultModel {
    pub message: Seq<char>,
    pub offset: int,
}

impl View for Fault {
    type V = FaultModel;

    open spec fn view(&self) -> FaultModel {
        FaultModel { message: self.message@, offset: self.offset as int }
    }
}

pub open spec fn tokens_model(tokens: Seq<Token>) -> Seq<TokenModel> {
    tokens.map_values(|t: Token| t@)
}

pub open spec fn is_space(c: char) -> bool {
    c == ' ' || c == '\t' || c == '\r' || c == '\n'
}

pub open spec fn is_digit(c: char) -> bool {
    '0' <= c <= '9'
}

/// A character of a bare word: a letter, a digit, `_` or `.`.
pub open spec fn is_word_char(c: char) -> bool {
    ('a' <= c <= 'z') || ('A' <= c <= 'Z') || is_digit(c) || c == '_' || c == '.'
}

/// The end of the run of word characters that starts at `i`.
pub open spec fn word_end(s: Seq<char>, i: int) -> int
    decreases s.len() - i,
{
    if 0 <= i < s.len() && is_word_char(s[i]) {
        word_end(s, i + 1)
    } else {
        i
    }
}

/// The text of a quoted string whose content starts at `i`, and the offset
/// after its closing quote; `None` where no quote closes it. A backslash
/// before a double quote stands for that quote; every other character
/// stands for itself.
pub open spec fn quoted_text(s: Seq<char>, i: int) -> Option<(Seq<char>, int)>
    decreases s.len() - i,
{
    if !(0 <= i < s.len()) {
        None
    } else if s[i] == '"' {
        Some((Seq::empty(), i + 1))
    } else if s[i] == '\\' && i + 1 < s.len() && s[i + 1] == '"' {
        match quoted_text(s, i + 2) {
            Some((text, end)) => Some((seq!['"'] + text, end)),
            None => None,
        }
    } else {
        match quoted_text(s, i + 1) {
            Some((text, end)) => Some((seq![s[i]] + text, end)),
            None => None,
        }
    }
}

pub open spec fn unexpected_character() -> Seq<char> {
    "Unexpected character"@
}

pub open spec fn unterminated_string() -> Seq<char> {
    "Unterminated string"@
}

/// The token that starts at `i`, where a character that is no space stands,
/// and the offset after it.
pub open spec fn token_at(s: Seq<char>, i: int) -> Result<(TokenKindModel, int), Seq<char>> {
    let c = s[i];
    if c == '[' {
        Ok((TokenKindModel::Open, i + 1))
    } else if c == ']' {
        Ok((TokenKindModel::Close, i + 1))
    } else if c == ',' {
        Ok((TokenKindModel::Comma, i + 1))
    } else if c == '=' {
        Ok((TokenKindModel::Equals, i + 1))
    } else if c == ';' {
        Ok((TokenKindModel::Semicolon, i + 1))
    } else if c == '-' {
        if i + 1 < s.len() && s[i + 1] == '>' {
            Ok((TokenKindModel::Arrow, i + 2))
        } else if i + 1 < s.len() && is_digit(s[i + 1]) {
            Ok((TokenKindModel::Word(s.subrange(i, word_end(s, i + 1))), word_end(s, i + 1)))
        } else {
            Err(unexpected_character())
        }
    } else if c == '"' {
        match quoted_text(s, i + 1) {
            Some((text, end)) => Ok((TokenKindModel::Text(text), end)),
            None => Err(unterminated_string()),
        }
    } else if is_word_char(c) {
        Ok((TokenKindModel::Word(s.subrange(i, word_end(s, i))), word_end(s, i)))
    } else {
        Err(unexpected_character())
    }
}

/// `first` followed by what `rest` holds, or the fault of `rest`.
pub open spec fn after<T>(first: Seq<T>, rest: Result<Seq<T>, FaultModel>) -> Result<Seq<T>, FaultModel> {
    match rest {
        Ok(more) => Ok(first + more),
        Err(e) => Err(e),
    }
}

/// The tokens of `s` from the offset `i` on, or the first fault.
pub open spec fn tokens_from(s: Seq<char>, i: int) -> Result<Seq<TokenModel>, FaultModel>
    decreases s.len() - i,
{
    if !(0 <= i < s.len()) {
        Ok(Seq::empty())
    } else if is_space(s[i]) {
        tokens_from(s, i + 1)
    } else {
        match token_at(s, i) {
            Err(message) => Err(FaultModel { message, offset: i }),
            Ok((kind, end)) => {
                proof {
                    lemma_token_at_bounds(s, i);
                }
                after(seq![TokenModel { kind, offset: i }], tokens_from(s, end))
            },
        }
    }
}

pub proof fn lemma_word_end_bounds(s: Seq<char>, i: int)
    requires
        0 <= i <= s.len(),
    ensures
        i <= word_end(s, i) <= s.len(),
        i < s.len() && is_word_char(s[i]) ==> i < word_end(s, i),
    decreases s.len() - i,
{
    if i < s.len() && is_word_char(s[i]) {
        lemma_word_end_bounds(s, i + 1);
    }
}

pub proof fn lemma_quoted_text_bounds(s: Seq<char>, i: int)
    requires
        0 <= i,
    ensures
        quoted_text(s, i) matches Some((_, end)) ==> i < end <= s.len(),
    decreases s.len() - i,
{
    if i < s.len() && s[i] != '"' {
        if s[i] == '\\' && i + 1 < s.len() && s[i + 1] == '"' {
            lemma_quoted_text_bounds(s, i + 2);
        } else {
            lemma_quoted_text_bounds(s, i + 1);
        }
    }
}

/// A token ends after where it starts, within the source.
pub proof fn lemma_token_at_bounds(s: Seq<char>, i: int)
    requires
        0 <= i < s.len(),
    ensures
        token_at(s, i) matches Ok((_, end)) ==> i < end <= s.len(),
{
    lemma_word_end_bounds(s, i);
    lemma_word_end_bounds(s, i + 1);
    lemma_quoted_text_bounds(s, i + 1);
}

/// The model of a list of tokens, or of the fault.
pub open spec fn lexed_model(r: Result<Vec<Token>, Fault>) -> Result<Seq<TokenModel>, FaultModel> {
    match r {
        Ok(tokens) => Ok(tokens_model(tokens@)),
        Err(e) => Err(e@),
    }
}

fn space(c: char) -> (r: bool)
    ensures
        r == is_space(c),
{
    c == ' ' || c == '\t' || c == '\r' || c == '\n'
}

fn digit(c: char) -> (r: bool)
    ensures
        r == is_digit(c),
{
    '0' <= c && c <= '9'
}

fn word_char(c: char) -> (r: bool)
    ensures
        r == is_word_char(c),
{
    ('a' <= c && c <= 'z') || ('A' <= c && c <= 'Z') || digit(c) || c == '_' || c == '.'
}

/// The end of the run of word characters that starts at `i`.
fn scan_word(chars: &Vec<char>, i: usize) -> (r: usize)
    requires
        i <= chars.len(),
    ensures
        r == word_end(chars@, i as int),
        i <= r <= chars.len(),
{
    let mut j: usize = i;
    while j < chars.len() && word_char(chars[j])
        invariant
            i <= j <= chars.len(),
            word_end(chars@, i as int) == word_end(chars@, j as int),
        decreases chars.len() - j,
    {
        j += 1;
    }
    j
}

/// The text of the quoted string whose content starts at `i`, and the
/// offset after its closing quote.
fn scan_quoted(chars: &Vec<char>, i: usize) -> (r: Option<(String, usize)>)
    requires
        i <= chars.len(),
    ensures
        match r {
            Some((text, end)) => quoted_text(chars@, i as int) == Some((text@, end as int)) && i < end
                <= chars.len(),
            None => quoted_text(chars@, i as int) is None,
        },
{
    let mut text = String::new();
    let mut j: usize = i;
    while j < chars.len()
        invariant
            i <= j <= chars.len(),
            quoted_text(chars@, i as int) == match quoted_text(chars@, j as int) {
                Some((more, end)) => Some((text@ + more, end)),
                None => None,
            },
        decreases chars.len() - j,
    {
        let c = chars[j];
        let ghost before = text@;
        if c == '"' {
            assert(before + Seq::<char>::empty() =~= before);
            return Some((text, j + 1));
        } else if c == '\\' && j + 1 < chars.len() && chars[j + 1] == '"' {
            text.push('"');
            proof {
                match quoted_text(chars@, j + 2) {
                    Some((more, end)) => {
                        assert(before + (seq!['"'] + more) =~= text@ + more);
                    },
                    None => {},
                }
            }
            j += 2;
        } else {
            text.push(c);
            proof {
                match quoted_text(chars@, j + 1) {
                    Some((more, end)) => {
                        assert(before + (seq![c] + more) =~= text@ + more);
                    },
                    None => {},
                }
            }
            j += 1;
        }
    }
    None
}

/// The token that starts at `i`, and the offset after it.
fn scan_token(chars: &Vec<char>, i: usize) -> (r: Result<(TokenKind, usize), String>)
    requires
        i < chars.len(),
    ensures
        match r {
            Ok((kind, end)) => token_at(chars@, i as int) == Ok::<(TokenKindModel, int), Seq<char>>(
                (kind@, end as int),
            ) && i < end <= chars.len(),
            Err(message) => token_at(chars@, i as int) == Err::<(TokenKindModel, int), Seq<char>>(
                message@,
            ),
        },
{
    let c = chars[i];
    if c == '[' {
        Ok((TokenKind::Open, i + 1))
    } else if c == ']' {
        Ok((TokenKind::Close, i + 1))
    } else if c == ',' {
        Ok((TokenKind::Comma, i + 1))
    } else if c == '=' {
        Ok((TokenKind::Equals, i + 1))
    } else if c == ';' {
        Ok((TokenKind::Semicolon, i + 1))
    } else if c == '-' {
        if i + 1 < chars.len() && chars[i + 1] == '>' {
            Ok((TokenKind::Arrow, i + 2))
        } else if i + 1 < chars.len() && digit(chars[i + 1]) {
            let end = scan_word(chars, i + 1);
            Ok((TokenKind::Word(string_of(chars, i, end)), end))
        } else {
            Err("Unexpected character".to_owned())
        }
    } else if c == '"' {
        match scan_quoted(chars, i + 1) {
            Some((text, end)) => Ok((TokenKind::Text(text), end)),
            None => Err("Unterminated string".to_owned()),
        }
    } else if word_char(c) {
        let end = scan_word(chars, i);
        proof {
            lemma_word_end_bounds(chars@, i as int);
        }
        Ok((TokenKind::Word(string_of(chars, i, end)), end))
    } else {
        Err("Unexpected character".to_owned())
    }
}

/// The tokens of a source, or the first fault in it.
pub fn tokenize(chars: &Vec<char>) -> (r: Result<Vec<Token>, Fault>)
    ensures
        lexed_model(r) == tokens_from(chars@, 0),
        r matches Err(e) ==> e.offset < chars.len(),
        r matches Ok(tokens) ==> forall|k: int|
            0 <= k < tokens.len() ==> (#[trigger] tokens[k]).offset < chars.len(),
{
    let mut tokens: Vec<Token> = Vec::new();
    let mut i: usize = 0;
    while i < chars.len()
        invariant
            i <= chars.len(),
            tokens_from(chars@, 0) == after(tokens_model(tokens@), tokens_from(chars@, i as int)),
            forall|k: int| 0 <= k < tokens.len() ==> (#[trigger] tokens[k]).offset < chars.len(),
        decreases chars.len() - i,
    {
        if space(chars[i]) {
            i += 1;
        } else {
            match scan_token(chars, i) {
                Err(message) => {
                    return Err(Fault { message, offset: i });
                },
                Ok((kind, end)) => {
                    let ghost before = tokens_model(tokens@);
                    let ghost first = TokenModel { kind: kind@, offset: i as int };
                    tokens.push(Token { kind, offset: i });
                    proof {
                        assert(tokens_model(tokens@) =~= before.push(first));
                        match tokens_from(chars@, end as int) {
                            Ok(more) => {
                                assert(before + (seq![first] + more) =~= before.push(first) + more);
                            },
                            Err(_) => {},
                        }
                    }
                    i = end;
                },
            }
        }
    }
    proof {
        assert(tokens_model(tokens@) + Seq::<TokenModel>::empty() =~= tokens_model(tokens@));
    }
    Ok(tokens)
}

} // verus!
