//! Talking to a chat model about a compiler error: which model, what is
//! asked of it, and what is taken from its answer.

use vstd::prelude::*;
use vstd::string::StringExecFns;
use crate::text::{chars_of, lines_of, split_lines, texts};

verus! {

/// A chat model.
#[derive(Debug, Clone, Copy, PartialEq, Eq)]
pub enum Model {
    ChatGpt,
    Mistral,
    MiniOrca,
}

/// Who speaks in a message.
#[derive(Debug, Clone, Copy, PartialEq, Eq)]
pub enum Role {
    System,
    User,
    Assistant,
}

/// One message of a conversation.
#[derive(Debug, Clone, PartialEq, Eq)]
pub struct Message {
    pub role: Role,
    pub content: String,
}

/// One answer of a model.
#[derive(Debug, Clone, PartialEq, Eq)]
pub struct Choice {
    pub finish_reason: String,
    pub index: i32,
    pub message: Message,
}

/// What a model's service answers.
#[derive(Debug, Clone, PartialEq, Eq)]
pub struct ApiResponse {
    pub choices: Vec<Choice>,
    pub created: i32,
    pub id: String,
    pub model: String,
    pub object: String,
}

/// What a model's service is asked.
#[derive(Debug, Clone, PartialEq, Eq)]
pub struct ApiInput {
    pub model: String,
    pub max_tokens: i32,
    pub messages: Vec<Message>,
}

/// A corrected source with the explanation of the correction.
#[derive(Debug, Clone, PartialEq, Eq)]
pub struct FixCodeResult {
    pub code: String,
    pub explanation: String,
}

/// The address of the service of a model.
pub open spec fn url_of(model: Model) -> Seq<char> {
    match model {
        Model::ChatGpt => "https://api.openai.com"@,
        Model::Mistral => "http://localhost:4891"@,
        Model::MiniOrca => "http://localhost:4891"@,
    }
}

/// The name by which the service knows a model.
pub open spec fn api_model_of(model: Model) -> Seq<char> {
    match model {
        Model::ChatGpt => "gpt-4-1106-preview"@,
        Model::Mistral => "mistral"@,
        Model::MiniOrca => "miniorca"@,
    }
}

/// The address of the service of a model.
pub fn get_url_from_model(model: &Model) -> (r: String)
    ensures
        r@ == url_of(*model),
{
    match model {
        Model::ChatGpt => "https://api.openai.com".to_owned(),
        Model::Mistral => "http://localhost:4891".to_owned(),
        Model::MiniOrca => "http://localhost:4891".to_owned(),
    }
}

/// The name by which the service knows a model.
pub fn get_api_model_from_model(model: &Model) -> (r: String)
    ensures
        r@ == api_model_of(*model),
{
    match model {
        Model::ChatGpt => "gpt-4-1106-preview".to_owned(),
        Model::Mistral => "mistral".to_owned(),
        Model::MiniOrca => "miniorca".to_owned(),
    }
}

/// The address to which a conversation with a model is sent.
pub fn completions_url(model: &Model) -> (r: String)
    ensures
        r@ == url_of(*model) + "/v1/chat/completions"@,
{
    let mut url = get_url_from_model(model);
    url.append("/v1/chat/completions");
    url
}

/// What authorizes a request, for a token.
pub fn authorization(token: &str) -> (r: String)
    ensures
        r@ == "Bearer "@ + token@,
{
    let mut value = "Bearer ".to_owned();
    value.append(token);
    value
}

/// What the service of a model is asked for a conversation.
pub fn api_input(prompt: Vec<Message>, model: &Model) -> (r: ApiInput)
    ensures
        r.model@ == api_model_of(*model),
        r.max_tokens == 800,
        r.messages == prompt,
{
    ApiInput { model: get_api_model_from_model(model), max_tokens: 800, messages: prompt }
}

/// Whether a line opens or closes a block of code.
pub open spec fn is_fence(line: Seq<char>) -> bool {
    line.len() >= 3 && line[0] == '`' && line[1] == '`' && line[2] == '`'
}

/// The lines of an answer sorted into code and explanation.
pub struct Sorted {
    pub code: Seq<char>,
    pub explanation: Seq<char>,
    pub in_code: bool,
}

/// Sorts the lines of an answer: a fence line opens or closes a block of
/// code and belongs to neither part; every other line goes, with a line
/// feed after it, to the code inside a block and to the explanation outside.
pub open spec fn sorted_lines(lines: Seq<Seq<char>>) -> Sorted
    decreases lines.len(),
{
    if lines.len() == 0 {
        Sorted { code: Seq::empty(), explanation: Seq::empty(), in_code: false }
    } else {
        let before = sorted_lines(lines.drop_last());
        let line = lines.last();
        if is_fence(line) {
            Sorted { code: before.code, explanation: before.explanation, in_code: !before.in_code }
        } else if before.in_code {
            Sorted {
                code: before.code + line + seq!['\n'],
                explanation: before.explanation,
                in_code: true,
            }
        } else {
            Sorted {
                code: before.code,
                explanation: before.explanation + line + seq!['\n'],
                in_code: false,
            }
        }
    }
}

/// Whether a line opens or closes a block of code.
fn fence(line: &Vec<char>) -> (r: bool)
    ensures
        r == is_fence(line@),
{
    line.len() >= 3 && line[0] == '`' && line[1] == '`' && line[2] == '`'
}

/// Takes the code and the explanation from an answer: the lines inside its
/// blocks of code, and the lines outside them.
pub fn extract_response_code(response: &str) -> (r: (String, String))
    ensures
        r.0@ == sorted_lines(lines_of(response@)).code,
        r.1@ == sorted_lines(lines_of(response@)).explanation,
{
    let chars = chars_of(response);
    let lines = split_lines(&chars);
    let ghost all = lines_of(response@);
    let mut response_code = String::new();
    let mut explanation = String::new();
    let mut in_code_block = false;
    let mut i: usize = 0;
    assert(all.take(0) =~= Seq::empty());
    while i < lines.len()
        invariant
            i <= lines.len(),
            all == texts(lines@),
            response_code@ == sorted_lines(all.take(i as int)).code,
            explanation@ == sorted_lines(all.take(i as int)).explanation,
            in_code_block == sorted_lines(all.take(i as int)).in_code,
        decreases lines.len() - i,
    {
        proof {
            assert(all.take(i + 1).drop_last() =~= all.take(i as int));
            assert(all.take(i + 1).last() == lines@[i as int]@);
        }
        let line = lines[i].as_str();
        let line_chars = chars_of(line);
        if fence(&line_chars) {
            in_code_block = !in_code_block;
        } else if in_code_block {
            response_code.append(line);
            response_code.push('\n');
        } else {
            explanation.append(line);
            explanation.push('\n');
        }
        i += 1;
    }
    assert(all.take(lines.len() as int) =~= all);
    (response_code, explanation)
}

/// The result that an answer holds.
pub fn fix_result(content: &str) -> (r: FixCodeResult)
    ensures
        r.code@ == sorted_lines(lines_of(content@)).code,
        r.explanation@ == sorted_lines(lines_of(content@)).explanation,
{
    let (code, explanation) = extract_response_code(content);
    FixCodeResult { code, explanation }
}

} // verus!
