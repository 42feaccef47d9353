//! Where the Flowscript of a session comes from: the saved one, or a new
//! one asked of the chat model.

use vstd::prelude::*;
use crate::ai::{ApiResponse, Message, Role};
use crate::prompts::conversation;

verus! {

/// Where to take the Flowscript from.
#[derive(Debug, Clone, PartialEq, Eq)]
pub enum FlowscriptSource {
    /// Use this saved text.
    Saved(String),
    /// Ask the chat model for a new one.
    Ask,
}

/// The saved Flowscript that counts: the contents of the saved file where
/// there is one and it is not empty.
pub fn get_saved_flowscript(contents: Option<String>) -> (r: Option<String>)
    ensures
        match contents {
            Some(text) => if text@.len() > 0 {
                r == Some(text)
            } else {
                r is None
            },
            None => r is None,
        },
{
    match contents {
        Some(text) => {
            if !text.as_str().is_empty() {
                Some(text)
            } else {
                None
            }
        },
        None => None,
    }
}

/// Decides where the Flowscript comes from: the model is asked where the
/// caller wants a new one, or where nothing is saved; else the saved text
/// is used. `saved` holds the contents of the saved file, if there is one.
pub fn get_flowscript_compile(reprompt: bool, saved: Option<String>) -> (r: FlowscriptSource)
    ensures
        r == if reprompt {
            FlowscriptSource::Ask
        } else {
            match saved {
                Some(text) => if text@.len() > 0 {
                    FlowscriptSource::Saved(text)
                } else {
                    FlowscriptSource::Ask
                },
                None => FlowscriptSource::Ask,
            }
        },
{
    if reprompt {
        FlowscriptSource::Ask
    } else {
        match get_saved_flowscript(saved) {
            Some(flowscript) => FlowscriptSource::Saved(flowscript),
            None => FlowscriptSource::Ask,
        }
    }
}

/// The conversation that asks for a Flowscript: the instructions alone.
pub fn get_prompt(instructions: String) -> (r: Vec<Message>)
    ensures
        conversation(r@) == seq![(Role::System, instructions@)],
{
    let mut result: Vec<Message> = Vec::new();
    result.push(Message { role: Role::System, content: instructions });
    assert(conversation(result@) =~= seq![(Role::System, instructions@)]);
    result
}

/// The Flowscript that the model answered: the text of its first choice.
pub fn get_flowscript_from_gpt(response: &ApiResponse) -> (r: String)
    requires
        response.choices.len() > 0,
    ensures
        r@ == response.choices[0].message.content@,
{
    response.choices[0].message.content.clone()
}

} // verus!
