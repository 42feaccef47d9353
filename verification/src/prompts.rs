//! The conversations that ask a chat model to correct a compiler error.

use vstd::prelude::*;
use vstd::string::StringExecFns;
use crate::ai::{Message, Model, Role};

verus! {

/// The roles and texts of a conversation.
pub open spec fn conversation(messages: Seq<Message>) -> Seq<(Role, Seq<char>)> {
    messages.map_values(|m: Message| (m.role, m.content@))
}

/// What the assistant is told to do, for the hosted model.
pub open spec fn chat_gpt_instructions() -> Seq<char> {
    "You are an extremely smart assistant that helps with fixing c++ compiler errors \n
You will be given a json output of the clang compiler and then the original contents of the file.
Please output a markdown response with the corrected source code and an explanation of what went wrong.
Print the entire corrected source code file using the ```cpp tag, then an empty line then the explanation.
"@
}

/// What the assistant is told to do, for the first local model.
pub open spec fn mistral_instructions() -> Seq<char> {
    "You are an extremely smart assistant that helps with fixing c++ compiler errors \n
You will be given a json output of the clang compiler and then the original contents of the file.
Please output a markdown response with the corrected source code and an explanation of what went wrong. The source code should come before the explanation. Priortize giving the source code over the explantion if you can't do both.
Print the entire corrected source code file using the ```cpp tag, then an empty line then the explanation of exactly how you fixed the error.
"@
}

/// What the assistant is told to do, for the second local model.
pub open spec fn mini_orca_instructions() -> Seq<char> {
    "You are an extremely smart assistant that helps with fixing c++ compiler errors \n
You will be given a json output of the clang compiler and then the original contents of the file.
Please output a markdown response with the corrected source code and an explanation of what went wrong. The source code should come before the explanation. Priortize giving the source code over the explantion if you can't do both.
Print the entire corrected source code file using the ```cpp tag, then an empty line then the explanation of exactly how you fixed the error.
            Your response should begin with \"```c++ and then a new line.
"@
}

/// The question of a worked example.
pub open spec fn example_question() -> Seq<char> {
    "Compiler output: {\n  \"column\": 10,\n  \"line\": 2,\n  \"filepath\": \"./ExampleCode/bad.cpp\",\n  \"message\": \"'cout' is not a member of 'std'\",\n  \"snippet\": \"int main() {\\n    std::cout << \\\"Hello World!\\\";\\n    return 0;\\n}\\n\"\n}\nOriginal File: int main() {\n    std::cout << \"Hello World!\";\n    return 0;\n}\n\n"@
}

/// The answer of the worked example.
pub open spec fn example_answer() -> Seq<char> {
    "
```cpp
#include <iostream>

int main() {
    std::cout << \"Hello World!\";
    return 0;
}
```

---

The error message `\"'cout' is not a member of 'std'\"` indicates that the `cout` object, which is defined in the header `<iostream>`, is not recognized in the namespace `std`. This typically occurs when the `<iostream>` header has not been included in the file, which is necessary to use `cout`.

The correction involves adding the line `#include <iostream>` at the top of the file. This includes the declaration of `cout` along with other input/output stream objects and functionalities provided by the standard library. With this fixed, the code should compile without any errors.
"@
}

/// The question about a compiler's output and the file it is about.
pub open spec fn question(output_json: Seq<char>, file_contents: Seq<char>) -> Seq<char> {
    "Compiler output: "@ + output_json + "\nOriginal File: "@ + file_contents + "\n"@
}

/// What precedes the question after a worked example.
pub open spec fn new_question_notice() -> Seq<char> {
    "Here is a new program and error for you to correct. It is a different program from the previous question.\n
             "@
}

/// The question about a compiler's output and the file it is about.
fn ask(output_json: &str, file_contents: &str) -> (r: String)
    ensures
        r@ == question(output_json@, file_contents@),
{
    let mut text = "Compiler output: ".to_owned();
    text.append(output_json);
    text.append("\nOriginal File: ");
    text.append(file_contents);
    text.append("\n");
    text
}

/// The conversation for the hosted model: the instructions, then the
/// question. `output_json` is the compiler's output as JSON text.
pub fn get_chat_gpt_prompt(output_json: &str, file_contents: &str) -> (r: Vec<Message>)
    ensures
        conversation(r@) == seq![
            (Role::System, chat_gpt_instructions()),
            (Role::User, question(output_json@, file_contents@)),
        ],
{
    let mut result: Vec<Message> = Vec::new();
    result.push(
        Message {
            role: Role::System,
            content: "You are an extremely smart assistant that helps with fixing c++ compiler errors \n
You will be given a json output of the clang compiler and then the original contents of the file.
Please output a markdown response with the corrected source code and an explanation of what went wrong.
Print the entire corrected source code file using the ```cpp tag, then an empty line then the explanation.
".to_owned(),
        },
    );
    result.push(Message { role: Role::User, content: ask(output_json, file_contents) });
    assert(conversation(result@) =~= seq![
        (Role::System, chat_gpt_instructions()),
        (Role::User, question(output_json@, file_contents@)),
    ]);
    result
}

/// The conversation for the second local model: the instructions, then the
/// question.
pub fn get_mini_orca_prompt(output_json: &str, file_contents: &str) -> (r: Vec<Message>)
    ensures
        conversation(r@) == seq![
            (Role::System, mini_orca_instructions()),
            (Role::User, question(output_json@, file_contents@)),
        ],
{
    let mut result: Vec<Message> = Vec::new();
    result.push(
        Message {
            role: Role::System,
            content: "You are an extremely smart assistant that helps with fixing c++ compiler errors \n
You will be given a json output of the clang compiler and then the original contents of the file.
Please output a markdown response with the corrected source code and an explanation of what went wrong. The source code should come before the explanation. Priortize giving the source code over the explantion if you can't do both.
Print the entire corrected source code file using the ```cpp tag, then an empty line then the explanation of exactly how you fixed the error.
            Your response should begin with \"```c++ and then a new line.
".to_owned(),
        },
    );
    result.push(Message { role: Role::User, content: ask(output_json, file_contents) });
    assert(conversation(result@) =~= seq![
        (Role::System, mini_orca_instructions()),
        (Role::User, question(output_json@, file_contents@)),
    ]);
    result
}

/// The conversation for the first local model: the instructions, a worked
/// example with its answer, then the question, marked as a new one.
pub fn get_mistral_prompt(output_json: &str, file_contents: &str) -> (r: Vec<Message>)
    ensures
        conversation(r@) == seq![
            (Role::System, mistral_instructions()),
            (Role::User, example_question()),
            (Role::Assistant, example_answer()),
            (Role::User, new_question_notice() + question(output_json@, file_contents@)),
        ],
{
    let mut result: Vec<Message> = Vec::new();
    result.push(
        Message {
            role: Role::System,
            content: "You are an extremely smart assistant that helps with fixing c++ compiler errors \n
You will be given a json output of the clang compiler and then the original contents of the file.
Please output a markdown response with the corrected source code and an explanation of what went wrong. The source code should come before the explanation. Priortize giving the source code over the explantion if you can't do both.
Print the entire corrected source code file using the ```cpp tag, then an empty line then the explanation of exactly how you fixed the error.
".to_owned(),
        },
    );
    result.push(
        Message {
            role: Role::User,
            content: "Compiler output: {\n  \"column\": 10,\n  \"line\": 2,\n  \"filepath\": \"./ExampleCode/bad.cpp\",\n  \"message\": \"'cout' is not a member of 'std'\",\n  \"snippet\": \"int main() {\\n    std::cout << \\\"Hello World!\\\";\\n    return 0;\\n}\\n\"\n}\nOriginal File: int main() {\n    std::cout << \"Hello World!\";\n    return 0;\n}\n\n".to_owned(),
        },
    );
    result.push(
        Message {
            role: Role::Assistant,
            content: "
```cpp
#include <iostream>

int main() {
    std::cout << \"Hello World!\";
    return 0;
}
```

---

The error message `\"'cout' is not a member of 'std'\"` indicates that the `cout` object, which is defined in the header `<iostream>`, is not recognized in the namespace `std`. This typically occurs when the `<iostream>` header has not been included in the file, which is necessary to use `cout`.

The correction involves adding the line `#include <iostream>` at the top of the file. This includes the declaration of `cout` along with other input/output stream objects and functionalities provided by the standard library. With this fixed, the code should compile without any errors.
".to_owned(),
        },
    );
    let mut last = "Here is a new program and error for you to correct. It is a different program from the previous question.\n
             ".to_owned();
    last.append(ask(output_json, file_contents).as_str());
    result.push(Message { role: Role::User, content: last });
    assert(conversation(result@) =~= seq![
        (Role::System, mistral_instructions()),
        (Role::User, example_question()),
        (Role::Assistant, example_answer()),
        (Role::User, new_question_notice() + question(output_json@, file_contents@)),
    ]);
    result
}

/// The conversation that asks `model` about a compiler's output.
pub fn fix_prompt(model: &Model, output_json: &str, file_contents: &str) -> (r: Vec<Message>)
    ensures
        conversation(r@) == match *model {
            Model::ChatGpt => seq![
                (Role::System, chat_gpt_instructions()),
                (Role::User, question(output_json@, file_contents@)),
            ],
            Model::Mistral => seq![
                (Role::System, mistral_instructions()),
                (Role::User, example_question()),
                (Role::Assistant, example_answer()),
                (Role::User, new_question_notice() + question(output_json@, file_contents@)),
            ],
            Model::MiniOrca => seq![
                (Role::System, mini_orca_instructions()),
                (Role::User, question(output_json@, file_contents@)),
            ],
        },
{
    match model {
        Model::ChatGpt => get_chat_gpt_prompt(output_json, file_contents),
        Model::Mistral => get_mistral_prompt(output_json, file_contents),
        Model::MiniOrca => get_mini_orca_prompt(output_json, file_contents),
    }
}

} // verus!
