use flowscript::ai::{
    api_input, authorization, completions_url, extract_response_code, fix_result, get_api_model_from_model, get_url_from_model, ApiResponse,
    Choice, Message, Model, Role,
};
use flowscript::compiler::{first_location, ClangOutputJson, CompileJob, ErrorKind, Location, LocationPair};
use flowscript::files::replace_code;
use flowscript::fs_prompt::{
    get_flowscript_compile, get_flowscript_from_gpt, get_prompt, get_saved_flowscript, FlowscriptSource,
};
use flowscript::git::{check_unsaved_files, FileStatus};
use flowscript::output::{get_file_snippet, map_error, OutputJob};
use flowscript::prompts::{fix_prompt, get_chat_gpt_prompt, get_mini_orca_prompt, get_mistral_prompt};
use flowscript::system::{get_job_status, job_type_of, run_job, JobStatus, JobType};
use flowscript::ui::{prompt_options, render_fix_code_result, MenuOption};
use flowscript::value::JsonValue;

#[test]
fn models_have_addresses_and_names() {
    assert_eq!(get_url_from_model(&Model::ChatGpt), "https://api.openai.com");
    assert_eq!(get_url_from_model(&Model::Mistral), "http://localhost:4891");
    assert_eq!(get_url_from_model(&Model::MiniOrca), "http://localhost:4891");
    assert_eq!(get_api_model_from_model(&Model::ChatGpt), "gpt-4-1106-preview");
    assert_eq!(get_api_model_from_model(&Model::Mistral), "mistral");
    assert_eq!(get_api_model_from_model(&Model::MiniOrca), "miniorca");
}

#[test]
fn request_address_and_authorization() {
    assert_eq!(completions_url(&Model::ChatGpt), "https://api.openai.com/v1/chat/completions");
    assert_eq!(completions_url(&Model::Mistral), "http://localhost:4891/v1/chat/completions");
    assert_eq!(authorization("SECRET"), "Bearer SECRET");
    assert_eq!(authorization(""), "Bearer ");
}

#[test]
fn request_holds_model_limit_and_messages() {
    let messages = vec![Message { role: Role::User, content: "hi".to_string() }];
    let input = api_input(messages.clone(), &Model::Mistral);
    assert_eq!(input.model, "mistral");
    assert_eq!(input.max_tokens, 800);
    assert_eq!(input.messages, messages);
}

#[test]
fn answer_is_sorted_into_code_and_explanation() {
    let answer = "Here you go:\n```cpp\nint main() {\n    return 0;\n}\n```\n\nThe return was missing.\n```\nmore code\n";
    let (code, explanation) = extract_response_code(answer);
    assert_eq!(code, "int main() {\n    return 0;\n}\nmore code\n");
    assert_eq!(explanation, "Here you go:\n\nThe return was missing.\n");
}

#[test]
fn answer_without_code_is_all_explanation() {
    assert_eq!(extract_response_code(""), (String::new(), String::new()));
    assert_eq!(extract_response_code("a\r\nb"), (String::new(), "a\nb\n".to_string()));
    assert_eq!(extract_response_code(" ```\nx"), (String::new(), " ```\nx\n".to_string()));
}

#[test]
fn fence_with_text_after_it_is_a_fence() {
    assert_eq!(extract_response_code("```rust ignored\nx\n````\ny"), ("x\n".to_string(), "y\n".to_string()));
    let result = fix_result("```\ncode\n```\nwhy");
    assert_eq!(result.code, "code\n");
    assert_eq!(result.explanation, "why\n");
}

#[test]
fn prompts_hold_instructions_and_question() {
    let chat = get_chat_gpt_prompt("{\"line\": 1}", "int x");
    assert_eq!(chat.len(), 2);
    assert_eq!(chat[0].role, Role::System);
    assert!(chat[0].content.starts_with("You are an extremely smart assistant that helps with fixing c++ compiler errors \n\nYou will be given"));
    assert!(chat[0].content.ends_with("then an empty line then the explanation.\n"));
    assert_eq!(chat[1].role, Role::User);
    assert_eq!(chat[1].content, "Compiler output: {\"line\": 1}\nOriginal File: int x\n");

    let orca = get_mini_orca_prompt("o", "f");
    assert_eq!(orca.len(), 2);
    assert!(orca[0].content.ends_with("            Your response should begin with \"```c++ and then a new line.\n"));
    assert_eq!(orca[1].content, "Compiler output: o\nOriginal File: f\n");

    let mistral = get_mistral_prompt("o", "f");
    assert_eq!(mistral.len(), 4);
    assert_eq!(
        mistral.iter().map(|m| m.role).collect::<Vec<Role>>(),
        vec![Role::System, Role::User, Role::Assistant, Role::User]
    );
    assert!(mistral[1].content.starts_with("Compiler output: {\n  \"column\": 10,"));
    assert!(mistral[2].content.starts_with("\n```cpp\n#include <iostream>\n"));
    assert_eq!(
        mistral[3].content,
        "Here is a new program and error for you to correct. It is a different program from the previous question.\n\n             Compiler output: o\nOriginal File: f\n"
    );
}

#[test]
fn prompt_is_chosen_by_model() {
    assert_eq!(fix_prompt(&Model::ChatGpt, "o", "f"), get_chat_gpt_prompt("o", "f"));
    assert_eq!(fix_prompt(&Model::Mistral, "o", "f"), get_mistral_prompt("o", "f"));
    assert_eq!(fix_prompt(&Model::MiniOrca, "o", "f"), get_mini_orca_prompt("o", "f"));
}

#[test]
fn flowscript_comes_from_saved_text_or_model() {
    let saved = || Some("input -> a".to_string());
    assert_eq!(get_flowscript_compile(false, saved()), FlowscriptSource::Saved("input -> a".to_string()));
    assert_eq!(get_flowscript_compile(true, saved()), FlowscriptSource::Ask);
    assert_eq!(get_flowscript_compile(false, None), FlowscriptSource::Ask);
    assert_eq!(get_flowscript_compile(false, Some(String::new())), FlowscriptSource::Ask);
    assert_eq!(get_saved_flowscript(Some(String::new())), None);
    assert_eq!(get_saved_flowscript(Some("x".to_string())), Some("x".to_string()));
    assert_eq!(get_saved_flowscript(None), None);
}

#[test]
fn flowscript_prompt_and_answer() {
    let prompt = get_prompt("write it".to_string());
    assert_eq!(prompt, vec![Message { role: Role::System, content: "write it".to_string() }]);
    let response = ApiResponse {
        choices: vec![
            Choice {
                finish_reason: "stop".to_string(),
                index: 0,
                message: Message { role: Role::Assistant, content: "input -> a".to_string() },
            },
            Choice {
                finish_reason: "stop".to_string(),
                index: 1,
                message: Message { role: Role::Assistant, content: "input -> b".to_string() },
            },
        ],
        created: 0,
        id: String::new(),
        model: String::new(),
        object: String::new(),
    };
    assert_eq!(get_flowscript_from_gpt(&response), "input -> a");
}

fn diagnostic(kind: ErrorKind, message: &str, places: &[(&str, i32, i32)]) -> ClangOutputJson {
    ClangOutputJson {
        kind,
        message: message.to_string(),
        locations: places
            .iter()
            .map(|(file, line, column)| LocationPair {
                caret: Location { file: file.to_string(), line: *line, column: *column },
                finish: None,
            })
            .collect(),
    }
}

#[test]
fn compile_command_lists_files() {
    let job = |files: &[&str]| CompileJob { files: files.iter().map(|f| f.to_string()).collect(), fix_warnings: false };
    assert_eq!(job(&["a.cpp", "dir/b.cpp"]).command(), "g++-13 -std=c++17 a.cpp dir/b.cpp -fdiagnostics-format=json");
    assert_eq!(job(&["a.cpp"]).command(), "g++-13 -std=c++17 a.cpp -fdiagnostics-format=json");
    assert_eq!(job(&[]).command(), "g++-13 -std=c++17  -fdiagnostics-format=json");
}

#[test]
fn warnings_are_reported_on_request_only() {
    let all = vec![
        diagnostic(ErrorKind::Warning, "w1", &[]),
        diagnostic(ErrorKind::Error, "e1", &[]),
        diagnostic(ErrorKind::Warning, "w2", &[]),
        diagnostic(ErrorKind::Error, "e2", &[]),
    ];
    let errors_only = CompileJob { files: Vec::new(), fix_warnings: false }.compile(all.clone());
    assert_eq!(errors_only.iter().map(|d| d.message.as_str()).collect::<Vec<_>>(), vec!["e1", "e2"]);
    let everything = CompileJob { files: Vec::new(), fix_warnings: true }.compile(all.clone());
    assert_eq!(everything, all);
    assert!(CompileJob { files: Vec::new(), fix_warnings: false }.compile(Vec::new()).is_empty());
}

#[test]
fn snippet_holds_lines_around() {
    let file = "l0\nl1\nl2\nl3\nl4\nl5\nl6\nl7\nl8\nl9\n";
    assert_eq!(get_file_snippet(file, 5), "l2\nl3\nl4\nl5\nl6\nl7\n");
    assert_eq!(get_file_snippet(file, 0), "l0\nl1\nl2\n");
    assert_eq!(get_file_snippet(file, 2), "l0\nl1\nl2\nl3\nl4\n");
    assert_eq!(get_file_snippet(file, 9), "l6\nl7\nl8\nl9\n");
    assert_eq!(get_file_snippet(file, 12), "l9\n");
    assert_eq!(get_file_snippet(file, 13), "");
    assert_eq!(get_file_snippet(file, i32::MAX), "");
    assert_eq!(get_file_snippet(file, -1), "l0\nl1\n");
    assert_eq!(get_file_snippet(file, -3), "");
    assert_eq!(get_file_snippet(file, i32::MIN), "");
    assert_eq!(get_file_snippet("", 1), "");
    assert_eq!(get_file_snippet("only", 1), "only\n");
}

#[test]
fn diagnostics_are_mapped_to_their_first_place() {
    let error = diagnostic(ErrorKind::Error, "'cout' is not a member of 'std'", &[("bad.cpp", 2, 10), ("other.cpp", 7, 1)]);
    let mapped = map_error(&error, "int main() {\n    std::cout << 1;\n    return 0;\n}\n").unwrap();
    assert_eq!(mapped.column, 10);
    assert_eq!(mapped.line, 2);
    assert_eq!(mapped.filepath, "bad.cpp");
    assert_eq!(mapped.message, "'cout' is not a member of 'std'");
    assert_eq!(mapped.snippet, "int main() {\n    std::cout << 1;\n    return 0;\n}\n");
    assert_eq!(first_location(&error).map(|l| l.file.as_str()), Some("bad.cpp"));
    let placeless = diagnostic(ErrorKind::Error, "no place", &[]);
    assert_eq!(map_error(&placeless, "x"), None);
    assert!(first_location(&placeless).is_none());

    let job = OutputJob { errors: vec![error.clone(), diagnostic(ErrorKind::Warning, "w", &[("w.cpp", 0, 1)])] };
    let all = job.map_output(&vec!["a\nb\nc\nd\ne\nf".to_string(), "x\ny".to_string()]).unwrap();
    assert_eq!(all.len(), 2);
    assert_eq!(all[0].snippet, "a\nb\nc\nd\ne\n");
    assert_eq!(all[1].filepath, "w.cpp");
    assert_eq!(all[1].snippet, "x\ny\n");
    let job = OutputJob { errors: vec![error, placeless] };
    assert_eq!(job.map_output(&vec![String::new(), String::new()]), Err("No location".to_string()));
}

#[test]
fn new_code_replaces_the_lines_it_spans() {
    let old = "#include <a>\n\nint main() {\n    old();\n}\n\n// end\n";
    let new = "\nint main() {\n    new();\n}\n";
    assert_eq!(
        replace_code(old, new),
        Some("#include <a>\n\n\nint main() {\n    new();\n}\n\n// end".to_string())
    );
}

#[test]
fn new_code_replaces_everything_without_a_span() {
    assert_eq!(replace_code("", "a\nb\n"), Some("a\nb\n".to_string()));
    assert_eq!(replace_code("x\ny\n", "a\nb\n"), Some("a\nb\n".to_string()));
    assert_eq!(replace_code("a\nx\nb\n", "a\nb"), Some("a\nb".to_string()));
    assert_eq!(replace_code("x\na\ny\n", "a\nb\n"), Some("x\na\nb\na\ny".to_string()));
    assert_eq!(replace_code("x\na\ny\nz\n", "a\nz\n"), Some("x\na\nz".to_string()));
    assert_eq!(replace_code("x\nb\n", "a\nb\n"), Some("a\nb".to_string()));
}

#[test]
fn new_code_that_does_not_fit_is_refused() {
    assert_eq!(replace_code("x\ny\na\n", "a\nb\n"), None);
    assert_eq!(replace_code("a\n", ""), None);
    assert_eq!(replace_code("a\n", "\n\n"), None);
}

fn status(flags: [bool; 6]) -> FileStatus {
    FileStatus {
        wt_new: flags[0],
        wt_modified: flags[1],
        wt_deleted: flags[2],
        index_new: flags[3],
        index_modified: flags[4],
        index_deleted: flags[5],
    }
}

#[test]
fn any_changed_file_is_unsaved() {
    let clean = status([false; 6]);
    assert!(!check_unsaved_files(&Vec::new()));
    assert!(!check_unsaved_files(&vec![clean, clean]));
    for i in 0..6 {
        let mut flags = [false; 6];
        flags[i] = true;
        assert!(check_unsaved_files(&vec![clean, status(flags)]));
        assert!(check_unsaved_files(&vec![status(flags), clean]));
    }
}

#[test]
fn job_states_by_code() {
    assert_eq!(get_job_status(-1), None);
    assert_eq!(get_job_status(0), Some(JobStatus::NeverSeen));
    assert_eq!(get_job_status(1), Some(JobStatus::Queued));
    assert_eq!(get_job_status(2), Some(JobStatus::Running));
    assert_eq!(get_job_status(3), Some(JobStatus::Completed));
    assert_eq!(get_job_status(4), Some(JobStatus::Other));
    assert_eq!(get_job_status(-2), Some(JobStatus::Other));
    assert_eq!(get_job_status(i32::MAX), Some(JobStatus::Other));
}

#[test]
fn job_kinds_by_command() {
    assert_eq!(job_type_of("Compile"), Some(JobType::Compile));
    assert_eq!(job_type_of("Output"), Some(JobType::Output));
    assert_eq!(job_type_of("FixCode"), Some(JobType::FixCode));
    assert_eq!(job_type_of("compile"), None);
    assert_eq!(job_type_of(""), None);
}

#[test]
fn failed_job_hands_back_null() {
    assert!(matches!(run_job(Err("broken".to_string())), JsonValue::Null));
    assert!(matches!(run_job(Ok(JsonValue::Bool(true))), JsonValue::Bool(true)));
}

#[test]
fn menu_options_by_place() {
    assert_eq!(prompt_options(0), MenuOption::Accept);
    assert_eq!(prompt_options(1), MenuOption::Tweak);
    assert_eq!(prompt_options(2), MenuOption::Quit);
}

#[test]
fn correction_is_rendered() {
    let result = fix_result("```\ncode\n```\nwhy");
    assert_eq!(
        render_fix_code_result(&result),
        "Fixed Code:\n\n\ncode\n\n-----------------------------------------\nExplanation:\nwhy\n\n-----------------------------------------\n"
    );
}
