//! What the user is shown and what the user chooses.

use vstd::prelude::*;
use vstd::string::StringExecFns;
use crate::ai::FixCodeResult;

verus! {

/// What the user does with a correction.
#[derive(Debug, Clone, Copy, PartialEq, Eq)]
pub enum MenuOption {
    Accept,
    Tweak,
    Quit,
}

/// The options in the order in which the menu shows them.
pub open spec fn option_at(selection: int) -> MenuOption {
    if selection == 0 {
        MenuOption::Accept
    } else if selection == 1 {
        MenuOption::Tweak
    } else {
        MenuOption::Quit
    }
}

/// The option at the place `selection` of the menu.
pub fn prompt_options(selection: usize) -> (r: MenuOption)
    requires
        selection <= 2,
    ensures
        r == option_at(selection as int),
{
    if selection == 0 {
        MenuOption::Accept
    } else if selection == 1 {
        MenuOption::Tweak
    } else {
        MenuOption::Quit
    }
}

/// The rule drawn between the parts of a correction.
pub open spec fn rule() -> Seq<char> {
    "-----------------------------------------\n"@
}

/// The text that shows a correction: the code, then the explanation, each
/// followed by a rule.
pub open spec fn rendered(code: Seq<char>, explanation: Seq<char>) -> Seq<char> {
    "Fixed Code:\n\n\n"@ + code + "\n"@ + rule() + "Explanation:\n"@ + explanation + "\n"@ + rule()
}

/// The text that shows a correction.
pub fn render_fix_code_result(result: &FixCodeResult) -> (r: String)
    ensures
        r@ == rendered(result.code@, result.explanation@),
{
    let mut text = "Fixed Code:\n\n\n".to_owned();
    text.append(result.code.as_str());
    text.append("\n");
    text.append("-----------------------------------------\n");
    text.append("Explanation:\n");
    text.append(result.explanation.as_str());
    text.append("\n");
    text.append("-----------------------------------------\n");
    text
}

} // verus!
