//! One shape for every failure: at which stage it arose, what is wrong, and
//! where in the source, as far as that is known.

use vstd::prelude::*;
use vstd::string::StringExecFns;
use crate::definitions::ParseError;
use crate::engine::{ExecutionError, ExecutionErrorModel};
use crate::flow::LoadError;
use crate::transform::{TransformError, TransformErrorModel};

verus! {

/// The stage at which a failure arose.
#[derive(Debug, Clone, Copy, PartialEq, Eq)]
pub enum FlowErrorKind {
    ParseError,
    TransformError,
    ExecutionError,
}

/// A failure of any stage.
#[derive(Debug, Clone, PartialEq, Eq)]
pub struct FlowError {
    pub kind: FlowErrorKind,
    pub message: String,
    pub line: Option<usize>,
    pub column: Option<usize>,
}

/// What is wrong with definitions that cannot be bound, in words.
pub open spec fn transform_message(e: TransformErrorModel) -> Seq<char> {
    match e {
        TransformErrorModel::NoConnection(name) => "No connection for "@ + name,
        TransformErrorModel::MissingBranch(name, outcome) => "If node "@ + name + if outcome {
            " has no true connection"@
        } else {
            " has no false connection"@
        },
        TransformErrorModel::UnknownTarget(name) => "No node for "@ + name,
    }
}

/// Why a run failed, in words.
pub open spec fn execution_message(e: ExecutionErrorModel) -> Seq<char> {
    match e {
        ExecutionErrorModel::MissingField(field) => "Could not read field "@ + field,
        ExecutionErrorModel::NotAnObject(node) => "Value at "@ + node + " is not an object"@,
        ExecutionErrorModel::UnknownNode(name) => "Could not find "@ + name + " in table"@,
        ExecutionErrorModel::EvaluatorError(message) => "Could not evaluate conditional "@ + message,
        ExecutionErrorModel::TaskError(command, message) => "Task "@ + command + " failed: "@ + message,
        ExecutionErrorModel::CounterOverflow(node) => "Counter "@ + node + " cannot count further"@,
    }
}

/// The failure that an error of reading a source is: with its message, and
/// the line and column where it lies.
pub fn parse_failure(e: ParseError) -> (r: FlowError)
    ensures
        r.kind == FlowErrorKind::ParseError,
        r.message@ == e.message@,
        r.line == Some(e.line),
        r.column == Some(e.column),
{
    FlowError { kind: FlowErrorKind::ParseError, message: e.message, line: Some(e.line), column: Some(e.column) }
}

/// The failure that an error of binding definitions is.
pub fn transform_failure(e: &TransformError) -> (r: FlowError)
    ensures
        r.kind == FlowErrorKind::TransformError,
        r.message@ == transform_message(e@),
        r.line is None,
        r.column is None,
{
    let message = match e {
        TransformError::NoConnection(name) => {
            let mut text = "No connection for ".to_owned();
            text.append(name.as_str());
            text
        },
        TransformError::MissingBranch(name, outcome) => {
            let mut text = "If node ".to_owned();
            text.append(name.as_str());
            if *outcome {
                text.append(" has no true connection");
            } else {
                text.append(" has no false connection");
            }
            text
        },
        TransformError::UnknownTarget(name) => {
            let mut text = "No node for ".to_owned();
            text.append(name.as_str());
            text
        },
    };
    FlowError { kind: FlowErrorKind::TransformError, message, line: None, column: None }
}

/// The failure that a failed run is.
pub fn execution_failure(e: &ExecutionError) -> (r: FlowError)
    ensures
        r.kind == FlowErrorKind::ExecutionError,
        r.message@ == execution_message(e@),
        r.line is None,
        r.column is None,
{
    let message = match e {
        ExecutionError::MissingField(field) => {
            let mut text = "Could not read field ".to_owned();
            text.append(field.as_str());
            text
        },
        ExecutionError::NotAnObject(node) => {
            let mut text = "Value at ".to_owned();
            text.append(node.as_str());
            text.append(" is not an object");
            text
        },
        ExecutionError::UnknownNode(name) => {
            let mut text = "Could not find ".to_owned();
            text.append(name.as_str());
            text.append(" in table");
            text
        },
        ExecutionError::EvaluatorError(message) => {
            let mut text = "Could not evaluate conditional ".to_owned();
            text.append(message.as_str());
            text
        },
        ExecutionError::TaskError(command, message) => {
            let mut text = "Task ".to_owned();
            text.append(command.as_str());
            text.append(" failed: ");
            text.append(message.as_str());
            text
        },
        ExecutionError::CounterOverflow(node) => {
            let mut text = "Counter ".to_owned();
            text.append(node.as_str());
            text.append(" cannot count further");
            text
        },
    };
    FlowError { kind: FlowErrorKind::ExecutionError, message, line: None, column: None }
}

/// The failure that a source which gives no graph is.
pub fn load_failure(e: LoadError) -> (r: FlowError)
    ensures
        match e {
            LoadError::Parse(p) => r.kind == FlowErrorKind::ParseError && r.message@ == p.message@
                && r.line == Some(p.line) && r.column == Some(p.column),
            LoadError::Transform(t) => r.kind == FlowErrorKind::TransformError && r.message@
                == transform_message(t@) && r.line is None && r.column is None,
        },
{
    match e {
        LoadError::Parse(p) => parse_failure(p),
        LoadError::Transform(t) => transform_failure(&t),
    }
}

} // verus!
