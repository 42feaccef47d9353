//! From a source text to a run: the source is read, its definitions are
//! bound into a graph, and a run of the graph starts on the input.

use vstd::prelude::*;
use crate::definitions::{definitions_of, extract_definitions, ParseError};
use crate::engine::{action_of, start, step, Action, Execution, ExecutionModel};
use crate::nodes::{NodeMap, NodeModel};
use crate::transform::{defs_to_graph, transform_result, TransformError};
use crate::value::JsonValue;

verus! {

/// Why a source gives no graph.
#[derive(Debug, Clone, PartialEq, Eq)]
pub enum LoadError {
    /// The source cannot be read.
    Parse(ParseError),
    /// Its definitions cannot be bound into a graph.
    Transform(TransformError),
}

/// What loading a source gives: the graph of its definitions, or the error
/// of reading it, or else an error of binding its definitions.
pub open spec fn load_result(source: Seq<char>, r: Result<Map<Seq<char>, NodeModel>, LoadError>) -> bool {
    match definitions_of(source) {
        Err(e) => r matches Err(LoadError::Parse(found)) && found@ == e,
        Ok(defs) => match r {
            Ok(graph) => transform_result(defs, Ok(graph)),
            Err(LoadError::Transform(e)) => transform_result(defs, Err(e@)),
            Err(LoadError::Parse(_)) => false,
        },
    }
}

/// The model of a graph, or the error.
pub open spec fn loaded_model(r: Result<NodeMap, LoadError>) -> Result<Map<Seq<char>, NodeModel>, LoadError> {
    match r {
        Ok(graph) => Ok(graph@),
        Err(e) => Err(e),
    }
}

/// Reads a source and binds its definitions into a graph.
pub fn load_flowscript(script: &str) -> (r: Result<NodeMap, LoadError>)
    ensures
        load_result(script@, loaded_model(r)),
{
    match extract_definitions(script) {
        Err(e) => Err(LoadError::Parse(e)),
        Ok(defs) => match defs_to_graph(defs) {
            Ok(graph) => Ok(graph),
            Err(e) => Err(LoadError::Transform(e)),
        },
    }
}

/// The graph of a run, or the error.
pub open spec fn started_model(r: Result<Execution, LoadError>) -> Result<Map<Seq<char>, NodeModel>, LoadError> {
    match r {
        Ok(run) => Ok(run@.graph),
        Err(e) => Err(e),
    }
}

/// Reads a source, binds its definitions into a graph and starts a run of
/// the graph on `input`: the run is about to enter the node `input`. The
/// caller takes the run's steps and does the work of its tasks.
pub fn execute_flowscript(script: &str, input: JsonValue) -> (r: Result<Execution, LoadError>)
    ensures
        load_result(script@, started_model(r)),
        r matches Ok(run) ==> run@ == start(run@.graph, input@),
{
    match load_flowscript(script) {
        Ok(graph) => Ok(Execution::new(graph, input)),
        Err(e) => Err(e),
    }
}

/// The state after at most `limit` steps: the run stops where it asks for
/// anything but a further step.
pub open spec fn run_for(s: ExecutionModel, limit: nat) -> ExecutionModel
    decreases limit,
{
    if limit == 0 || !(action_of(s) is Continue) {
        s
    } else {
        run_for(step(s), (limit - 1) as nat)
    }
}

/// Takes steps until the run waits for a task, has ended or has failed, but
/// at most `limit` steps.
pub fn run(execution: Execution, limit: usize) -> (r: (Execution, Action))
    ensures
        r.0@ == run_for(execution@, limit as nat),
        r.1@ == action_of(r.0@),
{
    let mut current = execution;
    let mut action = current.action();
    let mut left: usize = limit;
    loop
        invariant
            run_for(execution@, limit as nat) == run_for(current@, left as nat),
            action@ == action_of(current@),
        decreases left,
    {
        let proceed = match action {
            Action::Continue => left > 0,
            _ => false,
        };
        if !proceed {
            return (current, action);
        }
        let (next, asked) = current.advance();
        current = next;
        action = asked;
        left -= 1;
    }
}

} // verus!
