//! Running a graph, one step at a time. A run holds the graph, the node to
//! enter next with the value it gets, and the branches that wait for a
//! value to come back. Work that a task stands for is done outside: the run
//! says which task it waits for, and takes the task's outcome.

use vstd::prelude::*;
use crate::compare::{clone_value, values_equal};
use crate::conditional::{evaluate, evaluate_if_statement};
use crate::nodes::{
    cases_model, name_model, names_model, nodes_model, AddFieldNode, CountNode, IfNode, InputNode,
    MatchNode, MultiNode, Node, NodeMap, NodeModel, SwitchNode, TaskNode,
};
use crate::object::{get_field, into_entries, set_field};
use crate::table::{find_key, lemma_table_keys, lemma_table_last, lemma_table_update};
use crate::text::{chars_of, find_char, first_index_of, trim_of, trimmed};
use crate::transform::{branch_value, safe_parse_to_value};
use crate::value::{
    entries_model, json_fields, json_get, Json, JsonNumber, JsonValue, NumberModel,
};

verus! {

/// Why a run failed.
#[derive(Debug)]
pub enum ExecutionError {
    /// The current value lacks the field that a node reads.
    MissingField(String),
    /// The node had to get or to be handed an object, and the value is none.
    NotAnObject(String),
    /// No node of the graph has this name.
    UnknownNode(String),
    /// The condition of a branch node could not be decided.
    EvaluatorError(String),
    /// The task of this command failed, with this message.
    TaskError(String, String),
    /// The counter of the node cannot count further.
    CounterOverflow(String),
}

/// The model of [`ExecutionError`]: its texts are sequences of characters.
pub enum ExecutionErrorModel {
    MissingField(Seq<char>),
    NotAnObject(Seq<char>),
    UnknownNode(Seq<char>),
    EvaluatorError(Seq<char>),
    TaskError(Seq<char>, Seq<char>),
    CounterOverflow(Seq<char>),
}

impl View for ExecutionError {
    type V = ExecutionErrorModel;

    open spec fn view(&self) -> ExecutionErrorModel {
        match *self {
            ExecutionError::MissingField(s) => ExecutionErrorModel::MissingField(s@),
            ExecutionError::NotAnObject(s) => ExecutionErrorModel::NotAnObject(s@),
            ExecutionError::UnknownNode(s) => ExecutionErrorModel::UnknownNode(s@),
            ExecutionError::EvaluatorError(s) => ExecutionErrorModel::EvaluatorError(s@),
            ExecutionError::TaskError(c, m) => ExecutionErrorModel::TaskError(c@, m@),
            ExecutionError::CounterOverflow(s) => ExecutionErrorModel::CounterOverflow(s@),
        }
    }
}

/// A branch that waits for a value to come back.
#[derive(Debug)]
pub enum Frame {
    /// A fan-out node whose branch `index` runs: the input that each branch
    /// gets, what the branches before returned, and where to go on.
    Multi {
        node: String,
        branches: Vec<String>,
        index: usize,
        input: JsonValue,
        results: Vec<JsonValue>,
        next: String,
    },
    /// A match node whose matching branch runs: where to go on with what
    /// the branch returns.
    Match { default_to: Option<String> },
}

/// The model of [`Frame`]: its texts are sequences of characters.
pub enum FrameModel {
    Multi {
        node: Seq<char>,
        branches: Seq<Seq<char>>,
        index: int,
        input: Json,
        results: Seq<Json>,
        next: Seq<char>,
    },
    Match { default: Option<Seq<char>> },
}

/// The models of a list of values.
pub open spec fn values_model(values: Seq<JsonValue>) -> Seq<Json> {
    values.map_values(|v: JsonValue| v@)
}

impl View for Frame {
    type V = FrameModel;

    open spec fn view(&self) -> FrameModel {
        match *self {
            Frame::Multi { node, branches, index, input, results, next } => FrameModel::Multi {
                node: node@,
                branches: names_model(branches@),
                index: index as int,
                input: input@,
                results: values_model(results@),
                next: next@,
            },
            Frame::Match { default_to } => FrameModel::Match { default: name_model(default_to) },
        }
    }
}

/// What a run does next.
#[derive(Debug)]
pub enum Control {
    /// Enter the node with the value.
    Enter { node: String, value: JsonValue },
    /// Hand the value back to the branch that waits, or end with it.
    Return { value: JsonValue },
    /// Wait for the outcome of the task.
    Await { command: String, input: JsonValue, next: Option<String> },
    /// The run has ended with the value.
    Finished { value: JsonValue },
    /// The run has failed.
    Failed { error: ExecutionError },
}

/// The model of [`Control`]: its texts are sequences of characters.
pub enum ControlModel {
    Enter { node: Seq<char>, value: Json },
    Return { value: Json },
    Await { command: Seq<char>, input: Json, next: Option<Seq<char>> },
    Finished { value: Json },
    Failed { error: ExecutionErrorModel },
}

impl View for Control {
    type V = ControlModel;

    open spec fn view(&self) -> ControlModel {
        match *self {
            Control::Enter { node, value } => ControlModel::Enter { node: node@, value: value@ },
            Control::Return { value } => ControlModel::Return { value: value@ },
            Control::Await { command, input, next } => ControlModel::Await {
                command: command@,
                input: input@,
                next: name_model(next),
            },
            Control::Finished { value } => ControlModel::Finished { value: value@ },
            Control::Failed { error } => ControlModel::Failed { error: error@ },
        }
    }
}

/// A run of a graph.
#[derive(Debug)]
pub struct Execution {
    pub graph: NodeMap,
    pub stack: Vec<Frame>,
    pub control: Control,
}

/// The model of [`Execution`]: its texts are sequences of characters.
pub struct ExecutionModel {
    pub graph: Map<Seq<char>, NodeModel>,
    pub stack: Seq<FrameModel>,
    pub control: ControlModel,
}

pub open spec fn stack_model(stack: Seq<Frame>) -> Seq<FrameModel> {
    stack.map_values(|f: Frame| f@)
}

impl View for Execution {
    type V = ExecutionModel;

    open spec fn view(&self) -> ExecutionModel {
        ExecutionModel { graph: self.graph@, stack: stack_model(self.stack@), control: self.control@ }
    }
}

/// What a run asks of its caller.
#[derive(Debug)]
pub enum Action {
    /// Take the next step.
    Continue,
    /// Do the work of the task on the input, and deliver the outcome.
    RunTask { command: String, input: JsonValue },
    /// The run has ended with the value.
    Finished(JsonValue),
    /// The run has failed.
    Failed(ExecutionError),
}

/// The model of [`Action`]: its texts are sequences of characters.
pub enum ActionModel {
    Continue,
    RunTask { command: Seq<char>, input: Json },
    Finished(Json),
    Failed(ExecutionErrorModel),
}

impl View for Action {
    type V = ActionModel;

    open spec fn view(&self) -> ActionModel {
        match *self {
            Action::Continue => ActionModel::Continue,
            Action::RunTask { command, input } => ActionModel::RunTask { command: command@, input: input@ },
            Action::Finished(value) => ActionModel::Finished(value@),
            Action::Failed(error) => ActionModel::Failed(error@),
        }
    }
}

/// The name of the field that a counter sets.
pub open spec fn count_field() -> Seq<char> {
    "__count"@
}

/// Where the first case whose value is `x` leads.
pub open spec fn first_case(cases: Seq<(Json, Seq<char>)>, x: Json) -> Option<Seq<char>>
    decreases cases.len(),
{
    if cases.len() == 0 {
        None
    } else if cases[0].0 == x {
        Some(cases[0].1)
    } else {
        first_case(cases.drop_first(), x)
    }
}

/// The fields of `base` with those of each result laid over them in order,
/// so that a later result wins; `None` where a result is no object.
pub open spec fn merged_fields(base: Map<Seq<char>, Json>, results: Seq<Json>) -> Option<
    Map<Seq<char>, Json>,
>
    decreases results.len(),
{
    if results.len() == 0 {
        Some(base)
    } else {
        match merged_fields(base, results.drop_last()) {
            None => None,
            Some(fields) => match results.last() {
                Json::Object(more) => Some(fields.union_prefer_right(more)),
                _ => None,
            },
        }
    }
}

/// The key that a setter's label names: what stands before its first colon,
/// without the whitespace around it.
pub open spec fn setter_key(label: Seq<char>) -> Seq<char> {
    trimmed(label, 0, first_index_of(label, ':', 0))
}

/// The text of the value that a setter's label names: what stands after its
/// first colon, without the whitespace around it; `null` where the label
/// has no colon.
pub open spec fn setter_text(label: Seq<char>) -> Seq<char> {
    let colon = first_index_of(label, ':', 0);
    if colon < label.len() {
        trimmed(label, colon + 1, label.len() as int)
    } else {
        "null"@
    }
}

/// The value with the field of a setter's label set.
pub open spec fn set_by_label(label: Seq<char>, value: Json) -> Json {
    Json::Object(json_fields(value).insert(setter_key(label), branch_value(setter_text(label))))
}

/// Going on to `next` with `value`, or handing it back where there is no
/// next node.
pub open spec fn onward(next: Option<Seq<char>>, value: Json) -> ControlModel {
    match next {
        Some(node) => ControlModel::Enter { node, value },
        None => ControlModel::Return { value },
    }
}

/// What entering a node does: the node afterwards, the branch that now
/// waits for a value where there is one, and what the run does next.
pub struct Entered {
    pub node: NodeModel,
    pub frame: Option<FrameModel>,
    pub control: ControlModel,
}

/// A failure with `error`.
pub open spec fn failed(error: ExecutionErrorModel) -> ControlModel {
    ControlModel::Failed { error }
}

/// What entering the node `node`, known as `name`, with `value` does.
pub open spec fn enter_node(node: NodeModel, name: Seq<char>, value: Json) -> Entered {
    match node {
        NodeModel::Input { next } => Entered {
            node,
            frame: None,
            control: ControlModel::Enter { node: next, value },
        },
        NodeModel::Task { command, follow } => Entered {
            node,
            frame: None,
            control: ControlModel::Await { command, input: value, next: follow },
        },
        NodeModel::If { condition, true_branch, false_branch } => Entered {
            node,
            frame: None,
            control: match evaluate(condition, value) {
                Ok(outcome) => ControlModel::Enter {
                    node: if outcome {
                        true_branch
                    } else {
                        false_branch
                    },
                    value,
                },
                Err(e) => failed(ExecutionErrorModel::EvaluatorError(e.message)),
            },
        },
        NodeModel::Count { count, next } => if count >= usize::MAX {
            Entered { node, frame: None, control: failed(ExecutionErrorModel::CounterOverflow(name)) }
        } else {
            Entered {
                node: NodeModel::Count { count: count + 1, next },
                frame: None,
                control: match value {
                    Json::Object(fields) => ControlModel::Enter {
                        node: next,
                        value: Json::Object(
                            fields.insert(count_field(), Json::Number(NumberModel::Int(count as int + 1))),
                        ),
                    },
                    _ => failed(ExecutionErrorModel::NotAnObject(name)),
                },
            }
        },
        NodeModel::Multi { run_before, next } => if run_before.len() == 0 {
            Entered {
                node,
                frame: None,
                control: ControlModel::Enter { node: next, value: Json::Object(json_fields(value)) },
            }
        } else {
            Entered {
                node,
                frame: Some(
                    FrameModel::Multi {
                        node: name,
                        branches: run_before,
                        index: 0,
                        input: value,
                        results: Seq::empty(),
                        next,
                    },
                ),
                control: ControlModel::Enter { node: run_before[0], value },
            }
        },
        NodeModel::Switch { field, cases, default } => Entered {
            node,
            frame: None,
            control: match json_get(value, field) {
                None => failed(ExecutionErrorModel::MissingField(field)),
                Some(x) => match first_case(cases, x) {
                    Some(target) => ControlModel::Enter { node: target, value },
                    None => onward(default, value),
                },
            },
        },
        NodeModel::Match { field, cases, default } => match json_get(value, field) {
            None => Entered { node, frame: None, control: failed(ExecutionErrorModel::MissingField(field)) },
            Some(x) => match first_case(cases, x) {
                Some(target) => Entered {
                    node,
                    frame: Some(FrameModel::Match { default }),
                    control: ControlModel::Enter { node: target, value },
                },
                None => Entered { node, frame: None, control: onward(default, value) },
            },
        },
        NodeModel::AddField { label, follow } => Entered {
            node,
            frame: None,
            control: onward(follow, set_by_label(label, value)),
        },
    }
}

/// The stack with one more branch waiting, where there is one.
pub open spec fn pushed(stack: Seq<FrameModel>, frame: Option<FrameModel>) -> Seq<FrameModel> {
    match frame {
        Some(f) => stack.push(f),
        None => stack,
    }
}

/// The state after the node `name` is entered with `value`: a failure where
/// the graph has no such node.
pub open spec fn enter(
    graph: Map<Seq<char>, NodeModel>,
    stack: Seq<FrameModel>,
    name: Seq<char>,
    value: Json,
) -> ExecutionModel {
    if !graph.contains_key(name) {
        ExecutionModel { graph, stack, control: failed(ExecutionErrorModel::UnknownNode(name)) }
    } else {
        let entered = enter_node(graph[name], name, value);
        ExecutionModel {
            graph: graph.insert(name, entered.node),
            stack: pushed(stack, entered.frame),
            control: entered.control,
        }
    }
}

/// The state after `value` is handed back: to the branch that waits on top
/// of the stack, or as the end of the run.
pub open spec fn leave(graph: Map<Seq<char>, NodeModel>, stack: Seq<FrameModel>, value: Json) -> ExecutionModel {
    if stack.len() == 0 {
        ExecutionModel { graph, stack, control: ControlModel::Finished { value } }
    } else {
        match stack.last() {
            FrameModel::Match { default } => ExecutionModel {
                graph,
                stack: stack.drop_last(),
                control: onward(default, value),
            },
            FrameModel::Multi { node, branches, index, input, results, next } => if index + 1
                < branches.len() {
                ExecutionModel {
                    graph,
                    stack: stack.drop_last().push(
                        FrameModel::Multi {
                            node,
                            branches,
                            index: index + 1,
                            input,
                            results: results.push(value),
                            next,
                        },
                    ),
                    control: ControlModel::Enter { node: branches[index + 1], value: input },
                }
            } else {
                ExecutionModel {
                    graph,
                    stack: stack.drop_last(),
                    control: match merged_fields(json_fields(input), results.push(value)) {
                        Some(fields) => ControlModel::Enter { node: next, value: Json::Object(fields) },
                        None => failed(ExecutionErrorModel::NotAnObject(node)),
                    },
                }
            },
        }
    }
}

/// The state after one step: a node is entered or a value handed back; a
/// run that waits for a task, has ended or has failed stays as it is.
pub open spec fn step(s: ExecutionModel) -> ExecutionModel {
    match s.control {
        ControlModel::Enter { node, value } => enter(s.graph, s.stack, node, value),
        ControlModel::Return { value } => leave(s.graph, s.stack, value),
        _ => s,
    }
}

/// What a run in the state `s` asks of its caller.
pub open spec fn action_of(s: ExecutionModel) -> ActionModel {
    match s.control {
        ControlModel::Enter { .. } => ActionModel::Continue,
        ControlModel::Return { .. } => ActionModel::Continue,
        ControlModel::Await { command, input, .. } => ActionModel::RunTask { command, input },
        ControlModel::Finished { value } => ActionModel::Finished(value),
        ControlModel::Failed { error } => ActionModel::Failed(error),
    }
}

/// The state after the outcome of the awaited task is delivered: the run
/// goes on with the task's value, or fails with its message. A run that
/// waits for no task stays as it is.
pub open spec fn deliver(s: ExecutionModel, outcome: Result<Json, Seq<char>>) -> ExecutionModel {
    match s.control {
        ControlModel::Await { command, input, next } => ExecutionModel {
            graph: s.graph,
            stack: s.stack,
            control: match outcome {
                Ok(value) => onward(next, value),
                Err(message) => failed(ExecutionErrorModel::TaskError(command, message)),
            },
        },
        _ => s,
    }
}

/// The state in which a run of `graph` on `input` starts.
pub open spec fn start(graph: Map<Seq<char>, NodeModel>, input: Json) -> ExecutionModel {
    ExecutionModel {
        graph,
        stack: Seq::empty(),
        control: ControlModel::Enter { node: "input"@, value: input },
    }
}

/// A copy of a list of names.
fn clone_names(names: &Vec<String>) -> (r: Vec<String>)
    ensures
        names_model(r@) == names_model(names@),
{
    let mut out: Vec<String> = Vec::new();
    let mut i: usize = 0;
    while i < names.len()
        invariant
            i <= names.len(),
            out.len() == i,
            forall|k: int| 0 <= k < i ==> (#[trigger] out@[k])@ == names@[k]@,
        decreases names.len() - i,
    {
        out.push(names[i].clone());
        i += 1;
    }
    assert(names_model(out@) =~= names_model(names@));
    out
}

/// A copy of an optional name.
fn clone_name(name: &Option<String>) -> (r: Option<String>)
    ensures
        name_model(r) == name_model(*name),
{
    match name {
        Some(s) => Some(s.clone()),
        None => None,
    }
}

/// Where the first case whose value is `x` leads.
pub fn find_case(cases: &Vec<(JsonValue, String)>, x: &JsonValue) -> (r: Option<String>)
    ensures
        name_model(r) == first_case(cases_model(cases@), x@),
{
    let ghost all = cases_model(cases@);
    let mut i: usize = 0;
    assert(all.skip(0) =~= all);
    while i < cases.len()
        invariant
            i <= cases.len(),
            all == cases_model(cases@),
            first_case(all, x@) == first_case(all.skip(i as int), x@),
        decreases cases.len() - i,
    {
        proof {
            assert(all.skip(i as int)[0] == (cases@[i as int].0@, cases@[i as int].1@));
            assert(all.skip(i as int).drop_first() =~= all.skip(i + 1));
        }
        if values_equal(&cases[i].0, x) {
            return Some(cases[i].1.clone());
        }
        i += 1;
    }
    None
}

/// Lays the entries of `more` over `merged`, in order.
fn lay_over(merged: &mut Vec<(String, JsonValue)>, more: &Vec<(String, JsonValue)>)
    ensures
        entries_model(final(merged)@) == entries_model(old(merged)@).union_prefer_right(
            entries_model(more@),
        ),
{
    let ghost base = entries_model(merged@);
    let mut i: usize = 0;
    assert(more@.take(0) =~= Seq::empty());
    assert(base.union_prefer_right(entries_model(more@.take(0))) =~= base);
    while i < more.len()
        invariant
            i <= more.len(),
            base == entries_model(old(merged)@),
            entries_model(merged@) == base.union_prefer_right(entries_model(more@.take(i as int))),
        decreases more.len() - i,
    {
        let ghost before = entries_model(merged@);
        let key = more[i].0.clone();
        let value = clone_value(&more[i].1);
        set_field(merged, key, value);
        proof {
            assert(more@.take(i + 1).drop_last() =~= more@.take(i as int));
            assert(more@.take(i + 1).last() == more@[i as int]);
            assert(entries_model(merged@) =~= base.union_prefer_right(
                entries_model(more@.take(i + 1)),
            ));
        }
        i += 1;
    }
    assert(more@.take(more.len() as int) =~= more@);
}

/// The value of an optional object of fields.
pub open spec fn merged_model(r: Option<JsonValue>) -> Option<Map<Seq<char>, Json>> {
    match r {
        Some(v) => Some(json_fields(v@)),
        None => None,
    }
}

/// Merges what the branches of a fan-out returned into its input: the
/// fields of the input, where it is an object, with those of each result
/// laid over them in order, so that a later result wins. `None` where a
/// result is no object.
pub fn merge_results(input: JsonValue, results: &Vec<JsonValue>) -> (r: Option<JsonValue>)
    ensures
        merged_model(r) == merged_fields(json_fields(input@), values_model(results@)),
        r matches Some(v) ==> v@ is Object,
{
    let ghost base = json_fields(input@);
    let ghost all = values_model(results@);
    let mut merged = into_entries(input);
    let mut i: usize = 0;
    assert(all.take(0) =~= Seq::empty());
    while i < results.len()
        invariant
            i <= results.len(),
            all == values_model(results@),
            base == json_fields(input@),
            merged_fields(base, all.take(i as int)) == Some(entries_model(merged@)),
        decreases results.len() - i,
    {
        proof {
            assert(all.take(i + 1).drop_last() =~= all.take(i as int));
            assert(all.take(i + 1).last() == results@[i as int]@);
        }
        match &results[i] {
            JsonValue::Object(more) => {
                lay_over(&mut merged, more);
            },
            _ => {
                proof {
                    lemma_merge_fails(base, all, i + 1);
                }
                return None;
            },
        }
        i += 1;
    }
    assert(all.take(results.len() as int) =~= all);
    Some(JsonValue::Object(merged))
}

/// Where the first results do not merge, all of them do not.
proof fn lemma_merge_fails(base: Map<Seq<char>, Json>, results: Seq<Json>, n: int)
    requires
        0 <= n <= results.len(),
        merged_fields(base, results.take(n)) is None,
    ensures
        merged_fields(base, results) is None,
    decreases results.len() - n,
{
    if n < results.len() {
        assert(results.take(n + 1).drop_last() =~= results.take(n));
        lemma_merge_fails(base, results, n + 1);
    } else {
        assert(results.take(n) =~= results);
    }
}

/// Sets the field that a setter's label names, in the value where it is an
/// object and in an empty object otherwise.
pub fn apply_setter(label: &str, value: JsonValue) -> (r: JsonValue)
    ensures
        r@ == set_by_label(label@, value@),
{
    let chars = chars_of(label);
    let colon = find_char(&chars, ':', 0);
    let key = trim_of(&chars, 0, colon);
    let text = if colon < chars.len() {
        trim_of(&chars, colon + 1, chars.len())
    } else {
        "null".to_owned()
    };
    let field = safe_parse_to_value(text.as_str());
    let mut entries = into_entries(value);
    set_field(&mut entries, key, field);
    JsonValue::Object(entries)
}

/// Going on to `next` with `value`, or handing it back where there is no
/// next node.
fn go_on(next: &Option<String>, value: JsonValue) -> (r: Control)
    ensures
        r@ == onward(name_model(*next), value@),
{
    match next {
        Some(node) => Control::Enter { node: node.clone(), value },
        None => Control::Return { value },
    }
}

impl InputNode {
    /// Hands the input on to the next node.
    pub fn execute(&self, value: JsonValue) -> (r: Control)
        ensures
            r@ == (ControlModel::Enter { node: self.points_to@, value: value@ }),
    {
        Control::Enter { node: self.points_to.clone(), value }
    }
}

impl TaskNode {
    /// Waits for the task of its command, on the input.
    pub fn execute(&self, value: JsonValue) -> (r: Control)
        ensures
            r@ == (ControlModel::Await {
                command: self.command@,
                input: value@,
                next: name_model(self.points_to),
            }),
    {
        Control::Await { command: self.command.clone(), input: value, next: clone_name(&self.points_to) }
    }
}

impl IfNode {
    /// Decides the condition on the input and goes to the branch of the
    /// outcome, with the input unchanged.
    pub fn execute(&self, value: JsonValue) -> (r: Control)
        ensures
            forall|name: Seq<char>|
                r@ == (#[trigger] enter_node(Node::If(*self)@, name, value@)).control,
    {
        match evaluate_if_statement(self.condition.as_str(), &value) {
            Ok(outcome) => {
                if outcome {
                    Control::Enter { node: self.true_branch.clone(), value }
                } else {
                    Control::Enter { node: self.false_branch.clone(), value }
                }
            },
            Err(e) => Control::Failed { error: ExecutionError::EvaluatorError(e.message) },
        }
    }
}

impl CountNode {
    /// Counts one more pass, sets the field `__count` of the input to the
    /// new count and hands it on. Fails on an input that is no object, after
    /// counting, and where the counter is at its limit, without counting.
    pub fn execute(&mut self, name: &str, value: JsonValue) -> (r: Control)
        ensures
            Node::Count(*final(self))@ == enter_node(Node::Count(*old(self))@, name@, value@).node,
            r@ == enter_node(Node::Count(*old(self))@, name@, value@).control,
    {
        if self.count == usize::MAX {
            return Control::Failed { error: ExecutionError::CounterOverflow(name.to_owned()) };
        }
        self.count = self.count + 1;
        match value {
            JsonValue::Object(entries) => {
                let mut entries = entries;
                set_field(
                    &mut entries,
                    "__count".to_owned(),
                    JsonValue::Number(JsonNumber::PosInt(self.count as u64)),
                );
                Control::Enter { node: self.points_to.clone(), value: JsonValue::Object(entries) }
            },
            _ => Control::Failed { error: ExecutionError::NotAnObject(name.to_owned()) },
        }
    }
}

/// The model of an optional frame.
pub open spec fn frame_model(frame: Option<Frame>) -> Option<FrameModel> {
    match frame {
        Some(f) => Some(f@),
        None => None,
    }
}

impl MultiNode {
    /// Starts the first branch on a copy of the input, with the fan-out
    /// waiting for what it returns; without branches, goes on with the
    /// input as an object.
    pub fn execute(&self, name: &str, value: JsonValue) -> (r: (Option<Frame>, Control))
        ensures
            frame_model(r.0) == enter_node(Node::Multi(*self)@, name@, value@).frame,
            r.1@ == enter_node(Node::Multi(*self)@, name@, value@).control,
    {
        if self.run_before.len() == 0 {
            let merged = JsonValue::Object(into_entries(value));
            (None, Control::Enter { node: self.points_to.clone(), value: merged })
        } else {
            let first = self.run_before[0].clone();
            assert(names_model(self.run_before@)[0] == first@);
            let copy = clone_value(&value);
            let results: Vec<JsonValue> = Vec::new();
            assert(values_model(results@) =~= Seq::empty());
            let frame = Frame::Multi {
                node: name.to_owned(),
                branches: clone_names(&self.run_before),
                index: 0,
                input: value,
                results,
                next: self.points_to.clone(),
            };
            (Some(frame), Control::Enter { node: first, value: copy })
        }
    }
}

impl SwitchNode {
    /// Goes to the first case whose value the field of the input equals,
    /// with the input unchanged; to the default where no case matches; and
    /// hands the input back where there is no default either.
    pub fn execute(&self, value: JsonValue) -> (r: Control)
        ensures
            forall|name: Seq<char>|
                r@ == (#[trigger] enter_node(Node::Switch(*self)@, name, value@)).control,
    {
        let target = match get_field(&value, self.field.as_str()) {
            None => {
                return Control::Failed { error: ExecutionError::MissingField(self.field.clone()) };
            },
            Some(x) => find_case(&self.cases_to, x),
        };
        match target {
            Some(node) => Control::Enter { node, value },
            None => go_on(&self.default_to, value),
        }
    }
}

impl MatchNode {
    /// Starts the first case whose value the field of the input equals, with
    /// the default waiting for what it returns; goes to the default with the
    /// input where no case matches.
    pub fn execute(&self, value: JsonValue) -> (r: (Option<Frame>, Control))
        ensures
            forall|name: Seq<char>|
                frame_model(r.0) == (#[trigger] enter_node(Node::Match(*self)@, name, value@)).frame,
            forall|name: Seq<char>|
                r.1@ == (#[trigger] enter_node(Node::Match(*self)@, name, value@)).control,
    {
        let target = match get_field(&value, self.field.as_str()) {
            None => {
                return (
                    None,
                    Control::Failed { error: ExecutionError::MissingField(self.field.clone()) },
                );
            },
            Some(x) => find_case(&self.cases_to, x),
        };
        match target {
            Some(node) => (
                Some(Frame::Match { default_to: clone_name(&self.default_to) }),
                Control::Enter { node, value },
            ),
            None => (None, go_on(&self.default_to, value)),
        }
    }
}

impl AddFieldNode {
    /// Sets the field that the label names and goes on with the value.
    pub fn execute(&self, value: JsonValue) -> (r: Control)
        ensures
            forall|name: Seq<char>|
                r@ == (#[trigger] enter_node(Node::AddField(*self)@, name, value@)).control,
    {
        let changed = apply_setter(self.label.as_str(), value);
        go_on(&self.points_to, changed)
    }
}

/// A copy of an error.
fn clone_error(error: &ExecutionError) -> (r: ExecutionError)
    ensures
        r@ == error@,
{
    match error {
        ExecutionError::MissingField(s) => ExecutionError::MissingField(s.clone()),
        ExecutionError::NotAnObject(s) => ExecutionError::NotAnObject(s.clone()),
        ExecutionError::UnknownNode(s) => ExecutionError::UnknownNode(s.clone()),
        ExecutionError::EvaluatorError(s) => ExecutionError::EvaluatorError(s.clone()),
        ExecutionError::TaskError(c, m) => ExecutionError::TaskError(c.clone(), m.clone()),
        ExecutionError::CounterOverflow(s) => ExecutionError::CounterOverflow(s.clone()),
    }
}

/// The model of a task's outcome.
pub open spec fn outcome_of(outcome: Result<JsonValue, String>) -> Result<Json, Seq<char>> {
    match outcome {
        Ok(v) => Ok(v@),
        Err(message) => Err(message@),
    }
}

/// Enters the node `name` of the graph with `value`.
fn enter_graph(graph: NodeMap, stack: Vec<Frame>, name: String, value: JsonValue) -> (r: Execution)
    ensures
        r@ == enter(graph@, stack_model(stack@), name@, value@),
{
    let mut nodes = graph.nodes;
    let mut stack = stack;
    let ghost before = nodes@;
    let ghost frames = stack_model(stack@);
    proof {
        lemma_table_keys(before, |n: Node| n@, name@);
    }
    let i = match find_key(&nodes, name.as_str()) {
        None => {
            return Execution {
                graph: NodeMap { nodes },
                stack,
                control: Control::Failed { error: ExecutionError::UnknownNode(name) },
            };
        },
        Some(i) => i,
    };
    proof {
        lemma_table_last(before, |n: Node| n@, name@, i as int);
    }
    let ghost g = nodes_model(before);
    let (frame, control) = match &nodes[i].1 {
        Node::Input(n) => (None, n.execute(value)),
        Node::Task(n) => (None, n.execute(value)),
        Node::If(n) => (None, n.execute(value)),
        Node::Count(n) => {
            let mut counter = CountNode { count: n.count, points_to: n.points_to.clone() };
            let control = counter.execute(name.as_str(), value);
            proof {
                lemma_table_update(before, |x: Node| x@, i as int, (name, Node::Count(counter)));
            }
            nodes.set(i, (name, Node::Count(counter)));
            return Execution { graph: NodeMap { nodes }, stack, control };
        },
        Node::Multi(n) => n.execute(name.as_str(), value),
        Node::Switch(n) => (None, n.execute(value)),
        Node::Match(n) => n.execute(value),
        Node::AddField(n) => (None, n.execute(value)),
    };
    proof {
        assert(g.insert(name@, g[name@]) =~= g);
    }
    match frame {
        Some(f) => {
            stack.push(f);
            assert(stack_model(stack@) =~= frames.push(f@));
        },
        None => {},
    }
    Execution { graph: NodeMap { nodes }, stack, control }
}

/// Hands `value` back to the branch that waits on top of the stack, or ends
/// the run with it.
fn leave_graph(graph: NodeMap, stack: Vec<Frame>, value: JsonValue) -> (r: Execution)
    ensures
        r@ == leave(graph@, stack_model(stack@), value@),
{
    let mut stack = stack;
    let ghost frames = stack_model(stack@);
    match stack.pop() {
        None => Execution { graph, stack, control: Control::Finished { value } },
        Some(frame) => {
            proof {
                assert(stack_model(stack@) =~= frames.drop_last());
                assert(frames.last() == frame@);
            }
            match frame {
                Frame::Match { default_to } => {
                    let control = go_on(&default_to, value);
                    Execution { graph, stack, control }
                },
                Frame::Multi { node, branches, index, input, results, next } => {
                    let mut results = results;
                    let ghost earlier = values_model(results@);
                    results.push(value);
                    assert(values_model(results@) =~= earlier.push(value@));
                    if branches.len() > 0 && index < branches.len() - 1 {
                        let target = branches[index + 1].clone();
                        assert(names_model(branches@)[index + 1] == target@);
                        let copy = clone_value(&input);
                        let waiting = Frame::Multi { node, branches, index: index + 1, input, results, next };
                        let ghost rest = stack_model(stack@);
                        stack.push(waiting);
                        assert(stack_model(stack@) =~= rest.push(waiting@));
                        Execution { graph, stack, control: Control::Enter { node: target, value: copy } }
                    } else {
                        let control = match merge_results(input, &results) {
                            Some(merged) => Control::Enter { node: next, value: merged },
                            None => Control::Failed { error: ExecutionError::NotAnObject(node) },
                        };
                        Execution { graph, stack, control }
                    }
                },
            }
        },
    }
}

impl Execution {
    /// A run of `graph` on `input`, about to enter the node `input`.
    pub fn new(graph: NodeMap, input: JsonValue) -> (r: Execution)
        ensures
            r@ == start(graph@, input@),
    {
        let stack: Vec<Frame> = Vec::new();
        assert(stack_model(stack@) =~= Seq::empty());
        Execution { graph, stack, control: Control::Enter { node: "input".to_owned(), value: input } }
    }

    /// What the run asks of its caller.
    pub fn action(&self) -> (r: Action)
        ensures
            r@ == action_of(self@),
    {
        match &self.control {
            Control::Enter { .. } => Action::Continue,
            Control::Return { .. } => Action::Continue,
            Control::Await { command, input, .. } => Action::RunTask {
                command: command.clone(),
                input: clone_value(input),
            },
            Control::Finished { value } => Action::Finished(clone_value(value)),
            Control::Failed { error } => Action::Failed(clone_error(error)),
        }
    }

    /// Takes one step, and says what the run asks next.
    pub fn advance(self) -> (r: (Execution, Action))
        ensures
            r.0@ == step(self@),
            r.1@ == action_of(step(self@)),
    {
        let Execution { graph, stack, control } = self;
        let next = match control {
            Control::Enter { node, value } => enter_graph(graph, stack, node, value),
            Control::Return { value } => leave_graph(graph, stack, value),
            Control::Await { command, input, next } => Execution {
                graph,
                stack,
                control: Control::Await { command, input, next },
            },
            Control::Finished { value } => Execution { graph, stack, control: Control::Finished { value } },
            Control::Failed { error } => Execution { graph, stack, control: Control::Failed { error } },
        };
        let action = next.action();
        (next, action)
    }

    /// Delivers the outcome of the awaited task: its value, or the message
    /// of its failure.
    pub fn deliver(self, outcome: Result<JsonValue, String>) -> (r: Execution)
        ensures
            r@ == deliver(self@, outcome_of(outcome)),
    {
        let Execution { graph, stack, control } = self;
        match control {
            Control::Await { command, input, next } => {
                let control = match outcome {
                    Ok(value) => go_on(&next, value),
                    Err(message) => Control::Failed { error: ExecutionError::TaskError(command, message) },
                };
                Execution { graph, stack, control }
            },
            other => Execution { graph, stack, control: other },
        }
    }
}

} // verus!
