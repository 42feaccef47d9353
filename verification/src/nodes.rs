//! The nodes of an executable graph. A node names its successors; the graph
//! owns every node.

use vstd::prelude::*;
use crate::table::table_model;
use crate::value::{Json, JsonValue};

verus! {

/// The entry point: hands its input on.
#[derive(Debug)]
pub struct InputNode {
    pub points_to: String,
}

/// A unit of outside work, known by its command.
#[derive(Debug)]
pub struct TaskNode {
    pub command: String,
    pub points_to: Option<String>,
}

/// A branch on a condition over the current value.
#[derive(Debug)]
pub struct IfNode {
    pub condition: String,
    pub true_branch: String,
    pub false_branch: String,
}

/// Counts how often it is passed.
#[derive(Debug)]
pub struct CountNode {
    pub count: usize,
    pub points_to: String,
}

/// Runs several nodes on one input and merges what they return.
#[derive(Debug)]
pub struct MultiNode {
    pub run_before: Vec<String>,
    pub points_to: String,
}

/// Goes to the one branch whose value a field of the input equals.
#[derive(Debug)]
pub struct SwitchNode {
    pub field: String,
    pub cases_to: Vec<(JsonValue, String)>,
    pub default_to: Option<String>,
}

/// Runs the branch whose value a field of the input equals, then goes on to
/// the default branch with what the branch returned.
#[derive(Debug)]
pub struct MatchNode {
    pub field: String,
    pub cases_to: Vec<(JsonValue, String)>,
    pub default_to: Option<String>,
}

/// Sets one field of the current value.
#[derive(Debug)]
pub struct AddFieldNode {
    pub label: String,
    pub points_to: Option<String>,
}

/// A node of any kind.
#[derive(Debug)]
pub enum Node {
    Input(InputNode),
    Task(TaskNode),
    If(IfNode),
    Count(CountNode),
    Multi(MultiNode),
    Switch(SwitchNode),
    Match(MatchNode),
    AddField(AddFieldNode),
}

/// The model of [`Node`]: its texts are sequences of characters.
pub enum NodeModel {
    Input { next: Seq<char> },
    Task { command: Seq<char>, follow: Option<Seq<char>> },
    If { condition: Seq<char>, true_branch: Seq<char>, false_branch: Seq<char> },
    Count { count: nat, next: Seq<char> },
    Multi { run_before: Seq<Seq<char>>, next: Seq<char> },
    Switch { field: Seq<char>, cases: Seq<(Json, Seq<char>)>, default: Option<Seq<char>> },
    Match { field: Seq<char>, cases: Seq<(Json, Seq<char>)>, default: Option<Seq<char>> },
    AddField { label: Seq<char>, follow: Option<Seq<char>> },
}

/// The text of an optional name.
pub open spec fn name_model(name: Option<String>) -> Option<Seq<char>> {
    match name {
        Some(s) => Some(s@),
        None => None,
    }
}

/// The texts of a list of names.
pub open spec fn names_model(names: Seq<String>) -> Seq<Seq<char>> {
    names.map_values(|s: String| s@)
}

/// The models of a list of cases.
pub open spec fn cases_model(cases: Seq<(JsonValue, String)>) -> Seq<(Json, Seq<char>)> {
    cases.map_values(|c: (JsonValue, String)| (c.0@, c.1@))
}

impl View for Node {
    type V = NodeModel;

    open spec fn view(&self) -> NodeModel {
        match *self {
            Node::Input(n) => NodeModel::Input { next: n.points_to@ },
            Node::Task(n) => NodeModel::Task { command: n.command@, follow: name_model(n.points_to) },
            Node::If(n) => NodeModel::If {
                condition: n.condition@,
                true_branch: n.true_branch@,
                false_branch: n.false_branch@,
            },
            Node::Count(n) => NodeModel::Count { count: n.count as nat, next: n.points_to@ },
            Node::Multi(n) => NodeModel::Multi {
                run_before: names_model(n.run_before@),
                next: n.points_to@,
            },
            Node::Switch(n) => NodeModel::Switch {
                field: n.field@,
                cases: cases_model(n.cases_to@),
                default: name_model(n.default_to),
            },
            Node::Match(n) => NodeModel::Match {
                field: n.field@,
                cases: cases_model(n.cases_to@),
                default: name_model(n.default_to),
            },
            Node::AddField(n) => NodeModel::AddField { label: n.label@, follow: name_model(n.points_to) },
        }
    }
}

impl CountNode {
    /// A counter that has not been passed yet.
    pub fn new(points_to: String) -> (r: CountNode)
        ensures
            r.count == 0,
            r.points_to == points_to,
    {
        CountNode { count: 0, points_to }
    }
}

/// A graph: every node under its name. The last entry of a name is the one
/// that counts.
#[derive(Debug)]
pub struct NodeMap {
    pub nodes: Vec<(String, Node)>,
}

pub open spec fn nodes_model(nodes: Seq<(String, Node)>) -> Map<Seq<char>, NodeModel> {
    table_model(nodes, |n: Node| n@)
}

impl View for NodeMap {
    type V = Map<Seq<char>, NodeModel>;

    open spec fn view(&self) -> Map<Seq<char>, NodeModel> {
        nodes_model(self.nodes@)
    }
}

} // verus!
