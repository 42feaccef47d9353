//! What a Flowscript source defines: named nodes and the connections between
//! them, before they are bound into a graph.

use vstd::prelude::*;
use crate::table::{same_text, table_model};

verus! {

/// What kind of node a name stands for, with the text its kind needs.
#[derive(Debug, Clone, PartialEq, Eq)]
pub enum NodeDef {
    Input,
    Task,
    IfStatement(String),
    Count,
    Multi,
    Switch(String),
    Match(String),
    Setter(String),
}

/// The model of [`NodeDef`]: its texts are sequences of characters.
pub enum NodeDefModel {
    Input,
    Task,
    IfStatement(Seq<char>),
    Count,
    Multi,
    Switch(Seq<char>),
    Match(Seq<char>),
    Setter(Seq<char>),
}

impl View for NodeDef {
    type V = NodeDefModel;

    open spec fn view(&self) -> NodeDefModel {
        match *self {
            NodeDef::Input => NodeDefModel::Input,
            NodeDef::Task => NodeDefModel::Task,
            NodeDef::IfStatement(s) => NodeDefModel::IfStatement(s@),
            NodeDef::Count => NodeDefModel::Count,
            NodeDef::Multi => NodeDefModel::Multi,
            NodeDef::Switch(s) => NodeDefModel::Switch(s@),
            NodeDef::Match(s) => NodeDefModel::Match(s@),
            NodeDef::Setter(s) => NodeDefModel::Setter(s@),
        }
    }
}

/// The role of a connection.
#[derive(Debug, Clone, PartialEq, Eq)]
pub enum ConnectionType {
    Default,
    IfResult(bool),
    SwitchBranch(String),
    MatchBranch(String),
    MultiOut,
}

/// The model of [`ConnectionType`]: its texts are sequences of characters.
pub enum ConnectionModel {
    Default,
    IfResult(bool),
    SwitchBranch(Seq<char>),
    MatchBranch(Seq<char>),
    MultiOut,
}

impl View for ConnectionType {
    type V = ConnectionModel;

    open spec fn view(&self) -> ConnectionModel {
        match *self {
            ConnectionType::Default => ConnectionModel::Default,
            ConnectionType::IfResult(b) => ConnectionModel::IfResult(b),
            ConnectionType::SwitchBranch(s) => ConnectionModel::SwitchBranch(s@),
            ConnectionType::MatchBranch(s) => ConnectionModel::MatchBranch(s@),
            ConnectionType::MultiOut => ConnectionModel::MultiOut,
        }
    }
}

/// A directed connection between two named nodes.
#[derive(Debug, Clone, PartialEq, Eq)]
pub struct ConnectionDef {
    pub from: String,
    pub to: String,
    pub c_type: ConnectionType,
}

/// The model of [`ConnectionDef`]: its texts are sequences of characters.
pub struct ConnectionDefModel {
    pub from: Seq<char>,
    pub to: Seq<char>,
    pub c_type: ConnectionModel,
}

impl View for ConnectionDef {
    type V = ConnectionDefModel;

    open spec fn view(&self) -> ConnectionDefModel {
        ConnectionDefModel { from: self.from@, to: self.to@, c_type: self.c_type@ }
    }
}

/// The definitions of a source. In `variables` the last entry of a name is
/// the one that counts.
#[derive(Debug, Clone, PartialEq, Eq)]
pub struct Defs {
    pub variables: Vec<(String, NodeDef)>,
    pub connections: Vec<ConnectionDef>,
}

/// The model of [`Defs`]: its texts are sequences of characters.
pub struct DefsModel {
    pub variables: Map<Seq<char>, NodeDefModel>,
    pub connections: Seq<ConnectionDefModel>,
}

/// The models of a list of connections, in order.
pub open spec fn connections_model(connections: Seq<ConnectionDef>) -> Seq<ConnectionDefModel> {
    connections.map_values(|c: ConnectionDef| c@)
}

/// The map from each defined name to its definition.
pub open spec fn variables_model(variables: Seq<(String, NodeDef)>) -> Map<Seq<char>, NodeDefModel> {
    table_model(variables, |d: NodeDef| d@)
}

impl View for Defs {
    type V = DefsModel;

    open spec fn view(&self) -> DefsModel {
        DefsModel {
            variables: variables_model(self.variables@),
            connections: connections_model(self.connections@),
        }
    }
}

/// Whether two connection types are the same.
pub fn same_type(a: &ConnectionType, b: &ConnectionType) -> (r: bool)
    ensures
        r == (a@ == b@),
{
    match (a, b) {
        (ConnectionType::Default, ConnectionType::Default) => true,
        (ConnectionType::IfResult(x), ConnectionType::IfResult(y)) => *x == *y,
        (ConnectionType::SwitchBranch(x), ConnectionType::SwitchBranch(y)) => same_text(
            x.as_str(),
            y.as_str(),
        ),
        (ConnectionType::MatchBranch(x), ConnectionType::MatchBranch(y)) => same_text(
            x.as_str(),
            y.as_str(),
        ),
        (ConnectionType::MultiOut, ConnectionType::MultiOut) => true,
        _ => false,
    }
}

} // verus!
