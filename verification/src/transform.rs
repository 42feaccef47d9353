//! Binding definitions into a graph: each defined name becomes a node that
//! names its successors, by the connections that leave it.

use vstd::prelude::*;
use crate::definitions::connections_closed;
use crate::defs::{
    connections_model, same_type, ConnectionDef, ConnectionDefModel, ConnectionModel,
    ConnectionType, Defs, DefsModel, NodeDef, NodeDefModel,
};
use crate::json::{json_from_str, json_text_value};
use crate::nodes::{
    cases_model, name_model, names_model, nodes_model, AddFieldNode, CountNode, IfNode, InputNode,
    MatchNode, MultiNode, Node, NodeMap, NodeModel, SwitchNode, TaskNode,
};
use crate::table::{
    find_key, is_last_key, lemma_last_exists, lemma_table_keys, lemma_table_last,
    lemma_table_push, same_text,
};
use crate::value::{Json, JsonValue};

verus! {

/// Why definitions cannot be bound into a graph.
#[derive(Debug, Clone, PartialEq, Eq)]
pub enum TransformError {
    /// The node lacks the default connection that it needs, or has more
    /// than one where it needs exactly one.
    NoConnection(String),
    /// The condition node lacks the branch for this outcome.
    MissingBranch(String, bool),
    /// A connection leads to a name that is not defined.
    UnknownTarget(String),
}

/// The model of [`TransformError`]: its texts are sequences of characters.
pub enum TransformErrorModel {
    NoConnection(Seq<char>),
    MissingBranch(Seq<char>, bool),
    UnknownTarget(Seq<char>),
}

impl View for TransformError {
    type V = TransformErrorModel;

    open spec fn view(&self) -> TransformErrorModel {
        match *self {
            TransformError::NoConnection(s) => TransformErrorModel::NoConnection(s@),
            TransformError::MissingBranch(s, b) => TransformErrorModel::MissingBranch(s@, b),
            TransformError::UnknownTarget(s) => TransformErrorModel::UnknownTarget(s@),
        }
    }
}

/// Where the first connection of type `kind` that leaves `name` leads.
pub open spec fn first_target(
    conns: Seq<ConnectionDefModel>,
    name: Seq<char>,
    kind: ConnectionModel,
) -> Option<Seq<char>>
    decreases conns.len(),
{
    if conns.len() == 0 {
        None
    } else {
        match first_target(conns.drop_last(), name, kind) {
            Some(to) => Some(to),
            None => if conns.last().from == name && conns.last().c_type == kind {
                Some(conns.last().to)
            } else {
                None
            },
        }
    }
}

/// How many connections of type `kind` leave `name`.
pub open spec fn target_count(conns: Seq<ConnectionDefModel>, name: Seq<char>, kind: ConnectionModel) -> nat
    decreases conns.len(),
{
    if conns.len() == 0 {
        0
    } else if conns.last().from == name && conns.last().c_type == kind {
        target_count(conns.drop_last(), name, kind) + 1
    } else {
        target_count(conns.drop_last(), name, kind)
    }
}

/// Where the one connection of type `kind` that leaves `name` leads;
/// `None` where none does, and where more than one do.
pub open spec fn sole_target(conns: Seq<ConnectionDefModel>, name: Seq<char>, kind: ConnectionModel) -> Option<
    Seq<char>,
> {
    if target_count(conns, name, kind) == 1 {
        first_target(conns, name, kind)
    } else {
        None
    }
}

/// Where the fan-out connections that leave `name` lead, in order.
pub open spec fn fan_out_targets(conns: Seq<ConnectionDefModel>, name: Seq<char>) -> Seq<Seq<char>>
    decreases conns.len(),
{
    if conns.len() == 0 {
        Seq::empty()
    } else {
        let before = fan_out_targets(conns.drop_last(), name);
        if conns.last().from == name && conns.last().c_type == ConnectionModel::MultiOut {
            before.push(conns.last().to)
        } else {
            before
        }
    }
}

/// The value that a branch's text stands for, given what reading the text as
/// JSON gave: nothing for no text, the value read, or else the text itself.
pub open spec fn branch_value_of(text: Seq<char>, parsed: Option<Json>) -> Json {
    if text.len() == 0 {
        Json::Null
    } else {
        match parsed {
            Some(v) => v,
            None => Json::String(text),
        }
    }
}

/// The value that a branch's text stands for.
pub open spec fn branch_value(text: Seq<char>) -> Json {
    branch_value_of(text, json_text_value(text))
}

/// The text of a connection that is a branch of the wanted sort: a dashed
/// one where `dashed`, a solid one otherwise.
pub open spec fn branch_text(kind: ConnectionModel, dashed: bool) -> Option<Seq<char>> {
    match kind {
        ConnectionModel::SwitchBranch(v) => if dashed {
            None
        } else {
            Some(v)
        },
        ConnectionModel::MatchBranch(v) => if dashed {
            Some(v)
        } else {
            None
        },
        _ => None,
    }
}

/// The cases of the branches that leave `name`, in order: each with the
/// value of its text and the name it leads to.
pub open spec fn branch_cases(conns: Seq<ConnectionDefModel>, name: Seq<char>, dashed: bool) -> Seq<
    (Json, Seq<char>),
>
    decreases conns.len(),
{
    if conns.len() == 0 {
        Seq::empty()
    } else {
        let before = branch_cases(conns.drop_last(), name, dashed);
        match branch_text(conns.last().c_type, dashed) {
            Some(v) => if conns.last().from == name {
                before.push((branch_value(v), conns.last().to))
            } else {
                before
            },
            None => before,
        }
    }
}

/// The node that a definition becomes, or why it cannot become one.
pub open spec fn build_node(name: Seq<char>, def: NodeDefModel, conns: Seq<ConnectionDefModel>) -> Result<
    NodeModel,
    TransformErrorModel,
> {
    let next = first_target(conns, name, ConnectionModel::Default);
    match def {
        NodeDefModel::Input => match sole_target(conns, name, ConnectionModel::Default) {
            Some(to) => Ok(NodeModel::Input { next: to }),
            None => Err(TransformErrorModel::NoConnection(name)),
        },
        NodeDefModel::Task => Ok(NodeModel::Task { command: name, follow: next }),
        NodeDefModel::IfStatement(condition) => match first_target(
            conns,
            name,
            ConnectionModel::IfResult(true),
        ) {
            None => Err(TransformErrorModel::MissingBranch(name, true)),
            Some(true_branch) => match first_target(conns, name, ConnectionModel::IfResult(false)) {
                None => Err(TransformErrorModel::MissingBranch(name, false)),
                Some(false_branch) => Ok(NodeModel::If { condition, true_branch, false_branch }),
            },
        },
        NodeDefModel::Count => match sole_target(conns, name, ConnectionModel::Default) {
            Some(to) => Ok(NodeModel::Count { count: 0, next: to }),
            None => Err(TransformErrorModel::NoConnection(name)),
        },
        NodeDefModel::Multi => match next {
            Some(to) => Ok(NodeModel::Multi { run_before: fan_out_targets(conns, name), next: to }),
            None => Err(TransformErrorModel::NoConnection(name)),
        },
        NodeDefModel::Switch(field) => Ok(
            NodeModel::Switch { field, cases: branch_cases(conns, name, false), default: next },
        ),
        NodeDefModel::Match(field) => Ok(
            NodeModel::Match { field, cases: branch_cases(conns, name, true), default: next },
        ),
        NodeDefModel::Setter(label) => Ok(NodeModel::AddField { label, follow: next }),
    }
}

/// Where the first connection of type `kind` that leaves `name` leads.
pub fn find_target(name: &str, conns: &Vec<ConnectionDef>, kind: &ConnectionType) -> (r: Option<String>)
    ensures
        name_model(r) == first_target(connections_model(conns@), name@, kind@),
{
    let mut found: Option<String> = None;
    let mut i: usize = 0;
    while i < conns.len()
        invariant
            i <= conns.len(),
            name_model(found) == first_target(connections_model(conns@).take(i as int), name@, kind@),
        decreases conns.len() - i,
    {
        proof {
            let all = connections_model(conns@);
            assert(all.take(i + 1).drop_last() =~= all.take(i as int));
            assert(all.take(i + 1).last() == conns@[i as int]@);
        }
        if found.is_none() && same_text(conns[i].from.as_str(), name) && same_type(&conns[i].c_type, kind) {
            found = Some(conns[i].to.clone());
        }
        i += 1;
    }
    proof {
        let all = connections_model(conns@);
        assert(all.take(conns.len() as int) =~= all);
    }
    found
}

/// Where the one connection of type `kind` that leaves `name` leads.
pub fn find_sole_target(name: &str, conns: &Vec<ConnectionDef>, kind: &ConnectionType) -> (r: Option<
    String,
>)
    ensures
        name_model(r) == sole_target(connections_model(conns@), name@, kind@),
{
    let mut found: Option<String> = None;
    let mut several = false;
    let mut i: usize = 0;
    while i < conns.len()
        invariant
            i <= conns.len(),
            name_model(found) == first_target(connections_model(conns@).take(i as int), name@, kind@),
            found is None <==> target_count(connections_model(conns@).take(i as int), name@, kind@) == 0,
            several <==> target_count(connections_model(conns@).take(i as int), name@, kind@) > 1,
        decreases conns.len() - i,
    {
        proof {
            let all = connections_model(conns@);
            assert(all.take(i + 1).drop_last() =~= all.take(i as int));
            assert(all.take(i + 1).last() == conns@[i as int]@);
        }
        if same_text(conns[i].from.as_str(), name) && same_type(&conns[i].c_type, kind) {
            if found.is_none() {
                found = Some(conns[i].to.clone());
            } else {
                several = true;
            }
        }
        i += 1;
    }
    proof {
        let all = connections_model(conns@);
        assert(all.take(conns.len() as int) =~= all);
    }
    if several {
        None
    } else {
        found
    }
}

/// Where the default connection that leaves `name` leads.
pub fn get_point_to(name: &str, conns: &Vec<ConnectionDef>) -> (r: Option<String>)
    ensures
        name_model(r) == first_target(connections_model(conns@), name@, ConnectionModel::Default),
{
    find_target(name, conns, &ConnectionType::Default)
}

/// The value of a branch's text, from what reading the text as JSON gave.
pub fn parsed_or_text(text: &str, parsed: Option<JsonValue>) -> (r: JsonValue)
    ensures
        r@ == branch_value_of(
            text@,
            match parsed {
                Some(v) => Some(v@),
                None => None,
            },
        ),
{
    if text.is_empty() {
        return JsonValue::Null;
    }
    match parsed {
        Some(v) => v,
        None => JsonValue::String(text.to_owned()),
    }
}

/// The value that a branch's text stands for: nothing for no text, the JSON
/// value that the text reads as, or else the text itself as a string.
pub fn safe_parse_to_value(text: &str) -> (r: JsonValue)
    ensures
        r@ == branch_value(text@),
        text@.len() == 0 ==> r@ == Json::Null,
        text@.len() > 0 && json_text_value(text@) is None ==> r@ == Json::String(text@),
{
    if text.is_empty() {
        return JsonValue::Null;
    }
    let parsed = json_from_str(text);
    parsed_or_text(text, parsed)
}

/// Where the fan-out connections that leave `name` lead, in order.
fn collect_fan_out(name: &str, conns: &Vec<ConnectionDef>) -> (r: Vec<String>)
    ensures
        names_model(r@) == fan_out_targets(connections_model(conns@), name@),
{
    let mut out: Vec<String> = Vec::new();
    let mut i: usize = 0;
    while i < conns.len()
        invariant
            i <= conns.len(),
            names_model(out@) == fan_out_targets(connections_model(conns@).take(i as int), name@),
        decreases conns.len() - i,
    {
        proof {
            let all = connections_model(conns@);
            assert(all.take(i + 1).drop_last() =~= all.take(i as int));
            assert(all.take(i + 1).last() == conns@[i as int]@);
        }
        if same_text(conns[i].from.as_str(), name) && same_type(&conns[i].c_type, &ConnectionType::MultiOut) {
            let ghost before = out@;
            out.push(conns[i].to.clone());
            assert(names_model(out@) =~= names_model(before).push(conns@[i as int].to@));
        }
        i += 1;
    }
    proof {
        let all = connections_model(conns@);
        assert(all.take(conns.len() as int) =~= all);
    }
    out
}

/// The cases of the branches that leave `name`, in order.
fn collect_cases(name: &str, conns: &Vec<ConnectionDef>, dashed: bool) -> (r: Vec<(JsonValue, String)>)
    ensures
        cases_model(r@) == branch_cases(connections_model(conns@), name@, dashed),
{
    let mut out: Vec<(JsonValue, String)> = Vec::new();
    let mut i: usize = 0;
    while i < conns.len()
        invariant
            i <= conns.len(),
            cases_model(out@) == branch_cases(connections_model(conns@).take(i as int), name@, dashed),
        decreases conns.len() - i,
    {
        proof {
            let all = connections_model(conns@);
            assert(all.take(i + 1).drop_last() =~= all.take(i as int));
            assert(all.take(i + 1).last() == conns@[i as int]@);
        }
        let text: Option<&String> = match &conns[i].c_type {
            ConnectionType::SwitchBranch(v) => if dashed {
                None
            } else {
                Some(v)
            },
            ConnectionType::MatchBranch(v) => if dashed {
                Some(v)
            } else {
                None
            },
            _ => None,
        };
        match text {
            Some(v) => {
                if same_text(conns[i].from.as_str(), name) {
                    let ghost before = out@;
                    let value = safe_parse_to_value(v.as_str());
                    out.push((value, conns[i].to.clone()));
                    assert(cases_model(out@) =~= cases_model(before).push(
                        (branch_value(v@), conns@[i as int].to@),
                    ));
                }
            },
            None => {},
        }
        i += 1;
    }
    proof {
        let all = connections_model(conns@);
        assert(all.take(conns.len() as int) =~= all);
    }
    out
}

/// The model of a built node, or of the error.
pub open spec fn built_model(r: Result<Node, TransformError>) -> Result<NodeModel, TransformErrorModel> {
    match r {
        Ok(n) => Ok(n@),
        Err(e) => Err(e@),
    }
}

/// Builds the node that `name` stands for, from its definition and the
/// connections that leave it.
pub fn bind_node(name: &str, def: &NodeDef, conns: &Vec<ConnectionDef>) -> (r: Result<
    Node,
    TransformError,
>)
    ensures
        built_model(r) == build_node(name@, def@, connections_model(conns@)),
{
    match def {
        NodeDef::Input => match find_sole_target(name, conns, &ConnectionType::Default) {
            Some(points_to) => Ok(Node::Input(InputNode { points_to })),
            None => Err(TransformError::NoConnection(name.to_owned())),
        },
        NodeDef::Task => {
            let points_to = get_point_to(name, conns);
            Ok(Node::Task(TaskNode { command: name.to_owned(), points_to }))
        },
        NodeDef::IfStatement(condition) => {
            match find_target(name, conns, &ConnectionType::IfResult(true)) {
                None => Err(TransformError::MissingBranch(name.to_owned(), true)),
                Some(true_branch) => match find_target(name, conns, &ConnectionType::IfResult(false)) {
                    None => Err(TransformError::MissingBranch(name.to_owned(), false)),
                    Some(false_branch) => Ok(
                        Node::If(IfNode { condition: condition.clone(), true_branch, false_branch }),
                    ),
                },
            }
        },
        NodeDef::Count => match find_sole_target(name, conns, &ConnectionType::Default) {
            Some(points_to) => Ok(Node::Count(CountNode::new(points_to))),
            None => Err(TransformError::NoConnection(name.to_owned())),
        },
        NodeDef::Multi => {
            let run_before = collect_fan_out(name, conns);
            match get_point_to(name, conns) {
                Some(points_to) => Ok(Node::Multi(MultiNode { run_before, points_to })),
                None => Err(TransformError::NoConnection(name.to_owned())),
            }
        },
        NodeDef::Switch(field) => {
            let cases_to = collect_cases(name, conns, false);
            let default_to = get_point_to(name, conns);
            Ok(Node::Switch(SwitchNode { field: field.clone(), cases_to, default_to }))
        },
        NodeDef::Match(field) => {
            let cases_to = collect_cases(name, conns, true);
            let default_to = get_point_to(name, conns);
            Ok(Node::Match(MatchNode { field: field.clone(), cases_to, default_to }))
        },
        NodeDef::Setter(label) => {
            let points_to = get_point_to(name, conns);
            Ok(Node::AddField(AddFieldNode { label: label.clone(), points_to }))
        },
    }
}

/// Where the first connection that leads to an undefined name leads.
pub open spec fn unknown_target(
    conns: Seq<ConnectionDefModel>,
    variables: Map<Seq<char>, NodeDefModel>,
) -> Option<Seq<char>>
    decreases conns.len(),
{
    if conns.len() == 0 {
        None
    } else {
        match unknown_target(conns.drop_last(), variables) {
            Some(to) => Some(to),
            None => if variables.contains_key(conns.last().to) {
                None
            } else {
                Some(conns.last().to)
            },
        }
    }
}

/// Every definition becomes a node.
pub open spec fn all_bound(defs: DefsModel) -> bool {
    forall|name: Seq<char>| #[trigger]
        defs.variables.contains_key(name) ==> build_node(
            name,
            defs.variables[name],
            defs.connections,
        ) is Ok
}

/// The graph of the definitions: under each defined name the node that its
/// definition becomes.
pub open spec fn graph_of(defs: DefsModel) -> Map<Seq<char>, NodeModel> {
    Map::new(
        |name: Seq<char>| defs.variables.contains_key(name),
        |name: Seq<char>| build_node(name, defs.variables[name], defs.connections)->Ok_0,
    )
}

/// What binding the definitions gives. A definition's own error comes
/// first: where some definition does not become a node, the result is the
/// error of such a definition. Where all do, the result is the target of
/// the first connection that leads to an undefined name, and the graph
/// where there is no such connection.
pub open spec fn transform_result(defs: DefsModel, r: Result<Map<Seq<char>, NodeModel>, TransformErrorModel>) -> bool {
    match r {
        Ok(graph) => all_bound(defs) && unknown_target(defs.connections, defs.variables) is None
            && graph == graph_of(defs),
        Err(e) => if !all_bound(defs) {
            exists|name: Seq<char>| #[trigger]
                defs.variables.contains_key(name) && build_node(
                    name,
                    defs.variables[name],
                    defs.connections,
                ) == Err::<NodeModel, TransformErrorModel>(e)
        } else {
            unknown_target(defs.connections, defs.variables) matches Some(to) && e
                == TransformErrorModel::UnknownTarget(to)
        },
    }
}

/// A definition's own error comes first: where some definition does not
/// become a node, binding fails with the error of a definition, which is
/// never that of an undefined target, whatever the connections lead to.
pub proof fn lemma_definition_error_first(defs: DefsModel, r: Result<Map<Seq<char>, NodeModel>, TransformErrorModel>)
    requires
        transform_result(defs, r),
        !all_bound(defs),
    ensures
        r is Err,
        !(r->Err_0 is UnknownTarget),
{
}

/// Where every definition becomes a node, binding fails exactly where a
/// connection leads to an undefined name, with the first such name.
pub proof fn lemma_undefined_target_last(defs: DefsModel, r: Result<Map<Seq<char>, NodeModel>, TransformErrorModel>)
    requires
        transform_result(defs, r),
        all_bound(defs),
    ensures
        match unknown_target(defs.connections, defs.variables) {
            Some(to) => r == Err::<Map<Seq<char>, NodeModel>, TransformErrorModel>(
                TransformErrorModel::UnknownTarget(to),
            ),
            None => r == Ok::<Map<Seq<char>, NodeModel>, TransformErrorModel>(graph_of(defs)),
        },
{
}

/// Where the first connection that leads to an undefined name leads.
fn find_unknown_target(defs: &Defs) -> (r: Option<String>)
    ensures
        name_model(r) == unknown_target(defs@.connections, defs@.variables),
{
    let conns = &defs.connections;
    let mut found: Option<String> = None;
    let mut i: usize = 0;
    while i < conns.len()
        invariant
            i <= conns.len(),
            conns == &defs.connections,
            name_model(found) == unknown_target(
                connections_model(conns@).take(i as int),
                defs@.variables,
            ),
        decreases conns.len() - i,
    {
        proof {
            let all = connections_model(conns@);
            assert(all.take(i + 1).drop_last() =~= all.take(i as int));
            assert(all.take(i + 1).last() == conns@[i as int]@);
            lemma_table_keys(defs.variables@, |d: NodeDef| d@, conns@[i as int].to@);
        }
        if found.is_none() && find_key(&defs.variables, conns[i].to.as_str()).is_none() {
            found = Some(conns[i].to.clone());
        }
        i += 1;
    }
    proof {
        let all = connections_model(conns@);
        assert(all.take(conns.len() as int) =~= all);
    }
    found
}

/// The model of a graph, or of the error.
pub open spec fn graph_model(r: Result<NodeMap, TransformError>) -> Result<
    Map<Seq<char>, NodeModel>,
    TransformErrorModel,
> {
    match r {
        Ok(g) => Ok(g@),
        Err(e) => Err(e@),
    }
}

/// Binds the definitions into a graph. Fails where a definition lacks a
/// connection that its kind needs, and otherwise where a connection leads
/// to an undefined name.
pub fn defs_to_graph(defs: Defs) -> (r: Result<NodeMap, TransformError>)
    ensures
        transform_result(defs@, graph_model(r)),
{
    let ghost vars = defs.variables@;
    let ghost vm = defs@.variables;
    let ghost cm = defs@.connections;
    let mut nodes: Vec<(String, Node)> = Vec::new();
    let mut i: usize = 0;
    while i < defs.variables.len()
        invariant
            i <= defs.variables.len(),
            vars == defs.variables@,
            vm == defs@.variables,
            cm == defs@.connections,
            forall|n: Seq<char>| #[trigger]
                nodes_model(nodes@).contains_key(n) <==> exists|j: int|
                    0 <= j < i && #[trigger] is_last_key(vars, n, j),
            forall|n: Seq<char>| #[trigger]
                nodes_model(nodes@).contains_key(n) ==> vm.contains_key(n) && build_node(n, vm[n], cm)
                    == Ok::<NodeModel, TransformErrorModel>(nodes_model(nodes@)[n]),
        decreases defs.variables.len() - i,
    {
        let name = defs.variables[i].0.as_str();
        let ghost before = nodes@;
        let ghost g = nodes_model(before);
        match find_key(&defs.variables, name) {
            Some(k) if k == i => {
                proof {
                    lemma_table_last(vars, |d: NodeDef| d@, name@, i as int);
                }
                match bind_node(name, &defs.variables[i].1, &defs.connections) {
                    Ok(node) => {
                        let owned = name.to_owned();
                        proof {
                            lemma_table_push(before, |x: Node| x@, (owned, node));
                        }
                        nodes.push((owned, node));
                        proof {
                            assert(nodes_model(nodes@) == g.insert(name@, node@));
                            assert forall|n: Seq<char>| #[trigger]
                                nodes_model(nodes@).contains_key(n) <==> exists|j: int|
                                    0 <= j < i + 1 && #[trigger] is_last_key(vars, n, j) by {
                                if n == name@ {
                                    assert(is_last_key(vars, n, i as int));
                                } else {
                                    if g.contains_key(n) {
                                        let j = choose|j: int| 0 <= j < i && #[trigger] is_last_key(vars, n, j);
                                        assert(is_last_key(vars, n, j));
                                    }
                                    if exists|j: int| 0 <= j < i + 1 && #[trigger] is_last_key(vars, n, j) {
                                        let j = choose|j: int| 0 <= j < i + 1 && #[trigger] is_last_key(vars, n, j);
                                        assert(j != i);
                                        assert(is_last_key(vars, n, j));
                                    }
                                }
                            }
                        }
                    },
                    Err(e) => {
                        proof {
                            assert(vm.contains_key(name@));
                            assert(build_node(name@, vm[name@], cm) == Err::<
                                NodeModel,
                                TransformErrorModel,
                            >(e@));
                            assert(!all_bound(defs@));
                        }
                        return Err(e);
                    },
                }
            },
            _ => {
                proof {
                    assert forall|n: Seq<char>| #[trigger]
                        nodes_model(nodes@).contains_key(n) <==> exists|j: int|
                            0 <= j < i + 1 && #[trigger] is_last_key(vars, n, j) by {
                        if g.contains_key(n) {
                            let j = choose|j: int| 0 <= j < i && #[trigger] is_last_key(vars, n, j);
                            assert(is_last_key(vars, n, j));
                        }
                        if exists|j: int| 0 <= j < i + 1 && #[trigger] is_last_key(vars, n, j) {
                            let j = choose|j: int| 0 <= j < i + 1 && #[trigger] is_last_key(vars, n, j);
                            assert(j != i);
                            assert(is_last_key(vars, n, j));
                        }
                    }
                }
            },
        }
        i += 1;
    }
    proof {
        let g = nodes_model(nodes@);
        assert forall|n: Seq<char>| #[trigger] vm.contains_key(n) implies g.contains_key(n) by {
            lemma_table_keys(vars, |d: NodeDef| d@, n);
            lemma_last_exists(vars, n);
            let j = choose|j: int| is_last_key(vars, n, j);
            assert(0 <= j < i && is_last_key(vars, n, j));
        }
        assert(g =~= graph_of(defs@));
        assert(all_bound(defs@));
    }
    match find_unknown_target(&defs) {
        Some(to) => Err(TransformError::UnknownTarget(to)),
        None => Ok(NodeMap { nodes }),
    }
}

/// Where every name that a connection mentions is defined, no connection
/// leads to an undefined name.
pub proof fn lemma_closed_targets_known(defs: DefsModel)
    requires
        connections_closed(defs),
    ensures
        unknown_target(defs.connections, defs.variables) is None,
{
    lemma_targets_known(defs.connections, defs.variables);
}

proof fn lemma_targets_known(conns: Seq<ConnectionDefModel>, variables: Map<Seq<char>, NodeDefModel>)
    requires
        forall|k: int| 0 <= k < conns.len() ==> variables.contains_key((#[trigger] conns[k]).to),
    ensures
        unknown_target(conns, variables) is None,
    decreases conns.len(),
{
    if conns.len() > 0 {
        let rest = conns.drop_last();
        assert forall|k: int| 0 <= k < rest.len() implies variables.contains_key((#[trigger] rest[k]).to) by {
            assert(variables.contains_key(conns[k].to));
        }
        lemma_targets_known(rest, variables);
        assert(variables.contains_key(conns[conns.len() - 1].to));
    }
}

} // verus!
