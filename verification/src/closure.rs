//! A graph that names no node it lacks stays so as it runs: a run of such a
//! graph never looks for a node in vain.

use vstd::prelude::*;
use crate::definitions::{
    definitions_of, lemma_definitions_closed, lemma_definitions_have_input,
};
use crate::defs::{ConnectionDefModel, ConnectionModel, DefsModel, NodeDefModel};
use crate::engine::{
    deliver, enter_node, first_case, start, step, ControlModel, ExecutionModel, FrameModel,
};
use crate::nodes::NodeModel;
use crate::transform::{
    all_bound, branch_cases, build_node, fan_out_targets, first_target, graph_of,
    lemma_closed_targets_known, sole_target, unknown_target,
};
use crate::value::{json_get, Json};

verus! {

/// The name, where there is one, is that of a node of the graph.
pub open spec fn known(graph: Map<Seq<char>, NodeModel>, name: Option<Seq<char>>) -> bool {
    name matches Some(n) ==> graph.contains_key(n)
}

/// Every name of the list is that of a node of the graph.
pub open spec fn all_known(graph: Map<Seq<char>, NodeModel>, names: Seq<Seq<char>>) -> bool {
    forall|i: int| 0 <= i < names.len() ==> graph.contains_key(#[trigger] names[i])
}

/// Every case leads to a node of the graph.
pub open spec fn cases_known(graph: Map<Seq<char>, NodeModel>, cases: Seq<(Json, Seq<char>)>) -> bool {
    forall|i: int| 0 <= i < cases.len() ==> graph.contains_key((#[trigger] cases[i]).1)
}

/// Every successor that the node names is a node of the graph.
pub open spec fn node_closed(graph: Map<Seq<char>, NodeModel>, node: NodeModel) -> bool {
    match node {
        NodeModel::Input { next } => graph.contains_key(next),
        NodeModel::Task { follow, .. } => known(graph, follow),
        NodeModel::If { true_branch, false_branch, .. } => graph.contains_key(true_branch)
            && graph.contains_key(false_branch),
        NodeModel::Count { next, .. } => graph.contains_key(next),
        NodeModel::Multi { run_before, next } => all_known(graph, run_before) && graph.contains_key(
            next,
        ),
        NodeModel::Switch { cases, default, .. } => cases_known(graph, cases) && known(graph, default),
        NodeModel::Match { cases, default, .. } => cases_known(graph, cases) && known(graph, default),
        NodeModel::AddField { follow, .. } => known(graph, follow),
    }
}

/// Every node of the graph names nodes of the graph alone.
pub open spec fn graph_closed(graph: Map<Seq<char>, NodeModel>) -> bool {
    forall|name: Seq<char>| #[trigger] graph.contains_key(name) ==> node_closed(graph, graph[name])
}

/// Every name that the waiting branch goes on to is a node of the graph.
pub open spec fn frame_closed(graph: Map<Seq<char>, NodeModel>, frame: FrameModel) -> bool {
    match frame {
        FrameModel::Multi { branches, index, next, .. } => index >= 0 && all_known(graph, branches)
            && graph.contains_key(next),
        FrameModel::Match { default } => known(graph, default),
    }
}

/// Where the run goes next is a node of the graph.
pub open spec fn control_closed(graph: Map<Seq<char>, NodeModel>, control: ControlModel) -> bool {
    match control {
        ControlModel::Enter { node, .. } => graph.contains_key(node),
        ControlModel::Await { next, .. } => known(graph, next),
        _ => true,
    }
}

/// The graph is closed, and so is all that the run holds.
pub open spec fn run_closed(s: ExecutionModel) -> bool {
    &&& graph_closed(s.graph)
    &&& forall|i: int| 0 <= i < s.stack.len() ==> frame_closed(s.graph, #[trigger] s.stack[i])
    &&& control_closed(s.graph, s.control)
}

/// The run has failed for want of a node.
pub open spec fn lacks_node(s: ExecutionModel) -> bool {
    s.control matches ControlModel::Failed { error } && error is UnknownNode
}

proof fn lemma_first_case_known(graph: Map<Seq<char>, NodeModel>, cases: Seq<(Json, Seq<char>)>, x: Json)
    requires
        cases_known(graph, cases),
    ensures
        known(graph, first_case(cases, x)),
    decreases cases.len(),
{
    if cases.len() > 0 {
        assert(graph.contains_key(cases[0].1));
        let rest = cases.drop_first();
        assert forall|i: int| 0 <= i < rest.len() implies graph.contains_key((#[trigger] rest[i]).1) by {
            assert(graph.contains_key(cases[i + 1].1));
        }
        lemma_first_case_known(graph, rest, x);
    }
}

/// A step of a closed run leaves it closed, and never fails for want of a
/// node.
pub proof fn lemma_step_keeps_closed(s: ExecutionModel)
    requires
        run_closed(s),
        !lacks_node(s),
    ensures
        run_closed(step(s)),
        !lacks_node(step(s)),
{
    let t = step(s);
    match s.control {
        ControlModel::Enter { node: name, value } => {
            let node = s.graph[name];
            let entered = enter_node(node, name, value);
            assert(node_closed(s.graph, node));
            match node {
                NodeModel::Switch { cases, field, default } => {
                    if let Some(x) = json_get(value, field) {
                        lemma_first_case_known(s.graph, cases, x);
                    }
                },
                NodeModel::Match { cases, field, default } => {
                    if let Some(x) = json_get(value, field) {
                        lemma_first_case_known(s.graph, cases, x);
                    }
                },
                NodeModel::Multi { run_before, next } => {
                    if run_before.len() > 0 {
                        assert(s.graph.contains_key(run_before[0]));
                    }
                },
                _ => {},
            }
            assert forall|n: Seq<char>| #[trigger] t.graph.contains_key(n) <==> s.graph.contains_key(n) by {}
            assert forall|n: Seq<char>| #[trigger] t.graph.contains_key(n) implies node_closed(
                t.graph,
                t.graph[n],
            ) by {
                assert(node_closed(s.graph, s.graph[n]));
                lemma_node_closed_same_keys(s.graph, t.graph, s.graph[n]);
                if n == name {
                    assert(node_closed(s.graph, node));
                    lemma_node_closed_same_keys(s.graph, t.graph, node);
                }
            }
            assert forall|i: int| 0 <= i < t.stack.len() implies frame_closed(
                t.graph,
                #[trigger] t.stack[i],
            ) by {
                if i < s.stack.len() {
                    assert(frame_closed(s.graph, s.stack[i]));
                    lemma_frame_closed_same_keys(s.graph, t.graph, s.stack[i]);
                } else {
                    lemma_frame_closed_same_keys(s.graph, t.graph, t.stack[i]);
                }
            }
        },
        ControlModel::Return { value } => {
            if s.stack.len() > 0 {
                let top = s.stack.last();
                let rest = s.stack.drop_last();
                assert(frame_closed(s.graph, s.stack[s.stack.len() - 1]));
                assert forall|i: int| 0 <= i < rest.len() implies frame_closed(
                    s.graph,
                    #[trigger] rest[i],
                ) by {
                    assert(frame_closed(s.graph, s.stack[i]));
                }
                match top {
                    FrameModel::Multi { node, branches, index, input, results, next } => {
                        if index + 1 < branches.len() {
                            assert(s.graph.contains_key(branches[index + 1]));
                            let waiting = FrameModel::Multi {
                                node,
                                branches,
                                index: index + 1,
                                input,
                                results: results.push(value),
                                next,
                            };
                            assert(frame_closed(s.graph, waiting));
                            assert(t.stack == rest.push(waiting));
                            assert forall|i: int| 0 <= i < t.stack.len() implies frame_closed(
                                t.graph,
                                #[trigger] t.stack[i],
                            ) by {
                                if i < rest.len() {
                                    assert(t.stack[i] == rest[i]);
                                }
                            }
                        }
                    },
                    _ => {},
                }
            }
        },
        _ => {},
    }
}

proof fn lemma_node_closed_same_keys(
    a: Map<Seq<char>, NodeModel>,
    b: Map<Seq<char>, NodeModel>,
    node: NodeModel,
)
    requires
        forall|n: Seq<char>| #[trigger] b.contains_key(n) <==> a.contains_key(n),
    ensures
        node_closed(a, node) ==> node_closed(b, node),
        forall|count: nat|
            node is Count && node_closed(a, node) ==> #[trigger] node_closed(
                b,
                NodeModel::Count { count, next: node->Count_next },
            ),
{
    if node_closed(a, node) {
        match node {
            NodeModel::Multi { run_before, next } => {
                assert forall|i: int| 0 <= i < run_before.len() implies b.contains_key(
                    #[trigger] run_before[i],
                ) by {
                    assert(a.contains_key(run_before[i]));
                }
            },
            NodeModel::Switch { cases, .. } => {
                assert forall|i: int| 0 <= i < cases.len() implies b.contains_key(
                    (#[trigger] cases[i]).1,
                ) by {
                    assert(a.contains_key(cases[i].1));
                }
            },
            NodeModel::Match { cases, .. } => {
                assert forall|i: int| 0 <= i < cases.len() implies b.contains_key(
                    (#[trigger] cases[i]).1,
                ) by {
                    assert(a.contains_key(cases[i].1));
                }
            },
            _ => {},
        }
    }
}

proof fn lemma_frame_closed_same_keys(
    a: Map<Seq<char>, NodeModel>,
    b: Map<Seq<char>, NodeModel>,
    frame: FrameModel,
)
    requires
        forall|n: Seq<char>| #[trigger] b.contains_key(n) <==> a.contains_key(n),
    ensures
        frame_closed(a, frame) ==> frame_closed(b, frame),
{
    if frame_closed(a, frame) {
        match frame {
            FrameModel::Multi { branches, .. } => {
                assert forall|i: int| 0 <= i < branches.len() implies b.contains_key(
                    #[trigger] branches[i],
                ) by {
                    assert(a.contains_key(branches[i]));
                }
            },
            _ => {},
        }
    }
}

/// Delivering the outcome of a task leaves a closed run closed.
pub proof fn lemma_deliver_keeps_closed(s: ExecutionModel, outcome: Result<Json, Seq<char>>)
    requires
        run_closed(s),
        !lacks_node(s),
    ensures
        run_closed(deliver(s, outcome)),
        !lacks_node(deliver(s, outcome)),
{
}

/// A run of a closed graph that has the node `input` starts closed.
pub proof fn lemma_start_closed(graph: Map<Seq<char>, NodeModel>, input: Json)
    requires
        graph_closed(graph),
        graph.contains_key("input"@),
    ensures
        run_closed(start(graph, input)),
        !lacks_node(start(graph, input)),
{
}

/// Every connection leads to a defined name.
pub open spec fn targets_defined(conns: Seq<ConnectionDefModel>, variables: Map<Seq<char>, NodeDefModel>) -> bool {
    forall|k: int| 0 <= k < conns.len() ==> variables.contains_key((#[trigger] conns[k]).to)
}

proof fn lemma_targets_defined(conns: Seq<ConnectionDefModel>, variables: Map<Seq<char>, NodeDefModel>)
    requires
        unknown_target(conns, variables) is None,
    ensures
        targets_defined(conns, variables),
    decreases conns.len(),
{
    if conns.len() > 0 {
        let rest = conns.drop_last();
        lemma_targets_defined(rest, variables);
        assert forall|k: int| 0 <= k < conns.len() implies variables.contains_key(
            (#[trigger] conns[k]).to,
        ) by {
            if k < rest.len() {
                assert(variables.contains_key(rest[k].to));
            }
        }
    }
}

proof fn lemma_first_target_defined(
    conns: Seq<ConnectionDefModel>,
    variables: Map<Seq<char>, NodeDefModel>,
    name: Seq<char>,
    kind: ConnectionModel,
)
    requires
        targets_defined(conns, variables),
    ensures
        first_target(conns, name, kind) matches Some(to) ==> variables.contains_key(to),
        sole_target(conns, name, kind) matches Some(to) ==> variables.contains_key(to),
    decreases conns.len(),
{
    if conns.len() > 0 {
        let rest = conns.drop_last();
        assert forall|k: int| 0 <= k < rest.len() implies variables.contains_key((#[trigger] rest[k]).to) by {
            assert(variables.contains_key(conns[k].to));
        }
        lemma_first_target_defined(rest, variables, name, kind);
        assert(variables.contains_key(conns[conns.len() - 1].to));
    }
}

proof fn lemma_fan_out_defined(
    conns: Seq<ConnectionDefModel>,
    variables: Map<Seq<char>, NodeDefModel>,
    name: Seq<char>,
)
    requires
        targets_defined(conns, variables),
    ensures
        forall|i: int|
            0 <= i < fan_out_targets(conns, name).len() ==> variables.contains_key(
                #[trigger] fan_out_targets(conns, name)[i],
            ),
    decreases conns.len(),
{
    if conns.len() > 0 {
        let rest = conns.drop_last();
        assert forall|k: int| 0 <= k < rest.len() implies variables.contains_key((#[trigger] rest[k]).to) by {
            assert(variables.contains_key(conns[k].to));
        }
        lemma_fan_out_defined(rest, variables, name);
        assert(variables.contains_key(conns[conns.len() - 1].to));
        let before = fan_out_targets(rest, name);
        let all = fan_out_targets(conns, name);
        assert forall|i: int| 0 <= i < all.len() implies variables.contains_key(#[trigger] all[i]) by {
            if i < before.len() {
                assert(all[i] == before[i]);
            }
        }
    }
}

proof fn lemma_cases_defined(
    conns: Seq<ConnectionDefModel>,
    variables: Map<Seq<char>, NodeDefModel>,
    name: Seq<char>,
    dashed: bool,
)
    requires
        targets_defined(conns, variables),
    ensures
        forall|i: int|
            0 <= i < branch_cases(conns, name, dashed).len() ==> variables.contains_key(
                (#[trigger] branch_cases(conns, name, dashed)[i]).1,
            ),
    decreases conns.len(),
{
    if conns.len() > 0 {
        let rest = conns.drop_last();
        assert forall|k: int| 0 <= k < rest.len() implies variables.contains_key((#[trigger] rest[k]).to) by {
            assert(variables.contains_key(conns[k].to));
        }
        lemma_cases_defined(rest, variables, name, dashed);
        assert(variables.contains_key(conns[conns.len() - 1].to));
        let before = branch_cases(rest, name, dashed);
        let all = branch_cases(conns, name, dashed);
        assert forall|i: int| 0 <= i < all.len() implies variables.contains_key((#[trigger] all[i]).1) by {
            if i < before.len() {
                assert(all[i] == before[i]);
            }
        }
    }
}

/// The graph of definitions whose connections all lead to defined names is
/// closed: no node of it names a node that it lacks.
pub proof fn lemma_bound_graph_closed(defs: DefsModel)
    requires
        unknown_target(defs.connections, defs.variables) is None,
        all_bound(defs),
    ensures
        graph_closed(graph_of(defs)),
{
    let graph = graph_of(defs);
    let conns = defs.connections;
    lemma_targets_defined(conns, defs.variables);
    assert forall|name: Seq<char>| #[trigger] graph.contains_key(name) implies node_closed(
        graph,
        graph[name],
    ) by {
        assert(defs.variables.contains_key(name));
        let node = build_node(name, defs.variables[name], conns)->Ok_0;
        lemma_first_target_defined(conns, defs.variables, name, ConnectionModel::Default);
        lemma_first_target_defined(conns, defs.variables, name, ConnectionModel::IfResult(true));
        lemma_first_target_defined(conns, defs.variables, name, ConnectionModel::IfResult(false));
        lemma_fan_out_defined(conns, defs.variables, name);
        lemma_cases_defined(conns, defs.variables, name, true);
        lemma_cases_defined(conns, defs.variables, name, false);
        assert forall|n: Seq<char>| defs.variables.contains_key(n) implies #[trigger] graph.contains_key(n) by {}
        match node {
            NodeModel::Multi { run_before, next } => {
                assert forall|i: int| 0 <= i < run_before.len() implies graph.contains_key(
                    #[trigger] run_before[i],
                ) by {
                    assert(defs.variables.contains_key(fan_out_targets(conns, name)[i]));
                }
            },
            NodeModel::Switch { cases, .. } => {
                assert forall|i: int| 0 <= i < cases.len() implies graph.contains_key(
                    (#[trigger] cases[i]).1,
                ) by {
                    assert(defs.variables.contains_key(branch_cases(conns, name, false)[i].1));
                }
            },
            NodeModel::Match { cases, .. } => {
                assert forall|i: int| 0 <= i < cases.len() implies graph.contains_key(
                    (#[trigger] cases[i]).1,
                ) by {
                    assert(defs.variables.contains_key(branch_cases(conns, name, true)[i].1));
                }
            },
            _ => {},
        }
    }
}

/// A run of the graph that a source gives never fails for want of a node
/// at its start: the graph is closed and has the node `input`.
pub proof fn lemma_loaded_run_closed(source: Seq<char>, input: Json)
    requires
        definitions_of(source) is Ok,
        all_bound(definitions_of(source)->Ok_0),
    ensures
        run_closed(start(graph_of(definitions_of(source)->Ok_0), input)),
{
    let defs = definitions_of(source)->Ok_0;
    lemma_definitions_closed(source);
    lemma_definitions_have_input(source);
    lemma_closed_targets_known(defs);
    lemma_bound_graph_closed(defs);
    lemma_start_closed(graph_of(defs), input);
}

} // verus!
