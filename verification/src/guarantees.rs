//! What holds of every run: which branch a switch and a match take, how a
//! fan-out merges, and how a counter counts.

use vstd::prelude::*;
use crate::engine::{
    count_field, enter, first_case, leave, merged_fields, ControlModel, ExecutionModel,
    FrameModel,
};
use crate::nodes::NodeModel;
use crate::value::{json_fields, json_get, Json, NumberModel};

verus! {

/// The case `i` is the first whose value is `x`.
pub open spec fn is_first_match(cases: Seq<(Json, Seq<char>)>, x: Json, i: int) -> bool {
    &&& 0 <= i < cases.len()
    &&& cases[i].0 == x
    &&& forall|j: int| 0 <= j < i ==> (#[trigger] cases[j]).0 != x
}

/// No case has the value `x`.
pub open spec fn no_match(cases: Seq<(Json, Seq<char>)>, x: Json) -> bool {
    forall|j: int| 0 <= j < cases.len() ==> (#[trigger] cases[j]).0 != x
}

/// Among cases of one value the first declared is the one found.
pub proof fn lemma_first_case_found(cases: Seq<(Json, Seq<char>)>, x: Json, i: int)
    requires
        is_first_match(cases, x, i),
    ensures
        first_case(cases, x) == Some(cases[i].1),
    decreases cases.len(),
{
    if i > 0 {
        assert(cases[0].0 != x);
        let rest = cases.drop_first();
        assert forall|j: int| 0 <= j < i - 1 implies (#[trigger] rest[j]).0 != x by {
            assert(cases[j + 1].0 != x);
        }
        lemma_first_case_found(rest, x, i - 1);
    }
}

/// Where no case has the value, none is found.
pub proof fn lemma_first_case_none(cases: Seq<(Json, Seq<char>)>, x: Json)
    requires
        no_match(cases, x),
    ensures
        first_case(cases, x) is None,
    decreases cases.len(),
{
    if cases.len() > 0 {
        assert(cases[0].0 != x);
        let rest = cases.drop_first();
        assert forall|j: int| 0 <= j < rest.len() implies (#[trigger] rest[j]).0 != x by {
            assert(cases[j + 1].0 != x);
        }
        lemma_first_case_none(rest, x);
    }
}

/// A switch takes the first case whose value the field equals, and that
/// case alone: the run enters its node with the input unchanged, nothing is
/// left waiting, and so no later case of the same value is ever entered.
pub proof fn lemma_switch_takes_first(
    graph: Map<Seq<char>, NodeModel>,
    stack: Seq<FrameModel>,
    name: Seq<char>,
    value: Json,
    i: int,
)
    requires
        graph.contains_key(name),
        graph[name] is Switch,
        json_get(value, graph[name]->Switch_field) is Some,
        is_first_match(
            graph[name]->Switch_cases,
            json_get(value, graph[name]->Switch_field)->Some_0,
            i,
        ),
    ensures
        enter(graph, stack, name, value) == (ExecutionModel {
            graph,
            stack,
            control: ControlModel::Enter { node: graph[name]->Switch_cases[i].1, value },
        }),
{
    lemma_first_case_found(
        graph[name]->Switch_cases,
        json_get(value, graph[name]->Switch_field)->Some_0,
        i,
    );
    assert(graph.insert(name, graph[name]) =~= graph);
}

/// A match whose field equals the value of a case runs the first such case
/// on the input, with its default waiting for what the case returns.
pub proof fn lemma_match_runs_case(
    graph: Map<Seq<char>, NodeModel>,
    stack: Seq<FrameModel>,
    name: Seq<char>,
    value: Json,
    i: int,
)
    requires
        graph.contains_key(name),
        graph[name] is Match,
        json_get(value, graph[name]->Match_field) is Some,
        is_first_match(
            graph[name]->Match_cases,
            json_get(value, graph[name]->Match_field)->Some_0,
            i,
        ),
    ensures
        enter(graph, stack, name, value) == (ExecutionModel {
            graph,
            stack: stack.push(FrameModel::Match { default: graph[name]->Match_default }),
            control: ControlModel::Enter { node: graph[name]->Match_cases[i].1, value },
        }),
{
    lemma_first_case_found(
        graph[name]->Match_cases,
        json_get(value, graph[name]->Match_field)->Some_0,
        i,
    );
    assert(graph.insert(name, graph[name]) =~= graph);
}

/// What the case of a match returns goes to the default of the match, and
/// is the result of the match where it has no default.
pub proof fn lemma_match_falls_through(
    graph: Map<Seq<char>, NodeModel>,
    stack: Seq<FrameModel>,
    default: Option<Seq<char>>,
    returned: Json,
)
    ensures
        leave(graph, stack.push(FrameModel::Match { default }), returned) == (ExecutionModel {
            graph,
            stack,
            control: match default {
                Some(node) => ControlModel::Enter { node, value: returned },
                None => ControlModel::Return { value: returned },
            },
        }),
{
    let waiting = stack.push(FrameModel::Match { default });
    assert(waiting.drop_last() =~= stack);
}

/// A match whose field equals the value of no case goes to its default with
/// the input, and hands the input back where it has no default.
pub proof fn lemma_match_without_case(
    graph: Map<Seq<char>, NodeModel>,
    stack: Seq<FrameModel>,
    name: Seq<char>,
    value: Json,
)
    requires
        graph.contains_key(name),
        graph[name] is Match,
        json_get(value, graph[name]->Match_field) is Some,
        no_match(graph[name]->Match_cases, json_get(value, graph[name]->Match_field)->Some_0),
    ensures
        enter(graph, stack, name, value) == (ExecutionModel {
            graph,
            stack,
            control: match graph[name]->Match_default {
                Some(node) => ControlModel::Enter { node, value },
                None => ControlModel::Return { value },
            },
        }),
{
    lemma_first_case_none(graph[name]->Match_cases, json_get(value, graph[name]->Match_field)->Some_0);
    assert(graph.insert(name, graph[name]) =~= graph);
}

/// The field `key` after two results are merged into a base: that of the
/// second result where it has the field, else that of the first, else that
/// of the base.
pub open spec fn later_wins(
    base: Map<Seq<char>, Json>,
    first: Map<Seq<char>, Json>,
    second: Map<Seq<char>, Json>,
    key: Seq<char>,
) -> Option<Json> {
    if second.contains_key(key) {
        Some(second[key])
    } else if first.contains_key(key) {
        Some(first[key])
    } else if base.contains_key(key) {
        Some(base[key])
    } else {
        None
    }
}

/// Merging two results into a base lets the later one win: every field of
/// the merged object is that of the last of base, first result and second
/// result that has it, and the merged object has no other field.
pub proof fn lemma_merge_later_wins(
    base: Map<Seq<char>, Json>,
    first: Map<Seq<char>, Json>,
    second: Map<Seq<char>, Json>,
)
    ensures
        merged_fields(base, seq![Json::Object(first), Json::Object(second)]) is Some,
        forall|key: Seq<char>|
            json_get(
                Json::Object(
                    merged_fields(base, seq![Json::Object(first), Json::Object(second)])->Some_0,
                ),
                key,
            ) == #[trigger] later_wins(base, first, second, key),
{
    let both = seq![Json::Object(first), Json::Object(second)];
    let one = seq![Json::Object(first)];
    assert(both.drop_last() =~= one);
    assert(one.drop_last() =~= Seq::<Json>::empty());
    assert(merged_fields(base, Seq::<Json>::empty()) == Some(base));
    assert(merged_fields(base, one) == Some(base.union_prefer_right(first)));
    assert(merged_fields(base, both) == Some(
        base.union_prefer_right(first).union_prefer_right(second),
    ));
}

/// When the last branch of a fan-out returns, the value handed to the next
/// node is the input's fields with the results laid over them in order.
pub proof fn lemma_fan_out_hands_on_merged(
    graph: Map<Seq<char>, NodeModel>,
    stack: Seq<FrameModel>,
    frame: FrameModel,
    returned: Json,
)
    requires
        frame is Multi,
        frame->index + 1 >= frame->branches.len(),
        merged_fields(json_fields(frame->input), frame->results.push(returned)) is Some,
    ensures
        leave(graph, stack.push(frame), returned) == (ExecutionModel {
            graph,
            stack,
            control: ControlModel::Enter {
                node: frame->next,
                value: Json::Object(
                    merged_fields(json_fields(frame->input), frame->results.push(returned))->Some_0,
                ),
            },
        }),
{
    assert(stack.push(frame).drop_last() =~= stack);
}

/// The graph after the node `name` is entered with each of `inputs` in turn.
pub open spec fn after_passes(graph: Map<Seq<char>, NodeModel>, name: Seq<char>, inputs: Seq<Json>) -> Map<
    Seq<char>,
    NodeModel,
>
    decreases inputs.len(),
{
    if inputs.len() == 0 {
        graph
    } else {
        enter(after_passes(graph, name, inputs.drop_last()), Seq::empty(), name, inputs.last()).graph
    }
}

/// A counter counts every pass: after it is entered with one object after
/// another, its count is higher by their number, and the last of them was
/// handed on with `__count` set to that count. So a counter that starts at
/// 0 sets `__count` to 1, 2, 3 and so on.
pub proof fn lemma_counter_counts(
    graph: Map<Seq<char>, NodeModel>,
    stack: Seq<FrameModel>,
    name: Seq<char>,
    inputs: Seq<Json>,
)
    requires
        graph.contains_key(name),
        graph[name] is Count,
        graph[name]->Count_count + inputs.len() <= usize::MAX,
        forall|k: int| 0 <= k < inputs.len() ==> #[trigger] inputs[k] is Object,
    ensures
        after_passes(graph, name, inputs) == graph.insert(
            name,
            NodeModel::Count {
                count: graph[name]->Count_count + inputs.len(),
                next: graph[name]->Count_next,
            },
        ),
        inputs.len() > 0 ==> enter(
            after_passes(graph, name, inputs.drop_last()),
            stack,
            name,
            inputs.last(),
        ).control == (ControlModel::Enter {
            node: graph[name]->Count_next,
            value: Json::Object(
                json_fields(inputs.last()).insert(
                    count_field(),
                    Json::Number(NumberModel::Int((graph[name]->Count_count + inputs.len()) as int)),
                ),
            ),
        }),
    decreases inputs.len(),
{
    if inputs.len() == 0 {
        assert(graph.insert(name, graph[name]) =~= graph);
    } else {
        let rest = inputs.drop_last();
        assert forall|k: int| 0 <= k < rest.len() implies #[trigger] rest[k] is Object by {
            assert(rest[k] == inputs[k]);
        }
        lemma_counter_counts(graph, stack, name, rest);
        let before = after_passes(graph, name, rest);
        assert(inputs.last() == inputs[inputs.len() - 1]);
        assert(after_passes(graph, name, inputs) =~= graph.insert(
            name,
            NodeModel::Count {
                count: graph[name]->Count_count + inputs.len(),
                next: graph[name]->Count_next,
            },
        ));
    }
}

/// The result `j` is the last that has the field `key`.
pub open spec fn is_last_with(results: Seq<Json>, key: Seq<char>, j: int) -> bool {
    &&& 0 <= j < results.len()
    &&& json_get(results[j], key) is Some
    &&& forall|k: int| j < k < results.len() ==> json_get(#[trigger] results[k], key) is None
}

/// No result has the field `key`.
pub open spec fn none_with(results: Seq<Json>, key: Seq<char>) -> bool {
    forall|k: int| 0 <= k < results.len() ==> json_get(#[trigger] results[k], key) is None
}

/// Merging any number of results lets the latest win: a field of the merged
/// object is that of the last result that has it.
pub proof fn lemma_merge_takes_last(
    base: Map<Seq<char>, Json>,
    results: Seq<Json>,
    key: Seq<char>,
    j: int,
)
    requires
        merged_fields(base, results) is Some,
        is_last_with(results, key, j),
    ensures
        json_get(Json::Object(merged_fields(base, results)->Some_0), key) == json_get(results[j], key),
    decreases results.len(),
{
    let rest = results.drop_last();
    if j < results.len() - 1 {
        assert(json_get(results[results.len() - 1], key) is None);
        assert forall|k: int| j < k < rest.len() implies json_get(#[trigger] rest[k], key) is None by {
            assert(json_get(results[k], key) is None);
        }
        lemma_merge_takes_last(base, rest, key, j);
    }
}

/// A field that no result has is, after merging, as it was in the base.
pub proof fn lemma_merge_keeps_base(base: Map<Seq<char>, Json>, results: Seq<Json>, key: Seq<char>)
    requires
        merged_fields(base, results) is Some,
        none_with(results, key),
    ensures
        json_get(Json::Object(merged_fields(base, results)->Some_0), key) == json_get(
            Json::Object(base),
            key,
        ),
    decreases results.len(),
{
    if results.len() > 0 {
        let rest = results.drop_last();
        assert(json_get(results[results.len() - 1], key) is None);
        assert forall|k: int| 0 <= k < rest.len() implies json_get(#[trigger] rest[k], key) is None by {
            assert(json_get(results[k], key) is None);
        }
        lemma_merge_keeps_base(base, rest, key);
    }
}

} // verus!
