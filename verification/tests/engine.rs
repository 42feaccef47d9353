use flowscript::compare::values_equal;
use flowscript::engine::{Action, Control, Execution, ExecutionError};
use flowscript::error::{execution_failure, load_failure, transform_failure, FlowErrorKind};
use flowscript::flow::{execute_flowscript, run, LoadError};
use flowscript::object::get_field;
use flowscript::transform::{safe_parse_to_value, TransformError};
use flowscript::value::{JsonNumber, JsonValue};

fn json(text: &str) -> JsonValue {
    safe_parse_to_value(text)
}

fn same(a: &JsonValue, b: &JsonValue) -> bool {
    values_equal(a, b)
}

/// Runs a source on an input. Every task adds its command to the list under
/// the field `ran`; the tasks run are also returned in order.
fn run_marking(source: &str, input: &str) -> (Result<JsonValue, ExecutionError>, Vec<String>) {
    let mut ran: Vec<String> = Vec::new();
    let mut execution = execute_flowscript(source, json(input)).expect("the source should load");
    loop {
        let (next, action) = run(execution, 10_000);
        match action {
            Action::Continue => panic!("the run did not end"),
            Action::RunTask { command, input } => {
                ran.push(command.clone());
                let mut entries = match input {
                    JsonValue::Object(entries) => entries,
                    other => vec![("input".to_string(), other)],
                };
                let mut list = match entries.iter().position(|(k, _)| k == "ran") {
                    Some(i) => match entries.remove(i).1 {
                        JsonValue::Array(items) => items,
                        _ => Vec::new(),
                    },
                    None => Vec::new(),
                };
                list.push(JsonValue::String(command));
                entries.push(("ran".to_string(), JsonValue::Array(list)));
                execution = next.deliver(Ok(JsonValue::Object(entries)));
            },
            Action::Finished(value) => return (Ok(value), ran),
            Action::Failed(error) => return (Err(error), ran),
        }
    }
}

fn finished(source: &str, input: &str) -> (JsonValue, Vec<String>) {
    let (result, ran) = run_marking(source, input);
    (result.expect("the run should end with a value"), ran)
}

fn failed(source: &str, input: &str) -> ExecutionError {
    run_marking(source, input).0.expect_err("the run should fail")
}

const IF_ELSE: &str = "input -> cond; cond [shape=rectangle, label=\"x == 1\"]; cond -> A [label=\"true\"]; cond -> B [label=\"false\"]";

#[test]
fn if_takes_true_branch() {
    let (value, ran) = finished(IF_ELSE, "{\"x\": 1}");
    assert_eq!(ran, vec!["A"]);
    assert!(same(&value, &json("{\"x\": 1, \"ran\": [\"A\"]}")));
}

#[test]
fn if_takes_false_branch() {
    let (_, ran) = finished(IF_ELSE, "{\"x\": 2}");
    assert_eq!(ran, vec!["B"]);
}

#[test]
fn if_fails_on_missing_field() {
    match failed(IF_ELSE, "{\"y\": 2}") {
        ExecutionError::EvaluatorError(message) => assert_eq!(message, "Could not get value from result"),
        other => panic!("unexpected error {:?}", other),
    }
}

const SWITCH: &str = "input -> sw
sw [shape=diamond, label=\"kind\"]
sw -> red [label=\"r\"]
sw -> blue [label=\"b\"]
sw -> other";

#[test]
fn switch_takes_matching_case_only() {
    assert_eq!(finished(SWITCH, "{\"kind\":\"r\"}").1, vec!["red"]);
    assert_eq!(finished(SWITCH, "{\"kind\":\"b\", \"kind2\":\"ignored\"}").1, vec!["blue"]);
}

#[test]
fn switch_takes_default_without_match() {
    assert_eq!(finished(SWITCH, "{\"kind\":\"z\"}").1, vec!["other"]);
}

#[test]
fn switch_without_default_returns_input() {
    let source = "input -> sw; sw [shape=diamond, label=\"kind\"]; sw -> red [label=\"r\"]";
    let (value, ran) = finished(source, "{\"kind\":\"z\"}");
    assert!(ran.is_empty());
    assert!(same(&value, &json("{\"kind\":\"z\"}")));
}

#[test]
fn switch_first_of_equal_cases_wins() {
    let source = "input -> sw; sw [shape=diamond, label=\"kind\"]; sw -> A [label=\"a\"]; sw -> B [label=\"a\"]";
    assert_eq!(finished(source, "{\"kind\":\"a\"}").1, vec!["A"]);
}

#[test]
fn switch_compares_by_structure() {
    let source = "input -> sw; sw [shape=diamond, label=\"k\"]; sw -> one [label=1]; sw -> yes [label=\"true \"]; sw -> list [label=\"[1, {\\\"a\\\": null}]\"]; sw -> text [label=\"1x\"]";
    assert_eq!(finished(source, "{\"k\": 1}").1, vec!["one"]);
    assert_eq!(finished(source, "{\"k\": [1, {\"a\": null}]}").1, vec!["list"]);
    assert_eq!(finished(source, "{\"k\": \"1x\"}").1, vec!["text"]);
    assert!(finished(source, "{\"k\": \"1\"}").1.is_empty());
    assert!(finished(source, "{\"k\": 1.0}").1.is_empty());
}

#[test]
fn switch_fails_on_missing_field() {
    match failed(SWITCH, "{\"colour\":\"r\"}") {
        ExecutionError::MissingField(field) => assert_eq!(field, "kind"),
        other => panic!("unexpected error {:?}", other),
    }
    match failed(SWITCH, "[1]") {
        ExecutionError::MissingField(field) => assert_eq!(field, "kind"),
        other => panic!("unexpected error {:?}", other),
    }
}

const MATCH: &str = "input -> m
m [shape=Mdiamond, label=\"k\"]
m -> A [label=\"1\", style=dashed]
m -> D";

#[test]
fn match_runs_case_then_default() {
    let (value, ran) = finished(MATCH, "{\"k\":1}");
    assert_eq!(ran, vec!["A", "D"]);
    assert!(same(&value, &json("{\"k\":1, \"ran\": [\"A\", \"D\"]}")));
}

#[test]
fn match_runs_default_alone_without_match() {
    let (value, ran) = finished(MATCH, "{\"k\":9}");
    assert_eq!(ran, vec!["D"]);
    assert!(same(&value, &json("{\"k\":9, \"ran\": [\"D\"]}")));
}

#[test]
fn match_without_default_returns_case_result() {
    let source = "input -> m; m [shape=Mdiamond, label=\"k\"]; m -> A [label=\"1\", style=dashed]";
    let (value, ran) = finished(source, "{\"k\":1}");
    assert_eq!(ran, vec!["A"]);
    assert!(same(&value, &json("{\"k\":1, \"ran\": [\"A\"]}")));
    let (value, ran) = finished(source, "{\"k\":2}");
    assert!(ran.is_empty());
    assert!(same(&value, &json("{\"k\":2}")));
}

#[test]
fn match_fails_on_missing_field() {
    match failed(MATCH, "{}") {
        ExecutionError::MissingField(field) => assert_eq!(field, "k"),
        other => panic!("unexpected error {:?}", other),
    }
}

#[test]
fn setter_chain_sets_fields() {
    let source = "input -> s1 -> s2; s1 [shape=cds, label=\"a: 1\"]; s2 [shape=cds, label=\"b: \\\"two\\\"\"]";
    let (value, ran) = finished(source, "{}");
    assert!(ran.is_empty());
    assert!(same(&value, &json("{\"a\":1,\"b\":\"two\"}")));
}

#[test]
fn setter_replaces_field_and_starts_from_empty_object() {
    let source = "input -> s; s [shape=cds, label=\" a :  [1, 2] \"]";
    assert!(same(&finished(source, "{\"a\": 0, \"b\": 1}").0, &json("{\"a\":[1,2],\"b\":1}")));
    assert!(same(&finished(source, "7").0, &json("{\"a\":[1,2]}")));
}

#[test]
fn setter_splits_on_first_colon() {
    let source = "input -> s; s [shape=cds, label=\"t: a:b\"]";
    assert!(same(&finished(source, "{}").0, &json("{\"t\":\"a:b\"}")));
}

#[test]
fn setter_without_colon_sets_null() {
    let source = "input -> s; s [shape=cds, label=\"flag\"]";
    assert!(same(&finished(source, "{}").0, &json("{\"flag\":null}")));
    let source = "input -> s; s [shape=cds, label=\"flag:\"]";
    assert!(same(&finished(source, "{}").0, &json("{\"flag\":null}")));
}

#[test]
fn task_result_is_passed_on() {
    let (value, ran) = finished("input -> A -> B", "{\"x\": 1}");
    assert_eq!(ran, vec!["A", "B"]);
    assert!(same(&value, &json("{\"x\": 1, \"ran\": [\"A\", \"B\"]}")));
}

#[test]
fn task_failure_fails_the_run() {
    let execution = execute_flowscript("input -> A -> B", json("{}")).unwrap();
    let (execution, action) = run(execution, 100);
    match action {
        Action::RunTask { command, input } => {
            assert_eq!(command, "A");
            assert!(same(&input, &json("{}")));
        },
        other => panic!("unexpected action {:?}", other),
    }
    let execution = execution.deliver(Err("no compiler".to_string()));
    let (_, action) = run(execution, 100);
    match action {
        Action::Failed(ExecutionError::TaskError(command, message)) => {
            assert_eq!(command, "A");
            assert_eq!(message, "no compiler");
        },
        other => panic!("unexpected action {:?}", other),
    }
}

#[test]
fn delivery_without_task_changes_nothing() {
    let execution = execute_flowscript("input -> s; s [shape=cds, label=\"a: 1\"]", json("{}")).unwrap();
    let execution = execution.deliver(Ok(json("{\"stray\": true}")));
    let (_, action) = run(execution, 100);
    match action {
        Action::Finished(value) => assert!(same(&value, &json("{\"a\":1}"))),
        other => panic!("unexpected action {:?}", other),
    }
}

#[test]
fn run_stops_at_its_limit() {
    let source = "input -> c; c [shape=component]; c -> m; m [shape=Mdiamond, label=\"k\"]; m -> c";
    let execution = execute_flowscript(source, json("{\"k\": 0}")).unwrap();
    let (execution, action) = run(execution, 0);
    assert!(matches!(action, Action::Continue));
    assert!(matches!(execution.control, Control::Enter { .. }));
    let (_, action) = run(execution, 1000);
    assert!(matches!(action, Action::Continue));
}

#[test]
fn counter_counts_each_pass() {
    let source = "input -> c; c [shape=component]; c -> m; m [shape=Mdiamond, label=\"k\"]; m -> c";
    let mut execution = execute_flowscript(source, json("{\"k\": 0}")).unwrap();
    let mut seen: Vec<Option<u64>> = Vec::new();
    while seen.len() < 4 {
        if let Control::Enter { node, value } = &execution.control {
            if node == "c" {
                seen.push(match get_field(value, "__count") {
                    Some(JsonValue::Number(JsonNumber::PosInt(n))) => Some(*n),
                    Some(other) => panic!("unexpected count {:?}", other),
                    None => None,
                });
            }
        }
        execution = execution.advance().0;
    }
    assert_eq!(seen, vec![None, Some(1), Some(2), Some(3)]);
}

#[test]
fn counter_sets_count_field() {
    let source = "input -> c; c [shape=component]; c -> A";
    let (value, _) = finished(source, "{\"x\": true}");
    assert!(same(&value, &json("{\"x\": true, \"__count\": 1, \"ran\": [\"A\"]}")));
}

#[test]
fn counter_fails_on_non_object() {
    let source = "input -> c; c [shape=component]; c -> A";
    match failed(source, "[1, 2]") {
        ExecutionError::NotAnObject(node) => assert_eq!(node, "c"),
        other => panic!("unexpected error {:?}", other),
    }
}

fn fan_out(x: &str, y: &str, input: &str) -> Result<JsonValue, ExecutionError> {
    let source = "input -> m
m [shape=point]
m -> X [style=dashed]
m -> Y [style=dashed]
m -> after
after [shape=cds, label=\"done: true\"]";
    let mut execution = execute_flowscript(source, json(input)).unwrap();
    loop {
        let (next, action) = run(execution, 1000);
        match action {
            Action::Continue => panic!("the run did not end"),
            Action::RunTask { command, input: given } => {
                assert!(same(&given, &json(input)));
                let answer = if command == "X" { x } else { y };
                execution = next.deliver(Ok(json(answer)));
            },
            Action::Finished(value) => return Ok(value),
            Action::Failed(error) => return Err(error),
        }
    }
}

#[test]
fn fan_out_merges_later_wins() {
    let value = fan_out("{\"a\":1,\"b\":2}", "{\"b\":3,\"c\":4}", "{}").unwrap();
    assert!(same(&value, &json("{\"a\":1,\"b\":3,\"c\":4,\"done\":true}")));
}

#[test]
fn fan_out_merges_over_input() {
    let value = fan_out("{\"a\":1,\"b\":2}", "{\"b\":3,\"c\":4}", "{\"a\":0,\"z\":9}").unwrap();
    assert!(same(&value, &json("{\"a\":1,\"b\":3,\"c\":4,\"z\":9,\"done\":true}")));
}

#[test]
fn fan_out_starts_from_empty_object_for_other_input() {
    let value = fan_out("{\"a\":1}", "{}", "\"text\"").unwrap();
    assert!(same(&value, &json("{\"a\":1,\"done\":true}")));
}

#[test]
fn fan_out_fails_on_result_that_is_no_object() {
    match fan_out("{\"a\":1}", "[2]", "{}") {
        Err(ExecutionError::NotAnObject(node)) => assert_eq!(node, "m"),
        other => panic!("unexpected outcome {:?}", other),
    }
    match fan_out("3", "{}", "{}") {
        Err(ExecutionError::NotAnObject(node)) => assert_eq!(node, "m"),
        other => panic!("unexpected outcome {:?}", other),
    }
}

#[test]
fn fan_out_without_branches_hands_on_object() {
    let source = "input -> m; m [shape=point]; m -> s; s [shape=cds, label=\"a: 1\"]";
    assert!(same(&finished(source, "{\"k\": 1}").0, &json("{\"k\":1,\"a\":1}")));
    assert!(same(&finished(source, "5").0, &json("{\"a\":1}")));
}

#[test]
fn fan_out_ignores_other_nodes_dashed_connections() {
    let source = "input -> m; m [shape=point]; m -> X [style=dashed]; n [shape=point]; n -> Y [style=dashed]; n -> end; m -> end";
    let (_, ran) = finished(source, "{}");
    assert_eq!(ran, vec!["X", "end"]);
}

#[test]
fn nested_fan_out_in_match() {
    let source = "input -> m
m [shape=Mdiamond, label=\"k\"]
m -> f [label=\"go\", style=dashed]
f [shape=point]
f -> X [style=dashed]
f -> Y [style=dashed]
f -> s
s [shape=cds, label=\"merged: true\"]
m -> D";
    let (value, ran) = finished(source, "{\"k\":\"go\"}");
    assert_eq!(ran, vec!["X", "Y", "D"]);
    assert!(same(
        &value,
        &json("{\"k\":\"go\",\"ran\":[\"Y\",\"D\"],\"merged\":true}")
    ));
}

#[test]
fn unknown_node_fails_the_run() {
    let graph = flowscript::nodes::NodeMap { nodes: Vec::new() };
    let (_, action) = run(Execution::new(graph, json("{}")), 10);
    match action {
        Action::Failed(ExecutionError::UnknownNode(name)) => assert_eq!(name, "input"),
        other => panic!("unexpected action {:?}", other),
    }
}

#[test]
fn source_errors_are_reported() {
    match execute_flowscript("a [shape=star]", json("{}")) {
        Err(LoadError::Parse(e)) => assert_eq!(e.message, "Unknown node type"),
        other => panic!("unexpected outcome {:?}", other),
    }
    match execute_flowscript("a -> b", json("{}")) {
        Err(LoadError::Transform(TransformError::NoConnection(name))) => assert_eq!(name, "input"),
        other => panic!("unexpected outcome {:?}", other),
    }
}

#[test]
fn failures_have_one_shape() {
    let e = load_failure(execute_flowscript("x;\n  a [shape=star]", json("{}")).unwrap_err());
    assert_eq!(e.kind, FlowErrorKind::ParseError);
    assert_eq!(e.message, "Unknown node type");
    assert_eq!((e.line, e.column), (Some(2), Some(3)));
    let e = load_failure(execute_flowscript("input -> c; c [shape=rectangle, label=\"x == 1\"]; c -> a [label=\"true\"]", json("{}")).unwrap_err());
    assert_eq!(e.kind, FlowErrorKind::TransformError);
    assert_eq!(e.message, "If node c has no false connection");
    assert_eq!((e.line, e.column), (None, None));
    let e = load_failure(execute_flowscript("a -> b", json("{}")).unwrap_err());
    assert_eq!(e.message, "No connection for input");
    let e = execution_failure(&failed(SWITCH, "{}"));
    assert_eq!(e.kind, FlowErrorKind::ExecutionError);
    assert_eq!(e.message, "Could not read field kind");
    assert_eq!((e.line, e.column), (None, None));
    assert_eq!(execution_failure(&ExecutionError::NotAnObject("m".to_string())).message, "Value at m is not an object");
    assert_eq!(execution_failure(&ExecutionError::UnknownNode("n".to_string())).message, "Could not find n in table");
    assert_eq!(
        execution_failure(&ExecutionError::EvaluatorError("Could not parse a number".to_string())).message,
        "Could not evaluate conditional Could not parse a number"
    );
    assert_eq!(
        execution_failure(&ExecutionError::TaskError("A".to_string(), "no".to_string())).message,
        "Task A failed: no"
    );
    assert_eq!(
        execution_failure(&ExecutionError::CounterOverflow("c".to_string())).message,
        "Counter c cannot count further"
    );
    assert_eq!(
        transform_failure(&TransformError::UnknownTarget("t".to_string())).message,
        "No node for t"
    );
}

#[test]
fn loaded_graph_never_lacks_a_node() {
    let sources = [
        IF_ELSE,
        SWITCH,
        MATCH,
        "input -> a -> b -> c",
        "input -> m; m [shape=point]; m -> x [style=dashed]; m -> y [style=dashed]; m -> z",
        "input -> c; c [shape=component]; c -> s; s [shape=cds, label=\"k: 1\"]",
    ];
    let inputs = ["{}", "{\"x\": 1, \"kind\": \"r\", \"k\": 1}", "[1]", "null"];
    for source in sources {
        for input in inputs {
            match run_marking(source, input).0 {
                Err(ExecutionError::UnknownNode(name)) => panic!("{} is missing in {}", name, source),
                _ => {},
            }
        }
    }
}

#[test]
fn counter_at_its_limit_fails_without_counting() {
    let count = usize::MAX;
    let graph = flowscript::nodes::NodeMap {
        nodes: vec![
            (
                "input".to_string(),
                flowscript::nodes::Node::Input(flowscript::nodes::InputNode { points_to: "c".to_string() }),
            ),
            (
                "c".to_string(),
                flowscript::nodes::Node::Count(flowscript::nodes::CountNode { count, points_to: "c".to_string() }),
            ),
        ],
    };
    let (execution, action) = run(Execution::new(graph, json("{}")), 10);
    match action {
        Action::Failed(ExecutionError::CounterOverflow(node)) => assert_eq!(node, "c"),
        other => panic!("unexpected action {:?}", other),
    }
    match &execution.graph.nodes[1].1 {
        flowscript::nodes::Node::Count(counter) => assert_eq!(counter.count, usize::MAX),
        other => panic!("unexpected node {:?}", other),
    }
}
