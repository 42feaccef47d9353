use flowscript::compare::values_equal;
use flowscript::definitions::extract_definitions;
use flowscript::defs::{ConnectionDef, ConnectionType, Defs, NodeDef};
use flowscript::nodes::{CountNode, Node, NodeMap};
use flowscript::transform::{defs_to_graph, get_point_to, parsed_or_text, safe_parse_to_value, TransformError};
use flowscript::value::{JsonNumber, JsonValue};

fn graph_of(source: &str) -> NodeMap {
    defs_to_graph(extract_definitions(source).unwrap()).unwrap()
}

fn refused(source: &str) -> TransformError {
    defs_to_graph(extract_definitions(source).unwrap()).expect_err("the definitions should be refused")
}

fn node<'a>(graph: &'a NodeMap, name: &str) -> &'a Node {
    &graph.nodes.iter().rev().find(|(n, _)| n == name).expect("the node should exist").1
}

fn connection(from: &str, to: &str, c_type: ConnectionType) -> ConnectionDef {
    ConnectionDef { from: from.to_string(), to: to.to_string(), c_type }
}

#[test]
fn point_to_is_first_default_connection() {
    let conns = vec![
        connection("a", "x", ConnectionType::MultiOut),
        connection("b", "y", ConnectionType::Default),
        connection("a", "z", ConnectionType::Default),
        connection("a", "w", ConnectionType::Default),
    ];
    assert_eq!(get_point_to("a", &conns), Some("z".to_string()));
    assert_eq!(get_point_to("b", &conns), Some("y".to_string()));
    assert_eq!(get_point_to("c", &conns), None);
    assert_eq!(get_point_to("a", &Vec::new()), None);
}

#[test]
fn new_counter_starts_at_zero() {
    let counter = CountNode::new("next".to_string());
    assert_eq!(counter.count, 0);
    assert_eq!(counter.points_to, "next");
}

#[test]
fn branch_value_of_empty_text_is_null() {
    assert!(matches!(safe_parse_to_value(""), JsonValue::Null));
}

#[test]
fn branch_value_of_json_text_is_its_value() {
    assert!(matches!(safe_parse_to_value("null"), JsonValue::Null));
    assert!(matches!(safe_parse_to_value("true"), JsonValue::Bool(true)));
    assert!(matches!(safe_parse_to_value("false"), JsonValue::Bool(false)));
    assert!(matches!(safe_parse_to_value("42"), JsonValue::Number(JsonNumber::PosInt(42))));
    assert!(matches!(safe_parse_to_value("-7"), JsonValue::Number(JsonNumber::NegInt(-7))));
    assert!(matches!(
        safe_parse_to_value("1.5"),
        JsonValue::Number(JsonNumber::Float(bits)) if bits == 1.5f64.to_bits()
    ));
    assert!(matches!(safe_parse_to_value("\"two\""), JsonValue::String(s) if s == "two"));
    match safe_parse_to_value("[1, {\"a\": \"b\"}]") {
        JsonValue::Array(items) => {
            assert_eq!(items.len(), 2);
            assert!(matches!(items[0], JsonValue::Number(JsonNumber::PosInt(1))));
            match &items[1] {
                JsonValue::Object(entries) => {
                    assert_eq!(entries.len(), 1);
                    assert_eq!(entries[0].0, "a");
                    assert!(matches!(&entries[0].1, JsonValue::String(s) if s == "b"));
                },
                other => panic!("unexpected item {:?}", other),
            }
        },
        other => panic!("unexpected value {:?}", other),
    }
}

#[test]
fn branch_value_of_other_text_is_the_text() {
    assert!(matches!(safe_parse_to_value("r"), JsonValue::String(s) if s == "r"));
    assert!(matches!(safe_parse_to_value("undefined"), JsonValue::String(s) if s == "undefined"));
    assert!(matches!(safe_parse_to_value("1 2"), JsonValue::String(s) if s == "1 2"));
    assert!(matches!(safe_parse_to_value(" "), JsonValue::String(s) if s == " "));
    assert!(matches!(safe_parse_to_value("{"), JsonValue::String(s) if s == "{"));
}

#[test]
fn branch_value_reads_back_what_serde_writes() {
    let mut values = vec![serde_json::Value::Null, serde_json::Value::Bool(true), serde_json::Value::Bool(false)];
    for n in [0u64, 1, 42, u64::MAX] {
        values.push(serde_json::Value::from(n));
    }
    for n in [-1i64, -42, i64::MIN] {
        values.push(serde_json::Value::from(n));
    }
    for x in [0.5f64, -0.0, 1e300, 1.0, -2.25e-7, f64::MIN_POSITIVE, f64::MAX] {
        values.push(serde_json::Value::from(x));
    }
    for v in values {
        let text = serde_json::to_string(&v).unwrap();
        let read = safe_parse_to_value(&text);
        let expected = match &v {
            serde_json::Value::Null => JsonValue::Null,
            serde_json::Value::Bool(b) => JsonValue::Bool(*b),
            serde_json::Value::Number(n) => JsonValue::Number(if let Some(u) = n.as_u64() {
                JsonNumber::PosInt(u)
            } else if let Some(i) = n.as_i64() {
                JsonNumber::NegInt(i)
            } else {
                JsonNumber::Float(n.as_f64().unwrap().to_bits())
            }),
            other => panic!("unexpected value {}", other),
        };
        assert!(values_equal(&read, &expected), "{} read back as {:?}", text, read);
    }
}

#[test]
fn branch_value_from_given_reading() {
    assert!(matches!(parsed_or_text("", Some(JsonValue::Bool(true))), JsonValue::Null));
    assert!(matches!(parsed_or_text("x", Some(JsonValue::Bool(true))), JsonValue::Bool(true)));
    assert!(matches!(parsed_or_text("x", None), JsonValue::String(s) if s == "x"));
}

#[test]
fn input_needs_default_connection() {
    assert_eq!(refused(""), TransformError::NoConnection("input".to_string()));
    assert_eq!(refused("input -> a [style=dashed]"), TransformError::NoConnection("input".to_string()));
    assert_eq!(refused("input -> a; input -> b"), TransformError::NoConnection("input".to_string()));
    match node(&graph_of("input -> a; input -> b [style=dashed]; b -> a"), "input") {
        Node::Input(n) => assert_eq!(n.points_to, "a"),
        other => panic!("unexpected node {:?}", other),
    }
}

#[test]
fn task_may_be_a_sink() {
    let graph = graph_of("input -> a -> b");
    match node(&graph, "a") {
        Node::Task(n) => {
            assert_eq!(n.command, "a");
            assert_eq!(n.points_to, Some("b".to_string()));
        },
        other => panic!("unexpected node {:?}", other),
    }
    match node(&graph, "b") {
        Node::Task(n) => {
            assert_eq!(n.command, "b");
            assert_eq!(n.points_to, None);
        },
        other => panic!("unexpected node {:?}", other),
    }
}

#[test]
fn condition_needs_both_branches() {
    let base = "input -> c; c [shape=rectangle, label=\"x == 1\"];";
    assert_eq!(refused(base), TransformError::MissingBranch("c".to_string(), true));
    assert_eq!(
        refused(&format!("{} c -> b [label=\"false\"]", base)),
        TransformError::MissingBranch("c".to_string(), true)
    );
    assert_eq!(
        refused(&format!("{} c -> a [label=\"true\"]", base)),
        TransformError::MissingBranch("c".to_string(), false)
    );
    let graph = graph_of(&format!("{} c -> a [label=\"true\"]; c -> b [label=\"false\"]", base));
    match node(&graph, "c") {
        Node::If(n) => {
            assert_eq!(n.condition, "x == 1");
            assert_eq!(n.true_branch, "a");
            assert_eq!(n.false_branch, "b");
        },
        other => panic!("unexpected node {:?}", other),
    }
}

#[test]
fn counter_needs_default_connection() {
    assert_eq!(refused("input -> c; c [shape=component]"), TransformError::NoConnection("c".to_string()));
    assert_eq!(
        refused("input -> c; c [shape=component]; c -> a; c -> b"),
        TransformError::NoConnection("c".to_string())
    );
    match node(&graph_of("input -> c; c [shape=component]; c -> a"), "c") {
        Node::Count(n) => {
            assert_eq!(n.count, 0);
            assert_eq!(n.points_to, "a");
        },
        other => panic!("unexpected node {:?}", other),
    }
}

#[test]
fn fan_out_collects_its_own_dashed_connections() {
    let source = "input -> m; m [shape=point]; m -> x [style=dashed]; o -> z [style=dashed]; m -> next; m -> y [style=dashed]; m -> w [label=\"v\", style=dashed]";
    match node(&graph_of(source), "m") {
        Node::Multi(n) => {
            assert_eq!(n.run_before, vec!["x", "y"]);
            assert_eq!(n.points_to, "next");
        },
        other => panic!("unexpected node {:?}", other),
    }
    assert_eq!(
        refused("input -> m; m [shape=point]; m -> x [style=dashed]"),
        TransformError::NoConnection("m".to_string())
    );
}

#[test]
fn switch_collects_solid_branches() {
    let source = "input -> s; s [shape=diamond, label=\"kind\"]; s -> a [label=\"r\"]; s -> b [label=\"2\"]; s -> c [label=\"x\", style=dashed]; o -> d [label=\"r\"]; s -> e";
    match node(&graph_of(source), "s") {
        Node::Switch(n) => {
            assert_eq!(n.field, "kind");
            assert_eq!(n.cases_to.len(), 2);
            assert!(matches!(&n.cases_to[0], (JsonValue::String(v), to) if v == "r" && to == "a"));
            assert!(matches!(&n.cases_to[1], (JsonValue::Number(JsonNumber::PosInt(2)), to) if to == "b"));
            assert_eq!(n.default_to, Some("e".to_string()));
        },
        other => panic!("unexpected node {:?}", other),
    }
}

#[test]
fn match_collects_dashed_branches() {
    let source = "input -> m; m [shape=Mdiamond, label=\"k\"]; m -> a [label=\"1\", style=dashed]; m -> b [label=\"1\"]";
    match node(&graph_of(source), "m") {
        Node::Match(n) => {
            assert_eq!(n.field, "k");
            assert_eq!(n.cases_to.len(), 1);
            assert!(matches!(&n.cases_to[0], (JsonValue::Number(JsonNumber::PosInt(1)), to) if to == "a"));
            assert_eq!(n.default_to, None);
        },
        other => panic!("unexpected node {:?}", other),
    }
}

#[test]
fn setter_keeps_its_label() {
    match node(&graph_of("input -> s; s [shape=cds, label=\"a: 1\"]"), "s") {
        Node::AddField(n) => {
            assert_eq!(n.label, "a: 1");
            assert_eq!(n.points_to, None);
        },
        other => panic!("unexpected node {:?}", other),
    }
}

#[test]
fn connection_to_undefined_name_is_refused() {
    let defs = Defs {
        variables: vec![("input".to_string(), NodeDef::Input)],
        connections: vec![
            connection("input", "input", ConnectionType::Default),
            connection("input", "gone", ConnectionType::MultiOut),
            connection("input", "lost", ConnectionType::MultiOut),
        ],
    };
    assert_eq!(
        defs_to_graph(defs).expect_err("the definitions should be refused"),
        TransformError::UnknownTarget("gone".to_string())
    );
}

#[test]
fn missing_connection_is_reported_before_undefined_target() {
    let defs = Defs {
        variables: vec![("input".to_string(), NodeDef::Input), ("a".to_string(), NodeDef::Task)],
        connections: vec![connection("a", "gone", ConnectionType::Default)],
    };
    assert_eq!(
        defs_to_graph(defs).expect_err("the definitions should be refused"),
        TransformError::NoConnection("input".to_string())
    );
    let defs = Defs {
        variables: vec![
            ("input".to_string(), NodeDef::Input),
            ("c".to_string(), NodeDef::Count),
        ],
        connections: vec![
            connection("input", "gone", ConnectionType::Default),
            connection("c", "lost", ConnectionType::MultiOut),
        ],
    };
    assert_eq!(
        defs_to_graph(defs).expect_err("the definitions should be refused"),
        TransformError::NoConnection("c".to_string())
    );
    let defs = Defs {
        variables: vec![
            ("input".to_string(), NodeDef::Input),
            ("m".to_string(), NodeDef::Multi),
        ],
        connections: vec![
            connection("input", "m", ConnectionType::Default),
            connection("m", "gone", ConnectionType::MultiOut),
        ],
    };
    assert_eq!(
        defs_to_graph(defs).expect_err("the definitions should be refused"),
        TransformError::NoConnection("m".to_string())
    );
    let defs = Defs {
        variables: vec![
            ("input".to_string(), NodeDef::Input),
            ("c".to_string(), NodeDef::IfStatement("x == 1".to_string())),
        ],
        connections: vec![
            connection("input", "c", ConnectionType::Default),
            connection("c", "gone", ConnectionType::IfResult(true)),
        ],
    };
    assert_eq!(
        defs_to_graph(defs).expect_err("the definitions should be refused"),
        TransformError::MissingBranch("c".to_string(), false)
    );
}

#[test]
fn undefined_target_is_reported_where_every_definition_binds() {
    let defs = Defs {
        variables: vec![
            ("input".to_string(), NodeDef::Input),
            ("m".to_string(), NodeDef::Multi),
        ],
        connections: vec![
            connection("input", "m", ConnectionType::Default),
            connection("m", "first", ConnectionType::MultiOut),
            connection("m", "second", ConnectionType::Default),
        ],
    };
    assert_eq!(
        defs_to_graph(defs).expect_err("the definitions should be refused"),
        TransformError::UnknownTarget("first".to_string())
    );
}

#[test]
fn overridden_definition_is_not_bound() {
    let defs = Defs {
        variables: vec![
            ("input".to_string(), NodeDef::Input),
            ("a".to_string(), NodeDef::Count),
            ("a".to_string(), NodeDef::Task),
        ],
        connections: vec![connection("input", "a", ConnectionType::Default)],
    };
    let graph = defs_to_graph(defs).unwrap();
    assert_eq!(graph.nodes.len(), 2);
    assert!(matches!(node(&graph, "a"), Node::Task(_)));
}
