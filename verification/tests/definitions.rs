use flowscript::definitions::{extract_definitions, ParseError};
use flowscript::defs::{ConnectionDef, ConnectionType, Defs, NodeDef};

fn lookup(defs: &Defs, name: &str) -> Option<NodeDef> {
    defs.variables.iter().rev().find(|(n, _)| n == name).map(|(_, d)| d.clone())
}

fn edge(from: &str, to: &str, c_type: ConnectionType) -> ConnectionDef {
    ConnectionDef { from: from.to_string(), to: to.to_string(), c_type }
}

fn error_of(source: &str) -> ParseError {
    extract_definitions(source).expect_err("the source should be refused")
}

#[test]
fn empty_source_defines_input() {
    let defs = extract_definitions("").unwrap();
    assert_eq!(defs.variables, vec![("input".to_string(), NodeDef::Input)]);
    assert!(defs.connections.is_empty());
}

#[test]
fn blank_source_defines_input() {
    let defs = extract_definitions(" \n\t\r\n").unwrap();
    assert_eq!(lookup(&defs, "input"), Some(NodeDef::Input));
    assert_eq!(defs.variables.len(), 1);
}

#[test]
fn undeclared_target_becomes_task() {
    let defs = extract_definitions("input -> zzz").unwrap();
    assert_eq!(lookup(&defs, "zzz"), Some(NodeDef::Task));
    assert_eq!(lookup(&defs, "input"), Some(NodeDef::Input));
    assert_eq!(defs.connections, vec![edge("input", "zzz", ConnectionType::Default)]);
}

#[test]
fn every_connection_name_is_defined() {
    let source = "a -> b; c -> d [label=\"x\"]; e -> f -> g [style=dashed]\nh [shape=point]";
    let defs = extract_definitions(source).unwrap();
    for c in &defs.connections {
        assert!(lookup(&defs, &c.from).is_some(), "{} is not defined", c.from);
        assert!(lookup(&defs, &c.to).is_some(), "{} is not defined", c.to);
    }
    assert!(lookup(&defs, "input").is_some());
    assert_eq!(defs.connections.len(), 4);
}

#[test]
fn input_is_input_whatever_its_attributes() {
    let defs = extract_definitions("input [shape=diamond, label=\"k\"]").unwrap();
    assert_eq!(lookup(&defs, "input"), Some(NodeDef::Input));
}

#[test]
fn name_without_attributes_is_task() {
    let defs = extract_definitions("work;").unwrap();
    assert_eq!(lookup(&defs, "work"), Some(NodeDef::Task));
}

#[test]
fn shapes_select_node_kinds() {
    let source = "a [shape=rectangle, label=\"x == 1\"];
b [shape=component];
c [shape=diamond, label=\"kind\"];
d [shape=Mdiamond, label=\"k\"];
e [shape=point];
f [shape=cds, label=\"a: 1\"];";
    let defs = extract_definitions(source).unwrap();
    assert_eq!(lookup(&defs, "a"), Some(NodeDef::IfStatement("x == 1".to_string())));
    assert_eq!(lookup(&defs, "b"), Some(NodeDef::Count));
    assert_eq!(lookup(&defs, "c"), Some(NodeDef::Switch("kind".to_string())));
    assert_eq!(lookup(&defs, "d"), Some(NodeDef::Match("k".to_string())));
    assert_eq!(lookup(&defs, "e"), Some(NodeDef::Multi));
    assert_eq!(lookup(&defs, "f"), Some(NodeDef::Setter("a: 1".to_string())));
}

#[test]
fn attributes_without_shape_are_refused() {
    let e = error_of("a [label=\"x\"]");
    assert_eq!(e.message, "Non-task node requires a shape definition");
    assert_eq!((e.line, e.column), (1, 1));
}

#[test]
fn empty_attribute_list_is_refused() {
    let e = error_of("a []");
    assert_eq!(e.message, "Non-task node requires a shape definition");
}

#[test]
fn unknown_shape_is_refused() {
    let e = error_of("x;\n  a [shape=star]");
    assert_eq!(e.message, "Unknown node type");
    assert_eq!((e.line, e.column), (2, 3));
}

#[test]
fn missing_labels_are_refused() {
    assert_eq!(error_of("a [shape=rectangle]").message, "If statement requires a condition");
    assert_eq!(error_of("a [shape=diamond]").message, "Switch statement requires a field to switch on");
    assert_eq!(error_of("a [shape=Mdiamond]").message, "Match statement requires a field to match with");
    assert_eq!(error_of("a [shape=cds]").message, "Setter requires a field to set");
}

#[test]
fn later_definition_replaces_earlier() {
    let defs = extract_definitions("a [shape=point]; a [shape=component]").unwrap();
    assert_eq!(lookup(&defs, "a"), Some(NodeDef::Count));
    assert_eq!(defs.variables.iter().filter(|(n, _)| n == "a").count(), 1);
}

#[test]
fn later_attribute_replaces_earlier() {
    let defs = extract_definitions("a [shape=point, shape=component]").unwrap();
    assert_eq!(lookup(&defs, "a"), Some(NodeDef::Count));
}

#[test]
fn labels_and_styles_select_connection_types() {
    let source = "a -> b [label=\"true\"]
a -> c [label=\"false\", style=dashed]
a -> d [label=\"r\"]
a -> e [label=\"r\", style=dashed]
a -> f [style=dashed]
a -> g
a -> h [style=bold]
a -> i []
a -> j [label=true]
a -> k [label=7]";
    let defs = extract_definitions(source).unwrap();
    assert_eq!(
        defs.connections,
        vec![
            edge("a", "b", ConnectionType::IfResult(true)),
            edge("a", "c", ConnectionType::IfResult(false)),
            edge("a", "d", ConnectionType::SwitchBranch("r".to_string())),
            edge("a", "e", ConnectionType::MatchBranch("r".to_string())),
            edge("a", "f", ConnectionType::MultiOut),
            edge("a", "g", ConnectionType::Default),
            edge("a", "h", ConnectionType::Default),
            edge("a", "i", ConnectionType::Default),
            edge("a", "j", ConnectionType::IfResult(true)),
            edge("a", "k", ConnectionType::SwitchBranch("7".to_string())),
        ]
    );
}

#[test]
fn chain_gives_one_connection_per_arrow() {
    let defs = extract_definitions("input -> s1 -> s2;").unwrap();
    assert_eq!(
        defs.connections,
        vec![
            edge("input", "s1", ConnectionType::Default),
            edge("s1", "s2", ConnectionType::Default),
        ]
    );
}

#[test]
fn quoted_text_keeps_escaped_quotes() {
    let defs = extract_definitions("s2 [shape=cds, label=\"b: \\\"two\\\"\"]").unwrap();
    assert_eq!(lookup(&defs, "s2"), Some(NodeDef::Setter("b: \"two\"".to_string())));
}

#[test]
fn quoted_text_keeps_other_backslashes() {
    let defs = extract_definitions("s [shape=cds, label=\"a\\nb\\\\c\"]").unwrap();
    assert_eq!(lookup(&defs, "s"), Some(NodeDef::Setter("a\\nb\\\\c".to_string())));
}

#[test]
fn arrows_need_no_spaces() {
    let defs = extract_definitions("a->b").unwrap();
    assert_eq!(defs.connections, vec![edge("a", "b", ConnectionType::Default)]);
}

#[test]
fn negative_number_is_a_word() {
    let defs = extract_definitions("a -> b [label=-1]").unwrap();
    assert_eq!(defs.connections, vec![edge("a", "b", ConnectionType::SwitchBranch("-1".to_string()))]);
}

#[test]
fn unexpected_character_is_located() {
    let e = error_of("a -> b\n c -> %d");
    assert_eq!(e.message, "Unexpected character");
    assert_eq!((e.line, e.column), (2, 7));
}

#[test]
fn lone_minus_is_refused() {
    let e = error_of("a - b");
    assert_eq!(e.message, "Unexpected character");
    assert_eq!((e.line, e.column), (1, 3));
}

#[test]
fn unterminated_string_is_located_at_its_quote() {
    let e = error_of("a [shape=cds, label=\"b: 1]");
    assert_eq!(e.message, "Unterminated string");
    assert_eq!((e.line, e.column), (1, 21));
}

#[test]
fn arrow_without_target_is_refused() {
    let e = error_of("a ->");
    assert_eq!(e.message, "Expected a name after '->'");
    assert_eq!((e.line, e.column), (1, 3));
    let e = error_of("a -> [shape=point]");
    assert_eq!(e.message, "Expected a name after '->'");
}

#[test]
fn statement_must_start_with_a_name() {
    let e = error_of("a;\n-> b");
    assert_eq!(e.message, "Expected a name");
    assert_eq!((e.line, e.column), (2, 1));
    assert_eq!(error_of(";").message, "Expected a name");
    assert_eq!(error_of("\"a\" -> b").message, "Expected a name");
}

#[test]
fn malformed_attributes_are_refused() {
    let e = error_of("a [shape]");
    assert_eq!(e.message, "Expected an attribute of the form name=value");
    assert_eq!((e.line, e.column), (1, 4));
    assert_eq!(error_of("a [shape=point").message, "Expected ',' or ']' after an attribute");
    assert_eq!(error_of("a [shape=point label=x]").message, "Expected ',' or ']' after an attribute");
    assert_eq!(error_of("a [shape=point,]").message, "Expected an attribute of the form name=value");
    let e = error_of("a [");
    assert_eq!(e.message, "Expected an attribute of the form name=value");
    assert_eq!((e.line, e.column), (1, 3));
}

#[test]
fn semicolons_are_optional() {
    let with = extract_definitions("a -> b; c [shape=point]; c -> d;").unwrap();
    let without = extract_definitions("a -> b c [shape=point] c -> d").unwrap();
    assert_eq!(with, without);
}
