use flowscript::conditional::{
    compare_values, evaluate_if_statement, ConditionParser, Operator, Side,
};
use flowscript::transform::safe_parse_to_value;
use flowscript::value::{JsonNumber, JsonValue};

fn value(text: &str) -> JsonValue {
    safe_parse_to_value(text)
}

fn decide(condition: &str, input: &str) -> bool {
    evaluate_if_statement(condition, &value(input)).expect("the condition should be decided")
}

fn refuse(condition: &str, input: &str) -> (String, usize, usize) {
    let e = evaluate_if_statement(condition, &value(input)).expect_err("the condition should fail");
    (e.message, e.line, e.column)
}

#[test]
fn condition_is_read_into_sides_and_operator() {
    let c = ConditionParser::parse("  x<= -1.5e3 ").unwrap();
    assert_eq!(c.left, Side::Path("x".to_string()));
    assert_eq!(c.left_offset, 2);
    assert_eq!(c.operator, Operator::LessOrEqual);
    assert_eq!(c.right, Side::Number("-1.5e3".to_string()));
    assert_eq!(c.right_offset, 6);
    let c = ConditionParser::parse("'a b' != \"c\"").unwrap();
    assert_eq!(c.left, Side::Text("a b".to_string()));
    assert_eq!(c.operator, Operator::NotEqual);
    assert_eq!(c.right, Side::Text("c".to_string()));
    assert_eq!(ConditionParser::parse("a==b").unwrap().operator, Operator::Equal);
    assert_eq!(ConditionParser::parse("a<b").unwrap().operator, Operator::Less);
    assert_eq!(ConditionParser::parse("a>b").unwrap().operator, Operator::Greater);
    assert_eq!(ConditionParser::parse("a>=b").unwrap().operator, Operator::GreaterOrEqual);
}

#[test]
fn equality_is_by_structure() {
    assert!(decide("x == 1", "{\"x\": 1}"));
    assert!(!decide("x == 1", "{\"x\": 2}"));
    assert!(!decide("x == 1", "{\"x\": \"1\"}"));
    assert!(!decide("x == 1", "{\"x\": 1.0}"));
    assert!(decide("x == 1.0", "{\"x\": 1.0}"));
    assert!(decide("x == 0.0", "{\"x\": -0.0}"));
    assert!(decide("x == y", "{\"x\": {\"a\": [1, 2], \"b\": null}, \"y\": {\"b\": null, \"a\": [1, 2]}}"));
    assert!(!decide("x == y", "{\"x\": [1, 2], \"y\": [2, 1]}"));
    assert!(decide("kind == 'r'", "{\"kind\": \"r\"}"));
    assert!(decide("kind == \"r\"", "{\"kind\": \"r\"}"));
    assert!(decide("kind != 'r'", "{\"kind\": \"b\"}"));
    assert!(!decide("kind != 'r'", "{\"kind\": \"r\"}"));
    assert!(decide("1 == 1", "null"));
    assert!(decide("'a\\nb' == x", "{\"x\": \"a\\nb\"}"));
}

#[test]
fn order_is_that_of_doubles() {
    assert!(decide("x < 2", "{\"x\": 1}"));
    assert!(!decide("x < 1", "{\"x\": 1}"));
    assert!(decide("x <= 1", "{\"x\": 1}"));
    assert!(decide("x <= 1.0", "{\"x\": 1}"));
    assert!(decide("x >= 1.0", "{\"x\": 1}"));
    assert!(decide("x > -1", "{\"x\": -0.5}"));
    assert!(!decide("x > y", "{\"x\": -3, \"y\": -2}"));
    assert!(decide("x >= y", "{\"x\": 2.5, \"y\": 2.5}"));
    assert!(decide("x < 1e300", "{\"x\": 18446744073709551615}"));
    assert!(!decide("9007199254740992 < 9007199254740993", "null"));
    assert!(decide("9007199254740992 >= 9007199254740993", "null"));
    assert!(decide("9007199254740993 < 9007199254740995", "null"));
    assert!(decide("-0.0 >= 0", "null"));
    assert!(!decide("-0.0 < 0", "null"));
}

#[test]
fn order_of_non_numbers_is_an_error() {
    assert_eq!(refuse("x < y", "{\"x\": \"a\", \"y\": 1}"), ("Could not parse a number".to_string(), 1, 1));
    assert_eq!(refuse(" x < y", "{\"x\": 1, \"y\": \"b\"}"), ("Could not parse a number".to_string(), 1, 2));
    assert_eq!(refuse("x >= y", "{\"x\": null, \"y\": null}").0, "Could not parse a number");
    assert_eq!(refuse("x <= 'a'", "{\"x\": 1}").0, "Could not parse a number");
    assert_eq!(refuse("x > y", "{\"x\": [1], \"y\": true}").0, "Could not parse a number");
}

#[test]
fn missing_field_is_an_error() {
    assert_eq!(refuse("x == 1", "{\"y\": 1}"), ("Could not get value from result".to_string(), 1, 1));
    assert_eq!(refuse("1 == x", "{\"y\": 1}"), ("Could not get value from result".to_string(), 1, 6));
    assert_eq!(refuse("x == 1", "[1]").0, "Could not get value from result");
}

#[test]
fn bad_literals_are_errors() {
    assert_eq!(refuse("x == 1.2.3", "{\"x\": 1}"), ("Could not convert number".to_string(), 1, 6));
    assert_eq!(refuse("- == 1", "{}").0, "Could not convert number");
    assert_eq!(refuse("x == 'a\"b'", "{\"x\": 1}"), ("Could not convert string".to_string(), 1, 6));
}

#[test]
fn malformed_conditions_are_errors() {
    assert_eq!(refuse("", "{}"), ("Expected a number, a quoted text or a field name".to_string(), 1, 1));
    assert_eq!(refuse("   ", "{}"), ("Expected a number, a quoted text or a field name".to_string(), 1, 3));
    assert_eq!(refuse("x", "{}"), ("Expected a comparison".to_string(), 1, 1));
    assert_eq!(refuse("x = 1", "{}"), ("Expected a comparison".to_string(), 1, 3));
    assert_eq!(refuse("x ==", "{}"), ("Expected a number, a quoted text or a field name".to_string(), 1, 4));
    assert_eq!(refuse("x == 'abc", "{}"), ("Expected a number, a quoted text or a field name".to_string(), 1, 6));
    assert_eq!(refuse("x == 1 2", "{}"), ("Unexpected text after the condition".to_string(), 1, 8));
    assert_eq!(refuse("x ==\n $", "{}"), ("Expected a number, a quoted text or a field name".to_string(), 2, 2));
}

#[test]
fn values_are_compared_directly() {
    let one = JsonValue::Number(JsonNumber::PosInt(1));
    let two = JsonValue::Number(JsonNumber::Float(2.0f64.to_bits()));
    assert_eq!(compare_values(Operator::Less, &one, &two), Ok(true));
    assert_eq!(compare_values(Operator::Greater, &one, &two), Ok(false));
    assert_eq!(compare_values(Operator::GreaterOrEqual, &two, &one), Ok(true));
    assert_eq!(compare_values(Operator::LessOrEqual, &two, &one), Ok(false));
    assert_eq!(compare_values(Operator::Equal, &one, &two), Ok(false));
    assert_eq!(compare_values(Operator::NotEqual, &one, &two), Ok(true));
    assert_eq!(
        compare_values(Operator::Less, &one, &JsonValue::Null),
        Err("Could not parse a number".to_string())
    );
    assert_eq!(compare_values(Operator::Equal, &JsonValue::Null, &JsonValue::Null), Ok(true));
}
