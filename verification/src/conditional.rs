//! The conditions of branch nodes: two values with a comparison between
//! them, decided on the current value.
//!
//! ```text
//! condition  := side comparison side
//! side       := number | text | field
//! comparison := '==' | '!=' | '<' | '<=' | '>' | '>='
//! number     := a digit or '-', then digits, '+', '-', '.', 'e', 'E'
//! text       := any characters between two `'` or between two `"`
//! field      := letters, digits and '_'
//! ```
//!
//! A number is read as JSON, a text as the JSON string between double
//! quotes, and a field is looked up in the current value.

use vstd::prelude::*;
use crate::compare::{clone_value, values_equal};
use crate::definitions::{locate, located, ParseError, ParseErrorModel};
use crate::json::{json_from_str, json_text_value};
use crate::lexer::{is_digit, is_space, Fault, FaultModel};
use crate::number::{double_key, number_at_most, number_less};
use crate::object::get_field;
use crate::text::{chars_of, string_of};
use crate::value::{json_get, Json, JsonValue};

verus! {

/// A comparison.
#[derive(Debug, Clone, Copy, PartialEq, Eq)]
pub enum Operator {
    Equal,
    NotEqual,
    Less,
    LessOrEqual,
    Greater,
    GreaterOrEqual,
}

/// One side of a condition, as written.
#[derive(Debug, Clone, PartialEq, Eq)]
pub enum Side {
    /// A number literal.
    Number(String),
    /// A text between quotes, without them.
    Text(String),
    /// The name of a field of the current value.
    Path(String),
}

/// The model of [`Side`]: its texts are sequences of characters.
pub enum SideModel {
    Number(Seq<char>),
    Text(Seq<char>),
    Path(Seq<char>),
}

impl View for Side {
    type V = SideModel;

    open spec fn view(&self) -> SideModel {
        match *self {
            Side::Number(s) => SideModel::Number(s@),
            Side::Text(s) => SideModel::Text(s@),
            Side::Path(s) => SideModel::Path(s@),
        }
    }
}

/// A condition, as written: its sides with the offsets where they start,
/// and the comparison between them.
#[derive(Debug, Clone, PartialEq, Eq)]
pub struct Condition {
    pub left: Side,
    pub left_offset: usize,
    pub operator: Operator,
    pub right: Side,
    pub right_offset: usize,
}

/// The model of [`Condition`]: its texts are sequences of characters.
pub struct ConditionModel {
    pub left: SideModel,
    pub left_offset: int,
    pub operator: Operator,
    pub right: SideModel,
    pub right_offset: int,
}

impl View for Condition {
    type V = ConditionModel;

    open spec fn view(&self) -> ConditionModel {
        ConditionModel {
            left: self.left@,
            left_offset: self.left_offset as int,
            operator: self.operator,
            right: self.right@,
            right_offset: self.right_offset as int,
        }
    }
}

/// The offset of the first character from `i` on that is no space.
pub open spec fn skip_spaces(s: Seq<char>, i: int) -> int
    decreases s.len() - i,
{
    if 0 <= i < s.len() && is_space(s[i]) {
        skip_spaces(s, i + 1)
    } else {
        i
    }
}

/// A character of a number literal.
pub open spec fn is_number_char(c: char) -> bool {
    is_digit(c) || c == '-' || c == '+' || c == '.' || c == 'e' || c == 'E'
}

/// A character of a field name.
pub open spec fn is_name_char(c: char) -> bool {
    ('a' <= c <= 'z') || ('A' <= c <= 'Z') || is_digit(c) || c == '_'
}

/// The end of the run of number characters that starts at `i`.
pub open spec fn number_end(s: Seq<char>, i: int) -> int
    decreases s.len() - i,
{
    if 0 <= i < s.len() && is_number_char(s[i]) {
        number_end(s, i + 1)
    } else {
        i
    }
}

/// The end of the run of name characters that starts at `i`.
pub open spec fn name_end(s: Seq<char>, i: int) -> int
    decreases s.len() - i,
{
    if 0 <= i < s.len() && is_name_char(s[i]) {
        name_end(s, i + 1)
    } else {
        i
    }
}

/// The offset of the first `quote` from `i` on, or the length of `s`.
pub open spec fn quote_end(s: Seq<char>, i: int, quote: char) -> int
    decreases s.len() - i,
{
    if 0 <= i < s.len() && s[i] != quote {
        quote_end(s, i + 1, quote)
    } else {
        i
    }
}

/// The side that starts at `i`, and the offset after it: a number literal
/// starts with a digit or a minus sign, a text stands between two single or
/// two double quotes, a field name starts with a letter or `_`.
pub open spec fn side_at(s: Seq<char>, i: int) -> Option<(SideModel, int)> {
    if !(0 <= i < s.len()) {
        None
    } else if is_digit(s[i]) || s[i] == '-' {
        Some((SideModel::Number(s.subrange(i, number_end(s, i))), number_end(s, i)))
    } else if s[i] == '\'' || s[i] == '"' {
        if quote_end(s, i + 1, s[i]) < s.len() {
            Some((SideModel::Text(s.subrange(i + 1, quote_end(s, i + 1, s[i]))), quote_end(s, i + 1, s[i]) + 1))
        } else {
            None
        }
    } else if is_name_char(s[i]) {
        Some((SideModel::Path(s.subrange(i, name_end(s, i))), name_end(s, i)))
    } else {
        None
    }
}

/// The comparison that starts at `i`, and the offset after it.
pub open spec fn operator_at(s: Seq<char>, i: int) -> Option<(Operator, int)> {
    if !(0 <= i < s.len()) {
        None
    } else if i + 1 < s.len() && s[i + 1] == '=' {
        if s[i] == '=' {
            Some((Operator::Equal, i + 2))
        } else if s[i] == '!' {
            Some((Operator::NotEqual, i + 2))
        } else if s[i] == '<' {
            Some((Operator::LessOrEqual, i + 2))
        } else if s[i] == '>' {
            Some((Operator::GreaterOrEqual, i + 2))
        } else {
            None
        }
    } else if s[i] == '<' {
        Some((Operator::Less, i + 1))
    } else if s[i] == '>' {
        Some((Operator::Greater, i + 1))
    } else {
        None
    }
}

pub open spec fn expected_value() -> Seq<char> {
    "Expected a number, a quoted text or a field name"@
}

pub open spec fn expected_operator() -> Seq<char> {
    "Expected a comparison"@
}

pub open spec fn unexpected_rest() -> Seq<char> {
    "Unexpected text after the condition"@
}

/// The offset that a fault at `i` is reported at: `i` itself, or the last
/// character where `i` is the end of the text (0 in an empty text).
pub open spec fn fault_offset(s: Seq<char>, i: int) -> int {
    if i < s.len() {
        i
    } else if s.len() > 0 {
        s.len() - 1
    } else {
        0
    }
}

/// The condition that a text holds: a side, a comparison and a side, with
/// spaces anywhere between and around them.
pub open spec fn condition_of(s: Seq<char>) -> Result<ConditionModel, FaultModel> {
    let a = skip_spaces(s, 0);
    match side_at(s, a) {
        None => Err(FaultModel { message: expected_value(), offset: fault_offset(s, a) }),
        Some((left, b)) => {
            let c = skip_spaces(s, b);
            match operator_at(s, c) {
                None => Err(FaultModel { message: expected_operator(), offset: fault_offset(s, c) }),
                Some((operator, d)) => {
                    let e = skip_spaces(s, d);
                    match side_at(s, e) {
                        None => Err(FaultModel { message: expected_value(), offset: fault_offset(s, e) }),
                        Some((right, f)) => {
                            let g = skip_spaces(s, f);
                            if g < s.len() {
                                Err(FaultModel { message: unexpected_rest(), offset: g })
                            } else {
                                Ok(
                                    ConditionModel {
                                        left,
                                        left_offset: a,
                                        operator,
                                        right,
                                        right_offset: e,
                                    },
                                )
                            }
                        },
                    }
                },
            }
        },
    }
}

/// A text between double quotes.
pub open spec fn quoted(text: Seq<char>) -> Seq<char> {
    seq!['"'] + text + seq!['"']
}

/// The value of a side on the current value `input`, given what reading its
/// text as JSON gave: the number read, the string read from the text
/// between double quotes, or the field of `input`.
pub open spec fn side_value_of(side: SideModel, parsed: Option<Json>, input: Json) -> Result<Json, Seq<char>> {
    match side {
        SideModel::Number(_) => match parsed {
            Some(v) => Ok(v),
            None => Err("Could not convert number"@),
        },
        SideModel::Text(_) => match parsed {
            Some(v) => Ok(v),
            None => Err("Could not convert string"@),
        },
        SideModel::Path(name) => match json_get(input, name) {
            Some(v) => Ok(v),
            None => Err("Could not get value from result"@),
        },
    }
}

/// What reading the text of a side as JSON gives.
pub open spec fn side_parsed(side: SideModel) -> Option<Json> {
    match side {
        SideModel::Number(text) => json_text_value(text),
        SideModel::Text(text) => json_text_value(quoted(text)),
        SideModel::Path(_) => None,
    }
}

/// The value of a side on the current value `input`.
pub open spec fn side_value(side: SideModel, input: Json) -> Result<Json, Seq<char>> {
    side_value_of(side, side_parsed(side), input)
}

/// Whether the comparison is one of order.
pub open spec fn is_ordering(operator: Operator) -> bool {
    !(operator is Equal) && !(operator is NotEqual)
}

/// The outcome of a comparison: equality is by structure; order is that of
/// the doubles that two numbers are read as, and fails on any other value.
pub open spec fn compare(operator: Operator, left: Json, right: Json) -> Result<bool, Seq<char>> {
    match operator {
        Operator::Equal => Ok(left == right),
        Operator::NotEqual => Ok(left != right),
        _ => match (left, right) {
            (Json::Number(a), Json::Number(b)) => Ok(
                match operator {
                    Operator::Less => double_key(a) < double_key(b),
                    Operator::LessOrEqual => double_key(a) <= double_key(b),
                    Operator::Greater => double_key(a) > double_key(b),
                    _ => double_key(a) >= double_key(b),
                },
            ),
            _ => Err("Could not parse a number"@),
        },
    }
}

/// The outcome of a written condition on the current value `input`.
pub open spec fn decide(c: ConditionModel, input: Json) -> Result<bool, FaultModel> {
    match side_value(c.left, input) {
        Err(message) => Err(FaultModel { message, offset: c.left_offset }),
        Ok(left) => match side_value(c.right, input) {
            Err(message) => Err(FaultModel { message, offset: c.right_offset }),
            Ok(right) => match compare(c.operator, left, right) {
                Err(message) => Err(FaultModel { message, offset: c.left_offset }),
                Ok(outcome) => Ok(outcome),
            },
        },
    }
}

/// The outcome of the condition that the text `s` holds, on the current
/// value `input`.
pub open spec fn evaluate(s: Seq<char>, input: Json) -> Result<bool, ParseErrorModel> {
    match condition_of(s) {
        Err(f) => Err(located(s, f)),
        Ok(c) => match decide(c, input) {
            Err(f) => Err(located(s, f)),
            Ok(outcome) => Ok(outcome),
        },
    }
}

/// A comparison of order fails unless both values are numbers.
pub proof fn lemma_order_needs_numbers(operator: Operator, left: Json, right: Json)
    requires
        is_ordering(operator),
        !(left is Number) || !(right is Number),
    ensures
        compare(operator, left, right) is Err,
{
}

/// A condition of order whose sides have values, one of them no number, is
/// an error and not `false`.
pub proof fn lemma_order_condition_fails(s: Seq<char>, input: Json)
    requires
        condition_of(s) is Ok,
        is_ordering(condition_of(s)->Ok_0.operator),
        side_value(condition_of(s)->Ok_0.left, input) is Ok,
        side_value(condition_of(s)->Ok_0.right, input) is Ok,
        !(side_value(condition_of(s)->Ok_0.left, input)->Ok_0 is Number) || !(side_value(
            condition_of(s)->Ok_0.right,
            input,
        )->Ok_0 is Number),
    ensures
        evaluate(s, input) is Err,
{
}

fn skip(chars: &Vec<char>, i: usize) -> (r: usize)
    requires
        i <= chars.len(),
    ensures
        r == skip_spaces(chars@, i as int),
        i <= r <= chars.len(),
{
    let mut j: usize = i;
    while j < chars.len() && (chars[j] == ' ' || chars[j] == '\t' || chars[j] == '\r' || chars[j] == '\n')
        invariant
            i <= j <= chars.len(),
            skip_spaces(chars@, i as int) == skip_spaces(chars@, j as int),
        decreases chars.len() - j,
    {
        j += 1;
    }
    j
}

fn digit(c: char) -> (r: bool)
    ensures
        r == is_digit(c),
{
    '0' <= c && c <= '9'
}

fn number_char(c: char) -> (r: bool)
    ensures
        r == is_number_char(c),
{
    digit(c) || c == '-' || c == '+' || c == '.' || c == 'e' || c == 'E'
}

fn name_char(c: char) -> (r: bool)
    ensures
        r == is_name_char(c),
{
    ('a' <= c && c <= 'z') || ('A' <= c && c <= 'Z') || digit(c) || c == '_'
}

fn scan_number(chars: &Vec<char>, i: usize) -> (r: usize)
    requires
        i <= chars.len(),
    ensures
        r == number_end(chars@, i as int),
        i <= r <= chars.len(),
{
    let mut j: usize = i;
    while j < chars.len() && number_char(chars[j])
        invariant
            i <= j <= chars.len(),
            number_end(chars@, i as int) == number_end(chars@, j as int),
        decreases chars.len() - j,
    {
        j += 1;
    }
    j
}

fn scan_name(chars: &Vec<char>, i: usize) -> (r: usize)
    requires
        i <= chars.len(),
    ensures
        r == name_end(chars@, i as int),
        i <= r <= chars.len(),
{
    let mut j: usize = i;
    while j < chars.len() && name_char(chars[j])
        invariant
            i <= j <= chars.len(),
            name_end(chars@, i as int) == name_end(chars@, j as int),
        decreases chars.len() - j,
    {
        j += 1;
    }
    j
}

fn scan_quote(chars: &Vec<char>, i: usize, quote: char) -> (r: usize)
    requires
        i <= chars.len(),
    ensures
        r == quote_end(chars@, i as int, quote),
        i <= r <= chars.len(),
{
    let mut j: usize = i;
    while j < chars.len() && chars[j] != quote
        invariant
            i <= j <= chars.len(),
            quote_end(chars@, i as int, quote) == quote_end(chars@, j as int, quote),
        decreases chars.len() - j,
    {
        j += 1;
    }
    j
}

/// Reads the side that starts at `i`.
fn read_side(chars: &Vec<char>, i: usize) -> (r: Option<(Side, usize)>)
    requires
        i <= chars.len(),
    ensures
        match r {
            Some((side, end)) => side_at(chars@, i as int) == Some((side@, end as int)) && i < end
                <= chars.len(),
            None => side_at(chars@, i as int) is None,
        },
{
    if i >= chars.len() {
        return None;
    }
    let c = chars[i];
    if digit(c) || c == '-' {
        let end = scan_number(chars, i + 1);
        assert(number_end(chars@, i as int) == number_end(chars@, i + 1));
        Some((Side::Number(string_of(chars, i, end)), end))
    } else if c == '\'' || c == '"' {
        let end = scan_quote(chars, i + 1, c);
        if end < chars.len() {
            Some((Side::Text(string_of(chars, i + 1, end)), end + 1))
        } else {
            None
        }
    } else if name_char(c) {
        let end = scan_name(chars, i + 1);
        assert(name_end(chars@, i as int) == name_end(chars@, i + 1));
        Some((Side::Path(string_of(chars, i, end)), end))
    } else {
        None
    }
}

/// Reads the comparison that starts at `i`.
fn read_operator(chars: &Vec<char>, i: usize) -> (r: Option<(Operator, usize)>)
    requires
        i <= chars.len(),
    ensures
        match r {
            Some((operator, end)) => operator_at(chars@, i as int) == Some((operator, end as int)) && i
                < end <= chars.len(),
            None => operator_at(chars@, i as int) is None,
        },
{
    if i >= chars.len() {
        return None;
    }
    let c = chars[i];
    if chars.len() - i > 1 && chars[i + 1] == '=' {
        if c == '=' {
            Some((Operator::Equal, i + 2))
        } else if c == '!' {
            Some((Operator::NotEqual, i + 2))
        } else if c == '<' {
            Some((Operator::LessOrEqual, i + 2))
        } else if c == '>' {
            Some((Operator::GreaterOrEqual, i + 2))
        } else {
            None
        }
    } else if c == '<' {
        Some((Operator::Less, i + 1))
    } else if c == '>' {
        Some((Operator::Greater, i + 1))
    } else {
        None
    }
}

fn fault_at(chars: &Vec<char>, i: usize) -> (r: usize)
    requires
        i <= chars.len(),
    ensures
        r == fault_offset(chars@, i as int),
        r <= chars.len(),
        r < usize::MAX,
{
    if i < chars.len() {
        i
    } else if chars.len() > 0 {
        chars.len() - 1
    } else {
        0
    }
}

/// The model of a written condition, or of the fault.
pub open spec fn condition_model(r: Result<Condition, Fault>) -> Result<ConditionModel, FaultModel> {
    match r {
        Ok(c) => Ok(c@),
        Err(e) => Err(e@),
    }
}

/// Reads the condition that a text holds.
pub fn parse_condition(chars: &Vec<char>) -> (r: Result<Condition, Fault>)
    ensures
        condition_model(r) == condition_of(chars@),
        r matches Err(f) ==> f.offset <= chars.len() && f.offset < usize::MAX,
        r matches Ok(c) ==> c.left_offset < chars.len() && c.right_offset < chars.len(),
{
    let a = skip(chars, 0);
    match read_side(chars, a) {
        None => Err(
            Fault {
                message: "Expected a number, a quoted text or a field name".to_owned(),
                offset: fault_at(chars, a),
            },
        ),
        Some((left, b)) => {
            let c = skip(chars, b);
            match read_operator(chars, c) {
                None => Err(Fault { message: "Expected a comparison".to_owned(), offset: fault_at(chars, c) }),
                Some((operator, d)) => {
                    let e = skip(chars, d);
                    match read_side(chars, e) {
                        None => Err(
                            Fault {
                                message: "Expected a number, a quoted text or a field name".to_owned(),
                                offset: fault_at(chars, e),
                            },
                        ),
                        Some((right, f)) => {
                            let g = skip(chars, f);
                            if g < chars.len() {
                                Err(Fault { message: "Unexpected text after the condition".to_owned(), offset: g })
                            } else {
                                Ok(Condition { left, left_offset: a, operator, right, right_offset: e })
                            }
                        },
                    }
                },
            }
        },
    }
}

/// The model of an optional value.
pub open spec fn optional_model(v: Option<JsonValue>) -> Option<Json> {
    match v {
        Some(x) => Some(x@),
        None => None,
    }
}

/// The model of a value, or the message.
pub open spec fn valued_model(r: Result<JsonValue, String>) -> Result<Json, Seq<char>> {
    match r {
        Ok(v) => Ok(v@),
        Err(message) => Err(message@),
    }
}

/// The model of an outcome, or the message.
pub open spec fn outcome_model(r: Result<bool, String>) -> Result<bool, Seq<char>> {
    match r {
        Ok(b) => Ok(b),
        Err(message) => Err(message@),
    }
}

/// The value of a side on the current value, from what reading the side's
/// text as JSON gave.
pub fn resolve_side(side: &Side, parsed: Option<JsonValue>, input: &JsonValue) -> (r: Result<
    JsonValue,
    String,
>)
    ensures
        valued_model(r) == side_value_of(side@, optional_model(parsed), input@),
{
    match side {
        Side::Number(_) => match parsed {
            Some(v) => Ok(v),
            None => Err("Could not convert number".to_owned()),
        },
        Side::Text(_) => match parsed {
            Some(v) => Ok(v),
            None => Err("Could not convert string".to_owned()),
        },
        Side::Path(name) => match get_field(input, name.as_str()) {
            Some(v) => Ok(clone_value(v)),
            None => Err("Could not get value from result".to_owned()),
        },
    }
}

/// Reads the text of a side as JSON: a number literal as it stands, a text
/// between double quotes.
fn read_side_text(side: &Side) -> (r: Option<JsonValue>)
    ensures
        optional_model(r) == side_parsed(side@),
{
    match side {
        Side::Number(text) => json_from_str(text.as_str()),
        Side::Text(text) => {
            let mut wrapped = String::new();
            wrapped.push('"');
            wrapped.append(text.as_str());
            wrapped.push('"');
            assert(wrapped@ =~= quoted(text@));
            json_from_str(wrapped.as_str())
        },
        Side::Path(_) => None,
    }
}

/// The value of a side on the current value.
pub fn parse_side(side: &Side, input: &JsonValue) -> (r: Result<JsonValue, String>)
    ensures
        valued_model(r) == side_value(side@, input@),
{
    let parsed = read_side_text(side);
    resolve_side(side, parsed, input)
}

/// Compares two values: equality is by structure; order is that of the
/// doubles that two numbers are read as, and an error on any other value.
pub fn compare_values(operator: Operator, left: &JsonValue, right: &JsonValue) -> (r: Result<
    bool,
    String,
>)
    ensures
        outcome_model(r) == compare(operator, left@, right@),
        is_ordering(operator) && (!(left@ is Number) || !(right@ is Number)) ==> r is Err,
{
    match operator {
        Operator::Equal => Ok(values_equal(left, right)),
        Operator::NotEqual => Ok(!values_equal(left, right)),
        _ => match (left, right) {
            (JsonValue::Number(a), JsonValue::Number(b)) => Ok(
                match operator {
                    Operator::Less => number_less(a, b),
                    Operator::LessOrEqual => number_at_most(a, b),
                    Operator::Greater => number_less(b, a),
                    _ => number_at_most(b, a),
                },
            ),
            _ => Err("Could not parse a number".to_owned()),
        },
    }
}

/// The model of an outcome, or of the fault.
pub open spec fn decided_model(r: Result<bool, Fault>) -> Result<bool, FaultModel> {
    match r {
        Ok(b) => Ok(b),
        Err(e) => Err(e@),
    }
}

/// Decides a written condition on the current value.
pub fn decide_condition(condition: &Condition, input: &JsonValue) -> (r: Result<bool, Fault>)
    ensures
        decided_model(r) == decide(condition@, input@),
        r matches Err(f) ==> f.offset == condition.left_offset || f.offset == condition.right_offset,
{
    let left = match parse_side(&condition.left, input) {
        Ok(v) => v,
        Err(message) => {
            return Err(Fault { message, offset: condition.left_offset });
        },
    };
    let right = match parse_side(&condition.right, input) {
        Ok(v) => v,
        Err(message) => {
            return Err(Fault { message, offset: condition.right_offset });
        },
    };
    match compare_values(condition.operator, &left, &right) {
        Ok(outcome) => Ok(outcome),
        Err(message) => Err(Fault { message, offset: condition.left_offset }),
    }
}

/// The model of an outcome, or of the error.
pub open spec fn evaluated_model(r: Result<bool, ParseError>) -> Result<bool, ParseErrorModel> {
    match r {
        Ok(b) => Ok(b),
        Err(e) => Err(e@),
    }
}

/// Decides the condition that a text holds, on the current value: the two
/// sides are read, their values taken, and the values compared. Fails where
/// the text holds no condition, where a side has no value, and where values
/// that are not both numbers are compared by order.
pub fn evaluate_if_statement(condition: &str, input: &JsonValue) -> (r: Result<bool, ParseError>)
    ensures
        evaluated_model(r) == evaluate(condition@, input@),
{
    let chars = chars_of(condition);
    match parse_condition(&chars) {
        Err(f) => Err(locate(&chars, f)),
        Ok(parsed) => match decide_condition(&parsed, input) {
            Err(f) => Err(locate(&chars, f)),
            Ok(outcome) => Ok(outcome),
        },
    }
}

/// The reader of conditions.
#[derive(Debug, Clone, Copy)]
pub struct ConditionParser;

impl ConditionParser {
    /// The condition that a text holds, or the fault in it.
    pub fn parse(text: &str) -> (r: Result<Condition, Fault>)
        ensures
            condition_model(r) == condition_of(text@),
    {
        let chars = chars_of(text);
        parse_condition(&chars)
    }
}

} // verus!
