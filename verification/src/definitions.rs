//! From a Flowscript source to its definitions: what each statement defines,
//! and the nodes that the connections imply.

use vstd::prelude::*;
use crate::defs::{
    connections_model, variables_model, ConnectionDef, ConnectionDefModel, ConnectionModel,
    ConnectionType, Defs, DefsModel, NodeDef, NodeDefModel,
};
use crate::lexer::{tokenize, tokens_from, tokens_model, Fault, FaultModel, TokenModel};
use crate::parser::{
    attribute, attributes_model, fault, lemma_statements_below, pairs_model, parse_statements,
    statements_from, statements_model, tokens_below, Statement, StatementModel,
};
use crate::table::{
    find_key, lemma_table_keys, lemma_table_push, lemma_table_set, same_text, table_set,
};
use crate::text::chars_of;

verus! {

/// What is wrong with a source, and where: line and column count from 1.
#[derive(Debug, Clone, PartialEq, Eq)]
pub struct ParseError {
    pub message: String,
    pub line: usize,
    pub column: usize,
}

/// The model of [`ParseError`]: its texts are sequences of characters.
pub struct ParseErrorModel {
    pub message: Seq<char>,
    pub line: int,
    pub column: int,
}

impl View for ParseError {
    type V = ParseErrorModel;

    open spec fn view(&self) -> ParseErrorModel {
        ParseErrorModel { message: self.message@, line: self.line as int, column: self.column as int }
    }
}

/// The line of the character at `offset`: one more than the line breaks
/// before it.
pub open spec fn line_of(s: Seq<char>, offset: int) -> int
    decreases offset,
{
    if offset <= 0 {
        1
    } else if s[offset - 1] == '\n' {
        line_of(s, offset - 1) + 1
    } else {
        line_of(s, offset - 1)
    }
}

/// The column of the character at `offset`: one more than the characters
/// between it and the line break before it.
pub open spec fn column_of(s: Seq<char>, offset: int) -> int
    decreases offset,
{
    if offset <= 0 {
        1
    } else if s[offset - 1] == '\n' {
        1
    } else {
        column_of(s, offset - 1) + 1
    }
}

/// The error that a fault stands for in the source `s`.
pub open spec fn located(s: Seq<char>, f: FaultModel) -> ParseErrorModel {
    ParseErrorModel { message: f.message, line: line_of(s, f.offset), column: column_of(s, f.offset) }
}

/// Turns a fault into an error with the line and column of its offset.
pub fn locate(chars: &Vec<char>, f: Fault) -> (r: ParseError)
    requires
        f.offset <= chars.len(),
        f.offset < usize::MAX,
    ensures
        r@ == located(chars@, f@),
{
    let mut line: usize = 1;
    let mut column: usize = 1;
    let mut i: usize = 0;
    while i < f.offset
        invariant
            i <= f.offset <= chars.len(),
            f.offset < usize::MAX,
            line == line_of(chars@, i as int),
            column == column_of(chars@, i as int),
            1 <= line <= i + 1,
            1 <= column <= i + 1,
        decreases f.offset - i,
    {
        if chars[i] == '\n' {
            line += 1;
            column = 1;
        } else {
            column += 1;
        }
        i += 1;
    }
    ParseError { message: f.message, line, column }
}

/// The node that a shape stands for, with the label where its kind needs
/// one.
pub open spec fn shaped(shape: Seq<char>, label: Option<Seq<char>>) -> Result<NodeDefModel, Seq<char>> {
    if shape == "rectangle"@ {
        match label {
            Some(condition) => Ok(NodeDefModel::IfStatement(condition)),
            None => Err("If statement requires a condition"@),
        }
    } else if shape == "component"@ {
        Ok(NodeDefModel::Count)
    } else if shape == "diamond"@ {
        match label {
            Some(field) => Ok(NodeDefModel::Switch(field)),
            None => Err("Switch statement requires a field to switch on"@),
        }
    } else if shape == "Mdiamond"@ {
        match label {
            Some(field) => Ok(NodeDefModel::Match(field)),
            None => Err("Match statement requires a field to match with"@),
        }
    } else if shape == "point"@ {
        Ok(NodeDefModel::Multi)
    } else if shape == "cds"@ {
        match label {
            Some(pair) => Ok(NodeDefModel::Setter(pair)),
            None => Err("Setter requires a field to set"@),
        }
    } else {
        Err("Unknown node type"@)
    }
}

/// What a name with these attributes defines: `input` is the entry point
/// whatever its attributes, a name without attributes is a task, and any
/// other node is what its shape says.
pub open spec fn node_def_of(name: Seq<char>, attributes: Option<Seq<(Seq<char>, Seq<char>)>>) -> Result<
    NodeDefModel,
    Seq<char>,
> {
    if name == "input"@ {
        Ok(NodeDefModel::Input)
    } else {
        match attributes {
            None => Ok(NodeDefModel::Task),
            Some(pairs) => match attribute(pairs, "shape"@) {
                None => Err("Non-task node requires a shape definition"@),
                Some(shape) => shaped(shape, attribute(pairs, "label"@)),
            },
        }
    }
}

/// Whether the attributes ask for a dashed line.
pub open spec fn is_dashed(pairs: Seq<(Seq<char>, Seq<char>)>) -> bool {
    attribute(pairs, "style"@) == Some("dashed"@)
}

/// The role of a connection with these attributes.
pub open spec fn connection_type_of(attributes: Option<Seq<(Seq<char>, Seq<char>)>>) -> ConnectionModel {
    match attributes {
        None => ConnectionModel::Default,
        Some(pairs) => match attribute(pairs, "label"@) {
            Some(label) => if label == "true"@ {
                ConnectionModel::IfResult(true)
            } else if label == "false"@ {
                ConnectionModel::IfResult(false)
            } else if is_dashed(pairs) {
                ConnectionModel::MatchBranch(label)
            } else {
                ConnectionModel::SwitchBranch(label)
            },
            None => if is_dashed(pairs) {
                ConnectionModel::MultiOut
            } else {
                ConnectionModel::Default
            },
        },
    }
}

/// The value of the attribute `key`.
pub fn get_attribute(pairs: &Vec<(String, String)>, key: &str) -> (r: Option<String>)
    ensures
        match r {
            Some(v) => attribute(pairs_model(pairs@), key@) == Some(v@),
            None => attribute(pairs_model(pairs@), key@) is None,
        },
{
    let ghost all = pairs_model(pairs@);
    let mut i: usize = pairs.len();
    assert(all.take(i as int) =~= all);
    while i > 0
        invariant
            i <= pairs.len(),
            all == pairs_model(pairs@),
            attribute(all, key@) == attribute(all.take(i as int), key@),
        decreases i,
    {
        proof {
            assert(all.take(i as int).drop_last() =~= all.take(i - 1));
            assert(all.take(i as int).last() == (pairs@[i - 1].0@, pairs@[i - 1].1@));
        }
        i -= 1;
        if same_text(pairs[i].0.as_str(), key) {
            return Some(pairs[i].1.clone());
        }
    }
    None
}

/// What the statement, which has one name, defines. A statement that
/// defines nothing gives the fault, at its own offset.
pub fn process_var_def(statement: &Statement) -> (r: Result<(String, NodeDef), Fault>)
    requires
        statement.names.len() == 1,
    ensures
        match r {
            Ok((name, def)) => name@ == statement@.names[0] && node_def_of(
                statement@.names[0],
                statement@.attributes,
            ) == Ok::<NodeDefModel, Seq<char>>(def@),
            Err(f) => f.offset == statement.offset && node_def_of(
                statement@.names[0],
                statement@.attributes,
            ) == Err::<NodeDefModel, Seq<char>>(f.message@),
        },
{
    let name = statement.names[0].clone();
    let offset = statement.offset;
    assert(statement@.names[0] == name@);
    if same_text(name.as_str(), "input") {
        return Ok((name, NodeDef::Input));
    }
    match &statement.attributes {
        None => Ok((name, NodeDef::Task)),
        Some(pairs) => {
            let label = get_attribute(pairs, "label");
            match get_attribute(pairs, "shape") {
                None => Err(Fault { message: "Non-task node requires a shape definition".to_owned(), offset }),
                Some(shape) => {
                    if same_text(shape.as_str(), "rectangle") {
                        match label {
                            Some(condition) => Ok((name, NodeDef::IfStatement(condition))),
                            None => Err(Fault { message: "If statement requires a condition".to_owned(), offset }),
                        }
                    } else if same_text(shape.as_str(), "component") {
                        Ok((name, NodeDef::Count))
                    } else if same_text(shape.as_str(), "diamond") {
                        match label {
                            Some(field) => Ok((name, NodeDef::Switch(field))),
                            None => Err(
                                Fault {
                                    message: "Switch statement requires a field to switch on".to_owned(),
                                    offset,
                                },
                            ),
                        }
                    } else if same_text(shape.as_str(), "Mdiamond") {
                        match label {
                            Some(field) => Ok((name, NodeDef::Match(field))),
                            None => Err(
                                Fault {
                                    message: "Match statement requires a field to match with".to_owned(),
                                    offset,
                                },
                            ),
                        }
                    } else if same_text(shape.as_str(), "point") {
                        Ok((name, NodeDef::Multi))
                    } else if same_text(shape.as_str(), "cds") {
                        match label {
                            Some(pair) => Ok((name, NodeDef::Setter(pair))),
                            None => Err(Fault { message: "Setter requires a field to set".to_owned(), offset }),
                        }
                    } else {
                        Err(Fault { message: "Unknown node type".to_owned(), offset })
                    }
                },
            }
        },
    }
}

/// The role of a connection with these attributes.
pub fn connection_type(attributes: &Option<Vec<(String, String)>>) -> (r: ConnectionType)
    ensures
        r@ == connection_type_of(attributes_model(*attributes)),
{
    match attributes {
        None => ConnectionType::Default,
        Some(pairs) => {
            let dashed = match get_attribute(pairs, "style") {
                Some(style) => same_text(style.as_str(), "dashed"),
                None => false,
            };
            match get_attribute(pairs, "label") {
                Some(label) => {
                    if same_text(label.as_str(), "true") {
                        ConnectionType::IfResult(true)
                    } else if same_text(label.as_str(), "false") {
                        ConnectionType::IfResult(false)
                    } else if dashed {
                        ConnectionType::MatchBranch(label)
                    } else {
                        ConnectionType::SwitchBranch(label)
                    }
                },
                None => {
                    if dashed {
                        ConnectionType::MultiOut
                    } else {
                        ConnectionType::Default
                    }
                },
            }
        },
    }
}

/// The connection from `from` to `to` with these attributes.
pub fn process_connection_def(from: &str, to: &str, attributes: &Option<Vec<(String, String)>>) -> (r:
    ConnectionDef)
    ensures
        r@ == (ConnectionDefModel {
            from: from@,
            to: to@,
            c_type: connection_type_of(attributes_model(*attributes)),
        }),
{
    ConnectionDef { from: from.to_owned(), to: to.to_owned(), c_type: connection_type(attributes) }
}

/// The connections of a chain of names: from each name to the next, all of
/// one role.
pub open spec fn chain_edges(names: Seq<Seq<char>>, kind: ConnectionModel) -> Seq<ConnectionDefModel> {
    if names.len() == 0 {
        Seq::empty()
    } else {
        Seq::new(
            (names.len() - 1) as nat,
            |k: int| ConnectionDefModel { from: names[k], to: names[k + 1], c_type: kind },
        )
    }
}

/// The definitions with what one more statement defines: a node for a
/// statement of one name, the connections of its chain for any other.
pub open spec fn add_statement(d: DefsModel, st: StatementModel) -> Result<DefsModel, FaultModel> {
    if st.names.len() == 1 {
        match node_def_of(st.names[0], st.attributes) {
            Ok(def) => Ok(
                DefsModel { variables: d.variables.insert(st.names[0], def), connections: d.connections },
            ),
            Err(message) => Err(fault(message, st.offset)),
        }
    } else {
        Ok(
            DefsModel {
                variables: d.variables,
                connections: d.connections + chain_edges(st.names, connection_type_of(st.attributes)),
            },
        )
    }
}

/// What the statements define, taken in order, or the first fault.
pub open spec fn collect(statements: Seq<StatementModel>) -> Result<DefsModel, FaultModel>
    decreases statements.len(),
{
    if statements.len() == 0 {
        Ok(DefsModel { variables: Map::empty(), connections: Seq::empty() })
    } else {
        match collect(statements.drop_last()) {
            Ok(d) => add_statement(d, statements.last()),
            Err(e) => Err(e),
        }
    }
}

/// Some connection starts or ends at `name`.
pub open spec fn is_connected(connections: Seq<ConnectionDefModel>, name: Seq<char>) -> bool {
    exists|k: int|
        0 <= k < connections.len() && ((#[trigger] connections[k]).from == name || connections[k].to
            == name)
}

/// The variables with the nodes that are implied: `input` is the entry point
/// where nothing defines it, and a name that only connections mention is a
/// task.
pub open spec fn filled(
    variables: Map<Seq<char>, NodeDefModel>,
    connections: Seq<ConnectionDefModel>,
) -> Map<Seq<char>, NodeDefModel> {
    Map::new(
        |name: Seq<char>| variables.contains_key(name) || name == "input"@ || is_connected(connections, name),
        |name: Seq<char>| if variables.contains_key(name) {
            variables[name]
        } else if name == "input"@ {
            NodeDefModel::Input
        } else {
            NodeDefModel::Task
        },
    )
}

/// The definitions with the implied nodes filled in.
pub open spec fn back_fill(d: DefsModel) -> DefsModel {
    DefsModel { variables: filled(d.variables, d.connections), connections: d.connections }
}

/// What a source defines, or the first error in it.
pub open spec fn definitions_of(source: Seq<char>) -> Result<DefsModel, ParseErrorModel> {
    match tokens_from(source, 0) {
        Err(f) => Err(located(source, f)),
        Ok(tokens) => match statements_from(tokens, 0) {
            Err(f) => Err(located(source, f)),
            Ok(statements) => match collect(statements) {
                Err(f) => Err(located(source, f)),
                Ok(d) => Ok(back_fill(d)),
            },
        },
    }
}

/// Every name that a connection of the definitions mentions is defined.
pub open spec fn connections_closed(d: DefsModel) -> bool {
    forall|k: int|
        0 <= k < d.connections.len() ==> d.variables.contains_key((#[trigger] d.connections[k]).from)
            && d.variables.contains_key(d.connections[k].to)
}

/// After the implied nodes are filled in, every name that a connection
/// mentions is defined, and so is `input`.
pub proof fn lemma_back_fill_closed(d: DefsModel)
    ensures
        connections_closed(back_fill(d)),
        back_fill(d).variables.contains_key("input"@),
        forall|name: Seq<char>| #[trigger]
            d.variables.contains_key(name) ==> back_fill(d).variables.contains_key(name) && back_fill(
                d,
            ).variables[name] == d.variables[name],
{
    let b = back_fill(d);
    assert forall|k: int| 0 <= k < b.connections.len() implies b.variables.contains_key(
        (#[trigger] b.connections[k]).from,
    ) && b.variables.contains_key(b.connections[k].to) by {
        assert(is_connected(d.connections, d.connections[k].from));
        assert(is_connected(d.connections, d.connections[k].to));
    }
}

/// For any source that has definitions, every name that one of their
/// connections starts or ends at is among their variables.
pub proof fn lemma_definitions_closed(source: Seq<char>)
    requires
        definitions_of(source) is Ok,
    ensures
        connections_closed(definitions_of(source)->Ok_0),
{
    let d = collect(statements_from(tokens_from(source, 0)->Ok_0, 0)->Ok_0)->Ok_0;
    lemma_back_fill_closed(d);
}

/// For any source that has definitions, `input` is among their variables.
pub proof fn lemma_definitions_have_input(source: Seq<char>)
    requires
        definitions_of(source) is Ok,
    ensures
        definitions_of(source)->Ok_0.variables.contains_key("input"@),
{
    let d = collect(statements_from(tokens_from(source, 0)->Ok_0, 0)->Ok_0)->Ok_0;
    lemma_back_fill_closed(d);
}

/// A source without statements defines `input`, and nothing else.
pub proof fn lemma_empty_source()
    ensures
        definitions_of(Seq::empty()) is Ok,
        definitions_of(Seq::empty())->Ok_0.variables =~= Map::empty().insert(
            "input"@,
            NodeDefModel::Input,
        ),
        definitions_of(Seq::empty())->Ok_0.connections =~= Seq::empty(),
{
    let none = Seq::<char>::empty();
    assert(tokens_from(none, 0) == Ok::<Seq<TokenModel>, FaultModel>(Seq::empty()));
    assert(statements_from(Seq::<TokenModel>::empty(), 0) == Ok::<Seq<StatementModel>, FaultModel>(
        Seq::empty(),
    ));
    let d = DefsModel { variables: Map::empty(), connections: Seq::empty() };
    assert(collect(Seq::<StatementModel>::empty()) == Ok::<DefsModel, FaultModel>(d));
    assert(!is_connected(d.connections, "input"@));
    assert forall|name: Seq<char>| !is_connected(d.connections, name) by {}
}

/// The model of definitions, or of the fault.
pub open spec fn collected_model(r: Result<Defs, Fault>) -> Result<DefsModel, FaultModel> {
    match r {
        Ok(d) => Ok(d@),
        Err(e) => Err(e@),
    }
}

/// Adds the connections of a chain of names to `connections`.
fn add_chain(connections: &mut Vec<ConnectionDef>, statement: &Statement)
    ensures
        connections_model(final(connections)@) == connections_model(old(connections)@) + chain_edges(
            statement@.names,
            connection_type_of(statement@.attributes),
        ),
{
    let ghost start = connections_model(connections@);
    let ghost names = statement@.names;
    let ghost kind = connection_type_of(statement@.attributes);
    if statement.names.len() == 0 {
        assert(start + chain_edges(names, kind) =~= start);
        return ;
    }
    let mut k: usize = 0;
    assert(start + chain_edges(names, kind).take(0) =~= start);
    while k + 1 < statement.names.len()
        invariant
            k + 1 <= statement.names.len(),
            start == connections_model(old(connections)@),
            names == statement@.names,
            kind == connection_type_of(statement@.attributes),
            connections_model(connections@) == start + chain_edges(names, kind).take(k as int),
        decreases statement.names.len() - k,
    {
        let ghost before = connections_model(connections@);
        let edge = process_connection_def(
            statement.names[k].as_str(),
            statement.names[k + 1].as_str(),
            &statement.attributes,
        );
        connections.push(edge);
        proof {
            assert(connections_model(connections@) =~= before.push(edge@));
            assert(edge@ == chain_edges(names, kind)[k as int]);
            assert(before.push(edge@) =~= start + chain_edges(names, kind).take(k + 1));
        }
        k += 1;
    }
    proof {
        assert(chain_edges(names, kind).take(k as int) =~= chain_edges(names, kind));
    }
}

/// What the statements define, taken in order, or the first fault.
pub fn collect_definitions(statements: &Vec<Statement>) -> (r: Result<Defs, Fault>)
    ensures
        collected_model(r) == collect(statements_model(statements@)),
{
    let ghost all = statements_model(statements@);
    let mut variables: Vec<(String, NodeDef)> = Vec::new();
    let mut connections: Vec<ConnectionDef> = Vec::new();
    let mut i: usize = 0;
    assert(connections_model(connections@) =~= Seq::empty());
    while i < statements.len()
        invariant
            i <= statements.len(),
            all == statements_model(statements@),
            collect(all.take(i as int)) == Ok::<DefsModel, FaultModel>(
                DefsModel {
                    variables: variables_model(variables@),
                    connections: connections_model(connections@),
                },
            ),
        decreases statements.len() - i,
    {
        proof {
            assert(all.take(i + 1).drop_last() =~= all.take(i as int));
            assert(all.take(i + 1).last() == statements@[i as int]@);
        }
        let statement = &statements[i];
        if statement.names.len() == 1 {
            match process_var_def(statement) {
                Ok((name, def)) => {
                    let ghost before = variables@;
                    table_set(&mut variables, name, def);
                    proof {
                        lemma_table_set(before, variables@, |d: NodeDef| d@, name, def);
                    }
                },
                Err(f) => {
                    proof {
                        assert(collect(all.take(i + 1)) == Err::<DefsModel, FaultModel>(f@));
                        lemma_collect_fault(all, i + 1);
                    }
                    return Err(f);
                },
            }
        } else {
            add_chain(&mut connections, statement);
        }
        i += 1;
    }
    proof {
        assert(all.take(statements.len() as int) =~= all);
    }
    Ok(Defs { variables, connections })
}

/// A fault among the first statements is the fault of all of them.
proof fn lemma_collect_fault(statements: Seq<StatementModel>, n: int)
    requires
        0 <= n <= statements.len(),
        collect(statements.take(n)) is Err,
    ensures
        collect(statements) == collect(statements.take(n)),
    decreases statements.len() - n,
{
    if n < statements.len() {
        assert(statements.take(n + 1).drop_last() =~= statements.take(n));
        lemma_collect_fault(statements, n + 1);
    } else {
        assert(statements.take(n) =~= statements);
    }
}

/// Defines `name` as `def` unless it is defined.
fn define_missing(variables: &mut Vec<(String, NodeDef)>, name: &str, def: NodeDef)
    ensures
        variables_model(final(variables)@) == if variables_model(old(variables)@).contains_key(name@) {
            variables_model(old(variables)@)
        } else {
            variables_model(old(variables)@).insert(name@, def@)
        },
{
    proof {
        lemma_table_keys(variables@, |d: NodeDef| d@, name@);
    }
    if find_key(variables, name).is_none() {
        let ghost before = variables@;
        let owned = name.to_owned();
        variables.push((owned, def));
        proof {
            lemma_table_push(before, |d: NodeDef| d@, (owned, def));
        }
    }
}

/// Fills in the implied nodes: `input`, and a task for every name that only
/// connections mention.
pub fn fill_implied(defs: Defs) -> (r: Defs)
    ensures
        r@ == back_fill(defs@),
        connections_closed(r@),
        r@.variables.contains_key("input"@),
{
    let ghost v0 = defs@.variables;
    let ghost cm = defs@.connections;
    let mut variables = defs.variables;
    let connections = defs.connections;
    define_missing(&mut variables, "input", NodeDef::Input);
    assert(variables_model(variables@) =~= filled(v0, cm.take(0))) by {
        assert forall|name: Seq<char>| !is_connected(cm.take(0), name) by {}
    }
    let mut i: usize = 0;
    while i < connections.len()
        invariant
            i <= connections.len(),
            cm == connections_model(connections@),
            variables_model(variables@) == filled(v0, cm.take(i as int)),
        decreases connections.len() - i,
    {
        let ghost before = variables_model(variables@);
        define_missing(&mut variables, connections[i].from.as_str(), NodeDef::Task);
        define_missing(&mut variables, connections[i].to.as_str(), NodeDef::Task);
        proof {
            let from = connections@[i as int].from@;
            let to = connections@[i as int].to@;
            let now = variables_model(variables@);
            let next = cm.take(i + 1);
            assert(next[i as int] == connections@[i as int]@);
            assert forall|name: Seq<char>| is_connected(next, name) <==> (is_connected(
                cm.take(i as int),
                name,
            ) || name == from || name == to) by {
                if is_connected(next, name) {
                    let k = choose|k: int|
                        0 <= k < next.len() && ((#[trigger] next[k]).from == name || next[k].to == name);
                    if k < i {
                        assert(cm.take(i as int)[k] == next[k]);
                    }
                }
                if is_connected(cm.take(i as int), name) {
                    let k = choose|k: int|
                        0 <= k < i && ((#[trigger] cm.take(i as int)[k]).from == name || cm.take(
                            i as int,
                        )[k].to == name);
                    assert(next[k] == cm.take(i as int)[k]);
                }
                if name == from || name == to {
                    assert(next[i as int].from == name || next[i as int].to == name);
                }
            }
            assert(now =~= filled(v0, next));
        }
        i += 1;
    }
    proof {
        assert(cm.take(connections.len() as int) =~= cm);
    }
    let r = Defs { variables, connections };
    proof {
        lemma_back_fill_closed(defs@);
    }
    r
}

/// The model of definitions, or of the error.
pub open spec fn extracted_model(r: Result<Defs, ParseError>) -> Result<DefsModel, ParseErrorModel> {
    match r {
        Ok(d) => Ok(d@),
        Err(e) => Err(e@),
    }
}

/// Reads the definitions of a Flowscript source: what its statements define,
/// with the implied nodes filled in. Fails with the first error in the
/// source, at the line and column where it lies.
pub fn extract_definitions(source: &str) -> (r: Result<Defs, ParseError>)
    ensures
        extracted_model(r) == definitions_of(source@),
        r matches Ok(defs) ==> connections_closed(defs@) && defs@.variables.contains_key("input"@),
{
    let chars = chars_of(source);
    let tokens = match tokenize(&chars) {
        Ok(tokens) => tokens,
        Err(f) => {
            return Err(locate(&chars, f));
        },
    };
    proof {
        let t = tokens_model(tokens@);
        assert(tokens_below(t, chars.len() as int)) by {
            assert forall|k: int| 0 <= k < t.len() implies (#[trigger] t[k]).offset < chars.len() by {
                assert(t[k] == tokens@[k]@);
            }
        }
        lemma_statements_below(t, 0, chars.len() as int);
    }
    let statements = match parse_statements(&tokens) {
        Ok(statements) => statements,
        Err(f) => {
            return Err(locate(&chars, f));
        },
    };
    match collect_definitions(&statements) {
        Ok(defs) => Ok(fill_implied(defs)),
        Err(f) => {
            proof {
                lemma_collect_fault_below(statements_model(statements@), chars.len() as int);
            }
            Err(locate(&chars, f))
        },
    }
}

/// Where every statement starts before `limit`, a fault of theirs lies
/// before it.
proof fn lemma_collect_fault_below(statements: Seq<StatementModel>, limit: int)
    requires
        forall|k: int| 0 <= k < statements.len() ==> (#[trigger] statements[k]).offset < limit,
    ensures
        collect(statements) matches Err(e) ==> e.offset < limit,
    decreases statements.len(),
{
    if statements.len() > 0 {
        let rest = statements.drop_last();
        assert forall|k: int| 0 <= k < rest.len() implies (#[trigger] rest[k]).offset < limit by {
            assert(rest[k] == statements[k]);
        }
        lemma_collect_fault_below(rest, limit);
        assert(statements.last() == statements[statements.len() - 1]);
    }
}

} // verus!
