//! Flowscript: a small language for data-flow graphs over JSON values, and
//! the tools of an agent that runs such graphs to compile C++ sources and to
//! have a chat model correct them.
//!
//! A source names nodes and draws connections between them. The shape of a
//! node says what it does, the label and the style of a connection say what
//! it is for. A source is read into definitions ([`definitions`]), the
//! definitions are bound into a graph ([`transform`]), and the graph is run
//! step by step on a value ([`engine`], [`flow`]). What the steps are known
//! to do is stated in [`guarantees`] and [`closure`].

// Texts, tables and JSON values.
pub mod text;
pub mod table;
pub mod value;
pub mod json;
pub mod number;
pub mod object;
pub mod compare;

// From a source to its definitions.
pub mod lexer;
pub mod parser;
pub mod defs;
pub mod definitions;

// From definitions to a graph, and running it.
pub mod nodes;
pub mod transform;
pub mod conditional;
pub mod engine;
pub mod flow;
pub mod error;
pub mod guarantees;
pub mod closure;

// The agent's tools.
pub mod ai;
pub mod prompts;
pub mod fs_prompt;
pub mod compiler;
pub mod output;
pub mod files;
pub mod git;
pub mod system;
pub mod ui;
