//! A packrat parsing-expression-grammar engine.
//!
//! A grammar is a graph of symbols: exact texts, references to named rules,
//! sequences, ordered choices, repetitions and optionals. Parsing threads a
//! cursor through the text, remembers the outcome of every named rule at
//! every offset where it was tried, and reports the farthest failure when no
//! alternative matches.
//!
//! What a parse yields is defined once, without any cache, in [`semantics`];
//! the parser in [`engine`] is proved to return exactly that. The grammar
//! must be free of left recursion: [`syntax::Syntax::wf`] says what that
//! means, [`laws`] holds what follows for every such grammar, and
//! [`rule_laws`] says the same of the results that rules return.
//!
//! [`silly_grammar`] and [`classy`] are two grammars made with the engine,
//! with symbols of their own that turn parse trees into numbers and into the
//! definition of a class.

pub mod classy;
pub mod cursor;
pub mod engine;
pub mod grammar;
pub mod laws;
pub mod matchers;
pub mod memo;
pub mod packrat;
pub mod pattern;
pub mod progress;
pub mod rule_laws;
pub mod semantics;
pub mod silly_grammar;
pub mod symbol;
pub mod syntax;
pub mod text;
pub mod value;
pub mod witness;

pub use crate::cursor::{Error, Input, ParseResult};
pub use crate::grammar::{Body, Grammar, Kind, Node, Rule};
pub use crate::memo::Cache;
pub use crate::packrat::Packrat;
pub use crate::symbol::{Action, Symbol, SymbolRef};
pub use crate::value::Value;
