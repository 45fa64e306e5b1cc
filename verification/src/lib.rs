//! The front end of a small functional language: its types, the resolution and printing of them,
//! and the checks and queries that run over its syntax trees.

pub mod agreement;
pub mod ast;
pub mod cacher;
pub mod compiler;
pub mod compiler_laws;
pub mod completion;
pub mod completion_laws;
pub mod doc;
pub mod fixed;
pub mod found_laws;
pub mod grammar_laws;
pub mod implicits;
pub mod kind;
pub mod laws;
pub mod lexer;
pub mod macros;
pub mod match_laws;
pub mod metadata;
pub mod options;
pub mod parser;
pub mod pos;
pub mod pretty_print;
pub mod print_laws;
pub mod pushable;
pub mod query;
pub mod recursion_check;
pub mod recursion_laws;
pub mod resolve;
pub mod scope;
pub mod serialization;
pub mod source;
pub mod substitution;
pub mod suggest;
pub mod symbol;
pub mod symbol_map;
pub mod text;
pub mod typecheck;
pub mod typed;
pub mod types;
pub mod unify_type;
pub mod untyped_laws;
