//! Declarative test suites: a nested block language of scopes, units and
//! setup/teardown hooks, parsed from tokens and expanded into plain test units.
//!
//! `parse` turns a token sequence into a checked [`block::Root`]; `generate`
//! expands it into an [`generate::Item`] tree, threading the setup and
//! teardown bodies and the default signature of each scope down to its units.
pub mod token;
pub mod block;
pub mod parse;
pub mod generate;
pub mod laws;
