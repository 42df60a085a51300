//! Consistency checking for feature models and their configurations.
//!
//! The crate is built from a propositional satisfiability kernel, an encoder
//! that turns a feature tree with its groups and cross-tree edges into clauses,
//! and a small constraint language over feature parameters. Around them stand
//! the structural rules of a registry of elements and the answers that the
//! validator gives to its host.

pub mod constraint_evaluator;
pub mod constraint_laws;
pub mod constraint_parser;
pub mod feature_meaning;
pub mod feature_model;
pub mod feature_validation;
pub mod link_graph;
pub mod parameter_validation;
pub mod rules;
pub mod sat_model;
pub mod sat_solver;
pub mod text;
pub mod types;
pub mod validator;
