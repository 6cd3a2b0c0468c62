//! Validation, analysis and library-expansion core of the ETDL compiler.
//!
//! Documents are modelled as plain values (see [`model`]); every check
//! produces [`diagnostic::Diagnostic`] values whose exact contents are
//! stated by the contracts of the functions that produce them.

pub mod text;
pub mod diagnostic;
pub mod ecel;
pub mod model;
pub mod extension;
pub mod tree_event;
pub mod performance;
pub mod safety;
pub mod diagnostics;
pub mod security;
pub mod live_reliability;
pub mod reliability;
pub mod validate;
pub mod fault_rules;
pub mod sorted;
pub mod fault_structure;
pub mod event_rules;
pub mod event_graph;
pub mod stdlib;
pub mod rows;
pub mod fault_tree;
pub mod typeck;
pub mod refs;
pub mod graph;
pub mod targets;
pub mod plugin;
pub mod plugin_store;
pub mod codegen;
pub mod laws;
pub mod gate_order;
pub mod libraries;
pub mod expansion;
pub mod pipeline;
pub mod rule_laws;
