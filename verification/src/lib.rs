//! Source model, layout formatter and style linter for LC-3 assembly.
//!
//! The pipeline runs from a concrete syntax tree ([`ast::tree`]) through the
//! typed program ([`ast::raw_ast`]) and the attachment transform
//! ([`ast::processed_ast`]) to the two consumers, [`fmt`] and [`lint`].
//! [`error`] puts the syntax errors of the grammar engine into the form of a
//! diagnostic; [`text`] and [`model`] hold what the other modules share.
//!
//! Every function states what it computes over mathematical models of its
//! arguments, and Verus proves the statement of the code.

pub mod ast;
pub mod error;
pub mod fmt;
pub mod lint;
pub mod model;
pub mod text;
