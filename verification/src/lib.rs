//! Ordering checks for enum declarations and annotated `match` expressions.
//!
//! An enum passes when its variants are declared in ascending ordinal order of
//! their names. A function body passes when, in every annotated `match`, the
//! arms come in ascending order of their comparison keys, with at most one
//! wildcard arm, in last place. Violations are reported as diagnostics anchored
//! at the offending name; the annotation is removed from every match that was
//! inspected, and nothing else in the tree changes.
//!
//! - [`tree`]: the syntax tree that the checks read, and its model.
//! - [`span`]: places in the source text.
//! - [`ordinal`]: the order on names.
//! - [`order`]: the ordering rule on a list of names.
//! - [`key`]: the comparison key of a pattern.
//! - [`diagnostic`]: what is reported.
//! - [`declaration`]: the check of an enum declaration.
//! - [`arms`]: the check of the arms of one `match`.
//! - [`walker`]: the walk over a function body.

pub mod tree;
pub mod span;
pub mod ordinal;
pub mod order;
pub mod key;
pub mod diagnostic;
pub mod declaration;
pub mod arms;
pub mod walker;

pub use crate::declaration::{sorted, validate_enum};
pub use crate::walker::{check, MatchVisitor};
