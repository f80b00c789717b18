//! Reduction passes over constraint matrices.
//!
//! Each pass scans a matrix for one pattern, can apply its findings, and
//! reports them. Applying findings never costs a solution: every
//! assignment satisfying the input system satisfies the result. For
//! deduplication and constant folding the converse holds as well, and for
//! dead-variable elimination and linear substitution every assignment of
//! the result extends back to one of the input by reviving the removed
//! variables.

pub mod common_subexpression;
pub mod constant_folding;
pub mod dead_variable;
pub mod deduplication;
pub mod linear_substitution;
