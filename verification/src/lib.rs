//! Propositional-logic expressions over a shared set of boolean variables.
//!
//! The crate models boolean expressions as a recursive tree of constants,
//! variables and operator applications, evaluates them against variable
//! assignments, discovers the variables a tree mentions, and enumerates
//! every assignment over a variable list by binary counting, so that a
//! driver can render a full truth table.

pub mod assignment;
pub mod expr;
pub mod op;
pub mod table;
