//! An interpreter for a small applicative language of the Lisp family.
//!
//! Source expressions (as produced by a front-end reader) are classified at
//! top level, lowered by a resolver into a finalized intermediate
//! representation, and executed by a stack machine against a persistent
//! environment of top-level definitions.

pub mod types;
pub mod builtins;
pub mod resolve;
pub mod evaluator;
pub mod printing;
