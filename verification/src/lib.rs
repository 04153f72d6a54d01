//! A backtracking-search engine.
//!
//! A [`program::Program`] describes a non-deterministic search as an ordered
//! list of steps — bind a value from a list of candidates, require a
//! predicate, compute a value — ending in a terminal expression.  The
//! [`enumerate::amb`] operator turns such a program into a lazy, pull-based
//! [`enumerate::Enumerator`] that produces the terminal value of every branch
//! that survives all of its requirements, in depth-first, declaration order,
//! pruning a branch as soon as a requirement fails.

pub mod enumerate;
pub mod expr;
pub mod laws;
pub mod program;
pub mod semantics;

pub use enumerate::Enumerator;
pub use enumerate::amb;
pub use expr::Expr;
pub use program::Program;
pub use program::ProgramError;
pub use program::Step;
