//! A small term-rewriting engine for propositional formulas: a parser for
//! boolean expressions, a structural matcher for rewrite rules, and a
//! rewriter that splices instantiated rule tails back into a tree.
pub mod expr;
pub mod parser;
pub mod rule;
pub mod matcher;
pub mod rewrite;

pub use expr::{Expr, Prop};
pub use parser::{parse_expression, ParseError};
pub use rule::{Bindings, Match, Rule};
pub use rewrite::ApplyError;
