//! Converts a small textual math notation into LaTeX math-mode fragments.
//!
//! The pipeline has three stages: [`lexer`] turns text into positioned
//! tokens, [`parser`] turns tokens into expression trees with operator
//! precedence and arity checks, and [`expression`] renders each tree as a
//! LaTeX fragment.  [`latex`] runs the three in turn; [`text`] holds the
//! character and string primitives they share.  Each stage is stated as a
//! spec function over the models of its values, and the executable code is
//! proved to compute exactly that.
use vstd::prelude::*;

pub mod error;
pub mod expression;
pub mod latex;
pub mod lexer;
pub mod parser;
pub mod text;

verus! {

} // verus!
