//! A minimal Lisp: a reader that turns text into symbolic expressions and an
//! evaluator that interprets them against a mapping from symbols to
//! expressions.
//!
//! The evaluator knows the primitives `quote`, `atom`, `eq`, `first` (or
//! `car`), `rest` (or `cdr`), `cons` and `cond`, the definition form `defun`,
//! and calls of functions written as `lambda` and `label` forms.

pub mod depth;
pub mod env;
pub mod eval;
pub mod expr;
pub mod grammar;
pub mod laws;
pub mod read;
pub mod roundtrip;
pub mod semantics;
pub mod session;
mod text;
pub mod tree;

pub use env::Env;
pub use eval::eval;
pub use expr::{Expr, Expression};
pub use read::read;
pub use session::read_eval;
pub use tree::Tree;
