//! A tree-walking evaluator for a small statically typed functional
//! language with tuples, closures, sum types and host-provided primitives.
//!
//! `ast` holds the typed program that a front end hands over, `value` the
//! runtime values and `error` the ways in which an evaluation fails.
//! `semantics` defines what every expression evaluates to, as a
//! mathematical function; `interpret` holds the evaluator that computes it,
//! with `operators` and `text` for the arithmetic and the string primitives.
//! `laws` proves what holds of every evaluation.
//!
//! The library does no input or output of its own. What a program prints is
//! collected as text, and the files it may read are handed in by the host.

pub mod ast;
pub mod error;
pub mod interpret;
pub mod laws;
pub mod operators;
pub mod semantics;
pub mod text;
pub mod value;

pub use ast::{
    BuiltInFn, ExprKind, ExprT, MatchArm, Operator, Type, TypeChecked, TypeDefinition, TypeHandle,
    TypedExpr,
};
pub use error::EvalError;
pub use interpret::{interpret, Interpreter, Run};
pub use value::Value;
