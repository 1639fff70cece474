//! The ways in which an evaluation ends without a value.
//!
//! Every one of them is final: the language has no construct that catches
//! an error, so nothing is evaluated after one.

use crate::ast::{BuiltInFn, ExprKind, Operator, TypeHandle};
use vstd::prelude::*;

verus! {

/// Why an evaluation stopped.
#[derive(Debug, PartialEq, Eq)]
pub enum EvalError {
    /// Expressions and calls were nested deeper than the limit allows.
    DepthExceeded,
    /// A name is bound neither locally nor at top level.
    UnboundSymbol(String),
    /// A top-level name is bound to something other than a function or a
    /// primitive.
    UnsupportedGlobal(String),
    /// The program has no definition of the entry point.
    EntryNotFound(String),
    /// The entry point is not a function.
    EntryNotFunction(String),
    /// A field was taken of a value that is no tuple.
    NotATuple,
    /// A tuple has no field at the position asked for.
    FieldOutOfRange(usize),
    /// A match inspected a value that is no variant.
    NotAVariant,
    /// No arm of a match handles the variant that the value carries.
    NoMatchingArm(usize),
    /// A value that is neither closure, constructor nor primitive was
    /// applied to an argument.
    NotCallable,
    /// An integer was divided by zero, or its remainder by zero taken.
    DivisionByZero,
    /// The result of an arithmetic operation does not fit in 64 bits.
    IntegerOverflow,
    /// The operator is not defined on operands of this kind.
    UnsupportedOperator(Operator),
    /// The operands are not two integers or two strings.
    OperandMismatch,
    /// A constructor names no variant of a declared sum type.
    InvalidVariant(TypeHandle, usize),
    /// The evaluator does not implement this kind of expression.
    UnsupportedExpression(ExprKind),
    /// The evaluator does not implement this primitive.
    UnsupportedBuiltIn(BuiltInFn),
    /// A primitive was given an argument of the wrong shape.
    BuiltInArgument(BuiltInFn),
    /// The text is no decimal integer of 64 bits.
    MalformedInteger,
    /// The first character of an empty string was asked for.
    EmptyString,
    /// The host has not supplied the file at this path.
    FileUnavailable(String),
}

/// The model of an `EvalError`.
pub enum Fault {
    DepthExceeded,
    UnboundSymbol(Seq<char>),
    UnsupportedGlobal(Seq<char>),
    EntryNotFound(Seq<char>),
    EntryNotFunction(Seq<char>),
    NotATuple,
    FieldOutOfRange(usize),
    NotAVariant,
    NoMatchingArm(usize),
    NotCallable,
    DivisionByZero,
    IntegerOverflow,
    UnsupportedOperator(Operator),
    OperandMismatch,
    InvalidVariant(TypeHandle, usize),
    UnsupportedExpression(ExprKind),
    UnsupportedBuiltIn(BuiltInFn),
    BuiltInArgument(BuiltInFn),
    MalformedInteger,
    EmptyString,
    FileUnavailable(Seq<char>),
}

impl View for EvalError {
    type V = Fault;

    open spec fn view(&self) -> Fault {
        match self {
            EvalError::DepthExceeded => Fault::DepthExceeded,
            EvalError::UnboundSymbol(name) => Fault::UnboundSymbol(name@),
            EvalError::UnsupportedGlobal(name) => Fault::UnsupportedGlobal(name@),
            EvalError::EntryNotFound(name) => Fault::EntryNotFound(name@),
            EvalError::EntryNotFunction(name) => Fault::EntryNotFunction(name@),
            EvalError::NotATuple => Fault::NotATuple,
            EvalError::FieldOutOfRange(index) => Fault::FieldOutOfRange(*index),
            EvalError::NotAVariant => Fault::NotAVariant,
            EvalError::NoMatchingArm(index) => Fault::NoMatchingArm(*index),
            EvalError::NotCallable => Fault::NotCallable,
            EvalError::DivisionByZero => Fault::DivisionByZero,
            EvalError::IntegerOverflow => Fault::IntegerOverflow,
            EvalError::UnsupportedOperator(op) => Fault::UnsupportedOperator(*op),
            EvalError::OperandMismatch => Fault::OperandMismatch,
            EvalError::InvalidVariant(handle, index) => Fault::InvalidVariant(*handle, *index),
            EvalError::UnsupportedExpression(kind) => Fault::UnsupportedExpression(*kind),
            EvalError::UnsupportedBuiltIn(id) => Fault::UnsupportedBuiltIn(*id),
            EvalError::BuiltInArgument(id) => Fault::BuiltInArgument(*id),
            EvalError::MalformedInteger => Fault::MalformedInteger,
            EvalError::EmptyString => Fault::EmptyString,
            EvalError::FileUnavailable(path) => Fault::FileUnavailable(path@),
        }
    }
}

} // verus!
