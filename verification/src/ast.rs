//! The typed program representation that the evaluator consumes.
//!
//! A front end (lexer, parser, type checker) builds these values; the
//! evaluator only reads them. Every expression node is paired with its
//! inferred type, which evaluation never consults.

use vstd::prelude::*;

verus! {

/// Stable identifier of a declared type: its position in the program's list
/// of type definitions.
#[derive(Clone, Copy, Debug, PartialEq, Eq)]
pub struct TypeHandle {
    pub index: usize,
}

/// Identifier of a primitive operation that the host provides.
#[derive(Clone, Copy, Debug, PartialEq, Eq)]
pub enum BuiltInFn {
    /// Path to the text of the file at that path.
    FileRead,
    /// Writes a string to the output, without a newline.
    Print,
    /// Writes an integer in decimal to the output, without a newline.
    Printi,
    /// Decimal text to the integer it denotes.
    StringParseInt,
    /// A string to its first character and the rest.
    StringGetFirst,
    /// `(text, separator)` to the parts before and after the first separator.
    StringSplit,
    /// Known to the front end; the evaluator has no implementation for it.
    StringConcat,
}

/// Binary operators of the surface language.
#[derive(Clone, Copy, Debug, PartialEq, Eq)]
pub enum Operator {
    BinOpAdd,
    BinOpSub,
    BinOpMul,
    BinOpDiv,
    BinOpMod,
    BinOpLess,
    BinOpLessEq,
    BinOpGreater,
    BinOpGreaterEq,
    BinOpEquals,
    BinOpAnd,
    BinOpOr,
    /// Field selection by name. The front end rewrites it to a positional
    /// `FieldAccess`, so the evaluator treats it as an error.
    BinOpDot,
}

/// Inferred type of an expression.
#[derive(Debug, PartialEq, Eq)]
pub enum Type {
    Unit,
    Boolean,
    Integer,
    String,
    Tuple(Vec<Type>),
    Record(Vec<(String, Type)>),
    Function(Box<Type>, Box<Type>),
    Named(TypeHandle),
}

/// A declared type.
#[derive(Debug, PartialEq, Eq)]
pub enum TypeDefinition {
    /// A sum type: its variants in declaration order, each with the type of
    /// its payload.
    Sum { name: String, variants: Vec<(String, Type)> },
    /// A record type: its fields in declaration order.
    Record { name: String, fields: Vec<(String, Type)> },
}

/// An expression together with its inferred type.
pub type TypedExpr = (ExprT, Type);

/// One arm of a match on a sum type: the variant index it handles, the name
/// that the payload is bound to (if any), and the body.
pub type MatchArm = (usize, Option<String>, TypedExpr);

/// The kinds of expression.
#[derive(Debug, PartialEq, Eq)]
pub enum ExprT {
    Unit,
    BooleanLiteral(bool),
    IntegerLiteral(i64),
    StringLiteral(String),
    Symbol(String),
    Tuple(Vec<TypedExpr>),
    /// Field values in declaration order; names were resolved to positions.
    Record(Vec<TypedExpr>),
    FieldAccess(Box<TypedExpr>, usize),
    LetBinding(String, Box<TypedExpr>, Box<TypedExpr>),
    Lambda(String, Box<TypedExpr>),
    Application(Box<TypedExpr>, Vec<TypedExpr>),
    Conditional(Box<TypedExpr>, Box<TypedExpr>, Box<TypedExpr>),
    BinaryOp(Operator, Box<TypedExpr>, Box<TypedExpr>),
    MatchSum(Box<TypedExpr>, Vec<MatchArm>),
    VariantConstructor(TypeHandle, usize),
    BuiltInFn(BuiltInFn),
    /// Arithmetic negation. The front end accepts it; the evaluator does not
    /// implement it.
    Negation(Box<TypedExpr>),
}

/// The kind of an expression, without its parts.
#[derive(Clone, Copy, Debug, PartialEq, Eq)]
pub enum ExprKind {
    Unit,
    BooleanLiteral,
    IntegerLiteral,
    StringLiteral,
    Symbol,
    Tuple,
    Record,
    FieldAccess,
    LetBinding,
    Lambda,
    Application,
    Conditional,
    BinaryOp,
    MatchSum,
    VariantConstructor,
    BuiltInFn,
    Negation,
}

impl ExprT {
    /// The kind of this expression.
    pub open spec fn kind_of(&self) -> ExprKind {
        match self {
            ExprT::Unit => ExprKind::Unit,
            ExprT::BooleanLiteral(_) => ExprKind::BooleanLiteral,
            ExprT::IntegerLiteral(_) => ExprKind::IntegerLiteral,
            ExprT::StringLiteral(_) => ExprKind::StringLiteral,
            ExprT::Symbol(_) => ExprKind::Symbol,
            ExprT::Tuple(_) => ExprKind::Tuple,
            ExprT::Record(_) => ExprKind::Record,
            ExprT::FieldAccess(_, _) => ExprKind::FieldAccess,
            ExprT::LetBinding(_, _, _) => ExprKind::LetBinding,
            ExprT::Lambda(_, _) => ExprKind::Lambda,
            ExprT::Application(_, _) => ExprKind::Application,
            ExprT::Conditional(_, _, _) => ExprKind::Conditional,
            ExprT::BinaryOp(_, _, _) => ExprKind::BinaryOp,
            ExprT::MatchSum(_, _) => ExprKind::MatchSum,
            ExprT::VariantConstructor(_, _) => ExprKind::VariantConstructor,
            ExprT::BuiltInFn(_) => ExprKind::BuiltInFn,
            ExprT::Negation(_) => ExprKind::Negation,
        }
    }

    /// The kind of this expression.
    pub fn kind(&self) -> (kind: ExprKind)
        ensures
            kind == self.kind_of(),
    {
        match self {
            ExprT::Unit => ExprKind::Unit,
            ExprT::BooleanLiteral(_) => ExprKind::BooleanLiteral,
            ExprT::IntegerLiteral(_) => ExprKind::IntegerLiteral,
            ExprT::StringLiteral(_) => ExprKind::StringLiteral,
            ExprT::Symbol(_) => ExprKind::Symbol,
            ExprT::Tuple(_) => ExprKind::Tuple,
            ExprT::Record(_) => ExprKind::Record,
            ExprT::FieldAccess(_, _) => ExprKind::FieldAccess,
            ExprT::LetBinding(_, _, _) => ExprKind::LetBinding,
            ExprT::Lambda(_, _) => ExprKind::Lambda,
            ExprT::Application(_, _) => ExprKind::Application,
            ExprT::Conditional(_, _, _) => ExprKind::Conditional,
            ExprT::BinaryOp(_, _, _) => ExprKind::BinaryOp,
            ExprT::MatchSum(_, _) => ExprKind::MatchSum,
            ExprT::VariantConstructor(_, _) => ExprKind::VariantConstructor,
            ExprT::BuiltInFn(_) => ExprKind::BuiltInFn,
            ExprT::Negation(_) => ExprKind::Negation,
        }
    }
}

/// A type-checked program: the top-level definitions by name, and the
/// declared types by handle.
#[derive(Debug, PartialEq, Eq)]
pub struct TypeChecked {
    pub bindings: Vec<(String, TypedExpr)>,
    pub types: Vec<TypeDefinition>,
}

/// A list of named entries, read as a mapping in which a later entry
/// shadows an earlier one of the same name.
pub type Table<T> = Seq<(Seq<char>, T)>;

/// The value that `name` maps to in `entries`: that of the latest entry
/// with this name.
pub open spec fn lookup<T>(entries: Table<T>, name: Seq<char>) -> Option<T>
    decreases entries.len(),
{
    if entries.len() == 0 {
        None
    } else if entries.last().0 == name {
        Some(entries.last().1)
    } else {
        lookup(entries.drop_last(), name)
    }
}

/// The entry at `i` is the latest one named `name`.
pub open spec fn is_latest<T>(entries: Table<T>, name: Seq<char>, i: int) -> bool {
    &&& 0 <= i < entries.len()
    &&& entries[i].0 == name
    &&& forall|j: int| i < j < entries.len() ==> (#[trigger] entries[j]).0 != name
}

/// No entry is named `name`.
pub open spec fn is_absent<T>(entries: Table<T>, name: Seq<char>) -> bool {
    forall|j: int| 0 <= j < entries.len() ==> (#[trigger] entries[j]).0 != name
}

/// `lookup` finds the latest entry of a name.
pub proof fn lemma_lookup_latest<T>(entries: Table<T>, name: Seq<char>, i: int)
    requires
        is_latest(entries, name, i),
    ensures
        lookup(entries, name) == Some(entries[i].1),
    decreases entries.len(),
{
    if i < entries.len() - 1 {
        let front = entries.drop_last();
        assert(entries.last() == entries[entries.len() - 1]);
        assert forall|j: int| i < j < front.len() implies (#[trigger] front[j]).0 != name by {
            assert(front[j] == entries[j]);
        }
        assert(front[i] == entries[i]);
        lemma_lookup_latest(front, name, i);
    }
}

/// `lookup` finds nothing exactly when no entry has the name.
pub proof fn lemma_lookup_absent<T>(entries: Table<T>, name: Seq<char>)
    requires
        is_absent(entries, name),
    ensures
        lookup(entries, name) is None,
    decreases entries.len(),
{
    if entries.len() > 0 {
        let front = entries.drop_last();
        assert(entries.last() == entries[entries.len() - 1]);
        assert forall|j: int| 0 <= j < front.len() implies (#[trigger] front[j]).0 != name by {
            assert(front[j] == entries[j]);
        }
        lemma_lookup_absent(front, name);
    }
}

/// Position of the latest entry named `name`, if there is one.
pub fn find_latest<T>(entries: &Vec<(String, T)>, name: &String) -> (found: Option<usize>)
    ensures
        match found {
            Some(i) => {
                &&& i < entries.len()
                &&& entries[i as int].0@ == name@
                &&& forall|j: int| i < j < entries.len() ==> (#[trigger] entries[j]).0@ != name@
            },
            None => forall|j: int| 0 <= j < entries.len() ==> (#[trigger] entries[j]).0@ != name@,
        },
{
    let mut i: usize = entries.len();
    while i > 0
        invariant
            i <= entries.len(),
            forall|j: int| i <= j < entries.len() ==> (#[trigger] entries[j]).0@ != name@,
        decreases i,
    {
        i = i - 1;
        if entries[i].0 == *name {
            return Some(i);
        }
    }
    None
}

impl TypeChecked {
    /// The top-level definitions as a mapping from name to definition.
    pub open spec fn globals(&self) -> Table<TypedExpr> {
        self.bindings@.map_values(|b: (String, TypedExpr)| (b.0@, b.1))
    }

    /// Whether `handle` and `index` name a variant of a declared sum type.
    pub open spec fn has_variant(&self, handle: TypeHandle, index: usize) -> bool {
        &&& handle.index < self.types@.len()
        &&& self.types@[handle.index as int] matches TypeDefinition::Sum { variants, .. }
        &&& index < variants@.len()
    }

    /// The definition of the top-level name `name`, if the program has one.
    pub fn global(&self, name: &String) -> (found: Option<&TypedExpr>)
        ensures
            match found {
                Some(definition) => lookup(self.globals(), name@) == Some(*definition),
                None => lookup(self.globals(), name@) is None,
            },
    {
        match find_latest(&self.bindings, name) {
            Some(i) => {
                proof {
                    assert(is_latest(self.globals(), name@, i as int));
                    lemma_lookup_latest(self.globals(), name@, i as int);
                }
                Some(&self.bindings[i].1)
            },
            None => {
                proof {
                    assert(is_absent(self.globals(), name@));
                    lemma_lookup_absent(self.globals(), name@);
                }
                None
            },
        }
    }

    /// Whether `handle` and `index` name a variant of a declared sum type.
    pub fn check_variant(&self, handle: TypeHandle, index: usize) -> (valid: bool)
        ensures
            valid == self.has_variant(handle, index),
    {
        if handle.index < self.types.len() {
            match &self.types[handle.index] {
                TypeDefinition::Sum { variants, .. } => index < variants.len(),
                _ => false,
            }
        } else {
            false
        }
    }
}

} // verus!
