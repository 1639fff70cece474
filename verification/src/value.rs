//! Runtime values and their mathematical model.

use crate::ast::{BuiltInFn, Table, TypeChecked, TypeHandle, TypedExpr};
use std::rc::Rc;
use vstd::prelude::*;

verus! {

/// A runtime value. Closures borrow their body from the program, which
/// outlives every value that evaluation derives from it.
#[derive(Debug, PartialEq)]
pub enum Value<'a> {
    /// The empty value.
    Unit,
    /// A tuple or a record; fields are found by position.
    Tuple(Vec<Value<'a>>),
    /// A closure of one argument: the parameter's name, the bindings it
    /// captured where it was made, and its body.
    Function(Rc<String>, Vec<(String, Value<'a>)>, &'a TypedExpr),
    /// Immutable text.
    String(Rc<String>),
    /// A 64-bit signed integer; 0 and 1 also stand for false and true.
    Integer(i64),
    /// A value of a sum type: the type, the variant's index, the payload.
    Variant(TypeHandle, usize, Rc<Value<'a>>),
    /// A variant constructor that has not been given its payload yet.
    VariantConstructorFn(TypeHandle, usize),
    /// A primitive of the host, callable like a function.
    BuiltInFn(BuiltInFn),
}

/// The mathematical model of a `Value`.
pub enum Val {
    Unit,
    Tuple(Seq<Val>),
    Function(Seq<char>, Seq<(Seq<char>, Val)>, TypedExpr),
    String(Seq<char>),
    Integer(i64),
    Variant(TypeHandle, usize, Box<Val>),
    VariantConstructorFn(TypeHandle, usize),
    BuiltInFn(BuiltInFn),
}

/// The bindings that are visible at one point of an evaluation, oldest
/// first: a later binding shadows an earlier one of the same name.
pub type Scope = Table<Val>;

impl Val {
    /// The invariant of values with respect to a program: every variant
    /// and every constructor in this value, at whatever depth, names a
    /// variant of a sum type that `program` declares.
    pub open spec fn well_formed(self, program: TypeChecked) -> bool
        decreases self,
    {
        match self {
            Val::Tuple(items) => forall|i: int|
                0 <= i < items.len() ==> (#[trigger] items[i]).well_formed(program),
            Val::Function(_, captured, _) => forall|i: int|
                0 <= i < captured.len() ==> (#[trigger] captured[i]).1.well_formed(program),
            Val::Variant(handle, index, payload) => program.has_variant(handle, index)
                && payload.well_formed(program),
            Val::VariantConstructorFn(handle, index) => program.has_variant(handle, index),
            _ => true,
        }
    }
}

/// Every value that `scope` binds is well formed.
pub open spec fn scope_well_formed(scope: Scope, program: TypeChecked) -> bool {
    forall|i: int| 0 <= i < scope.len() ==> (#[trigger] scope[i]).1.well_formed(program)
}

impl<'a> Value<'a> {
    /// The model of this value.
    pub open spec fn model(&self) -> Val
        decreases self,
    {
        match self {
            Value::Unit => Val::Unit,
            Value::Tuple(items) => Val::Tuple(
                Seq::new(
                    items@.len(),
                    |i: int|
                        if 0 <= i < items@.len() {
                            items@[i].model()
                        } else {
                            Val::Unit
                        },
                ),
            ),
            Value::Function(parameter, captured, body) => Val::Function(
                parameter@,
                Seq::new(
                    captured@.len(),
                    |i: int|
                        if 0 <= i < captured@.len() {
                            (captured@[i].0@, captured@[i].1.model())
                        } else {
                            (Seq::empty(), Val::Unit)
                        },
                ),
                **body,
            ),
            Value::String(text) => Val::String(text@),
            Value::Integer(i) => Val::Integer(*i),
            Value::Variant(handle, index, payload) => Val::Variant(
                *handle,
                *index,
                Box::new(payload.model()),
            ),
            Value::VariantConstructorFn(handle, index) => Val::VariantConstructorFn(
                *handle,
                *index,
            ),
            Value::BuiltInFn(id) => Val::BuiltInFn(*id),
        }
    }
}

impl<'a> View for Value<'a> {
    type V = Val;

    open spec fn view(&self) -> Val {
        self.model()
    }
}

/// The models of a run of values.
pub open spec fn models(values: Seq<Value>) -> Seq<Val> {
    Seq::new(values.len(), |i: int| values[i]@)
}

/// The model of a list of bindings.
pub open spec fn scope_of(bindings: Seq<(String, Value)>) -> Scope {
    Seq::new(bindings.len(), |i: int| (bindings[i].0@, bindings[i].1@))
}

/// A tuple's model holds the models of its items.
pub proof fn lemma_tuple_model(items: Vec<Value>)
    ensures
        Value::Tuple(items)@ == Val::Tuple(models(items@)),
{
    assert(Value::Tuple(items)@->Tuple_0 =~= models(items@));
}

/// A closure's model holds the model of what it captured.
pub proof fn lemma_function_model(
    parameter: Rc<String>,
    captured: Vec<(String, Value)>,
    body: &TypedExpr,
)
    ensures
        Value::Function(parameter, captured, body)@ == Val::Function(
            parameter@,
            scope_of(captured@),
            *body,
        ),
{
    assert(Value::Function(parameter, captured, body)@->Function_1 =~= scope_of(captured@));
}

/// Another handle on the same shared value (`Rc::clone`). The new handle
/// points to the allocation that `shared` points to, so what the two hold
/// is equal.
#[verifier::external_body]
fn share<T>(shared: &Rc<T>) -> (handle: Rc<T>)
    ensures
        handle == *shared,
{
    Rc::clone(shared)
}

impl<'a> Value<'a> {
    /// A copy of this value. Strings and variant payloads are shared
    /// between the two, not duplicated.
    pub fn copy(&self) -> (copied: Value<'a>)
        ensures
            copied@ == self@,
        decreases self,
    {
        match self {
            Value::Unit => Value::Unit,
            Value::Tuple(items) => {
                let mut copies: Vec<Value<'a>> = Vec::new();
                let mut i: usize = 0;
                while i < items.len()
                    invariant
                        i <= items.len(),
                        copies.len() == i,
                        forall|j: int| 0 <= j < i ==> copies@[j]@ == items@[j]@,
                        forall|j: int|
                            0 <= j < items.len() ==> decreases_to!(self => #[trigger] items@[j]),
                    decreases items.len() - i,
                {
                    let item = items[i].copy();
                    copies.push(item);
                    i = i + 1;
                }
                proof {
                    lemma_tuple_model(copies);
                    lemma_tuple_model(*items);
                    assert(models(copies@) =~= models(items@));
                }
                Value::Tuple(copies)
            },
            Value::Function(parameter, captured, body) => {
                let copies = copy_bindings(captured);
                let name = share(parameter);
                proof {
                    lemma_function_model(name, copies, *body);
                    lemma_function_model(*parameter, *captured, *body);
                }
                Value::Function(name, copies, *body)
            },
            Value::String(text) => Value::String(share(text)),
            Value::Integer(i) => Value::Integer(*i),
            Value::Variant(handle, index, payload) => Value::Variant(
                *handle,
                *index,
                share(payload),
            ),
            Value::VariantConstructorFn(handle, index) => Value::VariantConstructorFn(
                *handle,
                *index,
            ),
            Value::BuiltInFn(id) => Value::BuiltInFn(*id),
        }
    }
}

/// A copy of a list of bindings, each value copied as `Value::copy` does.
pub fn copy_bindings<'a>(bindings: &Vec<(String, Value<'a>)>) -> (copies: Vec<(String, Value<'a>)>)
    ensures
        scope_of(copies@) == scope_of(bindings@),
    decreases bindings,
{
    let mut copies: Vec<(String, Value<'a>)> = Vec::new();
    let mut i: usize = 0;
    while i < bindings.len()
        invariant
            i <= bindings.len(),
            copies.len() == i,
            forall|j: int|
                0 <= j < i ==> copies@[j].0@ == bindings@[j].0@ && copies@[j].1@ == bindings@[j].1@,
            forall|j: int|
                0 <= j < bindings.len() ==> decreases_to!(bindings => (#[trigger] bindings@[j]).1),
        decreases bindings.len() - i,
    {
        let name = bindings[i].0.clone();
        let value = bindings[i].1.copy();
        copies.push((name, value));
        i = i + 1;
    }
    assert(scope_of(copies@) =~= scope_of(bindings@));
    copies
}

impl<'a> Clone for Value<'a> {
    fn clone(&self) -> (copied: Self)
        ensures
            copied@ == self@,
    {
        self.copy()
    }
}

} // verus!
