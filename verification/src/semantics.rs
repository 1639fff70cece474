//! What evaluation means: the value, or the error, and the printed text
//! that each expression denotes.
//!
//! The functions here are mathematical definitions. The `Interpreter`
//! computes them; its contracts are stated over them.

use crate::ast::{lookup, BuiltInFn, ExprT, MatchArm, Table, TypeChecked, TypedExpr};
use crate::error::Fault;
use crate::operators::{binary, truth};
use crate::text::{decimal, first_and_rest, parse_decimal, split_once};
use crate::value::{Scope, Val};
use vstd::prelude::*;

verus! {

/// What an evaluation reads and never changes: the program, and the files
/// that the host has supplied, by path.
pub struct Context {
    pub program: TypeChecked,
    pub files: Table<Seq<char>>,
}

/// How an evaluation ends: with a result or an error, having printed some
/// text on the way.
pub struct Outcome<T> {
    pub result: Result<T, Fault>,
    pub printed: Seq<char>,
}

impl<T> Outcome<T> {
    /// Ends with `value`, nothing printed.
    pub open spec fn value(value: T) -> Outcome<T> {
        Outcome { result: Ok(value), printed: Seq::empty() }
    }

    /// Ends with `fault`, nothing printed.
    pub open spec fn fault(fault: Fault) -> Outcome<T> {
        Outcome { result: Err(fault), printed: Seq::empty() }
    }

    /// The same end, reached after `printed` had been printed already.
    pub open spec fn after(self, printed: Seq<char>) -> Outcome<T> {
        Outcome { result: self.result, printed: printed + self.printed }
    }
}

/// What the primitive `id` does with `argument`.
pub open spec fn builtin(files: Table<Seq<char>>, id: BuiltInFn, argument: Val) -> Outcome<Val> {
    match id {
        BuiltInFn::FileRead => match argument {
            Val::String(path) => match lookup(files, path) {
                Some(text) => Outcome::value(Val::String(text)),
                None => Outcome::fault(Fault::FileUnavailable(path)),
            },
            _ => Outcome::fault(Fault::BuiltInArgument(id)),
        },
        BuiltInFn::Print => match argument {
            Val::String(text) => Outcome { result: Ok(Val::Unit), printed: text },
            _ => Outcome::fault(Fault::BuiltInArgument(id)),
        },
        BuiltInFn::Printi => match argument {
            Val::Integer(i) => Outcome { result: Ok(Val::Unit), printed: decimal(i as int) },
            _ => Outcome::fault(Fault::BuiltInArgument(id)),
        },
        BuiltInFn::StringParseInt => match argument {
            Val::String(text) => match parse_decimal(text) {
                Some(i) => Outcome::value(Val::Integer(i)),
                None => Outcome::fault(Fault::MalformedInteger),
            },
            _ => Outcome::fault(Fault::BuiltInArgument(id)),
        },
        BuiltInFn::StringGetFirst => match argument {
            Val::String(text) => if text.len() == 0 {
                Outcome::fault(Fault::EmptyString)
            } else {
                Outcome::value(pair_of(first_and_rest(text)))
            },
            _ => Outcome::fault(Fault::BuiltInArgument(id)),
        },
        BuiltInFn::StringSplit => if argument is Tuple && argument->Tuple_0.len() == 2
            && argument->Tuple_0[0] is String && argument->Tuple_0[1] is String {
            Outcome::value(
                pair_of(
                    split_once(argument->Tuple_0[0]->String_0, argument->Tuple_0[1]->String_0),
                ),
            )
        } else {
            Outcome::fault(Fault::BuiltInArgument(id))
        },
        BuiltInFn::StringConcat => Outcome::fault(Fault::UnsupportedBuiltIn(id)),
    }
}

/// The tuple of two strings.
pub open spec fn pair_of(parts: (Seq<char>, Seq<char>)) -> Val {
    Val::Tuple(seq![Val::String(parts.0), Val::String(parts.1)])
}

/// Position of the first arm from `from` on that handles the variant `index`.
pub open spec fn select_arm_from(arms: Seq<MatchArm>, index: usize, from: int) -> Option<int>
    decreases arms.len() - from,
{
    if from < 0 || from >= arms.len() {
        None
    } else if arms[from].0 == index {
        Some(from)
    } else {
        select_arm_from(arms, index, from + 1)
    }
}

/// Position of the first arm, in declaration order, that handles the
/// variant `index`.
pub open spec fn select_arm(arms: Seq<MatchArm>, index: usize) -> Option<int> {
    select_arm_from(arms, index, 0)
}

/// The scope in which an arm's body is evaluated: the payload is bound to
/// the arm's capture name, where it has one.
pub open spec fn arm_scope(arm: MatchArm, scope: Scope, payload: Val) -> Scope {
    match arm.1 {
        Some(name) => scope.push((name@, payload)),
        None => scope,
    }
}

/// What a name refers to. Local bindings come first. A top-level function
/// gives a closure that captured nothing; a top-level primitive gives that
/// primitive.
pub open spec fn resolve(program: TypeChecked, scope: Scope, name: Seq<char>) -> Result<Val, Fault> {
    match lookup(scope, name) {
        Some(value) => Ok(value),
        None => match lookup(program.globals(), name) {
            Some(definition) => match definition.0 {
                ExprT::Lambda(parameter, body) => Ok(
                    Val::Function(parameter@, Seq::empty(), *body),
                ),
                ExprT::BuiltInFn(id) => Ok(Val::BuiltInFn(id)),
                _ => Err(Fault::UnsupportedGlobal(name)),
            },
            None => Err(Fault::UnboundSymbol(name)),
        },
    }
}

/// What `expr` evaluates to in `scope`, with `depth` levels of nesting
/// allowed: every expression takes one level more than the deepest of the
/// expressions it evaluates, and a call as many as the body it runs.
pub open spec fn eval(cx: Context, expr: TypedExpr, scope: Scope, depth: nat) -> Outcome<Val>
    decreases depth, 0nat,
{
    if depth == 0 {
        Outcome::fault(Fault::DepthExceeded)
    } else {
        let inner = (depth - 1) as nat;
        match expr.0 {
            ExprT::Unit => Outcome::value(Val::Unit),
            ExprT::BooleanLiteral(b) => Outcome::value(Val::Integer(truth(b))),
            ExprT::IntegerLiteral(i) => Outcome::value(Val::Integer(i)),
            ExprT::StringLiteral(text) => Outcome::value(Val::String(text@)),
            ExprT::Symbol(name) => Outcome {
                result: resolve(cx.program, scope, name@),
                printed: Seq::empty(),
            },
            ExprT::Tuple(items) => {
                let all = eval_all(cx, items@, scope, inner);
                match all.result {
                    Ok(values) => Outcome { result: Ok(Val::Tuple(values)), printed: all.printed },
                    Err(fault) => Outcome { result: Err(fault), printed: all.printed },
                }
            },
            ExprT::Record(fields) => {
                let all = eval_all(cx, fields@, scope, inner);
                match all.result {
                    Ok(values) => Outcome { result: Ok(Val::Tuple(values)), printed: all.printed },
                    Err(fault) => Outcome { result: Err(fault), printed: all.printed },
                }
            },
            ExprT::FieldAccess(tuple, index) => {
                let t = eval(cx, *tuple, scope, inner);
                match t.result {
                    Ok(Val::Tuple(values)) => if index < values.len() {
                        Outcome { result: Ok(values[index as int]), printed: t.printed }
                    } else {
                        Outcome { result: Err(Fault::FieldOutOfRange(index)), printed: t.printed }
                    },
                    Ok(_) => Outcome { result: Err(Fault::NotATuple), printed: t.printed },
                    Err(fault) => Outcome { result: Err(fault), printed: t.printed },
                }
            },
            ExprT::LetBinding(name, bound, body) => {
                let b = eval(cx, *bound, scope, inner);
                match b.result {
                    Ok(value) => eval(cx, *body, scope.push((name@, value)), inner).after(
                        b.printed,
                    ),
                    Err(fault) => Outcome { result: Err(fault), printed: b.printed },
                }
            },
            ExprT::Lambda(parameter, body) => Outcome::value(
                Val::Function(parameter@, scope, *body),
            ),
            ExprT::Application(callee, arguments) => {
                let c = eval(cx, *callee, scope, inner);
                match c.result {
                    Ok(function) => apply_all(cx, function, arguments@, scope, inner).after(
                        c.printed,
                    ),
                    Err(fault) => Outcome { result: Err(fault), printed: c.printed },
                }
            },
            ExprT::Conditional(condition, consequent, alternative) => {
                let c = eval(cx, *condition, scope, inner);
                match c.result {
                    Ok(value) => if value == Val::Integer(0) {
                        eval(cx, *alternative, scope, inner).after(c.printed)
                    } else {
                        eval(cx, *consequent, scope, inner).after(c.printed)
                    },
                    Err(fault) => Outcome { result: Err(fault), printed: c.printed },
                }
            },
            ExprT::BinaryOp(op, lhs, rhs) => {
                let l = eval(cx, *lhs, scope, inner);
                match l.result {
                    Ok(left) => {
                        let r = eval(cx, *rhs, scope, inner);
                        match r.result {
                            Ok(right) => Outcome {
                                result: binary(op, left, right),
                                printed: l.printed + r.printed,
                            },
                            Err(fault) => Outcome {
                                result: Err(fault),
                                printed: l.printed + r.printed,
                            },
                        }
                    },
                    Err(fault) => Outcome { result: Err(fault), printed: l.printed },
                }
            },
            ExprT::MatchSum(matchee, arms) => {
                let m = eval(cx, *matchee, scope, inner);
                match m.result {
                    Ok(Val::Variant(_, index, payload)) => match select_arm(arms@, index) {
                        Some(k) => eval(
                            cx,
                            arms@[k].2,
                            arm_scope(arms@[k], scope, *payload),
                            inner,
                        ).after(m.printed),
                        None => Outcome {
                            result: Err(Fault::NoMatchingArm(index)),
                            printed: m.printed,
                        },
                    },
                    Ok(_) => Outcome { result: Err(Fault::NotAVariant), printed: m.printed },
                    Err(fault) => Outcome { result: Err(fault), printed: m.printed },
                }
            },
            ExprT::VariantConstructor(handle, index) => if cx.program.has_variant(handle, index) {
                Outcome::value(Val::VariantConstructorFn(handle, index))
            } else {
                Outcome::fault(Fault::InvalidVariant(handle, index))
            },
            ExprT::BuiltInFn(id) => Outcome::value(Val::BuiltInFn(id)),
            ExprT::Negation(_) => Outcome::fault(
                Fault::UnsupportedExpression(expr.0.kind_of()),
            ),
        }
    }
}

/// The values of `exprs`, evaluated from left to right in `scope`. The
/// first error ends it.
pub open spec fn eval_all(cx: Context, exprs: Seq<TypedExpr>, scope: Scope, depth: nat) -> Outcome<
    Seq<Val>,
>
    decreases depth, exprs.len() + 2,
{
    if exprs.len() == 0 {
        Outcome::value(Seq::empty())
    } else {
        let front = eval_all(cx, exprs.drop_last(), scope, depth);
        match front.result {
            Ok(values) => {
                let last = eval(cx, exprs.last(), scope, depth);
                match last.result {
                    Ok(value) => Outcome {
                        result: Ok(values.push(value)),
                        printed: front.printed + last.printed,
                    },
                    Err(fault) => Outcome {
                        result: Err(fault),
                        printed: front.printed + last.printed,
                    },
                }
            },
            Err(fault) => Outcome { result: Err(fault), printed: front.printed },
        }
    }
}

/// `callee` applied to `arguments` one after the other: each argument is
/// evaluated in `scope`, then what the arguments before it gave is applied
/// to its value.
pub open spec fn apply_all(
    cx: Context,
    callee: Val,
    arguments: Seq<TypedExpr>,
    scope: Scope,
    depth: nat,
) -> Outcome<Val>
    decreases depth, arguments.len() + 2,
{
    if arguments.len() == 0 {
        Outcome::value(callee)
    } else {
        let front = apply_all(cx, callee, arguments.drop_last(), scope, depth);
        match front.result {
            Ok(function) => {
                let a = eval(cx, arguments.last(), scope, depth);
                match a.result {
                    Ok(argument) => apply(cx, function, argument, depth).after(
                        front.printed + a.printed,
                    ),
                    Err(fault) => Outcome {
                        result: Err(fault),
                        printed: front.printed + a.printed,
                    },
                }
            },
            Err(fault) => Outcome { result: Err(fault), printed: front.printed },
        }
    }
}

/// `callee` applied to one argument. A closure runs its body in the scope
/// it captured, extended by its parameter; the caller's scope plays no part.
pub open spec fn apply(cx: Context, callee: Val, argument: Val, depth: nat) -> Outcome<Val>
    decreases depth, 1nat,
{
    match callee {
        Val::Function(parameter, captured, body) => eval(
            cx,
            body,
            captured.push((parameter, argument)),
            depth,
        ),
        Val::VariantConstructorFn(handle, index) => Outcome::value(
            Val::Variant(handle, index, Box::new(argument)),
        ),
        Val::BuiltInFn(id) => builtin(cx.files, id, argument),
        _ => Outcome::fault(Fault::NotCallable),
    }
}

/// What calling the top-level function `name` as an entry point gives: its
/// body is evaluated in `scope`, and its parameter stays unbound.
pub open spec fn call(cx: Context, name: Seq<char>, scope: Scope, depth: nat) -> Outcome<Val> {
    match lookup(cx.program.globals(), name) {
        Some(definition) => match definition.0 {
            ExprT::Lambda(_, body) => eval(cx, *body, scope, depth),
            _ => Outcome::fault(Fault::EntryNotFunction(name)),
        },
        None => Outcome::fault(Fault::EntryNotFound(name)),
    }
}

/// Once an expression of a list has failed, the rest of the list is not
/// evaluated: the whole list ends as its failing prefix does.
pub proof fn lemma_eval_all_stops(
    cx: Context,
    exprs: Seq<TypedExpr>,
    scope: Scope,
    depth: nat,
    k: int,
)
    requires
        0 <= k <= exprs.len(),
        eval_all(cx, exprs.take(k), scope, depth).result is Err,
    ensures
        eval_all(cx, exprs, scope, depth) == eval_all(cx, exprs.take(k), scope, depth),
    decreases exprs.len() - k,
{
    if k == exprs.len() {
        assert(exprs.take(k) =~= exprs);
    } else {
        assert(exprs.drop_last().take(k) =~= exprs.take(k));
        lemma_eval_all_stops(cx, exprs.drop_last(), scope, depth, k);
    }
}

/// Once an argument or an application has failed, the arguments after it
/// are not evaluated.
pub proof fn lemma_apply_all_stops(
    cx: Context,
    callee: Val,
    arguments: Seq<TypedExpr>,
    scope: Scope,
    depth: nat,
    k: int,
)
    requires
        0 <= k <= arguments.len(),
        apply_all(cx, callee, arguments.take(k), scope, depth).result is Err,
    ensures
        apply_all(cx, callee, arguments, scope, depth) == apply_all(
            cx,
            callee,
            arguments.take(k),
            scope,
            depth,
        ),
    decreases arguments.len() - k,
{
    if k == arguments.len() {
        assert(arguments.take(k) =~= arguments);
    } else {
        assert(arguments.drop_last().take(k) =~= arguments.take(k));
        lemma_apply_all_stops(cx, callee, arguments.drop_last(), scope, depth, k);
    }
}

} // verus!
