//! Properties of evaluation that hold of every program.

use crate::ast::{is_latest, lookup, ExprT, MatchArm, Table, TypeChecked, TypedExpr};
use crate::error::{EvalError, Fault};
use crate::interpret::Interpreter;
use crate::semantics::{
    apply, apply_all, arm_scope, builtin, eval, eval_all, select_arm, select_arm_from, Context,
    Outcome,
};
use crate::value::{scope_well_formed, Scope, Val};
use vstd::prelude::*;

verus! {

/// The evaluation did not run into the depth limit.
pub open spec fn within_depth<T>(outcome: Outcome<T>) -> bool {
    outcome.result != Err::<T, Fault>(Fault::DepthExceeded)
}

/// The depth limit only decides whether an evaluation is cut short: one
/// that ends within the limit `depth` ends the same way, with the same
/// printed text, under every larger limit.
pub proof fn law_depth_eval(cx: Context, expr: TypedExpr, scope: Scope, depth: nat, larger: nat)
    requires
        depth <= larger,
        within_depth(eval(cx, expr, scope, depth)),
    ensures
        eval(cx, expr, scope, larger) == eval(cx, expr, scope, depth),
    decreases depth, 0nat,
{
    let d = (depth - 1) as nat;
    let l = (larger - 1) as nat;
    match expr.0 {
        ExprT::Tuple(items) => {
            law_depth_eval_all(cx, items@, scope, d, l);
        },
        ExprT::Record(fields) => {
            law_depth_eval_all(cx, fields@, scope, d, l);
        },
        ExprT::FieldAccess(tuple, _) => {
            law_depth_eval(cx, *tuple, scope, d, l);
        },
        ExprT::LetBinding(name, bound, body) => {
            law_depth_eval(cx, *bound, scope, d, l);
            if let Ok(value) = eval(cx, *bound, scope, d).result {
                law_depth_eval(cx, *body, scope.push((name@, value)), d, l);
            }
        },
        ExprT::Application(callee, arguments) => {
            law_depth_eval(cx, *callee, scope, d, l);
            if let Ok(function) = eval(cx, *callee, scope, d).result {
                law_depth_apply_all(cx, function, arguments@, scope, d, l);
            }
        },
        ExprT::Conditional(condition, consequent, alternative) => {
            law_depth_eval(cx, *condition, scope, d, l);
            if let Ok(value) = eval(cx, *condition, scope, d).result {
                if value == Val::Integer(0) {
                    law_depth_eval(cx, *alternative, scope, d, l);
                } else {
                    law_depth_eval(cx, *consequent, scope, d, l);
                }
            }
        },
        ExprT::BinaryOp(_, lhs, rhs) => {
            law_depth_eval(cx, *lhs, scope, d, l);
            if eval(cx, *lhs, scope, d).result is Ok {
                law_depth_eval(cx, *rhs, scope, d, l);
            }
        },
        ExprT::MatchSum(matchee, arms) => {
            law_depth_eval(cx, *matchee, scope, d, l);
            if let Ok(Val::Variant(_, index, payload)) = eval(cx, *matchee, scope, d).result {
                if let Some(k) = select_arm(arms@, index) {
                    law_depth_eval(cx, arms@[k].2, arm_scope(arms@[k], scope, *payload), d, l);
                }
            }
        },
        _ => {},
    }
}

/// `law_depth_eval` for a list of expressions.
pub proof fn law_depth_eval_all(
    cx: Context,
    exprs: Seq<TypedExpr>,
    scope: Scope,
    depth: nat,
    larger: nat,
)
    requires
        depth <= larger,
        within_depth(eval_all(cx, exprs, scope, depth)),
    ensures
        eval_all(cx, exprs, scope, larger) == eval_all(cx, exprs, scope, depth),
    decreases depth, exprs.len() + 2,
{
    if exprs.len() > 0 {
        law_depth_eval_all(cx, exprs.drop_last(), scope, depth, larger);
        if eval_all(cx, exprs.drop_last(), scope, depth).result is Ok {
            law_depth_eval(cx, exprs.last(), scope, depth, larger);
        }
    }
}

/// `law_depth_eval` for the application of a value to arguments.
pub proof fn law_depth_apply_all(
    cx: Context,
    callee: Val,
    arguments: Seq<TypedExpr>,
    scope: Scope,
    depth: nat,
    larger: nat,
)
    requires
        depth <= larger,
        within_depth(apply_all(cx, callee, arguments, scope, depth)),
    ensures
        apply_all(cx, callee, arguments, scope, larger) == apply_all(
            cx,
            callee,
            arguments,
            scope,
            depth,
        ),
    decreases depth, arguments.len() + 2,
{
    if arguments.len() > 0 {
        law_depth_apply_all(cx, callee, arguments.drop_last(), scope, depth, larger);
        if let Ok(function) = apply_all(cx, callee, arguments.drop_last(), scope, depth).result {
            law_depth_eval(cx, arguments.last(), scope, depth, larger);
            if let Ok(argument) = eval(cx, arguments.last(), scope, depth).result {
                law_depth_apply(cx, function, argument, depth, larger);
            }
        }
    }
}

/// `law_depth_eval` for one application.
pub proof fn law_depth_apply(cx: Context, callee: Val, argument: Val, depth: nat, larger: nat)
    requires
        depth <= larger,
        within_depth(apply(cx, callee, argument, depth)),
    ensures
        apply(cx, callee, argument, larger) == apply(cx, callee, argument, depth),
    decreases depth, 1nat,
{
    if let Val::Function(parameter, captured, body) = callee {
        law_depth_eval(cx, body, captured.push((parameter, argument)), depth, larger);
    }
}

/// `cx` with one more file.
pub open spec fn with_file(cx: Context, path: Seq<char>, text: Seq<char>) -> Context {
    Context { program: cx.program, files: cx.files.push((path, text)) }
}

/// The evaluation did not fail for want of the file at `path`.
pub open spec fn without_file<T>(outcome: Outcome<T>, path: Seq<char>) -> bool {
    outcome.result != Err::<T, Fault>(Fault::FileUnavailable(path))
}

/// A file that the host supplies later changes nothing for an evaluation
/// that did not ask for it: where the files lack `path` and the evaluation
/// ends otherwise than for want of that file, it ends the same way, with
/// the same printed text, once the file is there. So a host can supply
/// files on demand and evaluate again.
pub proof fn law_file_eval(
    cx: Context,
    path: Seq<char>,
    text: Seq<char>,
    expr: TypedExpr,
    scope: Scope,
    depth: nat,
)
    requires
        lookup(cx.files, path) is None,
        without_file(eval(cx, expr, scope, depth), path),
    ensures
        eval(with_file(cx, path, text), expr, scope, depth) == eval(cx, expr, scope, depth),
    decreases depth, 0nat,
{
    if depth > 0 {
        let d = (depth - 1) as nat;
        match expr.0 {
            ExprT::Tuple(items) => {
                law_file_eval_all(cx, path, text, items@, scope, d);
            },
            ExprT::Record(fields) => {
                law_file_eval_all(cx, path, text, fields@, scope, d);
            },
            ExprT::FieldAccess(tuple, _) => {
                law_file_eval(cx, path, text, *tuple, scope, d);
            },
            ExprT::LetBinding(name, bound, body) => {
                law_file_eval(cx, path, text, *bound, scope, d);
                if let Ok(value) = eval(cx, *bound, scope, d).result {
                    law_file_eval(cx, path, text, *body, scope.push((name@, value)), d);
                }
            },
            ExprT::Application(callee, arguments) => {
                law_file_eval(cx, path, text, *callee, scope, d);
                if let Ok(function) = eval(cx, *callee, scope, d).result {
                    law_file_apply_all(cx, path, text, function, arguments@, scope, d);
                }
            },
            ExprT::Conditional(condition, consequent, alternative) => {
                law_file_eval(cx, path, text, *condition, scope, d);
                if let Ok(value) = eval(cx, *condition, scope, d).result {
                    if value == Val::Integer(0) {
                        law_file_eval(cx, path, text, *alternative, scope, d);
                    } else {
                        law_file_eval(cx, path, text, *consequent, scope, d);
                    }
                }
            },
            ExprT::BinaryOp(_, lhs, rhs) => {
                law_file_eval(cx, path, text, *lhs, scope, d);
                if eval(cx, *lhs, scope, d).result is Ok {
                    law_file_eval(cx, path, text, *rhs, scope, d);
                }
            },
            ExprT::MatchSum(matchee, arms) => {
                law_file_eval(cx, path, text, *matchee, scope, d);
                if let Ok(Val::Variant(_, index, payload)) = eval(cx, *matchee, scope, d).result {
                    if let Some(k) = select_arm(arms@, index) {
                        law_file_eval(
                            cx,
                            path,
                            text,
                            arms@[k].2,
                            arm_scope(arms@[k], scope, *payload),
                            d,
                        );
                    }
                }
            },
            _ => {},
        }
    }
}

/// `law_file_eval` for a list of expressions.
pub proof fn law_file_eval_all(
    cx: Context,
    path: Seq<char>,
    text: Seq<char>,
    exprs: Seq<TypedExpr>,
    scope: Scope,
    depth: nat,
)
    requires
        lookup(cx.files, path) is None,
        without_file(eval_all(cx, exprs, scope, depth), path),
    ensures
        eval_all(with_file(cx, path, text), exprs, scope, depth) == eval_all(
            cx,
            exprs,
            scope,
            depth,
        ),
    decreases depth, exprs.len() + 2,
{
    if exprs.len() > 0 {
        law_file_eval_all(cx, path, text, exprs.drop_last(), scope, depth);
        if eval_all(cx, exprs.drop_last(), scope, depth).result is Ok {
            law_file_eval(cx, path, text, exprs.last(), scope, depth);
        }
    }
}

/// `law_file_eval` for the application of a value to arguments.
pub proof fn law_file_apply_all(
    cx: Context,
    path: Seq<char>,
    text: Seq<char>,
    callee: Val,
    arguments: Seq<TypedExpr>,
    scope: Scope,
    depth: nat,
)
    requires
        lookup(cx.files, path) is None,
        without_file(apply_all(cx, callee, arguments, scope, depth), path),
    ensures
        apply_all(with_file(cx, path, text), callee, arguments, scope, depth) == apply_all(
            cx,
            callee,
            arguments,
            scope,
            depth,
        ),
    decreases depth, arguments.len() + 2,
{
    if arguments.len() > 0 {
        law_file_apply_all(cx, path, text, callee, arguments.drop_last(), scope, depth);
        if let Ok(function) = apply_all(cx, callee, arguments.drop_last(), scope, depth).result {
            law_file_eval(cx, path, text, arguments.last(), scope, depth);
            if let Ok(argument) = eval(cx, arguments.last(), scope, depth).result {
                law_file_apply(cx, path, text, function, argument, depth);
            }
        }
    }
}

/// `law_file_eval` for one application.
pub proof fn law_file_apply(
    cx: Context,
    path: Seq<char>,
    text: Seq<char>,
    callee: Val,
    argument: Val,
    depth: nat,
)
    requires
        lookup(cx.files, path) is None,
        without_file(apply(cx, callee, argument, depth), path),
    ensures
        apply(with_file(cx, path, text), callee, argument, depth) == apply(
            cx,
            callee,
            argument,
            depth,
        ),
    decreases depth, 1nat,
{
    match callee {
        Val::Function(parameter, captured, body) => {
            law_file_eval(cx, path, text, body, captured.push((parameter, argument)), depth);
        },
        Val::BuiltInFn(id) => {
            if let Val::String(asked) = argument {
                law_binding_shadows(cx.files, path, text, asked);
            }
        },
        _ => {},
    }
}

/// What an evaluation pushes, returns and prints is decided by the
/// program, the files, the scope, the expression and the depth limit alone:
/// two evaluations that agree on these agree on their results, whatever
/// was on the stack or had been printed before.
pub proof fn law_same_inputs_same_results<'a>(
    first: Interpreter<'a>,
    first_after: Interpreter<'a>,
    first_result: Result<(), EvalError>,
    second: Interpreter<'a>,
    second_after: Interpreter<'a>,
    second_result: Result<(), EvalError>,
    expr: TypedExpr,
    depth: nat,
)
    requires
        first.context() == second.context(),
        first.scope() == second.scope(),
        first_after.follows(&first, eval(first.context(), expr, first.scope(), depth), first_result),
        second_after.follows(
            &second,
            eval(second.context(), expr, second.scope(), depth),
            second_result,
        ),
    ensures
        first_result is Ok <==> second_result is Ok,
        first_result is Ok ==> first_after.stack().last() == second_after.stack().last(),
        first_result is Err ==> first_result->Err_0@ == second_result->Err_0@,
        first_after.output().skip(first.output().len() as int) == second_after.output().skip(
            second.output().len() as int,
        ),
        first_after.scope() == second_after.scope(),
{
    let printed = eval(first.context(), expr, first.scope(), depth).printed;
    assert(first_after.output().skip(first.output().len() as int) =~= printed);
    assert(second_after.output().skip(second.output().len() as int) =~= printed);
}

/// Applying a value to a list of one argument is one application, after
/// the argument has been evaluated.
pub proof fn lemma_apply_all_single(
    cx: Context,
    callee: Val,
    arguments: Seq<TypedExpr>,
    scope: Scope,
    depth: nat,
)
    requires
        arguments.len() == 1,
    ensures
        apply_all(cx, callee, arguments, scope, depth) == ({
            let a = eval(cx, arguments[0], scope, depth);
            match a.result {
                Ok(argument) => apply(cx, callee, argument, depth).after(a.printed),
                Err(fault) => Outcome { result: Err(fault), printed: a.printed },
            }
        }),
{
    let a = eval(cx, arguments[0], scope, depth);
    assert(arguments.last() == arguments[0]);
    assert(apply_all(cx, callee, arguments.drop_last(), scope, depth) == Outcome::<Val>::value(
        callee,
    ));
    assert(Seq::<char>::empty() + a.printed =~= a.printed);
}

/// Currying: `f a b` evaluates to what applying the value of `f` to the
/// value of `a`, and the result of that to the value of `b`, gives.
pub proof fn law_currying(cx: Context, expr: TypedExpr, scope: Scope, depth: nat)
    requires
        depth > 0,
        expr.0 is Application,
        expr.0->Application_1@.len() == 2,
        eval(cx, *expr.0->Application_0, scope, (depth - 1) as nat).result is Ok,
        eval(cx, expr.0->Application_1@[0], scope, (depth - 1) as nat).result is Ok,
        eval(cx, expr.0->Application_1@[1], scope, (depth - 1) as nat).result is Ok,
    ensures
        ({
            let d = (depth - 1) as nat;
            let f = eval(cx, *expr.0->Application_0, scope, d).result->Ok_0;
            let a = eval(cx, expr.0->Application_1@[0], scope, d).result->Ok_0;
            let b = eval(cx, expr.0->Application_1@[1], scope, d).result->Ok_0;
            eval(cx, expr, scope, depth).result == match apply(cx, f, a, d).result {
                Ok(partial) => apply(cx, partial, b, d).result,
                Err(fault) => Err(fault),
            }
        }),
{
    let d = (depth - 1) as nat;
    let arguments = expr.0->Application_1@;
    let c = eval(cx, *expr.0->Application_0, scope, d);
    let f = c.result->Ok_0;
    let one = arguments.drop_last();
    assert(one[0] == arguments[0]);
    assert(arguments.last() == arguments[1]);
    lemma_apply_all_single(cx, f, one, scope, d);
    let all = apply_all(cx, f, arguments, scope, d);
    assert(eval(cx, expr, scope, depth) == all.after(c.printed));
}

/// Currying, from expression to expression: `f a b` and `(f a) b` end the
/// same way and print the same text, unless the depth limit cuts `f a b`
/// short. The nested form takes one level of depth more.
pub proof fn law_currying_nested(
    cx: Context,
    flat: TypedExpr,
    nested: TypedExpr,
    scope: Scope,
    depth: nat,
)
    requires
        flat.0 is Application,
        flat.0->Application_1@.len() == 2,
        nested.0 is Application,
        nested.0->Application_1@.len() == 1,
        nested.0->Application_1@[0] == flat.0->Application_1@[1],
        nested.0->Application_0.0 is Application,
        nested.0->Application_0.0->Application_1@.len() == 1,
        nested.0->Application_0.0->Application_1@[0] == flat.0->Application_1@[0],
        *nested.0->Application_0.0->Application_0 == *flat.0->Application_0,
        within_depth(eval(cx, flat, scope, depth)),
    ensures
        eval(cx, nested, scope, depth + 1) == eval(cx, flat, scope, depth),
{
    let d = (depth - 1) as nat;
    let callee = *flat.0->Application_0;
    let arguments = flat.0->Application_1@;
    let inner = *nested.0->Application_0;
    let first = inner.0->Application_1@;
    let second = nested.0->Application_1@;
    let c = eval(cx, callee, scope, d);
    assert(arguments.drop_last() =~= first);
    assert(arguments.last() == arguments[1]);
    match c.result {
        Ok(f) => {
            let partial = apply_all(cx, f, first, scope, d);
            let all = apply_all(cx, f, arguments, scope, d);
            assert(eval(cx, flat, scope, depth) == all.after(c.printed));
            assert(eval(cx, inner, scope, depth) == partial.after(c.printed));
            match partial.result {
                Ok(g) => {
                    let b = eval(cx, arguments[1], scope, d);
                    lemma_apply_all_single(cx, g, second, scope, depth);
                    law_depth_eval(cx, arguments[1], scope, d, depth);
                    match b.result {
                        Ok(argument) => {
                            let last = apply(cx, g, argument, d);
                            assert(all == last.after(partial.printed + b.printed));
                            law_depth_apply(cx, g, argument, d, depth);
                            assert(c.printed + (partial.printed + b.printed + last.printed) =~= (
                            c.printed + partial.printed) + (b.printed + last.printed));
                        },
                        Err(_) => {
                            assert(c.printed + (partial.printed + b.printed) =~= (c.printed
                                + partial.printed) + b.printed);
                        },
                    }
                },
                Err(_) => {},
            }
        },
        Err(_) => {},
    }
}

/// A closure holds the scope in which it was made.
pub proof fn law_closure_holds_its_scope(cx: Context, lambda: TypedExpr, scope: Scope, depth: nat)
    requires
        depth > 0,
        lambda.0 is Lambda,
    ensures
        eval(cx, lambda, scope, depth) == Outcome::value(
            Val::Function(lambda.0->Lambda_0@, scope, *lambda.0->Lambda_1),
        ),
{
}

/// Closure capture: a call of a closure evaluates the closure's body in
/// the scope that the closure holds, with the parameter bound to the
/// argument. The scope in which the call stands plays no part, so what it
/// binds the closure's free names to at that time changes nothing.
pub proof fn law_closure_capture(
    cx: Context,
    expr: TypedExpr,
    calling: Scope,
    parameter: Seq<char>,
    captured: Scope,
    body: TypedExpr,
    depth: nat,
)
    requires
        depth > 0,
        expr.0 is Application,
        expr.0->Application_1@.len() == 1,
        eval(cx, *expr.0->Application_0, calling, (depth - 1) as nat).result == Ok::<Val, Fault>(
            Val::Function(parameter, captured, body),
        ),
        eval(cx, expr.0->Application_1@[0], calling, (depth - 1) as nat).result is Ok,
    ensures
        ({
            let d = (depth - 1) as nat;
            let argument = eval(cx, expr.0->Application_1@[0], calling, d).result->Ok_0;
            eval(cx, expr, calling, depth).result == eval(
                cx,
                body,
                captured.push((parameter, argument)),
                d,
            ).result
        }),
{
    let d = (depth - 1) as nat;
    let arguments = expr.0->Application_1@;
    let closure = Val::Function(parameter, captured, body);
    let c = eval(cx, *expr.0->Application_0, calling, d);
    let all = apply_all(cx, closure, arguments, calling, d);
    assert(eval(cx, expr, calling, depth) == all.after(c.printed));
    let a = eval(cx, arguments[0], calling, d);
    assert(arguments.last() == arguments[0]);
    assert(apply_all(cx, closure, arguments.drop_last(), calling, d) == Outcome::<Val>::value(
        closure,
    ));
    assert(all.result == apply(cx, closure, a.result->Ok_0, d).result);
}

/// What `select_arm_from` returns handles the variant, and no arm between
/// `from` and it does; where it returns nothing, no arm from `from` on does.
pub proof fn lemma_select_arm_from(arms: Seq<MatchArm>, index: usize, from: int)
    requires
        0 <= from,
    ensures
        match select_arm_from(arms, index, from) {
            Some(k) => {
                &&& from <= k < arms.len()
                &&& arms[k].0 == index
                &&& forall|j: int| from <= j < k ==> (#[trigger] arms[j]).0 != index
            },
            None => forall|j: int| from <= j < arms.len() ==> (#[trigger] arms[j]).0 != index,
        },
    decreases arms.len() - from,
{
    if from < arms.len() && arms[from].0 != index {
        lemma_select_arm_from(arms, index, from + 1);
    }
}

/// No two arms handle the same variant.
pub open spec fn distinct_variants(arms: Seq<MatchArm>) -> bool {
    forall|i: int, j: int|
        0 <= i < j < arms.len() ==> (#[trigger] arms[i]).0 != (#[trigger] arms[j]).0
}

/// Every arm of `arms` is among `others`.
pub open spec fn arms_among(arms: Seq<MatchArm>, others: Seq<MatchArm>) -> bool {
    forall|i: int| 0 <= i < arms.len() ==> others.contains(#[trigger] arms[i])
}

/// The one arm that handles a variant is selected for it, wherever it
/// stands among the arms.
pub proof fn law_match_selects_its_arm(arms: Seq<MatchArm>, index: usize, k: int)
    requires
        distinct_variants(arms),
        0 <= k < arms.len(),
        arms[k].0 == index,
    ensures
        select_arm(arms, index) == Some(k),
{
    lemma_select_arm_from(arms, index, 0);
}

/// Match order: two matches on the same expression whose arms are the
/// same, in whatever order, with no variant handled twice, end the same
/// way. A value tagged with a variant selects that variant's arm in both.
pub proof fn law_match_arm_order(
    cx: Context,
    first: TypedExpr,
    second: TypedExpr,
    scope: Scope,
    depth: nat,
)
    requires
        first.0 is MatchSum,
        second.0 is MatchSum,
        *first.0->MatchSum_0 == *second.0->MatchSum_0,
        distinct_variants(first.0->MatchSum_1@),
        distinct_variants(second.0->MatchSum_1@),
        arms_among(first.0->MatchSum_1@, second.0->MatchSum_1@),
        arms_among(second.0->MatchSum_1@, first.0->MatchSum_1@),
    ensures
        eval(cx, first, scope, depth) == eval(cx, second, scope, depth),
{
    if depth > 0 {
        let d = (depth - 1) as nat;
        let ours = first.0->MatchSum_1@;
        let theirs = second.0->MatchSum_1@;
        if let Ok(Val::Variant(_, index, _)) = eval(cx, *first.0->MatchSum_0, scope, d).result {
            lemma_select_arm_from(ours, index, 0);
            lemma_select_arm_from(theirs, index, 0);
            match select_arm(ours, index) {
                Some(k) => {
                    assert(theirs.contains(ours[k]));
                    let j = choose|j: int| 0 <= j < theirs.len() && theirs[j] == ours[k];
                    law_match_selects_its_arm(theirs, index, j);
                },
                None => {
                    if let Some(j) = select_arm(theirs, index) {
                        assert(ours.contains(theirs[j]));
                        let i = choose|i: int| 0 <= i < ours.len() && ours[i] == theirs[j];
                        assert(ours[i].0 == index);
                    }
                },
            }
        }
    }
}

/// What `lookup` finds is the value of one of the entries.
pub proof fn lemma_lookup_finds_an_entry<T>(entries: Table<T>, name: Seq<char>)
    ensures
        lookup(entries, name) matches Some(found) ==> exists|i: int|
            0 <= i < entries.len() && (#[trigger] entries[i]).1 == found,
    decreases entries.len(),
{
    if entries.len() > 0 && entries.last().0 != name {
        let front = entries.drop_last();
        lemma_lookup_finds_an_entry(front, name);
        if let Some(found) = lookup(front, name) {
            let i = choose|i: int| 0 <= i < front.len() && (#[trigger] front[i]).1 == found;
            assert(entries[i].1 == found);
        }
    } else if entries.len() > 0 {
        assert(entries[entries.len() - 1].1 == entries.last().1);
    }
}

/// Evaluation keeps values well formed: in a scope that binds well-formed
/// values only, an expression evaluates to a well-formed value. A variant
/// is only ever made by a constructor that was checked against the
/// program's declarations.
pub proof fn law_values_stay_well_formed(cx: Context, expr: TypedExpr, scope: Scope, depth: nat)
    requires
        scope_well_formed(scope, cx.program),
    ensures
        eval(cx, expr, scope, depth).result matches Ok(value) ==> value.well_formed(cx.program),
    decreases depth, 0nat,
{
    if depth > 0 {
        let d = (depth - 1) as nat;
        match expr.0 {
            ExprT::Symbol(name) => {
                lemma_lookup_finds_an_entry(scope, name@);
            },
            ExprT::Tuple(items) => {
                law_all_stay_well_formed(cx, items@, scope, d);
            },
            ExprT::Record(fields) => {
                law_all_stay_well_formed(cx, fields@, scope, d);
            },
            ExprT::FieldAccess(tuple, index) => {
                law_values_stay_well_formed(cx, *tuple, scope, d);
            },
            ExprT::LetBinding(name, bound, body) => {
                law_values_stay_well_formed(cx, *bound, scope, d);
                if let Ok(value) = eval(cx, *bound, scope, d).result {
                    lemma_push_keeps_scope_well_formed(scope, name@, value, cx.program);
                    law_values_stay_well_formed(cx, *body, scope.push((name@, value)), d);
                }
            },
            ExprT::Application(callee, arguments) => {
                law_values_stay_well_formed(cx, *callee, scope, d);
                if let Ok(function) = eval(cx, *callee, scope, d).result {
                    law_applications_stay_well_formed(cx, function, arguments@, scope, d);
                }
            },
            ExprT::Conditional(condition, consequent, alternative) => {
                law_values_stay_well_formed(cx, *consequent, scope, d);
                law_values_stay_well_formed(cx, *alternative, scope, d);
            },
            ExprT::MatchSum(matchee, arms) => {
                law_values_stay_well_formed(cx, *matchee, scope, d);
                if let Ok(Val::Variant(_, index, payload)) = eval(cx, *matchee, scope, d).result {
                    if let Some(k) = select_arm(arms@, index) {
                        if let Some(name) = arms@[k].1 {
                            lemma_push_keeps_scope_well_formed(scope, name@, *payload, cx.program);
                        }
                        law_values_stay_well_formed(
                            cx,
                            arms@[k].2,
                            arm_scope(arms@[k], scope, *payload),
                            d,
                        );
                    }
                }
            },
            _ => {},
        }
    }
}

/// A well-formed scope stays so when a well-formed value is bound in it.
pub proof fn lemma_push_keeps_scope_well_formed(
    scope: Scope,
    name: Seq<char>,
    value: Val,
    program: TypeChecked,
)
    requires
        scope_well_formed(scope, program),
        value.well_formed(program),
    ensures
        scope_well_formed(scope.push((name, value)), program),
{
    let longer = scope.push((name, value));
    assert forall|i: int| 0 <= i < longer.len() implies (#[trigger] longer[i]).1.well_formed(
        program,
    ) by {
        if i < scope.len() {
            assert(longer[i] == scope[i]);
        }
    }
}

/// The items of a well-formed tuple are well formed.
pub proof fn lemma_items_well_formed(items: Seq<Val>, program: TypeChecked, i: int)
    requires
        Val::Tuple(items).well_formed(program),
        0 <= i < items.len(),
    ensures
        items[i].well_formed(program),
{
    let whole = Val::Tuple(items);
    assert(whole->Tuple_0 == items);
    assert(whole.well_formed(program) == (forall|j: int|
        0 <= j < items.len() ==> (#[trigger] items[j]).well_formed(program)));
}

/// `law_values_stay_well_formed` for a list of expressions.
pub proof fn law_all_stay_well_formed(
    cx: Context,
    exprs: Seq<TypedExpr>,
    scope: Scope,
    depth: nat,
)
    requires
        scope_well_formed(scope, cx.program),
    ensures
        eval_all(cx, exprs, scope, depth).result matches Ok(values) ==> Val::Tuple(
            values,
        ).well_formed(cx.program),
    decreases depth, exprs.len() + 2,
{
    if exprs.len() > 0 {
        law_all_stay_well_formed(cx, exprs.drop_last(), scope, depth);
        law_values_stay_well_formed(cx, exprs.last(), scope, depth);
        if let Ok(values) = eval_all(cx, exprs, scope, depth).result {
            let front = eval_all(cx, exprs.drop_last(), scope, depth).result->Ok_0;
            let last = eval(cx, exprs.last(), scope, depth).result->Ok_0;
            assert(values == front.push(last));
            assert(Val::Tuple(front).well_formed(cx.program));
            assert forall|i: int| 0 <= i < values.len() implies (#[trigger] values[i]).well_formed(
                cx.program,
            ) by {
                if i < front.len() {
                    lemma_items_well_formed(front, cx.program, i);
                    assert(values[i] == front[i]);
                } else {
                    assert(values[i] == last);
                }
            }
        }
    }
}

/// `law_values_stay_well_formed` for the application of a value to
/// arguments.
pub proof fn law_applications_stay_well_formed(
    cx: Context,
    callee: Val,
    arguments: Seq<TypedExpr>,
    scope: Scope,
    depth: nat,
)
    requires
        scope_well_formed(scope, cx.program),
        callee.well_formed(cx.program),
    ensures
        apply_all(cx, callee, arguments, scope, depth).result matches Ok(value)
            ==> value.well_formed(cx.program),
    decreases depth, arguments.len() + 2,
{
    if arguments.len() > 0 {
        law_applications_stay_well_formed(cx, callee, arguments.drop_last(), scope, depth);
        if let Ok(function) = apply_all(cx, callee, arguments.drop_last(), scope, depth).result {
            law_values_stay_well_formed(cx, arguments.last(), scope, depth);
            if let Ok(argument) = eval(cx, arguments.last(), scope, depth).result {
                law_application_stays_well_formed(cx, function, argument, depth);
            }
        }
    }
}

/// `law_values_stay_well_formed` for one application.
pub proof fn law_application_stays_well_formed(
    cx: Context,
    callee: Val,
    argument: Val,
    depth: nat,
)
    requires
        callee.well_formed(cx.program),
        argument.well_formed(cx.program),
    ensures
        apply(cx, callee, argument, depth).result matches Ok(value) ==> value.well_formed(
            cx.program,
        ),
    decreases depth, 1nat,
{
    match callee {
        Val::Function(parameter, captured, body) => {
            assert(scope_well_formed(captured, cx.program)) by {
                assert forall|i: int| 0 <= i < captured.len() implies (
                #[trigger] captured[i]).1.well_formed(cx.program) by {}
            }
            lemma_push_keeps_scope_well_formed(captured, parameter, argument, cx.program);
            law_values_stay_well_formed(cx, body, captured.push((parameter, argument)), depth);
        },
        Val::BuiltInFn(id) => {
            if let Ok(value) = builtin(cx.files, id, argument).result {
                if let Val::Tuple(items) = value {
                    assert forall|i: int| 0 <= i < items.len() implies (
                    #[trigger] items[i]).well_formed(cx.program) by {}
                }
            }
        },
        _ => {},
    }
}

/// Shadowing: a new binding gives its name a new value and leaves what
/// every other name is bound to as it was.
pub proof fn law_binding_shadows<T>(entries: Table<T>, name: Seq<char>, value: T, other: Seq<char>)
    ensures
        lookup(entries.push((name, value)), name) == Some(value),
        other != name ==> lookup(entries.push((name, value)), other) == lookup(entries, other),
{
    let longer = entries.push((name, value));
    assert(longer.last() == (name, value));
    assert(longer.drop_last() =~= entries);
}

/// Restoring: when the latest binding of a name is removed, the name is
/// bound again to what it was bound to before that binding was made, and
/// every other name keeps its binding.
pub proof fn law_unbinding_restores<T>(
    entries: Table<T>,
    name: Seq<char>,
    at: int,
    other: Seq<char>,
)
    requires
        is_latest(entries, name, at),
    ensures
        lookup(entries.remove(at), name) == lookup(entries.take(at), name),
        other != name ==> lookup(entries.remove(at), other) == lookup(entries, other),
    decreases entries.len(),
{
    let removed = entries.remove(at);
    if at == entries.len() - 1 {
        assert(removed =~= entries.take(at));
        assert(entries.drop_last() =~= removed);
        assert(entries.last() == entries[at]);
    } else {
        let front = entries.drop_last();
        assert(entries.last() == entries[entries.len() - 1]);
        assert(removed.last() == entries.last());
        assert(removed.drop_last() =~= front.remove(at));
        assert(front.take(at) =~= entries.take(at));
        assert(is_latest(front, name, at)) by {
            assert(front[at] == entries[at]);
            assert forall|j: int| at < j < front.len() implies (#[trigger] front[j]).0 != name by {
                assert(front[j] == entries[j]);
            }
        }
        law_unbinding_restores(front, name, at, other);
    }
}

/// A binding that is made and then removed leaves the scope as it was.
pub proof fn law_bind_then_unbind<T>(entries: Table<T>, name: Seq<char>, value: T)
    ensures
        is_latest(entries.push((name, value)), name, entries.len() as int),
        entries.push((name, value)).remove(entries.len() as int) == entries,
{
    assert(entries.push((name, value)).remove(entries.len() as int) =~= entries);
}

} // verus!
