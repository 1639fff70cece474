//! The evaluator: it walks the typed expression tree and computes what
//! `semantics` defines.

use crate::ast::{
    find_latest, is_absent, is_latest, lemma_lookup_absent, lemma_lookup_latest, BuiltInFn, ExprT,
    MatchArm, Table, TypeChecked, TypedExpr,
};
use crate::error::{EvalError, Fault};
use crate::operators::{binary_operation, truth_of};
use crate::semantics::{
    apply_all, call, eval, eval_all, lemma_apply_all_stops, lemma_eval_all_stops, pair_of,
    resolve, select_arm, select_arm_from, Context, Outcome,
};
use crate::text::{parse_integer, push_decimal, split_first, split_text};
use crate::value::{
    copy_bindings, lemma_function_model, lemma_tuple_model, models, scope_of, Scope, Val, Value,
};
use std::rc::Rc;
use vstd::prelude::*;

verus! {

/// The files of the host as a mapping from path to text.
pub open spec fn file_table(files: Seq<(String, String)>) -> Table<Seq<char>> {
    Seq::new(files.len(), |i: int| (files[i].0@, files[i].1@))
}

/// The state of one evaluation: the program and the host's files, which it
/// only reads; the local scope; the text printed so far; and a stack of
/// values, on which every evaluation leaves its result.
#[derive(Debug)]
pub struct Interpreter<'a> {
    stack: Vec<Value<'a>>,
    bindings: Vec<(String, Value<'a>)>,
    program: &'a TypeChecked,
    files: Vec<(String, String)>,
    output: String,
}

impl<'a> Interpreter<'a> {
    /// The values on the stack, the latest last.
    pub closed spec fn stack(&self) -> Seq<Val> {
        models(self.stack@)
    }

    /// The local scope.
    pub closed spec fn scope(&self) -> Scope {
        scope_of(self.bindings@)
    }

    /// The text printed so far.
    pub closed spec fn output(&self) -> Seq<char> {
        self.output@
    }

    /// The program and the files.
    pub closed spec fn context(&self) -> Context {
        Context { program: *self.program, files: file_table(self.files@) }
    }

    /// `self` is what an evaluation with `outcome` makes of `before`: the
    /// program, the files and the scope are as they were, the printed text
    /// has been appended to the output, and the value, if there is one, has
    /// been pushed on the stack.
    pub open spec fn follows(
        &self,
        before: &Interpreter<'a>,
        outcome: Outcome<Val>,
        result: Result<(), EvalError>,
    ) -> bool {
        &&& self.context() == before.context()
        &&& self.scope() == before.scope()
        &&& self.output() =~= before.output() + outcome.printed
        &&& match result {
            Ok(_) => outcome.result is Ok && self.stack() =~= before.stack().push(
                outcome.result->Ok_0,
            ),
            Err(error) => outcome.result == Err::<Val, Fault>(error@) && self.stack()
                == before.stack(),
        }
    }

    /// As `follows`, for an evaluation that hands its value over and
    /// leaves the stack as it was.
    pub open spec fn yields(
        &self,
        before: &Interpreter<'a>,
        outcome: Outcome<Val>,
        result: Result<Value<'a>, EvalError>,
    ) -> bool {
        &&& self.context() == before.context()
        &&& self.scope() == before.scope()
        &&& self.stack() == before.stack()
        &&& self.output() =~= before.output() + outcome.printed
        &&& match result {
            Ok(value) => outcome.result == Ok::<Val, Fault>(value@),
            Err(error) => outcome.result == Err::<Val, Fault>(error@),
        }
    }

    /// As `yields`, for the evaluation of a list of expressions.
    pub open spec fn yields_all(
        &self,
        before: &Interpreter<'a>,
        outcome: Outcome<Seq<Val>>,
        result: Result<Vec<Value<'a>>, EvalError>,
    ) -> bool {
        &&& self.context() == before.context()
        &&& self.scope() == before.scope()
        &&& self.stack() == before.stack()
        &&& self.output() =~= before.output() + outcome.printed
        &&& match result {
            Ok(values) => outcome.result == Ok::<Seq<Val>, Fault>(models(values@)),
            Err(error) => outcome.result == Err::<Seq<Val>, Fault>(error@),
        }
    }

    /// An interpreter for `program` that can read `files`, with nothing
    /// bound, printed or on the stack.
    pub fn new(program: &'a TypeChecked, files: Vec<(String, String)>) -> (fresh: Self)
        ensures
            fresh.context() == (Context { program: *program, files: file_table(files@) }),
            fresh.stack() == Seq::<Val>::empty(),
            fresh.scope() == Seq::<(Seq<char>, Val)>::empty(),
            fresh.output() == Seq::<char>::empty(),
    {
        let fresh = Interpreter {
            stack: Vec::new(),
            bindings: Vec::new(),
            program,
            files,
            output: String::new(),
        };
        assert(fresh.stack() =~= Seq::<Val>::empty());
        assert(fresh.scope() =~= Seq::<(Seq<char>, Val)>::empty());
        fresh
    }

    /// Pushes `value` on the stack.
    pub fn push_val(&mut self, value: Value<'a>)
        ensures
            final(self).stack() == old(self).stack().push(value@),
            final(self).scope() == old(self).scope(),
            final(self).output() == old(self).output(),
            final(self).context() == old(self).context(),
    {
        self.stack.push(value);
        assert(self.stack() =~= old(self).stack().push(value@));
    }

    /// Takes the latest value off the stack, if there is one.
    pub fn pop_val(&mut self) -> (popped: Option<Value<'a>>)
        ensures
            match popped {
                Some(value) => old(self).stack().len() > 0 && value@ == old(self).stack().last()
                    && final(self).stack() == old(self).stack().drop_last(),
                None => old(self).stack().len() == 0 && final(self).stack() == old(self).stack(),
            },
            final(self).scope() == old(self).scope(),
            final(self).output() == old(self).output(),
            final(self).context() == old(self).context(),
    {
        let popped = self.stack.pop();
        assert(self.stack() =~= if popped is Some {
            old(self).stack().drop_last()
        } else {
            old(self).stack()
        });
        popped
    }

    /// The text printed so far.
    pub fn printed(&self) -> (text: &str)
        ensures
            text@ == self.output(),
    {
        self.output.as_str()
    }

    /// Binds `name` to `value` in the local scope, shadowing what `name`
    /// was bound to.
    pub fn bind(&mut self, name: String, value: Value<'a>)
        ensures
            final(self).scope() == old(self).scope().push((name@, value@)),
            final(self).stack() == old(self).stack(),
            final(self).output() == old(self).output(),
            final(self).context() == old(self).context(),
    {
        self.bindings.push((name, value));
        assert(self.scope() =~= old(self).scope().push((name@, value@)));
    }

    /// Removes the latest binding of `name` from the local scope, so that
    /// `name` is bound again to what that binding shadowed. Without a
    /// binding of `name` the scope stays as it is.
    pub fn unbind(&mut self, name: &String)
        ensures
            forall|i: int|
                is_latest(old(self).scope(), name@, i) ==> final(self).scope() == old(
                    self,
                ).scope().remove(i),
            is_absent(old(self).scope(), name@) ==> final(self).scope() == old(self).scope(),
            final(self).stack() == old(self).stack(),
            final(self).output() == old(self).output(),
            final(self).context() == old(self).context(),
    {
        match find_latest(&self.bindings, name) {
            Some(at) => {
                self.bindings.remove(at);
                assert(self.scope() =~= old(self).scope().remove(at as int));
                assert(is_latest(old(self).scope(), name@, at as int));
                assert forall|i: int| is_latest(old(self).scope(), name@, i) implies i == at by {
                    if i < at {
                        assert(old(self).scope()[at as int].0 == name@);
                    }
                }
            },
            None => {
                assert forall|i: int| !is_latest(old(self).scope(), name@, i) by {
                    if 0 <= i < old(self).scope().len() {
                        assert(old(self).bindings@[i].0@ != name@);
                    }
                }
            },
        }
    }

    /// What `name` refers to: a local binding first, else a function or a
    /// primitive of the program's top level.
    pub fn lookup(&self, name: &String) -> (found: Result<Value<'a>, EvalError>)
        ensures
            match found {
                Ok(value) => resolve(self.context().program, self.scope(), name@) == Ok::<
                    Val,
                    Fault,
                >(value@),
                Err(error) => resolve(self.context().program, self.scope(), name@) == Err::<
                    Val,
                    Fault,
                >(error@),
            },
    {
        match find_latest(&self.bindings, name) {
            Some(at) => {
                proof {
                    assert(is_latest(self.scope(), name@, at as int));
                    lemma_lookup_latest(self.scope(), name@, at as int);
                }
                Ok(self.bindings[at].1.copy())
            },
            None => {
                proof {
                    assert(is_absent(self.scope(), name@));
                    lemma_lookup_absent(self.scope(), name@);
                }
                let program: &'a TypeChecked = self.program;
                match program.global(name) {
                    Some(definition) => match &definition.0 {
                        ExprT::Lambda(parameter, body) => {
                            let captured: Vec<(String, Value<'a>)> = Vec::new();
                            let name = Rc::new(parameter.clone());
                            proof {
                                lemma_function_model(name, captured, &**body);
                                assert(scope_of(captured@) =~= Seq::<(Seq<char>, Val)>::empty());
                            }
                            Ok(Value::Function(name, captured, &**body))
                        },
                        ExprT::BuiltInFn(id) => Ok(Value::BuiltInFn(*id)),
                        _ => Err(EvalError::UnsupportedGlobal(name.clone())),
                    },
                    None => Err(EvalError::UnboundSymbol(name.clone())),
                }
            },
        }
    }
}

/// The tuple of two strings.
fn pair<'a>(first: String, second: String) -> (tuple: Value<'a>)
    ensures
        tuple@ == pair_of((first@, second@)),
{
    let mut items: Vec<Value<'a>> = Vec::new();
    items.push(Value::String(Rc::new(first)));
    items.push(Value::String(Rc::new(second)));
    proof {
        lemma_tuple_model(items);
        assert(models(items@) =~= seq![Val::String(first@), Val::String(second@)]);
    }
    Value::Tuple(items)
}

/// Position of the first arm that handles the variant `index`.
pub fn find_arm(arms: &Vec<MatchArm>, index: usize) -> (found: Option<usize>)
    ensures
        match found {
            Some(k) => k < arms.len() && select_arm(arms@, index) == Some(k as int),
            None => select_arm(arms@, index) is None,
        },
{
    let mut k: usize = 0;
    while k < arms.len()
        invariant
            k <= arms.len(),
            select_arm(arms@, index) == select_arm_from(arms@, index, k as int),
        decreases arms.len() - k,
    {
        if arms[k].0 == index {
            return Some(k);
        }
        k = k + 1;
    }
    None
}

impl<'a> Interpreter<'a> {
    /// Runs the primitive `builtin` on `arg` and pushes what it returns.
    /// Printing appends to the output; reading a file consults the files
    /// that the host supplied.
    pub fn call_builtin(&mut self, builtin: BuiltInFn, arg: Value<'a>) -> (result: Result<
        (),
        EvalError,
    >)
        ensures
            final(self).follows(
                old(self),
                crate::semantics::builtin(old(self).context().files, builtin, arg@),
                result,
            ),
    {
        let value = match builtin {
            BuiltInFn::FileRead => match arg {
                Value::String(path) => match find_latest(&self.files, &*path) {
                    Some(at) => {
                        proof {
                            let table = file_table(self.files@);
                            assert(is_latest(table, path@, at as int));
                            lemma_lookup_latest(table, path@, at as int);
                        }
                        Value::String(Rc::new(self.files[at].1.clone()))
                    },
                    None => {
                        proof {
                            let table = file_table(self.files@);
                            assert(is_absent(table, path@));
                            lemma_lookup_absent(table, path@);
                        }
                        return Err(EvalError::FileUnavailable((*path).clone()));
                    },
                },
                _ => {
                    return Err(EvalError::BuiltInArgument(builtin));
                },
            },
            BuiltInFn::Print => match arg {
                Value::String(text) => {
                    self.output.append(text.as_str());
                    Value::Unit
                },
                _ => {
                    return Err(EvalError::BuiltInArgument(builtin));
                },
            },
            BuiltInFn::Printi => match arg {
                Value::Integer(i) => {
                    push_decimal(&mut self.output, i);
                    Value::Unit
                },
                _ => {
                    return Err(EvalError::BuiltInArgument(builtin));
                },
            },
            BuiltInFn::StringParseInt => match arg {
                Value::String(text) => match parse_integer(text.as_str()) {
                    Some(i) => Value::Integer(i),
                    None => {
                        return Err(EvalError::MalformedInteger);
                    },
                },
                _ => {
                    return Err(EvalError::BuiltInArgument(builtin));
                },
            },
            BuiltInFn::StringGetFirst => match arg {
                Value::String(text) => match split_first(text.as_str()) {
                    Some(parts) => pair(parts.0, parts.1),
                    None => {
                        return Err(EvalError::EmptyString);
                    },
                },
                _ => {
                    return Err(EvalError::BuiltInArgument(builtin));
                },
            },
            BuiltInFn::StringSplit => match arg {
                Value::Tuple(items) => {
                    proof {
                        lemma_tuple_model(items);
                    }
                    if items.len() != 2 {
                        return Err(EvalError::BuiltInArgument(builtin));
                    }
                    match (&items[0], &items[1]) {
                        (Value::String(text), Value::String(separator)) => {
                            let parts = split_text(text.as_str(), separator.as_str());
                            pair(parts.0, parts.1)
                        },
                        _ => {
                            return Err(EvalError::BuiltInArgument(builtin));
                        },
                    }
                },
                _ => {
                    return Err(EvalError::BuiltInArgument(builtin));
                },
            },
            BuiltInFn::StringConcat => {
                return Err(EvalError::UnsupportedBuiltIn(builtin));
            },
        };
        self.push_val(value);
        Ok(())
    }

    /// Evaluates `expr` and takes its value off the stack.
    fn value_of(&mut self, expr: &'a TypedExpr, depth: usize) -> (result: Result<
        Value<'a>,
        EvalError,
    >)
        ensures
            final(self).yields(
                old(self),
                eval(old(self).context(), *expr, old(self).scope(), depth as nat),
                result,
            ),
        decreases depth, 1nat,
    {
        match self.eval_expr(expr, depth) {
            Ok(_) => {
                let value = self.pop_val().unwrap();
                assert(self.stack() =~= old(self).stack());
                Ok(value)
            },
            Err(error) => Err(error),
        }
    }

    /// Evaluates `exprs` from left to right, up to the first that fails.
    fn eval_items(&mut self, exprs: &'a Vec<TypedExpr>, depth: usize) -> (result: Result<
        Vec<Value<'a>>,
        EvalError,
    >)
        ensures
            final(self).yields_all(
                old(self),
                eval_all(old(self).context(), exprs@, old(self).scope(), depth as nat),
                result,
            ),
        decreases depth, 3nat,
    {
        let ghost cx = self.context();
        let ghost scope = self.scope();
        let ghost stack = self.stack();
        let ghost output = self.output();
        let mut values: Vec<Value<'a>> = Vec::new();
        let mut i: usize = 0;
        assert(models(values@) =~= Seq::<Val>::empty());
        assert(exprs@.take(0) =~= Seq::<TypedExpr>::empty());
        while i < exprs.len()
            invariant
                i <= exprs.len(),
                cx == old(self).context(),
                scope == old(self).scope(),
                stack == old(self).stack(),
                output == old(self).output(),
                self.context() == cx,
                self.scope() == scope,
                self.stack() == stack,
                eval_all(cx, exprs@.take(i as int), scope, depth as nat).result == Ok::<
                    Seq<Val>,
                    Fault,
                >(models(values@)),
                self.output() =~= output + eval_all(
                    cx,
                    exprs@.take(i as int),
                    scope,
                    depth as nat,
                ).printed,
            decreases exprs.len() - i,
        {
            proof {
                let longer = exprs@.take(i + 1);
                assert(longer.drop_last() =~= exprs@.take(i as int));
                assert(longer.last() == exprs@[i as int]);
            }
            match self.value_of(&exprs[i], depth) {
                Ok(value) => {
                    let ghost earlier = values@;
                    values.push(value);
                    assert(models(values@) =~= models(earlier).push(value@));
                },
                Err(error) => {
                    proof {
                        lemma_eval_all_stops(cx, exprs@, scope, depth as nat, i + 1);
                    }
                    return Err(error);
                },
            }
            i = i + 1;
        }
        assert(exprs@.take(i as int) =~= exprs@);
        Ok(values)
    }

    /// Applies `callee` to `argument`. A closure runs its body in the scope
    /// it captured, with its parameter bound to the argument; the scope of
    /// the caller is set aside meanwhile and put back afterwards.
    pub fn apply(&mut self, callee: Value<'a>, argument: Value<'a>, depth: usize) -> (result:
        Result<Value<'a>, EvalError>)
        ensures
            final(self).yields(
                old(self),
                crate::semantics::apply(old(self).context(), callee@, argument@, depth as nat),
                result,
            ),
        decreases depth, 2nat,
    {
        match callee {
            Value::Function(parameter, captured, body) => {
                proof {
                    lemma_function_model(parameter, captured, body);
                }
                let mut inner = captured;
                inner.push(((*parameter).clone(), argument));
                assert(scope_of(inner@) =~= scope_of(captured@).push((parameter@, argument@)));
                std::mem::swap(&mut self.bindings, &mut inner);
                let result = self.value_of(body, depth);
                std::mem::swap(&mut self.bindings, &mut inner);
                result
            },
            Value::VariantConstructorFn(handle, index) => {
                assert(self.output() =~= old(self).output() + Seq::<char>::empty());
                Ok(Value::Variant(handle, index, Rc::new(argument)))
            },
            Value::BuiltInFn(id) => match self.call_builtin(id, argument) {
                Ok(_) => {
                    let value = self.pop_val().unwrap();
                    assert(self.stack() =~= old(self).stack());
                    Ok(value)
                },
                Err(error) => Err(error),
            },
            _ => {
                assert(self.output() =~= old(self).output() + Seq::<char>::empty());
                Err(EvalError::NotCallable)
            },
        }
    }

    /// Applies `callee` to the values of `arguments`, one after the other:
    /// what one application returns is applied to the next argument.
    fn apply_arguments(
        &mut self,
        callee: Value<'a>,
        arguments: &'a Vec<TypedExpr>,
        depth: usize,
    ) -> (result: Result<Value<'a>, EvalError>)
        ensures
            final(self).yields(
                old(self),
                apply_all(
                    old(self).context(),
                    callee@,
                    arguments@,
                    old(self).scope(),
                    depth as nat,
                ),
                result,
            ),
        decreases depth, 3nat,
    {
        let ghost cx = self.context();
        let ghost scope = self.scope();
        let ghost stack = self.stack();
        let ghost output = self.output();
        let ghost first = callee@;
        let mut current = callee;
        let mut i: usize = 0;
        assert(arguments@.take(0) =~= Seq::<TypedExpr>::empty());
        while i < arguments.len()
            invariant
                i <= arguments.len(),
                cx == old(self).context(),
                scope == old(self).scope(),
                stack == old(self).stack(),
                output == old(self).output(),
                first == callee@,
                self.context() == cx,
                self.scope() == scope,
                self.stack() == stack,
                apply_all(cx, first, arguments@.take(i as int), scope, depth as nat).result
                    == Ok::<Val, Fault>(current@),
                self.output() =~= output + apply_all(
                    cx,
                    first,
                    arguments@.take(i as int),
                    scope,
                    depth as nat,
                ).printed,
            decreases arguments.len() - i,
        {
            proof {
                let longer = arguments@.take(i + 1);
                assert(longer.drop_last() =~= arguments@.take(i as int));
                assert(longer.last() == arguments@[i as int]);
            }
            let argument = match self.value_of(&arguments[i], depth) {
                Ok(value) => value,
                Err(error) => {
                    proof {
                        lemma_apply_all_stops(cx, first, arguments@, scope, depth as nat, i + 1);
                    }
                    return Err(error);
                },
            };
            match self.apply(current, argument, depth) {
                Ok(value) => {
                    current = value;
                },
                Err(error) => {
                    proof {
                        lemma_apply_all_stops(cx, first, arguments@, scope, depth as nat, i + 1);
                    }
                    return Err(error);
                },
            }
            i = i + 1;
        }
        assert(arguments@.take(i as int) =~= arguments@);
        Ok(current)
    }
}

impl<'a> Interpreter<'a> {
    /// Evaluates `expr` in the local scope and pushes its value on the
    /// stack. `depth` bounds how deep expressions and calls may nest. The
    /// scope is the same afterwards, also where the evaluation fails.
    #[verifier::rlimit(40)]
    pub fn eval_expr(&mut self, expr: &'a TypedExpr, depth: usize) -> (result: Result<
        (),
        EvalError,
    >)
        ensures
            final(self).follows(
                old(self),
                eval(old(self).context(), *expr, old(self).scope(), depth as nat),
                result,
            ),
        decreases depth, 0nat,
    {
        if depth == 0 {
            return Err(EvalError::DepthExceeded);
        }
        let inner: usize = depth - 1;
        let value = match &expr.0 {
            ExprT::Unit => Value::Unit,
            ExprT::BooleanLiteral(b) => Value::Integer(truth_of(*b)),
            ExprT::IntegerLiteral(i) => Value::Integer(*i),
            ExprT::StringLiteral(text) => Value::String(Rc::new(text.clone())),
            ExprT::Symbol(name) => match self.lookup(name) {
                Ok(value) => value,
                Err(error) => {
                    return Err(error);
                },
            },
            ExprT::Tuple(items) => match self.eval_items(items, inner) {
                Ok(values) => {
                    proof {
                        lemma_tuple_model(values);
                    }
                    Value::Tuple(values)
                },
                Err(error) => {
                    return Err(error);
                },
            },
            ExprT::Record(fields) => match self.eval_items(fields, inner) {
                Ok(values) => {
                    proof {
                        lemma_tuple_model(values);
                    }
                    Value::Tuple(values)
                },
                Err(error) => {
                    return Err(error);
                },
            },
            ExprT::FieldAccess(tuple, index) => match self.value_of(tuple, inner) {
                Ok(Value::Tuple(fields)) => {
                    proof {
                        lemma_tuple_model(fields);
                    }
                    if *index < fields.len() {
                        fields[*index].copy()
                    } else {
                        return Err(EvalError::FieldOutOfRange(*index));
                    }
                },
                Ok(_) => {
                    return Err(EvalError::NotATuple);
                },
                Err(error) => {
                    return Err(error);
                },
            },
            ExprT::LetBinding(name, bound, body) => match self.value_of(bound, inner) {
                Ok(value) => {
                    self.bind(name.clone(), value);
                    let ghost extended = self.scope();
                    let evaluated = self.value_of(body, inner);
                    proof {
                        assert(is_latest(extended, name@, extended.len() - 1));
                        assert(extended.remove(extended.len() - 1) =~= old(self).scope());
                    }
                    self.unbind(name);
                    match evaluated {
                        Ok(value) => value,
                        Err(error) => {
                            return Err(error);
                        },
                    }
                },
                Err(error) => {
                    return Err(error);
                },
            },
            ExprT::Lambda(parameter, body) => {
                let captured = copy_bindings(&self.bindings);
                let name = Rc::new(parameter.clone());
                proof {
                    lemma_function_model(name, captured, &**body);
                }
                Value::Function(name, captured, &**body)
            },
            ExprT::Application(callee, arguments) => match self.value_of(callee, inner) {
                Ok(function) => match self.apply_arguments(function, arguments, inner) {
                    Ok(value) => value,
                    Err(error) => {
                        return Err(error);
                    },
                },
                Err(error) => {
                    return Err(error);
                },
            },
            ExprT::Conditional(condition, consequent, alternative) => match self.value_of(
                condition,
                inner,
            ) {
                Ok(value) => {
                    let zero: bool = match value {
                        Value::Integer(i) => i == 0,
                        _ => false,
                    };
                    let chosen = if zero {
                        self.value_of(alternative, inner)
                    } else {
                        self.value_of(consequent, inner)
                    };
                    match chosen {
                        Ok(value) => value,
                        Err(error) => {
                            return Err(error);
                        },
                    }
                },
                Err(error) => {
                    return Err(error);
                },
            },
            ExprT::BinaryOp(op, lhs, rhs) => match self.value_of(lhs, inner) {
                Ok(left) => match self.value_of(rhs, inner) {
                    Ok(right) => match binary_operation(*op, &left, &right) {
                        Ok(value) => value,
                        Err(error) => {
                            return Err(error);
                        },
                    },
                    Err(error) => {
                        return Err(error);
                    },
                },
                Err(error) => {
                    return Err(error);
                },
            },
            ExprT::MatchSum(matchee, arms) => match self.value_of(matchee, inner) {
                Ok(Value::Variant(_, index, payload)) => match find_arm(arms, index) {
                    Some(k) => {
                        let arm: &'a MatchArm = &arms[k];
                        let evaluated = match &arm.1 {
                            Some(name) => {
                                self.bind(name.clone(), (*payload).copy());
                                let ghost extended = self.scope();
                                let evaluated = self.value_of(&arm.2, inner);
                                proof {
                                    assert(is_latest(extended, name@, extended.len() - 1));
                                    assert(extended.remove(extended.len() - 1) =~= old(
                                        self,
                                    ).scope());
                                }
                                self.unbind(name);
                                evaluated
                            },
                            None => self.value_of(&arm.2, inner),
                        };
                        match evaluated {
                            Ok(value) => value,
                            Err(error) => {
                                return Err(error);
                            },
                        }
                    },
                    None => {
                        return Err(EvalError::NoMatchingArm(index));
                    },
                },
                Ok(_) => {
                    return Err(EvalError::NotAVariant);
                },
                Err(error) => {
                    return Err(error);
                },
            },
            ExprT::VariantConstructor(handle, index) => {
                let program: &'a TypeChecked = self.program;
                if program.check_variant(*handle, *index) {
                    Value::VariantConstructorFn(*handle, *index)
                } else {
                    return Err(EvalError::InvalidVariant(*handle, *index));
                }
            },
            ExprT::BuiltInFn(id) => Value::BuiltInFn(*id),
            ExprT::Negation(_) => {
                return Err(EvalError::UnsupportedExpression(expr.0.kind()));
            },
        };
        self.push_val(value);
        Ok(())
    }

    /// Calls the top-level function `f` as an entry point: evaluates its
    /// body in the local scope, leaving its parameter unbound, and pushes
    /// the value.
    pub fn call_fn(&mut self, f: &str, depth: usize) -> (result: Result<(), EvalError>)
        ensures
            final(self).follows(
                old(self),
                call(old(self).context(), f@, old(self).scope(), depth as nat),
                result,
            ),
    {
        let name = f.to_owned();
        let program: &'a TypeChecked = self.program;
        match program.global(&name) {
            Some(definition) => match &definition.0 {
                ExprT::Lambda(_, body) => self.eval_expr(body, depth),
                _ => Err(EvalError::EntryNotFunction(name)),
            },
            None => Err(EvalError::EntryNotFound(name)),
        }
    }
}

/// The reserved name of a program's entry point.
pub const ENTRY_POINT: &'static str = "main";

/// How a run of a program ended, and what it printed.
#[derive(Debug)]
pub struct Run<'a> {
    pub result: Result<Value<'a>, EvalError>,
    pub output: String,
}

impl<'a> Run<'a> {
    /// This run ended as `outcome` says.
    pub open spec fn is(&self, outcome: Outcome<Val>) -> bool {
        &&& self.output@ == outcome.printed
        &&& match self.result {
            Ok(value) => outcome.result == Ok::<Val, Fault>(value@),
            Err(error) => outcome.result == Err::<Val, Fault>(error@),
        }
    }
}

/// Runs `program`: calls its entry point, the top-level function named
/// `ENTRY_POINT`, with nothing bound. `files` are the host's files and
/// `depth` is the deepest nesting of expressions and calls that is allowed.
pub fn interpret<'a>(program: &'a TypeChecked, files: Vec<(String, String)>, depth: usize) -> (run:
    Run<'a>)
    ensures
        run.is(
            call(
                Context { program: *program, files: file_table(files@) },
                ENTRY_POINT@,
                Seq::empty(),
                depth as nat,
            ),
        ),
{
    let mut interpreter = Interpreter::new(program, files);
    let result = match interpreter.call_fn(ENTRY_POINT, depth) {
        Ok(_) => Ok(interpreter.pop_val().unwrap()),
        Err(error) => Err(error),
    };
    Run { result, output: interpreter.output }
}

} // verus!
