use evaluator::{
    interpret, BuiltInFn, EvalError, ExprT, Operator, Type, TypeChecked, TypedExpr, Value,
};

fn node(expr: ExprT) -> TypedExpr {
    (expr, Type::Unit)
}

fn num(i: i64) -> TypedExpr {
    node(ExprT::IntegerLiteral(i))
}

fn text(s: &str) -> TypedExpr {
    node(ExprT::StringLiteral(s.to_string()))
}

fn symbol(name: &str) -> TypedExpr {
    node(ExprT::Symbol(name.to_string()))
}

fn lambda(parameter: &str, body: TypedExpr) -> TypedExpr {
    node(ExprT::Lambda(parameter.to_string(), Box::new(body)))
}

fn call(callee: TypedExpr, arguments: Vec<TypedExpr>) -> TypedExpr {
    node(ExprT::Application(Box::new(callee), arguments))
}

fn binary(op: Operator, lhs: TypedExpr, rhs: TypedExpr) -> TypedExpr {
    node(ExprT::BinaryOp(op, Box::new(lhs), Box::new(rhs)))
}

fn cond(condition: TypedExpr, consequent: TypedExpr, alternative: TypedExpr) -> TypedExpr {
    node(ExprT::Conditional(
        Box::new(condition),
        Box::new(consequent),
        Box::new(alternative),
    ))
}

fn let_in(name: &str, bound: TypedExpr, body: TypedExpr) -> TypedExpr {
    node(ExprT::LetBinding(
        name.to_string(),
        Box::new(bound),
        Box::new(body),
    ))
}

fn builtin(id: BuiltInFn) -> TypedExpr {
    node(ExprT::BuiltInFn(id))
}

fn program(bindings: Vec<(&str, TypedExpr)>) -> TypeChecked {
    TypeChecked {
        bindings: bindings
            .into_iter()
            .map(|(name, definition)| (name.to_string(), definition))
            .collect(),
        types: vec![],
    }
}

fn part(index: usize) -> TypedExpr {
    node(ExprT::FieldAccess(Box::new(symbol("parts")), index))
}

fn file(path: &str, contents: &str) -> (String, String) {
    (path.to_string(), contents.to_string())
}

#[test]
fn double_twenty_one_is_forty_two() {
    let double = lambda("x", binary(Operator::BinOpAdd, symbol("x"), symbol("x")));
    let main = lambda("args", call(symbol("double"), vec![num(21)]));
    let program = program(vec![("double", double), ("main", main)]);
    let run = interpret(&program, vec![], 1000);
    assert_eq!(run.result, Ok(Value::Integer(42)));
    assert_eq!(run.output, "");
}

#[test]
fn program_without_main_has_no_entry() {
    let program = program(vec![("start", lambda("x", num(1)))]);
    let run = interpret(&program, vec![], 1000);
    assert_eq!(run.result, Err(EvalError::EntryNotFound("main".to_string())));
}

#[test]
fn main_that_is_no_function_is_refused() {
    let program = program(vec![("main", num(1))]);
    let run = interpret(&program, vec![], 1000);
    assert_eq!(
        run.result,
        Err(EvalError::EntryNotFunction("main".to_string()))
    );
}

#[test]
fn parameter_of_main_is_not_bound() {
    let program = program(vec![("main", lambda("args", symbol("args")))]);
    let run = interpret(&program, vec![], 1000);
    assert_eq!(
        run.result,
        Err(EvalError::UnboundSymbol("args".to_string()))
    );
}

#[test]
fn recursion_through_a_top_level_name() {
    // fact n = if n == 0 then 1 else n * fact (n - 1)
    let fact = lambda(
        "n",
        cond(
            binary(Operator::BinOpEquals, symbol("n"), num(0)),
            num(1),
            binary(
                Operator::BinOpMul,
                symbol("n"),
                call(
                    symbol("fact"),
                    vec![binary(Operator::BinOpSub, symbol("n"), num(1))],
                ),
            ),
        ),
    );
    let main = lambda("args", call(symbol("fact"), vec![num(10)]));
    let program = program(vec![("fact", fact), ("main", main)]);
    let run = interpret(&program, vec![], 1000);
    assert_eq!(run.result, Ok(Value::Integer(3628800)));
}

#[test]
fn endless_recursion_stops_at_the_depth_limit() {
    let forever = lambda("n", call(symbol("forever"), vec![symbol("n")]));
    let main = lambda("args", call(symbol("forever"), vec![num(0)]));
    let program = program(vec![("forever", forever), ("main", main)]);
    let run = interpret(&program, vec![], 200);
    assert_eq!(run.result, Err(EvalError::DepthExceeded));
}

#[test]
fn a_larger_depth_limit_gives_the_same_result() {
    let double = lambda("x", binary(Operator::BinOpAdd, symbol("x"), symbol("x")));
    let main = lambda("args", call(symbol("double"), vec![num(21)]));
    let program = program(vec![("double", double), ("main", main)]);
    assert_eq!(interpret(&program, vec![], 2).result, Err(EvalError::DepthExceeded));
    let enough = interpret(&program, vec![], 4);
    let plenty = interpret(&program, vec![], 4000);
    assert_eq!(enough.result, Ok(Value::Integer(42)));
    assert_eq!(plenty.result, enough.result);
    assert_eq!(plenty.output, enough.output);
}

#[test]
fn prints_appear_in_evaluation_order() {
    // main = let a = print "one " in let b = printi (0 - 2) in print "three"
    let main = lambda(
        "args",
        let_in(
            "a",
            call(builtin(BuiltInFn::Print), vec![text("one ")]),
            let_in(
                "b",
                call(
                    builtin(BuiltInFn::Printi),
                    vec![binary(Operator::BinOpSub, num(0), num(2))],
                ),
                call(builtin(BuiltInFn::Print), vec![text(" three")]),
            ),
        ),
    );
    let program = program(vec![("main", main)]);
    let run = interpret(&program, vec![], 1000);
    assert_eq!(run.result, Ok(Value::Unit));
    assert_eq!(run.output, "one -2 three");
}

#[test]
fn output_before_a_failure_is_kept() {
    let main = lambda(
        "args",
        let_in(
            "a",
            call(builtin(BuiltInFn::Print), vec![text("so far")]),
            binary(Operator::BinOpDiv, num(1), num(0)),
        ),
    );
    let program = program(vec![("main", main)]);
    let run = interpret(&program, vec![], 1000);
    assert_eq!(run.result, Err(EvalError::DivisionByZero));
    assert_eq!(run.output, "so far");
}

#[test]
fn reads_a_file_that_the_host_supplied() {
    let main = lambda(
        "args",
        call(builtin(BuiltInFn::FileRead), vec![text("input.txt")]),
    );
    let program = program(vec![("main", main)]);
    let run = interpret(&program, vec![file("input.txt", "12\n34\n")], 1000);
    assert_eq!(
        run.result,
        Ok(Value::String(std::rc::Rc::new("12\n34\n".to_string())))
    );
}

#[test]
fn names_the_file_that_the_host_did_not_supply() {
    let main = lambda(
        "args",
        call(builtin(BuiltInFn::FileRead), vec![text("missing.txt")]),
    );
    let program = program(vec![("main", main)]);
    let run = interpret(&program, vec![file("input.txt", "x")], 1000);
    assert_eq!(
        run.result,
        Err(EvalError::FileUnavailable("missing.txt".to_string()))
    );
}

#[test]
fn the_latest_file_of_a_path_is_read() {
    let main = lambda(
        "args",
        call(builtin(BuiltInFn::FileRead), vec![text("a")]),
    );
    let program = program(vec![("main", main)]);
    let run = interpret(&program, vec![file("a", "old"), file("b", "x"), file("a", "new")], 1000);
    assert_eq!(
        run.result,
        Ok(Value::String(std::rc::Rc::new("new".to_string())))
    );
}

#[test]
fn sums_the_numbers_of_a_file() {
    // sum text acc = let parts = split (text, "\n") in
    //   if parts.0 == "" then acc else sum parts.1 (acc + parse parts.0)
    let body = let_in(
        "parts",
        call(
            builtin(BuiltInFn::StringSplit),
            vec![node(ExprT::Tuple(vec![symbol("text"), text("\n")]))],
        ),
        cond(
            binary(Operator::BinOpEquals, part(0), text("")),
            symbol("acc"),
            call(
                symbol("sum"),
                vec![
                    part(1),
                    binary(
                        Operator::BinOpAdd,
                        symbol("acc"),
                        call(builtin(BuiltInFn::StringParseInt), vec![part(0)]),
                    ),
                ],
            ),
        ),
    );
    let sum = lambda("text", lambda("acc", body));
    let main = lambda(
        "args",
        call(
            symbol("sum"),
            vec![
                call(builtin(BuiltInFn::FileRead), vec![text("numbers")]),
                num(0),
            ],
        ),
    );
    let program = program(vec![("sum", sum), ("main", main)]);
    let run = interpret(&program, vec![file("numbers", "10\n-3\n35\n")], 1000);
    assert_eq!(run.result, Ok(Value::Integer(42)));
}

#[test]
fn files_can_be_supplied_on_demand() {
    // main = let n = print "reading " in split (read "a", read "b")
    let main = lambda(
        "args",
        let_in(
            "n",
            call(builtin(BuiltInFn::Print), vec![text("reading ")]),
            call(
                builtin(BuiltInFn::StringSplit),
                vec![node(ExprT::Tuple(vec![
                    call(builtin(BuiltInFn::FileRead), vec![text("a")]),
                    call(builtin(BuiltInFn::FileRead), vec![text("b")]),
                ]))],
            ),
        ),
    );
    let program = program(vec![("main", main)]);
    let mut files: Vec<(String, String)> = Vec::new();
    let first = interpret(&program, files.clone(), 1000);
    assert_eq!(first.result, Err(EvalError::FileUnavailable("a".to_string())));
    assert_eq!(first.output, "reading ");
    files.push(file("a", "left|right"));
    let second = interpret(&program, files.clone(), 1000);
    assert_eq!(second.result, Err(EvalError::FileUnavailable("b".to_string())));
    assert_eq!(second.output, "reading ");
    files.push(file("b", "|"));
    let third = interpret(&program, files.clone(), 1000);
    assert_eq!(
        third.result,
        Ok(Value::Tuple(vec![
            Value::String(std::rc::Rc::new("left".to_string())),
            Value::String(std::rc::Rc::new("right".to_string())),
        ]))
    );
    assert_eq!(third.output, "reading ");
    files.push(file("c", "unused"));
    let fourth = interpret(&program, files, 1000);
    assert_eq!(fourth.result, third.result);
    assert_eq!(fourth.output, third.output);
}
