use evaluator::interpret::find_arm;
use evaluator::operators::{binary_operation, integer_operation};
use evaluator::text::{chars_of, find_first, parse_integer, push_decimal, split_first, split_text};
use evaluator::value::copy_bindings;
use evaluator::{
    BuiltInFn, EvalError, ExprT, Interpreter, Operator, Type, TypeChecked, TypeHandle, TypedExpr,
    Value,
};
use std::rc::Rc;

fn string(s: &str) -> Value<'static> {
    Value::String(Rc::new(s.to_string()))
}

fn pair(first: &str, second: &str) -> Value<'static> {
    Value::Tuple(vec![string(first), string(second)])
}

fn empty_program() -> TypeChecked {
    TypeChecked {
        bindings: vec![],
        types: vec![],
    }
}

/// What the primitive returns for `argument`, and what it prints.
fn primitive(id: BuiltInFn, argument: Value<'static>) -> (Result<Value<'static>, EvalError>, String) {
    let program: &'static TypeChecked = Box::leak(Box::new(empty_program()));
    let files = vec![
        ("notes.txt".to_string(), "first line\n".to_string()),
        ("empty".to_string(), String::new()),
    ];
    let mut interpreter = Interpreter::new(program, files);
    let result = interpreter.call_builtin(id, argument);
    let value = result.map(|_| interpreter.pop_val().expect("a primitive pushes its value"));
    assert!(interpreter.pop_val().is_none());
    (value, interpreter.printed().to_string())
}

fn decimal_of(i: i64) -> String {
    let mut out = String::new();
    push_decimal(&mut out, i);
    out
}

#[test]
fn seven_divided_by_two_is_three() {
    assert_eq!(integer_operation(Operator::BinOpDiv, 7, 2), Ok(3));
}

#[test]
fn seven_modulo_two_is_one() {
    assert_eq!(integer_operation(Operator::BinOpMod, 7, 2), Ok(1));
}

#[test]
fn division_rounds_toward_zero() {
    assert_eq!(integer_operation(Operator::BinOpDiv, -7, 2), Ok(-3));
    assert_eq!(integer_operation(Operator::BinOpDiv, 7, -2), Ok(-3));
    assert_eq!(integer_operation(Operator::BinOpDiv, -7, -2), Ok(3));
    assert_eq!(integer_operation(Operator::BinOpDiv, 0, -2), Ok(0));
    assert_eq!(integer_operation(Operator::BinOpDiv, 1, 2), Ok(0));
    assert_eq!(integer_operation(Operator::BinOpDiv, -1, 2), Ok(0));
    assert_eq!(integer_operation(Operator::BinOpDiv, i64::MIN, 1), Ok(i64::MIN));
    assert_eq!(integer_operation(Operator::BinOpDiv, i64::MAX, -1), Ok(-i64::MAX));
    assert_eq!(integer_operation(Operator::BinOpDiv, i64::MIN, i64::MIN), Ok(1));
}

#[test]
fn remainder_has_the_sign_of_the_dividend() {
    assert_eq!(integer_operation(Operator::BinOpMod, -7, 2), Ok(-1));
    assert_eq!(integer_operation(Operator::BinOpMod, 7, -2), Ok(1));
    assert_eq!(integer_operation(Operator::BinOpMod, -7, -2), Ok(-1));
    assert_eq!(integer_operation(Operator::BinOpMod, 6, 3), Ok(0));
    assert_eq!(integer_operation(Operator::BinOpMod, i64::MIN, 10), Ok(-8));
    assert_eq!(integer_operation(Operator::BinOpMod, i64::MAX, i64::MIN), Ok(i64::MAX));
}

#[test]
fn division_and_remainder_by_zero_fail() {
    assert_eq!(
        integer_operation(Operator::BinOpDiv, 7, 0),
        Err(EvalError::DivisionByZero)
    );
    assert_eq!(
        integer_operation(Operator::BinOpMod, 7, 0),
        Err(EvalError::DivisionByZero)
    );
}

#[test]
fn results_that_do_not_fit_are_overflows() {
    let overflow = Err(EvalError::IntegerOverflow);
    assert_eq!(integer_operation(Operator::BinOpAdd, i64::MAX, 1), overflow);
    assert_eq!(integer_operation(Operator::BinOpAdd, i64::MIN, -1), overflow);
    assert_eq!(integer_operation(Operator::BinOpSub, i64::MIN, 1), overflow);
    assert_eq!(integer_operation(Operator::BinOpSub, 0, i64::MIN), overflow);
    assert_eq!(integer_operation(Operator::BinOpMul, i64::MAX, 2), overflow);
    assert_eq!(integer_operation(Operator::BinOpMul, i64::MIN, -1), overflow);
    assert_eq!(integer_operation(Operator::BinOpDiv, i64::MIN, -1), overflow);
    assert_eq!(integer_operation(Operator::BinOpMod, i64::MIN, -1), overflow);
}

#[test]
fn results_at_the_limits_fit() {
    assert_eq!(
        integer_operation(Operator::BinOpAdd, i64::MAX - 1, 1),
        Ok(i64::MAX)
    );
    assert_eq!(
        integer_operation(Operator::BinOpSub, i64::MIN + 1, 1),
        Ok(i64::MIN)
    );
    assert_eq!(
        integer_operation(Operator::BinOpMul, i64::MIN / 2, 2),
        Ok(i64::MIN)
    );
    assert_eq!(integer_operation(Operator::BinOpAdd, 2, 3), Ok(5));
    assert_eq!(integer_operation(Operator::BinOpSub, 2, 3), Ok(-1));
    assert_eq!(integer_operation(Operator::BinOpMul, -4, 3), Ok(-12));
}

#[test]
fn comparisons_give_zero_or_one() {
    assert_eq!(integer_operation(Operator::BinOpLess, 1, 2), Ok(1));
    assert_eq!(integer_operation(Operator::BinOpLess, 2, 2), Ok(0));
    assert_eq!(integer_operation(Operator::BinOpLessEq, 2, 2), Ok(1));
    assert_eq!(integer_operation(Operator::BinOpLessEq, 3, 2), Ok(0));
    assert_eq!(integer_operation(Operator::BinOpGreater, 3, 2), Ok(1));
    assert_eq!(integer_operation(Operator::BinOpGreater, 2, 2), Ok(0));
    assert_eq!(integer_operation(Operator::BinOpGreaterEq, 2, 2), Ok(1));
    assert_eq!(integer_operation(Operator::BinOpGreaterEq, 1, 2), Ok(0));
    assert_eq!(integer_operation(Operator::BinOpEquals, -2, -2), Ok(1));
    assert_eq!(integer_operation(Operator::BinOpEquals, 1, 2), Ok(0));
}

#[test]
fn and_and_or_work_on_bits() {
    assert_eq!(integer_operation(Operator::BinOpAnd, 1, 0), Ok(0));
    assert_eq!(integer_operation(Operator::BinOpAnd, 1, 1), Ok(1));
    assert_eq!(integer_operation(Operator::BinOpOr, 1, 0), Ok(1));
    assert_eq!(integer_operation(Operator::BinOpOr, 0, 0), Ok(0));
    assert_eq!(integer_operation(Operator::BinOpAnd, 6, 3), Ok(2));
    assert_eq!(integer_operation(Operator::BinOpOr, 6, 3), Ok(7));
    assert_eq!(integer_operation(Operator::BinOpAnd, -1, 5), Ok(5));
}

#[test]
fn field_selection_is_no_integer_operator() {
    assert_eq!(
        integer_operation(Operator::BinOpDot, 1, 2),
        Err(EvalError::UnsupportedOperator(Operator::BinOpDot))
    );
}

#[test]
fn strings_compare_by_value() {
    assert_eq!(
        binary_operation(Operator::BinOpEquals, &string("ab"), &string("ab")),
        Ok(Value::Integer(1))
    );
    assert_eq!(
        binary_operation(Operator::BinOpEquals, &string("ab"), &string("abc")),
        Ok(Value::Integer(0))
    );
    assert_eq!(
        binary_operation(Operator::BinOpEquals, &string(""), &string("")),
        Ok(Value::Integer(1))
    );
}

#[test]
fn strings_admit_no_other_operator() {
    assert_eq!(
        binary_operation(Operator::BinOpAdd, &string("a"), &string("b")),
        Err(EvalError::UnsupportedOperator(Operator::BinOpAdd))
    );
    assert_eq!(
        binary_operation(Operator::BinOpLess, &string("a"), &string("b")),
        Err(EvalError::UnsupportedOperator(Operator::BinOpLess))
    );
}

#[test]
fn operands_of_other_kinds_do_not_combine() {
    assert_eq!(
        binary_operation(Operator::BinOpAdd, &Value::Integer(1), &string("b")),
        Err(EvalError::OperandMismatch)
    );
    assert_eq!(
        binary_operation(Operator::BinOpEquals, &Value::Unit, &Value::Unit),
        Err(EvalError::OperandMismatch)
    );
    assert_eq!(
        binary_operation(Operator::BinOpAdd, &Value::Integer(1), &Value::Integer(2)),
        Ok(Value::Integer(3))
    );
}

#[test]
fn operands_are_evaluated_left_then_right() {
    let program = empty_program();
    let print = |s: &str| -> TypedExpr {
        (
            ExprT::Application(
                Box::new((ExprT::BuiltInFn(BuiltInFn::Print), Type::Unit)),
                vec![(ExprT::StringLiteral(s.to_string()), Type::String)],
            ),
            Type::Unit,
        )
    };
    let expr: TypedExpr = (
        ExprT::BinaryOp(
            Operator::BinOpAdd,
            Box::new(print("left ")),
            Box::new(print("right")),
        ),
        Type::Integer,
    );
    let mut interpreter = Interpreter::new(&program, vec![]);
    assert_eq!(
        interpreter.eval_expr(&expr, 1000),
        Err(EvalError::OperandMismatch)
    );
    assert_eq!(interpreter.printed(), "left right");
}

#[test]
fn split_at_the_first_comma() {
    assert_eq!(
        primitive(BuiltInFn::StringSplit, pair("a,b,c", ",")),
        (Ok(pair("a", "b,c")), String::new())
    );
}

#[test]
fn split_without_the_separator() {
    assert_eq!(
        primitive(BuiltInFn::StringSplit, pair("abc", "|")),
        (Ok(pair("abc", "")), String::new())
    );
}

#[test]
fn split_texts() {
    let split = |text: &str, separator: &str| split_text(text, separator);
    let owned = |a: &str, b: &str| (a.to_string(), b.to_string());
    assert_eq!(split("a,b,c", ","), owned("a", "b,c"));
    assert_eq!(split("abc", "|"), owned("abc", ""));
    assert_eq!(split("key => value => x", " => "), owned("key", "value => x"));
    assert_eq!(split(",abc", ","), owned("", "abc"));
    assert_eq!(split("abc,", ","), owned("abc", ""));
    assert_eq!(split("abc", "abc"), owned("", ""));
    assert_eq!(split("ab", "abc"), owned("ab", ""));
    assert_eq!(split("", ","), owned("", ""));
    assert_eq!(split("abc", ""), owned("", "abc"));
    assert_eq!(split("", ""), owned("", ""));
    assert_eq!(split("aab", "ab"), owned("a", ""));
    assert_eq!(split("日本語、テキスト", "、"), owned("日本語", "テキスト"));
    assert_eq!(split("né-à", "-"), owned("né", "à"));
}

#[test]
fn split_needs_a_pair_of_strings() {
    let refused = (
        Err(EvalError::BuiltInArgument(BuiltInFn::StringSplit)),
        String::new(),
    );
    assert_eq!(primitive(BuiltInFn::StringSplit, string("a,b")), refused);
    assert_eq!(
        primitive(BuiltInFn::StringSplit, Value::Tuple(vec![string("a")])),
        refused
    );
    assert_eq!(
        primitive(
            BuiltInFn::StringSplit,
            Value::Tuple(vec![string("a"), string("b"), string("c")])
        ),
        refused
    );
    assert_eq!(
        primitive(
            BuiltInFn::StringSplit,
            Value::Tuple(vec![string("a"), Value::Integer(1)])
        ),
        refused
    );
    assert_eq!(
        primitive(
            BuiltInFn::StringSplit,
            Value::Tuple(vec![Value::Integer(1), string("a")])
        ),
        refused
    );
}

#[test]
fn first_occurrence_is_the_least() {
    let find = |hay: &str, needle: &str| find_first(&chars_of(hay), &chars_of(needle));
    assert_eq!(find("abcabc", "bc"), Some(1));
    assert_eq!(find("abcabc", "c"), Some(2));
    assert_eq!(find("abcabc", "abc"), Some(0));
    assert_eq!(find("abcabc", "cab"), Some(2));
    assert_eq!(find("abcabc", "d"), None);
    assert_eq!(find("abc", "abcd"), None);
    assert_eq!(find("abc", ""), Some(0));
    assert_eq!(find("", ""), Some(0));
    assert_eq!(find("aaab", "aab"), Some(1));
    assert_eq!(find("äöü", "ü"), Some(2));
}

#[test]
fn chars_of_a_string() {
    assert_eq!(chars_of(""), Vec::<char>::new());
    assert_eq!(chars_of("aé日"), vec!['a', 'é', '日']);
}

#[test]
fn get_first_splits_off_one_character() {
    assert_eq!(
        primitive(BuiltInFn::StringGetFirst, string("abc")),
        (Ok(pair("a", "bc")), String::new())
    );
    assert_eq!(
        primitive(BuiltInFn::StringGetFirst, string("x")),
        (Ok(pair("x", "")), String::new())
    );
    assert_eq!(
        primitive(BuiltInFn::StringGetFirst, string("éa")),
        (Ok(pair("é", "a")), String::new())
    );
}

#[test]
fn get_first_of_the_empty_string_fails() {
    assert_eq!(
        primitive(BuiltInFn::StringGetFirst, string("")),
        (Err(EvalError::EmptyString), String::new())
    );
    assert_eq!(split_first(""), None);
    assert_eq!(
        split_first("日本"),
        Some(("日".to_string(), "本".to_string()))
    );
}

#[test]
fn get_first_needs_a_string() {
    assert_eq!(
        primitive(BuiltInFn::StringGetFirst, Value::Integer(1)),
        (
            Err(EvalError::BuiltInArgument(BuiltInFn::StringGetFirst)),
            String::new()
        )
    );
}

#[test]
fn parse_int_reads_decimal() {
    assert_eq!(
        primitive(BuiltInFn::StringParseInt, string("42")),
        (Ok(Value::Integer(42)), String::new())
    );
    assert_eq!(
        primitive(BuiltInFn::StringParseInt, string("-17")),
        (Ok(Value::Integer(-17)), String::new())
    );
}

#[test]
fn parse_int_refuses_other_text() {
    let malformed = (Err(EvalError::MalformedInteger), String::new());
    assert_eq!(primitive(BuiltInFn::StringParseInt, string("")), malformed);
    assert_eq!(primitive(BuiltInFn::StringParseInt, string("12a")), malformed);
    assert_eq!(
        primitive(BuiltInFn::StringParseInt, Value::Integer(1)),
        (
            Err(EvalError::BuiltInArgument(BuiltInFn::StringParseInt)),
            String::new()
        )
    );
}

#[test]
fn parsed_integers() {
    assert_eq!(parse_integer("0"), Some(0));
    assert_eq!(parse_integer("7"), Some(7));
    assert_eq!(parse_integer("+7"), Some(7));
    assert_eq!(parse_integer("-7"), Some(-7));
    assert_eq!(parse_integer("-0"), Some(0));
    assert_eq!(parse_integer("007"), Some(7));
    assert_eq!(parse_integer("1234567890"), Some(1234567890));
    assert_eq!(parse_integer("9223372036854775807"), Some(i64::MAX));
    assert_eq!(parse_integer("-9223372036854775808"), Some(i64::MIN));
    assert_eq!(parse_integer("0000000000000000000000000000000000001"), Some(1));
}

#[test]
fn texts_that_are_no_integers() {
    assert_eq!(parse_integer(""), None);
    assert_eq!(parse_integer("+"), None);
    assert_eq!(parse_integer("-"), None);
    assert_eq!(parse_integer("--1"), None);
    assert_eq!(parse_integer("+-1"), None);
    assert_eq!(parse_integer("1-"), None);
    assert_eq!(parse_integer(" 1"), None);
    assert_eq!(parse_integer("1 "), None);
    assert_eq!(parse_integer("1.0"), None);
    assert_eq!(parse_integer("0x10"), None);
    assert_eq!(parse_integer("一"), None);
    assert_eq!(parse_integer("١٢"), None);
    assert_eq!(parse_integer("9223372036854775808"), None);
    assert_eq!(parse_integer("-9223372036854775809"), None);
    assert_eq!(parse_integer("99999999999999999999999999999999999999999999"), None);
    assert_eq!(parse_integer("9223372036854775808x"), None);
}

#[test]
fn parsing_agrees_with_the_standard_parser() {
    let samples = [
        "0", "-0", "+0", "5", "-5", "+5", "", "+", "-", "a", "1a", "a1", "12 ", " 12", "1_000",
        "9223372036854775807", "9223372036854775808", "-9223372036854775808",
        "-9223372036854775809", "000", "-000123", "++1", "1e3", "١",
    ];
    for sample in samples {
        assert_eq!(parse_integer(sample), sample.parse::<i64>().ok(), "{:?}", sample);
    }
}

#[test]
fn decimal_representations() {
    assert_eq!(decimal_of(0), "0");
    assert_eq!(decimal_of(7), "7");
    assert_eq!(decimal_of(10), "10");
    assert_eq!(decimal_of(-1), "-1");
    assert_eq!(decimal_of(1234567890), "1234567890");
    assert_eq!(decimal_of(-907), "-907");
    assert_eq!(decimal_of(i64::MAX), "9223372036854775807");
    assert_eq!(decimal_of(i64::MIN), "-9223372036854775808");
}

#[test]
fn decimal_is_appended() {
    let mut out = "n = ".to_string();
    push_decimal(&mut out, 42);
    push_decimal(&mut out, -1);
    assert_eq!(out, "n = 42-1");
}

#[test]
fn decimal_and_parsing_are_inverse() {
    for i in [0, 1, -1, 9, 10, -10, 99, 100, 4096, -65535, i64::MAX, i64::MIN] {
        assert_eq!(parse_integer(&decimal_of(i)), Some(i));
        assert_eq!(decimal_of(i), format!("{}", i));
    }
}

#[test]
fn print_appends_without_newline() {
    assert_eq!(
        primitive(BuiltInFn::Print, string("hello")),
        (Ok(Value::Unit), "hello".to_string())
    );
    assert_eq!(
        primitive(BuiltInFn::Print, string("")),
        (Ok(Value::Unit), String::new())
    );
    assert_eq!(
        primitive(BuiltInFn::Print, Value::Integer(1)),
        (
            Err(EvalError::BuiltInArgument(BuiltInFn::Print)),
            String::new()
        )
    );
}

#[test]
fn printi_prints_decimal() {
    assert_eq!(
        primitive(BuiltInFn::Printi, Value::Integer(-120)),
        (Ok(Value::Unit), "-120".to_string())
    );
    assert_eq!(
        primitive(BuiltInFn::Printi, string("1")),
        (
            Err(EvalError::BuiltInArgument(BuiltInFn::Printi)),
            String::new()
        )
    );
}

#[test]
fn prints_accumulate() {
    let program = empty_program();
    let mut interpreter = Interpreter::new(&program, vec![]);
    assert_eq!(interpreter.printed(), "");
    interpreter.call_builtin(BuiltInFn::Print, string("a = ")).unwrap();
    interpreter.call_builtin(BuiltInFn::Printi, Value::Integer(3)).unwrap();
    assert_eq!(
        interpreter.call_builtin(BuiltInFn::Print, Value::Unit),
        Err(EvalError::BuiltInArgument(BuiltInFn::Print))
    );
    interpreter.call_builtin(BuiltInFn::Print, string(";")).unwrap();
    assert_eq!(interpreter.printed(), "a = 3;");
    assert_eq!(interpreter.pop_val(), Some(Value::Unit));
    assert_eq!(interpreter.pop_val(), Some(Value::Unit));
    assert_eq!(interpreter.pop_val(), Some(Value::Unit));
    assert_eq!(interpreter.pop_val(), None);
}

#[test]
fn file_read_gives_the_supplied_text() {
    assert_eq!(
        primitive(BuiltInFn::FileRead, string("notes.txt")),
        (Ok(string("first line\n")), String::new())
    );
    assert_eq!(
        primitive(BuiltInFn::FileRead, string("empty")),
        (Ok(string("")), String::new())
    );
}

#[test]
fn file_read_of_an_unsupplied_path_fails() {
    assert_eq!(
        primitive(BuiltInFn::FileRead, string("other.txt")),
        (
            Err(EvalError::FileUnavailable("other.txt".to_string())),
            String::new()
        )
    );
    assert_eq!(
        primitive(BuiltInFn::FileRead, Value::Unit),
        (
            Err(EvalError::BuiltInArgument(BuiltInFn::FileRead)),
            String::new()
        )
    );
}

#[test]
fn string_concat_is_not_supported() {
    assert_eq!(
        primitive(BuiltInFn::StringConcat, pair("a", "b")),
        (
            Err(EvalError::UnsupportedBuiltIn(BuiltInFn::StringConcat)),
            String::new()
        )
    );
}

#[test]
fn applying_a_primitive_dispatches_to_it() {
    let program = empty_program();
    let mut interpreter = Interpreter::new(&program, vec![]);
    assert_eq!(
        interpreter.apply(Value::BuiltInFn(BuiltInFn::StringParseInt), string("12"), 0),
        Ok(Value::Integer(12))
    );
    assert_eq!(
        interpreter.apply(
            Value::VariantConstructorFn(TypeHandle { index: 3 }, 1),
            string("p"),
            0
        ),
        Ok(Value::Variant(TypeHandle { index: 3 }, 1, Rc::new(string("p"))))
    );
    assert_eq!(
        interpreter.apply(Value::Unit, string("p"), 10),
        Err(EvalError::NotCallable)
    );
    assert_eq!(interpreter.pop_val(), None);
}

#[test]
fn stack_is_last_in_first_out() {
    let program = empty_program();
    let mut interpreter = Interpreter::new(&program, vec![]);
    assert_eq!(interpreter.pop_val(), None);
    interpreter.push_val(Value::Integer(1));
    interpreter.push_val(string("two"));
    interpreter.push_val(Value::Unit);
    assert_eq!(interpreter.pop_val(), Some(Value::Unit));
    assert_eq!(interpreter.pop_val(), Some(string("two")));
    interpreter.push_val(Value::Integer(4));
    assert_eq!(interpreter.pop_val(), Some(Value::Integer(4)));
    assert_eq!(interpreter.pop_val(), Some(Value::Integer(1)));
    assert_eq!(interpreter.pop_val(), None);
}

#[test]
fn unbinding_restores_the_shadowed_value() {
    let program = empty_program();
    let mut interpreter = Interpreter::new(&program, vec![]);
    let x = "x".to_string();
    let y = "y".to_string();
    interpreter.bind(x.clone(), Value::Integer(1));
    interpreter.bind(y.clone(), Value::Integer(10));
    interpreter.bind(x.clone(), Value::Integer(2));
    assert_eq!(interpreter.lookup(&x), Ok(Value::Integer(2)));
    interpreter.unbind(&x);
    assert_eq!(interpreter.lookup(&x), Ok(Value::Integer(1)));
    assert_eq!(interpreter.lookup(&y), Ok(Value::Integer(10)));
    interpreter.unbind(&x);
    assert_eq!(
        interpreter.lookup(&x),
        Err(EvalError::UnboundSymbol("x".to_string()))
    );
    interpreter.unbind(&x);
    assert_eq!(interpreter.lookup(&y), Ok(Value::Integer(10)));
}

#[test]
fn arm_is_found_by_its_variant() {
    let body = || -> TypedExpr { (ExprT::Unit, Type::Unit) };
    let arms = vec![
        (2usize, None, body()),
        (0usize, Some("p".to_string()), body()),
        (2usize, None, body()),
    ];
    assert_eq!(find_arm(&arms, 2), Some(0));
    assert_eq!(find_arm(&arms, 0), Some(1));
    assert_eq!(find_arm(&arms, 1), None);
    assert_eq!(find_arm(&vec![], 0), None);
}

#[test]
fn copy_equals_what_was_copied() {
    let body: TypedExpr = (ExprT::Symbol("x".to_string()), Type::Integer);
    let closure = Value::Function(
        Rc::new("x".to_string()),
        vec![
            ("a".to_string(), Value::Integer(1)),
            ("b".to_string(), string("text")),
        ],
        &body,
    );
    let source = Value::Tuple(vec![
        Value::Unit,
        Value::Integer(-3),
        string("shared"),
        closure,
        Value::Variant(TypeHandle { index: 0 }, 1, Rc::new(Value::Tuple(vec![string("p")]))),
        Value::VariantConstructorFn(TypeHandle { index: 2 }, 0),
        Value::BuiltInFn(BuiltInFn::Printi),
    ]);
    let copied = source.copy();
    assert_eq!(copied, source);
    assert_eq!(source.clone(), source);
    assert_ne!(copied, Value::Tuple(vec![]));
}

#[test]
fn copied_bindings_equal_what_was_copied() {
    let bindings = vec![
        ("a".to_string(), Value::Integer(1)),
        ("b".to_string(), Value::Tuple(vec![string("x"), Value::Unit])),
    ];
    assert_eq!(copy_bindings(&bindings), bindings);
    assert_eq!(copy_bindings(&vec![]), vec![]);
}
