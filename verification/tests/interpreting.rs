use easl::interpreter::interpret;
use easl::interpreter::interpret_expression;
use easl::interpreter::operate;
use easl::interpreter::operate_unary;
use easl::interpreter::Binding;
use easl::interpreter::InterpreterError;
use easl::interpreter::InterpreterState;
use easl::interpreter::NumericRequest;
use easl::interpreter::Value;
use easl::parser::ast::BinaryOperator;
use easl::parser::ast::Color;
use easl::parser::ast::Identifier;
use easl::parser::ast::NumberLiteral;
use easl::parser::ast::Statement;
use easl::parser::ast::UnaryOperator;
use easl::parser::parse;
use easl::utils::Spanned;

fn kernel(request: NumericRequest) -> u64 {
    match request {
        NumericRequest::Literal(NumberLiteral::Integer(value)) => (value as f64).to_bits(),
        NumericRequest::Literal(NumberLiteral::Decimal(text)) => {
            text.parse::<f64>().unwrap().to_bits()
        }
        NumericRequest::Arithmetic(operator, lhs, rhs) => {
            let (lhs, rhs) = (f64::from_bits(lhs), f64::from_bits(rhs));
            let result = match operator {
                BinaryOperator::Add => lhs + rhs,
                BinaryOperator::Sub => lhs - rhs,
                BinaryOperator::Mul => lhs * rhs,
                BinaryOperator::Div => lhs / rhs,
                BinaryOperator::Remainder => lhs % rhs,
                other => panic!("no arithmetic: {:?}", other),
            };
            result.to_bits()
        }
    }
}

fn run(source: &str) -> Result<InterpreterState, InterpreterError> {
    let (statements, names) = parse(source).unwrap();
    interpret(statements, &names, &kernel, 32)
}

fn number(state: &InterpreterState, name: &str) -> f64 {
    match state.value_named(name) {
        Some(Value::Number(bits)) => f64::from_bits(*bits),
        other => panic!("{} is no number: {:?}", name, other),
    }
}

fn text(state: &InterpreterState, name: &str) -> String {
    match state.value_named(name) {
        Some(Value::String(text)) => text.clone(),
        other => panic!("{} is no string: {:?}", name, other),
    }
}

fn boolean(state: &InterpreterState, name: &str) -> bool {
    match state.value_named(name) {
        Some(Value::Bool(value)) => *value,
        other => panic!("{} is no boolean: {:?}", name, other),
    }
}

fn mismatch() -> InterpreterError {
    InterpreterError::BinaryOperandMismatch { this_binary: 0..9, this_lhs: 0..1, this_rhs: 8..9 }
}

#[test]
fn sum_of_two_names() {
    let state = run("x = 1\ny = 2\nz = x + y\n").unwrap();
    assert_eq!(number(&state, "z"), 3.0);
    assert_eq!(number(&state, "x"), 1.0);
    assert_eq!(number(&state, "y"), 2.0);
}

#[test]
fn identity_function_returns_its_argument() {
    let state = run("f = \\a -> a\nr = f 5\n").unwrap();
    assert_eq!(number(&state, "r"), 5.0);
    assert!(matches!(state.value_named("f"), Some(Value::Closure { .. })));
}

#[test]
fn conditional_evaluates_one_branch_only() {
    let state = run("b = if True then \"yes\" else \"no\"\n").unwrap();
    assert_eq!(text(&state, "b"), "yes");
    let state = run("b = if True then \"yes\" else 1 + \"x\"\n").unwrap();
    assert_eq!(text(&state, "b"), "yes");
    let state = run("b = if False then 1 + \"x\" else \"no\"\n").unwrap();
    assert_eq!(text(&state, "b"), "no");
}

#[test]
fn plus_joins_strings() {
    let state = run("s = \"ab\" + \"cd\"\n").unwrap();
    assert_eq!(text(&state, "s"), "abcd");
}

#[test]
fn condition_that_is_no_boolean_is_an_error() {
    assert_eq!(
        run("c = if 1 then 2 else 3\n").err(),
        Some(InterpreterError::IfConditionWrongType { this_if: 4..22, this_condition: 7..8 })
    );
}

#[test]
fn arithmetic_follows_binary64() {
    let state =
        run("a = 7 - 2 * 3\nb = 7 / 2\nc = 7 % 4\nd = 1 / 0\ne = 0.1 + 0.2\nf = -d\ng = 2.5e1\n")
            .unwrap();
    assert_eq!(number(&state, "a"), 1.0);
    assert_eq!(number(&state, "b"), 3.5);
    assert_eq!(number(&state, "c"), 3.0);
    assert_eq!(number(&state, "d"), f64::INFINITY);
    assert_eq!(number(&state, "e"), 0.1 + 0.2);
    assert_eq!(number(&state, "f"), f64::NEG_INFINITY);
    assert_eq!(number(&state, "g"), 25.0);
}

#[test]
fn zero_divided_by_zero_is_not_a_number_and_equals_nothing() {
    let state = run("n = 0 / 0\ne = n == n\nd = n != n\nl = n < 1\n").unwrap();
    assert!(number(&state, "n").is_nan());
    assert!(!boolean(&state, "e"));
    assert!(boolean(&state, "d"));
    assert!(!boolean(&state, "l"));
}

#[test]
fn comparisons_compare_numbers() {
    let state =
        run("a = 1 < 2\nb = 2 > 3\nc = 2 <= 2\nd = 1 >= 2\ne = -1 < 0 - 0.5\nf = 0 == -0\n")
            .unwrap();
    assert!(boolean(&state, "a"));
    assert!(!boolean(&state, "b"));
    assert!(boolean(&state, "c"));
    assert!(!boolean(&state, "d"));
    assert!(boolean(&state, "e"));
    assert!(boolean(&state, "f"));
}

#[test]
fn equality_compares_values_of_one_kind() {
    let state = run(
        "a = \"x\" == \"x\"\nb = \"x\" != \"y\"\nc = True == False\nd = () == ()\ne = 1 != 1\n",
    )
    .unwrap();
    assert!(boolean(&state, "a"));
    assert!(boolean(&state, "b"));
    assert!(!boolean(&state, "c"));
    assert!(boolean(&state, "d"));
    assert!(!boolean(&state, "e"));
}

#[test]
fn operands_of_different_kinds_are_a_mismatch() {
    assert_eq!(
        run("x = 1 == \"1\"\n").err(),
        Some(InterpreterError::BinaryOperandMismatch {
            this_binary: 4..12,
            this_lhs: 4..5,
            this_rhs: 9..12
        })
    );
    assert_eq!(
        run("x = 1 + \"x\"\n").err(),
        Some(InterpreterError::BinaryOperandMismatch {
            this_binary: 4..11,
            this_lhs: 4..5,
            this_rhs: 8..11
        })
    );
    assert_eq!(
        run("x = \"a\" - \"b\"\n").err(),
        Some(InterpreterError::BinaryOperandMismatch {
            this_binary: 4..13,
            this_lhs: 4..7,
            this_rhs: 10..13
        })
    );
    assert_eq!(
        run("x = True < False\n").err(),
        Some(InterpreterError::BinaryOperandMismatch {
            this_binary: 4..16,
            this_lhs: 4..8,
            this_rhs: 11..16
        })
    );
}

#[test]
fn functions_are_never_compared() {
    assert_eq!(
        run("f = \\a -> a\nx = f == f\n").err(),
        Some(InterpreterError::BinaryOperandMismatch {
            this_binary: 16..22,
            this_lhs: 16..17,
            this_rhs: 21..22
        })
    );
}

#[test]
fn prefix_operators_take_one_kind_each() {
    let state = run("a = !True\nb = -3\nc = !!False\n").unwrap();
    assert!(!boolean(&state, "a"));
    assert_eq!(number(&state, "b"), -3.0);
    assert!(!boolean(&state, "c"));
    assert_eq!(
        run("x = !1\n").err(),
        Some(InterpreterError::NegatedWrongType { this_op: 4..6, this_expr: 5..6 })
    );
    assert_eq!(
        run("x = -\"a\"\n").err(),
        Some(InterpreterError::NegatedWrongType { this_op: 4..8, this_expr: 5..8 })
    );
}

#[test]
fn applying_what_is_no_function_is_an_error() {
    assert_eq!(
        run("x = 1\ny = x 2\n").err(),
        Some(InterpreterError::NotAFunction { this_application: 10..13, this_function: 10..11 })
    );
}

#[test]
fn lambda_closes_over_the_environment_of_its_evaluation() {
    let state = run("k = \\a -> \\b -> a\nf = k 1\nr = f 2\n").unwrap();
    assert_eq!(number(&state, "r"), 1.0);
    let state = run("n = 10\nadd = \\a -> a + n\nr = add 5\n").unwrap();
    assert_eq!(number(&state, "r"), 15.0);
}

#[test]
fn parameter_is_not_bound_after_the_call() {
    assert_eq!(
        run("f = \\a -> a\nr = f 5\ns = a\n").err(),
        Some(InterpreterError::UnboundVariable {
            this_variable: 24..25,
            identifier: Identifier { handle: 6 }
        })
    );
}

#[test]
fn name_is_not_bound_in_its_own_definition() {
    assert_eq!(
        run("x = x\n").err(),
        Some(InterpreterError::UnboundVariable {
            this_variable: 4..5,
            identifier: Identifier { handle: 5 }
        })
    );
}

#[test]
fn builtin_names_have_no_value() {
    assert_eq!(
        run("c = rgb\n").err(),
        Some(InterpreterError::UnboundVariable {
            this_variable: 4..7,
            identifier: Identifier { handle: 1 }
        })
    );
}

#[test]
fn calls_nested_too_deep_stop_the_run() {
    let (statements, names) = parse("w = \\x -> x x\nr = w w\n").unwrap();
    assert_eq!(
        interpret(statements, &names, &kernel, 8).err(),
        Some(InterpreterError::CallDepthExceeded { this_application: 10..13 })
    );
    let (statements, names) = parse("f = \\a -> a\nr = f 5\n").unwrap();
    assert_eq!(
        interpret(statements, &names, &kernel, 0).err(),
        Some(InterpreterError::CallDepthExceeded { this_application: 16..19 })
    );
    let (statements, names) = parse("f = \\a -> a\nr = f (f 5)\n").unwrap();
    let state = interpret(statements, &names, &kernel, 1).unwrap();
    assert_eq!(number(&state, "r"), 5.0);
}

#[test]
fn left_operand_is_evaluated_first() {
    assert_eq!(
        run("x = (!1) + (-\"a\")\n").err(),
        Some(InterpreterError::NegatedWrongType { this_op: 4..8, this_expr: 6..7 })
    );
}

#[test]
fn first_error_stops_the_run() {
    assert_eq!(
        run("a = !1\nb = -\"x\"\n").err(),
        Some(InterpreterError::NegatedWrongType { this_op: 4..6, this_expr: 5..6 })
    );
}

#[test]
fn ascriptions_are_recorded_in_statement_order() {
    let state = run("x :: Int\nx = 1\ny = \"a\" :: String\n").unwrap();
    let x = state.ident_map.get_from_name("x").unwrap();
    let y = state.ident_map.get_from_name("y").unwrap();
    assert_eq!(
        state.type_map,
        vec![(x, easl::tc::variant::Type::Number), (y, easl::tc::variant::Type::String)]
    );
    assert_eq!(state.value_map.len(), 2);
    assert_eq!(state.value_map[0].name, x);
    assert_eq!(state.value_map[1].name, y);
}

#[test]
fn inclusion_changes_nothing() {
    let state = run("include \"other\"\n").unwrap();
    assert!(state.value_map.is_empty());
    assert!(state.type_map.is_empty());
}

#[test]
fn value_named_of_an_unknown_name_is_none() {
    let state = run("x = 1\n").unwrap();
    assert!(state.value_named("nothing").is_none());
    assert!(state.value_named("hsv").is_none());
    assert!(state.value_of(Identifier { handle: 77 }).is_none());
}

#[test]
fn expression_is_evaluated_in_the_given_environment() {
    let (mut statements, names) = parse("x = 1\ny = x * 4\n").unwrap();
    let x = names.get_from_name("x").unwrap();
    let expr = match statements.remove(1).inner {
        Statement::Assignment { expr, .. } => expr,
        other => panic!("no assignment: {:?}", other),
    };
    let env = vec![Binding { name: x, value: Value::Number(2.5f64.to_bits()) }];
    match interpret_expression(&expr, &env, &kernel, 4) {
        Ok(Value::Number(bits)) => assert_eq!(f64::from_bits(bits), 10.0),
        other => panic!("no number: {:?}", other),
    }
    let shadowed = vec![
        Binding { name: x, value: Value::Number(2.5f64.to_bits()) },
        Binding { name: x, value: Value::Number(3.0f64.to_bits()) },
    ];
    match interpret_expression(&expr, &shadowed, &kernel, 4) {
        Ok(Value::Number(bits)) => assert_eq!(f64::from_bits(bits), 12.0),
        other => panic!("no number: {:?}", other),
    }
}

#[test]
fn operate_asks_the_kernel_for_arithmetic_only() {
    let double = |request: NumericRequest| -> u64 {
        match request {
            NumericRequest::Arithmetic(BinaryOperator::Mul, lhs, rhs) => lhs + rhs + 1,
            other => panic!("not asked for: {:?}", other),
        }
    };
    match operate(BinaryOperator::Mul, Value::Number(20), Value::Number(21), &double, mismatch()) {
        Ok(Value::Number(bits)) => assert_eq!(bits, 42),
        other => panic!("no number: {:?}", other),
    }
    match operate(
        BinaryOperator::LessThan,
        Value::Number(1.0f64.to_bits()),
        Value::Number(2.0f64.to_bits()),
        &double,
        mismatch(),
    ) {
        Ok(Value::Bool(value)) => assert!(value),
        other => panic!("no boolean: {:?}", other),
    }
    match operate(
        BinaryOperator::Add,
        Value::String(String::from("a")),
        Value::String(String::from("b")),
        &double,
        mismatch(),
    ) {
        Ok(Value::String(text)) => assert_eq!(text, "ab"),
        other => panic!("no string: {:?}", other),
    }
    assert_eq!(
        operate(BinaryOperator::Add, Value::Unit, Value::Unit, &double, mismatch()).err(),
        Some(mismatch())
    );
    assert_eq!(
        operate(BinaryOperator::Mul, Value::Number(1), Value::Bool(true), &double, mismatch()).err(),
        Some(mismatch())
    );
}

#[test]
fn colours_are_equal_part_by_part() {
    let one = Color { x: 1.0f64.to_bits(), y: 0.0f64.to_bits(), z: 2.0f64.to_bits(), alpha: 1.0f64.to_bits() };
    let same = Color { x: 1.0f64.to_bits(), y: (-0.0f64).to_bits(), z: 2.0f64.to_bits(), alpha: 1.0f64.to_bits() };
    let other = Color { x: 1.0f64.to_bits(), y: 0.0f64.to_bits(), z: 2.5f64.to_bits(), alpha: 1.0f64.to_bits() };
    assert!(Value::Color(one).equals(&Value::Color(same)));
    assert!(!Value::Color(one).equals(&Value::Color(other)));
    assert!(Value::is_same_type(&Value::Color(one), &Value::Color(other)));
    assert!(!Value::is_same_type(&Value::Color(one), &Value::Number(0)));
}

#[test]
fn is_same_type_never_holds_of_functions() {
    let state = run("f = \\a -> a\n").unwrap();
    let f = state.value_named("f").unwrap();
    assert!(!Value::is_same_type(f, f));
    assert!(!f.equals(f));
    assert!(Value::is_same_type(&Value::Unit, &Value::Unit));
    assert!(Value::is_same_type(&Value::Bool(true), &Value::Bool(false)));
    assert!(!Value::is_same_type(&Value::Bool(true), &Value::Unit));
}

#[test]
fn operate_unary_negates_bits_and_booleans() {
    let error = InterpreterError::NegatedWrongType { this_op: 0..2, this_expr: 1..2 };
    match operate_unary(UnaryOperator::Negative, Value::Number(1.0f64.to_bits()), error) {
        Ok(Value::Number(bits)) => assert_eq!(f64::from_bits(bits), -1.0),
        other => panic!("no number: {:?}", other),
    }
    let error = InterpreterError::NegatedWrongType { this_op: 0..2, this_expr: 1..2 };
    assert_eq!(
        operate_unary(UnaryOperator::Not, Value::Number(0), error).err(),
        Some(InterpreterError::NegatedWrongType { this_op: 0..2, this_expr: 1..2 })
    );
}

#[test]
fn duplicate_copies_a_value() {
    let state = run("n = 4\nf = \\a -> a + n\n").unwrap();
    let copy = state.value_named("f").unwrap().duplicate();
    match copy {
        Value::Closure { env, .. } => {
            assert_eq!(env.len(), 1);
            assert!(matches!(env[0].value, Value::Number(_)));
        }
        other => panic!("no closure: {:?}", other),
    }
    let spanned = Spanned::new(0..1, 1);
    assert_eq!(spanned.inner, 1);
}
