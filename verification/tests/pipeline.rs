use easl::interpreter::InterpreterError;
use easl::interpreter::NumericRequest;
use easl::interpreter::Value;
use easl::parser::ast::BinaryOperator;
use easl::parser::ast::NumberLiteral;
use easl::parser::ParserError;
use easl::pipeline::evaluate;
use easl::pipeline::Failure;
use easl::tc::variant::Type;
use easl::tc::variant::TypeCheckerError;

fn kernel(request: NumericRequest) -> u64 {
    match request {
        NumericRequest::Literal(NumberLiteral::Integer(value)) => (value as f64).to_bits(),
        NumericRequest::Literal(NumberLiteral::Decimal(text)) => {
            text.parse::<f64>().unwrap().to_bits()
        }
        NumericRequest::Arithmetic(operator, lhs, rhs) => {
            let (lhs, rhs) = (f64::from_bits(lhs), f64::from_bits(rhs));
            let result = match operator {
                BinaryOperator::Add => lhs + rhs,
                BinaryOperator::Sub => lhs - rhs,
                BinaryOperator::Mul => lhs * rhs,
                BinaryOperator::Div => lhs / rhs,
                BinaryOperator::Remainder => lhs % rhs,
                other => panic!("no arithmetic: {:?}", other),
            };
            result.to_bits()
        }
    }
}

#[test]
fn program_runs_to_its_values() {
    let state = evaluate("x = 1\ny = 2\nz = x + y\n", &kernel, 16).unwrap();
    match state.value_named("z") {
        Some(Value::Number(bits)) => assert_eq!(f64::from_bits(*bits), 3.0),
        other => panic!("no number: {:?}", other),
    }
}

#[test]
fn source_that_is_no_program_gives_its_parse_errors() {
    match evaluate("x = 1\nx = 2\ny = (\n", &kernel, 16) {
        Err(Failure::Parse(errors)) => assert_eq!(
            errors,
            vec![
                ParserError::DuplicateIdentifier {
                    span: 6..11,
                    ident: easl::parser::ast::Identifier { handle: 5 }
                },
                ParserError::UnexpectedToken {
                    span: 17..18,
                    expected: easl::parser::Expected::Expression
                },
            ]
        ),
        other => panic!("no parse errors: {:?}", other),
    }
}

#[test]
fn program_with_a_type_error_is_not_run() {
    match evaluate("c = if 1 then 2 else 3\n", &kernel, 16) {
        Err(Failure::Type(error)) => {
            assert_eq!(
                error.inner,
                TypeCheckerError::IncompatibleTypes { lhs: Type::Bool, rhs: Type::Number }
            );
            assert_eq!(error.span, 7..8);
        }
        other => panic!("no type error: {:?}", other),
    }
    assert!(matches!(evaluate("f = \\a -> a\nr = f 5\n", &kernel, 16), Err(Failure::Type(_))));
}

#[test]
fn checked_program_stops_only_on_nested_calls() {
    let source = "f = \\a -> a + 1\ng = \\b -> f (f b)\nr = g 1\n";
    match evaluate(source, &kernel, 1) {
        Err(Failure::Runtime(error)) => {
            assert_eq!(error, InterpreterError::CallDepthExceeded { this_application: 28..33 })
        }
        other => panic!("no runtime error: {:?}", other),
    }
    let state = evaluate(source, &kernel, 2).unwrap();
    match state.value_named("r") {
        Some(Value::Number(bits)) => assert_eq!(f64::from_bits(*bits), 3.0),
        other => panic!("no number: {:?}", other),
    }
}
