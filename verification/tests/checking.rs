use easl::parser::ast::Identifier;
use easl::parser::parse;
use easl::tc::check;
use easl::tc::variant::Type;
use easl::tc::variant::TypeCheckerError;
use easl::tc::TypeAssignment;
use easl::utils::Spanned;

fn fun(input: Type, output: Type) -> Type {
    Type::Fun { input: Box::new(input), output: Box::new(output) }
}

fn types_of(source: &str) -> Result<Vec<(Identifier, Type)>, Spanned<TypeCheckerError>> {
    let (statements, _) = parse(source).unwrap();
    check(&statements).map(|assignment| assignment.types)
}

fn error_of(source: &str) -> (TypeCheckerError, std::ops::Range<usize>) {
    let error = types_of(source).unwrap_err();
    (error.inner, error.span)
}

fn id(handle: u64) -> Identifier {
    Identifier { handle }
}

#[test]
fn literals_have_their_own_types() {
    assert_eq!(
        types_of("a = 1\nb = \"s\"\nc = True\nd = ()\ne = 1.5\n"),
        Ok(vec![
            (id(5), Type::Number),
            (id(6), Type::String),
            (id(7), Type::Bool),
            (id(8), Type::Unit),
            (id(9), Type::Number),
        ])
    );
}

#[test]
fn names_have_the_types_of_their_values() {
    assert_eq!(
        types_of("x = 1\ny = 2\nz = x + y\n"),
        Ok(vec![(id(5), Type::Number), (id(6), Type::Number), (id(7), Type::Number)])
    );
}

#[test]
fn operators_give_their_result_types() {
    assert_eq!(
        types_of("a = 1 < 2\nb = 1 == 2\nc = \"a\" + \"b\"\nd = !True\ne = -1\nf = 4 % 3\ng = \"a\" != \"b\"\n"),
        Ok(vec![
            (id(5), Type::Bool),
            (id(6), Type::Bool),
            (id(7), Type::String),
            (id(8), Type::Bool),
            (id(9), Type::Number),
            (id(10), Type::Number),
            (id(11), Type::Bool),
        ])
    );
}

#[test]
fn conditional_has_the_type_of_its_branches() {
    assert_eq!(
        types_of("b = if True then \"yes\" else \"no\"\n"),
        Ok(vec![(id(5), Type::String)])
    );
    assert_eq!(
        error_of("b = if True then \"yes\" else 2\n"),
        (TypeCheckerError::IncompatibleTypes { lhs: Type::String, rhs: Type::Number }, 28..29)
    );
}

#[test]
fn condition_has_to_be_a_boolean() {
    assert_eq!(
        error_of("c = if 1 then 2 else 3\n"),
        (TypeCheckerError::IncompatibleTypes { lhs: Type::Bool, rhs: Type::Number }, 7..8)
    );
}

#[test]
fn operands_have_to_fit_the_operator() {
    assert_eq!(
        error_of("x = 1 + \"x\"\n"),
        (TypeCheckerError::IncompatibleTypes { lhs: Type::Number, rhs: Type::String }, 8..11)
    );
    assert_eq!(
        error_of("x = True + 1\n"),
        (TypeCheckerError::IncompatibleTypes { lhs: Type::Bool, rhs: Type::Number }, 4..8)
    );
    assert_eq!(
        error_of("x = \"a\" * 2\n"),
        (TypeCheckerError::IncompatibleTypes { lhs: Type::Number, rhs: Type::String }, 4..7)
    );
    assert_eq!(
        error_of("x = 1 == True\n"),
        (TypeCheckerError::IncompatibleTypes { lhs: Type::Number, rhs: Type::Bool }, 9..13)
    );
    assert_eq!(
        error_of("x = !1\n"),
        (TypeCheckerError::IncompatibleTypes { lhs: Type::Bool, rhs: Type::Number }, 5..6)
    );
}

#[test]
fn lambda_takes_its_type_from_an_ascription() {
    assert_eq!(
        types_of("f = \\a -> a + 1 :: Int -> Int\nr = f 5\n"),
        Ok(vec![(id(5), fun(Type::Number, Type::Number)), (id(7), Type::Number)])
    );
    assert_eq!(
        types_of("f :: Int -> Bool\nf = \\a -> a < 1\n"),
        Ok(vec![(id(5), fun(Type::Number, Type::Bool))])
    );
    assert_eq!(
        types_of("k = \\a -> \\b -> a :: Int -> String -> Int\nr = k 1 \"x\"\n"),
        Ok(vec![
            (id(5), fun(Type::Number, fun(Type::String, Type::Number))),
            (id(8), Type::Number),
        ])
    );
}

#[test]
fn lambda_without_a_known_type_is_unknown() {
    assert_eq!(error_of("f = \\a -> a\n"), (TypeCheckerError::UnknownType, 4..11));
    assert_eq!(error_of("f = \\a -> a\nr = f 5\n"), (TypeCheckerError::UnknownType, 4..11));
    assert_eq!(error_of("p = \\a -> a + a\n"), (TypeCheckerError::UnknownType, 4..15));
    assert_eq!(error_of("p = \\a -> a == a\n"), (TypeCheckerError::UnknownType, 4..16));
}

#[test]
fn parameter_takes_its_type_from_its_first_use() {
    assert_eq!(
        types_of("f = \\a -> a + 1\nr = f 5\n"),
        Ok(vec![(id(5), fun(Type::Number, Type::Number)), (id(7), Type::Number)])
    );
    assert_eq!(
        types_of("g = \\b -> if b then 1 else 2\n"),
        Ok(vec![(id(5), fun(Type::Bool, Type::Number))])
    );
    assert_eq!(
        types_of("h = \\s -> \"x\" == s\n"),
        Ok(vec![(id(5), fun(Type::String, Type::Bool))])
    );
    assert_eq!(types_of("n = \\a -> !a\n"), Ok(vec![(id(5), fun(Type::Bool, Type::Bool))]));
    assert_eq!(
        types_of("t = \\a -> \"<\" + a + \">\"\n"),
        Ok(vec![(id(5), fun(Type::String, Type::String))])
    );
    assert_eq!(
        types_of("f = \\a -> a * 2\ng = \\b -> f b\n"),
        Ok(vec![
            (id(5), fun(Type::Number, Type::Number)),
            (id(7), fun(Type::Number, Type::Number)),
        ])
    );
    assert_eq!(
        types_of("k = \\a -> \\b -> a - b\n"),
        Ok(vec![(id(5), fun(Type::Number, fun(Type::Number, Type::Number)))])
    );
}

#[test]
fn use_that_does_not_fit_the_rest_is_an_error() {
    assert_eq!(
        error_of("f = \\a -> if a then a + 1 else 2\n"),
        (TypeCheckerError::IncompatibleTypes { lhs: Type::Bool, rhs: Type::Number }, 20..21)
    );
}

#[test]
fn lambda_has_to_fit_its_ascription() {
    assert_eq!(
        error_of("f = \\a -> a :: Int -> Bool\n"),
        (TypeCheckerError::IncompatibleTypes { lhs: Type::Bool, rhs: Type::Number }, 10..11)
    );
    assert_eq!(
        error_of("f = \\a -> a :: Int\n"),
        (
            TypeCheckerError::IncompatibleTypes { lhs: Type::Number, rhs: fun(Type::Infer, Type::Infer) },
            4..11
        )
    );
}

#[test]
fn argument_has_to_fit_the_input() {
    assert_eq!(
        error_of("f = \\a -> a :: Int -> Int\nr = f \"x\"\n"),
        (TypeCheckerError::IncompatibleTypes { lhs: Type::Number, rhs: Type::String }, 32..35)
    );
    assert_eq!(
        error_of("x = 1\ny = x 2\n"),
        (
            TypeCheckerError::IncompatibleTypes { lhs: Type::Number, rhs: fun(Type::Infer, Type::Infer) },
            10..11
        )
    );
}

#[test]
fn two_function_types_never_meet_in_a_program() {
    assert_eq!(
        error_of("f = \\a -> a :: Int -> Int\ng = f :: Int -> Int\n"),
        (TypeCheckerError::MetFunctions, 30..31)
    );
    assert_eq!(
        types_of("f = \\a -> a :: Int -> Int\ng = f\n"),
        Ok(vec![(id(5), fun(Type::Number, Type::Number)), (id(7), fun(Type::Number, Type::Number))])
    );
}

#[test]
fn ascription_has_to_meet_the_value() {
    assert_eq!(types_of("x = 1 :: Int\n"), Ok(vec![(id(5), Type::Number)]));
    assert_eq!(types_of("x = 1\nx :: Int\n"), Ok(vec![(id(5), Type::Number)]));
    assert_eq!(
        error_of("x = 1 :: String\n"),
        (TypeCheckerError::IncompatibleTypes { lhs: Type::String, rhs: Type::Number }, 4..5)
    );
    assert_eq!(
        error_of("x :: Bool\nx = 1\n"),
        (TypeCheckerError::IncompatibleTypes { lhs: Type::Bool, rhs: Type::Number }, 14..15)
    );
    assert_eq!(
        error_of("x = 1\nx :: Bool\n"),
        (TypeCheckerError::IncompatibleTypes { lhs: Type::Bool, rhs: Type::Number }, 6..15)
    );
}

#[test]
fn names_without_a_value_have_no_type() {
    assert_eq!(error_of("c = rgb\n"), (TypeCheckerError::UnknownType, 4..7));
    assert_eq!(error_of("x = x\n"), (TypeCheckerError::UnknownType, 4..5));
}

#[test]
fn first_error_stops_the_check() {
    assert_eq!(
        error_of("a = !1\nb = -\"x\"\n"),
        (TypeCheckerError::IncompatibleTypes { lhs: Type::Bool, rhs: Type::Number }, 5..6)
    );
}

#[test]
fn type_of_finds_the_type_of_a_name() {
    let (statements, names) = parse("x = 1\ny = \"a\"\n").unwrap();
    let assignment: TypeAssignment = check(&statements).unwrap();
    assert_eq!(assignment.type_of(names.get_from_name("y").unwrap()), Some(&Type::String));
    assert_eq!(assignment.type_of(names.get_from_name("x").unwrap()), Some(&Type::Number));
    assert_eq!(assignment.type_of(names.get_from_name("hsv").unwrap()), None);
}

#[test]
fn checked_programs_run_without_a_mismatch() {
    let sources = [
        "x = 1\ny = 2\nz = x + y\n",
        "f = \\a -> a + 1 :: Int -> Int\nr = f (f 5)\n",
        "g = \\a -> a * 2\nh = \\b -> if b < 1 then g b else b\nr = h 3\n",
        "b = if 1 < 2 then \"yes\" else \"no\"\ns = b + \"!\"\n",
        "k = \\a -> \\b -> a :: Int -> String -> Int\nr = k 1 \"x\" == 1\n",
    ];
    let kernel = |request: easl::interpreter::NumericRequest| -> u64 {
        match request {
            easl::interpreter::NumericRequest::Literal(easl::parser::ast::NumberLiteral::Integer(v)) => {
                (v as f64).to_bits()
            }
            easl::interpreter::NumericRequest::Literal(easl::parser::ast::NumberLiteral::Decimal(t)) => {
                t.parse::<f64>().unwrap().to_bits()
            }
            easl::interpreter::NumericRequest::Arithmetic(_, lhs, rhs) => {
                (f64::from_bits(lhs) + f64::from_bits(rhs)).to_bits()
            }
        }
    };
    for source in sources {
        let (statements, names) = parse(source).unwrap();
        assert!(check(&statements).is_ok(), "{}", source);
        assert!(
            easl::interpreter::interpret(statements, &names, &kernel, 16).is_ok(),
            "{}",
            source
        );
    }
}
