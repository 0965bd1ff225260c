use easl::parser::ast::BinaryOperator;
use easl::parser::ast::Expression;
use easl::parser::ast::Identifier;
use easl::parser::ast::NumberLiteral;
use easl::parser::ast::Primary;
use easl::parser::ast::Statement;
use easl::parser::ast::UnaryOperator;
use easl::parser::parse;
use easl::parser::parser;
use easl::parser::Expected;
use easl::parser::ParserError;
use easl::scan::scan_tokens;
use easl::tc::variant::Type;
use easl::utils::Spanned;

fn at<T>(inner: T) -> Spanned<T> {
    Spanned::new(0..0, inner)
}

fn boxed(inner: Expression) -> Box<Spanned<Expression>> {
    Box::new(at(inner))
}

fn whole(value: i64) -> Expression {
    Expression::Primary(at(Primary::Number(NumberLiteral::Integer(value))))
}

fn var(handle: u64) -> Expression {
    Expression::Variable(Identifier { handle })
}

fn binary(operator: BinaryOperator, lhs: Expression, rhs: Expression) -> Expression {
    Expression::Binary { operator, lhs: boxed(lhs), rhs: boxed(rhs) }
}

fn assign(handle: u64, expr: Expression) -> Spanned<Statement> {
    at(Statement::Assignment { ident: Identifier { handle }, expr: at(expr), type_ascription: None })
}

fn value_of(source: &str) -> Spanned<Expression> {
    let (mut statements, _) = parse(source).unwrap();
    assert_eq!(statements.len(), 1);
    match statements.remove(0).inner {
        Statement::Assignment { expr, .. } => expr,
        other => panic!("no assignment: {:?}", other),
    }
}

#[test]
fn empty_source_has_no_statements() {
    let (statements, names) = parse("").unwrap();
    assert!(statements.is_empty());
    assert_eq!(names.len(), 5);
    let (statements, _) = parse("\n\n# nothing\n").unwrap();
    assert!(statements.is_empty());
}

#[test]
fn three_assignments_parse_in_order() {
    let (statements, names) = parse("x = 1\ny = 2\nz = x + y\n").unwrap();
    assert_eq!(
        statements,
        vec![
            assign(5, whole(1)),
            assign(6, whole(2)),
            assign(7, binary(BinaryOperator::Add, var(5), var(6))),
        ]
    );
    assert_eq!(names.get_from_name("z"), Some(Identifier { handle: 7 }));
    assert_eq!(statements[0].span, 0..5);
    assert_eq!(statements[2].span, 12..21);
}

#[test]
fn last_line_needs_no_line_end() {
    let (statements, _) = parse("x = 1").unwrap();
    assert_eq!(statements, vec![assign(5, whole(1))]);
}

#[test]
fn multiplication_binds_tighter_than_addition() {
    assert_eq!(
        value_of("x = 1 + 2 * 3\n").inner,
        binary(BinaryOperator::Add, whole(1), binary(BinaryOperator::Mul, whole(2), whole(3)))
    );
    assert_eq!(
        value_of("x = 1 * 2 + 3\n").inner,
        binary(BinaryOperator::Add, binary(BinaryOperator::Mul, whole(1), whole(2)), whole(3))
    );
}

#[test]
fn operators_of_one_level_group_to_the_left() {
    assert_eq!(
        value_of("x = 1 - 2 - 3\n").inner,
        binary(BinaryOperator::Sub, binary(BinaryOperator::Sub, whole(1), whole(2)), whole(3))
    );
    assert_eq!(
        value_of("x = 8 / 4 % 3\n").inner,
        binary(BinaryOperator::Remainder, binary(BinaryOperator::Div, whole(8), whole(4)), whole(3))
    );
}

#[test]
fn comparisons_bind_loosest() {
    assert_eq!(
        value_of("x = 1 + 2 == 3\n").inner,
        binary(BinaryOperator::Equivalent, binary(BinaryOperator::Add, whole(1), whole(2)), whole(3))
    );
    assert_eq!(value_of("x = 1 != 2\n").inner, binary(BinaryOperator::NotEquivalent, whole(1), whole(2)));
    assert_eq!(value_of("x = 1 < 2\n").inner, binary(BinaryOperator::LessThan, whole(1), whole(2)));
    assert_eq!(value_of("x = 1 > 2\n").inner, binary(BinaryOperator::GreaterThan, whole(1), whole(2)));
    assert_eq!(value_of("x = 1 <= 2\n").inner, binary(BinaryOperator::LessThanOrEqual, whole(1), whole(2)));
    assert_eq!(
        value_of("x = 1 >= 2\n").inner,
        binary(BinaryOperator::GreaterThanOrEqual, whole(1), whole(2))
    );
}

#[test]
fn parentheses_group_and_widen_the_span() {
    let value = value_of("x = (1 + 2) * 3\n");
    assert_eq!(
        value.inner,
        binary(BinaryOperator::Mul, binary(BinaryOperator::Add, whole(1), whole(2)), whole(3))
    );
    match value.inner {
        Expression::Binary { lhs, rhs, .. } => {
            assert_eq!(lhs.span, 4..11);
            assert_eq!(rhs.span, 14..15);
        }
        other => panic!("no binary: {:?}", other),
    }
    assert_eq!(value.span, 4..15);
}

#[test]
fn prefix_operators_nest() {
    assert_eq!(
        value_of("x = !!True\n").inner,
        Expression::Unary {
            operator: UnaryOperator::Not,
            rhs: boxed(Expression::Unary {
                operator: UnaryOperator::Not,
                rhs: boxed(Expression::Primary(at(Primary::Bool(true)))),
            }),
        }
    );
    assert_eq!(
        value_of("x = -1 - -2\n").inner,
        binary(
            BinaryOperator::Sub,
            Expression::Unary { operator: UnaryOperator::Negative, rhs: boxed(whole(1)) },
            Expression::Unary { operator: UnaryOperator::Negative, rhs: boxed(whole(2)) },
        )
    );
}

#[test]
fn literals_parse_to_primaries() {
    assert_eq!(value_of("x = \"ab\"\n").inner, Expression::Primary(at(Primary::String(String::from("ab")))));
    assert_eq!(value_of("x = ()\n").inner, Expression::Primary(at(Primary::Unit)));
    assert_eq!(value_of("x = False\n").inner, Expression::Primary(at(Primary::Bool(false))));
    assert_eq!(
        value_of("x = 2.50\n").inner,
        Expression::Primary(at(Primary::Number(NumberLiteral::Decimal(String::from("2.50")))))
    );
}

#[test]
fn lambda_binds_its_parameter() {
    let (statements, names) = parse("f = \\a -> a\nr = f 5\n").unwrap();
    let a = names.get_from_name("a").unwrap();
    assert_eq!(a, Identifier { handle: 6 });
    assert_eq!(
        statements,
        vec![
            assign(
                5,
                Expression::Primary(at(Primary::Lambda { param: a, body: boxed(Expression::Variable(a)) }))
            ),
            assign(
                7,
                Expression::FunctionApplication { function: boxed(var(5)), argument: boxed(whole(5)) }
            ),
        ]
    );
}

#[test]
fn application_groups_to_the_left_and_binds_tighter_than_operators() {
    let (statements, _) = parse("f = \\a -> \\b -> a\nr = f 1 2 + 3\n").unwrap();
    let applied = Expression::FunctionApplication {
        function: boxed(Expression::FunctionApplication {
            function: boxed(var(5)),
            argument: boxed(whole(1)),
        }),
        argument: boxed(whole(2)),
    };
    assert_eq!(statements[1], assign(8, binary(BinaryOperator::Add, applied, whole(3))));
}

#[test]
fn conditional_has_three_parts() {
    let value = value_of("b = if True then \"yes\" else \"no\"\n");
    assert_eq!(
        value.inner,
        Expression::If {
            cond: boxed(Expression::Primary(at(Primary::Bool(true)))),
            then_: boxed(Expression::Primary(at(Primary::String(String::from("yes"))))),
            else_: boxed(Expression::Primary(at(Primary::String(String::from("no"))))),
        }
    );
    assert_eq!(value.span, 4..32);
}

#[test]
fn ascription_follows_an_assignment() {
    let (statements, _) = parse("f = \\a -> a :: Int -> Int\n").unwrap();
    match &statements[0].inner {
        Statement::Assignment { type_ascription, .. } => assert_eq!(
            type_ascription,
            &Some(Type::Fun { input: Box::new(Type::Number), output: Box::new(Type::Number) })
        ),
        other => panic!("no assignment: {:?}", other),
    }
    assert_eq!(statements[0].span, 0..25);
}

#[test]
fn ascription_stands_alone() {
    let (statements, names) = parse("x :: [String]\nu :: ()\ng :: Bool -> Color -> Int\nx = 1\n").unwrap();
    let x = names.get_from_name("x").unwrap();
    assert_eq!(
        statements[0],
        at(Statement::TypeAscription { ident: x, type_: Type::Array(Box::new(Type::String)) })
    );
    assert_eq!(
        statements[1],
        at(Statement::TypeAscription { ident: Identifier { handle: 6 }, type_: Type::Unit })
    );
    assert_eq!(
        statements[2],
        at(Statement::TypeAscription {
            ident: Identifier { handle: 7 },
            type_: Type::Fun {
                input: Box::new(Type::Bool),
                output: Box::new(Type::Fun {
                    input: Box::new(Type::Color),
                    output: Box::new(Type::Number)
                }),
            },
        })
    );
    assert_eq!(statements[3], assign(5, whole(1)));
}

#[test]
fn inclusion_names_a_path() {
    let (statements, _) = parse("include \"lib/colors\"\n").unwrap();
    assert_eq!(statements, vec![at(Statement::Include { path: String::from("lib/colors") })]);
    assert_eq!(statements[0].span, 0..20);
}

#[test]
fn second_assignment_to_a_name_is_a_duplicate() {
    assert_eq!(
        parse("x = 1\nx = 2\n").err(),
        Some(vec![ParserError::DuplicateIdentifier { span: 6..11, ident: Identifier { handle: 5 } }])
    );
}

#[test]
fn unknown_name_is_an_error_at_the_name() {
    assert_eq!(
        parse("x = y + 1\n").err(),
        Some(vec![ParserError::UnknownIdentifier { span: 4..5 }])
    );
}

#[test]
fn builtin_names_are_known() {
    let (statements, _) = parse("c = rgb\n").unwrap();
    assert_eq!(statements, vec![assign(5, var(1))]);
}

#[test]
fn every_bad_line_gives_one_error() {
    assert_eq!(
        parse("x = \n y = 2\n= 3\nz = (1\nw = 1 2 )\n").err(),
        Some(vec![
            ParserError::UnexpectedToken { span: 4..5, expected: Expected::Expression },
            ParserError::UnexpectedToken { span: 12..13, expected: Expected::Statement },
            ParserError::UnexpectedToken { span: 22..23, expected: Expected::ClosingParen },
            ParserError::UnexpectedToken { span: 31..32, expected: Expected::EndOfStatement },
        ])
    );
}

#[test]
fn input_that_ends_too_early_is_reported_as_such() {
    assert_eq!(
        parse("x = 1 +").err(),
        Some(vec![ParserError::UnexpectedEndOfInput { span: 7..7, expected: Expected::Expression }])
    );
    assert_eq!(
        parse("x = if True then 1").err(),
        Some(vec![ParserError::UnexpectedEndOfInput { span: 18..18, expected: Expected::Else }])
    );
}

#[test]
fn missing_parts_name_what_was_expected() {
    assert_eq!(
        parse("x = \\ 1\n").err(),
        Some(vec![ParserError::UnexpectedToken { span: 6..7, expected: Expected::Parameter }])
    );
    assert_eq!(
        parse("x = \\a 1\n").err(),
        Some(vec![ParserError::UnexpectedToken { span: 7..8, expected: Expected::Arrow }])
    );
    assert_eq!(
        parse("x = if 1 2\n").err(),
        Some(vec![ParserError::UnexpectedToken { span: 10..11, expected: Expected::Then }])
    );
    assert_eq!(
        parse("x :: Nothing\n").err(),
        Some(vec![ParserError::UnexpectedToken { span: 5..12, expected: Expected::Type }])
    );
    assert_eq!(
        parse("x :: [Int\n").err(),
        Some(vec![ParserError::UnexpectedToken { span: 9..10, expected: Expected::ClosingBracket }])
    );
    assert_eq!(
        parse("x y\n").err(),
        Some(vec![ParserError::UnexpectedToken { span: 2..3, expected: Expected::Definition }])
    );
}

#[test]
fn unterminated_string_is_the_only_error() {
    assert_eq!(
        parse("x = 1\ny = \"open\n").err(),
        Some(vec![ParserError::UnboundedString { err_location: 10 }])
    );
}

#[test]
fn parser_reads_tokens_and_collects_every_error() {
    let tokens = scan_tokens("x = 1\ny = )\nz = x + 2\nx = 3\n").unwrap();
    let (statements, errors, names) = parser(&tokens);
    assert_eq!(statements.len(), 2);
    assert!(statements[0] == assign(5, whole(1)));
    assert!(statements[1] == assign(7, binary(BinaryOperator::Add, var(5), whole(2))));
    assert_eq!(statements[1].span, 12..21);
    assert_eq!(errors.len(), 2);
    assert_eq!(errors[0], ParserError::UnexpectedToken { span: 10..11, expected: Expected::Expression });
    assert_eq!(errors[1], ParserError::DuplicateIdentifier { span: 22..27, ident: Identifier { handle: 5 } });
    assert_eq!(names.get_from_name("x"), Some(Identifier { handle: 5 }));
    assert_eq!(names.get_from_name("y"), Some(Identifier { handle: 6 }));
    assert_eq!(names.get_from_name("z"), Some(Identifier { handle: 7 }));
    assert_eq!(names.len(), 8);
}
