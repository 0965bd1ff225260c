use easl::parser::ast::BinaryOperator;
use easl::parser::ast::Expression;
use easl::parser::ast::Identifier;
use easl::parser::ast::IdentifierMap;
use easl::parser::ast::NumberLiteral;
use easl::parser::ast::Primary;
use easl::parser::ast::Statement;
use easl::parser::ast::UnaryOperator;
use easl::parser::parse;
use easl::parser::printer::unparse;
use easl::tc::variant::Type;
use easl::utils::Spanned;

fn show_type(ty: &Type) -> String {
    match ty {
        Type::String => String::from("String"),
        Type::Number => String::from("Int"),
        Type::Color => String::from("Color"),
        Type::Bool => String::from("Bool"),
        Type::Unit => String::from("()"),
        Type::Array(element) => format!("[{}]", show_type(element)),
        Type::Fun { input, output } => format!("{} -> {}", show_type(input), show_type(output)),
        Type::Infer => panic!("no syntax for an unknown type"),
    }
}

fn show_operator(operator: &BinaryOperator) -> &'static str {
    match operator {
        BinaryOperator::Equivalent => "==",
        BinaryOperator::NotEquivalent => "!=",
        BinaryOperator::GreaterThan => ">",
        BinaryOperator::LessThan => "<",
        BinaryOperator::GreaterThanOrEqual => ">=",
        BinaryOperator::LessThanOrEqual => "<=",
        BinaryOperator::Add => "+",
        BinaryOperator::Sub => "-",
        BinaryOperator::Mul => "*",
        BinaryOperator::Div => "/",
        BinaryOperator::Remainder => "%",
    }
}

fn show(expression: &Expression, names: &IdentifierMap) -> String {
    match expression {
        Expression::If { cond, then_, else_ } => format!(
            "(if {} then {} else {})",
            show(&cond.inner, names),
            show(&then_.inner, names),
            show(&else_.inner, names)
        ),
        Expression::Binary { operator, lhs, rhs } => format!(
            "({} {} {})",
            show(&lhs.inner, names),
            show_operator(operator),
            show(&rhs.inner, names)
        ),
        Expression::Unary { operator, rhs } => format!(
            "({}{})",
            match operator {
                UnaryOperator::Not => "!",
                UnaryOperator::Negative => "-",
            },
            show(&rhs.inner, names)
        ),
        Expression::FunctionApplication { function, argument } => {
            format!("({} {})", show(&function.inner, names), show(&argument.inner, names))
        }
        Expression::Variable(identifier) => names.get(identifier).unwrap().clone(),
        Expression::Primary(primary) => match &primary.inner {
            Primary::Lambda { param, body } => {
                format!("(\\{} -> {})", names.get(param).unwrap(), show(&body.inner, names))
            }
            Primary::String(text) => format!("\"{}\"", text),
            Primary::Number(NumberLiteral::Integer(value)) => format!("{}", value),
            Primary::Number(NumberLiteral::Decimal(text)) => text.clone(),
            Primary::Bool(true) => String::from("True"),
            Primary::Bool(false) => String::from("False"),
            Primary::Unit => String::from("()"),
            Primary::Color(_) => panic!("no syntax for a colour"),
        },
    }
}

fn show_program(statements: &[Spanned<Statement>], names: &IdentifierMap) -> String {
    let mut text = String::new();
    for statement in statements {
        let line = match &statement.inner {
            Statement::Assignment { ident, expr, type_ascription } => {
                let value = show(&expr.inner, names);
                match type_ascription {
                    Some(ty) => format!("{} = {} :: {}", names.get(ident).unwrap(), value, show_type(ty)),
                    None => format!("{} = {}", names.get(ident).unwrap(), value),
                }
            }
            Statement::TypeAscription { ident, type_ } => {
                format!("{} :: {}", names.get(ident).unwrap(), show_type(type_))
            }
            Statement::Include { path } => format!("include \"{}\"", path),
        };
        text.push_str(&line);
        text.push('\n');
    }
    text
}

fn round_trip(source: &str) {
    let (statements, names) = parse(source).unwrap();
    let printed = show_program(&statements, &names);
    let (again, names_again) = parse(&printed).unwrap();
    assert!(statements == again, "{:?} printed as {:?}", source, printed);
    assert_eq!(names.len(), names_again.len());
    for handle in 0..names.len() as u64 {
        let identifier = Identifier { handle };
        assert_eq!(names.get(&identifier), names_again.get(&identifier));
    }
    assert_eq!(show_program(&again, &names_again), printed);
}

#[test]
fn printed_programs_parse_to_the_same_tree() {
    round_trip("");
    round_trip("x = 1\ny = 2\nz = x + y\n");
    round_trip("f = \\a -> a\nr = f 5\n");
    round_trip("b = if True then \"yes\" else \"no\"\n");
    round_trip("s = \"ab\" + \"cd\"\n");
    round_trip("a = 1 + 2 * 3 - 4 / 5 % 6\nb = (1 + 2) * (3 - 4)\n");
    round_trip("a = 1 < 2\nb = 1 <= 2\nc = 1 > 2\nd = 1 >= 2\ne = 1 == 2\nf = 1 != 2\n");
    round_trip("a = !True\nb = - 1\nc = !!False\nd = -(-2.5)\ne = 1 - -1\n");
    round_trip("k = \\a -> \\b -> a b (b a)\nr = k k k\nu = ()\n");
    round_trip("f = \\a -> a + 1 :: Int -> Int\ng :: [String] -> () -> Bool\nh :: Color\n");
    round_trip("include \"lib/base\"\nx = if 1 < 2 then \\a -> a else \\b -> 2 * b\n");
    round_trip("x = 1 # one\n\n\n  y = x # two\n");
    round_trip("w = \\x -> x x\nv = w (\\y -> y) 3.0e2 rgb\n");
}

fn written_again(source: &str) -> String {
    let (statements, names) = parse(source).unwrap();
    let written = unparse(&statements, &names).unwrap();
    let (again, names_again) = parse(&written).unwrap();
    assert!(statements == again, "{:?} written as {:?}", source, written);
    assert_eq!(names.len(), names_again.len());
    for handle in 0..names.len() as u64 {
        let identifier = Identifier { handle };
        assert_eq!(names.get(&identifier), names_again.get(&identifier));
    }
    assert_eq!(unparse(&again, &names_again), Some(written.clone()));
    written
}

#[test]
fn written_programs_parse_to_the_same_tree() {
    assert_eq!(written_again(""), "");
    assert_eq!(written_again("x = 1\ny = 2\nz = x + y\n"), "x = 1 \n y = 2 \n z = ( x + y ) \n ");
    assert_eq!(written_again("f = \\a -> a\nr = f 5\n"), "f = ( \\ a -> a ) \n r = ( f 5 ) \n ");
    assert_eq!(
        written_again("b = if True then \"yes\" else \"no\"\n"),
        "b = ( if True then \"yes\" else \"no\" ) \n "
    );
    assert_eq!(
        written_again("a = 1 + 2 * 3 - 4 / 5 % 6\n"),
        "a = ( ( 1 + ( 2 * 3 ) ) - ( ( 4 / 5 ) % 6 ) ) \n "
    );
    assert_eq!(
        written_again("a = 1 <= 2\nb = 1 != 2\nc = !(1 == 2)\nd = - 1.50\nu = ()\n"),
        "a = ( 1 <= 2 ) \n b = ( 1 != 2 ) \n c = ( ! ( 1 == 2 ) ) \n d = ( - 1.50 ) \n u = ( ) \n "
    );
    assert_eq!(
        written_again("f = \\a -> a + 1 :: Int -> Int\ng :: [String] -> () -> Bool\n"),
        "f = ( \\ a -> ( a + 1 ) ) :: Int -> Int \n g :: [ String ] -> ( ) -> Bool \n "
    );
    assert_eq!(
        written_again("include \"lib/base\"\nx = 007 # seven\n\n"),
        "include \"lib/base\" \n x = 7 \n "
    );
    written_again("k = \\a -> \\b -> a b (b a)\nr = k k k\nw = \\x -> x x\nv = w (\\y -> y) 3.0e2 rgb\n");
    written_again("x = if 1 < 2 then \\a -> a else \\b -> 2 * b\ny = x 9223372036854775807\n");
}

#[test]
fn programs_that_cannot_be_written_give_no_text() {
    let names = IdentifierMap::new();
    let unknown = vec![Spanned::new(
        0..0,
        Statement::Assignment {
            ident: Identifier { handle: 0 },
            expr: Spanned::new(0..0, Expression::Variable(Identifier { handle: 99 })),
            type_ascription: None,
        },
    )];
    assert_eq!(unparse(&unknown, &names), None);
    let negative = vec![Spanned::new(
        0..0,
        Statement::Assignment {
            ident: Identifier { handle: 0 },
            expr: Spanned::new(
                0..0,
                Expression::Primary(Spanned::new(0..0, Primary::Number(NumberLiteral::Integer(-1)))),
            ),
            type_ascription: None,
        },
    )];
    assert_eq!(unparse(&negative, &names), None);
    let untyped = vec![Spanned::new(
        0..0,
        Statement::TypeAscription { ident: Identifier { handle: 0 }, type_: Type::Infer },
    )];
    assert_eq!(unparse(&untyped, &names), None);
    let nested = vec![Spanned::new(
        0..0,
        Statement::TypeAscription {
            ident: Identifier { handle: 0 },
            type_: Type::Fun {
                input: Box::new(Type::Fun {
                    input: Box::new(Type::Bool),
                    output: Box::new(Type::Bool),
                }),
                output: Box::new(Type::Bool),
            },
        },
    )];
    assert_eq!(unparse(&nested, &names), None);
    let fine = vec![Spanned::new(
        0..0,
        Statement::TypeAscription { ident: Identifier { handle: 0 }, type_: Type::Bool },
    )];
    assert_eq!(unparse(&fine, &names), Some(String::from("hsv :: Bool \n ")));
}
