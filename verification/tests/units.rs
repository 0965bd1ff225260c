use easl::parser::ast::Expression;
use easl::parser::ast::Identifier;
use easl::parser::ast::Statement;
use easl::parser::parse;
use easl::parser::unit::include_unit;
use easl::parser::ParserError;

fn names_of(statements: &[easl::utils::Spanned<Statement>]) -> Vec<Option<u64>> {
    statements
        .iter()
        .map(|statement| match &statement.inner {
            Statement::Assignment { ident, .. } => Some(ident.handle),
            Statement::TypeAscription { ident, .. } => Some(ident.handle),
            Statement::Include { .. } => None,
        })
        .collect()
}

#[test]
fn included_statements_take_the_place_of_the_request() {
    let (host, host_names) = parse("a = 1\ninclude \"lib\"\nb = a\n").unwrap();
    let (included, included_names) = parse("x = 2\ny = x\n").unwrap();
    let (merged, names) = include_unit(host, host_names, 1, &included, &included_names).unwrap();
    assert_eq!(merged.len(), 4);
    let a = names.get_from_name("a").unwrap();
    let b = names.get_from_name("b").unwrap();
    let x = names.get_from_name("x").unwrap();
    let y = names.get_from_name("y").unwrap();
    assert_eq!(
        names_of(&merged),
        vec![Some(a.handle), Some(x.handle), Some(y.handle), Some(b.handle)]
    );
    assert_eq!((a, b, x, y), (
        Identifier { handle: 5 },
        Identifier { handle: 6 },
        Identifier { handle: 7 },
        Identifier { handle: 8 },
    ));
    match &merged[2].inner {
        Statement::Assignment { expr, .. } => assert_eq!(expr.inner, Expression::Variable(x)),
        other => panic!("no assignment: {:?}", other),
    }
    assert_eq!(names.len(), 9);
}

#[test]
fn names_that_both_sources_use_mean_the_same() {
    let (host, host_names) = parse("f = \\v -> v\ninclude \"lib\"\n").unwrap();
    let (included, included_names) = parse("g = \\w -> \\v -> rgb\n").unwrap();
    let (merged, names) = include_unit(host, host_names, 1, &included, &included_names).unwrap();
    let v = names.get_from_name("v").unwrap();
    let w = names.get_from_name("w").unwrap();
    assert_eq!(v, Identifier { handle: 6 });
    assert_eq!(names.get_from_name("rgb"), Some(Identifier { handle: 1 }));
    assert_eq!(names.len(), 9);
    let (again, _) = parse("f = \\v -> v\ng = \\w -> \\v -> rgb\n").unwrap();
    assert_eq!(merged[1].inner, again[1].inner);
    assert_eq!(w, Identifier { handle: 8 });
}

#[test]
fn name_with_a_value_in_both_sources_is_a_duplicate() {
    let (host, host_names) = parse("a = 1\ninclude \"lib\"\n").unwrap();
    let (included, included_names) = parse("z = 0\na = 2\n").unwrap();
    assert_eq!(
        include_unit(host, host_names, 1, &included, &included_names).err(),
        Some(ParserError::DuplicateIdentifier { span: 6..19, ident: Identifier { handle: 5 } })
    );
}

#[test]
fn later_host_assignment_collides_too() {
    let (host, host_names) = parse("include \"lib\"\na = 1\n").unwrap();
    let (included, included_names) = parse("a = 2\n").unwrap();
    assert_eq!(
        include_unit(host, host_names, 0, &included, &included_names).err(),
        Some(ParserError::DuplicateIdentifier { span: 0..13, ident: Identifier { handle: 5 } })
    );
}

#[test]
fn statement_that_is_no_request_is_left_alone() {
    let (host, host_names) = parse("a = 1\nb = 2\n").unwrap();
    let (included, included_names) = parse("x = 2\n").unwrap();
    let (merged, names) = include_unit(host, host_names, 0, &included, &included_names).unwrap();
    assert_eq!(names_of(&merged), vec![Some(5), Some(6)]);
    assert_eq!(names.len(), 7);
    let (host, host_names) = parse("a = 1\n").unwrap();
    let (merged, names) = include_unit(host, host_names, 9, &included, &included_names).unwrap();
    assert_eq!(names_of(&merged), vec![Some(5)]);
    assert_eq!(names.get_from_name("x"), None);
}

#[test]
fn empty_source_replaces_the_request_by_nothing() {
    let (host, host_names) = parse("include \"lib\"\na = 1\n").unwrap();
    let (included, included_names) = parse("").unwrap();
    let (merged, names) = include_unit(host, host_names, 0, &included, &included_names).unwrap();
    assert_eq!(names_of(&merged), vec![Some(5)]);
    assert_eq!(names.len(), 6);
}
