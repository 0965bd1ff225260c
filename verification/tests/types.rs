use easl::tc::variant::Type;
use easl::tc::variant::TypeCheckerError;

fn fun(input: Type, output: Type) -> Type {
    Type::Fun { input: Box::new(input), output: Box::new(output) }
}

#[test]
fn arity_counts_the_parts_of_a_type() {
    assert_eq!(fun(Type::Number, Type::Bool).arity(), 2);
    assert_eq!(Type::Array(Box::new(Type::Number)).arity(), 1);
    assert_eq!(Type::Infer.arity(), 0);
    assert_eq!(Type::String.arity(), 0);
    assert_eq!(Type::Unit.arity(), 0);
}

#[test]
fn top_is_infer() {
    assert_eq!(Type::top(), Type::Infer);
}

#[test]
fn infer_gives_way_to_the_other_side() {
    assert_eq!(Type::meet(Type::Infer, Type::Number), Ok(Type::Number));
    assert_eq!(Type::meet(Type::String, Type::Infer), Ok(Type::String));
    assert_eq!(Type::meet(Type::Infer, Type::Infer), Ok(Type::Infer));
    assert_eq!(
        Type::meet(Type::Infer, fun(Type::Number, Type::Number)),
        Ok(fun(Type::Number, Type::Number))
    );
}

#[test]
fn equal_base_types_meet_in_themselves() {
    assert_eq!(Type::meet(Type::String, Type::String), Ok(Type::String));
    assert_eq!(Type::meet(Type::Number, Type::Number), Ok(Type::Number));
    assert_eq!(Type::meet(Type::Color, Type::Color), Ok(Type::Color));
    assert_eq!(Type::meet(Type::Bool, Type::Bool), Ok(Type::Bool));
    assert_eq!(Type::meet(Type::Unit, Type::Unit), Ok(Type::Unit));
}

#[test]
fn arrays_meet_element_by_element() {
    let known = Type::Array(Box::new(Type::Number));
    let open = Type::Array(Box::new(Type::Infer));
    assert_eq!(Type::meet(open, known), Ok(Type::Array(Box::new(Type::Number))));
    assert_eq!(
        Type::meet(Type::Array(Box::new(Type::Bool)), Type::Array(Box::new(Type::String))),
        Err(TypeCheckerError::IncompatibleTypes { lhs: Type::Bool, rhs: Type::String })
    );
}

#[test]
fn two_function_types_never_meet() {
    assert_eq!(
        Type::meet(fun(Type::Number, Type::Number), fun(Type::Number, Type::Number)),
        Err(TypeCheckerError::MetFunctions)
    );
}

#[test]
fn different_types_are_incompatible() {
    assert_eq!(
        Type::meet(Type::Bool, Type::Number),
        Err(TypeCheckerError::IncompatibleTypes { lhs: Type::Bool, rhs: Type::Number })
    );
    assert_eq!(
        Type::meet(fun(Type::Unit, Type::Unit), Type::Color),
        Err(TypeCheckerError::IncompatibleTypes { lhs: fun(Type::Unit, Type::Unit), rhs: Type::Color })
    );
}

#[test]
fn meet_commutes_on_compatible_types() {
    let pairs = vec![
        (Type::Infer, Type::Bool),
        (Type::Number, Type::Number),
        (Type::Array(Box::new(Type::Infer)), Type::Array(Box::new(Type::Color))),
        (Type::Infer, fun(Type::Bool, Type::Bool)),
    ];
    for (lhs, rhs) in pairs {
        assert_eq!(Type::meet(lhs.clone(), rhs.clone()), Type::meet(rhs, lhs));
    }
}

#[test]
fn meet_of_a_mismatch_names_its_sides_in_order() {
    assert_eq!(
        Type::meet(Type::String, Type::Unit),
        Err(TypeCheckerError::IncompatibleTypes { lhs: Type::String, rhs: Type::Unit })
    );
    assert_eq!(
        Type::meet(Type::Unit, Type::String),
        Err(TypeCheckerError::IncompatibleTypes { lhs: Type::Unit, rhs: Type::String })
    );
}

#[test]
fn resolved_types_hold_no_infer() {
    assert!(Type::Number.resolved());
    assert!(fun(Type::Number, Type::Array(Box::new(Type::Bool))).resolved());
    assert!(!Type::Infer.resolved());
    assert!(!fun(Type::Number, Type::Infer).resolved());
}

#[test]
fn same_as_compares_types() {
    assert!(fun(Type::Number, Type::Bool).same_as(&fun(Type::Number, Type::Bool)));
    assert!(!fun(Type::Number, Type::Bool).same_as(&fun(Type::Bool, Type::Bool)));
    assert!(!Type::Unit.same_as(&Type::Infer));
}
