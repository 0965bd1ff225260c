use easl::parser::ast::Identifier;
use easl::parser::ast::IdentifierMap;
use easl::parser::ast::UnwrapSameTypes;

#[test]
fn new_table_holds_the_builtin_names_in_order() {
    let table = IdentifierMap::new();
    assert_eq!(table.len(), 5);
    assert_eq!(table.get_from_name("hsv"), Some(Identifier { handle: 0 }));
    assert_eq!(table.get_from_name("rgb"), Some(Identifier { handle: 1 }));
    assert_eq!(table.get_from_name("cmy"), Some(Identifier { handle: 2 }));
    assert_eq!(table.get_from_name("xyz"), Some(Identifier { handle: 3 }));
    assert_eq!(table.get_from_name("alpha"), Some(Identifier { handle: 4 }));
}

#[test]
fn declaring_a_new_name_gives_the_next_handle() {
    let mut table = IdentifierMap::new();
    assert_eq!(table.create_identifier(String::from("x")), Ok(Identifier { handle: 5 }));
    assert_eq!(table.create_identifier(String::from("y")), Ok(Identifier { handle: 6 }));
    assert_eq!(table.len(), 7);
}

#[test]
fn declaring_a_name_twice_is_rejected_the_second_time() {
    let mut table = IdentifierMap::new();
    let first = table.create_identifier(String::from("x"));
    let second = table.create_identifier(String::from("x"));
    assert_eq!(first, Ok(Identifier { handle: 5 }));
    assert_eq!(second, Err(Identifier { handle: 5 }));
    assert_eq!(table.len(), 6);
}

#[test]
fn declaring_a_builtin_name_is_rejected() {
    let mut table = IdentifierMap::new();
    assert_eq!(table.create_identifier(String::from("rgb")), Err(Identifier { handle: 1 }));
}

#[test]
fn interning_twice_gives_the_same_handle() {
    let mut table = IdentifierMap::new();
    let first = table.create_identifier(String::from("name")).always_ok();
    let second = table.create_identifier(String::from("name")).always_ok();
    assert_eq!(first, second);
}

#[test]
fn get_returns_the_name_of_a_handle() {
    let mut table = IdentifierMap::new();
    let handle = table.create_identifier(String::from("width")).always_ok();
    assert_eq!(table.get(&handle), Some(&String::from("width")));
    assert_eq!(table.get(&Identifier { handle: 2 }), Some(&String::from("cmy")));
    assert_eq!(table.get(&Identifier { handle: 99 }), None);
}

#[test]
fn get_from_name_of_an_unknown_name_is_none() {
    let table = IdentifierMap::new();
    assert_eq!(table.get_from_name("nothing"), None);
}

#[test]
fn always_ok_takes_either_side() {
    let ok: Result<u8, u8> = Ok(1);
    let err: Result<u8, u8> = Err(2);
    assert_eq!(ok.always_ok(), 1);
    assert_eq!(err.always_ok(), 2);
}

#[test]
fn a_name_keeps_its_handle_when_others_are_declared() {
    let mut table = IdentifierMap::new();
    let first = table.create_identifier(String::from("first")).always_ok();
    for name in ["a", "b", "first", "c", "hsv"] {
        let _ = table.create_identifier(String::from(name));
        assert_eq!(table.get_from_name("first"), Some(first));
        assert_eq!(table.get_from_name("alpha"), Some(Identifier { handle: 4 }));
    }
}

#[test]
fn duplicate_holds_the_same_names_with_the_same_handles() {
    let mut table = IdentifierMap::new();
    let x = table.create_identifier(String::from("x")).always_ok();
    let copy = table.duplicate();
    assert_eq!(copy.len(), table.len());
    assert_eq!(copy.get_from_name("x"), Some(x));
    assert_eq!(copy.get(&Identifier { handle: 0 }), Some(&String::from("hsv")));
    let y = table.create_identifier(String::from("y")).always_ok();
    assert_eq!(copy.get(&y), None);
}
