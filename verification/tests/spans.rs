use easl::utils::Spanned;

#[test]
fn new_keeps_span_and_inner() {
    let node = Spanned::new(3..9, "x");
    assert_eq!(node.span, 3..9);
    assert_eq!(node.inner, "x");
}

#[test]
fn add_spans_takes_min_start_and_max_end() {
    let merged = Spanned::add_spans(Spanned::new(4..7, ()), Spanned::new(10..12, ()));
    assert_eq!(merged, 4..12);
}

#[test]
fn add_spans_does_not_depend_on_order() {
    let one = Spanned::add_spans(Spanned::new(4..7, 1), Spanned::new(2..5, 2));
    let other = Spanned::add_spans(Spanned::new(2..5, 2), Spanned::new(4..7, 1));
    assert_eq!(one, 2..7);
    assert_eq!(one, other);
}

#[test]
fn add_spans_of_nested_spans_is_the_outer_span() {
    let merged = Spanned::add_spans(Spanned::new(0..20, ()), Spanned::new(5..6, ()));
    assert_eq!(merged, 0..20);
}

#[test]
fn spanned_equality_ignores_spans() {
    assert!(Spanned::new(0..1, 7) == Spanned::new(5..9, 7));
    assert!(Spanned::new(0..1, 7) != Spanned::new(0..1, 8));
}

#[test]
fn clone_keeps_span_and_inner() {
    let node = Spanned::new(2..5, String::from("x"));
    let copy = node.clone();
    assert_eq!(copy.span, 2..5);
    assert_eq!(copy.inner, "x");
}
