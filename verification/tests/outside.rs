use easl::interpreter::Value;
use easl::parser::ast::Color;
use easl::scan::scan_tokens;
use easl::scan::TokenType;
use miette::SourceOffset;
use palette::white_point::D65;
use palette::Xyza;

fn color(x: f64, y: f64, z: f64, alpha: f64) -> Color {
    Color { x: x.to_bits(), y: y.to_bits(), z: z.to_bits(), alpha: alpha.to_bits() }
}

fn palette_color(x: f64, y: f64, z: f64, alpha: f64) -> Xyza<D65, f64> {
    Xyza::new(x, y, z, alpha)
}

#[test]
fn colours_are_equal_as_palette_colours_are() {
    let parts = [0.0, -0.0, 0.25, 1.0, f64::NAN, f64::INFINITY];
    for &x in &parts {
        for &y in &parts {
            for &alpha in &parts {
                let one = (x, 0.5, y, 1.0);
                let other = (y, 0.5, x, alpha);
                let in_library = Value::Color(color(one.0, one.1, one.2, one.3))
                    .equals(&Value::Color(color(other.0, other.1, other.2, other.3)));
                let in_palette = palette_color(one.0, one.1, one.2, one.3)
                    == palette_color(other.0, other.1, other.2, other.3);
                assert_eq!(in_library, in_palette, "{:?} == {:?}", one, other);
            }
        }
    }
}

#[test]
fn token_spans_start_at_the_offset_of_their_line_and_column() {
    let source = "x = 1\nyé = \"a\" # é\n  z\n";
    let tokens = scan_tokens(source).unwrap();
    let places = [
        (1, 1),
        (1, 3),
        (1, 5),
        (1, 6),
        (2, 1),
        (2, 4),
        (2, 6),
        (2, 13),
        (3, 3),
        (3, 4),
    ];
    assert_eq!(tokens.len(), places.len() + 1);
    for (token, (line, column)) in tokens.iter().zip(places) {
        assert_eq!(
            token.span.start,
            SourceOffset::from_location(source, line, column).offset(),
            "{:?}",
            token
        );
    }
    assert_eq!(tokens[tokens.len() - 1].token_type, TokenType::Eof);
    assert_eq!(tokens[tokens.len() - 1].span, source.len()..source.len());
}

#[test]
fn tokens_end_with_the_only_eof_token() {
    for source in ["", "a", "a b\n", "# c", "\"s\"\n\n", "1 + 2 # x\ny"] {
        let tokens = scan_tokens(source).unwrap();
        let count = tokens.iter().filter(|token| token.token_type == TokenType::Eof).count();
        assert_eq!(count, 1, "{:?}", source);
        assert_eq!(tokens.last().unwrap().token_type, TokenType::Eof);
    }
}
