use easl::scan::create_long_token;
use easl::scan::create_short_token;
use easl::scan::scan;
use easl::scan::scan_tokens;
use easl::scan::ScannerError;
use easl::scan::Token;
use easl::scan::TokenType;

fn kinds(source: &str) -> Vec<TokenType> {
    scan_tokens(source).unwrap().into_iter().map(|token| token.token_type).collect()
}

#[test]
fn empty_source_is_one_eof_token() {
    let tokens = scan_tokens("").unwrap();
    assert_eq!(tokens, vec![Token { token_type: TokenType::Eof, span: 0..0 }]);
}

#[test]
fn assignment_line_gives_spanned_tokens() {
    let tokens = scan_tokens("x = 1\n").unwrap();
    assert_eq!(
        tokens,
        vec![
            Token { token_type: TokenType::Ident(String::from("x")), span: 0..1 },
            Token { token_type: TokenType::Equals, span: 2..3 },
            Token { token_type: TokenType::Int(1), span: 4..5 },
            Token { token_type: TokenType::NewLine, span: 5..6 },
            Token { token_type: TokenType::Eof, span: 6..6 },
        ]
    );
}

#[test]
fn punctuation_splits_words() {
    assert_eq!(
        kinds("a+b*(c-d)/e%f"),
        vec![
            TokenType::Ident(String::from("a")),
            TokenType::Plus,
            TokenType::Ident(String::from("b")),
            TokenType::Star,
            TokenType::LeftParen,
            TokenType::Ident(String::from("c")),
            TokenType::Dash,
            TokenType::Ident(String::from("d")),
            TokenType::RightParen,
            TokenType::Slash,
            TokenType::Ident(String::from("e")),
            TokenType::Percent,
            TokenType::Ident(String::from("f")),
            TokenType::Eof,
        ]
    );
}

#[test]
fn every_short_token_is_recognised() {
    assert_eq!(
        kinds("\\ ( ) [ ] = + - / * % ! < > : & | ^"),
        vec![
            TokenType::Lambda,
            TokenType::LeftParen,
            TokenType::RightParen,
            TokenType::LeftBracket,
            TokenType::RightBracket,
            TokenType::Equals,
            TokenType::Plus,
            TokenType::Dash,
            TokenType::Slash,
            TokenType::Star,
            TokenType::Percent,
            TokenType::Bang,
            TokenType::LeftAngleBracket,
            TokenType::RightAngleBracket,
            TokenType::Colon,
            TokenType::Ampersand,
            TokenType::Bar,
            TokenType::Caret,
            TokenType::Eof,
        ]
    );
}

#[test]
fn keywords_come_before_identifiers() {
    assert_eq!(
        kinds("if then else let in True False iffy"),
        vec![
            TokenType::If,
            TokenType::Then,
            TokenType::Else,
            TokenType::Let,
            TokenType::In,
            TokenType::Bool(true),
            TokenType::Bool(false),
            TokenType::Ident(String::from("iffy")),
            TokenType::Eof,
        ]
    );
}

#[test]
fn numbers_with_a_point_are_decimal_literals() {
    assert_eq!(
        kinds("1.5 12 .5 7. 1.5e3 2.e 1e5 1.2.3"),
        vec![
            TokenType::Float(String::from("1.5")),
            TokenType::Int(12),
            TokenType::Float(String::from(".5")),
            TokenType::Float(String::from("7.")),
            TokenType::Float(String::from("1.5e3")),
            TokenType::Ident(String::from("2.e")),
            TokenType::Ident(String::from("1e5")),
            TokenType::Ident(String::from("1.2.3")),
            TokenType::Eof,
        ]
    );
}

#[test]
fn integers_that_do_not_fit_are_identifiers() {
    assert_eq!(
        kinds("9223372036854775807 9223372036854775808 007"),
        vec![
            TokenType::Int(i64::MAX),
            TokenType::Ident(String::from("9223372036854775808")),
            TokenType::Int(7),
            TokenType::Eof,
        ]
    );
}

#[test]
fn string_literal_runs_to_the_closing_quote() {
    let tokens = scan_tokens("s = \"a # b\" # rest\n").unwrap();
    assert_eq!(
        tokens,
        vec![
            Token { token_type: TokenType::Ident(String::from("s")), span: 0..1 },
            Token { token_type: TokenType::Equals, span: 2..3 },
            Token { token_type: TokenType::String(String::from("a # b")), span: 4..11 },
            Token { token_type: TokenType::NewLine, span: 18..19 },
            Token { token_type: TokenType::Eof, span: 19..19 },
        ]
    );
}

#[test]
fn unterminated_string_is_an_error_at_its_opening_quote() {
    assert_eq!(
        scan_tokens("x = \"abc\ny = 2\n"),
        Err(ScannerError::UnboundedString { err_location: 4 })
    );
    assert!(matches!(
        scan(String::from("\"")),
        Err(ScannerError::UnboundedString { err_location: 0 })
    ));
}

#[test]
fn comment_runs_to_the_end_of_the_line() {
    assert_eq!(
        kinds("# all of this\nx # and this\n"),
        vec![
            TokenType::NewLine,
            TokenType::Ident(String::from("x")),
            TokenType::NewLine,
            TokenType::Eof,
        ]
    );
}

#[test]
fn spans_are_byte_ranges() {
    let tokens = scan_tokens("\"é\" ü+1").unwrap();
    assert_eq!(
        tokens,
        vec![
            Token { token_type: TokenType::String(String::from("é")), span: 0..4 },
            Token { token_type: TokenType::Ident(String::from("ü")), span: 5..7 },
            Token { token_type: TokenType::Plus, span: 7..8 },
            Token { token_type: TokenType::Int(1), span: 8..9 },
            Token { token_type: TokenType::Eof, span: 9..9 },
        ]
    );
}

#[test]
fn tokens_are_handed_out_in_order_and_can_restart() {
    let mut tokens = scan(String::from("a b")).unwrap();
    assert_eq!(tokens.next().unwrap().token_type, TokenType::Ident(String::from("a")));
    assert_eq!(tokens.next().unwrap().token_type, TokenType::Ident(String::from("b")));
    assert_eq!(tokens.next().unwrap().token_type, TokenType::Eof);
    assert_eq!(tokens.next(), None);
    assert_eq!(tokens.next(), None);
    tokens.restart();
    assert_eq!(tokens.next().unwrap().token_type, TokenType::Ident(String::from("a")));
    assert_eq!(tokens.as_vec().len(), 3);
}

#[test]
fn create_long_token_classifies_a_word() {
    assert_eq!(create_long_token("", 0..0), None);
    assert_eq!(
        create_long_token("then", 3..7),
        Some(Token { token_type: TokenType::Then, span: 3..7 })
    );
    assert_eq!(
        create_long_token("42", 0..2),
        Some(Token { token_type: TokenType::Int(42), span: 0..2 })
    );
    assert_eq!(
        create_long_token("4.25", 0..4),
        Some(Token { token_type: TokenType::Float(String::from("4.25")), span: 0..4 })
    );
    assert_eq!(
        create_long_token("a.b", 0..3),
        Some(Token { token_type: TokenType::Ident(String::from("a.b")), span: 0..3 })
    );
    assert_eq!(
        create_long_token("-5", 0..2),
        Some(Token { token_type: TokenType::Ident(String::from("-5")), span: 0..2 })
    );
}

#[test]
fn create_short_token_knows_single_characters() {
    assert_eq!(
        create_short_token('\\', 1..2),
        Some(Token { token_type: TokenType::Lambda, span: 1..2 })
    );
    assert_eq!(
        create_short_token('^', 0..1),
        Some(Token { token_type: TokenType::Caret, span: 0..1 })
    );
    assert_eq!(create_short_token('a', 0..1), None);
    assert_eq!(create_short_token('"', 0..1), None);
    assert_eq!(create_short_token('#', 0..1), None);
}

#[test]
fn token_spans_follow_each_other_inside_the_source() {
    let source = "f = \\a -> a + 1 # é\n\"ü\" ()\n";
    let tokens = scan_tokens(source).unwrap();
    let mut reached = 0;
    for token in &tokens {
        assert!(reached <= token.span.start, "{:?}", token);
        assert!(token.span.start <= token.span.end, "{:?}", token);
        assert!(token.span.end <= source.len(), "{:?}", token);
        reached = token.span.end;
    }
    assert_eq!(reached, source.len());
}

#[test]
fn spans_count_bytes_over_several_lines() {
    let source = "é = \"a\nb\"\r\n\n\tü1 # ö\nz";
    let tokens = scan_tokens(source).unwrap();
    let expected = vec![
        Token { token_type: TokenType::Ident(String::from("é")), span: 0..2 },
        Token { token_type: TokenType::Equals, span: 3..4 },
        Token { token_type: TokenType::String(String::from("a\nb")), span: 5..10 },
        Token { token_type: TokenType::NewLine, span: 11..12 },
        Token { token_type: TokenType::NewLine, span: 12..13 },
        Token { token_type: TokenType::Ident(String::from("ü1")), span: 14..17 },
        Token { token_type: TokenType::NewLine, span: 22..23 },
        Token { token_type: TokenType::Ident(String::from("z")), span: 23..24 },
        Token { token_type: TokenType::Eof, span: 24..24 },
    ];
    assert_eq!(tokens, expected);
    assert_eq!(
        scan_tokens("a\nüü \"b\nc").err(),
        Some(ScannerError::UnboundedString { err_location: 7 })
    );
}
