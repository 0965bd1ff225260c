//! Parsing of source text into spanned statements.

pub mod ast;
pub mod grammar;
pub mod passes;
pub mod printer;
pub mod reparse;
pub mod rescan;
pub mod roundtrip;
pub mod unit;

use crate::parser::ast::BinaryOperator;
use crate::parser::ast::Expression;
use crate::parser::ast::ExpressionModel;
use crate::parser::ast::Identifier;
use crate::parser::ast::IdentifierMap;
use crate::parser::ast::NumberLiteral;
use crate::parser::ast::Primary;
use crate::parser::ast::Statement;
use crate::parser::ast::StatementModel;
use crate::parser::ast::UnaryOperator;
use crate::parser::ast::UnwrapSameTypes;
use crate::parser::ast::statement_models;
use crate::parser::grammar::Parsed;
use crate::parser::grammar::ParsedFile;
use crate::parser::grammar::ParsedStatement;
use crate::parser::grammar::ParserState;
use crate::parser::grammar::adjacent;
use crate::parser::grammar::application_rest;
use crate::parser::grammar::binary_rest;
use crate::parser::grammar::initial_state;
use crate::parser::grammar::is_arrow;
use crate::parser::grammar::is_ascription;
use crate::parser::grammar::kind_at;
use crate::parser::grammar::line_rest;
use crate::parser::grammar::operator_at;
use crate::parser::grammar::parse_application;
use crate::parser::grammar::parse_assignment;
use crate::parser::grammar::parse_base_type;
use crate::parser::grammar::parse_binary;
use crate::parser::grammar::parse_conditional;
use crate::parser::grammar::parse_expression;
use crate::parser::grammar::parse_lines;
use crate::parser::grammar::parse_atom;
use crate::parser::grammar::parse_group;
use crate::parser::grammar::parse_lambda;
use crate::parser::grammar::parse_primary;
use crate::parser::grammar::parse_statement;
use crate::parser::grammar::parse_text;
use crate::parser::grammar::parse_type;
use crate::parser::grammar::parse_unary;
use crate::parser::grammar::remaining;
use crate::parser::grammar::span_at;
use crate::parser::grammar::unexpected;
use crate::scan::ScannerError;
use crate::scan::Token;
use crate::scan::TokenType;
use crate::scan::scan_tokens;
use crate::scan::token_models;
use crate::tc::variant::Type;
use crate::utils::Spanned;
use std::ops::Range;
use vstd::prelude::*;
use vstd::string::StringExecFns;

verus! {

/// What the parser was looking for where it gave up.
#[derive(Debug, Clone, Copy, PartialEq, Eq, Structural)]
pub enum Expected {
    /// The start of an expression: a literal, a name, `(`, `\`, `!`, `-`
    /// or `if`.
    Expression,
    /// A type: `String`, `Int`, `Color`, `Bool`, `()` or `[`.
    Type,
    /// The name that a lambda binds.
    Parameter,
    /// `->` after the parameter of a lambda.
    Arrow,
    /// `then` after the condition of a conditional.
    Then,
    /// `else` after the first branch of a conditional.
    Else,
    /// `)`.
    ClosingParen,
    /// `]`.
    ClosingBracket,
    /// The name that starts a statement.
    Statement,
    /// `=`, `::` or a path after the name that starts a statement.
    Definition,
    /// The end of the line.
    EndOfStatement,
}

/// Why a source text is no program.
#[derive(Debug, PartialEq, Eq)]
pub enum ParserError {
    /// The token at `span` cannot stand where it does.
    UnexpectedToken { span: Range<usize>, expected: Expected },
    /// The input ends at `span`, where more was needed.
    UnexpectedEndOfInput { span: Range<usize>, expected: Expected },
    /// The assignment at `span` gives a value to a name that has one.
    DuplicateIdentifier { span: Range<usize>, ident: Identifier },
    /// The name at `span` has not been declared.
    UnknownIdentifier { span: Range<usize> },
    /// A string literal that starts at the byte offset `err_location` is
    /// never closed.
    UnboundedString { err_location: usize },
}

/// The kind of the token at `pos`, if there is one.
fn kind_of<'a>(tokens: &'a Vec<Token>, pos: usize) -> (out: Option<&'a TokenType>)
    ensures
        match out {
            Some(kind) => pos < tokens@.len() <= usize::MAX && *kind == tokens@[pos
                as int].token_type && kind@ == kind_at(token_models(tokens@), pos as int),
            None => pos >= tokens@.len() && kind_at(token_models(tokens@), pos as int) is Eof,
        },
{
    if pos < tokens.len() {
        Some(&tokens[pos].token_type)
    } else {
        None
    }
}

/// The span of the token at `pos`; see [`span_at`].
fn span_of(tokens: &Vec<Token>, pos: usize) -> (out: Range<usize>)
    ensures
        out == span_at(token_models(tokens@), pos as int),
{
    if pos < tokens.len() {
        tokens[pos].span.start..tokens[pos].span.end
    } else if tokens.len() > 0 {
        let last = tokens.len() - 1;
        proof {
            assert(token_models(tokens@).last() == tokens@[last as int]@);
        }
        tokens[last].span.end..tokens[last].span.end
    } else {
        0..0
    }
}

/// Whether the tokens at `pos` and behind it touch; see [`adjacent`].
fn touching(tokens: &Vec<Token>, pos: usize) -> (out: bool)
    ensures
        out == adjacent(token_models(tokens@), pos as int),
        out ==> pos + 1 < tokens@.len() <= usize::MAX,
{
    pos < tokens.len() && pos + 1 < tokens.len() && tokens[pos].span.end == tokens[pos
        + 1].span.start
}

/// Whether `->` stands at `pos`.
fn arrow_at(tokens: &Vec<Token>, pos: usize) -> (out: bool)
    ensures
        out == is_arrow(token_models(tokens@), pos as int),
        out ==> pos + 1 < tokens@.len() <= usize::MAX,
{
    if !touching(tokens, pos) {
        return false;
    }
    match (&tokens[pos].token_type, &tokens[pos + 1].token_type) {
        (TokenType::Dash, TokenType::RightAngleBracket) => true,
        _ => false,
    }
}

/// Whether `::` stands at `pos`.
fn ascription_at(tokens: &Vec<Token>, pos: usize) -> (out: bool)
    ensures
        out == is_ascription(token_models(tokens@), pos as int),
        out ==> pos + 1 < tokens@.len() <= usize::MAX,
{
    if !touching(tokens, pos) {
        return false;
    }
    match (&tokens[pos].token_type, &tokens[pos + 1].token_type) {
        (TokenType::Colon, TokenType::Colon) => true,
        _ => false,
    }
}

/// The error for the token at `pos`, where `expected` was needed.
fn unexpected_at(tokens: &Vec<Token>, pos: usize, expected: Expected) -> (out: ParserError)
    ensures
        out == unexpected(token_models(tokens@), pos as int, expected),
{
    let span = span_of(tokens, pos);
    match kind_of(tokens, pos) {
        None => ParserError::UnexpectedEndOfInput { span, expected },
        Some(TokenType::Eof) => ParserError::UnexpectedEndOfInput { span, expected },
        Some(_) => ParserError::UnexpectedToken { span, expected },
    }
}

/// The binary operator of the level `level` at `pos`; see [`operator_at`].
fn operator_here(tokens: &Vec<Token>, pos: usize, level: u8) -> (out: Option<
    (BinaryOperator, usize),
>)
    ensures
        match out {
            Some((operator, wide)) => operator_at(token_models(tokens@), pos as int, level as nat)
                == Some((operator, wide as nat)) && pos + 1 + wide <= tokens@.len(),
            None => operator_at(token_models(tokens@), pos as int, level as nat) is None,
        },
{
    let kind = match kind_of(tokens, pos) {
        Some(kind) => kind,
        None => {
            return None;
        },
    };
    let follows = touching(tokens, pos) && match &tokens[pos + 1].token_type {
        TokenType::Equals => true,
        _ => false,
    };
    if level == 3 {
        match kind {
            TokenType::Equals => if follows {
                Some((BinaryOperator::Equivalent, 1))
            } else {
                None
            },
            TokenType::Bang => if follows {
                Some((BinaryOperator::NotEquivalent, 1))
            } else {
                None
            },
            TokenType::LeftAngleBracket => if follows {
                Some((BinaryOperator::LessThanOrEqual, 1))
            } else {
                Some((BinaryOperator::LessThan, 0))
            },
            TokenType::RightAngleBracket => if follows {
                Some((BinaryOperator::GreaterThanOrEqual, 1))
            } else {
                Some((BinaryOperator::GreaterThan, 0))
            },
            _ => None,
        }
    } else if level == 2 {
        match kind {
            TokenType::Plus => Some((BinaryOperator::Add, 0)),
            TokenType::Dash => Some((BinaryOperator::Sub, 0)),
            _ => None,
        }
    } else if level == 1 {
        match kind {
            TokenType::Star => Some((BinaryOperator::Mul, 0)),
            TokenType::Slash => Some((BinaryOperator::Div, 0)),
            TokenType::Percent => Some((BinaryOperator::Remainder, 0)),
            _ => None,
        }
    } else {
        None
    }
}

/// Whether what an executable parser returned, `out`, is what the grammar
/// gives, `parsed`: the same names, and the same expression ending at the
/// same token, or the same error.
pub open spec fn agrees(
    parsed: Parsed<Spanned<ExpressionModel>>,
    pos: usize,
    len: nat,
    names: Seq<Seq<char>>,
    out: Result<(Spanned<Expression>, usize), ParserError>,
) -> bool {
    &&& parsed.names == names
    &&& match out {
        Ok((value, end)) => pos < end <= len && parsed.outcome == Ok::<
            (Spanned<ExpressionModel>, nat),
            ParserError,
        >((value@, (end - pos - 1) as nat)),
        Err(error) => parsed.outcome == Err::<(Spanned<ExpressionModel>, nat), ParserError>(error),
    }
}

/// As [`agrees`], for a part that may cover no token at all.
pub open spec fn rest_agrees(
    parsed: Parsed<Spanned<ExpressionModel>>,
    pos: usize,
    len: nat,
    names: Seq<Seq<char>>,
    out: Result<(Spanned<Expression>, usize), ParserError>,
) -> bool {
    &&& parsed.names == names
    &&& match out {
        Ok((value, end)) => pos <= end <= len && parsed.outcome == Ok::<
            (Spanned<ExpressionModel>, nat),
            ParserError,
        >((value@, (end - pos) as nat)),
        Err(error) => parsed.outcome == Err::<(Spanned<ExpressionModel>, nat), ParserError>(error),
    }
}

/// An expression made of the primary `primary`.
fn primary_node(span: Range<usize>, primary: Primary) -> (out: Spanned<Expression>)
    ensures
        out@ == crate::parser::grammar::primary_expression(span, primary@),
{
    let inner = Spanned { span: span.start..span.end, inner: primary };
    Spanned { span, inner: Expression::Primary(inner) }
}

/// Reads what stands behind the `(` at `pos`: `)` or an expression and
/// `)`.
fn read_group(tokens: &Vec<Token>, pos: usize, interner: &mut IdentifierMap) -> (out: Result<
    (Spanned<Expression>, usize),
    ParserError,
>)
    requires
        kind_at(token_models(tokens@), pos as int) is LeftParen,
    ensures
        agrees(
            parse_group(token_models(tokens@), pos as int, old(interner)@),
            pos,
            tokens@.len(),
            final(interner)@,
            out,
        ),
    decreases remaining(token_models(tokens@), pos as int), 0nat, 0nat,
{
    reveal(parse_group);
    reveal(parse_expression);
    let count = tokens.len();
    let span = span_of(tokens, pos);
    let closes = match kind_of(tokens, pos + 1) {
        Some(TokenType::RightParen) => true,
        _ => false,
    };
    if closes {
        let close = span_of(tokens, pos + 1);
        return Ok((primary_node(span.start..close.end, Primary::Unit), pos + 2));
    }
    match read_expression(tokens, pos + 1, interner) {
        Err(error) => Err(error),
        Ok((value, end)) => {
            let closed = match kind_of(tokens, end) {
                Some(TokenType::RightParen) => true,
                _ => false,
            };
            if closed {
                let close = span_of(tokens, end);
                Ok((Spanned { span: span.start..close.end, inner: value.inner }, end + 1))
            } else {
                Err(unexpected_at(tokens, end, Expected::ClosingParen))
            }
        },
    }
}

/// Reads what stands behind the `\` at `pos`: a name, `->` and a body.
fn read_lambda(tokens: &Vec<Token>, pos: usize, interner: &mut IdentifierMap) -> (out: Result<
    (Spanned<Expression>, usize),
    ParserError,
>)
    requires
        kind_at(token_models(tokens@), pos as int) is Lambda,
    ensures
        agrees(
            parse_lambda(token_models(tokens@), pos as int, old(interner)@),
            pos,
            tokens@.len(),
            final(interner)@,
            out,
        ),
    decreases remaining(token_models(tokens@), pos as int), 0nat, 0nat,
{
    reveal(parse_lambda);
    reveal(parse_expression);
    let count = tokens.len();
    let span = span_of(tokens, pos);
    let name = match kind_of(tokens, pos + 1) {
        Some(TokenType::Ident(name)) => name,
        _ => {
            return Err(unexpected_at(tokens, pos + 1, Expected::Parameter));
        },
    };
    if !arrow_at(tokens, pos + 2) {
        return Err(unexpected_at(tokens, pos + 2, Expected::Arrow));
    }
    let param = interner.create_identifier(name.clone()).always_ok();
    match read_expression(tokens, pos + 4, interner) {
        Err(error) => Err(error),
        Ok((value, end)) => {
            let whole = span.start..value.span.end;
            Ok((primary_node(whole, Primary::Lambda { param, body: Box::new(value) }), end))
        },
    }
}

/// Reads the primary at `pos`; see [`parse_primary`].
fn read_primary(tokens: &Vec<Token>, pos: usize, interner: &mut IdentifierMap) -> (out: Result<
    (Spanned<Expression>, usize),
    ParserError,
>)
    ensures
        agrees(
            parse_primary(token_models(tokens@), pos as int, old(interner)@),
            pos,
            tokens@.len(),
            final(interner)@,
            out,
        ),
    decreases remaining(token_models(tokens@), pos as int), 1nat, 0nat,
{
    reveal(parse_primary);
    reveal(parse_group);
    reveal(parse_lambda);
    reveal(parse_atom);
    let span = span_of(tokens, pos);
    let kind = match kind_of(tokens, pos) {
        Some(kind) => kind,
        None => {
            return Err(unexpected_at(tokens, pos, Expected::Expression));
        },
    };
    match kind {
        TokenType::Int(value) => Ok(
            (primary_node(span, Primary::Number(NumberLiteral::Integer(*value))), pos + 1),
        ),
        TokenType::Float(text) => Ok(
            (primary_node(span, Primary::Number(NumberLiteral::Decimal(text.clone()))), pos + 1),
        ),
        TokenType::String(text) => Ok((primary_node(span, Primary::String(text.clone())), pos + 1)),
        TokenType::Bool(value) => Ok((primary_node(span, Primary::Bool(*value)), pos + 1)),
        TokenType::Ident(name) => match interner.get_from_name(name.as_str()) {
            Some(identifier) => Ok(
                (Spanned { span, inner: Expression::Variable(identifier) }, pos + 1),
            ),
            None => Err(ParserError::UnknownIdentifier { span }),
        },
        TokenType::LeftParen => read_group(tokens, pos, interner),
        TokenType::Lambda => read_lambda(tokens, pos, interner),
        _ => Err(unexpected_at(tokens, pos, Expected::Expression)),
    }
}

/// Reads the arguments at `pos` and applies `function` to them; see
/// [`application_rest`].
fn read_application_rest(
    tokens: &Vec<Token>,
    pos: usize,
    interner: &mut IdentifierMap,
    function: Spanned<Expression>,
) -> (out: Result<(Spanned<Expression>, usize), ParserError>)
    requires
        pos <= tokens@.len(),
    ensures
        rest_agrees(
            application_rest(token_models(tokens@), pos as int, old(interner)@, function@),
            pos,
            tokens@.len(),
            final(interner)@,
            out,
        ),
    decreases remaining(token_models(tokens@), pos as int), 2nat, 0nat,
{
    reveal(application_rest);
    reveal(parse_primary);
    let count = tokens.len();
    let starts = match kind_of(tokens, pos) {
        Some(TokenType::Ident(_)) => true,
        Some(TokenType::Int(_)) => true,
        Some(TokenType::Float(_)) => true,
        Some(TokenType::String(_)) => true,
        Some(TokenType::Bool(_)) => true,
        Some(TokenType::LeftParen) => true,
        Some(TokenType::Lambda) => true,
        _ => false,
    };
    if !starts {
        return Ok((function, pos));
    }
    match read_primary(tokens, pos, interner) {
        Err(error) => Err(error),
        Ok((argument, end)) => {
            let span = Spanned::add_spans(
                Spanned { span: function.span.start..function.span.end, inner: () },
                Spanned { span: argument.span.start..argument.span.end, inner: () },
            );
            let applied = Spanned {
                span,
                inner: Expression::FunctionApplication {
                    function: Box::new(function),
                    argument: Box::new(argument),
                },
            };
            read_application_rest(tokens, end, interner, applied)
        },
    }
}

/// Reads the application at `pos`; see [`parse_application`].
fn read_application(tokens: &Vec<Token>, pos: usize, interner: &mut IdentifierMap) -> (out: Result<
    (Spanned<Expression>, usize),
    ParserError,
>)
    ensures
        agrees(
            parse_application(token_models(tokens@), pos as int, old(interner)@),
            pos,
            tokens@.len(),
            final(interner)@,
            out,
        ),
    decreases remaining(token_models(tokens@), pos as int), 3nat, 0nat,
{
    reveal(parse_application);
    reveal(parse_primary);
    reveal(application_rest);
    match read_primary(tokens, pos, interner) {
        Err(error) => Err(error),
        Ok((function, end)) => read_application_rest(tokens, end, interner, function),
    }
}

/// Reads the operand at `pos` with its prefix operators; see
/// [`parse_unary`].
fn read_unary(tokens: &Vec<Token>, pos: usize, interner: &mut IdentifierMap) -> (out: Result<
    (Spanned<Expression>, usize),
    ParserError,
>)
    ensures
        agrees(
            parse_unary(token_models(tokens@), pos as int, old(interner)@),
            pos,
            tokens@.len(),
            final(interner)@,
            out,
        ),
    decreases remaining(token_models(tokens@), pos as int), 4nat, 0nat,
{
    reveal(parse_unary);
    reveal(parse_application);
    let count = tokens.len();
    let operator = match kind_of(tokens, pos) {
        Some(TokenType::Bang) => UnaryOperator::Not,
        Some(TokenType::Dash) => UnaryOperator::Negative,
        _ => {
            return read_application(tokens, pos, interner);
        },
    };
    let span = span_of(tokens, pos);
    match read_unary(tokens, pos + 1, interner) {
        Err(error) => Err(error),
        Ok((rhs, end)) => Ok(
            (
                Spanned {
                    span: span.start..rhs.span.end,
                    inner: Expression::Unary { operator, rhs: Box::new(rhs) },
                },
                end,
            ),
        ),
    }
}

/// Reads the rest of a chain of the level `level`; see [`binary_rest`].
fn read_binary_rest(
    tokens: &Vec<Token>,
    pos: usize,
    interner: &mut IdentifierMap,
    level: u8,
    lhs: Spanned<Expression>,
) -> (out: Result<(Spanned<Expression>, usize), ParserError>)
    requires
        pos <= tokens@.len(),
    ensures
        rest_agrees(
            binary_rest(token_models(tokens@), pos as int, old(interner)@, level as nat, lhs@),
            pos,
            tokens@.len(),
            final(interner)@,
            out,
        ),
    decreases remaining(token_models(tokens@), pos as int), 0nat, 0nat,
{
    reveal(binary_rest);
    reveal(parse_binary);
    let count = tokens.len();
    let (operator, wide) = match operator_here(tokens, pos, level) {
        Some(found) => found,
        None => {
            return Ok((lhs, pos));
        },
    };
    if level < 1 || level > 3 {
        return Ok((lhs, pos));
    }
    match read_binary(tokens, pos + 1 + wide, interner, level - 1) {
        Err(error) => Err(error),
        Ok((rhs, end)) => {
            let span = Spanned::add_spans(
                Spanned { span: lhs.span.start..lhs.span.end, inner: () },
                Spanned { span: rhs.span.start..rhs.span.end, inner: () },
            );
            let joined = Spanned {
                span,
                inner: Expression::Binary { operator, lhs: Box::new(lhs), rhs: Box::new(rhs) },
            };
            read_binary_rest(tokens, end, interner, level, joined)
        },
    }
}

/// Reads the chain of the level `level` at `pos`; see [`parse_binary`].
fn read_binary(tokens: &Vec<Token>, pos: usize, interner: &mut IdentifierMap, level: u8) -> (out:
    Result<(Spanned<Expression>, usize), ParserError>)
    ensures
        agrees(
            parse_binary(token_models(tokens@), pos as int, old(interner)@, level as nat),
            pos,
            tokens@.len(),
            final(interner)@,
            out,
        ),
    decreases remaining(token_models(tokens@), pos as int), 5 + level, 0nat,
{
    reveal(parse_binary);
    reveal(parse_unary);
    reveal(binary_rest);
    if level == 0 || level > 3 {
        return read_unary(tokens, pos, interner);
    }
    match read_binary(tokens, pos, interner, level - 1) {
        Err(error) => Err(error),
        Ok((lhs, end)) => read_binary_rest(tokens, end, interner, level, lhs),
    }
}

/// Reads the expression at `pos`; see [`parse_expression`].
fn read_expression(tokens: &Vec<Token>, pos: usize, interner: &mut IdentifierMap) -> (out: Result<
    (Spanned<Expression>, usize),
    ParserError,
>)
    ensures
        agrees(
            parse_expression(token_models(tokens@), pos as int, old(interner)@),
            pos,
            tokens@.len(),
            final(interner)@,
            out,
        ),
    decreases remaining(token_models(tokens@), pos as int), 10nat, 0nat,
{
    reveal(parse_expression);
    reveal(parse_conditional);
    reveal(parse_binary);
    let count = tokens.len();
    let conditional = match kind_of(tokens, pos) {
        Some(TokenType::If) => true,
        _ => false,
    };
    if !conditional {
        return read_binary(tokens, pos, interner, 3);
    }
    let span = span_of(tokens, pos);
    let (cond, then_at) = match read_expression(tokens, pos + 1, interner) {
        Err(error) => {
            return Err(error);
        },
        Ok(found) => found,
    };
    let has_then = match kind_of(tokens, then_at) {
        Some(TokenType::Then) => true,
        _ => false,
    };
    if !has_then {
        return Err(unexpected_at(tokens, then_at, Expected::Then));
    }
    let (then_, else_at) = match read_expression(tokens, then_at + 1, interner) {
        Err(error) => {
            return Err(error);
        },
        Ok(found) => found,
    };
    let has_else = match kind_of(tokens, else_at) {
        Some(TokenType::Else) => true,
        _ => false,
    };
    if !has_else {
        return Err(unexpected_at(tokens, else_at, Expected::Else));
    }
    let (else_, end) = match read_expression(tokens, else_at + 1, interner) {
        Err(error) => {
            return Err(error);
        },
        Ok(found) => found,
    };
    Ok(
        (
            Spanned {
                span: span.start..else_.span.end,
                inner: Expression::If {
                    cond: Box::new(cond),
                    then_: Box::new(then_),
                    else_: Box::new(else_),
                },
            },
            end,
        ),
    )
}

/// Whether `text` is the word `word`.
fn text_is(text: &String, word: &str) -> (out: bool)
    ensures
        out == (text@ == word@),
{
    let owned = String::from_str(word);
    *text == owned
}

/// Whether what an executable type parser returned is what the grammar
/// gives.
pub open spec fn type_agrees(
    parsed: Result<(Type, nat), ParserError>,
    pos: usize,
    len: nat,
    out: Result<(Type, usize), ParserError>,
) -> bool {
    match out {
        Ok((value, end)) => pos < end <= len && parsed == Ok::<(Type, nat), ParserError>(
            (value, (end - pos - 1) as nat),
        ),
        Err(error) => parsed == Err::<(Type, nat), ParserError>(error),
    }
}

/// Reads the base type at `pos`; see [`parse_base_type`].
fn read_base_type(tokens: &Vec<Token>, pos: usize) -> (out: Result<(Type, usize), ParserError>)
    ensures
        type_agrees(parse_base_type(token_models(tokens@), pos as int), pos, tokens@.len(), out),
    decreases remaining(token_models(tokens@), pos as int), 0nat,
{
    let kind = match kind_of(tokens, pos) {
        Some(kind) => kind,
        None => {
            return Err(unexpected_at(tokens, pos, Expected::Type));
        },
    };
    match kind {
        TokenType::Ident(name) => if text_is(name, "String") {
            Ok((Type::String, pos + 1))
        } else if text_is(name, "Int") {
            Ok((Type::Number, pos + 1))
        } else if text_is(name, "Color") {
            Ok((Type::Color, pos + 1))
        } else if text_is(name, "Bool") {
            Ok((Type::Bool, pos + 1))
        } else {
            Err(unexpected_at(tokens, pos, Expected::Type))
        },
        TokenType::LeftParen => {
            let closes = match kind_of(tokens, pos + 1) {
                Some(TokenType::RightParen) => true,
                _ => false,
            };
            if closes {
                Ok((Type::Unit, pos + 2))
            } else {
                Err(unexpected_at(tokens, pos + 1, Expected::ClosingParen))
            }
        },
        TokenType::LeftBracket => match read_type(tokens, pos + 1) {
            Err(error) => Err(error),
            Ok((element, end)) => {
                let closes = match kind_of(tokens, end) {
                    Some(TokenType::RightBracket) => true,
                    _ => false,
                };
                if closes {
                    Ok((Type::Array(Box::new(element)), end + 1))
                } else {
                    Err(unexpected_at(tokens, end, Expected::ClosingBracket))
                }
            },
        },
        _ => Err(unexpected_at(tokens, pos, Expected::Type)),
    }
}

/// Reads the type at `pos`; see [`parse_type`].
fn read_type(tokens: &Vec<Token>, pos: usize) -> (out: Result<(Type, usize), ParserError>)
    ensures
        type_agrees(parse_type(token_models(tokens@), pos as int), pos, tokens@.len(), out),
    decreases remaining(token_models(tokens@), pos as int), 1nat,
{
    match read_base_type(tokens, pos) {
        Err(error) => Err(error),
        Ok((input, end)) => {
            if arrow_at(tokens, end) {
                match read_type(tokens, end + 2) {
                    Err(error) => Err(error),
                    Ok((output, after)) => Ok(
                        (Type::Fun { input: Box::new(input), output: Box::new(output) }, after),
                    ),
                }
            } else {
                Ok((input, end))
            }
        },
    }
}

/// Whether a token of the kind `kind` ends a line.
fn ends_line(kind: &TokenType) -> (out: bool)
    ensures
        out == (kind@ is NewLine || kind@ is Eof),
{
    match kind {
        TokenType::NewLine => true,
        TokenType::Eof => true,
        _ => false,
    }
}

/// The index of the token that ends the line of `pos`.
fn line_end(tokens: &Vec<Token>, pos: usize) -> (out: usize)
    requires
        pos <= tokens@.len(),
    ensures
        out == pos + line_rest(token_models(tokens@), pos as int),
        out <= tokens@.len(),
{
    let mut i: usize = pos;
    while i < tokens.len() && !ends_line(&tokens[i].token_type)
        invariant
            pos <= i <= tokens@.len(),
            pos + line_rest(token_models(tokens@), pos as int) == i + line_rest(
                token_models(tokens@),
                i as int,
            ),
        decreases tokens@.len() - i,
    {
        i += 1;
    }
    i
}

/// Whether `ident` is among `assigned`.
fn is_assigned(assigned: &Vec<Identifier>, ident: Identifier) -> (out: bool)
    ensures
        out == assigned@.contains(ident),
{
    let mut i: usize = 0;
    while i < assigned.len()
        invariant
            i <= assigned@.len(),
            forall|k: int| 0 <= k < i ==> assigned@[k] != ident,
        decreases assigned@.len() - i,
    {
        if assigned[i].handle == ident.handle {
            return true;
        }
        i += 1;
    }
    false
}

/// Whether what an executable statement parser returned is what the
/// grammar gives: the same state, and the same statement ending at the
/// same token, or the same error.
pub open spec fn statement_agrees(
    parsed: ParsedStatement,
    pos: usize,
    len: nat,
    state: ParserState,
    out: Result<(Spanned<Statement>, usize), ParserError>,
) -> bool {
    &&& parsed.state == state
    &&& match out {
        Ok((value, end)) => pos < end <= len && parsed.outcome == Ok::<
            (Spanned<StatementModel>, nat),
            ParserError,
        >((value@, (end - pos - 1) as nat)),
        Err(error) => parsed.outcome == Err::<(Spanned<StatementModel>, nat), ParserError>(error),
    }
}

/// Reads the assignment whose name stands at `pos`; see
/// [`parse_assignment`].
fn read_assignment(
    tokens: &Vec<Token>,
    pos: usize,
    interner: &mut IdentifierMap,
    assigned: &mut Vec<Identifier>,
    name: &String,
) -> (out: Result<(Spanned<Statement>, usize), ParserError>)
    requires
        pos + 1 < tokens@.len(),
    ensures
        statement_agrees(
            parse_assignment(
                token_models(tokens@),
                pos as int,
                ParserState { names: old(interner)@, assigned: old(assigned)@ },
                name@,
            ),
            pos,
            tokens@.len(),
            ParserState { names: final(interner)@, assigned: final(assigned)@ },
            out,
        ),
{
    let count = tokens.len();
    let start = span_of(tokens, pos);
    let ident = interner.create_identifier(name.clone()).always_ok();
    if is_assigned(assigned, ident) {
        let last = line_end(tokens, pos + 1) - 1;
        let end = span_of(tokens, last);
        return Err(ParserError::DuplicateIdentifier { span: start.start..end.end, ident });
    }
    assigned.push(ident);
    let (expr, end) = match read_expression(tokens, pos + 2, interner) {
        Err(error) => {
            return Err(error);
        },
        Ok(found) => found,
    };
    if ascription_at(tokens, end) {
        match read_type(tokens, end + 2) {
            Err(error) => Err(error),
            Ok((type_, after)) => {
                let last = span_of(tokens, after - 1);
                Ok(
                    (
                        Spanned {
                            span: start.start..last.end,
                            inner: Statement::Assignment {
                                ident,
                                expr,
                                type_ascription: Some(type_),
                            },
                        },
                        after,
                    ),
                )
            },
        }
    } else {
        Ok(
            (
                Spanned {
                    span: start.start..expr.span.end,
                    inner: Statement::Assignment { ident, expr, type_ascription: None },
                },
                end,
            ),
        )
    }
}

/// Reads the statement at `pos`; see [`parse_statement`].
fn read_statement(
    tokens: &Vec<Token>,
    pos: usize,
    interner: &mut IdentifierMap,
    assigned: &mut Vec<Identifier>,
) -> (out: Result<(Spanned<Statement>, usize), ParserError>)
    ensures
        statement_agrees(
            parse_statement(
                token_models(tokens@),
                pos as int,
                ParserState { names: old(interner)@, assigned: old(assigned)@ },
            ),
            pos,
            tokens@.len(),
            ParserState { names: final(interner)@, assigned: final(assigned)@ },
            out,
        ),
{
    let start = span_of(tokens, pos);
    let name = match kind_of(tokens, pos) {
        Some(TokenType::Ident(name)) => name,
        _ => {
            return Err(unexpected_at(tokens, pos, Expected::Statement));
        },
    };
    let defines = match kind_of(tokens, pos + 1) {
        Some(TokenType::Equals) => true,
        _ => false,
    };
    if defines {
        return read_assignment(tokens, pos, interner, assigned, name);
    }
    if ascription_at(tokens, pos + 1) {
        let ident = interner.create_identifier(name.clone()).always_ok();
        return match read_type(tokens, pos + 3) {
            Err(error) => Err(error),
            Ok((type_, after)) => {
                let last = span_of(tokens, after - 1);
                Ok(
                    (
                        Spanned {
                            span: start.start..last.end,
                            inner: Statement::TypeAscription { ident, type_ },
                        },
                        after,
                    ),
                )
            },
        };
    }
    if text_is(name, "include") {
        match kind_of(tokens, pos + 1) {
            Some(TokenType::String(path)) => {
                let last = span_of(tokens, pos + 1);
                return Ok(
                    (
                        Spanned {
                            span: start.start..last.end,
                            inner: Statement::Include { path: path.clone() },
                        },
                        pos + 2,
                    ),
                );
            },
            _ => {},
        }
    }
    Err(unexpected_at(tokens, pos + 1, Expected::Definition))
}

/// `rest` behind the statements and errors found so far.
pub open spec fn joined(
    statements: Seq<Spanned<StatementModel>>,
    errors: Seq<ParserError>,
    rest: ParsedFile,
) -> ParsedFile {
    ParsedFile {
        state: rest.state,
        statements: statements + rest.statements,
        errors: errors + rest.errors,
    }
}

/// The parser proper: reads the lines of `tokens` and gives the statements
/// found, the errors found, both in the order of the source, and the table
/// of the names that the statements declare. A line with an error gives no
/// statement, and reading goes on with the next line; see [`parse_lines`].
pub fn parser(tokens: &Vec<Token>) -> (out: (
    Vec<Spanned<Statement>>,
    Vec<ParserError>,
    IdentifierMap,
))
    ensures
        ({
            let file = parse_lines(token_models(tokens@), 0, initial_state());
            &&& file.statements == statement_models(out.0@)
            &&& file.errors == out.1@
            &&& file.state.names == out.2@
        }),
{
    let ghost models = token_models(tokens@);
    let mut interner = IdentifierMap::new();
    let mut assigned: Vec<Identifier> = Vec::new();
    let mut statements: Vec<Spanned<Statement>> = Vec::new();
    let mut errors: Vec<ParserError> = Vec::new();
    let mut pos: usize = 0;
    proof {
        let start = parse_lines(models, 0, initial_state());
        assert(statement_models(statements@) + start.statements =~= start.statements);
        assert(errors@ + start.errors =~= start.errors);
        assert(assigned@ =~= initial_state().assigned);
    }
    while pos < tokens.len()
        invariant
            models == token_models(tokens@),
            pos <= tokens@.len(),
            parse_lines(models, 0, initial_state()) == joined(
                statement_models(statements@),
                errors@,
                parse_lines(
                    models,
                    pos as int,
                    ParserState { names: interner@, assigned: assigned@ },
                ),
            ),
        ensures
            pos >= tokens@.len() || tokens@[pos as int].token_type@ is Eof,
        decreases tokens@.len() - pos,
    {
        let ghost before = statement_models(statements@);
        let ghost failed = errors@;
        let ghost state = ParserState { names: interner@, assigned: assigned@ };
        match &tokens[pos].token_type {
            TokenType::Eof => {
                break ;
            },
            TokenType::NewLine => {
                pos += 1;
            },
            _ => {
                match read_statement(tokens, pos, &mut interner, &mut assigned) {
                    Err(error) => {
                        let next = line_end(tokens, pos + 1);
                        proof {
                            let after = ParserState { names: interner@, assigned: assigned@ };
                            let rest = parse_lines(models, next as int, after);
                            assert(failed + (seq![error] + rest.errors) =~= failed.push(error)
                                + rest.errors);
                        }
                        errors.push(error);
                        pos = next;
                    },
                    Ok((statement, end)) => {
                        let ends = match kind_of(tokens, end) {
                            Some(TokenType::NewLine) => true,
                            Some(TokenType::Eof) => true,
                            None => true,
                            _ => false,
                        };
                        if ends {
                            proof {
                                let after = ParserState { names: interner@, assigned: assigned@ };
                                let rest = parse_lines(models, end as int, after);
                                assert(before + (seq![statement@] + rest.statements)
                                    =~= before.push(statement@) + rest.statements);
                            }
                            statements.push(statement);
                            proof {
                                assert(statement_models(statements@) =~= before.push(
                                    statements@.last()@,
                                ));
                            }
                            pos = end;
                        } else {
                            let error = unexpected_at(tokens, end, Expected::EndOfStatement);
                            let next = line_end(tokens, end);
                            proof {
                                let after = ParserState { names: interner@, assigned: assigned@ };
                                let rest = parse_lines(models, next as int, after);
                                assert(failed + (seq![error] + rest.errors) =~= failed.push(error)
                                    + rest.errors);
                            }
                            errors.push(error);
                            pos = next;
                        }
                    },
                }
            },
        }
    }
    proof {
        let rest = parse_lines(models, pos as int, ParserState { names: interner@, assigned: assigned@ });
        assert(rest.statements =~= Seq::<Spanned<StatementModel>>::empty());
        assert(rest.errors =~= Seq::<ParserError>::empty());
        assert(statement_models(statements@) + rest.statements =~= statement_models(statements@));
        assert(errors@ + rest.errors =~= errors@);
    }
    (statements, errors, interner)
}

/// Parses `source` into its statements and the table of the names that
/// they declare. Where the source is no program, every error found in it
/// comes back, in the order of the source; a string literal that is never
/// closed is the only error of its source.
pub fn parse(source: &str) -> (out: Result<
    (Vec<Spanned<Statement>>, IdentifierMap),
    Vec<ParserError>,
>)
    ensures
        match out {
            Ok((statements, interner)) => parse_text(source@) == Ok::<
                (Seq<Spanned<StatementModel>>, Seq<Seq<char>>),
                Seq<ParserError>,
            >((statement_models(statements@), interner@)),
            Err(errors) => parse_text(source@) == Err::<
                (Seq<Spanned<StatementModel>>, Seq<Seq<char>>),
                Seq<ParserError>,
            >(errors@),
        },
{
    match scan_tokens(source) {
        Err(ScannerError::UnboundedString { err_location }) => {
            let mut errors: Vec<ParserError> = Vec::new();
            errors.push(ParserError::UnboundedString { err_location });
            proof {
                assert(errors@ =~= seq![ParserError::UnboundedString { err_location }]);
            }
            Err(errors)
        },
        Ok(tokens) => {
            let (statements, errors, interner) = parser(&tokens);
            if errors.len() == 0 {
                Ok((statements, interner))
            } else {
                Err(errors)
            }
        },
    }
}

} // verus!
