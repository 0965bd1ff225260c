//! The grammar, as functions from tokens to syntax trees.
//!
//! From the loosest to the tightest binding: a conditional; comparisons;
//! `+` and `-`; `*`, `/` and `%`; `!` and `-` before an operand; the
//! application of a function to arguments; literals, names, lambdas and
//! parentheses. Operators of one level group to the left. A statement is
//! one line.

use crate::parser::ast::intern;
use crate::parser::ast::lookup;
use crate::parser::ast::BinaryOperator;
use crate::parser::ast::ExpressionModel;
use crate::parser::ast::Identifier;
use crate::parser::ast::NumberLiteralModel;
use crate::parser::ast::PrimaryModel;
use crate::parser::ast::StatementModel;
use crate::parser::ast::UnaryOperator;
use crate::parser::Expected;
use crate::parser::ParserError;
use crate::scan::scan_text;
use crate::scan::ScannerError;
use crate::scan::TokenKind;
use crate::scan::TokenModel;
use crate::tc::variant::Type;
use crate::utils::span_union;
use crate::utils::Spanned;
use std::ops::Range;
use vstd::prelude::*;

verus! {

/// The number of tokens from `pos` on.
pub open spec fn remaining(tokens: Seq<TokenModel>, pos: int) -> nat {
    if pos < tokens.len() {
        (tokens.len() - pos) as nat
    } else {
        0
    }
}

/// The kind of the token at `pos`; past the last token, `Eof`.
pub open spec fn kind_at(tokens: Seq<TokenModel>, pos: int) -> TokenKind {
    if 0 <= pos < tokens.len() {
        tokens[pos].kind
    } else {
        TokenKind::Eof
    }
}

/// The span of the token at `pos`; past the last token, the empty span at
/// the end of the last token.
pub open spec fn span_at(tokens: Seq<TokenModel>, pos: int) -> Range<usize> {
    if 0 <= pos < tokens.len() {
        tokens[pos].span
    } else if tokens.len() > 0 {
        Range { start: tokens.last().span.end, end: tokens.last().span.end }
    } else {
        Range { start: 0, end: 0 }
    }
}

/// Whether the tokens at `pos` and `pos + 1` touch in the source.
pub open spec fn adjacent(tokens: Seq<TokenModel>, pos: int) -> bool {
    0 <= pos && pos + 1 < tokens.len() && tokens[pos].span.end == tokens[pos + 1].span.start
}

/// Whether `->` stands at `pos`.
pub open spec fn is_arrow(tokens: Seq<TokenModel>, pos: int) -> bool {
    kind_at(tokens, pos) is Dash && kind_at(tokens, pos + 1) is RightAngleBracket && adjacent(
        tokens,
        pos,
    )
}

/// Whether `::` stands at `pos`.
pub open spec fn is_ascription(tokens: Seq<TokenModel>, pos: int) -> bool {
    kind_at(tokens, pos) is Colon && kind_at(tokens, pos + 1) is Colon && adjacent(tokens, pos)
}

/// The error for the token at `pos`, where `expected` was needed.
pub open spec fn unexpected(tokens: Seq<TokenModel>, pos: int, expected: Expected) -> ParserError {
    if kind_at(tokens, pos) is Eof {
        ParserError::UnexpectedEndOfInput { span: span_at(tokens, pos), expected }
    } else {
        ParserError::UnexpectedToken { span: span_at(tokens, pos), expected }
    }
}

/// What parsing one construct gave: the name table afterwards and, on
/// success, the construct and the number of tokens that it covers beyond
/// its first.
pub struct Parsed<T> {
    pub names: Seq<Seq<char>>,
    pub outcome: Result<(T, nat), ParserError>,
}

/// A failed parse.
pub open spec fn fail<T>(names: Seq<Seq<char>>, error: ParserError) -> Parsed<T> {
    Parsed { names, outcome: Err(error) }
}

/// A successful parse of `value`, which covers `more` tokens beyond its
/// first.
pub open spec fn done<T>(names: Seq<Seq<char>>, value: T, more: nat) -> Parsed<T> {
    Parsed { names, outcome: Ok((value, more)) }
}

/// The span from the start of `first` to the end of `last`.
pub open spec fn span_from_to(first: Range<usize>, last: Range<usize>) -> Range<usize> {
    Range { start: first.start, end: last.end }
}

/// The binary operator of the level `level` that stands at `pos`, with
/// the number of tokens that write it beyond the first. Level 3 holds the
/// comparisons, level 2 `+` and `-`, level 1 `*`, `/` and `%`.
pub open spec fn operator_at(tokens: Seq<TokenModel>, pos: int, level: nat) -> Option<
    (BinaryOperator, nat),
> {
    let follows = kind_at(tokens, pos + 1) is Equals && adjacent(tokens, pos);
    if level == 3 {
        match kind_at(tokens, pos) {
            TokenKind::Equals => if follows {
                Some((BinaryOperator::Equivalent, 1nat))
            } else {
                None
            },
            TokenKind::Bang => if follows {
                Some((BinaryOperator::NotEquivalent, 1nat))
            } else {
                None
            },
            TokenKind::LeftAngleBracket => if follows {
                Some((BinaryOperator::LessThanOrEqual, 1nat))
            } else {
                Some((BinaryOperator::LessThan, 0nat))
            },
            TokenKind::RightAngleBracket => if follows {
                Some((BinaryOperator::GreaterThanOrEqual, 1nat))
            } else {
                Some((BinaryOperator::GreaterThan, 0nat))
            },
            _ => None,
        }
    } else if level == 2 {
        match kind_at(tokens, pos) {
            TokenKind::Plus => Some((BinaryOperator::Add, 0nat)),
            TokenKind::Dash => Some((BinaryOperator::Sub, 0nat)),
            _ => None,
        }
    } else if level == 1 {
        match kind_at(tokens, pos) {
            TokenKind::Star => Some((BinaryOperator::Mul, 0nat)),
            TokenKind::Slash => Some((BinaryOperator::Div, 0nat)),
            TokenKind::Percent => Some((BinaryOperator::Remainder, 0nat)),
            _ => None,
        }
    } else {
        None
    }
}

/// Whether a token of the kind `kind` can start an argument.
pub open spec fn starts_primary(kind: TokenKind) -> bool {
    kind is Ident || kind is Int || kind is Float || kind is String || kind is Bool
        || kind is LeftParen || kind is Lambda
}

/// An expression made of a primary.
pub open spec fn primary_expression(span: Range<usize>, primary: PrimaryModel) -> Spanned<
    ExpressionModel,
> {
    Spanned { span, inner: ExpressionModel::Primary(Spanned { span, inner: primary }) }
}

/// The expression that starts at `pos`: a conditional, or else a chain of
/// comparisons.
#[verifier::opaque]
pub open spec fn parse_expression(tokens: Seq<TokenModel>, pos: int, names: Seq<Seq<char>>) -> Parsed<
    Spanned<ExpressionModel>,
>
    decreases remaining(tokens, pos), 10nat,
{
    if kind_at(tokens, pos) is If {
        parse_conditional(tokens, pos, names)
    } else {
        parse_binary(tokens, pos, names, 3)
    }
}

/// The conditional that the `if` at `pos` starts: a condition, `then`, a
/// branch, `else` and a branch.
#[verifier::opaque]
pub open spec fn parse_conditional(tokens: Seq<TokenModel>, pos: int, names: Seq<Seq<char>>) -> Parsed<
    Spanned<ExpressionModel>,
>
    decreases remaining(tokens, pos), 9nat,
{
    if !(kind_at(tokens, pos) is If) {
        fail(names, unexpected(tokens, pos, Expected::Expression))
    } else {
        let cond = parse_expression(tokens, pos + 1, names);
        match cond.outcome {
            Err(error) => fail(cond.names, error),
            Ok((cond_value, cond_more)) => {
                let then_at = pos + 2 + cond_more;
                if !(kind_at(tokens, then_at) is Then) {
                    fail(cond.names, unexpected(tokens, then_at, Expected::Then))
                } else {
                    let then_ = parse_expression(tokens, then_at + 1, cond.names);
                    match then_.outcome {
                        Err(error) => fail(then_.names, error),
                        Ok((then_value, then_more)) => {
                            let else_at = then_at + 2 + then_more;
                            if !(kind_at(tokens, else_at) is Else) {
                                fail(then_.names, unexpected(tokens, else_at, Expected::Else))
                            } else {
                                let else_ = parse_expression(tokens, else_at + 1, then_.names);
                                match else_.outcome {
                                    Err(error) => fail(else_.names, error),
                                    Ok((else_value, else_more)) => done(
                                        else_.names,
                                        Spanned {
                                            span: span_from_to(
                                                span_at(tokens, pos),
                                                else_value.span,
                                            ),
                                            inner: ExpressionModel::If {
                                                cond: Box::new(cond_value),
                                                then_: Box::new(then_value),
                                                else_: Box::new(else_value),
                                            },
                                        },
                                        cond_more + then_more + else_more + 5,
                                    ),
                                }
                            }
                        },
                    }
                }
            },
        }
    }
}

/// The chain of operators of the level `level` that starts at `pos`;
/// level 0 is an operand with its prefix operators.
#[verifier::opaque]
pub open spec fn parse_binary(
    tokens: Seq<TokenModel>,
    pos: int,
    names: Seq<Seq<char>>,
    level: nat,
) -> Parsed<Spanned<ExpressionModel>>
    decreases remaining(tokens, pos), 5 + level,
{
    if level == 0 || level > 3 {
        parse_unary(tokens, pos, names)
    } else {
        let first = parse_binary(tokens, pos, names, (level - 1) as nat);
        match first.outcome {
            Err(error) => fail(first.names, error),
            Ok((lhs, more)) => {
                let rest = binary_rest(tokens, pos + 1 + more, first.names, level, lhs);
                match rest.outcome {
                    Err(error) => fail(rest.names, error),
                    Ok((value, rest_more)) => done(rest.names, value, more + rest_more),
                }
            },
        }
    }
}

/// The chain of the level `level` that has `lhs` so far and goes on at
/// `pos`, with the number of tokens that it covers from `pos` on.
#[verifier::opaque]
pub open spec fn binary_rest(
    tokens: Seq<TokenModel>,
    pos: int,
    names: Seq<Seq<char>>,
    level: nat,
    lhs: Spanned<ExpressionModel>,
) -> Parsed<Spanned<ExpressionModel>>
    decreases remaining(tokens, pos), 0nat,
{
    match operator_at(tokens, pos, level) {
        None => done(names, lhs, 0),
        Some((operator, wide)) => if 1 <= level <= 3 {
            let operand = parse_binary(tokens, pos + 1 + wide, names, (level - 1) as nat);
            match operand.outcome {
                Err(error) => fail(operand.names, error),
                Ok((rhs, more)) => {
                    let joined = Spanned {
                        span: span_union(lhs.span, rhs.span),
                        inner: ExpressionModel::Binary {
                            operator,
                            lhs: Box::new(lhs),
                            rhs: Box::new(rhs),
                        },
                    };
                    let rest = binary_rest(
                        tokens,
                        pos + 2 + wide + more,
                        operand.names,
                        level,
                        joined,
                    );
                    match rest.outcome {
                        Err(error) => fail(rest.names, error),
                        Ok((value, rest_more)) => done(
                            rest.names,
                            value,
                            2 + wide + more + rest_more,
                        ),
                    }
                },
            }
        } else {
            done(names, lhs, 0)
        },
    }
}

/// The operand that starts at `pos`, with the `!` and `-` before it.
#[verifier::opaque]
pub open spec fn parse_unary(tokens: Seq<TokenModel>, pos: int, names: Seq<Seq<char>>) -> Parsed<
    Spanned<ExpressionModel>,
>
    decreases remaining(tokens, pos), 4nat,
{
    if kind_at(tokens, pos) is Bang || kind_at(tokens, pos) is Dash {
        let operator = if kind_at(tokens, pos) is Bang {
            UnaryOperator::Not
        } else {
            UnaryOperator::Negative
        };
        let operand = parse_unary(tokens, pos + 1, names);
        match operand.outcome {
            Err(error) => fail(operand.names, error),
            Ok((rhs, more)) => done(
                operand.names,
                Spanned {
                    span: span_from_to(span_at(tokens, pos), rhs.span),
                    inner: ExpressionModel::Unary { operator, rhs: Box::new(rhs) },
                },
                more + 1,
            ),
        }
    } else {
        parse_application(tokens, pos, names)
    }
}

/// The primary that starts at `pos`, applied to the arguments behind it.
#[verifier::opaque]
pub open spec fn parse_application(tokens: Seq<TokenModel>, pos: int, names: Seq<Seq<char>>) -> Parsed<
    Spanned<ExpressionModel>,
>
    decreases remaining(tokens, pos), 3nat,
{
    let head = parse_primary(tokens, pos, names);
    match head.outcome {
        Err(error) => fail(head.names, error),
        Ok((function, more)) => {
            let rest = application_rest(tokens, pos + 1 + more, head.names, function);
            match rest.outcome {
                Err(error) => fail(rest.names, error),
                Ok((value, rest_more)) => done(rest.names, value, more + rest_more),
            }
        },
    }
}

/// `function` applied to the arguments that start at `pos`, one after the
/// other, with the number of tokens that they cover.
#[verifier::opaque]
pub open spec fn application_rest(
    tokens: Seq<TokenModel>,
    pos: int,
    names: Seq<Seq<char>>,
    function: Spanned<ExpressionModel>,
) -> Parsed<Spanned<ExpressionModel>>
    decreases remaining(tokens, pos), 2nat,
{
    if 0 <= pos < tokens.len() && starts_primary(kind_at(tokens, pos)) {
        let next = parse_primary(tokens, pos, names);
        match next.outcome {
            Err(error) => fail(next.names, error),
            Ok((argument, more)) => {
                let applied = Spanned {
                    span: span_union(function.span, argument.span),
                    inner: ExpressionModel::FunctionApplication {
                        function: Box::new(function),
                        argument: Box::new(argument),
                    },
                };
                let rest = application_rest(tokens, pos + 1 + more, next.names, applied);
                match rest.outcome {
                    Err(error) => fail(rest.names, error),
                    Ok((value, rest_more)) => done(rest.names, value, 1 + more + rest_more),
                }
            },
        }
    } else {
        done(names, function, 0)
    }
}

/// The literal or name at `pos`; a name has to be declared.
#[verifier::opaque]
pub open spec fn parse_atom(tokens: Seq<TokenModel>, pos: int, names: Seq<Seq<char>>) -> Parsed<
    Spanned<ExpressionModel>,
> {
    let span = span_at(tokens, pos);
    match kind_at(tokens, pos) {
        TokenKind::Int(value) => done(
            names,
            primary_expression(span, PrimaryModel::Number(NumberLiteralModel::Integer(value))),
            0,
        ),
        TokenKind::Float(text) => done(
            names,
            primary_expression(span, PrimaryModel::Number(NumberLiteralModel::Decimal(text))),
            0,
        ),
        TokenKind::String(text) => done(
            names,
            primary_expression(span, PrimaryModel::String(text)),
            0,
        ),
        TokenKind::Bool(value) => done(names, primary_expression(span, PrimaryModel::Bool(value)), 0),
        TokenKind::Ident(name) => match lookup(names, name) {
            Some(identifier) => done(
                names,
                Spanned { span, inner: ExpressionModel::Variable(identifier) },
                0,
            ),
            None => fail(names, ParserError::UnknownIdentifier { span }),
        },
        _ => fail(names, unexpected(tokens, pos, Expected::Expression)),
    }
}

/// What the `(` at `pos` opens: `()`, or an expression and `)`. The
/// expression is the primary, with the span of the parentheses.
#[verifier::opaque]
pub open spec fn parse_group(tokens: Seq<TokenModel>, pos: int, names: Seq<Seq<char>>) -> Parsed<
    Spanned<ExpressionModel>,
>
    decreases remaining(tokens, pos), 0nat,
{
    let span = span_at(tokens, pos);
    if !(kind_at(tokens, pos) is LeftParen) {
        fail(names, unexpected(tokens, pos, Expected::Expression))
    } else if kind_at(tokens, pos + 1) is RightParen {
        done(
            names,
            primary_expression(span_from_to(span, span_at(tokens, pos + 1)), PrimaryModel::Unit),
            1,
        )
    } else {
        let inner = parse_expression(tokens, pos + 1, names);
        match inner.outcome {
            Err(error) => fail(inner.names, error),
            Ok((value, more)) => {
                let close = pos + 2 + more;
                if kind_at(tokens, close) is RightParen {
                    done(
                        inner.names,
                        Spanned {
                            span: span_from_to(span, span_at(tokens, close)),
                            inner: value.inner,
                        },
                        more + 2,
                    )
                } else {
                    fail(inner.names, unexpected(tokens, close, Expected::ClosingParen))
                }
            },
        }
    }
}

/// The lambda that the `\` at `pos` starts: the name of the parameter,
/// which is interned, `->` and the body.
#[verifier::opaque]
pub open spec fn parse_lambda(tokens: Seq<TokenModel>, pos: int, names: Seq<Seq<char>>) -> Parsed<
    Spanned<ExpressionModel>,
>
    decreases remaining(tokens, pos), 0nat,
{
    let span = span_at(tokens, pos);
    if !(kind_at(tokens, pos) is Lambda) {
        fail(names, unexpected(tokens, pos, Expected::Expression))
    } else {
        match kind_at(tokens, pos + 1) {
            TokenKind::Ident(name) => if is_arrow(tokens, pos + 2) {
                let (bound, param) = intern(names, name);
                let body = parse_expression(tokens, pos + 4, bound);
                match body.outcome {
                    Err(error) => fail(body.names, error),
                    Ok((value, more)) => done(
                        body.names,
                        primary_expression(
                            span_from_to(span, value.span),
                            PrimaryModel::Lambda { param, body: Box::new(value) },
                        ),
                        more + 4,
                    ),
                }
            } else {
                fail(names, unexpected(tokens, pos + 2, Expected::Arrow))
            },
            _ => fail(names, unexpected(tokens, pos + 1, Expected::Parameter)),
        }
    }
}

/// The primary that starts at `pos`: a literal, `()`, an expression in
/// parentheses, a lambda, or a name that has been declared.
#[verifier::opaque]
pub open spec fn parse_primary(tokens: Seq<TokenModel>, pos: int, names: Seq<Seq<char>>) -> Parsed<
    Spanned<ExpressionModel>,
>
    decreases remaining(tokens, pos), 1nat,
{
    if kind_at(tokens, pos) is LeftParen {
        parse_group(tokens, pos, names)
    } else if kind_at(tokens, pos) is Lambda {
        parse_lambda(tokens, pos, names)
    } else {
        parse_atom(tokens, pos, names)
    }
}

/// The type that starts at `pos`, with the number of tokens that it covers
/// beyond its first: a base type, or a function from a base type to a type.
pub open spec fn parse_type(tokens: Seq<TokenModel>, pos: int) -> Result<(Type, nat), ParserError>
    decreases remaining(tokens, pos), 1nat,
{
    match parse_base_type(tokens, pos) {
        Err(error) => Err(error),
        Ok((input, more)) => {
            let arrow_at = pos + 1 + more;
            if is_arrow(tokens, arrow_at) {
                match parse_type(tokens, arrow_at + 2) {
                    Err(error) => Err(error),
                    Ok((output, output_more)) => Ok(
                        (
                            Type::Fun { input: Box::new(input), output: Box::new(output) },
                            more + output_more + 3,
                        ),
                    ),
                }
            } else {
                Ok((input, more))
            }
        },
    }
}

/// The base type that starts at `pos`: one of the four names, `()`, or an
/// array type in brackets.
pub open spec fn parse_base_type(tokens: Seq<TokenModel>, pos: int) -> Result<
    (Type, nat),
    ParserError,
>
    decreases remaining(tokens, pos), 0nat,
{
    match kind_at(tokens, pos) {
        TokenKind::Ident(name) => if name == "String"@ {
            Ok((Type::String, 0nat))
        } else if name == "Int"@ {
            Ok((Type::Number, 0nat))
        } else if name == "Color"@ {
            Ok((Type::Color, 0nat))
        } else if name == "Bool"@ {
            Ok((Type::Bool, 0nat))
        } else {
            Err(unexpected(tokens, pos, Expected::Type))
        },
        TokenKind::LeftParen => if kind_at(tokens, pos + 1) is RightParen {
            Ok((Type::Unit, 1nat))
        } else {
            Err(unexpected(tokens, pos + 1, Expected::ClosingParen))
        },
        TokenKind::LeftBracket => match parse_type(tokens, pos + 1) {
            Err(error) => Err(error),
            Ok((element, more)) => if kind_at(tokens, pos + 2 + more) is RightBracket {
                Ok((Type::Array(Box::new(element)), more + 2))
            } else {
                Err(unexpected(tokens, pos + 2 + more, Expected::ClosingBracket))
            },
        },
        _ => Err(unexpected(tokens, pos, Expected::Type)),
    }
}

/// The number of tokens from `pos` on that stand before the end of the
/// line.
pub open spec fn line_rest(tokens: Seq<TokenModel>, pos: int) -> nat
    decreases remaining(tokens, pos),
{
    if pos < 0 || pos >= tokens.len() || tokens[pos].kind is NewLine || tokens[pos].kind is Eof {
        0
    } else {
        1 + line_rest(tokens, pos + 1)
    }
}

/// What the parser knows between statements: the names declared so far,
/// and which of them have been assigned a value.
pub struct ParserState {
    pub names: Seq<Seq<char>>,
    pub assigned: Seq<Identifier>,
}

/// What parsing one statement gave: the state afterwards and, on success,
/// the statement and the number of tokens that it covers beyond its first.
pub struct ParsedStatement {
    pub state: ParserState,
    pub outcome: Result<(Spanned<StatementModel>, nat), ParserError>,
}

/// The assignment whose name, `name`, stands at `pos` and whose `=` stands
/// at `pos + 1`.
///
/// The name is declared first, so the value may mention it. A name that
/// already has a value is an error that spans the whole line. An
/// ascription `:: type` may follow the value.
pub open spec fn parse_assignment(
    tokens: Seq<TokenModel>,
    pos: int,
    state: ParserState,
    name: Seq<char>,
) -> ParsedStatement {
    let (names, ident) = intern(state.names, name);
    if state.assigned.contains(ident) {
        ParsedStatement {
            state: ParserState { names, assigned: state.assigned },
            outcome: Err(
                ParserError::DuplicateIdentifier {
                    span: span_from_to(
                        span_at(tokens, pos),
                        span_at(tokens, pos + line_rest(tokens, pos + 1)),
                    ),
                    ident,
                },
            ),
        }
    } else {
        let assigned = state.assigned.push(ident);
        let value = parse_expression(tokens, pos + 2, names);
        let after = ParserState { names: value.names, assigned };
        match value.outcome {
            Err(error) => ParsedStatement { state: after, outcome: Err(error) },
            Ok((expr, more)) => {
                let end = pos + 3 + more;
                if is_ascription(tokens, end) {
                    match parse_type(tokens, end + 2) {
                        Err(error) => ParsedStatement { state: after, outcome: Err(error) },
                        Ok((type_, type_more)) => ParsedStatement {
                            state: after,
                            outcome: Ok(
                                (
                                    Spanned {
                                        span: span_from_to(
                                            span_at(tokens, pos),
                                            span_at(tokens, end + 2 + type_more),
                                        ),
                                        inner: StatementModel::Assignment {
                                            ident,
                                            expr,
                                            type_ascription: Some(type_),
                                        },
                                    },
                                    more + type_more + 5,
                                ),
                            ),
                        },
                    }
                } else {
                    ParsedStatement {
                        state: after,
                        outcome: Ok(
                            (
                                Spanned {
                                    span: span_from_to(span_at(tokens, pos), expr.span),
                                    inner: StatementModel::Assignment {
                                        ident,
                                        expr,
                                        type_ascription: None,
                                    },
                                },
                                more + 2,
                            ),
                        ),
                    }
                }
            },
        }
    }
}

/// The statement that starts at `pos`: an assignment `name = value`, an
/// ascription `name :: type`, or a request to merge another source,
/// `include "path"`.
pub open spec fn parse_statement(tokens: Seq<TokenModel>, pos: int, state: ParserState) -> ParsedStatement {
    match kind_at(tokens, pos) {
        TokenKind::Ident(name) => if kind_at(tokens, pos + 1) is Equals {
            parse_assignment(tokens, pos, state, name)
        } else if is_ascription(tokens, pos + 1) {
            let (names, ident) = intern(state.names, name);
            let after = ParserState { names, assigned: state.assigned };
            match parse_type(tokens, pos + 3) {
                Err(error) => ParsedStatement { state: after, outcome: Err(error) },
                Ok((type_, more)) => ParsedStatement {
                    state: after,
                    outcome: Ok(
                        (
                            Spanned {
                                span: span_from_to(
                                    span_at(tokens, pos),
                                    span_at(tokens, pos + 3 + more),
                                ),
                                inner: StatementModel::TypeAscription { ident, type_ },
                            },
                            more + 3,
                        ),
                    ),
                },
            }
        } else if name == "include"@ && kind_at(tokens, pos + 1) is String {
            ParsedStatement {
                state,
                outcome: Ok(
                    (
                        Spanned {
                            span: span_from_to(span_at(tokens, pos), span_at(tokens, pos + 1)),
                            inner: StatementModel::Include {
                                path: kind_at(tokens, pos + 1)->String_0,
                            },
                        },
                        1,
                    ),
                ),
            }
        } else {
            ParsedStatement {
                state,
                outcome: Err(unexpected(tokens, pos + 1, Expected::Definition)),
            }
        },
        _ => ParsedStatement { state, outcome: Err(unexpected(tokens, pos, Expected::Statement)) },
    }
}

/// What parsing a whole source gave.
pub struct ParsedFile {
    pub state: ParserState,
    pub statements: Seq<Spanned<StatementModel>>,
    pub errors: Seq<ParserError>,
}

/// `rest` with `statement` in front of its statements.
pub open spec fn with_statement(statement: Spanned<StatementModel>, rest: ParsedFile) -> ParsedFile {
    ParsedFile {
        state: rest.state,
        statements: seq![statement] + rest.statements,
        errors: rest.errors,
    }
}

/// `rest` with `error` in front of its errors.
pub open spec fn with_error(error: ParserError, rest: ParsedFile) -> ParsedFile {
    ParsedFile { state: rest.state, statements: rest.statements, errors: seq![error] + rest.errors }
}

/// The statements and the errors of the lines from `pos` on.
///
/// Empty lines are passed over. A line that is no statement, or that goes
/// on behind its statement, gives an error and no statement, and parsing
/// goes on with the next line.
pub open spec fn parse_lines(tokens: Seq<TokenModel>, pos: int, state: ParserState) -> ParsedFile
    decreases remaining(tokens, pos),
{
    if pos < 0 || pos >= tokens.len() || tokens[pos].kind is Eof {
        ParsedFile { state, statements: seq![], errors: seq![] }
    } else if tokens[pos].kind is NewLine {
        parse_lines(tokens, pos + 1, state)
    } else {
        let parsed = parse_statement(tokens, pos, state);
        match parsed.outcome {
            Err(error) => with_error(
                error,
                parse_lines(tokens, pos + 1 + line_rest(tokens, pos + 1), parsed.state),
            ),
            Ok((statement, more)) => {
                let end = pos + 1 + more;
                if kind_at(tokens, end) is NewLine || kind_at(tokens, end) is Eof {
                    with_statement(statement, parse_lines(tokens, end, parsed.state))
                } else {
                    with_error(
                        unexpected(tokens, end, Expected::EndOfStatement),
                        parse_lines(tokens, end + line_rest(tokens, end), parsed.state),
                    )
                }
            },
        }
    }
}

/// The state in which parsing starts: the built-in names, none assigned.
pub open spec fn initial_state() -> ParserState {
    ParserState { names: crate::parser::ast::builtin_names(), assigned: seq![] }
}

/// The program that the source text `src` writes: its statements and the
/// names that they declare, or else every error found in it.
pub open spec fn parse_text(src: Seq<char>) -> Result<
    (Seq<Spanned<StatementModel>>, Seq<Seq<char>>),
    Seq<ParserError>,
> {
    match scan_text(src) {
        Err(ScannerError::UnboundedString { err_location }) => Err(
            seq![ParserError::UnboundedString { err_location }],
        ),
        Ok(tokens) => {
            let file = parse_lines(tokens, 0, initial_state());
            if file.errors.len() == 0 {
                Ok((file.statements, file.state.names))
            } else {
                Err(file.errors)
            }
        },
    }
}

} // verus!
