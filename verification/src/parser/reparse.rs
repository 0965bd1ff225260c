//! The signs of a program parse back to the program.

use crate::parser::ast::intern;
use crate::parser::ast::lookup;
use crate::parser::ast::BinaryOperator;
use crate::parser::ast::ExpressionModel;
use crate::parser::ast::Identifier;
use crate::parser::ast::NumberLiteralModel;
use crate::parser::ast::PrimaryModel;
use crate::parser::ast::StatementModel;
use crate::parser::ast::UnaryOperator;
use crate::parser::grammar::adjacent;
use crate::parser::grammar::application_rest;
use crate::parser::grammar::binary_rest;
use crate::parser::grammar::done;
use crate::parser::grammar::is_arrow;
use crate::parser::grammar::is_ascription;
use crate::parser::grammar::kind_at;
use crate::parser::grammar::operator_at;
use crate::parser::grammar::parse_application;
use crate::parser::grammar::parse_binary;
use crate::parser::grammar::parse_conditional;
use crate::parser::grammar::parse_expression;
use crate::parser::grammar::parse_atom;
use crate::parser::grammar::parse_group;
use crate::parser::grammar::parse_lambda;
use crate::parser::grammar::parse_primary;
use crate::parser::grammar::parse_unary;
use crate::parser::grammar::starts_primary;
use crate::parser::grammar::Parsed;
use crate::parser::grammar::parse_base_type;
use crate::parser::grammar::parse_type;
use crate::parser::printer::atom_signs;
use crate::parser::printer::printable_base_type;
use crate::parser::printer::printable_expression;
use crate::parser::printer::printable_type;
use crate::parser::printer::base_type_signs;
use crate::parser::printer::type_signs;
use crate::tc::variant::Type;
use crate::parser::ParserError;
use crate::parser::printer::inside_signs;
use crate::parser::printer::is_atom;
use crate::parser::printer::name_of;
use crate::parser::printer::one;
use crate::parser::printer::operand_signs;
use crate::parser::printer::operator_signs;
use crate::parser::printer::two;
use crate::parser::printer::Sign;
use crate::parser::rescan::is_short;
use crate::parser::rescan::valid_signs;
use crate::parser::rescan::writable;
use crate::parser::rescan::written;
use crate::parser::rescan::written_apart;
use crate::parser::rescan::written_token;
use crate::scan::TokenKind;
use crate::scan::TokenModel;
use crate::utils::Spanned;
use std::ops::Range;
use vstd::prelude::*;

verus! {

/// The span that stands for every span where spans do not count.
pub open spec fn no_span() -> Range<usize> {
    Range { start: 0, end: 0 }
}

/// `expression` without its spans.
pub open spec fn erase_expression(expression: Spanned<ExpressionModel>) -> Spanned<ExpressionModel>
    decreases expression,
{
    Spanned {
        span: no_span(),
        inner: match expression.inner {
            ExpressionModel::If { cond, then_, else_ } => ExpressionModel::If {
                cond: Box::new(erase_expression(*cond)),
                then_: Box::new(erase_expression(*then_)),
                else_: Box::new(erase_expression(*else_)),
            },
            ExpressionModel::Binary { operator, lhs, rhs } => ExpressionModel::Binary {
                operator,
                lhs: Box::new(erase_expression(*lhs)),
                rhs: Box::new(erase_expression(*rhs)),
            },
            ExpressionModel::Unary { operator, rhs } => ExpressionModel::Unary {
                operator,
                rhs: Box::new(erase_expression(*rhs)),
            },
            ExpressionModel::FunctionApplication { function, argument } => {
                ExpressionModel::FunctionApplication {
                    function: Box::new(erase_expression(*function)),
                    argument: Box::new(erase_expression(*argument)),
                }
            },
            ExpressionModel::Variable(identifier) => ExpressionModel::Variable(identifier),
            ExpressionModel::Primary(primary) => ExpressionModel::Primary(
                Spanned {
                    span: no_span(),
                    inner: match primary.inner {
                        PrimaryModel::Lambda { param, body } => PrimaryModel::Lambda {
                            param,
                            body: Box::new(erase_expression(*body)),
                        },
                        other => other,
                    },
                },
            ),
        },
    }
}

/// Whether a parse gave `expression` but for the spans, over `count`
/// tokens, and left the names `after`.
pub open spec fn gives(
    parsed: Parsed<Spanned<ExpressionModel>>,
    expression: Spanned<ExpressionModel>,
    count: int,
    after: Seq<Seq<char>>,
) -> bool {
    &&& parsed.names == after
    &&& parsed.outcome matches Ok((value, more))
    &&& erase_expression(value) == erase_expression(expression)
    &&& more + 1 == count
}

/// Whether nothing that goes on an expression stands at `pos`: no
/// argument and no binary operator of the levels up to `top`.
pub open spec fn ends_operand(tokens: Seq<TokenModel>, pos: int, top: nat) -> bool {
    &&& !(0 <= pos < tokens.len() && starts_primary(kind_at(tokens, pos)))
    &&& forall|level: nat| 1 <= level <= top ==> #[trigger] operator_at(tokens, pos, level) is None
}

/// Behind `)`, `then`, `else`, `]`, `:`, a line end and the end of the
/// input no expression goes on.
pub proof fn closing_tokens_end_operands(tokens: Seq<TokenModel>, pos: int)
    requires
        kind_at(tokens, pos) is RightParen || kind_at(tokens, pos) is Then || kind_at(
            tokens,
            pos,
        ) is Else || kind_at(tokens, pos) is NewLine || kind_at(tokens, pos) is Eof || kind_at(
            tokens,
            pos,
        ) is Colon || kind_at(tokens, pos) is RightBracket,
    ensures
        ends_operand(tokens, pos, 3),
{
}

/// Where no argument stands, an application ends.
pub proof fn application_stops(
    tokens: Seq<TokenModel>,
    pos: int,
    names: Seq<Seq<char>>,
    function: Spanned<ExpressionModel>,
)
    requires
        !(0 <= pos < tokens.len() && starts_primary(kind_at(tokens, pos))),
    ensures
        application_rest(tokens, pos, names, function) == done(names, function, 0),
{
    reveal(application_rest);
}

/// Where no operator of its level stands, a chain of operators ends.
pub proof fn chain_stops(
    tokens: Seq<TokenModel>,
    pos: int,
    names: Seq<Seq<char>>,
    level: nat,
    lhs: Spanned<ExpressionModel>,
)
    requires
        operator_at(tokens, pos, level) is None,
    ensures
        binary_rest(tokens, pos, names, level, lhs) == done(names, lhs, 0),
{
    reveal(binary_rest);
}

/// A primary behind which no argument stands is an application, and an
/// operand, as it is.
pub proof fn primary_is_operand(
    tokens: Seq<TokenModel>,
    pos: int,
    names: Seq<Seq<char>>,
    expression: Spanned<ExpressionModel>,
    count: int,
    after: Seq<Seq<char>>,
)
    requires
        gives(parse_primary(tokens, pos, names), expression, count, after),
        !(0 <= pos + count < tokens.len() && starts_primary(kind_at(tokens, pos + count))),
    ensures
        gives(parse_application(tokens, pos, names), expression, count, after),
        gives(parse_unary(tokens, pos, names), expression, count, after),
        gives(parse_binary(tokens, pos, names, 0), expression, count, after),
        !(kind_at(tokens, pos) is If),
{
    reveal(parse_application);
    reveal(parse_unary);
    reveal(parse_binary);
    reveal(parse_primary);
    reveal(application_rest);
    primary_is_operand_start(tokens, pos, names);
    let head = parse_primary(tokens, pos, names);
    let function = head.outcome->Ok_0.0;
    application_stops(tokens, pos + count, head.names, function);
    assert(gives(parse_application(tokens, pos, names), expression, count, after));
    assert(!(kind_at(tokens, pos) is Bang) && !(kind_at(tokens, pos) is Dash));
    assert(parse_unary(tokens, pos, names) == parse_application(tokens, pos, names));
    assert(parse_binary(tokens, pos, names, 0) == parse_unary(tokens, pos, names));
}

/// An operand behind which no operator of the level `level` stands is a
/// chain of that level as it is.
pub proof fn chain_of_one(
    tokens: Seq<TokenModel>,
    pos: int,
    names: Seq<Seq<char>>,
    expression: Spanned<ExpressionModel>,
    count: int,
    after: Seq<Seq<char>>,
    level: nat,
)
    requires
        1 <= level <= 3,
        gives(parse_binary(tokens, pos, names, (level - 1) as nat), expression, count, after),
        operator_at(tokens, pos + count, level) is None,
    ensures
        gives(parse_binary(tokens, pos, names, level), expression, count, after),
{
    reveal(parse_binary);
    reveal(binary_rest);
    let first = parse_binary(tokens, pos, names, (level - 1) as nat);
    let lhs = first.outcome->Ok_0.0;
    chain_stops(tokens, pos + count, first.names, level, lhs);
}

/// A primary behind which nothing goes on is a chain of every level up to
/// `top` and, for the top level, an expression.
pub proof fn primary_climbs(
    tokens: Seq<TokenModel>,
    pos: int,
    names: Seq<Seq<char>>,
    expression: Spanned<ExpressionModel>,
    count: int,
    after: Seq<Seq<char>>,
    top: nat,
)
    requires
        top <= 3,
        gives(parse_primary(tokens, pos, names), expression, count, after),
        ends_operand(tokens, pos + count, top),
    ensures
        gives(parse_binary(tokens, pos, names, top), expression, count, after),
        top == 3 ==> gives(parse_expression(tokens, pos, names), expression, count, after),
    decreases top,
{
    reveal(parse_expression);
    reveal(parse_binary);
    primary_is_operand(tokens, pos, names, expression, count, after);
    if top > 0 {
        primary_climbs(tokens, pos, names, expression, count, after, (top - 1) as nat);
        assert(operator_at(tokens, pos + count, top) is None);
        chain_of_one(tokens, pos, names, expression, count, after, top);
    }
    if top == 3 {
        assert(parse_expression(tokens, pos, names) == parse_binary(tokens, pos, names, 3));
    }
}

/// A chain behind which no operator of a looser level stands is a chain of
/// every looser level and an expression as it is.
pub proof fn chain_climbs(
    tokens: Seq<TokenModel>,
    pos: int,
    names: Seq<Seq<char>>,
    expression: Spanned<ExpressionModel>,
    count: int,
    after: Seq<Seq<char>>,
    level: nat,
)
    requires
        level <= 3,
        gives(parse_binary(tokens, pos, names, level), expression, count, after),
        forall|looser: nat|
            level < looser <= 3 ==> #[trigger] operator_at(tokens, pos + count, looser) is None,
        !(kind_at(tokens, pos) is If),
    ensures
        gives(parse_expression(tokens, pos, names), expression, count, after),
    decreases 3 - level,
{
    reveal(parse_expression);
    reveal(parse_binary);
    if level < 3 {
        assert(operator_at(tokens, pos + count, level + 1) is None);
        chain_of_one(tokens, pos, names, expression, count, after, level + 1);
        chain_climbs(tokens, pos, names, expression, count, after, level + 1);
    } else {
        assert(parse_expression(tokens, pos, names) == parse_binary(tokens, pos, names, 3));
    }
}

/// An expression in parentheses is a primary.
pub proof fn parentheses_read(
    tokens: Seq<TokenModel>,
    pos: int,
    names: Seq<Seq<char>>,
    expression: Spanned<ExpressionModel>,
    count: int,
    after: Seq<Seq<char>>,
)
    requires
        kind_at(tokens, pos) is LeftParen,
        !(kind_at(tokens, pos + 1) is RightParen),
        gives(parse_expression(tokens, pos + 1, names), expression, count, after),
        kind_at(tokens, pos + 1 + count) is RightParen,
    ensures
        gives(parse_primary(tokens, pos, names), expression, count + 2, after),
{
    reveal(parse_primary);
    reveal(parse_group);
    reveal(parse_expression);
    let inner = parse_expression(tokens, pos + 1, names);
    let value = inner.outcome->Ok_0.0;
    let more = inner.outcome->Ok_0.1;
    let outer = parse_primary(tokens, pos, names);
    assert(outer.outcome is Ok);
    let wrapped = outer.outcome->Ok_0.0;
    assert(wrapped.inner == value.inner);
    assert(erase_expression(wrapped) == erase_expression(value));
}

/// The level of a binary operator: 1 for `*`, `/` and `%`, 2 for `+` and
/// `-`, 3 for the comparisons.
pub open spec fn level_of(operator: BinaryOperator) -> nat {
    match operator {
        BinaryOperator::Mul | BinaryOperator::Div | BinaryOperator::Remainder => 1,
        BinaryOperator::Add | BinaryOperator::Sub => 2,
        _ => 3,
    }
}

/// Where the signs of an operator are written, the operator stands, and
/// no operator of a tighter level and no argument.
pub proof fn operator_is_read(tokens: Seq<TokenModel>, pos: int, operator: BinaryOperator)
    requires
        written(tokens, pos, operator_signs(operator)),
    ensures
        operator_at(tokens, pos, level_of(operator)) == Some(
            (operator, (operator_signs(operator).len() - 1) as nat),
        ),
        forall|level: nat|
            1 <= level < level_of(operator) ==> #[trigger] operator_at(tokens, pos, level) is None,
        !starts_primary(kind_at(tokens, pos)),
        1 <= operator_signs(operator).len() <= 2,
{
    let signs = operator_signs(operator);
    written_token(tokens, pos, signs, 0);
    if signs.len() == 2 {
        written_token(tokens, pos, signs, 1);
    }
}

/// A chain of two operands and one operator between them.
pub proof fn chain_of_two(
    tokens: Seq<TokenModel>,
    pos: int,
    names: Seq<Seq<char>>,
    expression: Spanned<ExpressionModel>,
    first: int,
    between: Seq<Seq<char>>,
    second: int,
    after: Seq<Seq<char>>,
)
    requires
        expression.inner matches ExpressionModel::Binary { operator, lhs, rhs } && {
            let level = level_of(operator);
            let wide = operator_signs(operator).len() - 1;
            &&& gives(
                parse_binary(tokens, pos, names, (level - 1) as nat),
                *lhs,
                first,
                between,
            )
            &&& operator_at(tokens, pos + first, level) == Some((operator, wide as nat))
            &&& gives(
                parse_binary(tokens, pos + first + 1 + wide, between, (level - 1) as nat),
                *rhs,
                second,
                after,
            )
            &&& operator_at(tokens, pos + first + 1 + wide + second, level) is None
        },
    ensures
        gives(
            parse_binary(tokens, pos, names, level_of(expression.inner->Binary_operator)),
            expression,
            first + operator_signs(expression.inner->Binary_operator).len() + second,
            after,
        ),
{
    reveal(parse_binary);
    reveal(binary_rest);
    let operator = expression.inner->Binary_operator;
    let level = level_of(operator);
    let wide = (operator_signs(operator).len() - 1) as nat;
    let left = parse_binary(tokens, pos, names, (level - 1) as nat);
    let lhs = left.outcome->Ok_0.0;
    let right = parse_binary(tokens, pos + first + 1 + wide, between, (level - 1) as nat);
    let rhs = right.outcome->Ok_0.0;
    let joined = Spanned {
        span: crate::utils::span_union(lhs.span, rhs.span),
        inner: ExpressionModel::Binary { operator, lhs: Box::new(lhs), rhs: Box::new(rhs) },
    };
    chain_stops(tokens, pos + first + 1 + wide + second, after, level, joined);
    let rest = binary_rest(tokens, pos + first, between, level, lhs);
    assert(rest == done(after, joined, (1 + wide + second) as nat));
    assert(erase_expression(joined) == erase_expression(expression));
}

/// A binary operator with its operands, in parentheses, reads back.
pub proof fn binary_reads(
    tokens: Seq<TokenModel>,
    pos: int,
    names: Seq<Seq<char>>,
    between: Seq<Seq<char>>,
    after: Seq<Seq<char>>,
    expression: Spanned<ExpressionModel>,
    table: Seq<Seq<char>>,
)
    requires
        written(tokens, pos, operand_signs(expression, table)),
        expression.inner matches ExpressionModel::Binary { operator, lhs, rhs } && {
            let first = operand_signs(*lhs, table).len() as int;
            let wide = operator_signs(operator).len() as int;
            &&& gives(parse_primary(tokens, pos + 1, names), *lhs, first, between)
            &&& gives(
                parse_primary(tokens, pos + 1 + first + wide, between),
                *rhs,
                operand_signs(*rhs, table).len() as int,
                after,
            )
        },
    ensures
        gives(
            parse_primary(tokens, pos, names),
            expression,
            operand_signs(expression, table).len() as int,
            after,
        ),
{
    if let ExpressionModel::Binary { operator, lhs, rhs } = expression.inner {
        let left = operand_signs(*lhs, table);
        let sign = operator_signs(operator);
        let right = operand_signs(*rhs, table);
        let first = left.len() as int;
        let wide = sign.len() as int;
        let second = right.len() as int;
        let level = level_of(operator);
        let inside = left + sign + right;
        assert(inside_signs(expression, table) == inside);
        let whole = one(TokenKind::LeftParen) + inside + one(TokenKind::RightParen);
        assert(operand_signs(expression, table) == whole);
        written_apart(tokens, pos, one(TokenKind::LeftParen) + inside, one(TokenKind::RightParen));
        written_apart(tokens, pos, one(TokenKind::LeftParen), inside);
        written_apart(tokens, pos + 1, left + sign, right);
        written_apart(tokens, pos + 1, left, sign);
        written_token(tokens, pos, one(TokenKind::LeftParen), 0);
        written_token(tokens, pos + 1 + inside.len(), one(TokenKind::RightParen), 0);
        operator_is_read(tokens, pos + 1 + first, operator);
        let close = pos + 1 + first + wide + second;
        closing_tokens_end_operands(tokens, close);
        assert(ends_operand(tokens, pos + 1 + first, (level - 1) as nat));
        primary_climbs(tokens, pos + 1, names, *lhs, first, between, (level - 1) as nat);
        assert(ends_operand(tokens, close, (level - 1) as nat));
        primary_climbs(
            tokens,
            pos + 1 + first + wide,
            between,
            *rhs,
            second,
            after,
            (level - 1) as nat,
        );
        assert(operator_at(tokens, close, level) is None);
        chain_of_two(tokens, pos + 1, names, expression, first, between, second, after);
        primary_is_operand_start(tokens, pos + 1, names);
        chain_climbs(tokens, pos + 1, names, expression, first + wide + second, after, level);
        parentheses_read(tokens, pos, names, expression, first + wide + second, after);
    }
}

/// A primary does not start with `if`, `!`, `-` or `)`.
pub proof fn primary_is_operand_start(tokens: Seq<TokenModel>, pos: int, names: Seq<Seq<char>>)
    requires
        parse_primary(tokens, pos, names).outcome is Ok,
    ensures
        !(kind_at(tokens, pos) is If),
        !(kind_at(tokens, pos) is Bang),
        !(kind_at(tokens, pos) is Dash),
        !(kind_at(tokens, pos) is RightParen),
        starts_primary(kind_at(tokens, pos)),
        0 <= pos < tokens.len(),
{
    reveal(parse_primary);
    reveal(parse_group);
    reveal(parse_lambda);
    reveal(parse_atom);
}

/// A literal or a name reads back, where the name is declared under its
/// identifier.
pub proof fn atom_reads(
    tokens: Seq<TokenModel>,
    pos: int,
    names: Seq<Seq<char>>,
    expression: Spanned<ExpressionModel>,
    table: Seq<Seq<char>>,
)
    requires
        is_atom(expression.inner),
        !(expression.inner matches ExpressionModel::Primary(primary) && primary.inner is Color),
        expression.inner matches ExpressionModel::Variable(identifier) ==> lookup(
            names,
            name_of(table, identifier),
        ) == Some(identifier),
        written(tokens, pos, operand_signs(expression, table)),
    ensures
        gives(
            parse_primary(tokens, pos, names),
            expression,
            operand_signs(expression, table).len() as int,
            names,
        ),
{
    reveal(parse_primary);
    reveal(parse_group);
    reveal(parse_atom);
    let signs = operand_signs(expression, table);
    written_token(tokens, pos, signs, 0);
    if signs.len() == 2 {
        written_token(tokens, pos, signs, 1);
    }
}

/// A prefix operator with its operand, in parentheses, reads back.
pub proof fn unary_reads(
    tokens: Seq<TokenModel>,
    pos: int,
    names: Seq<Seq<char>>,
    after: Seq<Seq<char>>,
    expression: Spanned<ExpressionModel>,
    table: Seq<Seq<char>>,
)
    requires
        written(tokens, pos, operand_signs(expression, table)),
        expression.inner matches ExpressionModel::Unary { operator, rhs } && gives(
            parse_primary(tokens, pos + 2, names),
            *rhs,
            operand_signs(*rhs, table).len() as int,
            after,
        ),
    ensures
        gives(
            parse_primary(tokens, pos, names),
            expression,
            operand_signs(expression, table).len() as int,
            after,
        ),
{
    if let ExpressionModel::Unary { operator, rhs } = expression.inner {
        let sign = one(
            match operator {
                UnaryOperator::Not => TokenKind::Bang,
                UnaryOperator::Negative => TokenKind::Dash,
            },
        );
        let right = operand_signs(*rhs, table);
        let second = right.len() as int;
        let inside = sign + right;
        assert(inside_signs(expression, table) == inside);
        written_apart(tokens, pos, one(TokenKind::LeftParen) + inside, one(TokenKind::RightParen));
        written_apart(tokens, pos, one(TokenKind::LeftParen), inside);
        written_apart(tokens, pos + 1, sign, right);
        written_token(tokens, pos, one(TokenKind::LeftParen), 0);
        written_token(tokens, pos + 1, sign, 0);
        written_token(tokens, pos + 1 + inside.len(), one(TokenKind::RightParen), 0);
        let close = pos + 2 + second;
        closing_tokens_end_operands(tokens, close);
        primary_is_operand(tokens, pos + 2, names, *rhs, second, after);
        prefix_reads(tokens, pos + 1, names, expression, second, after);
        chain_climbs(tokens, pos + 1, names, expression, second + 1, after, 0);
        parentheses_read(tokens, pos, names, expression, second + 1, after);
    }
}

/// A prefix operator before an operand is an operand.
pub proof fn prefix_reads(
    tokens: Seq<TokenModel>,
    pos: int,
    names: Seq<Seq<char>>,
    expression: Spanned<ExpressionModel>,
    count: int,
    after: Seq<Seq<char>>,
)
    requires
        expression.inner matches ExpressionModel::Unary { operator, rhs } && {
            &&& kind_at(tokens, pos) == (match operator {
                UnaryOperator::Not => TokenKind::Bang,
                UnaryOperator::Negative => TokenKind::Dash,
            })
            &&& gives(parse_unary(tokens, pos + 1, names), *rhs, count, after)
        },
    ensures
        gives(parse_binary(tokens, pos, names, 0), expression, count + 1, after),
        !(kind_at(tokens, pos) is If),
{
    reveal(parse_unary);
    reveal(parse_binary);
    let operand = parse_unary(tokens, pos + 1, names);
    let value = operand.outcome->Ok_0.0;
    let whole = parse_unary(tokens, pos, names);
    assert(whole.outcome is Ok);
    assert(erase_expression(whole.outcome->Ok_0.0) == erase_expression(expression));
}

/// A function with its argument, in parentheses, reads back.
pub proof fn application_reads(
    tokens: Seq<TokenModel>,
    pos: int,
    names: Seq<Seq<char>>,
    between: Seq<Seq<char>>,
    after: Seq<Seq<char>>,
    expression: Spanned<ExpressionModel>,
    table: Seq<Seq<char>>,
)
    requires
        written(tokens, pos, operand_signs(expression, table)),
        expression.inner matches ExpressionModel::FunctionApplication { function, argument } && {
            let first = operand_signs(*function, table).len() as int;
            &&& gives(parse_primary(tokens, pos + 1, names), *function, first, between)
            &&& gives(
                parse_primary(tokens, pos + 1 + first, between),
                *argument,
                operand_signs(*argument, table).len() as int,
                after,
            )
        },
    ensures
        gives(
            parse_primary(tokens, pos, names),
            expression,
            operand_signs(expression, table).len() as int,
            after,
        ),
{
    if let ExpressionModel::FunctionApplication { function, argument } = expression.inner {
        let left = operand_signs(*function, table);
        let right = operand_signs(*argument, table);
        let first = left.len() as int;
        let second = right.len() as int;
        let inside = left + right;
        assert(inside_signs(expression, table) == inside);
        written_apart(tokens, pos, one(TokenKind::LeftParen) + inside, one(TokenKind::RightParen));
        written_apart(tokens, pos, one(TokenKind::LeftParen), inside);
        written_token(tokens, pos, one(TokenKind::LeftParen), 0);
        written_token(tokens, pos + 1 + inside.len(), one(TokenKind::RightParen), 0);
        let close = pos + 1 + first + second;
        closing_tokens_end_operands(tokens, close);
        applied_reads(tokens, pos + 1, names, expression, first, between, second, after);
        chain_climbs(tokens, pos + 1, names, expression, first + second, after, 0);
        parentheses_read(tokens, pos, names, expression, first + second, after);
    }
}

/// A primary with one argument behind it is an operand.
pub proof fn applied_reads(
    tokens: Seq<TokenModel>,
    pos: int,
    names: Seq<Seq<char>>,
    expression: Spanned<ExpressionModel>,
    first: int,
    between: Seq<Seq<char>>,
    second: int,
    after: Seq<Seq<char>>,
)
    requires
        expression.inner matches ExpressionModel::FunctionApplication { function, argument } && {
            &&& gives(parse_primary(tokens, pos, names), *function, first, between)
            &&& gives(parse_primary(tokens, pos + first, between), *argument, second, after)
        },
        !(0 <= pos + first + second < tokens.len() && starts_primary(
            kind_at(tokens, pos + first + second),
        )),
    ensures
        gives(parse_binary(tokens, pos, names, 0), expression, first + second, after),
        !(kind_at(tokens, pos) is If),
{
    reveal(parse_application);
    reveal(parse_unary);
    reveal(parse_binary);
    reveal(parse_primary);
    reveal(application_rest);
    primary_is_operand_start(tokens, pos, names);
    primary_is_operand_start(tokens, pos + first, between);
    let head = parse_primary(tokens, pos, names);
    let function = head.outcome->Ok_0.0;
    let next = parse_primary(tokens, pos + first, between);
    let argument = next.outcome->Ok_0.0;
    let applied = Spanned {
        span: crate::utils::span_union(function.span, argument.span),
        inner: ExpressionModel::FunctionApplication {
            function: Box::new(function),
            argument: Box::new(argument),
        },
    };
    application_stops(tokens, pos + first + second, after, applied);
    let rest = application_rest(tokens, pos + first, between, function);
    assert(rest == done(after, applied, second as nat));
    assert(erase_expression(applied) == erase_expression(expression));
    let whole = parse_application(tokens, pos, names);
    assert(whole == done(after, applied, (first - 1 + second) as nat));
    assert(parse_unary(tokens, pos, names) == whole);
    assert(parse_binary(tokens, pos, names, 0) == whole);
}

/// A conditional, in parentheses, reads back.
pub proof fn conditional_reads(
    tokens: Seq<TokenModel>,
    pos: int,
    names: Seq<Seq<char>>,
    first: Seq<Seq<char>>,
    second: Seq<Seq<char>>,
    after: Seq<Seq<char>>,
    expression: Spanned<ExpressionModel>,
    table: Seq<Seq<char>>,
)
    requires
        written(tokens, pos, operand_signs(expression, table)),
        expression.inner matches ExpressionModel::If { cond, then_, else_ } && {
            let one_ = operand_signs(*cond, table).len() as int;
            let two_ = operand_signs(*then_, table).len() as int;
            &&& gives(parse_primary(tokens, pos + 2, names), *cond, one_, first)
            &&& gives(parse_primary(tokens, pos + 3 + one_, first), *then_, two_, second)
            &&& gives(
                parse_primary(tokens, pos + 4 + one_ + two_, second),
                *else_,
                operand_signs(*else_, table).len() as int,
                after,
            )
        },
    ensures
        gives(
            parse_primary(tokens, pos, names),
            expression,
            operand_signs(expression, table).len() as int,
            after,
        ),
{
    if let ExpressionModel::If { cond, then_, else_ } = expression.inner {
        let a = operand_signs(*cond, table);
        let b = operand_signs(*then_, table);
        let c = operand_signs(*else_, table);
        let (la, lb, lc) = (a.len() as int, b.len() as int, c.len() as int);
        let inside = one(TokenKind::If) + a + one(TokenKind::Then) + b + one(TokenKind::Else) + c;
        assert(inside_signs(expression, table) == inside);
        written_apart(tokens, pos, one(TokenKind::LeftParen) + inside, one(TokenKind::RightParen));
        written_apart(tokens, pos, one(TokenKind::LeftParen), inside);
        written_apart(
            tokens,
            pos + 1,
            one(TokenKind::If) + a + one(TokenKind::Then) + b + one(TokenKind::Else),
            c,
        );
        written_apart(
            tokens,
            pos + 1,
            one(TokenKind::If) + a + one(TokenKind::Then) + b,
            one(TokenKind::Else),
        );
        written_apart(tokens, pos + 1, one(TokenKind::If) + a + one(TokenKind::Then), b);
        written_apart(tokens, pos + 1, one(TokenKind::If) + a, one(TokenKind::Then));
        written_apart(tokens, pos + 1, one(TokenKind::If), a);
        written_token(tokens, pos, one(TokenKind::LeftParen), 0);
        written_token(tokens, pos + 1, one(TokenKind::If), 0);
        written_token(tokens, pos + 2 + la, one(TokenKind::Then), 0);
        written_token(tokens, pos + 3 + la + lb, one(TokenKind::Else), 0);
        written_token(tokens, pos + 1 + inside.len(), one(TokenKind::RightParen), 0);
        closing_tokens_end_operands(tokens, pos + 2 + la);
        closing_tokens_end_operands(tokens, pos + 3 + la + lb);
        closing_tokens_end_operands(tokens, pos + 4 + la + lb + lc);
        primary_climbs(tokens, pos + 2, names, *cond, la, first, 3);
        primary_climbs(tokens, pos + 3 + la, first, *then_, lb, second, 3);
        primary_climbs(tokens, pos + 4 + la + lb, second, *else_, lc, after, 3);
        branches_read(tokens, pos + 1, names, first, second, after, expression, la, lb, lc);
        parentheses_read(tokens, pos, names, expression, la + lb + lc + 3, after);
    }
}

/// `if`, a condition, `then`, a branch, `else` and a branch are a
/// conditional.
pub proof fn branches_read(
    tokens: Seq<TokenModel>,
    pos: int,
    names: Seq<Seq<char>>,
    first: Seq<Seq<char>>,
    second: Seq<Seq<char>>,
    after: Seq<Seq<char>>,
    expression: Spanned<ExpressionModel>,
    la: int,
    lb: int,
    lc: int,
)
    requires
        kind_at(tokens, pos) is If,
        kind_at(tokens, pos + 1 + la) is Then,
        kind_at(tokens, pos + 2 + la + lb) is Else,
        expression.inner matches ExpressionModel::If { cond, then_, else_ } && {
            &&& gives(parse_expression(tokens, pos + 1, names), *cond, la, first)
            &&& gives(parse_expression(tokens, pos + 2 + la, first), *then_, lb, second)
            &&& gives(parse_expression(tokens, pos + 3 + la + lb, second), *else_, lc, after)
        },
    ensures
        gives(parse_expression(tokens, pos, names), expression, la + lb + lc + 3, after),
{
    reveal(parse_expression);
    reveal(parse_conditional);
    let whole = parse_conditional(tokens, pos, names);
    assert(whole.outcome is Ok);
    assert(erase_expression(whole.outcome->Ok_0.0) == erase_expression(expression));
}

/// A lambda, in parentheses, reads back, where interning the name of its
/// parameter gives its parameter.
pub proof fn lambda_reads(
    tokens: Seq<TokenModel>,
    pos: int,
    names: Seq<Seq<char>>,
    bound: Seq<Seq<char>>,
    after: Seq<Seq<char>>,
    expression: Spanned<ExpressionModel>,
    table: Seq<Seq<char>>,
)
    requires
        written(tokens, pos, operand_signs(expression, table)),
        expression.inner matches ExpressionModel::Primary(primary) && primary.inner matches PrimaryModel::Lambda {
            param,
            body,
        } && {
            &&& intern(names, name_of(table, param)) == (bound, param)
            &&& gives(
                parse_primary(tokens, pos + 5, bound),
                *body,
                operand_signs(*body, table).len() as int,
                after,
            )
        },
    ensures
        gives(
            parse_primary(tokens, pos, names),
            expression,
            operand_signs(expression, table).len() as int,
            after,
        ),
{
    if let ExpressionModel::Primary(primary) = expression.inner {
        if let PrimaryModel::Lambda { param, body } = primary.inner {
            let head = one(TokenKind::Lambda) + one(TokenKind::Ident(name_of(table, param))) + two(
                TokenKind::Dash,
                TokenKind::RightAngleBracket,
            );
            let inner = operand_signs(*body, table);
            let count = inner.len() as int;
            let inside = head + inner;
            assert(inside_signs(expression, table) == inside);
            written_apart(
                tokens,
                pos,
                one(TokenKind::LeftParen) + inside,
                one(TokenKind::RightParen),
            );
            written_apart(tokens, pos, one(TokenKind::LeftParen), inside);
            written_apart(tokens, pos + 1, head, inner);
            written_token(tokens, pos, one(TokenKind::LeftParen), 0);
            written_token(tokens, pos + 1, head, 0);
            written_token(tokens, pos + 1, head, 1);
            written_token(tokens, pos + 1, head, 2);
            written_token(tokens, pos + 1, head, 3);
            written_token(tokens, pos + 1 + inside.len(), one(TokenKind::RightParen), 0);
            let close = pos + 5 + count;
            closing_tokens_end_operands(tokens, close);
            primary_climbs(tokens, pos + 5, bound, *body, count, after, 3);
            arrow_reads(tokens, pos + 1, names, bound, after, expression, count);
            primary_climbs(tokens, pos + 1, names, expression, count + 4, after, 3);
            parentheses_read(tokens, pos, names, expression, count + 4, after);
        }
    }
}

/// `\`, a name, `->` and a body are a lambda.
pub proof fn arrow_reads(
    tokens: Seq<TokenModel>,
    pos: int,
    names: Seq<Seq<char>>,
    bound: Seq<Seq<char>>,
    after: Seq<Seq<char>>,
    expression: Spanned<ExpressionModel>,
    count: int,
)
    requires
        kind_at(tokens, pos) is Lambda,
        is_arrow(tokens, pos + 2),
        expression.inner matches ExpressionModel::Primary(primary) && primary.inner matches PrimaryModel::Lambda {
            param,
            body,
        } && {
            &&& kind_at(tokens, pos + 1) matches TokenKind::Ident(name) && intern(names, name) == (
                bound,
                param,
            )
            &&& gives(parse_expression(tokens, pos + 4, bound), *body, count, after)
        },
    ensures
        gives(parse_primary(tokens, pos, names), expression, count + 4, after),
{
    reveal(parse_primary);
    reveal(parse_lambda);
    reveal(parse_expression);
    let whole = parse_lambda(tokens, pos, names);
    assert(whole.outcome is Ok);
    assert(erase_expression(whole.outcome->Ok_0.0) == erase_expression(expression));
}

/// Whether the signs of `expression` as an operand parse back to
/// `expression`, wherever they are written, from the names `names` to the
/// names `after`.
pub open spec fn reads_back(
    expression: Spanned<ExpressionModel>,
    table: Seq<Seq<char>>,
    names: Seq<Seq<char>>,
    after: Seq<Seq<char>>,
) -> bool {
    forall|tokens: Seq<TokenModel>, pos: int| #[trigger]
        written(tokens, pos, operand_signs(expression, table)) ==> gives(
            parse_primary(tokens, pos, names),
            expression,
            operand_signs(expression, table).len() as int,
            after,
        )
}

/// Whether the signs `signs` can be written and end with a blank.
pub open spec fn sound_signs(signs: Seq<Sign>) -> bool {
    valid_signs(signs) && signs.len() > 0 && !signs.last().glued
}

/// Sound signs behind sound signs are sound.
pub proof fn sound_signs_join(first: Seq<Sign>, second: Seq<Sign>)
    requires
        sound_signs(first),
        sound_signs(second),
    ensures
        sound_signs(first + second),
    decreases first.len(),
{
    let whole = first + second;
    assert(whole.last() == second.last());
    assert(whole.drop_first() =~= first.drop_first() + second);
    assert(whole[0] == first[0]);
    if first.len() == 1 {
        assert(first.drop_first() + second =~= second);
    } else {
        assert(first.drop_first().last() == first.last());
        assert(whole[1] == first[1]);
        sound_signs_join(first.drop_first(), second);
    }
}

/// One token that can be written is sound.
pub proof fn one_is_sound(kind: TokenKind)
    requires
        writable(kind),
    ensures
        sound_signs(one(kind)),
        one(kind).len() == 1,
{
    assert(one(kind).drop_first() =~= Seq::<Sign>::empty());
    assert(valid_signs(one(kind).drop_first()));
}

/// Two tokens of one character each are sound.
pub proof fn two_is_sound(first: TokenKind, second: TokenKind)
    requires
        is_short(first),
        is_short(second),
    ensures
        sound_signs(two(first, second)),
        two(first, second).len() == 2,
{
    let signs = two(first, second);
    assert(signs.drop_first() =~= one(second));
    one_is_sound(second);
}

/// The signs of every operator are sound.
pub proof fn operator_is_sound(operator: BinaryOperator)
    ensures
        sound_signs(operator_signs(operator)),
{
    match operator {
        BinaryOperator::Equivalent => two_is_sound(TokenKind::Equals, TokenKind::Equals),
        BinaryOperator::NotEquivalent => two_is_sound(TokenKind::Bang, TokenKind::Equals),
        BinaryOperator::GreaterThan => one_is_sound(TokenKind::RightAngleBracket),
        BinaryOperator::LessThan => one_is_sound(TokenKind::LeftAngleBracket),
        BinaryOperator::GreaterThanOrEqual => two_is_sound(
            TokenKind::RightAngleBracket,
            TokenKind::Equals,
        ),
        BinaryOperator::LessThanOrEqual => two_is_sound(
            TokenKind::LeftAngleBracket,
            TokenKind::Equals,
        ),
        BinaryOperator::Add => one_is_sound(TokenKind::Plus),
        BinaryOperator::Sub => one_is_sound(TokenKind::Dash),
        BinaryOperator::Mul => one_is_sound(TokenKind::Star),
        BinaryOperator::Div => one_is_sound(TokenKind::Slash),
        BinaryOperator::Remainder => one_is_sound(TokenKind::Percent),
    }
}

/// Whether `expression` can be written with the names `table`, is written
/// soundly and reads back, from the names `names` to the names `after`.
pub open spec fn wrote(
    expression: Spanned<ExpressionModel>,
    table: Seq<Seq<char>>,
    names: Seq<Seq<char>>,
    after: Seq<Seq<char>>,
) -> bool {
    &&& reads_back(expression, table, names, after)
    &&& sound_signs(operand_signs(expression, table))
    &&& printable_expression(expression, table.len())
}

/// What is written of an expression does not depend on its own span.
pub proof fn wrote_any_span(
    expression: Spanned<ExpressionModel>,
    other: Spanned<ExpressionModel>,
    table: Seq<Seq<char>>,
    names: Seq<Seq<char>>,
    after: Seq<Seq<char>>,
)
    requires
        wrote(expression, table, names, after),
        other.inner == expression.inner,
    ensures
        wrote(other, table, names, after),
{
    assert(operand_signs(other, table) == operand_signs(expression, table));
    assert(inside_signs(other, table) == inside_signs(expression, table));
    assert(erase_expression(other) == erase_expression(expression));
    assert forall|tokens: Seq<TokenModel>, pos: int| #[trigger]
        written(tokens, pos, operand_signs(other, table)) implies gives(
        parse_primary(tokens, pos, names),
        other,
        operand_signs(other, table).len() as int,
        after,
    ) by {
        assert(written(tokens, pos, operand_signs(expression, table)));
    }
}

/// The signs of an expression in parentheses are sound where those inside
/// are.
pub proof fn parentheses_are_sound(inside: Seq<Sign>)
    requires
        sound_signs(inside),
    ensures
        sound_signs(one(TokenKind::LeftParen) + inside + one(TokenKind::RightParen)),
{
    one_is_sound(TokenKind::LeftParen);
    one_is_sound(TokenKind::RightParen);
    sound_signs_join(one(TokenKind::LeftParen), inside);
    sound_signs_join(one(TokenKind::LeftParen) + inside, one(TokenKind::RightParen));
}

/// A literal or a name is written and reads back.
pub proof fn atom_wrote(
    expression: Spanned<ExpressionModel>,
    table: Seq<Seq<char>>,
    names: Seq<Seq<char>>,
)
    requires
        is_atom(expression.inner),
        !(expression.inner matches ExpressionModel::Primary(primary) && primary.inner is Color),
        expression.inner matches ExpressionModel::Variable(identifier) ==> lookup(
            names,
            name_of(table, identifier),
        ) == Some(identifier) && writable(TokenKind::Ident(name_of(table, identifier)))
            && identifier.handle < table.len(),
        expression.inner matches ExpressionModel::Primary(primary) ==> (match primary.inner {
            PrimaryModel::String(text) => writable(TokenKind::String(text)),
            PrimaryModel::Number(NumberLiteralModel::Integer(value)) => writable(
                TokenKind::Int(value),
            ),
            PrimaryModel::Number(NumberLiteralModel::Decimal(text)) => writable(
                TokenKind::Float(text),
            ),
            _ => true,
        }),
    ensures
        wrote(expression, table, names, names),
{
    assert forall|tokens: Seq<TokenModel>, pos: int| #[trigger]
        written(tokens, pos, operand_signs(expression, table)) implies gives(
        parse_primary(tokens, pos, names),
        expression,
        operand_signs(expression, table).len() as int,
        names,
    ) by {
        atom_reads(tokens, pos, names, expression, table);
    }
    match expression.inner {
        ExpressionModel::Variable(identifier) => one_is_sound(
            TokenKind::Ident(name_of(table, identifier)),
        ),
        ExpressionModel::Primary(primary) => match primary.inner {
            PrimaryModel::String(text) => one_is_sound(TokenKind::String(text)),
            PrimaryModel::Number(NumberLiteralModel::Integer(value)) => one_is_sound(
                TokenKind::Int(value),
            ),
            PrimaryModel::Number(NumberLiteralModel::Decimal(text)) => one_is_sound(
                TokenKind::Float(text),
            ),
            PrimaryModel::Bool(value) => one_is_sound(TokenKind::Bool(value)),
            PrimaryModel::Unit => {
                one_is_sound(TokenKind::LeftParen);
                one_is_sound(TokenKind::RightParen);
                sound_signs_join(one(TokenKind::LeftParen), one(TokenKind::RightParen));
            },
            _ => {},
        },
        _ => {},
    }
}

/// A binary operator is written and reads back where its operands are
/// and do.
pub proof fn binary_wrote(
    expression: Spanned<ExpressionModel>,
    table: Seq<Seq<char>>,
    names: Seq<Seq<char>>,
    between: Seq<Seq<char>>,
    after: Seq<Seq<char>>,
)
    requires
        expression.inner matches ExpressionModel::Binary { operator, lhs, rhs } && wrote(
            *lhs,
            table,
            names,
            between,
        ) && wrote(*rhs, table, between, after),
    ensures
        wrote(expression, table, names, after),
{
    if let ExpressionModel::Binary { operator, lhs, rhs } = expression.inner {
        let left = operand_signs(*lhs, table);
        let sign = operator_signs(operator);
        let right = operand_signs(*rhs, table);
        let inside = left + sign + right;
        assert(inside_signs(expression, table) == inside);
        operator_is_sound(operator);
        sound_signs_join(left, sign);
        sound_signs_join(left + sign, right);
        parentheses_are_sound(inside);
        assert forall|tokens: Seq<TokenModel>, pos: int| #[trigger]
            written(tokens, pos, operand_signs(expression, table)) implies gives(
            parse_primary(tokens, pos, names),
            expression,
            operand_signs(expression, table).len() as int,
            after,
        ) by {
            written_apart(
                tokens,
                pos,
                one(TokenKind::LeftParen) + inside,
                one(TokenKind::RightParen),
            );
            written_apart(tokens, pos, one(TokenKind::LeftParen), inside);
            written_apart(tokens, pos + 1, left + sign, right);
            written_apart(tokens, pos + 1, left, sign);
            assert(written(tokens, pos + 1, left));
            assert(written(tokens, pos + 1 + left.len() + sign.len(), right));
            binary_reads(tokens, pos, names, between, after, expression, table);
        }
    }
}

/// A prefix operator is written and reads back where its operand is and
/// does.
pub proof fn unary_wrote(
    expression: Spanned<ExpressionModel>,
    table: Seq<Seq<char>>,
    names: Seq<Seq<char>>,
    after: Seq<Seq<char>>,
)
    requires
        expression.inner matches ExpressionModel::Unary { operator, rhs } && wrote(
            *rhs,
            table,
            names,
            after,
        ),
    ensures
        wrote(expression, table, names, after),
{
    if let ExpressionModel::Unary { operator, rhs } = expression.inner {
        let kind = match operator {
            UnaryOperator::Not => TokenKind::Bang,
            UnaryOperator::Negative => TokenKind::Dash,
        };
        let sign = one(kind);
        let right = operand_signs(*rhs, table);
        let inside = sign + right;
        assert(inside_signs(expression, table) == inside);
        one_is_sound(kind);
        sound_signs_join(sign, right);
        parentheses_are_sound(inside);
        assert forall|tokens: Seq<TokenModel>, pos: int| #[trigger]
            written(tokens, pos, operand_signs(expression, table)) implies gives(
            parse_primary(tokens, pos, names),
            expression,
            operand_signs(expression, table).len() as int,
            after,
        ) by {
            written_apart(
                tokens,
                pos,
                one(TokenKind::LeftParen) + inside,
                one(TokenKind::RightParen),
            );
            written_apart(tokens, pos, one(TokenKind::LeftParen), inside);
            written_apart(tokens, pos + 1, sign, right);
            assert(written(tokens, pos + 2, right));
            unary_reads(tokens, pos, names, after, expression, table);
        }
    }
}

/// An application is written and reads back where the function and the
/// argument are and do.
pub proof fn application_wrote(
    expression: Spanned<ExpressionModel>,
    table: Seq<Seq<char>>,
    names: Seq<Seq<char>>,
    between: Seq<Seq<char>>,
    after: Seq<Seq<char>>,
)
    requires
        expression.inner matches ExpressionModel::FunctionApplication { function, argument }
            && wrote(*function, table, names, between) && wrote(*argument, table, between, after),
    ensures
        wrote(expression, table, names, after),
{
    if let ExpressionModel::FunctionApplication { function, argument } = expression.inner {
        let left = operand_signs(*function, table);
        let right = operand_signs(*argument, table);
        let inside = left + right;
        assert(inside_signs(expression, table) == inside);
        sound_signs_join(left, right);
        parentheses_are_sound(inside);
        assert forall|tokens: Seq<TokenModel>, pos: int| #[trigger]
            written(tokens, pos, operand_signs(expression, table)) implies gives(
            parse_primary(tokens, pos, names),
            expression,
            operand_signs(expression, table).len() as int,
            after,
        ) by {
            written_apart(
                tokens,
                pos,
                one(TokenKind::LeftParen) + inside,
                one(TokenKind::RightParen),
            );
            written_apart(tokens, pos, one(TokenKind::LeftParen), inside);
            written_apart(tokens, pos + 1, left, right);
            assert(written(tokens, pos + 1, left));
            assert(written(tokens, pos + 1 + left.len(), right));
            application_reads(tokens, pos, names, between, after, expression, table);
        }
    }
}

/// A conditional is written and reads back where its three parts are and
/// do.
pub proof fn conditional_wrote(
    expression: Spanned<ExpressionModel>,
    table: Seq<Seq<char>>,
    names: Seq<Seq<char>>,
    first: Seq<Seq<char>>,
    second: Seq<Seq<char>>,
    after: Seq<Seq<char>>,
)
    requires
        expression.inner matches ExpressionModel::If { cond, then_, else_ } && wrote(
            *cond,
            table,
            names,
            first,
        ) && wrote(*then_, table, first, second) && wrote(*else_, table, second, after),
    ensures
        wrote(expression, table, names, after),
{
    if let ExpressionModel::If { cond, then_, else_ } = expression.inner {
        let a = operand_signs(*cond, table);
        let b = operand_signs(*then_, table);
        let c = operand_signs(*else_, table);
        let inside = one(TokenKind::If) + a + one(TokenKind::Then) + b + one(TokenKind::Else) + c;
        assert(inside_signs(expression, table) == inside);
        one_is_sound(TokenKind::If);
        one_is_sound(TokenKind::Then);
        one_is_sound(TokenKind::Else);
        sound_signs_join(one(TokenKind::If), a);
        sound_signs_join(one(TokenKind::If) + a, one(TokenKind::Then));
        sound_signs_join(one(TokenKind::If) + a + one(TokenKind::Then), b);
        sound_signs_join(one(TokenKind::If) + a + one(TokenKind::Then) + b, one(TokenKind::Else));
        sound_signs_join(
            one(TokenKind::If) + a + one(TokenKind::Then) + b + one(TokenKind::Else),
            c,
        );
        parentheses_are_sound(inside);
        assert forall|tokens: Seq<TokenModel>, pos: int| #[trigger]
            written(tokens, pos, operand_signs(expression, table)) implies gives(
            parse_primary(tokens, pos, names),
            expression,
            operand_signs(expression, table).len() as int,
            after,
        ) by {
            written_apart(
                tokens,
                pos,
                one(TokenKind::LeftParen) + inside,
                one(TokenKind::RightParen),
            );
            written_apart(tokens, pos, one(TokenKind::LeftParen), inside);
            written_apart(
                tokens,
                pos + 1,
                one(TokenKind::If) + a + one(TokenKind::Then) + b + one(TokenKind::Else),
                c,
            );
            written_apart(
                tokens,
                pos + 1,
                one(TokenKind::If) + a + one(TokenKind::Then) + b,
                one(TokenKind::Else),
            );
            written_apart(tokens, pos + 1, one(TokenKind::If) + a + one(TokenKind::Then), b);
            written_apart(tokens, pos + 1, one(TokenKind::If) + a, one(TokenKind::Then));
            written_apart(tokens, pos + 1, one(TokenKind::If), a);
            assert(written(tokens, pos + 2, a));
            assert(written(tokens, pos + 3 + a.len(), b));
            assert(written(tokens, pos + 4 + a.len() + b.len(), c));
            conditional_reads(tokens, pos, names, first, second, after, expression, table);
        }
    }
}

/// A lambda is written and reads back where its body is and does, and
/// interning the name of its parameter gives its parameter.
pub proof fn lambda_wrote(
    expression: Spanned<ExpressionModel>,
    table: Seq<Seq<char>>,
    names: Seq<Seq<char>>,
    bound: Seq<Seq<char>>,
    after: Seq<Seq<char>>,
)
    requires
        expression.inner matches ExpressionModel::Primary(primary) && primary.inner matches PrimaryModel::Lambda {
            param,
            body,
        } && {
            &&& intern(names, name_of(table, param)) == (bound, param)
            &&& writable(TokenKind::Ident(name_of(table, param)))
            &&& param.handle < table.len()
            &&& wrote(*body, table, bound, after)
        },
    ensures
        wrote(expression, table, names, after),
{
    if let ExpressionModel::Primary(primary) = expression.inner {
        if let PrimaryModel::Lambda { param, body } = primary.inner {
            let name = TokenKind::Ident(name_of(table, param));
            let arrow = two(TokenKind::Dash, TokenKind::RightAngleBracket);
            let head = one(TokenKind::Lambda) + one(name) + arrow;
            let inner = operand_signs(*body, table);
            let inside = head + inner;
            assert(inside_signs(expression, table) == inside);
            one_is_sound(TokenKind::Lambda);
            one_is_sound(name);
            two_is_sound(TokenKind::Dash, TokenKind::RightAngleBracket);
            sound_signs_join(one(TokenKind::Lambda), one(name));
            sound_signs_join(one(TokenKind::Lambda) + one(name), arrow);
            sound_signs_join(head, inner);
            parentheses_are_sound(inside);
            assert forall|tokens: Seq<TokenModel>, pos: int| #[trigger]
                written(tokens, pos, operand_signs(expression, table)) implies gives(
                parse_primary(tokens, pos, names),
                expression,
                operand_signs(expression, table).len() as int,
                after,
            ) by {
                written_apart(
                    tokens,
                    pos,
                    one(TokenKind::LeftParen) + inside,
                    one(TokenKind::RightParen),
                );
                written_apart(tokens, pos, one(TokenKind::LeftParen), inside);
                written_apart(tokens, pos + 1, head, inner);
                assert(head.len() == 4);
                assert(written(tokens, pos + 5, inner));
                lambda_reads(tokens, pos, names, bound, after, expression, table);
            }
        }
    }
}

/// Whether the signs of the type `ty` parse back to `ty` wherever they
/// are written and no `->` stands behind them.
pub open spec fn type_reads(ty: Type) -> bool {
    forall|tokens: Seq<TokenModel>, pos: int| #[trigger]
        written(tokens, pos, type_signs(ty)) && !is_arrow(tokens, pos + type_signs(ty).len())
            ==> parse_type(tokens, pos) == Ok::<(Type, nat), ParserError>(
            (ty, (type_signs(ty).len() - 1) as nat),
        )
}

/// Whether the signs of the type `ty` as the input of a function type or
/// the element of an array parse back to `ty` wherever they are written.
pub open spec fn base_type_reads(ty: Type) -> bool {
    forall|tokens: Seq<TokenModel>, pos: int| #[trigger]
        written(tokens, pos, base_type_signs(ty)) ==> parse_base_type(tokens, pos) == Ok::<
            (Type, nat),
            ParserError,
        >((ty, (base_type_signs(ty).len() - 1) as nat))
}

/// Whether the type `ty` can be written, is written soundly and reads
/// back.
pub open spec fn type_wrote(ty: Type) -> bool {
    type_reads(ty) && sound_signs(type_signs(ty)) && printable_type(ty)
}

/// Whether the type `ty` is written soundly and reads back as the input
/// of a function type or the element of an array.
pub open spec fn base_type_wrote(ty: Type) -> bool {
    base_type_reads(ty) && sound_signs(base_type_signs(ty)) && printable_base_type(ty)
}

/// A type that is no function type reads back as a type where it reads
/// back as a base type.
pub proof fn base_is_type(ty: Type)
    requires
        base_type_wrote(ty),
    ensures
        type_wrote(ty),
{
    assert(type_signs(ty) == base_type_signs(ty));
    assert forall|tokens: Seq<TokenModel>, pos: int| #[trigger]
        written(tokens, pos, type_signs(ty)) && !is_arrow(
            tokens,
            pos + type_signs(ty).len(),
        ) implies parse_type(tokens, pos) == Ok::<(Type, nat), ParserError>(
        (ty, (type_signs(ty).len() - 1) as nat),
    ) by {
        assert(written(tokens, pos, base_type_signs(ty)));
    }
}

/// A function type reads back where its input and its output do.
pub proof fn function_type_wrote(ty: Type)
    requires
        ty matches Type::Fun { input, output } && base_type_wrote(*input) && type_wrote(*output),
    ensures
        type_wrote(ty),
{
    if let Type::Fun { input, output } = ty {
        let left = base_type_signs(*input);
        let arrow = two(TokenKind::Dash, TokenKind::RightAngleBracket);
        let right = type_signs(*output);
        let whole = left + arrow + right;
        assert(type_signs(ty) == whole);
        two_is_sound(TokenKind::Dash, TokenKind::RightAngleBracket);
        sound_signs_join(left, arrow);
        sound_signs_join(left + arrow, right);
        assert forall|tokens: Seq<TokenModel>, pos: int| #[trigger]
            written(tokens, pos, type_signs(ty)) && !is_arrow(
                tokens,
                pos + type_signs(ty).len(),
            ) implies parse_type(tokens, pos) == Ok::<(Type, nat), ParserError>(
            (ty, (type_signs(ty).len() - 1) as nat),
        ) by {
            written_apart(tokens, pos, left + arrow, right);
            written_apart(tokens, pos, left, arrow);
            written_token(tokens, pos + left.len(), arrow, 0);
            written_token(tokens, pos + left.len(), arrow, 1);
            assert(written(tokens, pos, left));
            assert(written(tokens, pos + left.len() + 2, right));
            assert(is_arrow(tokens, pos + left.len()));
        }
    }
}

/// An array type reads back where its element does.
pub proof fn array_type_wrote(ty: Type)
    requires
        ty matches Type::Array(element) && type_wrote(*element),
    ensures
        base_type_wrote(ty),
{
    if let Type::Array(element) = ty {
        let inner = type_signs(*element);
        let whole = one(TokenKind::LeftBracket) + inner + one(TokenKind::RightBracket);
        assert(base_type_signs(ty) == whole);
        one_is_sound(TokenKind::LeftBracket);
        one_is_sound(TokenKind::RightBracket);
        sound_signs_join(one(TokenKind::LeftBracket), inner);
        sound_signs_join(one(TokenKind::LeftBracket) + inner, one(TokenKind::RightBracket));
        assert forall|tokens: Seq<TokenModel>, pos: int| #[trigger]
            written(tokens, pos, base_type_signs(ty)) implies parse_base_type(tokens, pos) == Ok::<
            (Type, nat),
            ParserError,
        >((ty, (base_type_signs(ty).len() - 1) as nat)) by {
            written_apart(
                tokens,
                pos,
                one(TokenKind::LeftBracket) + inner,
                one(TokenKind::RightBracket),
            );
            written_apart(tokens, pos, one(TokenKind::LeftBracket), inner);
            written_token(tokens, pos, one(TokenKind::LeftBracket), 0);
            written_token(tokens, pos + 1 + inner.len(), one(TokenKind::RightBracket), 0);
            assert(written(tokens, pos + 1, inner));
            assert(!is_arrow(tokens, pos + 1 + inner.len()));
        }
    }
}

/// A type with a name, and the unit type, read back.
pub proof fn plain_type_wrote(ty: Type)
    requires
        ty is String || ty is Number || ty is Color || ty is Bool || ty is Unit,
        base_type_signs(ty).len() == 1 ==> writable(base_type_signs(ty)[0].kind),
    ensures
        base_type_wrote(ty),
{
    reveal_strlit("String");
    reveal_strlit("Int");
    reveal_strlit("Color");
    reveal_strlit("Bool");
    assert("String"@.len() == 6);
    assert("Int"@.len() == 3);
    assert("Color"@.len() == 5);
    assert("Bool"@.len() == 4);
    let signs = base_type_signs(ty);
    if ty is Unit {
        one_is_sound(TokenKind::LeftParen);
        one_is_sound(TokenKind::RightParen);
        sound_signs_join(one(TokenKind::LeftParen), one(TokenKind::RightParen));
    } else {
        one_is_sound(signs[0].kind);
        assert(signs =~= one(signs[0].kind));
    }
    assert forall|tokens: Seq<TokenModel>, pos: int| #[trigger]
        written(tokens, pos, base_type_signs(ty)) implies parse_base_type(tokens, pos) == Ok::<
        (Type, nat),
        ParserError,
    >((ty, (base_type_signs(ty).len() - 1) as nat)) by {
        written_token(tokens, pos, signs, 0);
        if ty is Unit {
            written_token(tokens, pos, signs, 1);
        }
    }
}

} // verus!
