//! Writing a program back as source text.
//!
//! A program is written as a sequence of signs, the tokens to write, and
//! the signs as text: every token by its own text, with one blank behind
//! it unless the next token has to follow at once. Every expression that
//! is no literal and no name is written in parentheses, so that the text
//! groups as the tree does, whatever the operators are.

use crate::parser::ast::expression_model;
use crate::parser::ast::primary_model;
use crate::parser::ast::statement_models;
use crate::parser::ast::BinaryOperator;
use crate::parser::ast::Expression;
use crate::parser::ast::IdentifierMap;
use crate::parser::ast::NumberLiteral;
use crate::parser::ast::Primary;
use crate::parser::ast::Statement;
use crate::parser::ast::ExpressionModel;
use crate::parser::ast::Identifier;
use crate::parser::ast::NumberLiteralModel;
use crate::parser::ast::PrimaryModel;
use crate::parser::ast::StatementModel;
use crate::parser::ast::UnaryOperator;
use crate::scan::TokenKind;
use crate::tc::variant::Type;
use crate::utils::Spanned;
use vstd::prelude::*;
use vstd::string::StringExecFns;

verus! {

/// A token to write, and whether the next token follows it without a
/// blank.
pub struct Sign {
    pub kind: TokenKind,
    pub glued: bool,
}

/// A token with a blank behind it.
pub open spec fn one(kind: TokenKind) -> Seq<Sign> {
    seq![Sign { kind, glued: false }]
}

/// Two tokens without a blank between them.
pub open spec fn two(first: TokenKind, second: TokenKind) -> Seq<Sign> {
    seq![Sign { kind: first, glued: true }, Sign { kind: second, glued: false }]
}

/// The signs of a binary operator.
pub open spec fn operator_signs(operator: BinaryOperator) -> Seq<Sign> {
    match operator {
        BinaryOperator::Equivalent => two(TokenKind::Equals, TokenKind::Equals),
        BinaryOperator::NotEquivalent => two(TokenKind::Bang, TokenKind::Equals),
        BinaryOperator::GreaterThan => one(TokenKind::RightAngleBracket),
        BinaryOperator::LessThan => one(TokenKind::LeftAngleBracket),
        BinaryOperator::GreaterThanOrEqual => two(TokenKind::RightAngleBracket, TokenKind::Equals),
        BinaryOperator::LessThanOrEqual => two(TokenKind::LeftAngleBracket, TokenKind::Equals),
        BinaryOperator::Add => one(TokenKind::Plus),
        BinaryOperator::Sub => one(TokenKind::Dash),
        BinaryOperator::Mul => one(TokenKind::Star),
        BinaryOperator::Div => one(TokenKind::Slash),
        BinaryOperator::Remainder => one(TokenKind::Percent),
    }
}

/// The name of `identifier` in the table `table`.
pub open spec fn name_of(table: Seq<Seq<char>>, identifier: Identifier) -> Seq<char> {
    table[identifier.handle as int]
}

/// Whether `expression` is written without parentheses: it is a name or a
/// literal.
pub open spec fn is_atom(expression: ExpressionModel) -> bool {
    match expression {
        ExpressionModel::Variable(_) => true,
        ExpressionModel::Primary(primary) => !(primary.inner is Lambda),
        _ => false,
    }
}

/// The signs of a name or a literal.
pub open spec fn atom_signs(expression: ExpressionModel, table: Seq<Seq<char>>) -> Seq<Sign> {
    match expression {
        ExpressionModel::Variable(identifier) => one(TokenKind::Ident(name_of(table, identifier))),
        ExpressionModel::Primary(primary) => match primary.inner {
            PrimaryModel::String(text) => one(TokenKind::String(text)),
            PrimaryModel::Number(NumberLiteralModel::Integer(value)) => one(TokenKind::Int(value)),
            PrimaryModel::Number(NumberLiteralModel::Decimal(text)) => one(TokenKind::Float(text)),
            PrimaryModel::Bool(value) => one(TokenKind::Bool(value)),
            PrimaryModel::Unit => one(TokenKind::LeftParen) + one(TokenKind::RightParen),
            _ => seq![],
        },
        _ => seq![],
    }
}

/// The signs of `expression` as an operand: those of a name or a literal
/// as they are, every other expression in parentheses.
pub open spec fn operand_signs(expression: Spanned<ExpressionModel>, table: Seq<Seq<char>>) -> Seq<
    Sign,
>
    decreases expression, 1nat,
{
    if is_atom(expression.inner) {
        atom_signs(expression.inner, table)
    } else {
        one(TokenKind::LeftParen) + inside_signs(expression, table) + one(TokenKind::RightParen)
    }
}

/// The signs of an expression that is no name and no literal, without the
/// parentheses around it.
pub open spec fn inside_signs(expression: Spanned<ExpressionModel>, table: Seq<Seq<char>>) -> Seq<
    Sign,
>
    decreases expression, 0nat,
{
    match expression.inner {
        ExpressionModel::If { cond, then_, else_ } => one(TokenKind::If) + operand_signs(
            *cond,
            table,
        ) + one(TokenKind::Then) + operand_signs(*then_, table) + one(TokenKind::Else)
            + operand_signs(*else_, table),
        ExpressionModel::Binary { operator, lhs, rhs } => operand_signs(*lhs, table)
            + operator_signs(operator) + operand_signs(*rhs, table),
        ExpressionModel::Unary { operator, rhs } => one(
            match operator {
                UnaryOperator::Not => TokenKind::Bang,
                UnaryOperator::Negative => TokenKind::Dash,
            },
        ) + operand_signs(*rhs, table),
        ExpressionModel::FunctionApplication { function, argument } => operand_signs(
            *function,
            table,
        ) + operand_signs(*argument, table),
        ExpressionModel::Primary(primary) => match primary.inner {
            PrimaryModel::Lambda { param, body } => one(TokenKind::Lambda) + one(
                TokenKind::Ident(name_of(table, param)),
            ) + two(TokenKind::Dash, TokenKind::RightAngleBracket) + operand_signs(*body, table),
            _ => seq![],
        },
        _ => seq![],
    }
}

/// The signs of a type that is no function type.
pub open spec fn base_type_signs(ty: Type) -> Seq<Sign>
    decreases ty, 0nat,
{
    match ty {
        Type::String => one(TokenKind::Ident("String"@)),
        Type::Number => one(TokenKind::Ident("Int"@)),
        Type::Color => one(TokenKind::Ident("Color"@)),
        Type::Bool => one(TokenKind::Ident("Bool"@)),
        Type::Unit => one(TokenKind::LeftParen) + one(TokenKind::RightParen),
        Type::Array(element) => one(TokenKind::LeftBracket) + type_signs(*element) + one(
            TokenKind::RightBracket,
        ),
        _ => seq![],
    }
}

/// The signs of a type: a function type as its input, `->` and its
/// output.
pub open spec fn type_signs(ty: Type) -> Seq<Sign>
    decreases ty, 1nat,
{
    match ty {
        Type::Fun { input, output } => base_type_signs(*input) + two(
            TokenKind::Dash,
            TokenKind::RightAngleBracket,
        ) + type_signs(*output),
        _ => base_type_signs(ty),
    }
}

/// The signs of a statement, with the line end behind it.
pub open spec fn statement_signs(statement: StatementModel, table: Seq<Seq<char>>) -> Seq<Sign> {
    match statement {
        StatementModel::Assignment { ident, expr, type_ascription } => one(
            TokenKind::Ident(name_of(table, ident)),
        ) + one(TokenKind::Equals) + operand_signs(expr, table) + (match type_ascription {
            Some(type_) => two(TokenKind::Colon, TokenKind::Colon) + type_signs(type_),
            None => seq![],
        }) + one(TokenKind::NewLine),
        StatementModel::TypeAscription { ident, type_ } => one(
            TokenKind::Ident(name_of(table, ident)),
        ) + two(TokenKind::Colon, TokenKind::Colon) + type_signs(type_) + one(TokenKind::NewLine),
        StatementModel::Include { path } => one(TokenKind::Ident("include"@)) + one(
            TokenKind::String(path),
        ) + one(TokenKind::NewLine),
    }
}

/// The signs of the statements of a program, one line each.
pub open spec fn program_signs(statements: Seq<Spanned<StatementModel>>, table: Seq<Seq<char>>) -> Seq<
    Sign,
>
    decreases statements.len(),
{
    if statements.len() == 0 {
        seq![]
    } else {
        statement_signs(statements[0].inner, table) + program_signs(statements.drop_first(), table)
    }
}

/// The digit that writes `value`, which is below ten.
pub open spec fn digit_char(value: nat) -> char {
    if value == 0 {
        '0'
    } else if value == 1 {
        '1'
    } else if value == 2 {
        '2'
    } else if value == 3 {
        '3'
    } else if value == 4 {
        '4'
    } else if value == 5 {
        '5'
    } else if value == 6 {
        '6'
    } else if value == 7 {
        '7'
    } else if value == 8 {
        '8'
    } else {
        '9'
    }
}

/// The decimal digits that write `value`.
pub open spec fn digits_of(value: nat) -> Seq<char>
    decreases value,
{
    if value < 10 {
        seq![digit_char(value)]
    } else {
        digits_of(value / 10).push(digit_char(value % 10))
    }
}

/// The character of a token that is one character.
pub open spec fn short_text(kind: TokenKind) -> char {
    match kind {
        TokenKind::Lambda => '\\',
        TokenKind::LeftParen => '(',
        TokenKind::RightParen => ')',
        TokenKind::LeftBracket => '[',
        TokenKind::RightBracket => ']',
        TokenKind::Equals => '=',
        TokenKind::Plus => '+',
        TokenKind::Dash => '-',
        TokenKind::Slash => '/',
        TokenKind::Star => '*',
        TokenKind::Percent => '%',
        TokenKind::Bang => '!',
        TokenKind::LeftAngleBracket => '<',
        TokenKind::RightAngleBracket => '>',
        TokenKind::Colon => ':',
        TokenKind::Ampersand => '&',
        TokenKind::Bar => '|',
        _ => '^',
    }
}

/// Whether a token of the kind `kind` is written as a word.
pub open spec fn is_word(kind: TokenKind) -> bool {
    kind is Ident || kind is Int || kind is Float || kind is Bool || kind is If || kind is Then
        || kind is Else || kind is Let || kind is In
}

/// The text of a token of the kind `kind`.
pub open spec fn kind_text(kind: TokenKind) -> Seq<char> {
    match kind {
        TokenKind::Ident(name) => name,
        TokenKind::String(text) => seq!['"'] + text + seq!['"'],
        TokenKind::Int(value) => digits_of(value as nat),
        TokenKind::Float(text) => text,
        TokenKind::Bool(value) => if value {
            "True"@
        } else {
            "False"@
        },
        TokenKind::If => "if"@,
        TokenKind::Then => "then"@,
        TokenKind::Else => "else"@,
        TokenKind::Let => "let"@,
        TokenKind::In => "in"@,
        TokenKind::NewLine => seq!['\n'],
        TokenKind::Eof => seq![],
        other => seq![short_text(other)],
    }
}

/// The text of the signs `signs`: the text of every token, with one blank
/// behind it unless the next token follows at once.
pub open spec fn render(signs: Seq<Sign>) -> Seq<char>
    decreases signs.len(),
{
    if signs.len() == 0 {
        seq![]
    } else {
        kind_text(signs[0].kind) + (if signs[0].glued {
            seq![]
        } else {
            seq![' ']
        }) + render(signs.drop_first())
    }
}

/// The text that writes the program `statements` with the names `table`.
pub open spec fn printed(statements: Seq<Spanned<StatementModel>>, table: Seq<Seq<char>>) -> Seq<
    char,
> {
    render(program_signs(statements, table))
}

/// Whether `expression` can be written with a table of `count` names:
/// the table holds every identifier, no integer is negative, and no
/// literal is a colour, for which there is no syntax.
pub open spec fn printable_expression(expression: Spanned<ExpressionModel>, count: nat) -> bool
    decreases expression,
{
    match expression.inner {
        ExpressionModel::If { cond, then_, else_ } => printable_expression(*cond, count)
            && printable_expression(*then_, count) && printable_expression(*else_, count),
        ExpressionModel::Binary { operator, lhs, rhs } => printable_expression(*lhs, count)
            && printable_expression(*rhs, count),
        ExpressionModel::Unary { operator, rhs } => printable_expression(*rhs, count),
        ExpressionModel::FunctionApplication { function, argument } => printable_expression(
            *function,
            count,
        ) && printable_expression(*argument, count),
        ExpressionModel::Variable(identifier) => identifier.handle < count,
        ExpressionModel::Primary(primary) => match primary.inner {
            PrimaryModel::Lambda { param, body } => param.handle < count && printable_expression(
                *body,
                count,
            ),
            PrimaryModel::Number(NumberLiteralModel::Integer(value)) => value >= 0,
            PrimaryModel::Color(_) => false,
            _ => true,
        },
    }
}

/// Whether the type `ty` can be written as the input of a function type:
/// it is known and no function type, and so is what it is built from.
pub open spec fn printable_base_type(ty: Type) -> bool
    decreases ty, 0nat,
{
    match ty {
        Type::Infer => false,
        Type::Fun { .. } => false,
        Type::Array(element) => printable_type(*element),
        _ => true,
    }
}

/// Whether the type `ty` can be written: it holds no unknown type, and no
/// function type is the input of a function type.
pub open spec fn printable_type(ty: Type) -> bool
    decreases ty, 1nat,
{
    match ty {
        Type::Fun { input, output } => printable_base_type(*input) && printable_type(*output),
        _ => printable_base_type(ty),
    }
}

/// Whether `statement` can be written with a table of `count` names.
pub open spec fn printable_statement(statement: StatementModel, count: nat) -> bool {
    match statement {
        StatementModel::Assignment { ident, expr, type_ascription } => ident.handle < count
            && printable_expression(expr, count) && (type_ascription matches Some(type_)
            ==> printable_type(type_)),
        StatementModel::TypeAscription { ident, type_ } => ident.handle < count && printable_type(
            type_,
        ),
        StatementModel::Include { path } => true,
    }
}

/// Whether every statement of `statements` can be written with a table of
/// `count` names.
pub open spec fn printable(statements: Seq<Spanned<StatementModel>>, count: nat) -> bool
    decreases statements.len(),
{
    if statements.len() == 0 {
        true
    } else {
        printable_statement(statements[0].inner, count) && printable(
            statements.drop_first(),
            count,
        )
    }
}

/// The text of signs behind signs is the text of the first behind that of
/// the second.
pub proof fn render_join(first: Seq<Sign>, second: Seq<Sign>)
    ensures
        render(first + second) == render(first) + render(second),
    decreases first.len(),
{
    if first.len() == 0 {
        assert(first + second =~= second);
        assert(render(first) + render(second) =~= render(second));
    } else {
        assert((first + second).drop_first() =~= first.drop_first() + second);
        render_join(first.drop_first(), second);
        let head = kind_text(first[0].kind) + (if first[0].glued {
            Seq::<char>::empty()
        } else {
            seq![' ']
        });
        assert(render(first + second) == head + render(first.drop_first() + second));
        assert(head + (render(first.drop_first()) + render(second)) =~= (head + render(
            first.drop_first(),
        )) + render(second));
    }
}

/// The text of one token is its text and a blank.
pub proof fn render_one(kind: TokenKind)
    ensures
        render(one(kind)) == kind_text(kind) + seq![' '],
{
    assert(one(kind).drop_first() =~= Seq::<Sign>::empty());
    assert(render(one(kind).drop_first()) =~= Seq::<char>::empty());
    assert(kind_text(kind) + seq![' '] + Seq::<char>::empty() =~= kind_text(kind) + seq![' ']);
}

/// The text of two glued tokens is the text of both and a blank.
pub proof fn render_two(first: TokenKind, second: TokenKind)
    ensures
        render(two(first, second)) == kind_text(first) + kind_text(second) + seq![' '],
{
    assert(two(first, second).drop_first() =~= one(second));
    render_one(second);
    assert(kind_text(first) + Seq::<char>::empty() + (kind_text(second) + seq![' '])
        =~= kind_text(first) + kind_text(second) + seq![' ']);
}

/// Writes a token that is one character, and a blank.
fn write_mark(out: &mut String, kind: char, Ghost(token): Ghost<TokenKind>)
    requires
        kind_text(token) == seq![kind],
    ensures
        final(out)@ == old(out)@ + render(one(token)),
{
    let ghost before = out@;
    out.push(kind);
    out.push(' ');
    proof {
        render_one(token);
        assert(before.push(kind).push(' ') =~= before + (seq![kind] + seq![' ']));
    }
}

/// Writes two tokens that are one character each, without a blank between
/// them, and a blank.
fn write_pair(
    out: &mut String,
    first: char,
    second: char,
    Ghost(one_): Ghost<TokenKind>,
    Ghost(two_): Ghost<TokenKind>,
)
    requires
        kind_text(one_) == seq![first],
        kind_text(two_) == seq![second],
    ensures
        final(out)@ == old(out)@ + render(two(one_, two_)),
{
    let ghost before = out@;
    out.push(first);
    out.push(second);
    out.push(' ');
    proof {
        render_two(one_, two_);
        assert(before.push(first).push(second).push(' ') =~= before + (seq![first] + seq![second]
            + seq![' ']));
    }
}

/// Writes a token whose text is `text`, and a blank.
fn write_word(out: &mut String, text: &str, Ghost(token): Ghost<TokenKind>)
    requires
        kind_text(token) == text@,
    ensures
        final(out)@ == old(out)@ + render(one(token)),
{
    let ghost before = out@;
    out.append(text);
    out.push(' ');
    proof {
        render_one(token);
        assert((before + text@).push(' ') =~= before + (text@ + seq![' ']));
    }
}

/// The digit that writes `value`, which is below ten.
fn digit_of(value: u64) -> (out: char)
    requires
        value < 10,
    ensures
        out == digit_char(value as nat),
{
    if value == 0 {
        '0'
    } else if value == 1 {
        '1'
    } else if value == 2 {
        '2'
    } else if value == 3 {
        '3'
    } else if value == 4 {
        '4'
    } else if value == 5 {
        '5'
    } else if value == 6 {
        '6'
    } else if value == 7 {
        '7'
    } else if value == 8 {
        '8'
    } else {
        '9'
    }
}

/// Writes the decimal digits of `value`.
fn write_digits(out: &mut String, value: u64)
    ensures
        final(out)@ == old(out)@ + digits_of(value as nat),
    decreases value,
{
    let ghost before = out@;
    if value < 10 {
        out.push(digit_of(value));
        proof {
            assert(before.push(digit_char(value as nat)) =~= before + digits_of(value as nat));
        }
    } else {
        write_digits(out, value / 10);
        out.push(digit_of(value % 10));
        proof {
            assert((before + digits_of((value / 10) as nat)).push(digit_char((value % 10) as nat))
                =~= before + digits_of(value as nat));
        }
    }
}

/// Writes the signs of a binary operator.
fn write_operator(out: &mut String, operator: BinaryOperator)
    ensures
        final(out)@ == old(out)@ + render(operator_signs(operator)),
{
    match operator {
        BinaryOperator::Equivalent => write_pair(
            out,
            '=',
            '=',
            Ghost(TokenKind::Equals),
            Ghost(TokenKind::Equals),
        ),
        BinaryOperator::NotEquivalent => write_pair(
            out,
            '!',
            '=',
            Ghost(TokenKind::Bang),
            Ghost(TokenKind::Equals),
        ),
        BinaryOperator::GreaterThan => write_mark(out, '>', Ghost(TokenKind::RightAngleBracket)),
        BinaryOperator::LessThan => write_mark(out, '<', Ghost(TokenKind::LeftAngleBracket)),
        BinaryOperator::GreaterThanOrEqual => write_pair(
            out,
            '>',
            '=',
            Ghost(TokenKind::RightAngleBracket),
            Ghost(TokenKind::Equals),
        ),
        BinaryOperator::LessThanOrEqual => write_pair(
            out,
            '<',
            '=',
            Ghost(TokenKind::LeftAngleBracket),
            Ghost(TokenKind::Equals),
        ),
        BinaryOperator::Add => write_mark(out, '+', Ghost(TokenKind::Plus)),
        BinaryOperator::Sub => write_mark(out, '-', Ghost(TokenKind::Dash)),
        BinaryOperator::Mul => write_mark(out, '*', Ghost(TokenKind::Star)),
        BinaryOperator::Div => write_mark(out, '/', Ghost(TokenKind::Slash)),
        BinaryOperator::Remainder => write_mark(out, '%', Ghost(TokenKind::Percent)),
    }
}

/// Writes the signs of a type that is no function type; see
/// [`base_type_signs`]. Gives `false`, and writes no matter what, where
/// the type cannot be written.
fn write_base_type(out: &mut String, ty: &Type) -> (ok: bool)
    ensures
        ok == printable_base_type(*ty),
        ok ==> final(out)@ == old(out)@ + render(base_type_signs(*ty)),
    decreases *ty, 0nat,
{
    let ghost before = out@;
    match ty {
        Type::String => {
            write_word(out, "String", Ghost(TokenKind::Ident("String"@)));
            true
        },
        Type::Number => {
            write_word(out, "Int", Ghost(TokenKind::Ident("Int"@)));
            true
        },
        Type::Color => {
            write_word(out, "Color", Ghost(TokenKind::Ident("Color"@)));
            true
        },
        Type::Bool => {
            write_word(out, "Bool", Ghost(TokenKind::Ident("Bool"@)));
            true
        },
        Type::Unit => {
            write_mark(out, '(', Ghost(TokenKind::LeftParen));
            write_mark(out, ')', Ghost(TokenKind::RightParen));
            proof {
                render_join(one(TokenKind::LeftParen), one(TokenKind::RightParen));
                assert(before + render(one(TokenKind::LeftParen)) + render(
                    one(TokenKind::RightParen),
                ) =~= before + (render(one(TokenKind::LeftParen)) + render(
                    one(TokenKind::RightParen),
                )));
            }
            true
        },
        Type::Array(element) => {
            write_mark(out, '[', Ghost(TokenKind::LeftBracket));
            if !write_type(out, element) {
                return false;
            }
            write_mark(out, ']', Ghost(TokenKind::RightBracket));
            proof {
                let open = one(TokenKind::LeftBracket);
                let inner = type_signs(**element);
                let close = one(TokenKind::RightBracket);
                render_join(open, inner);
                render_join(open + inner, close);
                assert(before + render(open) + render(inner) + render(close) =~= before + (render(
                    open,
                ) + render(inner) + render(close)));
            }
            true
        },
        _ => false,
    }
}

/// Writes the signs of a type; see [`type_signs`]. Gives `false`, and
/// writes no matter what, where the type cannot be written.
fn write_type(out: &mut String, ty: &Type) -> (ok: bool)
    ensures
        ok == printable_type(*ty),
        ok ==> final(out)@ == old(out)@ + render(type_signs(*ty)),
    decreases *ty, 1nat,
{
    let ghost before = out@;
    match ty {
        Type::Fun { input, output } => {
            if !write_base_type(out, input) {
                return false;
            }
            write_pair(
                out,
                '-',
                '>',
                Ghost(TokenKind::Dash),
                Ghost(TokenKind::RightAngleBracket),
            );
            if !write_type(out, output) {
                return false;
            }
            proof {
                let left = base_type_signs(**input);
                let arrow = two(TokenKind::Dash, TokenKind::RightAngleBracket);
                let right = type_signs(**output);
                render_join(left, arrow);
                render_join(left + arrow, right);
                assert(before + render(left) + render(arrow) + render(right) =~= before + (render(
                    left,
                ) + render(arrow) + render(right)));
            }
            true
        },
        _ => write_base_type(out, ty),
    }
}

/// The text of an expression in parentheses.
proof fn render_parentheses(inside: Seq<Sign>)
    ensures
        render(one(TokenKind::LeftParen) + inside + one(TokenKind::RightParen)) == render(
            one(TokenKind::LeftParen),
        ) + render(inside) + render(one(TokenKind::RightParen)),
{
    render_join(one(TokenKind::LeftParen), inside);
    render_join(one(TokenKind::LeftParen) + inside, one(TokenKind::RightParen));
}

/// Writes the signs of a literal; see [`atom_signs`]. Gives `false`, and
/// writes no matter what, where the literal cannot be written.
fn write_literal(out: &mut String, primary: &Primary) -> (ok: bool)
    requires
        !(primary is Lambda),
    ensures
        ok == (!(primary is Color) && !(primary matches Primary::Number(
            NumberLiteral::Integer(value),
        ) && value < 0)),
        ok ==> final(out)@ == old(out)@ + render(
            atom_signs(
                ExpressionModel::Primary(Spanned { span: 0..0, inner: primary@ }),
                Seq::empty(),
            ),
        ),
{
    let ghost before = out@;
    match primary {
        Primary::String(text) => {
            out.push('"');
            out.append(text.as_str());
            out.push('"');
            out.push(' ');
            proof {
                render_one(TokenKind::String(text@));
                assert((before.push('"') + text@).push('"').push(' ') =~= before + (seq!['"']
                    + text@ + seq!['"'] + seq![' ']));
            }
            true
        },
        Primary::Number(NumberLiteral::Integer(value)) => {
            if *value < 0 {
                return false;
            }
            write_digits(out, *value as u64);
            out.push(' ');
            proof {
                render_one(TokenKind::Int(*value));
                assert((before + digits_of(*value as nat)).push(' ') =~= before + (digits_of(
                    *value as nat,
                ) + seq![' ']));
            }
            true
        },
        Primary::Number(NumberLiteral::Decimal(text)) => {
            write_word(out, text.as_str(), Ghost(TokenKind::Float(text@)));
            true
        },
        Primary::Bool(value) => {
            if *value {
                write_word(out, "True", Ghost(TokenKind::Bool(true)));
            } else {
                write_word(out, "False", Ghost(TokenKind::Bool(false)));
            }
            true
        },
        Primary::Unit => {
            write_mark(out, '(', Ghost(TokenKind::LeftParen));
            write_mark(out, ')', Ghost(TokenKind::RightParen));
            proof {
                render_join(one(TokenKind::LeftParen), one(TokenKind::RightParen));
                assert(before + render(one(TokenKind::LeftParen)) + render(
                    one(TokenKind::RightParen),
                ) =~= before + (render(one(TokenKind::LeftParen)) + render(
                    one(TokenKind::RightParen),
                )));
            }
            true
        },
        _ => false,
    }
}

/// The text of what is written around the text `inside` of the signs
/// `signs` in parentheses, behind `before`.
proof fn render_around(before: Seq<char>, inside: Seq<char>, signs: Seq<Sign>)
    requires
        inside == render(signs),
    ensures
        before + render(one(TokenKind::LeftParen)) + inside + render(one(TokenKind::RightParen))
            == before + render(one(TokenKind::LeftParen) + signs + one(TokenKind::RightParen)),
{
    render_parentheses(signs);
    assert(before + render(one(TokenKind::LeftParen)) + inside + render(
        one(TokenKind::RightParen),
    ) =~= before + (render(one(TokenKind::LeftParen)) + inside + render(
        one(TokenKind::RightParen),
    )));
}

/// Writes a lambda in parentheses.
fn write_lambda(out: &mut String, expression: &Spanned<Expression>, names: &IdentifierMap) -> (ok:
    bool)
    requires
        expression.inner matches Expression::Primary(primary) && primary.inner is Lambda,
    ensures
        ok == printable_expression(expression@, names@.len()),
        ok ==> final(out)@ == old(out)@ + render(operand_signs(expression@, names@)),
    decreases *expression, 0nat,
{
    let ghost before = out@;
    let ghost table = names@;
    if let Expression::Primary(primary) = &expression.inner {
        proof {
            assert(expression@.inner == ExpressionModel::Primary(primary@));
        }
        if let Primary::Lambda { param, body } = &primary.inner {
            let name = match names.get(param) {
                Some(name) => name,
                None => {
                    return false;
                },
            };
            write_mark(out, '(', Ghost(TokenKind::LeftParen));
            let ghost opened = out@;
            write_mark(out, '\\', Ghost(TokenKind::Lambda));
            write_word(out, name.as_str(), Ghost(TokenKind::Ident(name@)));
            write_pair(
                out,
                '-',
                '>',
                Ghost(TokenKind::Dash),
                Ghost(TokenKind::RightAngleBracket),
            );
            if !write_operand(out, body, names) {
                return false;
            }
            let ghost inside = out@.subrange(opened.len() as int, out@.len() as int);
            write_mark(out, ')', Ghost(TokenKind::RightParen));
            proof {
                let a = one(TokenKind::Lambda);
                let b = one(TokenKind::Ident(name@));
                let c = two(TokenKind::Dash, TokenKind::RightAngleBracket);
                let d = operand_signs(body@, table);
                let signs = a + b + c + d;
                assert(inside_signs(expression@, table) == signs);
                render_join(a, b);
                render_join(a + b, c);
                render_join(a + b + c, d);
                assert(inside =~= render(a) + render(b) + render(c) + render(d));
                assert(opened + render(a) + render(b) + render(c) + render(d) =~= opened + inside);
                render_around(before, inside, signs);
            }
            return true;
        }
    }
    false
}

/// Writes a conditional in parentheses.
fn write_conditional(out: &mut String, expression: &Spanned<Expression>, names: &IdentifierMap) -> (ok:
    bool)
    requires
        expression.inner is If,
    ensures
        ok == printable_expression(expression@, names@.len()),
        ok ==> final(out)@ == old(out)@ + render(operand_signs(expression@, names@)),
    decreases *expression, 0nat,
{
    let ghost before = out@;
    let ghost table = names@;
    if let Expression::If { cond, then_, else_ } = &expression.inner {
        write_mark(out, '(', Ghost(TokenKind::LeftParen));
        let ghost opened = out@;
        write_word(out, "if", Ghost(TokenKind::If));
        if !write_operand(out, cond, names) {
            return false;
        }
        write_word(out, "then", Ghost(TokenKind::Then));
        if !write_operand(out, then_, names) {
            return false;
        }
        write_word(out, "else", Ghost(TokenKind::Else));
        if !write_operand(out, else_, names) {
            return false;
        }
        let ghost inside = out@.subrange(opened.len() as int, out@.len() as int);
        write_mark(out, ')', Ghost(TokenKind::RightParen));
        proof {
            let a = one(TokenKind::If);
            let b = operand_signs(cond@, table);
            let c = one(TokenKind::Then);
            let d = operand_signs(then_@, table);
            let e = one(TokenKind::Else);
            let f = operand_signs(else_@, table);
            let signs = a + b + c + d + e + f;
            assert(inside_signs(expression@, table) == signs);
            render_join(a, b);
            render_join(a + b, c);
            render_join(a + b + c, d);
            render_join(a + b + c + d, e);
            render_join(a + b + c + d + e, f);
            assert(inside =~= render(a) + render(b) + render(c) + render(d) + render(e) + render(
                f,
            ));
            assert(opened + render(a) + render(b) + render(c) + render(d) + render(e) + render(f)
                =~= opened + inside);
            render_around(before, inside, signs);
        }
        return true;
    }
    false
}

/// Writes a binary operator with its operands in parentheses.
fn write_binary(out: &mut String, expression: &Spanned<Expression>, names: &IdentifierMap) -> (ok:
    bool)
    requires
        expression.inner is Binary,
    ensures
        ok == printable_expression(expression@, names@.len()),
        ok ==> final(out)@ == old(out)@ + render(operand_signs(expression@, names@)),
    decreases *expression, 0nat,
{
    let ghost before = out@;
    let ghost table = names@;
    if let Expression::Binary { operator, lhs, rhs } = &expression.inner {
        write_mark(out, '(', Ghost(TokenKind::LeftParen));
        let ghost opened = out@;
        if !write_operand(out, lhs, names) {
            return false;
        }
        write_operator(out, *operator);
        if !write_operand(out, rhs, names) {
            return false;
        }
        let ghost inside = out@.subrange(opened.len() as int, out@.len() as int);
        write_mark(out, ')', Ghost(TokenKind::RightParen));
        proof {
            let a = operand_signs(lhs@, table);
            let b = operator_signs(*operator);
            let c = operand_signs(rhs@, table);
            let signs = a + b + c;
            assert(inside_signs(expression@, table) == signs);
            render_join(a, b);
            render_join(a + b, c);
            assert(inside =~= render(a) + render(b) + render(c));
            assert(opened + render(a) + render(b) + render(c) =~= opened + inside);
            render_around(before, inside, signs);
        }
        return true;
    }
    false
}

/// Writes a prefix operator with its operand in parentheses.
fn write_unary(out: &mut String, expression: &Spanned<Expression>, names: &IdentifierMap) -> (ok:
    bool)
    requires
        expression.inner is Unary,
    ensures
        ok == printable_expression(expression@, names@.len()),
        ok ==> final(out)@ == old(out)@ + render(operand_signs(expression@, names@)),
    decreases *expression, 0nat,
{
    let ghost before = out@;
    let ghost table = names@;
    if let Expression::Unary { operator, rhs } = &expression.inner {
        write_mark(out, '(', Ghost(TokenKind::LeftParen));
        let ghost opened = out@;
        match operator {
            UnaryOperator::Not => write_mark(out, '!', Ghost(TokenKind::Bang)),
            UnaryOperator::Negative => write_mark(out, '-', Ghost(TokenKind::Dash)),
        }
        if !write_operand(out, rhs, names) {
            return false;
        }
        let ghost inside = out@.subrange(opened.len() as int, out@.len() as int);
        write_mark(out, ')', Ghost(TokenKind::RightParen));
        proof {
            let a = one(
                match *operator {
                    UnaryOperator::Not => TokenKind::Bang,
                    UnaryOperator::Negative => TokenKind::Dash,
                },
            );
            let b = operand_signs(rhs@, table);
            let signs = a + b;
            assert(inside_signs(expression@, table) == signs);
            render_join(a, b);
            assert(inside =~= render(a) + render(b));
            assert(opened + render(a) + render(b) =~= opened + inside);
            render_around(before, inside, signs);
        }
        return true;
    }
    false
}

/// Writes a function with its argument in parentheses.
fn write_application(out: &mut String, expression: &Spanned<Expression>, names: &IdentifierMap) -> (ok:
    bool)
    requires
        expression.inner is FunctionApplication,
    ensures
        ok == printable_expression(expression@, names@.len()),
        ok ==> final(out)@ == old(out)@ + render(operand_signs(expression@, names@)),
    decreases *expression, 0nat,
{
    let ghost before = out@;
    let ghost table = names@;
    if let Expression::FunctionApplication { function, argument } = &expression.inner {
        write_mark(out, '(', Ghost(TokenKind::LeftParen));
        let ghost opened = out@;
        if !write_operand(out, function, names) {
            return false;
        }
        if !write_operand(out, argument, names) {
            return false;
        }
        let ghost inside = out@.subrange(opened.len() as int, out@.len() as int);
        write_mark(out, ')', Ghost(TokenKind::RightParen));
        proof {
            let a = operand_signs(function@, table);
            let b = operand_signs(argument@, table);
            let signs = a + b;
            assert(inside_signs(expression@, table) == signs);
            render_join(a, b);
            assert(inside =~= render(a) + render(b));
            assert(opened + render(a) + render(b) =~= opened + inside);
            render_around(before, inside, signs);
        }
        return true;
    }
    false
}

/// Writes the signs of `expression` as an operand; see
/// [`operand_signs`]. Gives `false`, and writes no matter what, where the
/// expression cannot be written.
fn write_operand(out: &mut String, expression: &Spanned<Expression>, names: &IdentifierMap) -> (ok:
    bool)
    ensures
        ok == printable_expression(expression@, names@.len()),
        ok ==> final(out)@ == old(out)@ + render(operand_signs(expression@, names@)),
    decreases *expression, 1nat,
{
    let ghost table = names@;
    proof {
        if let Expression::Primary(primary) = &expression.inner {
            assert(expression@.inner == ExpressionModel::Primary(primary@));
        }
    }
    match &expression.inner {
        Expression::Variable(identifier) => match names.get(identifier) {
            Some(name) => {
                write_word(out, name.as_str(), Ghost(TokenKind::Ident(name@)));
                true
            },
            None => false,
        },
        Expression::Primary(primary) => match &primary.inner {
            Primary::Lambda { .. } => write_lambda(out, expression, names),
            other => {
                let ok = write_literal(out, other);
                proof {
                    assert(atom_signs(expression@.inner, table) == atom_signs(
                        ExpressionModel::Primary(Spanned { span: 0..0, inner: other@ }),
                        Seq::empty(),
                    ));
                }
                ok
            },
        },
        Expression::If { .. } => write_conditional(out, expression, names),
        Expression::Binary { .. } => write_binary(out, expression, names),
        Expression::Unary { .. } => write_unary(out, expression, names),
        Expression::FunctionApplication { .. } => write_application(out, expression, names),
    }
}

/// Writes the signs of a statement and the line end; see
/// [`statement_signs`]. Gives `false`, and writes no matter what, where
/// the statement cannot be written.
fn write_statement(out: &mut String, statement: &Spanned<Statement>, names: &IdentifierMap) -> (ok:
    bool)
    ensures
        ok == printable_statement(statement@.inner, names@.len()),
        ok ==> final(out)@ == old(out)@ + render(statement_signs(statement@.inner, names@)),
{
    let ghost before = out@;
    let ghost table = names@;
    match &statement.inner {
        Statement::Assignment { ident, expr, type_ascription } => {
            let name = match names.get(ident) {
                Some(name) => name,
                None => {
                    return false;
                },
            };
            write_word(out, name.as_str(), Ghost(TokenKind::Ident(name@)));
            write_mark(out, '=', Ghost(TokenKind::Equals));
            if !write_operand(out, expr, names) {
                return false;
            }
            let ghost head = one(TokenKind::Ident(name@)) + one(TokenKind::Equals) + operand_signs(
                expr@,
                table,
            );
            proof {
                render_join(one(TokenKind::Ident(name@)), one(TokenKind::Equals));
                render_join(
                    one(TokenKind::Ident(name@)) + one(TokenKind::Equals),
                    operand_signs(expr@, table),
                );
                assert(out@ =~= before + render(head));
            }
            match type_ascription {
                Some(type_) => {
                    write_pair(out, ':', ':', Ghost(TokenKind::Colon), Ghost(TokenKind::Colon));
                    if !write_type(out, type_) {
                        return false;
                    }
                    write_mark(out, '\n', Ghost(TokenKind::NewLine));
                    proof {
                        let mark = two(TokenKind::Colon, TokenKind::Colon);
                        let tail = mark + type_signs(*type_);
                        let line = one(TokenKind::NewLine);
                        render_join(mark, type_signs(*type_));
                        render_join(head, tail);
                        render_join(head + tail, line);
                        assert(statement_signs(statement@.inner, table) == head + tail + line);
                        assert(before + render(head) + render(mark) + render(type_signs(*type_))
                            + render(line) =~= before + (render(head) + (render(mark) + render(
                            type_signs(*type_),
                        )) + render(line)));
                    }
                },
                None => {
                    write_mark(out, '\n', Ghost(TokenKind::NewLine));
                    proof {
                        let line = one(TokenKind::NewLine);
                        let tail = Seq::<Sign>::empty();
                        assert(head + tail =~= head);
                        render_join(head, line);
                        assert(statement_signs(statement@.inner, table) == head + tail + line);
                        assert(before + render(head) + render(line) =~= before + (render(head)
                            + render(line)));
                    }
                },
            }
            true
        },
        Statement::TypeAscription { ident, type_ } => {
            let name = match names.get(ident) {
                Some(name) => name,
                None => {
                    return false;
                },
            };
            write_word(out, name.as_str(), Ghost(TokenKind::Ident(name@)));
            write_pair(out, ':', ':', Ghost(TokenKind::Colon), Ghost(TokenKind::Colon));
            if !write_type(out, type_) {
                return false;
            }
            write_mark(out, '\n', Ghost(TokenKind::NewLine));
            proof {
                let a = one(TokenKind::Ident(name@));
                let b = two(TokenKind::Colon, TokenKind::Colon);
                let c = type_signs(*type_);
                let d = one(TokenKind::NewLine);
                render_join(a, b);
                render_join(a + b, c);
                render_join(a + b + c, d);
                assert(statement_signs(statement@.inner, table) == a + b + c + d);
                assert(before + render(a) + render(b) + render(c) + render(d) =~= before + (render(
                    a,
                ) + render(b) + render(c) + render(d)));
            }
            true
        },
        Statement::Include { path } => {
            write_word(out, "include", Ghost(TokenKind::Ident("include"@)));
            let ghost middle = out@;
            out.push('"');
            out.append(path.as_str());
            out.push('"');
            out.push(' ');
            write_mark(out, '\n', Ghost(TokenKind::NewLine));
            proof {
                let a = one(TokenKind::Ident("include"@));
                let b = one(TokenKind::String(path@));
                let c = one(TokenKind::NewLine);
                render_one(TokenKind::String(path@));
                render_join(a, b);
                render_join(a + b, c);
                assert(statement_signs(statement@.inner, table) == a + b + c);
                assert((middle.push('"') + path@).push('"').push(' ') =~= middle + render(b));
                assert(before + render(a) + render(b) + render(c) =~= before + (render(a)
                    + render(b) + render(c)));
            }
            true
        },
    }
}

/// Writes the signs of the statements from the index `from` on.
fn write_lines(
    out: &mut String,
    statements: &Vec<Spanned<Statement>>,
    from: usize,
    names: &IdentifierMap,
) -> (ok: bool)
    requires
        from <= statements@.len(),
    ensures
        ok == printable(
            statement_models(statements@).subrange(from as int, statements@.len() as int),
            names@.len(),
        ),
        ok ==> final(out)@ == old(out)@ + render(
            program_signs(
                statement_models(statements@).subrange(from as int, statements@.len() as int),
                names@,
            ),
        ),
    decreases statements@.len() - from,
{
    let ghost before = out@;
    let ghost models = statement_models(statements@);
    let ghost rest = models.subrange(from as int, statements@.len() as int);
    if from == statements.len() {
        proof {
            assert(rest.len() == 0);
            assert(before + render(program_signs(rest, names@)) =~= before);
        }
        return true;
    }
    proof {
        assert(rest[0] == statements@[from as int]@);
        assert(rest.drop_first() =~= models.subrange(from + 1, statements@.len() as int));
    }
    if !write_statement(out, &statements[from], names) {
        return false;
    }
    let ok = write_lines(out, statements, from + 1, names);
    proof {
        let first = statement_signs(rest[0].inner, names@);
        let behind = program_signs(rest.drop_first(), names@);
        render_join(first, behind);
        if ok {
            assert(before + render(first) + render(behind) =~= before + (render(first) + render(
                behind,
            )));
        }
    }
    ok
}

/// Writes the program `statements`, whose names are `names`, as source
/// text: one statement a line, every token followed by a blank, and every
/// expression that is no literal and no name in parentheses. Gives no
/// text where the program cannot be written: where an identifier is not
/// in the table, an integer is negative, a literal is a colour, or a type
/// holds an unknown type or a function type as the input of another.
pub fn unparse(statements: &Vec<Spanned<Statement>>, names: &IdentifierMap) -> (out: Option<String>)
    ensures
        match out {
            Some(text) => printable(statement_models(statements@), names@.len()) && text@
                == printed(statement_models(statements@), names@),
            None => !printable(statement_models(statements@), names@.len()),
        },
{
    let mut text = String::new();
    proof {
        let models = statement_models(statements@);
        assert(models.subrange(0, statements@.len() as int) =~= models);
        assert(Seq::<char>::empty() + printed(models, names@) =~= printed(models, names@));
    }
    if write_lines(&mut text, statements, 0, names) {
        Some(text)
    } else {
        None
    }
}

} // verus!
