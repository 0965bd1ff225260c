//! What is parsed from a source, written back and parsed again, is the
//! same but for the spans.

use crate::parser::ast::declare;
use crate::parser::ast::either;
use crate::parser::ast::intern;
use crate::parser::ast::lookup;
use crate::parser::ast::ExpressionModel;
use crate::parser::ast::Identifier;
use crate::parser::ast::PrimaryModel;
use crate::parser::ast::StatementModel;
use crate::parser::grammar::application_rest;
use crate::parser::grammar::is_arrow;
use crate::parser::grammar::is_ascription;
use crate::parser::grammar::parse_assignment;
use crate::parser::grammar::parse_base_type;
use crate::parser::grammar::parse_lines;
use crate::parser::grammar::parse_statement;
use crate::parser::grammar::initial_state;
use crate::parser::grammar::parse_text;
use crate::parser::grammar::parse_type;
use crate::parser::printer::printed;
use crate::parser::printer::render;
use crate::parser::rescan::lexed;
use crate::parser::rescan::lexed_is_written;
use crate::parser::rescan::lexed_starts;
use crate::parser::rescan::renders_at;
use crate::parser::rescan::scanned_tokens_are_writable;
use crate::parser::rescan::signs_scan;
use crate::parser::rescan::valid_signs;
use crate::scan::scan_text;
use crate::scan::tokens_end_with_eof;
use crate::text::byte_length;
use crate::parser::grammar::ParserState;
use crate::parser::printer::operand_signs;
use crate::parser::printer::printable;
use crate::parser::printer::printable_statement;
use crate::parser::printer::one;
use crate::parser::printer::two;
use crate::parser::printer::program_signs;
use crate::parser::printer::statement_signs;
use crate::parser::printer::type_signs;
use crate::parser::reparse::array_type_wrote;
use crate::parser::reparse::base_is_type;
use crate::parser::reparse::base_type_wrote;
use crate::parser::reparse::closing_tokens_end_operands;
use crate::parser::reparse::erase_expression;
use crate::parser::reparse::function_type_wrote;
use crate::parser::reparse::gives;
use crate::parser::reparse::no_span;
use crate::parser::reparse::one_is_sound;
use crate::parser::reparse::plain_type_wrote;
use crate::parser::reparse::primary_climbs;
use crate::parser::reparse::sound_signs;
use crate::parser::reparse::sound_signs_join;
use crate::parser::reparse::two_is_sound;
use crate::parser::reparse::reads_back;
use crate::parser::reparse::type_reads;
use crate::parser::reparse::type_wrote;
use crate::parser::rescan::written;
use crate::parser::rescan::written_apart;
use crate::parser::rescan::written_token;
use crate::tc::variant::Type;
use crate::parser::grammar::binary_rest;
use crate::parser::grammar::kind_at;
use crate::parser::grammar::operator_at;
use crate::parser::grammar::parse_application;
use crate::parser::grammar::parse_atom;
use crate::parser::grammar::parse_binary;
use crate::parser::grammar::parse_conditional;
use crate::parser::grammar::parse_expression;
use crate::parser::grammar::parse_group;
use crate::parser::grammar::parse_lambda;
use crate::parser::grammar::parse_primary;
use crate::parser::grammar::parse_unary;
use crate::parser::grammar::remaining;
use crate::parser::grammar::primary_expression;
use crate::parser::grammar::span_at;
use crate::parser::grammar::span_from_to;
use crate::parser::grammar::starts_primary;
use crate::parser::grammar::Parsed;
use crate::parser::printer::name_of;
use crate::parser::reparse::application_wrote;
use crate::parser::reparse::atom_wrote;
use crate::parser::reparse::binary_wrote;
use crate::parser::reparse::conditional_wrote;
use crate::parser::reparse::lambda_wrote;
use crate::parser::reparse::unary_wrote;
use crate::parser::reparse::wrote;
use crate::parser::reparse::wrote_any_span;
use crate::parser::rescan::writable;
use crate::scan::TokenKind;
use crate::scan::TokenModel;
use crate::utils::Spanned;
use vstd::prelude::*;

verus! {

/// Whether `table` holds the names of `names` under the same handles, and
/// possibly more.
pub open spec fn extends(names: Seq<Seq<char>>, table: Seq<Seq<char>>) -> bool {
    names.len() <= table.len() && forall|i: int|
        0 <= i < names.len() ==> #[trigger] names[i] == table[i]
}

/// Whether every token of `tokens` can be written, or is `Eof`.
pub open spec fn legible(tokens: Seq<TokenModel>) -> bool {
    forall|i: int|
        0 <= i < tokens.len() ==> tokens[i].kind is Eof || writable(#[trigger] tokens[i].kind)
}

/// A table that extends a table that extends `names` extends `names`.
pub proof fn extends_twice(names: Seq<Seq<char>>, between: Seq<Seq<char>>, table: Seq<Seq<char>>)
    requires
        extends(names, between),
        extends(between, table),
    ensures
        extends(names, table),
{
    assert forall|i: int| 0 <= i < names.len() implies #[trigger] names[i] == table[i] by {
        assert(names[i] == between[i]);
        assert(between[i] == table[i]);
    }
}

/// Interning a name extends the table, and the name stands under the
/// identifier that interning gives.
pub proof fn interning_extends(names: Seq<Seq<char>>, name: Seq<char>)
    ensures
        extends(names, intern(names, name).0),
        intern(names, name).0.len() <= u64::MAX ==> {
            &&& intern(names, name).1.handle < intern(names, name).0.len()
            &&& intern(names, name).0[intern(names, name).1.handle as int] == name
        },
{
    if names.contains(name) {
        let at = names.index_of(name);
        assert(0 <= at < names.len() && names[at] == name);
    }
}

/// A name that is looked up stands under the identifier found.
pub proof fn found_name(names: Seq<Seq<char>>, name: Seq<char>)
    requires
        names.len() <= u64::MAX,
        lookup(names, name) is Some,
    ensures
        lookup(names, name)->Some_0.handle < names.len(),
        names[lookup(names, name)->Some_0.handle as int] == name,
{
    let at = names.index_of(name);
    assert(0 <= at < names.len() && names[at] == name);
}

/// Parsing only adds names: an atom.
pub proof fn atom_grows(tokens: Seq<TokenModel>, pos: int, names: Seq<Seq<char>>)
    ensures
        parse_atom(tokens, pos, names).names == names,
{
    reveal(parse_atom);
}

/// Parsing only adds names: an expression in parentheses.
pub proof fn group_grows(tokens: Seq<TokenModel>, pos: int, names: Seq<Seq<char>>)
    ensures
        extends(names, parse_group(tokens, pos, names).names),
    decreases remaining(tokens, pos), 0nat,
{
    reveal(parse_expression);
    reveal(parse_group);
    if kind_at(tokens, pos) is LeftParen && !(kind_at(tokens, pos + 1) is RightParen) {
        expression_grows(tokens, pos + 1, names);
    }
}

/// Parsing only adds names: a lambda.
pub proof fn lambda_grows(tokens: Seq<TokenModel>, pos: int, names: Seq<Seq<char>>)
    ensures
        extends(names, parse_lambda(tokens, pos, names).names),
    decreases remaining(tokens, pos), 0nat,
{
    reveal(parse_expression);
    reveal(parse_lambda);
    if kind_at(tokens, pos) is Lambda {
        if let TokenKind::Ident(name) = kind_at(tokens, pos + 1) {
            if crate::parser::grammar::is_arrow(tokens, pos + 2) {
                interning_extends(names, name);
                let bound = intern(names, name).0;
                expression_grows(tokens, pos + 4, bound);
                extends_twice(names, bound, parse_expression(tokens, pos + 4, bound).names);
            }
        }
    }
}

/// Parsing only adds names: a primary.
pub proof fn primary_grows(tokens: Seq<TokenModel>, pos: int, names: Seq<Seq<char>>)
    ensures
        extends(names, parse_primary(tokens, pos, names).names),
    decreases remaining(tokens, pos), 1nat,
{
    reveal(parse_primary);
    reveal(parse_atom);
    reveal(parse_group);
    reveal(parse_lambda);
    group_grows(tokens, pos, names);
    lambda_grows(tokens, pos, names);
    atom_grows(tokens, pos, names);
}

/// Parsing only adds names: the arguments of an application.
pub proof fn arguments_grow(
    tokens: Seq<TokenModel>,
    pos: int,
    names: Seq<Seq<char>>,
    function: Spanned<ExpressionModel>,
)
    ensures
        extends(names, application_rest(tokens, pos, names, function).names),
    decreases remaining(tokens, pos), 2nat,
{
    reveal(parse_primary);
    reveal(application_rest);
    if 0 <= pos < tokens.len() && starts_primary(kind_at(tokens, pos)) {
        primary_grows(tokens, pos, names);
        let next = parse_primary(tokens, pos, names);
        if let Ok((argument, more)) = next.outcome {
            let applied = Spanned {
                span: crate::utils::span_union(function.span, argument.span),
                inner: ExpressionModel::FunctionApplication {
                    function: Box::new(function),
                    argument: Box::new(argument),
                },
            };
            arguments_grow(tokens, pos + 1 + more, next.names, applied);
            extends_twice(
                names,
                next.names,
                application_rest(tokens, pos + 1 + more, next.names, applied).names,
            );
        }
    }
}

/// Parsing only adds names: an application.
pub proof fn application_grows(tokens: Seq<TokenModel>, pos: int, names: Seq<Seq<char>>)
    ensures
        extends(names, parse_application(tokens, pos, names).names),
    decreases remaining(tokens, pos), 3nat,
{
    reveal(parse_primary);
    reveal(application_rest);
    reveal(parse_application);
    primary_grows(tokens, pos, names);
    let head = parse_primary(tokens, pos, names);
    if let Ok((function, more)) = head.outcome {
        arguments_grow(tokens, pos + 1 + more, head.names, function);
        extends_twice(
            names,
            head.names,
            application_rest(tokens, pos + 1 + more, head.names, function).names,
        );
    }
}

/// Parsing only adds names: an operand with its prefix operators.
pub proof fn unary_grows(tokens: Seq<TokenModel>, pos: int, names: Seq<Seq<char>>)
    ensures
        extends(names, parse_unary(tokens, pos, names).names),
    decreases remaining(tokens, pos), 4nat,
{
    reveal(parse_application);
    reveal(parse_unary);
    if kind_at(tokens, pos) is Bang || kind_at(tokens, pos) is Dash {
        unary_grows(tokens, pos + 1, names);
    } else {
        application_grows(tokens, pos, names);
    }
}

/// Parsing only adds names: the rest of a chain of operators.
pub proof fn chain_rest_grows(
    tokens: Seq<TokenModel>,
    pos: int,
    names: Seq<Seq<char>>,
    level: nat,
    lhs: Spanned<ExpressionModel>,
)
    ensures
        extends(names, binary_rest(tokens, pos, names, level, lhs).names),
    decreases remaining(tokens, pos), 0nat,
{
    reveal(parse_binary);
    reveal(binary_rest);
    if let Some((operator, wide)) = operator_at(tokens, pos, level) {
        if 1 <= level <= 3 {
            chain_grows(tokens, pos + 1 + wide, names, (level - 1) as nat);
            let operand = parse_binary(tokens, pos + 1 + wide, names, (level - 1) as nat);
            if let Ok((rhs, more)) = operand.outcome {
                let joined = Spanned {
                    span: crate::utils::span_union(lhs.span, rhs.span),
                    inner: ExpressionModel::Binary {
                        operator,
                        lhs: Box::new(lhs),
                        rhs: Box::new(rhs),
                    },
                };
                chain_rest_grows(tokens, pos + 2 + wide + more, operand.names, level, joined);
                extends_twice(
                    names,
                    operand.names,
                    binary_rest(tokens, pos + 2 + wide + more, operand.names, level, joined).names,
                );
            }
        }
    }
}

/// Parsing only adds names: a chain of operators.
pub proof fn chain_grows(tokens: Seq<TokenModel>, pos: int, names: Seq<Seq<char>>, level: nat)
    ensures
        extends(names, parse_binary(tokens, pos, names, level).names),
    decreases remaining(tokens, pos), 5 + level,
{
    reveal(parse_unary);
    reveal(binary_rest);
    reveal(parse_binary);
    if level == 0 || level > 3 {
        unary_grows(tokens, pos, names);
    } else {
        chain_grows(tokens, pos, names, (level - 1) as nat);
        let first = parse_binary(tokens, pos, names, (level - 1) as nat);
        if let Ok((lhs, more)) = first.outcome {
            chain_rest_grows(tokens, pos + 1 + more, first.names, level, lhs);
            extends_twice(
                names,
                first.names,
                binary_rest(tokens, pos + 1 + more, first.names, level, lhs).names,
            );
        }
    }
}

/// Parsing only adds names: a conditional.
pub proof fn conditional_grows(tokens: Seq<TokenModel>, pos: int, names: Seq<Seq<char>>)
    ensures
        extends(names, parse_conditional(tokens, pos, names).names),
    decreases remaining(tokens, pos), 9nat,
{
    reveal(parse_expression);
    reveal(parse_conditional);
    if kind_at(tokens, pos) is If {
        expression_grows(tokens, pos + 1, names);
        let cond = parse_expression(tokens, pos + 1, names);
        if let Ok((cond_value, cond_more)) = cond.outcome {
            let then_at = pos + 2 + cond_more;
            if kind_at(tokens, then_at) is Then {
                expression_grows(tokens, then_at + 1, cond.names);
                let then_ = parse_expression(tokens, then_at + 1, cond.names);
                extends_twice(names, cond.names, then_.names);
                if let Ok((then_value, then_more)) = then_.outcome {
                    let else_at = then_at + 2 + then_more;
                    if kind_at(tokens, else_at) is Else {
                        expression_grows(tokens, else_at + 1, then_.names);
                        let else_ = parse_expression(tokens, else_at + 1, then_.names);
                        extends_twice(names, then_.names, else_.names);
                    }
                }
            }
        }
    }
}

/// Parsing only adds names: an expression.
pub proof fn expression_grows(tokens: Seq<TokenModel>, pos: int, names: Seq<Seq<char>>)
    ensures
        extends(names, parse_expression(tokens, pos, names).names),
    decreases remaining(tokens, pos), 10nat,
{
    reveal(parse_conditional);
    reveal(parse_binary);
    reveal(parse_expression);
    if kind_at(tokens, pos) is If {
        conditional_grows(tokens, pos, names);
    } else {
        chain_grows(tokens, pos, names, 3);
    }
}

/// Whether a parse that gave an expression gave one that is written
/// soundly and reads back, from the names `names` to the names that the
/// parse left.
pub open spec fn parsed_wrote(
    parsed: Parsed<Spanned<ExpressionModel>>,
    table: Seq<Seq<char>>,
    names: Seq<Seq<char>>,
) -> bool {
    parsed.outcome matches Ok((value, more)) ==> wrote(value, table, names, parsed.names)
}

/// What is parsed reads back: an atom.
pub proof fn atom_parsed(
    tokens: Seq<TokenModel>,
    pos: int,
    names: Seq<Seq<char>>,
    table: Seq<Seq<char>>,
)
    requires
        legible(tokens),
        table.len() <= u64::MAX,
        extends(names, table),
    ensures
        parsed_wrote(parse_atom(tokens, pos, names), table, names),
{
    reveal(parse_atom);
    let parsed = parse_atom(tokens, pos, names);
    if let Ok((value, more)) = parsed.outcome {
        assert(0 <= pos < tokens.len());
        assert(writable(tokens[pos].kind));
        if let TokenKind::Ident(name) = kind_at(tokens, pos) {
            found_name(names, name);
            let identifier = lookup(names, name)->Some_0;
            assert(names[identifier.handle as int] == table[identifier.handle as int]);
            assert(name_of(table, identifier) == name);
        }
        atom_wrote(value, table, names);
    }
}

/// What is parsed reads back: an expression in parentheses.
pub proof fn group_parsed(
    tokens: Seq<TokenModel>,
    pos: int,
    names: Seq<Seq<char>>,
    table: Seq<Seq<char>>,
)
    requires
        legible(tokens),
        table.len() <= u64::MAX,
        extends(parse_group(tokens, pos, names).names, table),
    ensures
        parsed_wrote(parse_group(tokens, pos, names), table, names),
    decreases remaining(tokens, pos), 0nat,
{
    reveal(parse_group);
    reveal(parse_expression);
    let parsed = parse_group(tokens, pos, names);
    if let Ok((value, more)) = parsed.outcome {
        if kind_at(tokens, pos + 1) is RightParen {
            atom_wrote(value, table, names);
        } else {
            let inner = parse_expression(tokens, pos + 1, names);
            expression_parsed(tokens, pos + 1, names, table);
            wrote_any_span(inner.outcome->Ok_0.0, value, table, names, parsed.names);
        }
    }
}

/// What is parsed reads back: a lambda.
pub proof fn lambda_parsed(
    tokens: Seq<TokenModel>,
    pos: int,
    names: Seq<Seq<char>>,
    table: Seq<Seq<char>>,
)
    requires
        legible(tokens),
        table.len() <= u64::MAX,
        extends(parse_lambda(tokens, pos, names).names, table),
    ensures
        parsed_wrote(parse_lambda(tokens, pos, names), table, names),
    decreases remaining(tokens, pos), 0nat,
{
    reveal(parse_lambda);
    reveal(parse_expression);
    let parsed = parse_lambda(tokens, pos, names);
    if let Ok((value, more)) = parsed.outcome {
        let name = kind_at(tokens, pos + 1)->Ident_0;
        let (bound, param) = intern(names, name);
        let body = parse_expression(tokens, pos + 4, bound);
        expression_grows(tokens, pos + 4, bound);
        extends_twice(bound, body.names, table);
        interning_extends(names, name);
        assert(bound[param.handle as int] == table[param.handle as int]);
        assert(name_of(table, param) == name);
        assert(0 <= pos + 1 < tokens.len());
        assert(writable(tokens[pos + 1].kind));
        expression_parsed(tokens, pos + 4, bound, table);
        lambda_wrote(value, table, names, bound, body.names);
    }
}

/// What is parsed reads back: a primary.
pub proof fn primary_parsed(
    tokens: Seq<TokenModel>,
    pos: int,
    names: Seq<Seq<char>>,
    table: Seq<Seq<char>>,
)
    requires
        legible(tokens),
        table.len() <= u64::MAX,
        extends(parse_primary(tokens, pos, names).names, table),
    ensures
        parsed_wrote(parse_primary(tokens, pos, names), table, names),
    decreases remaining(tokens, pos), 1nat,
{
    reveal(parse_primary);
    reveal(parse_group);
    reveal(parse_lambda);
    reveal(parse_atom);
    if kind_at(tokens, pos) is LeftParen {
        group_parsed(tokens, pos, names, table);
    } else if kind_at(tokens, pos) is Lambda {
        lambda_parsed(tokens, pos, names, table);
    } else {
        atom_grows(tokens, pos, names);
        atom_parsed(tokens, pos, names, table);
    }
}

/// What is parsed reads back: a function with the arguments behind it.
pub proof fn arguments_parsed(
    tokens: Seq<TokenModel>,
    pos: int,
    names: Seq<Seq<char>>,
    function: Spanned<ExpressionModel>,
    start: Seq<Seq<char>>,
    table: Seq<Seq<char>>,
)
    requires
        legible(tokens),
        table.len() <= u64::MAX,
        wrote(function, table, start, names),
        extends(application_rest(tokens, pos, names, function).names, table),
    ensures
        parsed_wrote(application_rest(tokens, pos, names, function), table, start),
    decreases remaining(tokens, pos), 2nat,
{
    reveal(application_rest);
    reveal(parse_primary);
    let parsed = application_rest(tokens, pos, names, function);
    if parsed.outcome is Ok {
        if 0 <= pos < tokens.len() && starts_primary(kind_at(tokens, pos)) {
            let next = parse_primary(tokens, pos, names);
            let argument = next.outcome->Ok_0.0;
            let more = next.outcome->Ok_0.1;
            let applied = Spanned {
                span: crate::utils::span_union(function.span, argument.span),
                inner: ExpressionModel::FunctionApplication {
                    function: Box::new(function),
                    argument: Box::new(argument),
                },
            };
            arguments_grow(tokens, pos + 1 + more, next.names, applied);
            extends_twice(next.names, parsed.names, table);
            primary_parsed(tokens, pos, names, table);
            application_wrote(applied, table, start, names, next.names);
            arguments_parsed(tokens, pos + 1 + more, next.names, applied, start, table);
        }
    }
}

/// What is parsed reads back: an application.
pub proof fn application_parsed(
    tokens: Seq<TokenModel>,
    pos: int,
    names: Seq<Seq<char>>,
    table: Seq<Seq<char>>,
)
    requires
        legible(tokens),
        table.len() <= u64::MAX,
        extends(parse_application(tokens, pos, names).names, table),
    ensures
        parsed_wrote(parse_application(tokens, pos, names), table, names),
    decreases remaining(tokens, pos), 3nat,
{
    reveal(parse_application);
    reveal(parse_primary);
    reveal(application_rest);
    let parsed = parse_application(tokens, pos, names);
    if parsed.outcome is Ok {
        let head = parse_primary(tokens, pos, names);
        let function = head.outcome->Ok_0.0;
        let more = head.outcome->Ok_0.1;
        arguments_grow(tokens, pos + 1 + more, head.names, function);
        extends_twice(head.names, parsed.names, table);
        primary_parsed(tokens, pos, names, table);
        arguments_parsed(tokens, pos + 1 + more, head.names, function, names, table);
    }
}

/// What is parsed reads back: an operand with its prefix operators.
pub proof fn unary_parsed(
    tokens: Seq<TokenModel>,
    pos: int,
    names: Seq<Seq<char>>,
    table: Seq<Seq<char>>,
)
    requires
        legible(tokens),
        table.len() <= u64::MAX,
        extends(parse_unary(tokens, pos, names).names, table),
    ensures
        parsed_wrote(parse_unary(tokens, pos, names), table, names),
    decreases remaining(tokens, pos), 4nat,
{
    reveal(parse_unary);
    reveal(parse_application);
    let parsed = parse_unary(tokens, pos, names);
    if let Ok((value, more)) = parsed.outcome {
        if kind_at(tokens, pos) is Bang || kind_at(tokens, pos) is Dash {
            unary_parsed(tokens, pos + 1, names, table);
            unary_wrote(value, table, names, parsed.names);
        } else {
            application_parsed(tokens, pos, names, table);
        }
    }
}

/// What is parsed reads back: an operand with the operators of a level
/// and their operands behind it.
pub proof fn chain_rest_parsed(
    tokens: Seq<TokenModel>,
    pos: int,
    names: Seq<Seq<char>>,
    level: nat,
    lhs: Spanned<ExpressionModel>,
    start: Seq<Seq<char>>,
    table: Seq<Seq<char>>,
)
    requires
        legible(tokens),
        table.len() <= u64::MAX,
        wrote(lhs, table, start, names),
        extends(binary_rest(tokens, pos, names, level, lhs).names, table),
    ensures
        parsed_wrote(binary_rest(tokens, pos, names, level, lhs), table, start),
    decreases remaining(tokens, pos), 0nat,
{
    reveal(binary_rest);
    reveal(parse_binary);
    let parsed = binary_rest(tokens, pos, names, level, lhs);
    if parsed.outcome is Ok {
        if let Some((operator, wide)) = operator_at(tokens, pos, level) {
            if 1 <= level <= 3 {
                let operand = parse_binary(tokens, pos + 1 + wide, names, (level - 1) as nat);
                let rhs = operand.outcome->Ok_0.0;
                let more = operand.outcome->Ok_0.1;
                let joined = Spanned {
                    span: crate::utils::span_union(lhs.span, rhs.span),
                    inner: ExpressionModel::Binary {
                        operator,
                        lhs: Box::new(lhs),
                        rhs: Box::new(rhs),
                    },
                };
                chain_rest_grows(tokens, pos + 2 + wide + more, operand.names, level, joined);
                extends_twice(operand.names, parsed.names, table);
                chain_parsed(tokens, pos + 1 + wide, names, (level - 1) as nat, table);
                binary_wrote(joined, table, start, names, operand.names);
                chain_rest_parsed(
                    tokens,
                    pos + 2 + wide + more,
                    operand.names,
                    level,
                    joined,
                    start,
                    table,
                );
            }
        }
    }
}

/// What is parsed reads back: a chain of operators.
pub proof fn chain_parsed(
    tokens: Seq<TokenModel>,
    pos: int,
    names: Seq<Seq<char>>,
    level: nat,
    table: Seq<Seq<char>>,
)
    requires
        legible(tokens),
        table.len() <= u64::MAX,
        extends(parse_binary(tokens, pos, names, level).names, table),
    ensures
        parsed_wrote(parse_binary(tokens, pos, names, level), table, names),
    decreases remaining(tokens, pos), 5 + level,
{
    reveal(parse_binary);
    reveal(parse_unary);
    reveal(binary_rest);
    let parsed = parse_binary(tokens, pos, names, level);
    if parsed.outcome is Ok {
        if level == 0 || level > 3 {
            unary_parsed(tokens, pos, names, table);
        } else {
            let first = parse_binary(tokens, pos, names, (level - 1) as nat);
            let lhs = first.outcome->Ok_0.0;
            let more = first.outcome->Ok_0.1;
            chain_rest_grows(tokens, pos + 1 + more, first.names, level, lhs);
            extends_twice(first.names, parsed.names, table);
            chain_parsed(tokens, pos, names, (level - 1) as nat, table);
            chain_rest_parsed(tokens, pos + 1 + more, first.names, level, lhs, names, table);
        }
    }
}

/// What is parsed reads back: a conditional.
pub proof fn conditional_parsed(
    tokens: Seq<TokenModel>,
    pos: int,
    names: Seq<Seq<char>>,
    table: Seq<Seq<char>>,
)
    requires
        legible(tokens),
        table.len() <= u64::MAX,
        extends(parse_conditional(tokens, pos, names).names, table),
    ensures
        parsed_wrote(parse_conditional(tokens, pos, names), table, names),
    decreases remaining(tokens, pos), 9nat,
{
    reveal(parse_conditional);
    reveal(parse_expression);
    let parsed = parse_conditional(tokens, pos, names);
    if let Ok((value, more)) = parsed.outcome {
        let cond = parse_expression(tokens, pos + 1, names);
        let then_at = pos + 2 + cond.outcome->Ok_0.1;
        let then_ = parse_expression(tokens, then_at + 1, cond.names);
        let else_at = then_at + 2 + then_.outcome->Ok_0.1;
        let else_ = parse_expression(tokens, else_at + 1, then_.names);
        expression_grows(tokens, else_at + 1, then_.names);
        extends_twice(then_.names, else_.names, table);
        expression_grows(tokens, then_at + 1, cond.names);
        extends_twice(cond.names, then_.names, table);
        expression_parsed(tokens, pos + 1, names, table);
        expression_parsed(tokens, then_at + 1, cond.names, table);
        expression_parsed(tokens, else_at + 1, then_.names, table);
        conditional_wrote(value, table, names, cond.names, then_.names, else_.names);
    }
}

/// What is parsed reads back: an expression.
pub proof fn expression_parsed(
    tokens: Seq<TokenModel>,
    pos: int,
    names: Seq<Seq<char>>,
    table: Seq<Seq<char>>,
)
    requires
        legible(tokens),
        table.len() <= u64::MAX,
        extends(parse_expression(tokens, pos, names).names, table),
    ensures
        parsed_wrote(parse_expression(tokens, pos, names), table, names),
    decreases remaining(tokens, pos), 10nat,
{
    reveal(parse_expression);
    reveal(parse_conditional);
    reveal(parse_binary);
    if kind_at(tokens, pos) is If {
        conditional_parsed(tokens, pos, names, table);
    } else {
        chain_parsed(tokens, pos, names, 3, table);
    }
}

/// What is parsed reads back: a base type.
pub proof fn base_type_parsed(tokens: Seq<TokenModel>, pos: int)
    requires
        legible(tokens),
    ensures
        parse_base_type(tokens, pos) matches Ok((ty, more)) ==> base_type_wrote(ty),
    decreases remaining(tokens, pos), 0nat,
{
    if let Ok((ty, more)) = parse_base_type(tokens, pos) {
        assert(0 <= pos < tokens.len());
        assert(writable(tokens[pos].kind));
        match kind_at(tokens, pos) {
            TokenKind::LeftBracket => {
                type_parsed(tokens, pos + 1);
                array_type_wrote(ty);
            },
            _ => {
                plain_type_wrote(ty);
            },
        }
    }
}

/// What is parsed reads back: a type.
pub proof fn type_parsed(tokens: Seq<TokenModel>, pos: int)
    requires
        legible(tokens),
    ensures
        parse_type(tokens, pos) matches Ok((ty, more)) ==> type_wrote(ty),
    decreases remaining(tokens, pos), 1nat,
{
    if let Ok((ty, more)) = parse_type(tokens, pos) {
        base_type_parsed(tokens, pos);
        let input = parse_base_type(tokens, pos)->Ok_0.0;
        let arrow_at = pos + 1 + parse_base_type(tokens, pos)->Ok_0.1;
        if is_arrow(tokens, arrow_at) {
            type_parsed(tokens, arrow_at + 2);
            function_type_wrote(ty);
        } else {
            base_is_type(ty);
        }
    }
}

/// `statement` without its spans.
pub open spec fn erase_statement(statement: Spanned<StatementModel>) -> Spanned<StatementModel> {
    Spanned {
        span: no_span(),
        inner: match statement.inner {
            StatementModel::Assignment {
                ident,
                expr,
                type_ascription,
            } => StatementModel::Assignment {
                ident,
                expr: erase_expression(expr),
                type_ascription,
            },
            other => other,
        },
    }
}

/// `statements` without their spans.
pub open spec fn erase_statements(statements: Seq<Spanned<StatementModel>>) -> Seq<
    Spanned<StatementModel>,
> {
    Seq::new(statements.len(), |i: int| erase_statement(statements[i]))
}

/// Whether the signs of `statement` parse back to `statement` wherever
/// they are written, from the state `before` to the state `after`, up to
/// the line end.
pub open spec fn statement_reads(
    statement: Spanned<StatementModel>,
    table: Seq<Seq<char>>,
    before: ParserState,
    after: ParserState,
) -> bool {
    forall|tokens: Seq<TokenModel>, pos: int| #[trigger]
        written(tokens, pos, statement_signs(statement.inner, table)) ==> {
            let parsed = parse_statement(tokens, pos, before);
            &&& parsed.state == after
            &&& parsed.outcome matches Ok((value, more))
            &&& erase_statement(value) == erase_statement(statement)
            &&& more + 2 == statement_signs(statement.inner, table).len()
        }
}

/// Parsing a statement only adds names.
pub proof fn statement_grows(tokens: Seq<TokenModel>, pos: int, state: ParserState)
    ensures
        extends(state.names, parse_statement(tokens, pos, state).state.names),
{
    if let TokenKind::Ident(name) = kind_at(tokens, pos) {
        interning_extends(state.names, name);
        let names = intern(state.names, name).0;
        expression_grows(tokens, pos + 2, names);
        extends_twice(state.names, names, parse_expression(tokens, pos + 2, names).names);
    }
}

/// Parsing lines only adds names.
pub proof fn lines_grow(tokens: Seq<TokenModel>, pos: int, state: ParserState)
    ensures
        extends(state.names, parse_lines(tokens, pos, state).state.names),
    decreases remaining(tokens, pos),
{
    if !(pos < 0 || pos >= tokens.len() || tokens[pos].kind is Eof) {
        if tokens[pos].kind is NewLine {
            lines_grow(tokens, pos + 1, state);
        } else {
            let parsed = parse_statement(tokens, pos, state);
            statement_grows(tokens, pos, state);
            match parsed.outcome {
                Err(error) => {
                    let next = pos + 1 + crate::parser::grammar::line_rest(tokens, pos + 1);
                    lines_grow(tokens, next, parsed.state);
                    extends_twice(
                        state.names,
                        parsed.state.names,
                        parse_lines(tokens, next, parsed.state).state.names,
                    );
                },
                Ok((statement, more)) => {
                    let end = pos + 1 + more;
                    if kind_at(tokens, end) is NewLine || kind_at(tokens, end) is Eof {
                        lines_grow(tokens, end, parsed.state);
                        extends_twice(
                            state.names,
                            parsed.state.names,
                            parse_lines(tokens, end, parsed.state).state.names,
                        );
                    } else {
                        let next = end + crate::parser::grammar::line_rest(tokens, end);
                        lines_grow(tokens, next, parsed.state);
                        extends_twice(
                            state.names,
                            parsed.state.names,
                            parse_lines(tokens, next, parsed.state).state.names,
                        );
                    }
                },
            }
        }
    }
}

/// An assignment reads back where its value does, and its type if it has
/// one, and interning its name gives its identifier, which has no value
/// yet.
pub proof fn assignment_reads(
    tokens: Seq<TokenModel>,
    pos: int,
    state: ParserState,
    statement: Spanned<StatementModel>,
    table: Seq<Seq<char>>,
    names: Seq<Seq<char>>,
    after: Seq<Seq<char>>,
)
    requires
        written(tokens, pos, statement_signs(statement.inner, table)),
        statement.inner matches StatementModel::Assignment { ident, expr, type_ascription } && {
            &&& intern(state.names, name_of(table, ident)) == (names, ident)
            &&& !state.assigned.contains(ident)
            &&& reads_back(expr, table, names, after)
            &&& operand_signs(expr, table).len() > 0
            &&& type_ascription matches Some(ty) ==> type_reads(ty) && type_signs(ty).len() > 0
        },
    ensures
        ({
            let parsed = parse_statement(tokens, pos, state);
            &&& parsed.state == (ParserState {
                names: after,
                assigned: state.assigned.push(statement.inner->Assignment_ident),
            })
            &&& parsed.outcome matches Ok((value, more))
            &&& erase_statement(value) == erase_statement(statement)
            &&& more + 2 == statement_signs(statement.inner, table).len()
        }),
{
    if let StatementModel::Assignment { ident, expr, type_ascription } = statement.inner {
        let head = one(TokenKind::Ident(name_of(table, ident))) + one(TokenKind::Equals);
        let value = operand_signs(expr, table);
        let count = value.len() as int;
        let tail = match type_ascription {
            Some(type_) => two(TokenKind::Colon, TokenKind::Colon) + type_signs(type_),
            None => Seq::<crate::parser::printer::Sign>::empty(),
        };
        let line = one(TokenKind::NewLine);
        assert(statement_signs(statement.inner, table) == head + value + tail + line);
        written_apart(tokens, pos, head + value + tail, line);
        written_apart(tokens, pos, head + value, tail);
        written_apart(tokens, pos, head, value);
        written_token(tokens, pos, head, 0);
        written_token(tokens, pos, head, 1);
        written_token(tokens, pos + 2 + count + tail.len(), line, 0);
        assert(written(tokens, pos + 2, value));
        let end = pos + 2 + count;
        match type_ascription {
            Some(type_) => {
                let mark = two(TokenKind::Colon, TokenKind::Colon);
                let signs = type_signs(type_);
                written_apart(tokens, end, mark, signs);
                written_token(tokens, end, mark, 0);
                written_token(tokens, end, mark, 1);
                assert(written(tokens, end + 2, signs));
                assert(!is_arrow(tokens, end + 2 + signs.len()));
                assert(is_ascription(tokens, end));
            },
            None => {
                assert(tail.len() == 0);
                assert(!is_ascription(tokens, end));
            },
        }
        closing_tokens_end_operands(tokens, end);
        primary_climbs(tokens, pos + 2, names, expr, count, after, 3);
        let parsed = parse_assignment(tokens, pos, state, name_of(table, ident));
        assert(parse_statement(tokens, pos, state) == parsed);
        assert(parsed.outcome is Ok);
    }
}

/// An ascription reads back where its type does.
pub proof fn ascription_reads(
    tokens: Seq<TokenModel>,
    pos: int,
    state: ParserState,
    statement: Spanned<StatementModel>,
    table: Seq<Seq<char>>,
    names: Seq<Seq<char>>,
)
    requires
        written(tokens, pos, statement_signs(statement.inner, table)),
        statement.inner matches StatementModel::TypeAscription { ident, type_ } && {
            &&& intern(state.names, name_of(table, ident)) == (names, ident)
            &&& type_reads(type_)
            &&& type_signs(type_).len() > 0
        },
    ensures
        ({
            let parsed = parse_statement(tokens, pos, state);
            &&& parsed.state == (ParserState { names, assigned: state.assigned })
            &&& parsed.outcome matches Ok((value, more))
            &&& erase_statement(value) == erase_statement(statement)
            &&& more + 2 == statement_signs(statement.inner, table).len()
        }),
{
    if let StatementModel::TypeAscription { ident, type_ } = statement.inner {
        let head = one(TokenKind::Ident(name_of(table, ident)));
        let mark = two(TokenKind::Colon, TokenKind::Colon);
        let signs = type_signs(type_);
        let line = one(TokenKind::NewLine);
        assert(statement_signs(statement.inner, table) == head + mark + signs + line);
        written_apart(tokens, pos, head + mark + signs, line);
        written_apart(tokens, pos, head + mark, signs);
        written_apart(tokens, pos, head, mark);
        written_token(tokens, pos, head, 0);
        written_token(tokens, pos + 1, mark, 0);
        written_token(tokens, pos + 1, mark, 1);
        written_token(tokens, pos + 3 + signs.len(), line, 0);
        assert(written(tokens, pos + 3, signs));
        assert(!is_arrow(tokens, pos + 3 + signs.len()));
        assert(is_ascription(tokens, pos + 1));
    }
}

/// A request to merge another source reads back.
pub proof fn request_reads(
    tokens: Seq<TokenModel>,
    pos: int,
    state: ParserState,
    statement: Spanned<StatementModel>,
    table: Seq<Seq<char>>,
)
    requires
        written(tokens, pos, statement_signs(statement.inner, table)),
        statement.inner is Include,
    ensures
        ({
            let parsed = parse_statement(tokens, pos, state);
            &&& parsed.state == state
            &&& parsed.outcome matches Ok((value, more))
            &&& erase_statement(value) == erase_statement(statement)
            &&& more + 2 == statement_signs(statement.inner, table).len()
        }),
{
    let signs = statement_signs(statement.inner, table);
    written_token(tokens, pos, signs, 0);
    written_token(tokens, pos, signs, 1);
    written_token(tokens, pos, signs, 2);
}

/// What is parsed reads back: a statement.
pub proof fn statement_parsed(
    tokens: Seq<TokenModel>,
    pos: int,
    state: ParserState,
    table: Seq<Seq<char>>,
)
    requires
        legible(tokens),
        table.len() <= u64::MAX,
        extends(parse_statement(tokens, pos, state).state.names, table),
    ensures
        parse_statement(tokens, pos, state).outcome matches Ok((statement, more)) ==> {
            &&& statement_reads(statement, table, state, parse_statement(tokens, pos, state).state)
            &&& sound_signs(statement_signs(statement.inner, table))
            &&& statement_signs(statement.inner, table)[0].kind is Ident
            &&& statement_signs(statement.inner, table).last().kind is NewLine
            &&& printable_statement(statement.inner, table.len())
        },
{
    let parsed = parse_statement(tokens, pos, state);
    if let Ok((statement, more)) = parsed.outcome {
        assert(0 <= pos < tokens.len());
        assert(writable(tokens[pos].kind));
        let name = kind_at(tokens, pos)->Ident_0;
        one_is_sound(TokenKind::Equals);
        one_is_sound(TokenKind::NewLine);
        two_is_sound(TokenKind::Colon, TokenKind::Colon);
        match statement.inner {
            StatementModel::Assignment { ident, expr, type_ascription } => {
                let names = intern(state.names, name).0;
                let value = parse_expression(tokens, pos + 2, names);
                interning_extends(state.names, name);
                expression_grows(tokens, pos + 2, names);
                extends_twice(names, value.names, table);
                assert(names[ident.handle as int] == table[ident.handle as int]);
                assert(name_of(table, ident) == name);
                expression_parsed(tokens, pos + 2, names, table);
                let end = pos + 3 + value.outcome->Ok_0.1;
                if is_ascription(tokens, end) {
                    type_parsed(tokens, end + 2);
                }
                let head = one(TokenKind::Ident(name)) + one(TokenKind::Equals);
                let tail = match type_ascription {
                    Some(type_) => two(TokenKind::Colon, TokenKind::Colon) + type_signs(type_),
                    None => Seq::<crate::parser::printer::Sign>::empty(),
                };
                one_is_sound(TokenKind::Ident(name));
                sound_signs_join(one(TokenKind::Ident(name)), one(TokenKind::Equals));
                sound_signs_join(head, operand_signs(expr, table));
                if let Some(type_) = type_ascription {
                    sound_signs_join(two(TokenKind::Colon, TokenKind::Colon), type_signs(type_));
                    sound_signs_join(head + operand_signs(expr, table), tail);
                } else {
                    assert(head + operand_signs(expr, table) + tail =~= head + operand_signs(
                        expr,
                        table,
                    ));
                }
                sound_signs_join(
                    head + operand_signs(expr, table) + tail,
                    one(TokenKind::NewLine),
                );
                assert(statement_signs(statement.inner, table) == head + operand_signs(expr, table)
                    + tail + one(TokenKind::NewLine));
                assert forall|other: Seq<TokenModel>, at: int| #[trigger]
                    written(other, at, statement_signs(statement.inner, table)) implies ({
                    let again = parse_statement(other, at, state);
                    &&& again.state == parsed.state
                    &&& again.outcome matches Ok((value, more))
                    &&& erase_statement(value) == erase_statement(statement)
                    &&& more + 2 == statement_signs(statement.inner, table).len()
                }) by {
                    assignment_reads(other, at, state, statement, table, names, value.names);
                }
            },
            StatementModel::TypeAscription { ident, type_ } => {
                let names = intern(state.names, name).0;
                interning_extends(state.names, name);
                assert(names[ident.handle as int] == table[ident.handle as int]);
                assert(name_of(table, ident) == name);
                type_parsed(tokens, pos + 3);
                one_is_sound(TokenKind::Ident(name));
                sound_signs_join(
                    one(TokenKind::Ident(name)),
                    two(TokenKind::Colon, TokenKind::Colon),
                );
                sound_signs_join(
                    one(TokenKind::Ident(name)) + two(TokenKind::Colon, TokenKind::Colon),
                    type_signs(type_),
                );
                sound_signs_join(
                    one(TokenKind::Ident(name)) + two(TokenKind::Colon, TokenKind::Colon)
                        + type_signs(type_),
                    one(TokenKind::NewLine),
                );
                assert forall|other: Seq<TokenModel>, at: int| #[trigger]
                    written(other, at, statement_signs(statement.inner, table)) implies ({
                    let again = parse_statement(other, at, state);
                    &&& again.state == parsed.state
                    &&& again.outcome matches Ok((value, more))
                    &&& erase_statement(value) == erase_statement(statement)
                    &&& more + 2 == statement_signs(statement.inner, table).len()
                }) by {
                    ascription_reads(other, at, state, statement, table, names);
                }
            },
            StatementModel::Include { path } => {
                assert(0 <= pos + 1 < tokens.len());
                assert(writable(tokens[pos + 1].kind));
                one_is_sound(TokenKind::Ident(name));
                one_is_sound(TokenKind::String(path));
                sound_signs_join(one(TokenKind::Ident(name)), one(TokenKind::String(path)));
                sound_signs_join(
                    one(TokenKind::Ident(name)) + one(TokenKind::String(path)),
                    one(TokenKind::NewLine),
                );
                assert forall|other: Seq<TokenModel>, at: int| #[trigger]
                    written(other, at, statement_signs(statement.inner, table)) implies ({
                    let again = parse_statement(other, at, state);
                    &&& again.state == parsed.state
                    &&& again.outcome matches Ok((value, more))
                    &&& erase_statement(value) == erase_statement(statement)
                    &&& more + 2 == statement_signs(statement.inner, table).len()
                }) by {
                    request_reads(other, at, state, statement, table);
                }
            },
        }
    }
}

/// Whether the signs of the statements `statements` parse back to them
/// wherever they are written with the end of the input behind them, from
/// the state `before` to the state `after`, without an error.
pub open spec fn lines_read(
    statements: Seq<Spanned<StatementModel>>,
    table: Seq<Seq<char>>,
    before: ParserState,
    after: ParserState,
) -> bool {
    forall|tokens: Seq<TokenModel>, pos: int| #[trigger]
        written(tokens, pos, program_signs(statements, table)) && kind_at(
            tokens,
            pos + program_signs(statements, table).len(),
        ) is Eof ==> {
            let file = parse_lines(tokens, pos, before);
            &&& file.state == after
            &&& file.errors.len() == 0
            &&& erase_statements(file.statements) == erase_statements(statements)
        }
}

/// A statement with the statements behind it reads back where both do.
pub proof fn line_reads(
    tokens: Seq<TokenModel>,
    pos: int,
    state: ParserState,
    statements: Seq<Spanned<StatementModel>>,
    table: Seq<Seq<char>>,
    between: ParserState,
    after: ParserState,
)
    requires
        statements.len() > 0,
        written(tokens, pos, program_signs(statements, table)),
        kind_at(tokens, pos + program_signs(statements, table).len()) is Eof,
        statement_reads(statements[0], table, state, between),
        lines_read(statements.drop_first(), table, between, after),
        statement_signs(statements[0].inner, table).len() > 0,
        statement_signs(statements[0].inner, table)[0].kind is Ident,
        statement_signs(statements[0].inner, table).last().kind is NewLine,
    ensures
        ({
            let file = parse_lines(tokens, pos, state);
            &&& file.state == after
            &&& file.errors.len() == 0
            &&& erase_statements(file.statements) == erase_statements(statements)
        }),
{
    let first = statement_signs(statements[0].inner, table);
    let rest = program_signs(statements.drop_first(), table);
    assert(program_signs(statements, table) == first + rest);
    written_apart(tokens, pos, first, rest);
    written_token(tokens, pos, first, 0);
    written_token(tokens, pos, first, first.len() - 1);
    let parsed = parse_statement(tokens, pos, state);
    let value = parsed.outcome->Ok_0.0;
    let more = parsed.outcome->Ok_0.1;
    let end = pos + 1 + more;
    assert(end == pos + first.len() - 1);
    assert(kind_at(tokens, end) is NewLine);
    assert(written(tokens, end + 1, rest));
    let behind = parse_lines(tokens, end + 1, between);
    assert(parse_lines(tokens, end, between) == behind);
    let file = parse_lines(tokens, pos, state);
    assert(file.statements == seq![value] + behind.statements);
    assert(file.errors == behind.errors);
    let erased = erase_statements(behind.statements);
    let wanted = erase_statements(statements.drop_first());
    assert(erased == wanted);
    assert(erased.len() == behind.statements.len());
    assert(wanted.len() == statements.len() - 1);
    assert(file.statements.len() == statements.len());
    assert forall|i: int| 0 <= i < statements.len() implies erase_statements(file.statements)[i]
        == erase_statements(statements)[i] by {
        if i > 0 {
            assert(file.statements[i] == behind.statements[i - 1]);
            assert(erased[i - 1] == erase_statement(behind.statements[i - 1]));
            assert(wanted[i - 1] == erase_statement(statements.drop_first()[i - 1]));
            assert(statements.drop_first()[i - 1] == statements[i]);
        } else {
            assert(file.statements[0] == value);
        }
    }
    assert(erase_statements(file.statements) =~= erase_statements(statements));
}

/// What is parsed reads back: the lines of a source without an error.
pub proof fn lines_parsed(
    tokens: Seq<TokenModel>,
    pos: int,
    state: ParserState,
    table: Seq<Seq<char>>,
)
    requires
        legible(tokens),
        table.len() <= u64::MAX,
        parse_lines(tokens, pos, state).errors.len() == 0,
        extends(parse_lines(tokens, pos, state).state.names, table),
    ensures
        lines_read(
            parse_lines(tokens, pos, state).statements,
            table,
            state,
            parse_lines(tokens, pos, state).state,
        ),
        program_signs(parse_lines(tokens, pos, state).statements, table).len() == 0 || sound_signs(
            program_signs(parse_lines(tokens, pos, state).statements, table),
        ),
        printable(parse_lines(tokens, pos, state).statements, table.len()),
    decreases remaining(tokens, pos),
{
    let file = parse_lines(tokens, pos, state);
    if pos < 0 || pos >= tokens.len() || tokens[pos].kind is Eof {
        assert(file.statements.len() == 0);
        assert(program_signs(file.statements, table).len() == 0);
        assert forall|other: Seq<TokenModel>, at: int| #[trigger]
            written(other, at, program_signs(file.statements, table)) && kind_at(
                other,
                at + program_signs(file.statements, table).len(),
            ) is Eof implies ({
            let again = parse_lines(other, at, state);
            &&& again.state == file.state
            &&& again.errors.len() == 0
            &&& erase_statements(again.statements) == erase_statements(file.statements)
        }) by {
            let again = parse_lines(other, at, state);
            assert(again.statements.len() == 0);
            assert(erase_statements(again.statements) =~= erase_statements(file.statements));
        }
    } else if tokens[pos].kind is NewLine {
        lines_parsed(tokens, pos + 1, state, table);
    } else {
        let parsed = parse_statement(tokens, pos, state);
        match parsed.outcome {
            Err(error) => {
                assert(file.errors.len() > 0);
            },
            Ok((statement, more)) => {
                let end = pos + 1 + more;
                if kind_at(tokens, end) is NewLine || kind_at(tokens, end) is Eof {
                    let rest = parse_lines(tokens, end, parsed.state);
                    assert(file.statements == seq![statement] + rest.statements);
                    assert(file.statements.drop_first() =~= rest.statements);
                    assert(file.errors == rest.errors);
                    lines_grow(tokens, end, parsed.state);
                    extends_twice(parsed.state.names, rest.state.names, table);
                    statement_parsed(tokens, pos, state, table);
                    lines_parsed(tokens, end, parsed.state, table);
                    let first = statement_signs(statement.inner, table);
                    let behind = program_signs(rest.statements, table);
                    assert(program_signs(file.statements, table) == first + behind);
                    if behind.len() > 0 {
                        sound_signs_join(first, behind);
                    } else {
                        assert(first + behind =~= first);
                    }
                    assert forall|other: Seq<TokenModel>, at: int| #[trigger]
                        written(other, at, program_signs(file.statements, table)) && kind_at(
                            other,
                            at + program_signs(file.statements, table).len(),
                        ) is Eof implies ({
                        let again = parse_lines(other, at, state);
                        &&& again.state == file.state
                        &&& again.errors.len() == 0
                        &&& erase_statements(again.statements) == erase_statements(
                            file.statements,
                        )
                    }) by {
                        line_reads(
                            other,
                            at,
                            state,
                            file.statements,
                            table,
                            parsed.state,
                            rest.state,
                        );
                    }
                } else {
                    assert(file.errors.len() > 0);
                }
            },
        }
    }
}

/// Round trip. The statements of a source can be written back as text,
/// and the text, parsed again, gives the same statements but for their
/// spans, with the same names.
pub proof fn printed_program_parses_back(src: Seq<char>)
    requires
        parse_text(src) is Ok,
        parse_text(src)->Ok_0.1.len() <= u64::MAX,
        byte_length(printed(parse_text(src)->Ok_0.0, parse_text(src)->Ok_0.1)) <= usize::MAX,
    ensures
        ({
            let (program, names) = parse_text(src)->Ok_0;
            &&& printable(program, names.len())
            &&& parse_text(printed(program, names)) matches Ok((again, table))
            &&& table == names
            &&& erase_statements(again) == erase_statements(program)
        }),
{
    let tokens = scan_text(src)->Ok_0;
    scanned_tokens_are_writable(src, 0);
    tokens_end_with_eof(src, 0);
    assert(legible(tokens)) by {
        assert forall|i: int| 0 <= i < tokens.len() implies tokens[i].kind is Eof || writable(
            #[trigger] tokens[i].kind,
        ) by {
            if i == tokens.len() - 1 {
                assert(tokens[i] == tokens.last());
            }
        }
    }
    let file = parse_lines(tokens, 0, initial_state());
    let program = file.statements;
    let names = file.state.names;
    lines_parsed(tokens, 0, initial_state(), names);
    let signs = program_signs(program, names);
    let text = render(signs);
    assert(text.subrange(0, text.len() as int) =~= text);
    assert(valid_signs(signs));
    signs_scan(text, 0, signs);
    let again = lexed(text, 0, signs);
    lexed_is_written(Seq::empty(), text, 0, signs);
    assert(Seq::<TokenModel>::empty() + again =~= again);
    lexed_starts(text, 0, signs);
    assert(kind_at(again, signs.len() as int) is Eof) by {
        assert(again[signs.len() as int] == again.last());
    }
    assert(written(again, 0, program_signs(program, names)));
}

} // verus!
