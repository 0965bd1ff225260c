//! Merging the statements of one source into another in place of a
//! request to do so.

use crate::parser::ast::expression_model;
use crate::parser::ast::intern;
use crate::parser::ast::statement_models;
use crate::parser::ast::Expression;
use crate::parser::ast::ExpressionModel;
use crate::parser::ast::Identifier;
use crate::parser::ast::IdentifierMap;
use crate::parser::ast::Primary;
use crate::parser::ast::PrimaryModel;
use crate::parser::ast::Statement;
use crate::parser::ast::StatementModel;
use crate::parser::ast::UnwrapSameTypes;
use crate::parser::ParserError;
use crate::utils::Spanned;
use vstd::prelude::*;

verus! {

/// The identifier that `mapping` gives for `identifier`: the entry at its
/// handle, or the identifier itself where `mapping` has none.
pub open spec fn renamed(mapping: Seq<Identifier>, identifier: Identifier) -> Identifier {
    if identifier.handle < mapping.len() {
        mapping[identifier.handle as int]
    } else {
        identifier
    }
}

/// `expression` with every identifier replaced by what `mapping` gives
/// for it.
pub open spec fn rename_expression(
    expression: Spanned<ExpressionModel>,
    mapping: Seq<Identifier>,
) -> Spanned<ExpressionModel>
    decreases expression,
{
    Spanned {
        span: expression.span,
        inner: match expression.inner {
            ExpressionModel::If { cond, then_, else_ } => ExpressionModel::If {
                cond: Box::new(rename_expression(*cond, mapping)),
                then_: Box::new(rename_expression(*then_, mapping)),
                else_: Box::new(rename_expression(*else_, mapping)),
            },
            ExpressionModel::Binary { operator, lhs, rhs } => ExpressionModel::Binary {
                operator,
                lhs: Box::new(rename_expression(*lhs, mapping)),
                rhs: Box::new(rename_expression(*rhs, mapping)),
            },
            ExpressionModel::Unary { operator, rhs } => ExpressionModel::Unary {
                operator,
                rhs: Box::new(rename_expression(*rhs, mapping)),
            },
            ExpressionModel::FunctionApplication { function, argument } => {
                ExpressionModel::FunctionApplication {
                    function: Box::new(rename_expression(*function, mapping)),
                    argument: Box::new(rename_expression(*argument, mapping)),
                }
            },
            ExpressionModel::Variable(identifier) => ExpressionModel::Variable(
                renamed(mapping, identifier),
            ),
            ExpressionModel::Primary(primary) => ExpressionModel::Primary(
                Spanned {
                    span: primary.span,
                    inner: match primary.inner {
                        PrimaryModel::Lambda { param, body } => PrimaryModel::Lambda {
                            param: renamed(mapping, param),
                            body: Box::new(rename_expression(*body, mapping)),
                        },
                        other => other,
                    },
                },
            ),
        },
    }
}

/// `statement` with every identifier replaced by what `mapping` gives for
/// it.
pub open spec fn rename_statement(
    statement: Spanned<StatementModel>,
    mapping: Seq<Identifier>,
) -> Spanned<StatementModel> {
    Spanned {
        span: statement.span,
        inner: match statement.inner {
            StatementModel::Assignment {
                ident,
                expr,
                type_ascription,
            } => StatementModel::Assignment {
                ident: renamed(mapping, ident),
                expr: rename_expression(expr, mapping),
                type_ascription,
            },
            StatementModel::TypeAscription { ident, type_ } => StatementModel::TypeAscription {
                ident: renamed(mapping, ident),
                type_,
            },
            StatementModel::Include { path } => StatementModel::Include { path },
        },
    }
}

/// The statements `statements`, each renamed by `mapping`.
pub open spec fn rename_statements(
    statements: Seq<Spanned<StatementModel>>,
    mapping: Seq<Identifier>,
) -> Seq<Spanned<StatementModel>> {
    Seq::new(statements.len(), |i: int| rename_statement(statements[i], mapping))
}

/// The names of a host after the first `count` names of an included
/// source are interned in it, in their order, and the identifier that
/// each of them has in the host.
pub open spec fn merged_names(host: Seq<Seq<char>>, included: Seq<Seq<char>>, count: int) -> (
    Seq<Seq<char>>,
    Seq<Identifier>,
)
    decreases count,
{
    if count <= 0 {
        (host, seq![])
    } else {
        let (names, mapping) = merged_names(host, included, count - 1);
        let (after, identifier) = intern(names, included[count - 1]);
        (after, mapping.push(identifier))
    }
}

/// The name that `statement` gives a value to, if it is an assignment.
pub open spec fn assigned_by(statement: StatementModel) -> Option<Identifier> {
    match statement {
        StatementModel::Assignment { ident, expr, type_ascription } => Some(ident),
        _ => None,
    }
}

/// Whether one of the first `count` statements of `statements` gives
/// `identifier` a value.
pub open spec fn assigns(
    statements: Seq<Spanned<StatementModel>>,
    count: int,
    identifier: Identifier,
) -> bool
    decreases count,
{
    if count <= 0 {
        false
    } else {
        assigned_by(statements[count - 1].inner) == Some(identifier) || assigns(
            statements,
            count - 1,
            identifier,
        )
    }
}

/// The first name, in the order of `included` from `from` on, that both
/// `included` and `host` give a value to.
pub open spec fn first_collision(
    host: Seq<Spanned<StatementModel>>,
    included: Seq<Spanned<StatementModel>>,
    from: int,
) -> Option<Identifier>
    decreases included.len() - from,
{
    if from < 0 || from >= included.len() {
        None
    } else {
        match assigned_by(included[from].inner) {
            Some(identifier) => if assigns(host, host.len() as int, identifier) {
                Some(identifier)
            } else {
                first_collision(host, included, from + 1)
            },
            None => first_collision(host, included, from + 1),
        }
    }
}

/// The host program `host` with the statements of `included` in place of
/// its statement `at`, and the names of both.
///
/// Where `at` is no request to merge another source, nothing changes.
/// The names of the included source are interned in the host, so that a
/// name means the same in both, and the identifiers of the included
/// statements are renamed to those of the host. A name that both sources
/// give a value to is an error at the request.
pub open spec fn spliced(
    host: Seq<Spanned<StatementModel>>,
    names: Seq<Seq<char>>,
    at: int,
    included: Seq<Spanned<StatementModel>>,
    included_names: Seq<Seq<char>>,
) -> Result<(Seq<Spanned<StatementModel>>, Seq<Seq<char>>), ParserError> {
    if 0 <= at < host.len() && host[at].inner is Include {
        let (merged, mapping) = merged_names(names, included_names, included_names.len() as int);
        let arrived = rename_statements(included, mapping);
        match first_collision(host, arrived, 0) {
            Some(ident) => Err(ParserError::DuplicateIdentifier { span: host[at].span, ident }),
            None => Ok(
                (
                    host.subrange(0, at) + arrived + host.subrange(at + 1, host.len() as int),
                    merged,
                ),
            ),
        }
    } else {
        Ok((host, names))
    }
}

/// The identifier that `mapping` gives for `identifier`; see [`renamed`].
fn rename(mapping: &Vec<Identifier>, identifier: Identifier) -> (out: Identifier)
    ensures
        out == renamed(mapping@, identifier),
{
    if identifier.handle < mapping.len() as u64 {
        mapping[identifier.handle as usize]
    } else {
        identifier
    }
}

/// A copy of `primary`, renamed by `mapping`.
fn renamed_primary(primary: &Spanned<Primary>, mapping: &Vec<Identifier>) -> (out: Spanned<Primary>)
    ensures
        out@ == (Spanned {
            span: primary.span,
            inner: match primary@.inner {
                PrimaryModel::Lambda { param, body } => PrimaryModel::Lambda {
                    param: renamed(mapping@, param),
                    body: Box::new(rename_expression(*body, mapping@)),
                },
                other => other,
            },
        }),
    decreases *primary, 0nat,
{
    let inner = match &primary.inner {
        Primary::Lambda { param, body } => Primary::Lambda {
            param: rename(mapping, *param),
            body: Box::new(renamed_copy(body, mapping)),
        },
        other => other.duplicate(),
    };
    Spanned { span: primary.span.start..primary.span.end, inner }
}

/// A copy of `expression`, renamed by `mapping`; see
/// [`rename_expression`].
fn renamed_copy(expression: &Spanned<Expression>, mapping: &Vec<Identifier>) -> (out: Spanned<
    Expression,
>)
    ensures
        out@ == rename_expression(expression@, mapping@),
    decreases *expression, 1nat,
{
    let inner = match &expression.inner {
        Expression::If { cond, then_, else_ } => Expression::If {
            cond: Box::new(renamed_copy(cond, mapping)),
            then_: Box::new(renamed_copy(then_, mapping)),
            else_: Box::new(renamed_copy(else_, mapping)),
        },
        Expression::Binary { operator, lhs, rhs } => Expression::Binary {
            operator: *operator,
            lhs: Box::new(renamed_copy(lhs, mapping)),
            rhs: Box::new(renamed_copy(rhs, mapping)),
        },
        Expression::Unary { operator, rhs } => Expression::Unary {
            operator: *operator,
            rhs: Box::new(renamed_copy(rhs, mapping)),
        },
        Expression::FunctionApplication { function, argument } => Expression::FunctionApplication {
            function: Box::new(renamed_copy(function, mapping)),
            argument: Box::new(renamed_copy(argument, mapping)),
        },
        Expression::Variable(identifier) => Expression::Variable(rename(mapping, *identifier)),
        Expression::Primary(primary) => {
            let copy = renamed_primary(primary, mapping);
            proof {
                assert(expression@.inner == ExpressionModel::Primary(primary@));
                assert(expression_model(Expression::Primary(copy)) == ExpressionModel::Primary(
                    copy@,
                ));
            }
            Expression::Primary(copy)
        },
    };
    Spanned { span: expression.span.start..expression.span.end, inner }
}

/// A copy of `statement`, renamed by `mapping`; see [`rename_statement`].
fn renamed_statement(statement: &Spanned<Statement>, mapping: &Vec<Identifier>) -> (out: Spanned<
    Statement,
>)
    ensures
        out@ == rename_statement(statement@, mapping@),
{
    let inner = match &statement.inner {
        Statement::Assignment { ident, expr, type_ascription } => Statement::Assignment {
            ident: rename(mapping, *ident),
            expr: renamed_copy(expr, mapping),
            type_ascription: match type_ascription {
                Some(type_) => Some(type_.duplicate()),
                None => None,
            },
        },
        Statement::TypeAscription { ident, type_ } => Statement::TypeAscription {
            ident: rename(mapping, *ident),
            type_: type_.duplicate(),
        },
        Statement::Include { path } => Statement::Include { path: path.clone() },
    };
    Spanned { span: statement.span.start..statement.span.end, inner }
}

/// Whether one of `statements` gives `identifier` a value.
fn gives_value(statements: &Vec<Spanned<Statement>>, identifier: Identifier) -> (out: bool)
    ensures
        out == assigns(statement_models(statements@), statements@.len() as int, identifier),
{
    let ghost models = statement_models(statements@);
    let mut i: usize = 0;
    while i < statements.len()
        invariant
            i <= statements@.len(),
            models == statement_models(statements@),
            !assigns(models, i as int, identifier),
        decreases statements@.len() - i,
    {
        match &statements[i].inner {
            Statement::Assignment { ident, .. } => {
                if ident.handle == identifier.handle {
                    proof {
                        assigns_later(models, i + 1, statements@.len() as int, identifier);
                    }
                    return true;
                }
            },
            _ => {},
        }
        i += 1;
    }
    false
}

/// A name that one of the first `count` statements gives a value to is
/// given one by the first `more` statements too.
proof fn assigns_later(
    statements: Seq<Spanned<StatementModel>>,
    count: int,
    more: int,
    identifier: Identifier,
)
    requires
        count <= more,
        assigns(statements, count, identifier),
    ensures
        assigns(statements, more, identifier),
    decreases more - count,
{
    if count < more {
        assigns_later(statements, count, more - 1, identifier);
    }
}

/// Puts the statements of the source `included`, whose names are
/// `included_names`, in place of the statement `at` of the host program
/// `statements`, whose names are `interner`; see [`spliced`].
pub fn include_unit(
    statements: Vec<Spanned<Statement>>,
    interner: IdentifierMap,
    at: usize,
    included: &Vec<Spanned<Statement>>,
    included_names: &IdentifierMap,
) -> (out: Result<(Vec<Spanned<Statement>>, IdentifierMap), ParserError>)
    ensures
        match out {
            Ok((merged, names)) => spliced(
                statement_models(statements@),
                interner@,
                at as int,
                statement_models(included@),
                included_names@,
            ) == Ok::<(Seq<Spanned<StatementModel>>, Seq<Seq<char>>), ParserError>(
                (statement_models(merged@), names@),
            ),
            Err(error) => spliced(
                statement_models(statements@),
                interner@,
                at as int,
                statement_models(included@),
                included_names@,
            ) == Err::<(Seq<Spanned<StatementModel>>, Seq<Seq<char>>), ParserError>(error),
        },
{
    let ghost host = statement_models(statements@);
    let ghost guest = statement_models(included@);
    let requested = at < statements.len() && match &statements[at].inner {
        Statement::Include { .. } => true,
        _ => false,
    };
    if !requested {
        return Ok((statements, interner));
    }
    let ghost names = interner@;
    let mut merged = statements;
    let mut table = interner;
    let mut mapping: Vec<Identifier> = Vec::new();
    let mut i: usize = 0;
    while i < included_names.len()
        invariant
            i <= included_names@.len(),
            (table@, mapping@) == merged_names(names, included_names@, i as int),
        decreases included_names@.len() - i,
    {
        let name = match included_names.get(&Identifier { handle: i as u64 }) {
            Some(name) => name.clone(),
            None => String::new(),
        };
        let identifier = table.create_identifier(name).always_ok();
        mapping.push(identifier);
        i += 1;
    }
    let mut arrived: Vec<Spanned<Statement>> = Vec::new();
    let mut j: usize = 0;
    while j < included.len()
        invariant
            j <= included@.len(),
            guest == statement_models(included@),
            statement_models(arrived@) == rename_statements(guest, mapping@).subrange(0, j as int),
        decreases included@.len() - j,
    {
        let ghost before = statement_models(arrived@);
        let copy = renamed_statement(&included[j], &mapping);
        arrived.push(copy);
        proof {
            assert(statement_models(arrived@) =~= before.push(
                rename_statement(guest[j as int], mapping@),
            ));
            assert(before.push(rename_statement(guest[j as int], mapping@)) =~= rename_statements(
                guest,
                mapping@,
            ).subrange(0, j + 1));
        }
        j += 1;
    }
    proof {
        assert(statement_models(arrived@) =~= rename_statements(guest, mapping@));
    }
    let ghost renamed_guest = statement_models(arrived@);
    let mut k: usize = 0;
    while k < arrived.len()
        invariant
            k <= arrived@.len(),
            at < merged@.len(),
            host == statement_models(merged@),
            host == statement_models(statements@),
            guest == statement_models(included@),
            names == interner@,
            host[at as int].inner is Include,
            merged_names(names, included_names@, included_names@.len() as int) == (
                table@,
                mapping@,
            ),
            renamed_guest == rename_statements(guest, mapping@),
            renamed_guest == statement_models(arrived@),
            first_collision(host, renamed_guest, 0) == first_collision(host, renamed_guest, k as int),
        decreases arrived@.len() - k,
    {
        match &arrived[k].inner {
            Statement::Assignment { ident, .. } => {
                if gives_value(&merged, *ident) {
                    return Err(
                        ParserError::DuplicateIdentifier {
                            span: merged[at].span.start..merged[at].span.end,
                            ident: *ident,
                        },
                    );
                }
            },
            _ => {},
        }
        k += 1;
    }
    let mut behind = merged.split_off(at);
    let mut rest = behind.split_off(1);
    merged.append(&mut arrived);
    merged.append(&mut rest);
    proof {
        assert(statement_models(merged@) =~= host.subrange(0, at as int) + renamed_guest
            + host.subrange(at + 1, host.len() as int));
    }
    Ok((merged, table))
}

} // verus!
