//! Type checking of parsed statements.

pub mod variant;

use crate::parser::ast::statement_models;
use crate::parser::ast::BinaryOperator;
use crate::parser::ast::Expression;
use crate::parser::ast::ExpressionModel;
use crate::parser::ast::Identifier;
use crate::parser::ast::Primary;
use crate::parser::ast::PrimaryModel;
use crate::parser::ast::Statement;
use crate::parser::ast::StatementModel;
use crate::parser::ast::UnaryOperator;
use crate::tc::variant::is_resolved;
use crate::tc::variant::meet_of;
use crate::tc::variant::Type;
use crate::tc::variant::TypeCheckerError;
use crate::utils::Spanned;
use std::ops::Range;
use vstd::prelude::*;

verus! {

/// The type that `name` has in `ctx`: that of its last entry.
pub open spec fn find_type(ctx: Seq<(Identifier, Type)>, name: Identifier) -> Option<Type>
    decreases ctx.len(),
{
    if ctx.len() == 0 {
        None
    } else if ctx.last().0 == name {
        Some(ctx.last().1)
    } else {
        find_type(ctx.drop_last(), name)
    }
}

/// The meet of the type that a place expects and the type found there; an
/// error is reported at `span`.
pub open spec fn unify(expected: Type, found: Type, span: Range<usize>) -> Result<
    Type,
    Spanned<TypeCheckerError>,
> {
    match meet_of(expected, found) {
        Ok(met) => Ok(met),
        Err(error) => Err(Spanned { span, inner: error }),
    }
}

/// The error for a type that is not known at `span`.
pub open spec fn unknown_at(span: Range<usize>) -> Spanned<TypeCheckerError> {
    Spanned { span, inner: TypeCheckerError::UnknownType }
}

/// The function type of which nothing is known.
pub open spec fn any_function() -> Type {
    Type::Fun { input: Box::new(Type::Infer), output: Box::new(Type::Infer) }
}

/// The first of two types that is known.
pub open spec fn first_known(first: Type, second: Type) -> Type {
    if first is Infer {
        second
    } else {
        first
    }
}

/// The input of a function type; `Infer` for every other type.
pub open spec fn input_of(ty: Type) -> Type {
    match ty {
        Type::Fun { input, output } => *input,
        _ => Type::Infer,
    }
}

/// The output of a function type; `Infer` for every other type.
pub open spec fn output_of(ty: Type) -> Type {
    match ty {
        Type::Fun { input, output } => *output,
        _ => Type::Infer,
    }
}

/// The type of `expression` where nothing is expected of it, or `Infer`
/// where it has none.
pub open spec fn type_or_infer(expression: Spanned<ExpressionModel>, ctx: Seq<(Identifier, Type)>) -> Type
    decreases expression, 1nat,
{
    match infer(expression, ctx, Type::Infer) {
        Ok(found) => found,
        Err(_) => Type::Infer,
    }
}

/// The type that `expression` asks of the name `name` by the first place
/// in which it uses the name and expects a type there; `Infer` where no
/// use expects one. `expected` is the type expected of `expression`.
///
/// An operand of `!` is expected to be a boolean, one of `-` and of the
/// arithmetic operators and comparisons a number, a condition a boolean,
/// an argument the input of its function, the branches of a conditional
/// what the conditional is. An operand of `+`, `==` and `!=` is expected
/// to be what is expected of the whole, for `+`, or else what the other
/// operand is.
pub open spec fn demand(
    expression: Spanned<ExpressionModel>,
    name: Identifier,
    ctx: Seq<(Identifier, Type)>,
    expected: Type,
) -> Type
    decreases expression, 2nat,
{
    match expression.inner {
        ExpressionModel::Primary(primary) => match primary.inner {
            PrimaryModel::Lambda { param, body } => if param == name {
                Type::Infer
            } else {
                demand(*body, name, ctx, output_of(expected))
            },
            _ => Type::Infer,
        },
        ExpressionModel::Variable(identifier) => if identifier == name {
            expected
        } else {
            Type::Infer
        },
        ExpressionModel::Unary { operator, rhs } => demand(
            *rhs,
            name,
            ctx,
            match operator {
                UnaryOperator::Not => Type::Bool,
                UnaryOperator::Negative => Type::Number,
            },
        ),
        ExpressionModel::Binary { operator, lhs, rhs } => match operator {
            BinaryOperator::Equivalent | BinaryOperator::NotEquivalent => first_known(
                demand(*lhs, name, ctx, type_or_infer(*rhs, ctx)),
                demand(*rhs, name, ctx, type_or_infer(*lhs, ctx)),
            ),
            BinaryOperator::Add => {
                let whole = if expected is Number || expected is String {
                    expected
                } else {
                    Type::Infer
                };
                first_known(
                    demand(*lhs, name, ctx, first_known(whole, type_or_infer(*rhs, ctx))),
                    demand(*rhs, name, ctx, first_known(whole, type_or_infer(*lhs, ctx))),
                )
            },
            _ => first_known(
                demand(*lhs, name, ctx, Type::Number),
                demand(*rhs, name, ctx, Type::Number),
            ),
        },
        ExpressionModel::If { cond, then_, else_ } => first_known(
            demand(*cond, name, ctx, Type::Bool),
            first_known(demand(*then_, name, ctx, expected), demand(*else_, name, ctx, expected)),
        ),
        ExpressionModel::FunctionApplication { function, argument } => first_known(
            demand(*function, name, ctx, Type::Infer),
            demand(*argument, name, ctx, input_of(type_or_infer(*function, ctx))),
        ),
    }
}

/// The type of the parameter `param` of a lambda with the body `body`
/// that stands where `expected` is expected: the input of `expected`
/// where that is resolved, and else its meet with what the body asks of
/// the parameter; a type that stays unresolved is an error at `span`.
pub open spec fn parameter_type(
    body: Spanned<ExpressionModel>,
    param: Identifier,
    ctx: Seq<(Identifier, Type)>,
    expected: Type,
    span: Range<usize>,
) -> Result<Type, Spanned<TypeCheckerError>>
    decreases body, 3nat,
{
    if is_resolved(input_of(expected)) {
        Ok(input_of(expected))
    } else {
        match unify(
            input_of(expected),
            demand(body, param, ctx.push((param, Type::Infer)), output_of(expected)),
            span,
        ) {
            Err(error) => Err(error),
            Ok(input) => if is_resolved(input) {
                Ok(input)
            } else {
                Err(unknown_at(span))
            },
        }
    }
}

/// The type of `expression` where the names have the types of `ctx` and
/// the place of the expression expects `expected`; `Infer` expects
/// nothing.
///
/// A literal has its own type. A name has the type that `ctx` gives it.
/// `!` takes and gives a boolean, `-` a number. The comparisons take
/// numbers and give a boolean; `==` and `!=` take two operands of one
/// type. `+` takes two numbers or two strings and gives the same; the
/// other arithmetic operators take and give numbers. The branches of a
/// conditional have one type, which is the type of the conditional, and
/// its condition is a boolean. An application takes a function and an
/// argument of its input type and has its output type. A lambda takes the
/// type of its parameter from the place it stands in or, where that
/// expects none, from the first use of the parameter that does (see
/// [`parameter_type`]); without either, its type is unknown. Every result
/// is met with `expected`.
pub open spec fn infer(
    expression: Spanned<ExpressionModel>,
    ctx: Seq<(Identifier, Type)>,
    expected: Type,
) -> Result<Type, Spanned<TypeCheckerError>>
    decreases expression, 0nat,
{
    let span = expression.span;
    match expression.inner {
        ExpressionModel::Primary(primary) => match primary.inner {
            PrimaryModel::Lambda { param, body } => if expected is Fun || expected is Infer {
                match parameter_type(*body, param, ctx, expected, span) {
                    Err(error) => Err(error),
                    Ok(input) => match infer(*body, ctx.push((param, input)), output_of(expected)) {
                        Err(error) => Err(error),
                        Ok(result) => Ok(
                            Type::Fun { input: Box::new(input), output: Box::new(result) },
                        ),
                    },
                }
            } else {
                Err(
                    Spanned {
                        span,
                        inner: TypeCheckerError::IncompatibleTypes {
                            lhs: expected,
                            rhs: any_function(),
                        },
                    },
                )
            },
            PrimaryModel::String(_) => unify(expected, Type::String, span),
            PrimaryModel::Number(_) => unify(expected, Type::Number, span),
            PrimaryModel::Bool(_) => unify(expected, Type::Bool, span),
            PrimaryModel::Color(_) => unify(expected, Type::Color, span),
            PrimaryModel::Unit => unify(expected, Type::Unit, span),
        },
        ExpressionModel::Variable(identifier) => match find_type(ctx, identifier) {
            Some(found) => unify(expected, found, span),
            None => Err(unknown_at(span)),
        },
        ExpressionModel::Unary { operator, rhs } => {
            let operand = match operator {
                UnaryOperator::Not => Type::Bool,
                UnaryOperator::Negative => Type::Number,
            };
            match infer(*rhs, ctx, operand) {
                Err(error) => Err(error),
                Ok(_) => unify(expected, operand, span),
            }
        },
        ExpressionModel::Binary { operator, lhs, rhs } => match operator {
            BinaryOperator::Equivalent | BinaryOperator::NotEquivalent => match infer(
                *lhs,
                ctx,
                Type::Infer,
            ) {
                Err(error) => Err(error),
                Ok(left) => match infer(*rhs, ctx, left) {
                    Err(error) => Err(error),
                    Ok(_) => if left is Fun {
                        Err(Spanned { span, inner: TypeCheckerError::MetFunctions })
                    } else {
                        unify(expected, Type::Bool, span)
                    },
                },
            },
            BinaryOperator::Add => match infer(*lhs, ctx, Type::Infer) {
                Err(error) => Err(error),
                Ok(left) => if left is Number || left is String {
                    match infer(*rhs, ctx, left) {
                        Err(error) => Err(error),
                        Ok(_) => unify(expected, left, span),
                    }
                } else {
                    Err(
                        Spanned {
                            span: lhs.span,
                            inner: TypeCheckerError::IncompatibleTypes {
                                lhs: left,
                                rhs: Type::Number,
                            },
                        },
                    )
                },
            },
            _ => match infer(*lhs, ctx, Type::Number) {
                Err(error) => Err(error),
                Ok(_) => match infer(*rhs, ctx, Type::Number) {
                    Err(error) => Err(error),
                    Ok(_) => unify(
                        expected,
                        if operator is Sub || operator is Mul || operator is Div
                            || operator is Remainder {
                            Type::Number
                        } else {
                            Type::Bool
                        },
                        span,
                    ),
                },
            },
        },
        ExpressionModel::If { cond, then_, else_ } => match infer(*cond, ctx, Type::Bool) {
            Err(error) => Err(error),
            Ok(_) => match infer(*then_, ctx, expected) {
                Err(error) => Err(error),
                Ok(first) => infer(*else_, ctx, first),
            },
        },
        ExpressionModel::FunctionApplication { function, argument } => match infer(
            *function,
            ctx,
            Type::Infer,
        ) {
            Err(error) => Err(error),
            Ok(Type::Fun { input, output }) => match infer(*argument, ctx, *input) {
                Err(error) => Err(error),
                Ok(_) => unify(expected, *output, span),
            },
            Ok(other) => Err(
                Spanned {
                    span: function.span,
                    inner: TypeCheckerError::IncompatibleTypes { lhs: other, rhs: any_function() },
                },
            ),
        },
    }
}

/// What the type checker knows between statements: the types of the names that
/// have a value, and the types ascribed to names that have none yet.
pub struct Typing {
    pub types: Seq<(Identifier, Type)>,
    pub declared: Seq<(Identifier, Type)>,
}

/// The type that a place is given by two optional sources.
pub open spec fn wanted(ascribed: Option<Type>, declared: Option<Type>) -> Type {
    match ascribed {
        Some(type_) => type_,
        None => match declared {
            Some(type_) => type_,
            None => Type::Infer,
        },
    }
}

/// The typing after the statement `statement`.
///
/// An assignment gives its name the type of its value, which has to meet
/// the type ascribed to it on the spot or, without one, the type declared
/// for the name before; a value whose type stays unknown is an error. An
/// ascription of a name that has a value has to meet the type of the
/// value; that of another name declares its type. A request to merge
/// another source changes nothing.
pub open spec fn check_statement(statement: Spanned<StatementModel>, typing: Typing) -> Result<
    Typing,
    Spanned<TypeCheckerError>,
> {
    match statement.inner {
        StatementModel::Assignment { ident, expr, type_ascription } => match infer(
            expr,
            typing.types,
            wanted(type_ascription, find_type(typing.declared, ident)),
        ) {
            Err(error) => Err(error),
            Ok(found) => if is_resolved(found) {
                Ok(Typing { types: typing.types.push((ident, found)), declared: typing.declared })
            } else {
                Err(unknown_at(expr.span))
            },
        },
        StatementModel::TypeAscription { ident, type_ } => match find_type(typing.types, ident) {
            Some(found) => match unify(type_, found, statement.span) {
                Err(error) => Err(error),
                Ok(_) => Ok(typing),
            },
            None => Ok(
                Typing { types: typing.types, declared: typing.declared.push((ident, type_)) },
            ),
        },
        StatementModel::Include { path } => Ok(typing),
    }
}

/// The typing after the statements from the index `from` on; the first
/// error stops the check.
pub open spec fn check_from(
    statements: Seq<Spanned<StatementModel>>,
    from: int,
    typing: Typing,
) -> Result<Typing, Spanned<TypeCheckerError>>
    decreases statements.len() - from,
{
    if from < 0 || from >= statements.len() {
        Ok(typing)
    } else {
        match check_statement(statements[from], typing) {
            Err(error) => Err(error),
            Ok(next) => check_from(statements, from + 1, next),
        }
    }
}

/// The types of the names of the program `statements`, in the order of
/// their assignments, or the first type error.
pub open spec fn check_program(statements: Seq<Spanned<StatementModel>>) -> Result<
    Seq<(Identifier, Type)>,
    Spanned<TypeCheckerError>,
> {
    match check_from(statements, 0, Typing { types: seq![], declared: seq![] }) {
        Ok(typing) => Ok(typing.types),
        Err(error) => Err(error),
    }
}

/// The resolved types of the names of a program, in the order of their
/// assignments.
#[derive(Debug, PartialEq, Eq)]
pub struct TypeAssignment {
    pub types: Vec<(Identifier, Type)>,
}

/// The type of `name` among the first `count` entries of `ctx`.
fn type_in<'a>(ctx: &'a Vec<(Identifier, Type)>, count: usize, name: Identifier) -> (out: Option<
    &'a Type,
>)
    requires
        count <= ctx@.len(),
    ensures
        match out {
            Some(found) => find_type(ctx@.subrange(0, count as int), name) == Some(*found),
            None => find_type(ctx@.subrange(0, count as int), name) is None,
        },
    decreases count,
{
    if count == 0 {
        None
    } else {
        proof {
            assert(ctx@.subrange(0, count as int).drop_last() =~= ctx@.subrange(0, count - 1));
        }
        if ctx[count - 1].0.handle == name.handle {
            Some(&ctx[count - 1].1)
        } else {
            type_in(ctx, count - 1, name)
        }
    }
}

/// The type of `name` in `ctx`; see [`find_type`].
pub fn lookup_type<'a>(ctx: &'a Vec<(Identifier, Type)>, name: Identifier) -> (out: Option<&'a Type>)
    ensures
        match out {
            Some(found) => find_type(ctx@, name) == Some(*found),
            None => find_type(ctx@, name) is None,
        },
{
    proof {
        assert(ctx@.subrange(0, ctx@.len() as int) =~= ctx@);
    }
    type_in(ctx, ctx.len(), name)
}

impl TypeAssignment {
    /// The type of the identifier `name`, if the program assigns to it.
    pub fn type_of(&self, name: Identifier) -> (out: Option<&Type>)
        ensures
            match out {
                Some(found) => find_type(self.types@, name) == Some(*found),
                None => find_type(self.types@, name) is None,
            },
    {
        lookup_type(&self.types, name)
    }
}

/// The meet of `expected` and `found`, with an error reported at `span`;
/// see [`unify`].
fn unify_types(expected: Type, found: Type, span: Range<usize>) -> (out: Result<
    Type,
    Spanned<TypeCheckerError>,
>)
    ensures
        out == unify(expected, found, span),
{
    match Type::meet(expected, found) {
        Ok(met) => Ok(met),
        Err(error) => Err(Spanned { span, inner: error }),
    }
}

/// The first of two types that is known; see [`first_known`].
fn first_known_of(first: Type, second: Type) -> (out: Type)
    ensures
        out == first_known(first, second),
{
    match first {
        Type::Infer => second,
        other => other,
    }
}

/// The type of `expression` where nothing is expected of it; see
/// [`type_or_infer`].
fn type_or_infer_of(expression: &Spanned<Expression>, ctx: &mut Vec<(Identifier, Type)>) -> (out: Type)
    ensures
        out == type_or_infer(expression@, old(ctx)@),
        final(ctx)@ == old(ctx)@,
    decreases *expression, 1nat,
{
    match infer_type(expression, ctx, Type::Infer) {
        Ok(found) => found,
        Err(_) => Type::Infer,
    }
}

/// The type that `expression` asks of `name`; see [`demand`].
fn demand_of(
    expression: &Spanned<Expression>,
    name: Identifier,
    ctx: &mut Vec<(Identifier, Type)>,
    expected: Type,
) -> (out: Type)
    ensures
        out == demand(expression@, name, old(ctx)@, expected),
        final(ctx)@ == old(ctx)@,
    decreases *expression, 2nat,
{
    proof {
        if let Expression::Primary(primary) = &expression.inner {
            assert(expression@.inner == ExpressionModel::Primary(primary@));
        }
    }
    match &expression.inner {
        Expression::Primary(primary) => match &primary.inner {
            Primary::Lambda { param, body } => if param.handle == name.handle {
                Type::Infer
            } else {
                let output = match expected {
                    Type::Fun { input, output } => *output,
                    _ => Type::Infer,
                };
                demand_of(body, name, ctx, output)
            },
            _ => Type::Infer,
        },
        Expression::Variable(identifier) => if identifier.handle == name.handle {
            expected
        } else {
            Type::Infer
        },
        Expression::Unary { operator, rhs } => demand_of(
            rhs,
            name,
            ctx,
            match operator {
                UnaryOperator::Not => Type::Bool,
                UnaryOperator::Negative => Type::Number,
            },
        ),
        Expression::Binary { operator, lhs, rhs } => match operator {
            BinaryOperator::Equivalent | BinaryOperator::NotEquivalent => {
                let right = type_or_infer_of(rhs, ctx);
                let first = demand_of(lhs, name, ctx, right);
                let left = type_or_infer_of(lhs, ctx);
                let second = demand_of(rhs, name, ctx, left);
                first_known_of(first, second)
            },
            BinaryOperator::Add => {
                let adds = match &expected {
                    Type::Number => true,
                    Type::String => true,
                    _ => false,
                };
                let right = type_or_infer_of(rhs, ctx);
                let left = type_or_infer_of(lhs, ctx);
                if adds {
                    let first = demand_of(lhs, name, ctx, first_known_of(expected.duplicate(), right));
                    let second = demand_of(rhs, name, ctx, first_known_of(expected, left));
                    first_known_of(first, second)
                } else {
                    let first = demand_of(lhs, name, ctx, first_known_of(Type::Infer, right));
                    let second = demand_of(rhs, name, ctx, first_known_of(Type::Infer, left));
                    first_known_of(first, second)
                }
            },
            _ => {
                let first = demand_of(lhs, name, ctx, Type::Number);
                let second = demand_of(rhs, name, ctx, Type::Number);
                first_known_of(first, second)
            },
        },
        Expression::If { cond, then_, else_ } => {
            let first = demand_of(cond, name, ctx, Type::Bool);
            let second = demand_of(then_, name, ctx, expected.duplicate());
            let third = demand_of(else_, name, ctx, expected);
            first_known_of(first, first_known_of(second, third))
        },
        Expression::FunctionApplication { function, argument } => {
            let first = demand_of(function, name, ctx, Type::Infer);
            let callee = type_or_infer_of(function, ctx);
            let input = match callee {
                Type::Fun { input, output } => *input,
                _ => Type::Infer,
            };
            let second = demand_of(argument, name, ctx, input);
            first_known_of(first, second)
        },
    }
}

/// The type of `expression`; see [`infer`]. `ctx` is changed while a
/// lambda is checked and is as before afterwards.
pub fn infer_type(
    expression: &Spanned<Expression>,
    ctx: &mut Vec<(Identifier, Type)>,
    expected: Type,
) -> (out: Result<Type, Spanned<TypeCheckerError>>)
    ensures
        out == infer(expression@, old(ctx)@, expected),
        final(ctx)@ == old(ctx)@,
    decreases *expression, 0nat,
{
    let span = expression.span.start..expression.span.end;
    proof {
        if let Expression::Primary(primary) = &expression.inner {
            assert(expression@.inner == ExpressionModel::Primary(primary@));
        }
    }
    match &expression.inner {
        Expression::Primary(primary) => match &primary.inner {
            Primary::Lambda { param, body } => {
                proof {
                    let asked = parameter_type(body@, *param, ctx@, expected, expression.span);
                    assert(asked == parameter_type(body@, *param, ctx@, expected, expression.span));
                }
                let (wanted_input, wanted_output) = match expected {
                    Type::Fun { input, output } => (*input, *output),
                    Type::Infer => (Type::Infer, Type::Infer),
                    other => {
                        return Err(
                            Spanned {
                                span,
                                inner: TypeCheckerError::IncompatibleTypes {
                                    lhs: other,
                                    rhs: Type::Fun {
                                        input: Box::new(Type::Infer),
                                        output: Box::new(Type::Infer),
                                    },
                                },
                            },
                        );
                    },
                };
                let ghost before = ctx@;
                let input = if wanted_input.resolved() {
                    wanted_input
                } else {
                    ctx.push((*param, Type::Infer));
                    let asked = demand_of(body, *param, ctx, wanted_output.duplicate());
                    ctx.pop();
                    proof {
                        assert(ctx@ =~= before);
                    }
                    let input = match unify_types(
                        wanted_input,
                        asked,
                        expression.span.start..expression.span.end,
                    ) {
                        Err(error) => {
                            return Err(error);
                        },
                        Ok(input) => input,
                    };
                    if !input.resolved() {
                        return Err(Spanned { span, inner: TypeCheckerError::UnknownType });
                    }
                    input
                };
                ctx.push((*param, input.duplicate()));
                let inner = infer_type(body, ctx, wanted_output);
                ctx.pop();
                proof {
                    assert(ctx@ =~= before);
                }
                match inner {
                    Err(error) => Err(error),
                    Ok(result) => Ok(
                        Type::Fun { input: Box::new(input), output: Box::new(result) },
                    ),
                }
            },
            Primary::String(_) => unify_types(expected, Type::String, span),
            Primary::Number(_) => unify_types(expected, Type::Number, span),
            Primary::Bool(_) => unify_types(expected, Type::Bool, span),
            Primary::Color(_) => unify_types(expected, Type::Color, span),
            Primary::Unit => unify_types(expected, Type::Unit, span),
        },
        Expression::Variable(identifier) => {
            let found = match lookup_type(ctx, *identifier) {
                Some(found) => found.duplicate(),
                None => {
                    return Err(Spanned { span, inner: TypeCheckerError::UnknownType });
                },
            };
            unify_types(expected, found, span)
        },
        Expression::Unary { operator, rhs } => {
            match infer_type(
                rhs,
                ctx,
                match operator {
                    UnaryOperator::Not => Type::Bool,
                    UnaryOperator::Negative => Type::Number,
                },
            ) {
                Err(error) => Err(error),
                Ok(_) => unify_types(
                    expected,
                    match operator {
                        UnaryOperator::Not => Type::Bool,
                        UnaryOperator::Negative => Type::Number,
                    },
                    span,
                ),
            }
        },
        Expression::Binary { operator, lhs, rhs } => match operator {
            BinaryOperator::Equivalent | BinaryOperator::NotEquivalent => {
                let left = match infer_type(lhs, ctx, Type::Infer) {
                    Err(error) => {
                        return Err(error);
                    },
                    Ok(left) => left,
                };
                let is_function = match &left {
                    Type::Fun { .. } => true,
                    _ => false,
                };
                match infer_type(rhs, ctx, left) {
                    Err(error) => Err(error),
                    Ok(_) => if is_function {
                        Err(Spanned { span, inner: TypeCheckerError::MetFunctions })
                    } else {
                        unify_types(expected, Type::Bool, span)
                    },
                }
            },
            BinaryOperator::Add => {
                let left = match infer_type(lhs, ctx, Type::Infer) {
                    Err(error) => {
                        return Err(error);
                    },
                    Ok(left) => left,
                };
                let adds = match &left {
                    Type::Number => true,
                    Type::String => true,
                    _ => false,
                };
                if !adds {
                    return Err(
                        Spanned {
                            span: lhs.span.start..lhs.span.end,
                            inner: TypeCheckerError::IncompatibleTypes {
                                lhs: left,
                                rhs: Type::Number,
                            },
                        },
                    );
                }
                match infer_type(rhs, ctx, left.duplicate()) {
                    Err(error) => Err(error),
                    Ok(_) => unify_types(expected, left, span),
                }
            },
            _ => {
                match infer_type(lhs, ctx, Type::Number) {
                    Err(error) => {
                        return Err(error);
                    },
                    Ok(_) => {},
                }
                match infer_type(rhs, ctx, Type::Number) {
                    Err(error) => {
                        return Err(error);
                    },
                    Ok(_) => {},
                }
                let result = match operator {
                    BinaryOperator::Sub => Type::Number,
                    BinaryOperator::Mul => Type::Number,
                    BinaryOperator::Div => Type::Number,
                    BinaryOperator::Remainder => Type::Number,
                    _ => Type::Bool,
                };
                unify_types(expected, result, span)
            },
        },
        Expression::If { cond, then_, else_ } => {
            match infer_type(cond, ctx, Type::Bool) {
                Err(error) => {
                    return Err(error);
                },
                Ok(_) => {},
            }
            match infer_type(then_, ctx, expected) {
                Err(error) => Err(error),
                Ok(first) => infer_type(else_, ctx, first),
            }
        },
        Expression::FunctionApplication { function, argument } => {
            match infer_type(function, ctx, Type::Infer) {
                Err(error) => Err(error),
                Ok(Type::Fun { input, output }) => match infer_type(argument, ctx, *input) {
                    Err(error) => Err(error),
                    Ok(_) => unify_types(expected, *output, span),
                },
                Ok(other) => Err(
                    Spanned {
                        span: function.span.start..function.span.end,
                        inner: TypeCheckerError::IncompatibleTypes {
                            lhs: other,
                            rhs: Type::Fun {
                                input: Box::new(Type::Infer),
                                output: Box::new(Type::Infer),
                            },
                        },
                    },
                ),
            }
        },
    }
}

/// Checks the statement `statement`; see [`check_statement`]. On an error
/// the typing stays as it was.
fn check_one(
    statement: &Spanned<Statement>,
    types: &mut Vec<(Identifier, Type)>,
    declared: &mut Vec<(Identifier, Type)>,
) -> (out: Result<(), Spanned<TypeCheckerError>>)
    ensures
        match out {
            Ok(()) => check_statement(
                statement@,
                Typing { types: old(types)@, declared: old(declared)@ },
            ) == Ok::<Typing, Spanned<TypeCheckerError>>(
                Typing { types: final(types)@, declared: final(declared)@ },
            ),
            Err(error) => check_statement(
                statement@,
                Typing { types: old(types)@, declared: old(declared)@ },
            ) == Err::<Typing, Spanned<TypeCheckerError>>(error) && final(types)@ == old(types)@
                && final(declared)@ == old(declared)@,
        },
{
    match &statement.inner {
        Statement::Assignment { ident, expr, type_ascription } => {
            let expected = match type_ascription {
                Some(type_) => type_.duplicate(),
                None => match lookup_type(declared, *ident) {
                    Some(type_) => type_.duplicate(),
                    None => Type::Infer,
                },
            };
            match infer_type(expr, types, expected) {
                Err(error) => Err(error),
                Ok(found) => if found.resolved() {
                    types.push((*ident, found));
                    Ok(())
                } else {
                    Err(
                        Spanned {
                            span: expr.span.start..expr.span.end,
                            inner: TypeCheckerError::UnknownType,
                        },
                    )
                },
            }
        },
        Statement::TypeAscription { ident, type_ } => {
            let found = match lookup_type(types, *ident) {
                Some(found) => found.duplicate(),
                None => {
                    declared.push((*ident, type_.duplicate()));
                    return Ok(());
                },
            };
            match unify_types(
                type_.duplicate(),
                found,
                statement.span.start..statement.span.end,
            ) {
                Err(error) => Err(error),
                Ok(_) => Ok(()),
            }
        },
        Statement::Include { path } => Ok(()),
    }
}

/// Checks the types of the program `statements` and returns the type of
/// every name that it assigns to, or the first type error with the span
/// of the expression or statement at fault.
pub fn check(statements: &Vec<Spanned<Statement>>) -> (out: Result<
    TypeAssignment,
    Spanned<TypeCheckerError>,
>)
    ensures
        match out {
            Ok(assignment) => check_program(statement_models(statements@)) == Ok::<
                Seq<(Identifier, Type)>,
                Spanned<TypeCheckerError>,
            >(assignment.types@),
            Err(error) => check_program(statement_models(statements@)) == Err::<
                Seq<(Identifier, Type)>,
                Spanned<TypeCheckerError>,
            >(error),
        },
{
    let mut types: Vec<(Identifier, Type)> = Vec::new();
    let mut declared: Vec<(Identifier, Type)> = Vec::new();
    let mut i: usize = 0;
    proof {
        assert(types@ =~= seq![]);
        assert(declared@ =~= seq![]);
    }
    while i < statements.len()
        invariant
            i <= statements@.len(),
            check_from(
                statement_models(statements@),
                0,
                Typing { types: seq![], declared: seq![] },
            ) == check_from(
                statement_models(statements@),
                i as int,
                Typing { types: types@, declared: declared@ },
            ),
        decreases statements@.len() - i,
    {
        match check_one(&statements[i], &mut types, &mut declared) {
            Err(error) => {
                return Err(error);
            },
            Ok(()) => {},
        }
        i += 1;
    }
    Ok(TypeAssignment { types })
}

} // verus!
