//! Type soundness: a program that the type checker accepts never stops on a
//! value of the wrong kind.

use crate::interpreter::eval;
use crate::interpreter::find;
use crate::interpreter::run_from;
use crate::interpreter::run_statement;
use crate::interpreter::InterpreterError;
use crate::interpreter::Oracle;
use crate::interpreter::StateModel;
use crate::interpreter::ValueModel;
use crate::parser::ast::BinaryOperator;
use crate::parser::ast::ExpressionModel;
use crate::parser::ast::Identifier;
use crate::parser::ast::PrimaryModel;
use crate::parser::ast::StatementModel;
use crate::parser::ast::UnaryOperator;
use crate::tc::check_from;
use crate::tc::check_program;
use crate::tc::check_statement;
use crate::tc::find_type;
use crate::tc::infer;
use crate::tc::output_of;
use crate::tc::parameter_type;
use crate::tc::unify;
use crate::tc::Typing;
use crate::tc::variant::is_resolved;
use crate::tc::variant::meet_mirrors;
use crate::tc::variant::meet_of;
use crate::tc::variant::Type;
use crate::tc::variant::TypeCheckerError;
use crate::utils::Spanned;
use vstd::prelude::*;

verus! {

/// Whether every type of `ctx` is resolved.
pub open spec fn resolved_context(ctx: Seq<(Identifier, Type)>) -> bool {
    forall|i: int| 0 <= i < ctx.len() ==> is_resolved(#[trigger] ctx[i].1)
}

/// Whether a function body `body` with the parameter `param` takes
/// `input` to `output` where the names that it closed over have the types
/// of `ctx` and its place expects `wanted`.
pub open spec fn body_checks(
    ctx: Seq<(Identifier, Type)>,
    wanted: Type,
    param: Identifier,
    body: Spanned<ExpressionModel>,
    input: Type,
    output: Type,
) -> bool {
    &&& resolved_context(ctx)
    &&& is_resolved(input)
    &&& infer(body, ctx.push((param, input)), wanted) == Ok::<Type, Spanned<TypeCheckerError>>(
        output,
    )
}

/// Whether the value `value` is of the type `ty`.
///
/// A value that is no function is of the type of its kind. A function
/// is of a function type if its body has the output type wherever its
/// parameter has the input type and the names that it closed over have
/// types that their values are of.
pub open spec fn has_type(value: ValueModel, ty: Type) -> bool
    decreases value, 0nat,
{
    match value {
        ValueModel::String(_) => ty == Type::String,
        ValueModel::Number(_) => ty == Type::Number,
        ValueModel::Bool(_) => ty == Type::Bool,
        ValueModel::Color(_) => ty == Type::Color,
        ValueModel::Unit => ty == Type::Unit,
        ValueModel::Closure { param, body, env } => match ty {
            Type::Fun { input, output } => exists|ctx: Seq<(Identifier, Type)>, wanted: Type|
                #[trigger] body_checks(ctx, wanted, param, body, *input, *output) && fits(
                    env,
                    ctx,
                ),
            _ => false,
        },
    }
}

/// Whether the environment `env` binds the names of `ctx`, in the same
/// order, to values of their types.
pub open spec fn fits(env: Seq<(Identifier, ValueModel)>, ctx: Seq<(Identifier, Type)>) -> bool
    decreases env, 1nat,
{
    if env.len() == 0 {
        ctx.len() == 0
    } else {
        &&& ctx.len() > 0
        &&& env.last().0 == ctx.last().0
        &&& has_type(env.last().1, ctx.last().1)
        &&& fits(env.drop_last(), ctx.drop_last())
    }
}

/// Whether an evaluation went well for an expression of the type `ty`:
/// it gave a value of that type, or it stopped because calls were nested
/// too deep.
pub open spec fn well_behaved(outcome: Result<ValueModel, InterpreterError>, ty: Type) -> bool {
    match outcome {
        Ok(value) => has_type(value, ty),
        Err(error) => error is CallDepthExceeded,
    }
}

/// A meet with a resolved type on the right is that type.
pub proof fn meet_resolved_right(lhs: Type, rhs: Type)
    requires
        meet_of(lhs, rhs) is Ok,
        is_resolved(rhs),
    ensures
        meet_of(lhs, rhs) == Ok::<Type, TypeCheckerError>(rhs),
    decreases lhs,
{
    match (lhs, rhs) {
        (Type::Array(left), Type::Array(right)) => {
            meet_resolved_right(*left, *right);
        },
        _ => {},
    }
}

/// A meet with a resolved type on the left is that type.
pub proof fn meet_resolved_left(lhs: Type, rhs: Type)
    requires
        meet_of(lhs, rhs) is Ok,
        is_resolved(lhs),
    ensures
        meet_of(lhs, rhs) == Ok::<Type, TypeCheckerError>(lhs),
{
    meet_mirrors(lhs, rhs);
    meet_resolved_right(rhs, lhs);
}

/// What [`unify`] gives on a resolved found type.
pub proof fn unify_resolved(expected: Type, found: Type, span: std::ops::Range<usize>)
    requires
        unify(expected, found, span) is Ok,
        is_resolved(found),
    ensures
        unify(expected, found, span) == Ok::<Type, Spanned<TypeCheckerError>>(found),
        is_resolved(expected) ==> expected == found,
{
    meet_resolved_right(expected, found);
    if is_resolved(expected) {
        meet_resolved_left(expected, found);
    }
}

/// The type that a resolved context gives a name is resolved.
pub proof fn found_type_is_resolved(ctx: Seq<(Identifier, Type)>, name: Identifier)
    requires
        resolved_context(ctx),
        find_type(ctx, name) is Some,
    ensures
        is_resolved(find_type(ctx, name)->Some_0),
    decreases ctx.len(),
{
    if ctx.last().0 != name {
        assert forall|i: int| 0 <= i < ctx.drop_last().len() implies is_resolved(
            #[trigger] ctx.drop_last()[i].1,
        ) by {
            assert(ctx.drop_last()[i] == ctx[i]);
        }
        found_type_is_resolved(ctx.drop_last(), name);
    } else {
        assert(is_resolved(ctx[ctx.len() - 1].1));
    }
}

/// A context that is resolved stays so with one more resolved type.
pub proof fn resolved_context_push(ctx: Seq<(Identifier, Type)>, name: Identifier, ty: Type)
    requires
        resolved_context(ctx),
        is_resolved(ty),
    ensures
        resolved_context(ctx.push((name, ty))),
{
    let longer = ctx.push((name, ty));
    assert forall|i: int| 0 <= i < longer.len() implies is_resolved(#[trigger] longer[i].1) by {
        if i < ctx.len() {
            assert(longer[i] == ctx[i]);
        }
    }
}

/// The type of an expression in a resolved context is resolved, and it is
/// the expected type where that is resolved.
pub proof fn infer_resolved(
    expression: Spanned<ExpressionModel>,
    ctx: Seq<(Identifier, Type)>,
    expected: Type,
)
    requires
        resolved_context(ctx),
        infer(expression, ctx, expected) is Ok,
    ensures
        is_resolved(infer(expression, ctx, expected)->Ok_0),
        is_resolved(expected) ==> infer(expression, ctx, expected) == Ok::<
            Type,
            Spanned<TypeCheckerError>,
        >(expected),
    decreases expression,
{
    let span = expression.span;
    match expression.inner {
        ExpressionModel::Primary(primary) => match primary.inner {
            PrimaryModel::Lambda { param, body } => {
                let input = parameter_type(*body, param, ctx, expected, span)->Ok_0;
                resolved_context_push(ctx, param, input);
                infer_resolved(*body, ctx.push((param, input)), output_of(expected));
            },
            PrimaryModel::String(_) => unify_resolved(expected, Type::String, span),
            PrimaryModel::Number(_) => unify_resolved(expected, Type::Number, span),
            PrimaryModel::Bool(_) => unify_resolved(expected, Type::Bool, span),
            PrimaryModel::Color(_) => unify_resolved(expected, Type::Color, span),
            PrimaryModel::Unit => unify_resolved(expected, Type::Unit, span),
        },
        ExpressionModel::Variable(identifier) => {
            found_type_is_resolved(ctx, identifier);
            unify_resolved(expected, find_type(ctx, identifier)->Some_0, span);
        },
        ExpressionModel::Unary { operator, rhs } => {
            let operand = match operator {
                UnaryOperator::Not => Type::Bool,
                UnaryOperator::Negative => Type::Number,
            };
            unify_resolved(expected, operand, span);
        },
        ExpressionModel::Binary { operator, lhs, rhs } => match operator {
            BinaryOperator::Equivalent | BinaryOperator::NotEquivalent => {
                unify_resolved(expected, Type::Bool, span);
            },
            BinaryOperator::Add => {
                infer_resolved(*lhs, ctx, Type::Infer);
                unify_resolved(expected, infer(*lhs, ctx, Type::Infer)->Ok_0, span);
            },
            _ => {
                let result = if operator is Sub || operator is Mul || operator is Div
                    || operator is Remainder {
                    Type::Number
                } else {
                    Type::Bool
                };
                unify_resolved(expected, result, span);
            },
        },
        ExpressionModel::If { cond, then_, else_ } => {
            infer_resolved(*then_, ctx, expected);
            infer_resolved(*else_, ctx, infer(*then_, ctx, expected)->Ok_0);
        },
        ExpressionModel::FunctionApplication { function, argument } => {
            infer_resolved(*function, ctx, Type::Infer);
            match infer(*function, ctx, Type::Infer)->Ok_0 {
                Type::Fun { input, output } => {
                    unify_resolved(expected, *output, span);
                },
                _ => {},
            }
        },
    }
}

/// A name has a type in the context exactly if it has a value in an
/// environment that fits, and the value is of that type.
pub proof fn find_fits(
    env: Seq<(Identifier, ValueModel)>,
    ctx: Seq<(Identifier, Type)>,
    name: Identifier,
)
    requires
        fits(env, ctx),
    ensures
        match find_type(ctx, name) {
            Some(ty) => find(env, name) is Some && has_type(find(env, name)->Some_0, ty),
            None => find(env, name) is None,
        },
    decreases env.len(),
{
    if env.len() > 0 {
        if env.last().0 != name {
            find_fits(env.drop_last(), ctx.drop_last(), name);
        }
    }
}

/// An environment that fits a context fits it with one more binding of a
/// value to its type.
pub proof fn fits_push(
    env: Seq<(Identifier, ValueModel)>,
    ctx: Seq<(Identifier, Type)>,
    name: Identifier,
    value: ValueModel,
    ty: Type,
)
    requires
        fits(env, ctx),
        has_type(value, ty),
    ensures
        fits(env.push((name, value)), ctx.push((name, ty))),
{
    assert(env.push((name, value)).drop_last() =~= env);
    assert(ctx.push((name, ty)).drop_last() =~= ctx);
}

/// Values of the type `Bool`, `Number` and `String` are of those kinds,
/// and a value of a function type is a function.
pub proof fn canonical_forms(value: ValueModel, ty: Type)
    requires
        has_type(value, ty),
        is_resolved(ty),
    ensures
        ty is Bool ==> value is Bool,
        ty is Number ==> value is Number,
        ty is String ==> value is String,
        ty is Color ==> value is Color,
        ty is Unit ==> value is Unit,
        ty is Fun ==> value is Closure,
        !(ty is Array),
{
}

/// An expression that has a type evaluates to a value of that type, or
/// stops because calls are nested too deep, whatever the kernel answers.
pub proof fn sound_expression(
    expression: Spanned<ExpressionModel>,
    env: Seq<(Identifier, ValueModel)>,
    ctx: Seq<(Identifier, Type)>,
    expected: Type,
    oracle: Oracle,
    depth: nat,
)
    requires
        fits(env, ctx),
        resolved_context(ctx),
        infer(expression, ctx, expected) is Ok,
    ensures
        well_behaved(eval(expression, env, oracle, depth), infer(expression, ctx, expected)->Ok_0),
    decreases depth, expression,
{
    let span = expression.span;
    infer_resolved(expression, ctx, expected);
    match expression.inner {
        ExpressionModel::Primary(primary) => match primary.inner {
            PrimaryModel::Lambda { param, body } => {
                let input = parameter_type(*body, param, ctx, expected, span)->Ok_0;
                let result = infer(*body, ctx.push((param, input)), output_of(expected))->Ok_0;
                let made = ValueModel::Closure { param, body: *body, env };
                let ty = Type::Fun { input: Box::new(input), output: Box::new(result) };
                assert(body_checks(
                    ctx,
                    output_of(expected),
                    made->param,
                    made->body,
                    *(ty->input),
                    *(ty->output),
                ));
                assert(has_type(made, ty));
            },
            PrimaryModel::String(_) => unify_resolved(expected, Type::String, span),
            PrimaryModel::Number(_) => unify_resolved(expected, Type::Number, span),
            PrimaryModel::Bool(_) => unify_resolved(expected, Type::Bool, span),
            PrimaryModel::Color(_) => unify_resolved(expected, Type::Color, span),
            PrimaryModel::Unit => unify_resolved(expected, Type::Unit, span),
        },
        ExpressionModel::Variable(identifier) => {
            find_fits(env, ctx, identifier);
            found_type_is_resolved(ctx, identifier);
            unify_resolved(expected, find_type(ctx, identifier)->Some_0, span);
        },
        ExpressionModel::Unary { operator, rhs } => {
            let operand = match operator {
                UnaryOperator::Not => Type::Bool,
                UnaryOperator::Negative => Type::Number,
            };
            sound_expression(*rhs, env, ctx, operand, oracle, depth);
            infer_resolved(*rhs, ctx, operand);
            unify_resolved(expected, operand, span);
        },
        ExpressionModel::Binary { operator, lhs, rhs } => {
            sound_binary(expression, env, ctx, expected, oracle, depth);
        },
        ExpressionModel::If { cond, then_, else_ } => {
            sound_expression(*cond, env, ctx, Type::Bool, oracle, depth);
            infer_resolved(*cond, ctx, Type::Bool);
            let first = infer(*then_, ctx, expected)->Ok_0;
            infer_resolved(*then_, ctx, expected);
            infer_resolved(*else_, ctx, first);
            sound_expression(*then_, env, ctx, expected, oracle, depth);
            sound_expression(*else_, env, ctx, first, oracle, depth);
        },
        ExpressionModel::FunctionApplication { function, argument } => {
            sound_application(expression, env, ctx, expected, oracle, depth);
        },
    }
}

/// [`sound_expression`] for a binary operator.
proof fn sound_binary(
    expression: Spanned<ExpressionModel>,
    env: Seq<(Identifier, ValueModel)>,
    ctx: Seq<(Identifier, Type)>,
    expected: Type,
    oracle: Oracle,
    depth: nat,
)
    requires
        fits(env, ctx),
        resolved_context(ctx),
        infer(expression, ctx, expected) is Ok,
        expression.inner is Binary,
    ensures
        well_behaved(eval(expression, env, oracle, depth), infer(expression, ctx, expected)->Ok_0),
    decreases depth, expression, 0nat,
{
    let span = expression.span;
    if let ExpressionModel::Binary { operator, lhs, rhs } = expression.inner {
        match operator {
            BinaryOperator::Equivalent | BinaryOperator::NotEquivalent => {
                let left = infer(*lhs, ctx, Type::Infer)->Ok_0;
                infer_resolved(*lhs, ctx, Type::Infer);
                infer_resolved(*rhs, ctx, left);
                sound_expression(*lhs, env, ctx, Type::Infer, oracle, depth);
                sound_expression(*rhs, env, ctx, left, oracle, depth);
                unify_resolved(expected, Type::Bool, span);
                if let Ok(first) = eval(*lhs, env, oracle, depth) {
                    canonical_forms(first, left);
                    if let Ok(second) = eval(*rhs, env, oracle, depth) {
                        canonical_forms(second, left);
                    }
                }
            },
            BinaryOperator::Add => {
                let left = infer(*lhs, ctx, Type::Infer)->Ok_0;
                infer_resolved(*lhs, ctx, Type::Infer);
                infer_resolved(*rhs, ctx, left);
                sound_expression(*lhs, env, ctx, Type::Infer, oracle, depth);
                sound_expression(*rhs, env, ctx, left, oracle, depth);
                unify_resolved(expected, left, span);
            },
            _ => {
                infer_resolved(*lhs, ctx, Type::Number);
                infer_resolved(*rhs, ctx, Type::Number);
                sound_expression(*lhs, env, ctx, Type::Number, oracle, depth);
                sound_expression(*rhs, env, ctx, Type::Number, oracle, depth);
                let result = if operator is Sub || operator is Mul || operator is Div
                    || operator is Remainder {
                    Type::Number
                } else {
                    Type::Bool
                };
                unify_resolved(expected, result, span);
            },
        }
    }
}

/// [`sound_expression`] for an application.
proof fn sound_application(
    expression: Spanned<ExpressionModel>,
    env: Seq<(Identifier, ValueModel)>,
    ctx: Seq<(Identifier, Type)>,
    expected: Type,
    oracle: Oracle,
    depth: nat,
)
    requires
        fits(env, ctx),
        resolved_context(ctx),
        infer(expression, ctx, expected) is Ok,
        expression.inner is FunctionApplication,
    ensures
        well_behaved(eval(expression, env, oracle, depth), infer(expression, ctx, expected)->Ok_0),
    decreases depth, expression, 0nat,
{
    let span = expression.span;
    if let ExpressionModel::FunctionApplication { function, argument } = expression.inner {
        let callee = infer(*function, ctx, Type::Infer)->Ok_0;
        infer_resolved(*function, ctx, Type::Infer);
        sound_expression(*function, env, ctx, Type::Infer, oracle, depth);
        if let Type::Fun { input, output } = callee {
            infer_resolved(*argument, ctx, *input);
            sound_expression(*argument, env, ctx, *input, oracle, depth);
            unify_resolved(expected, *output, span);
            if let Ok(made) = eval(*function, env, oracle, depth) {
                canonical_forms(made, callee);
                if let ValueModel::Closure { param, body, env: captured } = made {
                    let (types, wanted) = choose|types: Seq<(Identifier, Type)>, wanted: Type|
                        #[trigger] body_checks(types, wanted, param, body, *input, *output) && fits(
                            captured,
                            types,
                        );
                    if let Ok(value) = eval(*argument, env, oracle, depth) {
                        if depth > 0 {
                            fits_push(captured, types, param, value, *input);
                            resolved_context_push(types, param, *input);
                            sound_expression(
                                body,
                                captured.push((param, value)),
                                types.push((param, *input)),
                                wanted,
                                oracle,
                                (depth - 1) as nat,
                            );
                        }
                    }
                }
            }
        }
    }
}

/// Whether a run went well for a program of the types `types`: it ended
/// in a state whose values are of those types, or it stopped because
/// calls were nested too deep.
pub open spec fn run_well_behaved(
    outcome: Result<StateModel, InterpreterError>,
    types: Seq<(Identifier, Type)>,
) -> bool {
    match outcome {
        Ok(state) => fits(state.values, types),
        Err(error) => error is CallDepthExceeded,
    }
}

/// A statement that the type checker accepts runs without a value of the wrong
/// kind, and leaves every value of the type that the type checker gave its
/// name.
pub proof fn sound_statement(
    statement: Spanned<StatementModel>,
    state: StateModel,
    typing: Typing,
    oracle: Oracle,
    depth: nat,
)
    requires
        fits(state.values, typing.types),
        resolved_context(typing.types),
        check_statement(statement, typing) is Ok,
    ensures
        run_well_behaved(
            run_statement(statement.inner, state, oracle, depth),
            check_statement(statement, typing)->Ok_0.types,
        ),
        resolved_context(check_statement(statement, typing)->Ok_0.types),
{
    match statement.inner {
        StatementModel::Assignment { ident, expr, type_ascription } => {
            let expected = crate::tc::wanted(type_ascription, find_type(typing.declared, ident));
            sound_expression(expr, state.values, typing.types, expected, oracle, depth);
            let found = infer(expr, typing.types, expected)->Ok_0;
            resolved_context_push(typing.types, ident, found);
            if let Ok(value) = eval(expr, state.values, oracle, depth) {
                fits_push(state.values, typing.types, ident, value, found);
            }
        },
        _ => {},
    }
}

/// [`checked_programs_run_well`] for the statements from `from` on.
pub proof fn sound_from(
    statements: Seq<Spanned<StatementModel>>,
    from: int,
    state: StateModel,
    typing: Typing,
    oracle: Oracle,
    depth: nat,
)
    requires
        0 <= from,
        fits(state.values, typing.types),
        resolved_context(typing.types),
        check_from(statements, from, typing) is Ok,
    ensures
        run_well_behaved(
            run_from(statements, from, state, oracle, depth),
            check_from(statements, from, typing)->Ok_0.types,
        ),
    decreases statements.len() - from,
{
    if from < statements.len() {
        sound_statement(statements[from], state, typing, oracle, depth);
        let next = check_statement(statements[from], typing)->Ok_0;
        if let Ok(after) = run_statement(statements[from].inner, state, oracle, depth) {
            sound_from(statements, from + 1, after, next, oracle, depth);
        }
    }
}

/// The statements from `from` on give no name an unresolved type.
pub proof fn resolved_from(statements: Seq<Spanned<StatementModel>>, from: int, typing: Typing)
    requires
        0 <= from,
        resolved_context(typing.types),
        check_from(statements, from, typing) is Ok,
    ensures
        resolved_context(check_from(statements, from, typing)->Ok_0.types),
    decreases statements.len() - from,
{
    if from < statements.len() {
        let next = check_statement(statements[from], typing)->Ok_0;
        if let StatementModel::Assignment { ident, expr, type_ascription } = statements[from].inner {
            let found = next.types.last().1;
            resolved_context_push(typing.types, ident, found);
        }
        resolved_from(statements, from + 1, next);
    }
}

/// No unknown type is left in a program that the type checker accepts: the
/// type that it gives a name holds no `Infer`.
pub proof fn checked_types_are_resolved(statements: Seq<Spanned<StatementModel>>)
    requires
        check_program(statements) is Ok,
    ensures
        resolved_context(check_program(statements)->Ok_0),
{
    resolved_from(statements, 0, Typing { types: seq![], declared: seq![] });
}

/// Type soundness. A program that the type checker accepts never stops on an
/// operand, a condition or a callee of the wrong kind, nor on a name
/// without a value, whatever the numeric kernel answers: it ends with
/// every name bound to a value of the type that the type checker gave it, or
/// it stops because calls are nested deeper than `depth`.
pub proof fn checked_programs_run_well(
    statements: Seq<Spanned<StatementModel>>,
    oracle: Oracle,
    depth: nat,
)
    requires
        check_program(statements) is Ok,
    ensures
        run_well_behaved(
            crate::interpreter::run(statements, oracle, depth),
            check_program(statements)->Ok_0,
        ),
        match crate::interpreter::run(statements, oracle, depth) {
            Ok(_) => true,
            Err(error) => error is CallDepthExceeded,
        },
{
    let start = Typing { types: seq![], declared: seq![] };
    sound_from(statements, 0, StateModel { values: seq![], types: seq![] }, start, oracle, depth);
}

} // verus!
