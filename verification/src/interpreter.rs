//! The evaluator: statements to the values of their names.
//!
//! Evaluation is a walk over the syntax tree against one environment. The
//! numbers of the language are binary64 bit patterns (see
//! [`crate::number`]); what an arithmetic operator gives on two of them,
//! and which number a literal denotes, is asked of a kernel that the
//! caller supplies.

use crate::number::at_most;
use crate::number::equal;
use crate::number::less;
use crate::number::negate;
use crate::number::negated;
use crate::number::number_eq;
use crate::number::number_le;
use crate::number::number_lt;
use crate::parser::ast::duplicate_spanned;
use crate::parser::ast::expression_model;
use crate::parser::ast::IdentifierMap;
use crate::parser::ast::Primary;
use crate::parser::ast::Statement;
use crate::parser::ast::statement_models;
use crate::parser::ast::BinaryOperator;
use crate::parser::ast::Color;
use crate::parser::ast::Expression;
use crate::parser::ast::ExpressionModel;
use crate::parser::ast::Identifier;
use crate::parser::ast::NumberLiteral;
use crate::parser::ast::NumberLiteralModel;
use crate::parser::ast::PrimaryModel;
use crate::parser::ast::StatementModel;
use crate::parser::ast::UnaryOperator;
use crate::tc::variant::Type;
use crate::utils::Spanned;
use std::ops::Range;
use vstd::prelude::*;
use vstd::string::StringExecFns;

verus! {

/// A name with the value bound to it.
#[derive(Debug)]
pub struct Binding {
    pub name: Identifier,
    pub value: Value,
}

/// A value of the language.
#[derive(Debug)]
pub enum Value {
    /// A lambda with the environment in which it was evaluated. The last
    /// binding of a name in `env` is the one that counts.
    Closure { param: Identifier, body: Box<Spanned<Expression>>, env: Vec<Binding> },
    String(String),
    /// A number, as a binary64 bit pattern.
    Number(u64),
    Bool(bool),
    Color(Color),
    Unit,
}

/// The model of a [`Value`].
pub enum ValueModel {
    Closure { param: Identifier, body: Spanned<ExpressionModel>, env: Seq<(Identifier, ValueModel)> },
    String(Seq<char>),
    Number(u64),
    Bool(bool),
    Color(Color),
    Unit,
}

/// The model of the value `value`.
pub open spec fn value_model(value: Value) -> ValueModel
    decreases value,
{
    match value {
        Value::Closure { param, body, env } => ValueModel::Closure {
            param,
            body: Spanned { span: body.span, inner: expression_model(body.inner) },
            env: bindings_model(env@),
        },
        Value::String(text) => ValueModel::String(text@),
        Value::Number(bits) => ValueModel::Number(bits),
        Value::Bool(value) => ValueModel::Bool(value),
        Value::Color(color) => ValueModel::Color(color),
        Value::Unit => ValueModel::Unit,
    }
}

/// The model of the bindings `bindings`, in their order.
pub open spec fn bindings_model(bindings: Seq<Binding>) -> Seq<(Identifier, ValueModel)>
    decreases bindings,
{
    if bindings.len() == 0 {
        seq![]
    } else {
        bindings_model(bindings.drop_last()).push(
            (bindings.last().name, value_model(bindings.last().value)),
        )
    }
}

impl View for Value {
    type V = ValueModel;

    open spec fn view(&self) -> ValueModel {
        value_model(*self)
    }
}

/// Why the evaluation of a program stopped.
#[derive(Debug, PartialEq, Eq)]
pub enum InterpreterError {
    /// The condition of a conditional is no boolean.
    IfConditionWrongType { this_if: Range<usize>, this_condition: Range<usize> },
    /// The operands of a binary operator are not of the types that it
    /// takes.
    BinaryOperandMismatch { this_binary: Range<usize>, this_lhs: Range<usize>, this_rhs: Range<usize> },
    /// The operand of `!` is no boolean, or that of `-` no number.
    NegatedWrongType { this_op: Range<usize>, this_expr: Range<usize> },
    /// What is applied to an argument is no function.
    NotAFunction { this_application: Range<usize>, this_function: Range<usize> },
    /// A name has no value where it is used.
    UnboundVariable { this_variable: Range<usize>, identifier: Identifier },
    /// Calls are nested deeper than the limit that the caller set.
    CallDepthExceeded { this_application: Range<usize> },
}

/// A question to the numeric kernel.
#[derive(Debug, PartialEq)]
pub enum NumericRequest {
    /// Which number does this literal denote?
    Literal(NumberLiteral),
    /// What does this arithmetic operator give on these two numbers?
    Arithmetic(BinaryOperator, u64, u64),
}

/// The model of a [`NumericRequest`].
pub enum NumericRequestModel {
    Literal(NumberLiteralModel),
    Arithmetic(BinaryOperator, u64, u64),
}

impl View for NumericRequest {
    type V = NumericRequestModel;

    open spec fn view(&self) -> NumericRequestModel {
        match self {
            NumericRequest::Literal(literal) => NumericRequestModel::Literal(literal@),
            NumericRequest::Arithmetic(operator, lhs, rhs) => NumericRequestModel::Arithmetic(
                *operator,
                *lhs,
                *rhs,
            ),
        }
    }
}

/// The answers of a numeric kernel, as a function of the question.
pub type Oracle = spec_fn(NumericRequestModel) -> u64;

/// The value that `name` has in `env`: that of its last binding.
pub open spec fn find(env: Seq<(Identifier, ValueModel)>, name: Identifier) -> Option<ValueModel>
    decreases env.len(),
{
    if env.len() == 0 {
        None
    } else if env.last().0 == name {
        Some(env.last().1)
    } else {
        find(env.drop_last(), name)
    }
}

/// Whether `lhs` and `rhs` can be compared with `==`: they are of one
/// kind, and no functions.
pub open spec fn same_kind(lhs: ValueModel, rhs: ValueModel) -> bool {
    match (lhs, rhs) {
        (ValueModel::Bool(_), ValueModel::Bool(_)) => true,
        (ValueModel::Color(_), ValueModel::Color(_)) => true,
        (ValueModel::Number(_), ValueModel::Number(_)) => true,
        (ValueModel::String(_), ValueModel::String(_)) => true,
        (ValueModel::Unit, ValueModel::Unit) => true,
        _ => false,
    }
}

/// Whether two values of one kind are equal. Numbers, and the parts of a
/// colour, are equal as binary64 numbers are.
pub open spec fn equal_values(lhs: ValueModel, rhs: ValueModel) -> bool {
    match (lhs, rhs) {
        (ValueModel::Bool(left), ValueModel::Bool(right)) => left == right,
        (ValueModel::Color(left), ValueModel::Color(right)) => number_eq(left.x, right.x)
            && number_eq(left.y, right.y) && number_eq(left.z, right.z) && number_eq(
            left.alpha,
            right.alpha,
        ),
        (ValueModel::Number(left), ValueModel::Number(right)) => number_eq(left, right),
        (ValueModel::String(left), ValueModel::String(right)) => left == right,
        (ValueModel::Unit, ValueModel::Unit) => true,
        _ => false,
    }
}

/// What the binary operator `operator` gives on `lhs` and `rhs`.
///
/// `==` and `!=` take two values of one kind. The four comparisons take
/// two numbers. `+` takes two numbers or two strings, which it joins. The
/// other operators take two numbers. On numbers the arithmetic operators
/// give what the kernel answers. Every other pair of operands is a
/// mismatch.
pub open spec fn apply_binary(
    operator: BinaryOperator,
    lhs: ValueModel,
    rhs: ValueModel,
    oracle: Oracle,
    mismatch: InterpreterError,
) -> Result<ValueModel, InterpreterError> {
    match operator {
        BinaryOperator::Equivalent => if same_kind(lhs, rhs) {
            Ok(ValueModel::Bool(equal_values(lhs, rhs)))
        } else {
            Err(mismatch)
        },
        BinaryOperator::NotEquivalent => if same_kind(lhs, rhs) {
            Ok(ValueModel::Bool(!equal_values(lhs, rhs)))
        } else {
            Err(mismatch)
        },
        _ => match (lhs, rhs) {
            (ValueModel::Number(left), ValueModel::Number(right)) => Ok(
                match operator {
                    BinaryOperator::LessThan => ValueModel::Bool(number_lt(left, right)),
                    BinaryOperator::GreaterThan => ValueModel::Bool(number_lt(right, left)),
                    BinaryOperator::LessThanOrEqual => ValueModel::Bool(number_le(left, right)),
                    BinaryOperator::GreaterThanOrEqual => ValueModel::Bool(number_le(right, left)),
                    _ => ValueModel::Number(
                        oracle(NumericRequestModel::Arithmetic(operator, left, right)),
                    ),
                },
            ),
            (ValueModel::String(left), ValueModel::String(right)) => if operator
                == BinaryOperator::Add {
                Ok(ValueModel::String(left + right))
            } else {
                Err(mismatch)
            },
            _ => Err(mismatch),
        },
    }
}

/// What the unary operator `operator` gives on `operand`: `!` takes a
/// boolean, `-` a number; every other operand is a mismatch.
pub open spec fn apply_unary(
    operator: UnaryOperator,
    operand: ValueModel,
    mismatch: InterpreterError,
) -> Result<ValueModel, InterpreterError> {
    match (operator, operand) {
        (UnaryOperator::Not, ValueModel::Bool(value)) => Ok(ValueModel::Bool(!value)),
        (UnaryOperator::Negative, ValueModel::Number(bits)) => Ok(ValueModel::Number(negated(bits))),
        _ => Err(mismatch),
    }
}

/// The value of the primary `primary` in the environment `env`: a lambda
/// closes over `env`, a number literal denotes what the kernel answers,
/// and every other literal denotes itself.
pub open spec fn primary_value(
    primary: PrimaryModel,
    env: Seq<(Identifier, ValueModel)>,
    oracle: Oracle,
) -> ValueModel {
    match primary {
        PrimaryModel::Lambda { param, body } => ValueModel::Closure { param, body: *body, env },
        PrimaryModel::String(text) => ValueModel::String(text),
        PrimaryModel::Number(literal) => ValueModel::Number(
            oracle(NumericRequestModel::Literal(literal)),
        ),
        PrimaryModel::Bool(value) => ValueModel::Bool(value),
        PrimaryModel::Color(color) => ValueModel::Color(color),
        PrimaryModel::Unit => ValueModel::Unit,
    }
}

/// The value of `expression` in the environment `env`, with calls nested
/// at most `depth` deep.
///
/// A conditional evaluates its condition and then one branch only. A
/// binary operator evaluates its left operand, then its right one. An
/// application evaluates the function, then the argument, then the body
/// of the function in the environment that the function was made in, with
/// the parameter bound to the argument. A lambda closes over `env`.
pub open spec fn eval(
    expression: Spanned<ExpressionModel>,
    env: Seq<(Identifier, ValueModel)>,
    oracle: Oracle,
    depth: nat,
) -> Result<ValueModel, InterpreterError>
    decreases depth, expression,
{
    match expression.inner {
        ExpressionModel::If { cond, then_, else_ } => match eval(*cond, env, oracle, depth) {
            Err(error) => Err(error),
            Ok(ValueModel::Bool(true)) => eval(*then_, env, oracle, depth),
            Ok(ValueModel::Bool(false)) => eval(*else_, env, oracle, depth),
            Ok(_) => Err(
                InterpreterError::IfConditionWrongType {
                    this_if: expression.span,
                    this_condition: cond.span,
                },
            ),
        },
        ExpressionModel::Binary { operator, lhs, rhs } => match eval(*lhs, env, oracle, depth) {
            Err(error) => Err(error),
            Ok(left) => match eval(*rhs, env, oracle, depth) {
                Err(error) => Err(error),
                Ok(right) => apply_binary(
                    operator,
                    left,
                    right,
                    oracle,
                    InterpreterError::BinaryOperandMismatch {
                        this_binary: expression.span,
                        this_lhs: lhs.span,
                        this_rhs: rhs.span,
                    },
                ),
            },
        },
        ExpressionModel::Unary { operator, rhs } => match eval(*rhs, env, oracle, depth) {
            Err(error) => Err(error),
            Ok(operand) => apply_unary(
                operator,
                operand,
                InterpreterError::NegatedWrongType { this_op: expression.span, this_expr: rhs.span },
            ),
        },
        ExpressionModel::FunctionApplication { function, argument } => match eval(
            *function,
            env,
            oracle,
            depth,
        ) {
            Err(error) => Err(error),
            Ok(ValueModel::Closure { param, body, env: captured }) => match eval(
                *argument,
                env,
                oracle,
                depth,
            ) {
                Err(error) => Err(error),
                Ok(value) => if depth == 0 {
                    Err(InterpreterError::CallDepthExceeded { this_application: expression.span })
                } else {
                    eval(body, captured.push((param, value)), oracle, (depth - 1) as nat)
                },
            },
            Ok(_) => Err(
                InterpreterError::NotAFunction {
                    this_application: expression.span,
                    this_function: function.span,
                },
            ),
        },
        ExpressionModel::Variable(identifier) => match find(env, identifier) {
            Some(value) => Ok(value),
            None => Err(
                InterpreterError::UnboundVariable { this_variable: expression.span, identifier },
            ),
        },
        ExpressionModel::Primary(primary) => Ok(primary_value(primary.inner, env, oracle)),
    }
}

/// The model of an [`InterpreterState`]: the values and the declared
/// types of the names, each in the order in which the statements gave
/// them.
pub struct StateModel {
    pub values: Seq<(Identifier, ValueModel)>,
    pub types: Seq<(Identifier, Type)>,
}

/// The state after the statement `statement`, run in `state`.
///
/// An assignment binds its name to the value of its expression and
/// records the ascribed type, if it has one. An ascription records its
/// type. A request to merge another source changes nothing: merging is
/// done before a program is run.
pub open spec fn run_statement(
    statement: StatementModel,
    state: StateModel,
    oracle: Oracle,
    depth: nat,
) -> Result<StateModel, InterpreterError> {
    match statement {
        StatementModel::Assignment { ident, expr, type_ascription } => match eval(
            expr,
            state.values,
            oracle,
            depth,
        ) {
            Err(error) => Err(error),
            Ok(value) => Ok(
                StateModel {
                    values: state.values.push((ident, value)),
                    types: match type_ascription {
                        Some(type_) => state.types.push((ident, type_)),
                        None => state.types,
                    },
                },
            ),
        },
        StatementModel::TypeAscription { ident, type_ } => Ok(
            StateModel { values: state.values, types: state.types.push((ident, type_)) },
        ),
        StatementModel::Include { path } => Ok(state),
    }
}

/// The state after the statements `statements` from the index `from` on,
/// run in `state` one after the other; the first error stops the run.
pub open spec fn run_from(
    statements: Seq<Spanned<StatementModel>>,
    from: int,
    state: StateModel,
    oracle: Oracle,
    depth: nat,
) -> Result<StateModel, InterpreterError>
    decreases statements.len() - from,
{
    if from < 0 || from >= statements.len() {
        Ok(state)
    } else {
        match run_statement(statements[from].inner, state, oracle, depth) {
            Err(error) => Err(error),
            Ok(next) => run_from(statements, from + 1, next, oracle, depth),
        }
    }
}

/// The state that the program `statements` ends in, started with no name
/// bound.
pub open spec fn run(statements: Seq<Spanned<StatementModel>>, oracle: Oracle, depth: nat) -> Result<
    StateModel,
    InterpreterError,
> {
    run_from(statements, 0, StateModel { values: seq![], types: seq![] }, oracle, depth)
}

/// Whether `kernel` can be asked every question.
pub open spec fn answers_all<K: Fn(NumericRequest) -> u64>(kernel: K) -> bool {
    forall|request: NumericRequest| kernel.requires((request,))
}

/// Whether `oracle` gives, for every question, the only number that
/// `kernel` can answer it with.
pub open spec fn agrees<K: Fn(NumericRequest) -> u64>(kernel: K, oracle: Oracle) -> bool {
    forall|request: NumericRequest, answer: u64| #[trigger]
        kernel.ensures((request,), answer) ==> answer == oracle(request@)
}

/// Whether `kernel` answers questions with one model with one number.
pub open spec fn is_function<K: Fn(NumericRequest) -> u64>(kernel: K) -> bool {
    forall|one: NumericRequest, other: NumericRequest, first: u64, second: u64|
        one@ == other@ && kernel.ensures((one,), first) && kernel.ensures((other,), second)
            ==> first == second
}

/// Whether `answer` is an answer of `kernel` to a question with the model
/// `model`.
pub open spec fn answers<K: Fn(NumericRequest) -> u64>(
    kernel: K,
    model: NumericRequestModel,
    answer: u64,
) -> bool {
    exists|request: NumericRequest|
        request@ == model && #[trigger] kernel.ensures((request,), answer)
}

/// The answers of `kernel` as a function of the question.
pub open spec fn oracle_of<K: Fn(NumericRequest) -> u64>(kernel: K) -> Oracle {
    |model: NumericRequestModel| choose|answer: u64| answers(kernel, model, answer)
}

/// A kernel that answers questions with one model with one number has an
/// oracle that it agrees with: its own answers.
pub proof fn function_has_oracle<K: Fn(NumericRequest) -> u64>(kernel: K)
    requires
        is_function(kernel),
    ensures
        agrees(kernel, oracle_of(kernel)),
{
    assert forall|request: NumericRequest, answer: u64| #[trigger]
        kernel.ensures((request,), answer) implies answer == oracle_of(kernel)(request@) by {
        assert(request@ == request@ && kernel.ensures((request,), answer));
        assert(answers(kernel, request@, answer));
        let chosen = oracle_of(kernel)(request@);
        assert(answers(kernel, request@, chosen));
    }
}

/// Asks `kernel` the question `request`.
fn ask<K: Fn(NumericRequest) -> u64>(kernel: &K, request: NumericRequest) -> (out: u64)
    requires
        answers_all(*kernel),
    ensures
        forall|oracle: Oracle| #[trigger] agrees(*kernel, oracle) ==> out == oracle(request@),
{
    let ghost asked = request;
    let answer = kernel(request);
    proof {
        assert(kernel.ensures((asked,), answer));
    }
    answer
}

/// Adding a binding at the end adds its model at the end.
proof fn bindings_model_push(bindings: Seq<Binding>, binding: Binding)
    ensures
        bindings_model(bindings.push(binding)) == bindings_model(bindings).push(
            (binding.name, value_model(binding.value)),
        ),
{
    assert(bindings.push(binding).drop_last() =~= bindings);
}

/// A copy of the first `count` bindings of `env`.
fn duplicate_prefix(env: &Vec<Binding>, count: usize) -> (out: Vec<Binding>)
    requires
        count <= env@.len(),
    ensures
        bindings_model(out@) == bindings_model(env@.subrange(0, count as int)),
    decreases *env, count,
{
    if count == 0 {
        let out: Vec<Binding> = Vec::new();
        proof {
            assert(env@.subrange(0, 0) =~= out@);
        }
        out
    } else {
        let mut out = duplicate_prefix(env, count - 1);
        let binding = &env[count - 1];
        let copy = Binding { name: binding.name, value: binding.value.duplicate() };
        proof {
            bindings_model_push(out@, copy);
            bindings_model_push(env@.subrange(0, count - 1), env@[count - 1]);
            assert(env@.subrange(0, count - 1).push(env@[count - 1]) =~= env@.subrange(
                0,
                count as int,
            ));
        }
        out.push(copy);
        out
    }
}

impl Value {
    /// A copy of `self`.
    pub fn duplicate(&self) -> (out: Self)
        ensures
            out@ == self@,
        decreases *self, 0nat,
    {
        match self {
            Value::Closure { param, body, env } => {
                let copy = duplicate_prefix(env, env.len());
                proof {
                    assert(env@.subrange(0, env@.len() as int) =~= env@);
                }
                Value::Closure { param: *param, body: Box::new(duplicate_spanned(body)), env: copy }
            },
            Value::String(text) => Value::String(text.clone()),
            Value::Number(bits) => Value::Number(*bits),
            Value::Bool(value) => Value::Bool(*value),
            Value::Color(color) => Value::Color(*color),
            Value::Unit => Value::Unit,
        }
    }

    /// Whether two values can be compared with `==`: they are of one
    /// kind, and no functions.
    pub fn is_same_type(value_1: &Value, value_2: &Value) -> (out: bool)
        ensures
            out == same_kind(value_1@, value_2@),
    {
        match (value_1, value_2) {
            (Value::Bool(_), Value::Bool(_)) => true,
            (Value::Color(_), Value::Color(_)) => true,
            (Value::Number(_), Value::Number(_)) => true,
            (Value::String(_), Value::String(_)) => true,
            (Value::Closure { .. }, Value::Closure { .. }) => false,
            (Value::Unit, Value::Unit) => true,
            _ => false,
        }
    }

    /// Whether `self` equals `other` as `==` of the language has it:
    /// values of different kinds, and functions, are never equal.
    pub fn equals(&self, other: &Value) -> (out: bool)
        ensures
            out == equal_values(self@, other@),
    {
        match (self, other) {
            (Value::Bool(left), Value::Bool(right)) => *left == *right,
            (Value::Color(left), Value::Color(right)) => equal(left.x, right.x) && equal(
                left.y,
                right.y,
            ) && equal(left.z, right.z) && equal(left.alpha, right.alpha),
            (Value::Number(left), Value::Number(right)) => equal(*left, *right),
            (Value::String(left), Value::String(right)) => *left == *right,
            (Value::Unit, Value::Unit) => true,
            _ => false,
        }
    }
}

/// Whether what an executable evaluation returned, `out`, is what the
/// semantics gives, `outcome`.
pub open spec fn evaluates_to(
    outcome: Result<ValueModel, InterpreterError>,
    out: Result<Value, InterpreterError>,
) -> bool {
    match out {
        Ok(value) => outcome == Ok::<ValueModel, InterpreterError>(value@),
        Err(error) => outcome == Err::<ValueModel, InterpreterError>(error),
    }
}

/// Applies the binary operator `operator` to two values; see
/// [`apply_binary`]. `mismatch` is the error for operands that the
/// operator does not take.
pub fn operate<K: Fn(NumericRequest) -> u64>(
    operator: BinaryOperator,
    lhs: Value,
    rhs: Value,
    kernel: &K,
    mismatch: InterpreterError,
) -> (out: Result<Value, InterpreterError>)
    requires
        answers_all(*kernel),
    ensures
        forall|oracle: Oracle| #[trigger]
            agrees(*kernel, oracle) ==> evaluates_to(
                apply_binary(operator, lhs@, rhs@, oracle, mismatch),
                out,
            ),
{
    match operator {
        BinaryOperator::Equivalent => if Value::is_same_type(&lhs, &rhs) {
            Ok(Value::Bool(lhs.equals(&rhs)))
        } else {
            Err(mismatch)
        },
        BinaryOperator::NotEquivalent => if Value::is_same_type(&lhs, &rhs) {
            Ok(Value::Bool(!lhs.equals(&rhs)))
        } else {
            Err(mismatch)
        },
        _ => match (lhs, rhs) {
            (Value::Number(left), Value::Number(right)) => Ok(
                match operator {
                    BinaryOperator::LessThan => Value::Bool(less(left, right)),
                    BinaryOperator::GreaterThan => Value::Bool(less(right, left)),
                    BinaryOperator::LessThanOrEqual => Value::Bool(at_most(left, right)),
                    BinaryOperator::GreaterThanOrEqual => Value::Bool(at_most(right, left)),
                    _ => Value::Number(
                        ask(kernel, NumericRequest::Arithmetic(operator, left, right)),
                    ),
                },
            ),
            (Value::String(left), Value::String(right)) => match operator {
                BinaryOperator::Add => Ok(Value::String(left.concat(right.as_str()))),
                _ => Err(mismatch),
            },
            _ => Err(mismatch),
        },
    }
}

/// Applies the unary operator `operator` to a value; see [`apply_unary`].
pub fn operate_unary(operator: UnaryOperator, operand: Value, mismatch: InterpreterError) -> (out:
    Result<Value, InterpreterError>)
    ensures
        evaluates_to(apply_unary(operator, operand@, mismatch), out),
{
    match (operator, operand) {
        (UnaryOperator::Not, Value::Bool(value)) => Ok(Value::Bool(!value)),
        (UnaryOperator::Negative, Value::Number(bits)) => Ok(Value::Number(negate(bits))),
        _ => Err(mismatch),
    }
}

/// The value of `name` among the first `count` bindings of `env`.
fn lookup_in<'a>(env: &'a Vec<Binding>, count: usize, name: Identifier) -> (out: Option<&'a Value>)
    requires
        count <= env@.len(),
    ensures
        match out {
            Some(value) => find(bindings_model(env@.subrange(0, count as int)), name) == Some(
                value@,
            ),
            None => find(bindings_model(env@.subrange(0, count as int)), name) is None,
        },
    decreases count,
{
    if count == 0 {
        None
    } else {
        proof {
            bindings_model_push(env@.subrange(0, count - 1), env@[count - 1]);
            assert(env@.subrange(0, count - 1).push(env@[count - 1]) =~= env@.subrange(
                0,
                count as int,
            ));
            let shorter = bindings_model(env@.subrange(0, count - 1));
            let last = (env@[count - 1].name, value_model(env@[count - 1].value));
            assert(shorter.push(last).drop_last() =~= shorter);
        }
        if env[count - 1].name.handle == name.handle {
            Some(&env[count - 1].value)
        } else {
            lookup_in(env, count - 1, name)
        }
    }
}

/// The value of `name` in `env`; see [`find`].
pub fn lookup_value<'a>(env: &'a Vec<Binding>, name: Identifier) -> (out: Option<&'a Value>)
    ensures
        match out {
            Some(value) => find(bindings_model(env@), name) == Some(value@),
            None => find(bindings_model(env@), name) is None,
        },
{
    proof {
        assert(env@.subrange(0, env@.len() as int) =~= env@);
    }
    lookup_in(env, env.len(), name)
}

/// The value of the primary `primary` in `env`.
fn interpret_primary<K: Fn(NumericRequest) -> u64>(
    primary: &Primary,
    env: &Vec<Binding>,
    kernel: &K,
) -> (out: Value)
    requires
        answers_all(*kernel),
    ensures
        forall|oracle: Oracle| #[trigger]
            agrees(*kernel, oracle) ==> out@ == primary_value(primary@, bindings_model(env@), oracle),
{
    match primary {
        Primary::Lambda { param, body } => {
            let captured = duplicate_prefix(env, env.len());
            proof {
                assert(env@.subrange(0, env@.len() as int) =~= env@);
            }
            Value::Closure { param: *param, body: Box::new(duplicate_spanned(body)), env: captured }
        },
        Primary::String(text) => Value::String(text.clone()),
        Primary::Number(literal) => Value::Number(
            ask(kernel, NumericRequest::Literal(literal.duplicate())),
        ),
        Primary::Bool(value) => Value::Bool(*value),
        Primary::Color(color) => Value::Color(*color),
        Primary::Unit => Value::Unit,
    }
}

/// Evaluates `expression` in the environment `env`, with calls nested at
/// most `depth` deep; see [`eval`].
pub fn interpret_expression<K: Fn(NumericRequest) -> u64>(
    expression: &Spanned<Expression>,
    env: &Vec<Binding>,
    kernel: &K,
    depth: usize,
) -> (out: Result<Value, InterpreterError>)
    requires
        answers_all(*kernel),
    ensures
        forall|oracle: Oracle| #[trigger]
            agrees(*kernel, oracle) ==> evaluates_to(
                eval(expression@, bindings_model(env@), oracle, depth as nat),
                out,
            ),
    decreases depth, *expression,
{
    let span = expression.span.start..expression.span.end;
    match &expression.inner {
        Expression::If { cond, then_, else_ } => {
            match interpret_expression(cond, env, kernel, depth) {
                Err(error) => Err(error),
                Ok(Value::Bool(true)) => interpret_expression(then_, env, kernel, depth),
                Ok(Value::Bool(false)) => interpret_expression(else_, env, kernel, depth),
                Ok(_) => Err(
                    InterpreterError::IfConditionWrongType {
                        this_if: span,
                        this_condition: cond.span.start..cond.span.end,
                    },
                ),
            }
        },
        Expression::Binary { operator, lhs, rhs } => {
            let left = match interpret_expression(lhs, env, kernel, depth) {
                Err(error) => {
                    return Err(error);
                },
                Ok(value) => value,
            };
            let right = match interpret_expression(rhs, env, kernel, depth) {
                Err(error) => {
                    return Err(error);
                },
                Ok(value) => value,
            };
            operate(
                *operator,
                left,
                right,
                kernel,
                InterpreterError::BinaryOperandMismatch {
                    this_binary: span,
                    this_lhs: lhs.span.start..lhs.span.end,
                    this_rhs: rhs.span.start..rhs.span.end,
                },
            )
        },
        Expression::Unary { operator, rhs } => {
            match interpret_expression(rhs, env, kernel, depth) {
                Err(error) => Err(error),
                Ok(operand) => operate_unary(
                    *operator,
                    operand,
                    InterpreterError::NegatedWrongType {
                        this_op: span,
                        this_expr: rhs.span.start..rhs.span.end,
                    },
                ),
            }
        },
        Expression::FunctionApplication { function, argument } => {
            let (param, body, mut captured) = match interpret_expression(
                function,
                env,
                kernel,
                depth,
            ) {
                Err(error) => {
                    return Err(error);
                },
                Ok(Value::Closure { param, body, env }) => (param, body, env),
                Ok(_) => {
                    return Err(
                        InterpreterError::NotAFunction {
                            this_application: span,
                            this_function: function.span.start..function.span.end,
                        },
                    );
                },
            };
            let value = match interpret_expression(argument, env, kernel, depth) {
                Err(error) => {
                    return Err(error);
                },
                Ok(value) => value,
            };
            if depth == 0 {
                return Err(InterpreterError::CallDepthExceeded { this_application: span });
            }
            let binding = Binding { name: param, value };
            proof {
                bindings_model_push(captured@, binding);
            }
            captured.push(binding);
            interpret_expression(&body, &captured, kernel, depth - 1)
        },
        Expression::Variable(identifier) => match lookup_value(env, *identifier) {
            Some(value) => Ok(value.duplicate()),
            None => Err(
                InterpreterError::UnboundVariable { this_variable: span, identifier: *identifier },
            ),
        },
        Expression::Primary(primary) => Ok(interpret_primary(&primary.inner, env, kernel)),
    }
}

/// The table of the names of a program, and the values and the declared
/// types of the names, each in the order in which the statements gave
/// them. Where a name occurs twice, its last entry counts.
#[derive(Debug)]
pub struct InterpreterState {
    pub ident_map: IdentifierMap,
    pub value_map: Vec<Binding>,
    pub type_map: Vec<(Identifier, Type)>,
}

impl View for InterpreterState {
    type V = StateModel;

    open spec fn view(&self) -> StateModel {
        StateModel { values: bindings_model(self.value_map@), types: self.type_map@ }
    }
}

impl InterpreterState {
    /// A state for a program with the names `ident_map`, in which no name
    /// is bound.
    pub fn new(ident_map: IdentifierMap) -> (out: Self)
        ensures
            out@ == (StateModel { values: seq![], types: seq![] }),
            out.ident_map == ident_map,
    {
        let out = InterpreterState { ident_map, value_map: Vec::new(), type_map: Vec::new() };
        proof {
            assert(out@.values =~= seq![]);
            assert(out@.types =~= seq![]);
        }
        out
    }

    /// The value of the identifier `name`, if it has one.
    pub fn value_of(&self, name: Identifier) -> (out: Option<&Value>)
        ensures
            match out {
                Some(value) => find(self@.values, name) == Some(value@),
                None => find(self@.values, name) is None,
            },
    {
        lookup_value(&self.value_map, name)
    }

    /// The value of the name `name`, if the name is declared in the table
    /// of the state and has a value.
    pub fn value_named(&self, name: &str) -> (out: Option<&Value>)
        ensures
            match out {
                Some(value) => crate::parser::ast::lookup(self.ident_map@, name@) matches Some(
                    identifier,
                ) && find(self@.values, identifier) == Some(value@),
                None => crate::parser::ast::lookup(self.ident_map@, name@) matches Some(
                    identifier,
                ) ==> find(self@.values, identifier) is None,
            },
    {
        match self.ident_map.get_from_name(name) {
            Some(identifier) => self.value_of(identifier),
            None => None,
        }
    }
}

/// Runs the statement `statement` in `state`; see [`run_statement`]. On
/// an error the state stays as it was.
pub fn interpret_statement<K: Fn(NumericRequest) -> u64>(
    statement: &Spanned<Statement>,
    state: &mut InterpreterState,
    kernel: &K,
    depth: usize,
) -> (out: Result<(), InterpreterError>)
    requires
        answers_all(*kernel),
    ensures
        out is Err ==> final(state)@ == old(state)@,
        final(state).ident_map == old(state).ident_map,
        forall|oracle: Oracle| #[trigger]
            agrees(*kernel, oracle) ==> run_statement(
                statement@.inner,
                old(state)@,
                oracle,
                depth as nat,
            ) == (match out {
                Ok(()) => Ok::<StateModel, InterpreterError>(final(state)@),
                Err(error) => Err::<StateModel, InterpreterError>(error),
            }),
{
    match &statement.inner {
        Statement::Assignment { ident, expr, type_ascription } => {
            match interpret_expression(expr, &state.value_map, kernel, depth) {
                Err(error) => Err(error),
                Ok(value) => {
                    let binding = Binding { name: *ident, value };
                    proof {
                        bindings_model_push(state.value_map@, binding);
                    }
                    state.value_map.push(binding);
                    match type_ascription {
                        Some(type_) => {
                            state.type_map.push((*ident, type_.duplicate()));
                        },
                        None => {},
                    }
                    Ok(())
                },
            }
        },
        Statement::TypeAscription { ident, type_ } => {
            state.type_map.push((*ident, type_.duplicate()));
            Ok(())
        },
        Statement::Include { path } => Ok(()),
    }
}

/// Runs the program `statements`, whose names are those of `interner`,
/// from a state in which no name is bound, with calls nested at most
/// `depth` deep, and returns the state that it ends in, or the first
/// error. Numbers are computed by `kernel`, which has to answer every
/// question; what comes back is what the program gives with every oracle
/// that `kernel` agrees with.
pub fn interpret<K: Fn(NumericRequest) -> u64>(
    statements: Vec<Spanned<Statement>>,
    interner: &IdentifierMap,
    kernel: &K,
    depth: usize,
) -> (out: Result<InterpreterState, InterpreterError>)
    requires
        answers_all(*kernel),
    ensures
        out matches Ok(state) ==> state.ident_map@ == interner@,
        forall|oracle: Oracle| #[trigger]
            agrees(*kernel, oracle) ==> run(statement_models(statements@), oracle, depth as nat)
                == (match out {
                Ok(state) => Ok::<StateModel, InterpreterError>(state@),
                Err(error) => Err::<StateModel, InterpreterError>(error),
            }),
{
    let mut state = InterpreterState::new(interner.duplicate());
    let mut i: usize = 0;
    while i < statements.len()
        invariant
            i <= statements@.len(),
            answers_all(*kernel),
            state.ident_map@ == interner@,
            forall|oracle: Oracle| #[trigger]
                agrees(*kernel, oracle) ==> run(
                    statement_models(statements@),
                    oracle,
                    depth as nat,
                ) == run_from(statement_models(statements@), i as int, state@, oracle, depth as nat),
        decreases statements@.len() - i,
    {
        match interpret_statement(&statements[i], &mut state, kernel, depth) {
            Err(error) => {
                return Err(error);
            },
            Ok(()) => {},
        }
        i += 1;
    }
    Ok(state)
}

} // verus!
