//! The types of the language and their meet.

use vstd::prelude::*;

verus! {

/// A type of the language. `Infer` stands for a type that is not known yet.
#[derive(Debug, PartialEq, Eq)]
pub enum Type {
    Infer,
    String,
    Number,
    Color,
    Bool,
    Unit,
    Array(Box<Type>),
    Fun { input: Box<Type>, output: Box<Type> },
}

/// Why two types have no meet.
#[derive(Debug, PartialEq, Eq)]
pub enum TypeCheckerError {
    /// Two function types met; function types are never unified.
    MetFunctions,
    /// Two types that cannot stand for the same value met.
    IncompatibleTypes { lhs: Type, rhs: Type },
    /// A type stayed unknown and nothing ascribes one.
    UnknownType,
}

/// The number of types that a type is built from.
pub open spec fn arity_of(ty: Type) -> nat {
    match ty {
        Type::Fun { .. } => 2,
        Type::Array(_) => 1,
        _ => 0,
    }
}

/// Whether `Infer` occurs nowhere in `ty`.
pub open spec fn is_resolved(ty: Type) -> bool
    decreases ty,
{
    match ty {
        Type::Infer => false,
        Type::Array(element) => is_resolved(*element),
        Type::Fun { input, output } => is_resolved(*input) && is_resolved(*output),
        _ => true,
    }
}

/// The most specific type that is consistent with both `lhs` and `rhs`.
///
/// `Infer` gives way to the other side, equal base types meet in
/// themselves, arrays meet element by element, two function types never
/// meet, and every other pair is incompatible.
pub open spec fn meet_of(lhs: Type, rhs: Type) -> Result<Type, TypeCheckerError>
    decreases lhs,
{
    match (lhs, rhs) {
        (Type::Infer, other) => Ok(other),
        (other, Type::Infer) => Ok(other),
        (Type::String, Type::String) => Ok(Type::String),
        (Type::Number, Type::Number) => Ok(Type::Number),
        (Type::Color, Type::Color) => Ok(Type::Color),
        (Type::Bool, Type::Bool) => Ok(Type::Bool),
        (Type::Unit, Type::Unit) => Ok(Type::Unit),
        (Type::Array(left), Type::Array(right)) => match meet_of(*left, *right) {
            Ok(element) => Ok(Type::Array(Box::new(element))),
            Err(error) => Err(error),
        },
        (Type::Fun { .. }, Type::Fun { .. }) => Err(TypeCheckerError::MetFunctions),
        (left, right) => Err(TypeCheckerError::IncompatibleTypes { lhs: left, rhs: right }),
    }
}

/// The outcome of a meet with its two sides exchanged.
pub open spec fn mirrored(outcome: Result<Type, TypeCheckerError>) -> Result<
    Type,
    TypeCheckerError,
> {
    match outcome {
        Err(TypeCheckerError::IncompatibleTypes { lhs, rhs }) => Err(
            TypeCheckerError::IncompatibleTypes { lhs: rhs, rhs: lhs },
        ),
        other => other,
    }
}

impl Type {
    /// The number of types that `self` is built from: 2 for a function, 1
    /// for an array, 0 for every other type.
    pub fn arity(&self) -> (out: usize)
        ensures
            out == arity_of(*self),
    {
        match self {
            Type::Fun { .. } => 2,
            Type::Array(_) => 1,
            _ => 0,
        }
    }

    /// The type that says nothing: `Infer`.
    pub fn top() -> (out: Self)
        ensures
            out == Type::Infer,
    {
        Type::Infer
    }

    /// A copy of `self`.
    pub fn duplicate(&self) -> (out: Self)
        ensures
            out == *self,
        decreases *self,
    {
        match self {
            Type::Infer => Type::Infer,
            Type::String => Type::String,
            Type::Number => Type::Number,
            Type::Color => Type::Color,
            Type::Bool => Type::Bool,
            Type::Unit => Type::Unit,
            Type::Array(element) => Type::Array(Box::new(element.duplicate())),
            Type::Fun { input, output } => Type::Fun {
                input: Box::new(input.duplicate()),
                output: Box::new(output.duplicate()),
            },
        }
    }

    /// Whether `self` and `other` are the same type.
    pub fn same_as(&self, other: &Type) -> (out: bool)
        ensures
            out == (*self == *other),
        decreases *self,
    {
        match (self, other) {
            (Type::Infer, Type::Infer) => true,
            (Type::String, Type::String) => true,
            (Type::Number, Type::Number) => true,
            (Type::Color, Type::Color) => true,
            (Type::Bool, Type::Bool) => true,
            (Type::Unit, Type::Unit) => true,
            (Type::Array(left), Type::Array(right)) => left.same_as(right),
            (
                Type::Fun { input: left_input, output: left_output },
                Type::Fun { input: right_input, output: right_output },
            ) => left_input.same_as(right_input) && left_output.same_as(right_output),
            _ => false,
        }
    }

    /// Whether `Infer` occurs nowhere in `self`.
    pub fn resolved(&self) -> (out: bool)
        ensures
            out == is_resolved(*self),
        decreases *self,
    {
        match self {
            Type::Infer => false,
            Type::Array(element) => element.resolved(),
            Type::Fun { input, output } => input.resolved() && output.resolved(),
            _ => true,
        }
    }

    /// The meet of two types, or the reason why they have none.
    pub fn meet(lhs: Type, rhs: Type) -> (out: Result<Type, TypeCheckerError>)
        ensures
            out == meet_of(lhs, rhs),
        decreases lhs,
    {
        match (lhs, rhs) {
            (Type::Infer, other) => Ok(other),
            (other, Type::Infer) => Ok(other),
            (Type::String, Type::String) => Ok(Type::String),
            (Type::Number, Type::Number) => Ok(Type::Number),
            (Type::Color, Type::Color) => Ok(Type::Color),
            (Type::Bool, Type::Bool) => Ok(Type::Bool),
            (Type::Unit, Type::Unit) => Ok(Type::Unit),
            (Type::Array(left), Type::Array(right)) => match Type::meet(*left, *right) {
                Ok(element) => Ok(Type::Array(Box::new(element))),
                Err(error) => Err(error),
            },
            (Type::Fun { input, output }, Type::Fun { .. }) => Err(TypeCheckerError::MetFunctions),
            (left, right) => Err(TypeCheckerError::IncompatibleTypes { lhs: left, rhs: right }),
        }
    }
}

impl Clone for Type {
    fn clone(&self) -> (out: Self)
        ensures
            out == *self,
    {
        self.duplicate()
    }
}

/// Exchanging the two sides of a meet exchanges the two sides of a reported
/// mismatch and changes nothing else.
pub proof fn meet_mirrors(lhs: Type, rhs: Type)
    ensures
        meet_of(rhs, lhs) == mirrored(meet_of(lhs, rhs)),
    decreases lhs,
{
    match (lhs, rhs) {
        (Type::Array(left), Type::Array(right)) => {
            meet_mirrors(*left, *right);
        },
        _ => {},
    }
}

/// The meet does not depend on the order of its arguments, where at least
/// one of them is no function type and the two are not incompatible.
pub proof fn meet_commutes(lhs: Type, rhs: Type)
    requires
        !(lhs is Fun) || !(rhs is Fun),
        !(meet_of(lhs, rhs) matches Err(TypeCheckerError::IncompatibleTypes { .. })),
    ensures
        meet_of(lhs, rhs) == meet_of(rhs, lhs),
{
    meet_mirrors(lhs, rhs);
}

} // verus!
