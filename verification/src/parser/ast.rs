//! Identifiers, the name table and the syntax tree.

use crate::tc::variant::Type;
use crate::utils::Spanned;
use vstd::prelude::*;
use vstd::string::StringExecFns;

verus! {

/// An interned name: the position of the name in the table that issued it.
#[derive(Debug, Clone, Copy, PartialEq, Eq, Hash, Structural)]
pub struct Identifier {
    pub handle: u64,
}

/// Whether no name occurs twice in `names`.
pub open spec fn distinct_names(names: Seq<Seq<char>>) -> bool {
    forall|i: int, j: int| 0 <= i < j < names.len() ==> names[i] != names[j]
}

/// The names that every table holds from the start, in handle order.
pub open spec fn builtin_names() -> Seq<Seq<char>> {
    seq!["hsv"@, "rgb"@, "cmy"@, "xyz"@, "alpha"@]
}

/// Declaring `name` in a table that holds `names`: the table afterwards and
/// the handle, `Ok` when the name is new and `Err` when it was already there.
pub open spec fn declare(names: Seq<Seq<char>>, name: Seq<char>) -> (
    Seq<Seq<char>>,
    Result<Identifier, Identifier>,
) {
    if names.contains(name) {
        (names, Err(Identifier { handle: names.index_of(name) as u64 }))
    } else {
        (names.push(name), Ok(Identifier { handle: names.len() as u64 }))
    }
}

/// The handle of `name` in `names`, if it has one.
pub open spec fn lookup(names: Seq<Seq<char>>, name: Seq<char>) -> Option<Identifier> {
    if names.contains(name) {
        Some(Identifier { handle: names.index_of(name) as u64 })
    } else {
        None
    }
}

/// The value that a `Result` carries, whichever side it is on.
pub open spec fn either<T>(result: Result<T, T>) -> T {
    match result {
        Ok(inner) => inner,
        Err(inner) => inner,
    }
}

/// Interning `name`: its handle after declaring it, new or not.
pub open spec fn intern(names: Seq<Seq<char>>, name: Seq<char>) -> (Seq<Seq<char>>, Identifier) {
    (declare(names, name).0, either(declare(names, name).1))
}

/// A bijective table between names and handles. Handles are issued in
/// increasing order, starting after the built-in names.
#[derive(Debug)]
pub struct IdentifierMap {
    names: Vec<String>,
}

impl View for IdentifierMap {
    type V = Seq<Seq<char>>;

    closed spec fn view(&self) -> Seq<Seq<char>> {
        Seq::new(self.names@.len(), |i: int| self.names@[i]@)
    }
}

impl IdentifierMap {
    #[verifier::type_invariant]
    spec fn well_formed(self) -> bool {
        distinct_names(self@)
    }

    /// A table that holds the built-in names and nothing else.
    pub fn new() -> (out: Self)
        ensures
            out@ == builtin_names(),
            distinct_names(out@),
    {
        let mut names: Vec<String> = Vec::new();
        names.push(String::from_str("hsv"));
        names.push(String::from_str("rgb"));
        names.push(String::from_str("cmy"));
        names.push(String::from_str("xyz"));
        names.push(String::from_str("alpha"));
        proof {
            reveal_strlit("hsv");
            reveal_strlit("rgb");
            reveal_strlit("cmy");
            reveal_strlit("xyz");
            reveal_strlit("alpha");
            let shown = Seq::new(names@.len(), |i: int| names@[i]@);
            assert(shown =~= builtin_names());
            assert("hsv"@[0] != "rgb"@[0]);
            assert("hsv"@[0] != "cmy"@[0]);
            assert("hsv"@[0] != "xyz"@[0]);
            assert("rgb"@[0] != "cmy"@[0]);
            assert("rgb"@[0] != "xyz"@[0]);
            assert("cmy"@[0] != "xyz"@[0]);
            assert("alpha"@.len() != "hsv"@.len());
            assert(distinct_names(shown));
        }
        Self { names }
    }

    /// The position of `name` in the table, if it is there.
    fn position(&self, name: &String) -> (out: Option<usize>)
        ensures
            match out {
                Some(i) => i < self@.len() && self@[i as int] == name@ && self@.contains(name@)
                    && self@.index_of(name@) == i,
                None => !self@.contains(name@),
            },
    {
        proof {
            use_type_invariant(self);
        }
        let mut i: usize = 0;
        while i < self.names.len()
            invariant
                i <= self.names@.len(),
                self@.len() == self.names@.len(),
                forall|k: int| 0 <= k < self@.len() ==> self@[k] == self.names@[k]@,
                forall|k: int| 0 <= k < i ==> self@[k] != name@,
                distinct_names(self@),
            decreases self.names@.len() - i,
        {
            if self.names[i] == *name {
                proof {
                    assert(self@[i as int] == name@);
                    let found = self@.index_of(name@);
                    assert(self@.contains(name@));
                    assert(0 <= found < self@.len() && self@[found] == name@);
                    if found < i {
                        assert(self@[found] != name@);
                    } else if found > i {
                        assert(self@[i as int] != self@[found]);
                    }
                }
                return Some(i);
            }
            i += 1;
        }
        None
    }

    /// Declares `name`. A new name enters the table and gets the next
    /// handle, returned as `Ok`; a name that is already there leaves the
    /// table unchanged and its handle comes back as `Err`.
    pub fn create_identifier(&mut self, name: String) -> (out: Result<Identifier, Identifier>)
        ensures
            (final(self)@, out) == declare(old(self)@, name@),
            distinct_names(final(self)@),
    {
        proof {
            use_type_invariant(&*self);
        }
        match self.position(&name) {
            Some(i) => Err(Identifier { handle: i as u64 }),
            None => {
                let ghost before = self@;
                let mut taken = IdentifierMap { names: Vec::new() };
                std::mem::swap(self, &mut taken);
                let mut names = taken.names;
                let handle: u64 = names.len() as u64;
                names.push(name);
                proof {
                    let shown = Seq::new(names@.len(), |i: int| names@[i]@);
                    assert(shown =~= before.push(name@));
                    declare_keeps_distinct(before, name@);
                }
                *self = IdentifierMap { names };
                Ok(Identifier { handle })
            },
        }
    }

    /// The name that `identifier` stands for, if this table issued it.
    pub fn get(&self, identifier: &Identifier) -> (out: Option<&String>)
        ensures
            match out {
                Some(name) => identifier.handle < self@.len() && name@ == self@[
                    identifier.handle as int
                ],
                None => identifier.handle >= self@.len(),
            },
    {
        if identifier.handle < self.names.len() as u64 {
            Some(&self.names[identifier.handle as usize])
        } else {
            None
        }
    }

    /// The handle of `name`, if it has been declared.
    pub fn get_from_name(&self, name: &str) -> (out: Option<Identifier>)
        ensures
            out == lookup(self@, name@),
    {
        let owned = String::from_str(name);
        match self.position(&owned) {
            Some(i) => Some(Identifier { handle: i as u64 }),
            None => None,
        }
    }

    /// A copy of the table: the same names with the same handles.
    pub fn duplicate(&self) -> (out: Self)
        ensures
            out@ == self@,
    {
        proof {
            use_type_invariant(self);
        }
        let mut names: Vec<String> = Vec::new();
        let mut i: usize = 0;
        while i < self.names.len()
            invariant
                i <= self.names@.len(),
                names@.len() == i,
                forall|k: int| 0 <= k < i ==> names@[k]@ == self.names@[k]@,
            decreases self.names@.len() - i,
        {
            names.push(self.names[i].clone());
            i += 1;
        }
        proof {
            let shown = Seq::new(names@.len(), |k: int| names@[k]@);
            assert(shown =~= self@);
        }
        Self { names }
    }

    /// How many names the table holds.
    pub fn len(&self) -> (out: usize)
        ensures
            out == self@.len(),
    {
        self.names.len()
    }
}

/// Takes the value out of a `Result` whose two sides have one type.
pub trait UnwrapSameTypes<T> {
    fn always_ok(self) -> T;
}

impl<T> UnwrapSameTypes<T> for Result<T, T> {
    fn always_ok(self) -> (out: T)
        ensures
            out == either(self),
    {
        match self {
            Ok(inner) => inner,
            Err(inner) => inner,
        }
    }
}

/// Declaring a name a second time is rejected and leaves the table as the
/// first declaration made it.
pub proof fn second_declaration_rejected(names: Seq<Seq<char>>, name: Seq<char>)
    requires
        distinct_names(names),
    ensures
        declare(declare(names, name).0, name).1 is Err,
        declare(declare(names, name).0, name).0 == declare(names, name).0,
        distinct_names(declare(names, name).0),
{
    let (after, first) = declare(names, name);
    if names.contains(name) {
    } else {
        assert(after[names.len() as int] == name);
        assert(after.contains(name));
    }
    declare_keeps_distinct(names, name);
}

/// Interning a name twice gives the same handle both times.
pub proof fn intern_twice_same_handle(names: Seq<Seq<char>>, name: Seq<char>)
    requires
        distinct_names(names),
        names.len() < u64::MAX,
    ensures
        intern(intern(names, name).0, name).1 == intern(names, name).1,
        intern(intern(names, name).0, name).0 == intern(names, name).0,
{
    let (after, first) = declare(names, name);
    if names.contains(name) {
    } else {
        assert(after[names.len() as int] == name);
        assert(after.contains(name));
        declare_keeps_distinct(names, name);
        let found = after.index_of(name);
        assert(0 <= found < after.len() && after[found] == name);
        if found < names.len() {
            assert(names[found] == name);
            assert(names.contains(name));
        }
    }
}

/// A name keeps its handle when another name is declared.
pub proof fn handles_are_stable(names: Seq<Seq<char>>, name: Seq<char>, other: Seq<char>)
    requires
        distinct_names(names),
        names.contains(name),
    ensures
        lookup(declare(names, other).0, name) == lookup(names, name),
{
    let after = declare(names, other).0;
    declare_keeps_distinct(names, other);
    let at = names.index_of(name);
    assert(0 <= at < names.len() && names[at] == name);
    assert(after[at] == name);
    assert(after.contains(name));
    let found = after.index_of(name);
    assert(0 <= found < after.len() && after[found] == name);
    if found != at {
        if found < at {
            assert(after[found] != after[at]);
        } else {
            assert(after[at] != after[found]);
        }
    }
}

/// A declaration keeps the names of the table distinct.
pub proof fn declare_keeps_distinct(names: Seq<Seq<char>>, name: Seq<char>)
    requires
        distinct_names(names),
    ensures
        distinct_names(declare(names, name).0),
{
    let after = declare(names, name).0;
    if !names.contains(name) {
        assert forall|i: int, j: int| 0 <= i < j < after.len() implies after[i] != after[j] by {
            if j == names.len() {
                if after[i] == name {
                    assert(names[i] == name);
                    assert(names.contains(name));
                }
            }
        }
    }
}

/// An operator with two operands.
#[derive(Debug, Clone, Copy, PartialEq, Eq, Structural)]
pub enum BinaryOperator {
    Equivalent,
    NotEquivalent,
    GreaterThan,
    LessThan,
    GreaterThanOrEqual,
    LessThanOrEqual,
    Add,
    Sub,
    Mul,
    Div,
    Remainder,
}

/// An operator with one operand.
#[derive(Debug, Clone, Copy, PartialEq, Eq, Structural)]
pub enum UnaryOperator {
    Not,
    Negative,
}

/// A colour: X, Y, Z and alpha, each the bit pattern of a binary64 number.
#[derive(Debug, Clone, Copy, PartialEq, Eq, Structural)]
pub struct Color {
    pub x: u64,
    pub y: u64,
    pub z: u64,
    pub alpha: u64,
}

/// A number as the source writes it. The language has one numeric type;
/// what a literal denotes in it is decided when the literal is evaluated.
#[derive(Debug, PartialEq)]
pub enum NumberLiteral {
    /// Digits without a point.
    Integer(i64),
    /// A decimal literal with a point, as written.
    Decimal(String),
}

/// A literal or a lambda.
#[derive(Debug, PartialEq)]
pub enum Primary {
    Lambda { param: Identifier, body: Box<Spanned<Expression>> },
    String(String),
    Number(NumberLiteral),
    Bool(bool),
    Color(Color),
    Unit,
}

/// An expression. Every child carries its own span.
#[allow(inconsistent_fields)]
#[derive(Debug, PartialEq)]
pub enum Expression {
    If {
        cond: Box<Spanned<Expression>>,
        then_: Box<Spanned<Expression>>,
        else_: Box<Spanned<Expression>>,
    },
    Binary { operator: BinaryOperator, lhs: Box<Spanned<Expression>>, rhs: Box<Spanned<Expression>> },
    Unary { operator: UnaryOperator, rhs: Box<Spanned<Expression>> },
    FunctionApplication { function: Box<Spanned<Expression>>, argument: Box<Spanned<Expression>> },
    Variable(Identifier),
    Primary(Spanned<Primary>),
}

/// A statement of the top level.
#[derive(Debug, PartialEq)]
pub enum Statement {
    /// `name = value`, possibly followed by `:: type`.
    Assignment { ident: Identifier, expr: Spanned<Expression>, type_ascription: Option<Type> },
    /// `name :: type`.
    TypeAscription { ident: Identifier, type_: Type },
    /// A request to merge the statements of another source at this place.
    Include { path: String },
}

/// The model of a [`NumberLiteral`].
pub enum NumberLiteralModel {
    Integer(i64),
    Decimal(Seq<char>),
}

/// The model of a [`Primary`].
pub enum PrimaryModel {
    Lambda { param: Identifier, body: Box<Spanned<ExpressionModel>> },
    String(Seq<char>),
    Number(NumberLiteralModel),
    Bool(bool),
    Color(Color),
    Unit,
}

/// The model of an [`Expression`].
#[allow(inconsistent_fields)]
pub enum ExpressionModel {
    If {
        cond: Box<Spanned<ExpressionModel>>,
        then_: Box<Spanned<ExpressionModel>>,
        else_: Box<Spanned<ExpressionModel>>,
    },
    Binary {
        operator: BinaryOperator,
        lhs: Box<Spanned<ExpressionModel>>,
        rhs: Box<Spanned<ExpressionModel>>,
    },
    Unary { operator: UnaryOperator, rhs: Box<Spanned<ExpressionModel>> },
    FunctionApplication {
        function: Box<Spanned<ExpressionModel>>,
        argument: Box<Spanned<ExpressionModel>>,
    },
    Variable(Identifier),
    Primary(Spanned<PrimaryModel>),
}

/// The model of a [`Statement`].
pub enum StatementModel {
    Assignment { ident: Identifier, expr: Spanned<ExpressionModel>, type_ascription: Option<Type> },
    TypeAscription { ident: Identifier, type_: Type },
    Include { path: Seq<char> },
}

impl View for NumberLiteral {
    type V = NumberLiteralModel;

    open spec fn view(&self) -> NumberLiteralModel {
        match self {
            NumberLiteral::Integer(value) => NumberLiteralModel::Integer(*value),
            NumberLiteral::Decimal(text) => NumberLiteralModel::Decimal(text@),
        }
    }
}

/// The model of the primary `primary`.
pub open spec fn primary_model(primary: Primary) -> PrimaryModel
    decreases primary,
{
    match primary {
        Primary::Lambda { param, body } => PrimaryModel::Lambda {
            param,
            body: Box::new(Spanned { span: body.span, inner: expression_model(body.inner) }),
        },
        Primary::String(text) => PrimaryModel::String(text@),
        Primary::Number(literal) => PrimaryModel::Number(literal@),
        Primary::Bool(value) => PrimaryModel::Bool(value),
        Primary::Color(color) => PrimaryModel::Color(color),
        Primary::Unit => PrimaryModel::Unit,
    }
}

/// The model of the expression `expression`.
pub open spec fn expression_model(expression: Expression) -> ExpressionModel
    decreases expression,
{
    match expression {
        Expression::If { cond, then_, else_ } => ExpressionModel::If {
            cond: Box::new(Spanned { span: cond.span, inner: expression_model(cond.inner) }),
            then_: Box::new(Spanned { span: then_.span, inner: expression_model(then_.inner) }),
            else_: Box::new(Spanned { span: else_.span, inner: expression_model(else_.inner) }),
        },
        Expression::Binary { operator, lhs, rhs } => ExpressionModel::Binary {
            operator,
            lhs: Box::new(Spanned { span: lhs.span, inner: expression_model(lhs.inner) }),
            rhs: Box::new(Spanned { span: rhs.span, inner: expression_model(rhs.inner) }),
        },
        Expression::Unary { operator, rhs } => ExpressionModel::Unary {
            operator,
            rhs: Box::new(Spanned { span: rhs.span, inner: expression_model(rhs.inner) }),
        },
        Expression::FunctionApplication { function, argument } => {
            ExpressionModel::FunctionApplication {
                function: Box::new(
                    Spanned { span: function.span, inner: expression_model(function.inner) },
                ),
                argument: Box::new(
                    Spanned { span: argument.span, inner: expression_model(argument.inner) },
                ),
            }
        },
        Expression::Variable(identifier) => ExpressionModel::Variable(identifier),
        Expression::Primary(primary) => ExpressionModel::Primary(
            Spanned { span: primary.span, inner: primary_model(primary.inner) },
        ),
    }
}

impl View for Primary {
    type V = PrimaryModel;

    open spec fn view(&self) -> PrimaryModel {
        primary_model(*self)
    }
}

impl View for Expression {
    type V = ExpressionModel;

    open spec fn view(&self) -> ExpressionModel {
        expression_model(*self)
    }
}

impl View for Statement {
    type V = StatementModel;

    open spec fn view(&self) -> StatementModel {
        match self {
            Statement::Assignment { ident, expr, type_ascription } => StatementModel::Assignment {
                ident: *ident,
                expr: expr@,
                type_ascription: *type_ascription,
            },
            Statement::TypeAscription { ident, type_ } => StatementModel::TypeAscription {
                ident: *ident,
                type_: *type_,
            },
            Statement::Include { path } => StatementModel::Include { path: path@ },
        }
    }
}

/// The models of a sequence of statements.
pub open spec fn statement_models(statements: Seq<Spanned<Statement>>) -> Seq<
    Spanned<StatementModel>,
> {
    Seq::new(statements.len(), |i: int| statements[i]@)
}

impl NumberLiteral {
    /// A copy of `self`.
    pub fn duplicate(&self) -> (out: Self)
        ensures
            out == *self,
    {
        match self {
            NumberLiteral::Integer(value) => NumberLiteral::Integer(*value),
            NumberLiteral::Decimal(text) => NumberLiteral::Decimal(text.clone()),
        }
    }
}

/// A copy of the spanned expression `expression`.
pub fn duplicate_spanned(expression: &Spanned<Expression>) -> (out: Spanned<Expression>)
    ensures
        out == *expression,
    decreases *expression, 0nat,
{
    Spanned {
        span: expression.span.start..expression.span.end,
        inner: expression.inner.duplicate(),
    }
}

impl Primary {
    /// A copy of `self`.
    pub fn duplicate(&self) -> (out: Self)
        ensures
            out == *self,
        decreases *self, 1nat,
    {
        match self {
            Primary::Lambda { param, body } => Primary::Lambda {
                param: *param,
                body: Box::new(duplicate_spanned(body)),
            },
            Primary::String(text) => Primary::String(text.clone()),
            Primary::Number(literal) => Primary::Number(literal.duplicate()),
            Primary::Bool(value) => Primary::Bool(*value),
            Primary::Color(color) => Primary::Color(*color),
            Primary::Unit => Primary::Unit,
        }
    }
}

impl Expression {
    /// A copy of `self`.
    pub fn duplicate(&self) -> (out: Self)
        ensures
            out == *self,
        decreases *self, 1nat,
    {
        match self {
            Expression::If { cond, then_, else_ } => Expression::If {
                cond: Box::new(duplicate_spanned(cond)),
                then_: Box::new(duplicate_spanned(then_)),
                else_: Box::new(duplicate_spanned(else_)),
            },
            Expression::Binary { operator, lhs, rhs } => Expression::Binary {
                operator: *operator,
                lhs: Box::new(duplicate_spanned(lhs)),
                rhs: Box::new(duplicate_spanned(rhs)),
            },
            Expression::Unary { operator, rhs } => Expression::Unary {
                operator: *operator,
                rhs: Box::new(duplicate_spanned(rhs)),
            },
            Expression::FunctionApplication { function, argument } => {
                Expression::FunctionApplication {
                    function: Box::new(duplicate_spanned(function)),
                    argument: Box::new(duplicate_spanned(argument)),
                }
            },
            Expression::Variable(identifier) => Expression::Variable(*identifier),
            Expression::Primary(primary) => Expression::Primary(
                Spanned {
                    span: primary.span.start..primary.span.end,
                    inner: primary.inner.duplicate(),
                },
            ),
        }
    }
}

} // verus!
