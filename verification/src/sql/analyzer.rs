//! The semantic pass: names are resolved against the input's fields, every
//! expression gets a type, and `*` is expanded.

use crate::database::Database;
use crate::error::DatabaseError;
use crate::sql::ast::{
    ExprView, Expression, IsPredicate, Literal, LiteralView, SelectList, SelectTarget, Statement,
    StatementView, TargetView,
};
use crate::sql::evaluator::FloatArithmetic;
use crate::sql::logical_planner::LogicalPlan;
use crate::sql::operator::Operator;
use crate::sql::planner_context::PlannerContext;
use crate::table::Schema;
use crate::text::str_eq;
use crate::types::{DataType, Value, ValueView};
use vstd::prelude::*;
use vstd::string::*;

verus! {

/// One column of the output of a plan node.
#[derive(Debug, Clone, PartialEq)]
pub struct Field {
    pub name: String,
    pub alias: Option<String>,
    pub data_type: DataType,
    pub is_nullable: bool,
}

/// The columns that a plan node produces, in order.
#[derive(Debug, Clone, PartialEq)]
pub struct OutputSchema {
    pub fields: Vec<Field>,
}

impl OutputSchema {
    /// The names of the fields, in order.
    pub open spec fn names(self) -> Seq<Seq<char>> {
        Seq::new(self.fields@.len(), |i: int| self.fields@[i].name@)
    }

    /// The index of the first field named `name`.
    pub fn find_column(&self, name: &str) -> (index: Option<usize>)
        ensures
            match index {
                Some(i) => i < self.fields@.len() && self.fields@[i as int].name@ == name@
                    && forall|k: int| 0 <= k < i ==> self.fields@[k].name@ != name@,
                None => forall|k: int| 0 <= k < self.fields@.len() ==> self.fields@[k].name@ != name@,
            },
    {
        let n: usize = self.fields.len();
        let mut i: usize = 0;
        while i < n
            invariant
                i <= n,
                n == self.fields@.len(),
                forall|k: int| 0 <= k < i ==> self.fields@[k].name@ != name@,
            decreases n - i,
        {
            if str_eq(self.fields[i].name.as_str(), name) {
                return Some(i);
            }
            i += 1;
        }
        None
    }
}

/// A resolved reference to a column of the input, by position.
#[derive(Debug, Clone, PartialEq)]
pub struct ColumnReference {
    pub index: usize,
    /// The qualifier of a reference such as `u.name`.
    pub relation: Option<String>,
}

/// What an `IS` test compares its operand with.
#[derive(Debug, Clone, Copy, PartialEq, Eq, Structural)]
pub enum IsPredicateTarget {
    True,
    False,
    Null,
}

/// An expression whose names are resolved and whose type is known.
#[derive(Debug, PartialEq)]
pub enum AnalyzedExpression {
    Literal(Value),
    Column(ColumnReference, DataType),
    BinaryExpr {
        left: Box<AnalyzedExpression>,
        op: Operator,
        right: Box<AnalyzedExpression>,
        return_type: DataType,
    },
    IsPredicate { expr: Box<AnalyzedExpression>, predicate: IsPredicateTarget, negated: bool },
}

impl AnalyzedExpression {
    /// The type of the expression; a null literal has none.
    pub open spec fn type_of(self) -> Option<DataType> {
        match self {
            AnalyzedExpression::Literal(value) => match value {
                Value::Int64(_) => Some(DataType::Int64),
                Value::Float64(_) => Some(DataType::Float64),
                Value::Text(_) => Some(DataType::Text),
                Value::Bool(_) => Some(DataType::Bool),
                Value::Null => None,
            },
            AnalyzedExpression::Column(_, data_type) => Some(data_type),
            AnalyzedExpression::BinaryExpr { return_type, .. } => Some(return_type),
            AnalyzedExpression::IsPredicate { .. } => Some(DataType::Bool),
        }
    }

    /// Whether the expression can produce a null, given which input fields can:
    /// a literal and an `IS` test never do, a column does as its field does
    /// (a column beyond the input does), and a binary expression does if
    /// either operand does.
    pub open spec fn nullable(self, input: Seq<bool>) -> bool
        decreases self,
    {
        match self {
            AnalyzedExpression::Literal(_) => false,
            AnalyzedExpression::Column(column, _) => if column.index < input.len() {
                input[column.index as int]
            } else {
                true
            },
            AnalyzedExpression::BinaryExpr { left, right, .. } => left.nullable(input)
                || right.nullable(input),
            AnalyzedExpression::IsPredicate { .. } => false,
        }
    }

    /// The type of the expression; a null literal has none.
    pub fn get_type(&self) -> (t: Option<DataType>)
        ensures
            t == self.type_of(),
    {
        match self {
            AnalyzedExpression::Literal(value) => value.data_type(),
            AnalyzedExpression::Column(_, data_type) => Some(*data_type),
            AnalyzedExpression::BinaryExpr { return_type, .. } => Some(*return_type),
            AnalyzedExpression::IsPredicate { .. } => Some(DataType::Bool),
        }
    }

    /// Whether the expression can produce a null, given the schema of the input.
    pub fn is_nullable(&self, input_schema: &OutputSchema) -> (nullable: bool)
        ensures
            nullable == self.nullable(nullability(*input_schema)),
        decreases self,
    {
        match self {
            AnalyzedExpression::Literal(_) => false,
            AnalyzedExpression::Column(column, _) => {
                if column.index < input_schema.fields.len() {
                    input_schema.fields[column.index].is_nullable
                } else {
                    true
                }
            },
            AnalyzedExpression::BinaryExpr { left, right, .. } => {
                left.is_nullable(input_schema) || right.is_nullable(input_schema)
            },
            AnalyzedExpression::IsPredicate { .. } => false,
        }
    }
}

/// Which fields of a schema can hold a null, in order.
pub open spec fn nullability(schema: OutputSchema) -> Seq<bool> {
    Seq::new(schema.fields@.len(), |i: int| schema.fields@[i].is_nullable)
}

/// The content of a [`Field`].
pub struct FieldView {
    pub name: Seq<char>,
    pub alias: Option<Seq<char>>,
    pub data_type: DataType,
    pub is_nullable: bool,
}

impl View for Field {
    type V = FieldView;

    open spec fn view(&self) -> FieldView {
        FieldView {
            name: self.name@,
            alias: match self.alias {
                Some(a) => Some(a@),
                None => None,
            },
            data_type: self.data_type,
            is_nullable: self.is_nullable,
        }
    }
}

impl View for OutputSchema {
    type V = Seq<FieldView>;

    open spec fn view(&self) -> Seq<FieldView> {
        Seq::new(self.fields@.len(), |i: int| self.fields@[i]@)
    }
}

impl Field {
    /// A copy of this field.
    pub fn duplicate(&self) -> (copy: Field)
        ensures
            copy@ == self@,
    {
        Field {
            name: self.name.clone(),
            alias: match &self.alias {
                Some(a) => Some(a.clone()),
                None => None,
            },
            data_type: self.data_type,
            is_nullable: self.is_nullable,
        }
    }
}

impl OutputSchema {
    /// A copy of this schema.
    pub fn duplicate(&self) -> (copy: OutputSchema)
        ensures
            copy@ == self@,
    {
        let mut fields: Vec<Field> = Vec::new();
        let n: usize = self.fields.len();
        let mut i: usize = 0;
        while i < n
            invariant
                i <= n,
                n == self.fields@.len(),
                fields@.len() == i,
                forall|k: int| 0 <= k < i ==> fields@[k]@ == self.fields@[k]@,
            decreases n - i,
        {
            fields.push(self.fields[i].duplicate());
            i += 1;
        }
        let copy = OutputSchema { fields };
        assert(copy@ =~= self@);
        copy
    }

    /// The schema of a table, lifted into an output schema: one field per
    /// column, without an alias.
    pub fn from_table(schema: &Schema) -> (out: OutputSchema)
        ensures
            out@ == lifted(*schema),
    {
        let mut fields: Vec<Field> = Vec::new();
        let n: usize = schema.columns.len();
        let mut i: usize = 0;
        while i < n
            invariant
                i <= n,
                n == schema.columns@.len(),
                fields@.len() == i,
                forall|k: int| 0 <= k < i ==> fields@[k]@ == lifted(*schema)[k],
            decreases n - i,
        {
            let column = &schema.columns[i];
            fields.push(
                Field {
                    name: column.name.clone(),
                    alias: None,
                    data_type: column.data_type,
                    is_nullable: column.nullable,
                },
            );
            i += 1;
        }
        let out = OutputSchema { fields };
        assert(out@ =~= lifted(*schema));
        out
    }
}

/// The fields of a table's schema: one per column, without an alias.
pub open spec fn lifted(schema: Schema) -> Seq<FieldView> {
    Seq::new(
        schema.columns@.len(),
        |i: int|
            FieldView {
                name: schema.columns@[i].name@,
                alias: None,
                data_type: schema.columns@[i].data_type,
                is_nullable: schema.columns@[i].nullable,
            },
    )
}

/// The number of fields among the first `n` that are named `name`.
pub open spec fn occurrences(fields: Seq<FieldView>, name: Seq<char>, n: int) -> int
    decreases n,
{
    if n <= 0 {
        0
    } else {
        occurrences(fields, name, n - 1) + if fields[n - 1].name == name {
            1int
        } else {
            0int
        }
    }
}

/// The index of the one field named `name`; `None` where no field or more
/// than one field has that name.
pub open spec fn resolve(fields: Seq<FieldView>, name: Seq<char>) -> Option<int> {
    if occurrences(fields, name, fields.len() as int) == 1 {
        Some(choose|i: int| 0 <= i < fields.len() && fields[i].name == name)
    } else {
        None
    }
}

pub open spec fn is_numeric(t: DataType) -> bool {
    t == DataType::Int64 || t == DataType::Float64
}

/// The type of `left op right`, or `None` where the operands do not go with
/// the operator: a comparison takes coercible operands and gives a truth
/// value; arithmetic takes numbers and gives a float if either is one, else
/// an integer; `AND` and `OR` take and give truth values.
pub open spec fn binary_type(left: DataType, op: Operator, right: DataType) -> Option<DataType> {
    if op.is_comparison() {
        if DataType::coercible(left, right) {
            Some(DataType::Bool)
        } else {
            None
        }
    } else if op.is_arithmetic() {
        if is_numeric(left) && is_numeric(right) {
            if left == DataType::Float64 || right == DataType::Float64 {
                Some(DataType::Float64)
            } else {
                Some(DataType::Int64)
            }
        } else {
            None
        }
    } else if left == DataType::Bool && right == DataType::Bool {
        Some(DataType::Bool)
    } else {
        None
    }
}

/// What binding an expression to the fields of the input comes to.
pub enum Bound {
    /// The expression is well typed, with this type.
    Typed(DataType),
    /// A name matches no field, or more than one.
    ColumnNotFound(Seq<char>),
    /// Operands do not go with their operator, or `IS TRUE` with its operand.
    TypeMismatch,
    /// The literal `NULL` stands where a value is asked for.
    NullLiteral,
}

/// What binding `expr` to `fields` comes to. Of a binary expression the left
/// operand is bound first, and its failure is the failure of the whole.
pub open spec fn bound(expr: ExprView, fields: Seq<FieldView>) -> Bound
    decreases expr,
{
    match expr {
        ExprView::BinaryOp { left, op, right } => match bound(*left, fields) {
            Bound::Typed(l) => match bound(*right, fields) {
                Bound::Typed(r) => match binary_type(l, op, r) {
                    Some(t) => Bound::Typed(t),
                    None => Bound::TypeMismatch,
                },
                other => other,
            },
            other => other,
        },
        ExprView::Identifier(name) => match resolve(fields, name) {
            Some(i) => Bound::Typed(fields[i].data_type),
            None => Bound::ColumnNotFound(name),
        },
        ExprView::Literal(literal) => match literal {
            LiteralView::Int64(_) => Bound::Typed(DataType::Int64),
            LiteralView::Float64(_) => Bound::Typed(DataType::Float64),
            LiteralView::Text(_) => Bound::Typed(DataType::Text),
            LiteralView::Bool(_) => Bound::Typed(DataType::Bool),
            LiteralView::Null => Bound::NullLiteral,
        },
        ExprView::Is { expr, predicate, is_negated } => match bound(*expr, fields) {
            Bound::Typed(t) => if predicate != IsPredicate::Null && t != DataType::Bool {
                Bound::TypeMismatch
            } else {
                Bound::Typed(DataType::Bool)
            },
            other => other,
        },
    }
}

/// The target of an `IS` test that the parsed predicate stands for.
pub open spec fn target_of(predicate: IsPredicate) -> IsPredicateTarget {
    match predicate {
        IsPredicate::True => IsPredicateTarget::True,
        IsPredicate::False => IsPredicateTarget::False,
        IsPredicate::Null => IsPredicateTarget::Null,
    }
}

/// Whether `out` is `expr` bound to `fields`: of the same shape, every name
/// replaced by the index and type of its field, every literal by its value,
/// and every binary expression typed by [`binary_type`]. The value of a
/// float literal is the float that its text writes, which is not stated here.
pub open spec fn binds(expr: ExprView, fields: Seq<FieldView>, out: AnalyzedExpression) -> bool
    decreases expr,
{
    match expr {
        ExprView::BinaryOp { left, op, right } => out matches AnalyzedExpression::BinaryExpr {
            left: l,
            op: o,
            right: r,
            return_type,
        } && o == op && binds(*left, fields, *l) && binds(*right, fields, *r) && l.type_of()
            is Some && r.type_of() is Some && binary_type(l.type_of()->0, op, r.type_of()->0)
            == Some(return_type),
        ExprView::Identifier(name) => out matches AnalyzedExpression::Column(column, t) && resolve(
            fields,
            name,
        ) == Some(column.index as int) && column.relation is None && t
            == fields[column.index as int].data_type,
        ExprView::Literal(literal) => out matches AnalyzedExpression::Literal(value) && match (
            literal,
            value@,
        ) {
            (LiteralView::Int64(a), ValueView::Int64(b)) => a == b,
            (LiteralView::Float64(_), ValueView::Float64(_)) => true,
            (LiteralView::Text(a), ValueView::Text(b)) => a == b,
            (LiteralView::Bool(a), ValueView::Bool(b)) => a == b,
            _ => false,
        },
        ExprView::Is { expr, predicate, is_negated } => out matches AnalyzedExpression::IsPredicate {
            expr: inner,
            predicate: target,
            negated,
        } && binds(*expr, fields, *inner) && target == target_of(predicate) && negated
            == is_negated,
    }
}

/// Whether the result `r` of binding is what `b` asks for.
pub open spec fn bind_agrees(
    r: Result<AnalyzedExpression, DatabaseError>,
    b: Bound,
    expr: ExprView,
    fields: Seq<FieldView>,
) -> bool {
    match b {
        Bound::Typed(t) => r matches Ok(out) && out.type_of() == Some(t) && binds(expr, fields, out),
        Bound::ColumnNotFound(name) => r matches Err(DatabaseError::ColumnNotFound(n)) && n@ == name,
        Bound::TypeMismatch => r matches Err(DatabaseError::TypeMismatch(_)),
        Bound::NullLiteral => r matches Err(DatabaseError::InvalidQuery(_)),
    }
}

proof fn lemma_occurrences(fields: Seq<FieldView>, name: Seq<char>, n: int)
    requires
        0 <= n <= fields.len(),
    ensures
        0 <= occurrences(fields, name, n) <= n,
        occurrences(fields, name, n) == 0 <==> forall|k: int|
            0 <= k < n ==> (#[trigger] fields[k]).name != name,
        occurrences(fields, name, n) == 1 ==> exists|i: int|
            0 <= i < n && (#[trigger] fields[i]).name == name && forall|k: int|
                0 <= k < n && k != i ==> (#[trigger] fields[k]).name != name,
    decreases n,
{
    if n > 0 {
        lemma_occurrences(fields, name, n - 1);
        if occurrences(fields, name, n) == 1 {
            if fields[n - 1].name == name {
                assert(fields[n - 1].name == name && forall|k: int|
                    0 <= k < n && k != n - 1 ==> (#[trigger] fields[k]).name != name);
            } else {
                let i = choose|i: int|
                    0 <= i < n - 1 && (#[trigger] fields[i]).name == name && forall|k: int|
                        0 <= k < n - 1 && k != i ==> (#[trigger] fields[k]).name != name;
                assert(fields[i].name == name && forall|k: int|
                    0 <= k < n && k != i ==> (#[trigger] fields[k]).name != name);
            }
        }
    }
}

/// The analyzer: it resolves the names of a statement against the catalog
/// and gives every expression its type.
pub struct Analyzer<'a, F: FloatArithmetic> {
    pub context: &'a PlannerContext<'a>,
    pub floats: &'a F,
}

impl<'a, F: FloatArithmetic> Analyzer<'a, F> {
    pub fn new(context: &'a PlannerContext<'a>, floats: &'a F) -> (analyzer: Self)
        ensures
            analyzer.context == context,
            analyzer.floats == floats,
    {
        Self { context, floats }
    }

    /// Whether a value of type `from` may be compared with one of type `to`.
    pub fn can_coerce(from: DataType, to: DataType) -> (ok: bool)
        ensures
            ok == DataType::coercible(from, to),
    {
        DataType::can_coerce(from, to)
    }

    /// The common type of two numeric operands.
    fn get_common_numeric_type(left: DataType, right: DataType) -> (t: Option<DataType>)
        ensures
            t == binary_type(left, Operator::Add, right),
    {
        let left_numeric: bool = left == DataType::Int64 || left == DataType::Float64;
        let right_numeric: bool = right == DataType::Int64 || right == DataType::Float64;
        if !left_numeric || !right_numeric {
            return None;
        }
        if left == DataType::Float64 || right == DataType::Float64 {
            Some(DataType::Float64)
        } else {
            Some(DataType::Int64)
        }
    }

    /// The type of `left op right`, where the operands go with the operator.
    fn resolve_binary_op(left: DataType, op: Operator, right: DataType) -> (t: Option<DataType>)
        ensures
            t == binary_type(left, op, right),
    {
        match op {
            Operator::Equal
            | Operator::GreaterThan
            | Operator::LessThan
            | Operator::GreaterThanEqual
            | Operator::LessThanEqual
            | Operator::NotEqual => {
                if Self::can_coerce(left, right) {
                    Some(DataType::Bool)
                } else {
                    None
                }
            },
            Operator::Add | Operator::Subtract | Operator::Multiply | Operator::Divide => {
                Self::get_common_numeric_type(left, right)
            },
            Operator::And | Operator::Or => {
                if left == DataType::Bool && right == DataType::Bool {
                    Some(DataType::Bool)
                } else {
                    None
                }
            },
        }
    }

    /// The index of the one field of `schema` that is named `name`.
    fn resolve_column(schema: &OutputSchema, name: &str) -> (index: Option<usize>)
        ensures
            match index {
                Some(i) => resolve(schema@, name@) == Some(i as int) && i < schema.fields@.len(),
                None => resolve(schema@, name@) is None,
            },
    {
        let n: usize = schema.fields.len();
        let mut found: Option<usize> = None;
        let mut count: usize = 0;
        let mut i: usize = 0;
        while i < n
            invariant
                i <= n,
                n == schema.fields@.len(),
                count == occurrences(schema@, name@, i as int),
                count <= i,
                found matches Some(k) ==> k < i && schema@[k as int].name == name@,
                count > 0 ==> found is Some,
            decreases n - i,
        {
            assert(schema@[i as int].name == schema.fields@[i as int].name@);
            if str_eq(schema.fields[i].name.as_str(), name) {
                count += 1;
                found = Some(i);
            }
            i += 1;
        }
        proof {
            lemma_occurrences(schema@, name@, n as int);
        }
        if count == 1 {
            found
        } else {
            None
        }
    }

    /// Binds an expression to the fields of the input: names become column
    /// references, and every node gets its type.
    ///
    /// Fails with `ColumnNotFound` for a name that matches no field or more
    /// than one, with `TypeMismatch` where operands do not go with their
    /// operator, and with `InvalidQuery` for a `NULL` literal.
    pub fn bind_expression(&self, expr: &Expression, input_schema: &OutputSchema) -> (r: Result<
        AnalyzedExpression,
        DatabaseError,
    >)
        ensures
            bind_agrees(r, bound(expr@, input_schema@), expr@, input_schema@),
        decreases expr,
    {
        match expr {
            Expression::BinaryOp { left, op, right } => {
                let left = match self.bind_expression(left, input_schema) {
                    Ok(e) => e,
                    Err(e) => {
                        return Err(e);
                    },
                };
                let right = match self.bind_expression(right, input_schema) {
                    Ok(e) => e,
                    Err(e) => {
                        return Err(e);
                    },
                };
                let (left_type, right_type) = match (left.get_type(), right.get_type()) {
                    (Some(l), Some(r)) => (l, r),
                    _ => {
                        return Err(DatabaseError::TypeMismatch("operand has no type".to_string()));
                    },
                };
                let return_type = match Self::resolve_binary_op(left_type, *op, right_type) {
                    Some(t) => t,
                    None => {
                        return Err(
                            DatabaseError::TypeMismatch(
                                "operands do not go with the operator".to_string(),
                            ),
                        );
                    },
                };
                Ok(
                    AnalyzedExpression::BinaryExpr {
                        left: Box::new(left),
                        op: *op,
                        right: Box::new(right),
                        return_type,
                    },
                )
            },
            Expression::Identifier(name) => {
                let index = match Self::resolve_column(input_schema, name.as_str()) {
                    Some(i) => i,
                    None => {
                        return Err(DatabaseError::ColumnNotFound(name.clone()));
                    },
                };
                let field = &input_schema.fields[index];
                assert(input_schema@[index as int].data_type == field.data_type);
                Ok(
                    AnalyzedExpression::Column(
                        ColumnReference { index, relation: None },
                        field.data_type,
                    ),
                )
            },
            Expression::Literal(literal) => match literal {
                Literal::Int64(n) => Ok(AnalyzedExpression::Literal(Value::Int64(*n))),
                Literal::Float64(text) => Ok(
                    AnalyzedExpression::Literal(Value::Float64(self.floats.parse(text.as_str()))),
                ),
                Literal::Text(text) => Ok(AnalyzedExpression::Literal(Value::Text(text.clone()))),
                Literal::Bool(b) => Ok(AnalyzedExpression::Literal(Value::Bool(*b))),
                Literal::Null => Err(
                    DatabaseError::InvalidQuery(
                        "NULL literal cannot be used in this context. Use 'IS NULL' or 'IS NOT NULL' instead".to_string(),
                    ),
                ),
            },
            Expression::Is { expr, predicate, is_negated } => {
                let inner = match self.bind_expression(expr, input_schema) {
                    Ok(e) => e,
                    Err(e) => {
                        return Err(e);
                    },
                };
                let target = match predicate {
                    IsPredicate::True => IsPredicateTarget::True,
                    IsPredicate::False => IsPredicateTarget::False,
                    IsPredicate::Null => IsPredicateTarget::Null,
                };
                match predicate {
                    IsPredicate::True | IsPredicate::False => {
                        match inner.get_type() {
                            Some(DataType::Bool) => {},
                            _ => {
                                return Err(
                                    DatabaseError::TypeMismatch(
                                        "IS TRUE/FALSE requires boolean input".to_string(),
                                    ),
                                );
                            },
                        }
                    },
                    IsPredicate::Null => {},
                }
                Ok(
                    AnalyzedExpression::IsPredicate {
                        expr: Box::new(inner),
                        predicate: target,
                        negated: *is_negated,
                    },
                )
            },
        }
    }
}

/// Whether `expr`, bound to `fields`, can produce a null: a literal and an
/// `IS` test never do, a column does as its field does, and a binary
/// expression does if either operand does.
pub open spec fn can_be_null(expr: ExprView, fields: Seq<FieldView>) -> bool
    decreases expr,
{
    match expr {
        ExprView::BinaryOp { left, right, .. } => can_be_null(*left, fields) || can_be_null(
            *right,
            fields,
        ),
        ExprView::Identifier(name) => match resolve(fields, name) {
            Some(i) => fields[i].is_nullable,
            None => true,
        },
        ExprView::Literal(_) => false,
        ExprView::Is { .. } => false,
    }
}

/// Which of `fields` can hold a null, in order.
pub open spec fn nullable_fields(fields: Seq<FieldView>) -> Seq<bool> {
    Seq::new(fields.len(), |i: int| fields[i].is_nullable)
}

/// A bound expression can produce a null exactly when the expression it
/// was bound from can.
pub proof fn lemma_nullable(expr: ExprView, fields: Seq<FieldView>, out: AnalyzedExpression)
    requires
        binds(expr, fields, out),
    ensures
        out.nullable(nullable_fields(fields)) == can_be_null(expr, fields),
    decreases expr,
{
    match expr {
        ExprView::BinaryOp { left, op, right } => {
            if let AnalyzedExpression::BinaryExpr { left: l, right: r, .. } = out {
                lemma_nullable(*left, fields, *l);
                lemma_nullable(*right, fields, *r);
            }
        },
        ExprView::Identifier(name) => {
            lemma_occurrences(fields, name, fields.len() as int);
        },
        _ => {},
    }
}

/// The output fields of one target: `*` gives the fields of the input; an
/// expression gives one field, named after its column or `?column?`, with
/// its alias, its type and its nullability.
pub open spec fn target_fields(target: TargetView, fields: Seq<FieldView>) -> Seq<FieldView> {
    match target {
        TargetView::Star => fields,
        TargetView::Expression { expr, alias } => seq![
            FieldView {
                name: expr.column_name(),
                alias,
                data_type: match bound(expr, fields) {
                    Bound::Typed(t) => t,
                    _ => DataType::Bool,
                },
                is_nullable: can_be_null(expr, fields),
            },
        ],
    }
}

/// The output fields of the first `n` targets, in order.
pub open spec fn projected_fields(targets: Seq<TargetView>, fields: Seq<FieldView>, n: int) -> Seq<
    FieldView,
>
    decreases n,
{
    if n <= 0 {
        Seq::empty()
    } else {
        projected_fields(targets, fields, n - 1) + target_fields(targets[n - 1], fields)
    }
}

/// Whether `exprs` are the expressions of one target: for `*` one column
/// reference per field of the input, in order; else the bound expression.
pub open spec fn target_binds(
    target: TargetView,
    fields: Seq<FieldView>,
    exprs: Seq<AnalyzedExpression>,
) -> bool {
    match target {
        TargetView::Star => exprs.len() == fields.len() && forall|i: int|
            0 <= i < fields.len() ==> #[trigger] exprs[i] == AnalyzedExpression::Column(
                ColumnReference { index: i as usize, relation: None },
                fields[i].data_type,
            ),
        TargetView::Expression { expr, alias } => exprs.len() == 1 && binds(expr, fields, exprs[0]),
    }
}

/// Whether `exprs` are the expressions of the first `n` targets, in order.
pub open spec fn projection_binds(
    targets: Seq<TargetView>,
    fields: Seq<FieldView>,
    exprs: Seq<AnalyzedExpression>,
    n: int,
) -> bool
    decreases n,
{
    if n <= 0 {
        exprs.len() == 0
    } else {
        let width = target_fields(targets[n - 1], fields).len();
        exprs.len() >= width && projection_binds(
            targets,
            fields,
            exprs.take(exprs.len() - width),
            n - 1,
        ) && target_binds(targets[n - 1], fields, exprs.skip(exprs.len() - width))
    }
}

/// What binding the first `n` targets comes to: the failure of the first
/// target that fails, or a success.
pub open spec fn targets_bound(targets: Seq<TargetView>, fields: Seq<FieldView>, n: int) -> Bound
    decreases n,
{
    if n <= 0 {
        Bound::Typed(DataType::Bool)
    } else {
        match targets_bound(targets, fields, n - 1) {
            Bound::Typed(_) => match targets[n - 1] {
                TargetView::Star => Bound::Typed(DataType::Bool),
                TargetView::Expression { expr, .. } => bound(expr, fields),
            },
            other => other,
        }
    }
}

/// What analyzing a statement comes to.
pub enum Analysis {
    /// A plan.
    Plan,
    TableNotFound(Seq<char>),
    ColumnNotFound(Seq<char>),
    TypeMismatch,
    /// A statement that is no `SELECT`, or a `NULL` literal.
    InvalidQuery,
}

pub open spec fn failure_of(b: Bound) -> Analysis {
    match b {
        Bound::Typed(_) => Analysis::Plan,
        Bound::ColumnNotFound(name) => Analysis::ColumnNotFound(name),
        Bound::TypeMismatch => Analysis::TypeMismatch,
        Bound::NullLiteral => Analysis::InvalidQuery,
    }
}

/// What analyzing `statement` against a catalog comes to, where `table` is
/// the schema of the table it names, if the catalog has that table. The
/// table is looked up first, then the condition is bound, which must be a
/// truth value, then the targets in order.
pub open spec fn analysis(statement: StatementView, table: Option<Seq<FieldView>>) -> Analysis {
    match statement {
        StatementView::Create { .. } => Analysis::InvalidQuery,
        StatementView::Select { targets, table_name, condition } => match table {
            None => Analysis::TableNotFound(table_name),
            Some(fields) => {
                let filter = match condition {
                    Some(c) => match bound(c, fields) {
                        Bound::Typed(t) => if t == DataType::Bool {
                            Analysis::Plan
                        } else {
                            Analysis::TypeMismatch
                        },
                        other => failure_of(other),
                    },
                    None => Analysis::Plan,
                };
                if filter is Plan {
                    failure_of(targets_bound(targets, fields, targets.len() as int))
                } else {
                    filter
                }
            },
        },
    }
}

/// The fields of the table that `statement` names, where the catalog of
/// `db` has that table.
pub open spec fn fields_of(db: Database, statement: StatementView) -> Option<Seq<FieldView>> {
    match statement {
        StatementView::Select { table_name, .. } => if db.has_table(table_name) {
            Some(lifted(db.table(table_name).schema))
        } else {
            None
        },
        StatementView::Create { .. } => None,
    }
}

/// Whether `plan` is the plan of the `SELECT` with the given parts over a
/// table with the given fields: a projection over a filter, if there is a
/// condition, over a scan of the table.
pub open spec fn plan_matches(
    targets: Seq<TargetView>,
    table_name: Seq<char>,
    condition: Option<ExprView>,
    fields: Seq<FieldView>,
    plan: LogicalPlan,
) -> bool {
    plan matches LogicalPlan::Projection { input, expressions, schema } && schema@
        == projected_fields(targets, fields, targets.len() as int) && projection_binds(
        targets,
        fields,
        expressions@,
        targets.len() as int,
    ) && match condition {
        Some(c) => *input matches LogicalPlan::Filter { input: scan, condition: bound_condition }
            && binds(c, fields, bound_condition) && scan_matches(table_name, fields, *scan),
        None => scan_matches(table_name, fields, *input),
    }
}

/// Whether `plan` is the scan of the table `table_name` with the given fields.
pub open spec fn scan_matches(table_name: Seq<char>, fields: Seq<FieldView>, plan: LogicalPlan) -> bool {
    plan matches LogicalPlan::Scan { table_name: name, schema } && name@ == table_name && schema@
        == fields
}

/// Whether the result `r` of an analysis is what `a` asks for.
pub open spec fn analysis_agrees(
    r: Result<LogicalPlan, DatabaseError>,
    a: Analysis,
    statement: StatementView,
    table: Option<Seq<FieldView>>,
) -> bool {
    match a {
        Analysis::Plan => r matches Ok(plan) && statement matches StatementView::Select {
            targets,
            table_name,
            condition,
        } && table matches Some(fields) && plan_matches(targets, table_name, condition, fields, plan),
        Analysis::TableNotFound(name) => r matches Err(e) && e.is_missing_table(name),
        Analysis::ColumnNotFound(name) => r matches Err(e) && e.is_missing_column(name),
        Analysis::TypeMismatch => r matches Err(DatabaseError::TypeMismatch(_)),
        Analysis::InvalidQuery => r matches Err(DatabaseError::InvalidQuery(_)),
    }
}

impl<'a, F: FloatArithmetic> Analyzer<'a, F> {
    /// The fields of the table that `statement` names, where the catalog
    /// of the analyzer has that table.
    pub open spec fn table_fields(self, statement: StatementView) -> Option<Seq<FieldView>> {
        fields_of(*self.context.database, statement)
    }

    /// Analyzes a statement into a typed logical plan.
    ///
    /// Fails with `InvalidQuery` for a statement that is no `SELECT`, with
    /// `TableNotFound` where the catalog lacks the table, and as
    /// [`Analyzer::bind_expression`] does for the condition and the
    /// targets; a condition that is no truth value fails with `TypeMismatch`.
    pub fn analyze(&self, statement: &Statement) -> (r: Result<LogicalPlan, DatabaseError>)
        requires
            self.context.database.wf(),
        ensures
            analysis_agrees(
                r,
                analysis(statement@, self.table_fields(statement@)),
                statement@,
                self.table_fields(statement@),
            ),
    {
        match statement {
            Statement::Select(select) => {
                let mut plan = match self.analyze_from(select.from_clause.table_name.as_str()) {
                    Ok(p) => p,
                    Err(e) => {
                        return Err(e);
                    },
                };
                if let Some(expr) = &select.where_clause {
                    plan = match self.analyze_where(plan, expr) {
                        Ok(p) => p,
                        Err(e) => {
                            return Err(e);
                        },
                    };
                }
                self.analyze_projection(plan, &select.select_list)
            },
            _ => Err(
                DatabaseError::InvalidQuery("Analysis not implemented for this statement.".to_string()),
            ),
        }
    }

    /// The scan of the table `table_name`.
    fn analyze_from(&self, table_name: &str) -> (r: Result<LogicalPlan, DatabaseError>)
        requires
            self.context.database.wf(),
        ensures
            match r {
                Ok(plan) => self.context.database.has_table(table_name@) && scan_matches(
                    table_name@,
                    lifted(self.context.database.table(table_name@).schema),
                    plan,
                ),
                Err(e) => !self.context.database.has_table(table_name@) && e.is_missing_table(
                    table_name@,
                ),
            },
    {
        let physical_schema = match self.context.get_schema(table_name) {
            Ok(s) => s,
            Err(e) => {
                return Err(e);
            },
        };
        Ok(
            LogicalPlan::Scan {
                table_name: table_name.to_owned(),
                schema: OutputSchema::from_table(physical_schema),
            },
        )
    }

    /// A filter over `input_plan` with the condition `where_expr`.
    fn analyze_where(&self, input_plan: LogicalPlan, where_expr: &Expression) -> (r: Result<
        LogicalPlan,
        DatabaseError,
    >)
        ensures
            match bound(where_expr@, input_plan.fields()) {
                Bound::Typed(t) => if t == DataType::Bool {
                    r matches Ok(LogicalPlan::Filter { input, condition }) && *input == input_plan
                        && binds(where_expr@, input_plan.fields(), condition)
                } else {
                    r matches Err(DatabaseError::TypeMismatch(_))
                },
                Bound::ColumnNotFound(name) => r matches Err(e) && e.is_missing_column(name),
                Bound::TypeMismatch => r matches Err(DatabaseError::TypeMismatch(_)),
                Bound::NullLiteral => r matches Err(DatabaseError::InvalidQuery(_)),
            },
    {
        let analyzed_expr = match self.bind_expression(where_expr, input_plan.schema()) {
            Ok(e) => e,
            Err(e) => {
                return Err(e);
            },
        };
        match analyzed_expr.get_type() {
            Some(DataType::Bool) => {},
            _ => {
                return Err(
                    DatabaseError::TypeMismatch("WHERE condition must be a boolean".to_string()),
                );
            },
        }
        Ok(LogicalPlan::Filter { input: Box::new(input_plan), condition: analyzed_expr })
    }

    /// A projection over `input_plan` with one output column per target
    /// expression, and one per input field for `*`.
    fn analyze_projection(&self, input_plan: LogicalPlan, select_list: &SelectList) -> (r: Result<
        LogicalPlan,
        DatabaseError,
    >)
        ensures
            match targets_bound(select_list@, input_plan.fields(), select_list@.len() as int) {
                Bound::Typed(_) => r matches Ok(
                    LogicalPlan::Projection { input, expressions, schema },
                ) && *input == input_plan && schema@ == projected_fields(
                    select_list@,
                    input_plan.fields(),
                    select_list@.len() as int,
                ) && projection_binds(
                    select_list@,
                    input_plan.fields(),
                    expressions@,
                    select_list@.len() as int,
                ),
                Bound::ColumnNotFound(name) => r matches Err(e) && e.is_missing_column(name),
                Bound::TypeMismatch => r matches Err(DatabaseError::TypeMismatch(_)),
                Bound::NullLiteral => r matches Err(DatabaseError::InvalidQuery(_)),
            },
    {
        let ghost fields = input_plan.fields();
        let ghost targets = select_list@;
        let mut analyzed_exprs: Vec<AnalyzedExpression> = Vec::new();
        let mut output_fields: Vec<Field> = Vec::new();
        let n: usize = select_list.0.len();
        let mut t: usize = 0;
        while t < n
            invariant
                t <= n,
                n == select_list.0@.len(),
                targets == select_list@,
                fields == input_plan.fields(),
                targets_bound(targets, fields, t as int) is Typed,
                fields_view(output_fields@) == projected_fields(targets, fields, t as int),
                projection_binds(targets, fields, analyzed_exprs@, t as int),
            decreases n - t,
        {
            let item = &select_list.0[t];
            let ghost done_exprs = analyzed_exprs@;
            let ghost done_fields = fields_view(output_fields@);
            assert(targets[t as int] == item@);
            match item {
                SelectTarget::Star => {
                    let input_schema = input_plan.schema();
                    let width: usize = input_schema.fields.len();
                    let mut i: usize = 0;
                    while i < width
                        invariant
                            i <= width,
                            width == input_schema.fields@.len(),
                            input_schema@ == fields,
                            analyzed_exprs@.len() == done_exprs.len() + i,
                            analyzed_exprs@.take(done_exprs.len() as int) == done_exprs,
                            forall|k: int|
                                0 <= k < i ==> #[trigger] analyzed_exprs@[done_exprs.len() + k]
                                    == AnalyzedExpression::Column(
                                    ColumnReference { index: k as usize, relation: None },
                                    fields[k].data_type,
                                ),
                            fields_view(output_fields@) == done_fields + fields.take(i as int),
                        decreases width - i,
                    {
                        let field = &input_schema.fields[i];
                        assert(fields[i as int] == field@);
                        let ghost before_exprs = analyzed_exprs@;
                        let ghost before_fields = fields_view(output_fields@);
                        analyzed_exprs.push(
                            AnalyzedExpression::Column(
                                ColumnReference { index: i, relation: None },
                                field.data_type,
                            ),
                        );
                        output_fields.push(field.duplicate());
                        i += 1;
                        proof {
                            assert(analyzed_exprs@.take(done_exprs.len() as int)
                                =~= before_exprs.take(done_exprs.len() as int));
                            assert(fields_view(output_fields@) =~= before_fields.push(field@));
                            assert(fields.take(i as int) =~= fields.take(i - 1).push(field@));
                            assert(fields_view(output_fields@) =~= done_fields + fields.take(
                                i as int,
                            ));
                        }
                    }
                    proof {
                        assert(fields.take(width as int) =~= fields);
                        let all = analyzed_exprs@;
                        assert(all.take(all.len() - width) =~= done_exprs);
                        assert forall|k: int| 0 <= k < fields.len() implies #[trigger] all.skip(
                            all.len() - width,
                        )[k] == AnalyzedExpression::Column(
                            ColumnReference { index: k as usize, relation: None },
                            fields[k].data_type,
                        ) by {
                            assert(all.skip(all.len() - width)[k] == all[done_exprs.len() + k]);
                        }
                    }
                },
                SelectTarget::Expression { expr, alias } => {
                    let input_schema = input_plan.schema();
                    let analyzed_expr = match self.bind_expression(expr, input_schema) {
                        Ok(e) => e,
                        Err(e) => {
                            proof {
                                lemma_targets_fail(targets, fields, t as int, n as int);
                            }
                            return Err(e);
                        },
                    };
                    let data_type = match analyzed_expr.get_type() {
                        Some(t) => t,
                        None => DataType::Bool,
                    };
                    proof {
                        lemma_nullable(expr@, fields, analyzed_expr);
                        assert(nullability(*input_schema) =~= nullable_fields(fields));
                    }
                    let field = Field {
                        name: expr.to_column_name().to_owned(),
                        alias: match alias {
                            Some(a) => Some(a.clone()),
                            None => None,
                        },
                        data_type,
                        is_nullable: analyzed_expr.is_nullable(input_schema),
                    };
                    let ghost fv = field@;
                    analyzed_exprs.push(analyzed_expr);
                    output_fields.push(field);
                    proof {
                        let all = analyzed_exprs@;
                        assert(all.take(all.len() - 1) =~= done_exprs);
                        assert(all.skip(all.len() - 1)[0] == analyzed_expr);
                        assert(fields_view(output_fields@) =~= done_fields + seq![fv]);
                    }
                },
            }
            t += 1;
        }
        let schema = OutputSchema { fields: output_fields };
        assert(schema@ =~= fields_view(output_fields@));
        Ok(
            LogicalPlan::Projection {
                input: Box::new(input_plan),
                expressions: analyzed_exprs,
                schema,
            },
        )
    }
}

/// The contents of a vector of fields.
pub open spec fn fields_view(fields: Seq<Field>) -> Seq<FieldView> {
    Seq::new(fields.len(), |i: int| fields[i]@)
}

/// A target that fails to bind makes the whole projection fail the same way.
proof fn lemma_targets_fail(targets: Seq<TargetView>, fields: Seq<FieldView>, t: int, n: int)
    requires
        0 <= t < n <= targets.len(),
        targets_bound(targets, fields, t) is Typed,
        targets[t] matches TargetView::Expression { expr, .. } && !(bound(expr, fields) is Typed),
    ensures
        targets[t] matches TargetView::Expression { expr, .. } && targets_bound(targets, fields, n)
            == bound(expr, fields),
    decreases n,
{
    if n > t + 1 {
        lemma_targets_fail(targets, fields, t, n - 1);
    }
}

} // verus!
