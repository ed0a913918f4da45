//! The expression evaluator: what an analyzed expression is worth on one row.

use crate::error::DatabaseError;
use crate::sql::analyzer::{AnalyzedExpression, IsPredicateTarget};
use crate::sql::operator::Operator;
use crate::table::Row;
use crate::types::{Value, ValueView};
use vstd::prelude::*;
use vstd::string::*;
use vstd::utf8::*;

verus! {

/// The floating-point arithmetic that the evaluator calls for. A number is
/// handed over and taken back as the 64 bits of its IEEE-754 representation.
pub trait FloatArithmetic {
    /// The number that a decimal literal writes: digits with one point among them.
    fn parse(&self, text: &str) -> u64;

    /// The number nearest to the integer `n`.
    fn from_int(&self, n: i64) -> u64;

    fn add(&self, a: u64, b: u64) -> u64;

    fn subtract(&self, a: u64, b: u64) -> u64;

    fn multiply(&self, a: u64, b: u64) -> u64;

    fn divide(&self, a: u64, b: u64) -> u64;
}

/// The bits of a float without its sign.
pub open spec fn float_magnitude(bits: u64) -> u64 {
    bits & 0x7fff_ffff_ffff_ffffu64
}

/// Whether the bits are those of a NaN.
pub open spec fn float_is_nan(bits: u64) -> bool {
    float_magnitude(bits) > 0x7ff0_0000_0000_0000u64
}

/// Whether the bits are those of zero, of either sign.
pub open spec fn float_is_zero(bits: u64) -> bool {
    float_magnitude(bits) == 0
}

/// The place of a float that is no NaN on the number line of its bit patterns.
pub open spec fn float_rank(bits: u64) -> int {
    if bits & 0x8000_0000_0000_0000u64 != 0 {
        -(float_magnitude(bits) as int)
    } else {
        float_magnitude(bits) as int
    }
}

/// IEEE-754 `<` on bit patterns: false where either side is a NaN.
pub open spec fn float_lt(a: u64, b: u64) -> bool {
    !float_is_nan(a) && !float_is_nan(b) && float_rank(a) < float_rank(b)
}

/// The bits of the machine epsilon of 64-bit floats, 2^-52.
pub const FLOAT_EPSILON_BITS: u64 = 0x3cb0_0000_0000_0000;

/// Whether the bits are those of zero, of either sign.
pub fn is_zero_bits(bits: u64) -> (zero: bool)
    ensures
        zero == float_is_zero(bits),
{
    bits & 0x7fff_ffff_ffff_ffff == 0
}

/// IEEE-754 `<` on bit patterns.
pub fn less_than_bits(a: u64, b: u64) -> (less: bool)
    ensures
        less == float_lt(a, b),
{
    let ma: u64 = a & 0x7fff_ffff_ffff_ffff;
    let mb: u64 = b & 0x7fff_ffff_ffff_ffff;
    if ma > 0x7ff0_0000_0000_0000 || mb > 0x7ff0_0000_0000_0000 {
        return false;
    }
    let a_negative: bool = a & 0x8000_0000_0000_0000 != 0;
    let b_negative: bool = b & 0x8000_0000_0000_0000 != 0;
    if a_negative {
        if b_negative {
            ma > mb
        } else {
            !(ma == 0 && mb == 0)
        }
    } else {
        if b_negative {
            false
        } else {
            ma < mb
        }
    }
}

/// Why an evaluation fails.
pub enum Fault {
    DivisionByZero,
    TypeMismatch,
}

/// What evaluating an expression comes to.
pub enum Evaluated {
    /// The evaluation succeeds with this value.
    Value(ValueView),
    /// The evaluation fails.
    Fails(Fault),
    /// The outcome rests on floating-point arithmetic, which is carried out
    /// by the [`FloatArithmetic`] at hand.
    Floating,
}

/// The quotient of `a` by `b`, rounded toward zero.
pub open spec fn truncated_quotient(a: int, b: int) -> int {
    if (a >= 0) == (b > 0) {
        (if a >= 0 { a } else { -a }) / (if b > 0 { b } else { -b })
    } else {
        -((if a >= 0 { a } else { -a }) / (if b > 0 { b } else { -b }))
    }
}

/// `a / b` on 64-bit integers, with the one quotient that does not fit,
/// that of the least integer by -1, wrapping round to the least integer.
pub open spec fn int_quotient(a: i64, b: i64) -> i64 {
    if truncated_quotient(a as int, b as int) > i64::MAX {
        i64::MIN
    } else {
        truncated_quotient(a as int, b as int) as i64
    }
}

/// Whether `a` comes before `b` in the byte-wise order of strings, looking
/// at the bytes from index `i` on.
pub open spec fn bytes_before(a: Seq<u8>, b: Seq<u8>, i: int) -> bool
    decreases a.len() - i,
{
    if i < 0 || i >= b.len() {
        false
    } else if i >= a.len() {
        true
    } else if a[i] != b[i] {
        a[i] < b[i]
    } else {
        bytes_before(a, b, i + 1)
    }
}

/// Whether the text `a` sorts before the text `b`.
pub open spec fn text_before(a: Seq<char>, b: Seq<char>) -> bool {
    bytes_before(encode_utf8(a), encode_utf8(b), 0)
}

/// `NOT` on the outcome of a comparison: a truth value is inverted, a null
/// stays null, a failure stays the failure.
pub open spec fn inverted(e: Evaluated) -> Evaluated {
    match e {
        Evaluated::Value(ValueView::Bool(b)) => Evaluated::Value(ValueView::Bool(!b)),
        other => other,
    }
}

/// What `left + right`, `left - right` or `left * right` comes to.
pub open spec fn arithmetic(op: Operator, left: ValueView, right: ValueView) -> Evaluated {
    match (left, right) {
        (ValueView::Int64(a), ValueView::Int64(b)) => Evaluated::Value(
            ValueView::Int64(
                match op {
                    Operator::Add => a.wrapping_add(b),
                    Operator::Subtract => a.wrapping_sub(b),
                    _ => a.wrapping_mul(b),
                },
            ),
        ),
        (ValueView::Float64(_), ValueView::Float64(_)) => Evaluated::Floating,
        (ValueView::Int64(_), ValueView::Float64(_)) => Evaluated::Floating,
        (ValueView::Float64(_), ValueView::Int64(_)) => Evaluated::Floating,
        (ValueView::Null, _) => Evaluated::Value(ValueView::Null),
        (_, ValueView::Null) => Evaluated::Value(ValueView::Null),
        _ => Evaluated::Fails(Fault::TypeMismatch),
    }
}

/// What `left / right` comes to.
pub open spec fn division(left: ValueView, right: ValueView) -> Evaluated {
    match (left, right) {
        (ValueView::Int64(a), ValueView::Int64(b)) => if b == 0 {
            Evaluated::Fails(Fault::DivisionByZero)
        } else {
            Evaluated::Value(ValueView::Int64(int_quotient(a, b)))
        },
        (ValueView::Float64(_), ValueView::Float64(b)) => if float_is_zero(b) {
            Evaluated::Fails(Fault::DivisionByZero)
        } else {
            Evaluated::Floating
        },
        (ValueView::Int64(_), ValueView::Float64(b)) => if float_is_zero(b) {
            Evaluated::Fails(Fault::DivisionByZero)
        } else {
            Evaluated::Floating
        },
        (ValueView::Float64(_), ValueView::Int64(b)) => if b == 0 {
            Evaluated::Fails(Fault::DivisionByZero)
        } else {
            Evaluated::Floating
        },
        (ValueView::Null, _) => Evaluated::Value(ValueView::Null),
        (_, ValueView::Null) => Evaluated::Value(ValueView::Null),
        _ => Evaluated::Fails(Fault::TypeMismatch),
    }
}

/// What `left = right` comes to: null if either side is null; otherwise
/// whether the two are equal, values of unlike kinds being unequal.
pub open spec fn equality(left: ValueView, right: ValueView) -> Evaluated {
    if left is Null || right is Null {
        Evaluated::Value(ValueView::Null)
    } else {
        match (left, right) {
            (ValueView::Int64(a), ValueView::Int64(b)) => Evaluated::Value(ValueView::Bool(a == b)),
            (ValueView::Float64(_), ValueView::Float64(_)) => Evaluated::Floating,
            (ValueView::Int64(_), ValueView::Float64(_)) => Evaluated::Floating,
            (ValueView::Float64(_), ValueView::Int64(_)) => Evaluated::Floating,
            (ValueView::Text(a), ValueView::Text(b)) => Evaluated::Value(ValueView::Bool(a == b)),
            (ValueView::Bool(a), ValueView::Bool(b)) => Evaluated::Value(ValueView::Bool(a == b)),
            _ => Evaluated::Value(ValueView::Bool(false)),
        }
    }
}

/// What `left < right` comes to: null if either side is null; the order of
/// numbers or of texts; a failure for anything else.
pub open spec fn less_than(left: ValueView, right: ValueView) -> Evaluated {
    if left is Null || right is Null {
        Evaluated::Value(ValueView::Null)
    } else {
        match (left, right) {
            (ValueView::Int64(a), ValueView::Int64(b)) => Evaluated::Value(ValueView::Bool(a < b)),
            (ValueView::Float64(a), ValueView::Float64(b)) => Evaluated::Value(
                ValueView::Bool(float_lt(a, b)),
            ),
            (ValueView::Int64(_), ValueView::Float64(_)) => Evaluated::Floating,
            (ValueView::Float64(_), ValueView::Int64(_)) => Evaluated::Floating,
            (ValueView::Text(a), ValueView::Text(b)) => Evaluated::Value(
                ValueView::Bool(text_before(a, b)),
            ),
            _ => Evaluated::Fails(Fault::TypeMismatch),
        }
    }
}

/// What applying an operator other than `AND` and `OR` to two values comes to.
pub open spec fn apply(op: Operator, left: ValueView, right: ValueView) -> Evaluated {
    match op {
        Operator::Add | Operator::Subtract | Operator::Multiply => arithmetic(op, left, right),
        Operator::Divide => division(left, right),
        Operator::Equal => equality(left, right),
        Operator::NotEqual => inverted(equality(left, right)),
        Operator::LessThan => less_than(left, right),
        Operator::GreaterThan => less_than(right, left),
        Operator::GreaterThanEqual => inverted(less_than(left, right)),
        Operator::LessThanEqual => inverted(less_than(right, left)),
        Operator::And | Operator::Or => Evaluated::Fails(Fault::TypeMismatch),
    }
}

/// The value that an `IS` test compares its operand with.
pub open spec fn is_target(predicate: IsPredicateTarget) -> ValueView {
    match predicate {
        IsPredicateTarget::True => ValueView::Bool(true),
        IsPredicateTarget::False => ValueView::Bool(false),
        IsPredicateTarget::Null => ValueView::Null,
    }
}

/// What evaluating `expr` on `row` comes to.
///
/// `AND` and `OR` look at their right operand only where the left one does
/// not decide: a left operand that is not true makes `AND` false, and one
/// that is true makes `OR` true.
pub open spec fn evaluate(expr: AnalyzedExpression, row: Seq<ValueView>) -> Evaluated
    decreases expr,
{
    match expr {
        AnalyzedExpression::Literal(value) => Evaluated::Value(value@),
        AnalyzedExpression::Column(column, _) => if column.index < row.len() {
            Evaluated::Value(row[column.index as int])
        } else {
            Evaluated::Value(ValueView::Null)
        },
        AnalyzedExpression::BinaryExpr { left, op, right, .. } => match evaluate(*left, row) {
            Evaluated::Value(l) => if op == Operator::And && !l.truthy() {
                Evaluated::Value(ValueView::Bool(false))
            } else if op == Operator::Or && l.truthy() {
                Evaluated::Value(ValueView::Bool(true))
            } else {
                match evaluate(*right, row) {
                    Evaluated::Value(r) => if op == Operator::And || op == Operator::Or {
                        Evaluated::Value(ValueView::Bool(r.truthy()))
                    } else {
                        apply(op, l, r)
                    },
                    other => other,
                }
            },
            other => other,
        },
        AnalyzedExpression::IsPredicate { expr, predicate, negated } => match evaluate(*expr, row) {
            Evaluated::Value(v) => Evaluated::Value(
                ValueView::Bool((v == is_target(predicate)) != negated),
            ),
            other => other,
        },
    }
}

/// Whether a row passes a `WHERE` condition: only where the condition
/// evaluates to true. Null, and any value that is no truth value, is a no.
pub open spec fn passes(value: ValueView) -> bool {
    value == ValueView::Bool(true)
}

/// Whether the error `e` reports the fault `f`.
pub open spec fn fault_is(e: DatabaseError, f: Fault) -> bool {
    match f {
        Fault::DivisionByZero => e == DatabaseError::DivisionByZero,
        Fault::TypeMismatch => e is TypeMismatch,
    }
}

/// Whether the result `r` of an evaluation is what `e` says it comes to.
/// Where the outcome rests on floating-point arithmetic, only this is
/// said: that a failure is a division by zero or a type mismatch.
pub open spec fn agrees(r: Result<Value, DatabaseError>, e: Evaluated) -> bool {
    match e {
        Evaluated::Value(v) => r matches Ok(x) && x@ == v,
        Evaluated::Fails(Fault::DivisionByZero) => r == Err::<Value, DatabaseError>(
            DatabaseError::DivisionByZero,
        ),
        Evaluated::Fails(Fault::TypeMismatch) => r matches Err(DatabaseError::TypeMismatch(_)),
        Evaluated::Floating => r matches Err(e) ==> e is DivisionByZero || e is TypeMismatch,
    }
}

/// `a / b`, rounded toward zero; the quotient of the least integer by -1
/// wraps round to the least integer.
fn divide_ints(a: i64, b: i64) -> (q: i64)
    requires
        b != 0,
    ensures
        q == int_quotient(a, b),
{
    let ma: u64 = if a >= 0 {
        a as u64
    } else {
        (-(a as i128)) as u64
    };
    let mb: u64 = if b > 0 {
        b as u64
    } else {
        (-(b as i128)) as u64
    };
    let mq: u64 = ma / mb;
    if (a >= 0) == (b > 0) {
        if mq > 0x7fff_ffff_ffff_ffff {
            i64::MIN
        } else {
            mq as i64
        }
    } else {
        (-(mq as i128)) as i64
    }
}

/// Whether `a` sorts before `b`, byte by byte.
fn text_less(a: &str, b: &str) -> (less: bool)
    ensures
        less == text_before(a@, b@),
{
    let x = a.as_bytes();
    let y = b.as_bytes();
    let n: usize = x.len();
    let m: usize = y.len();
    let mut i: usize = 0;
    while i < n && i < m
        invariant
            i <= n,
            i <= m,
            n == x@.len(),
            m == y@.len(),
            x@ == encode_utf8(a@),
            y@ == encode_utf8(b@),
            bytes_before(x@, y@, 0) == bytes_before(x@, y@, i as int),
        decreases n - i,
    {
        if x[i] != y[i] {
            return x[i] < y[i];
        }
        i += 1;
    }
    i < m
}

fn mismatch() -> (e: DatabaseError)
    ensures
        e is TypeMismatch,
{
    DatabaseError::TypeMismatch("operands do not go with the operator".to_string())
}

/// `left + right`: integers wrap round; a null on either side gives null.
pub fn values_add<F: FloatArithmetic>(floats: &F, left: &Value, right: &Value) -> (r: Result<
    Value,
    DatabaseError,
>)
    ensures
        agrees(r, arithmetic(Operator::Add, left@, right@)),
        arithmetic(Operator::Add, left@, right@) is Floating ==> r matches Ok(Value::Float64(_)),
{
    match (left, right) {
        (Value::Int64(a), Value::Int64(b)) => Ok(Value::Int64(a.wrapping_add(*b))),
        (Value::Float64(a), Value::Float64(b)) => Ok(Value::Float64(floats.add(*a, *b))),
        (Value::Int64(a), Value::Float64(b)) => Ok(
            Value::Float64(floats.add(floats.from_int(*a), *b)),
        ),
        (Value::Float64(a), Value::Int64(b)) => Ok(
            Value::Float64(floats.add(*a, floats.from_int(*b))),
        ),
        (Value::Null, _) => Ok(Value::Null),
        (_, Value::Null) => Ok(Value::Null),
        _ => Err(mismatch()),
    }
}

/// `left - right`: integers wrap round; a null on either side gives null.
pub fn values_subtract<F: FloatArithmetic>(floats: &F, left: &Value, right: &Value) -> (r: Result<
    Value,
    DatabaseError,
>)
    ensures
        agrees(r, arithmetic(Operator::Subtract, left@, right@)),
        arithmetic(Operator::Subtract, left@, right@) is Floating ==> r matches Ok(
            Value::Float64(_),
        ),
{
    match (left, right) {
        (Value::Int64(a), Value::Int64(b)) => Ok(Value::Int64(a.wrapping_sub(*b))),
        (Value::Float64(a), Value::Float64(b)) => Ok(Value::Float64(floats.subtract(*a, *b))),
        (Value::Int64(a), Value::Float64(b)) => Ok(
            Value::Float64(floats.subtract(floats.from_int(*a), *b)),
        ),
        (Value::Float64(a), Value::Int64(b)) => Ok(
            Value::Float64(floats.subtract(*a, floats.from_int(*b))),
        ),
        (Value::Null, _) => Ok(Value::Null),
        (_, Value::Null) => Ok(Value::Null),
        _ => Err(mismatch()),
    }
}

/// `left * right`: integers wrap round; a null on either side gives null.
pub fn values_multiply<F: FloatArithmetic>(floats: &F, left: &Value, right: &Value) -> (r: Result<
    Value,
    DatabaseError,
>)
    ensures
        agrees(r, arithmetic(Operator::Multiply, left@, right@)),
        arithmetic(Operator::Multiply, left@, right@) is Floating ==> r matches Ok(
            Value::Float64(_),
        ),
{
    match (left, right) {
        (Value::Int64(a), Value::Int64(b)) => Ok(Value::Int64(a.wrapping_mul(*b))),
        (Value::Float64(a), Value::Float64(b)) => Ok(Value::Float64(floats.multiply(*a, *b))),
        (Value::Int64(a), Value::Float64(b)) => Ok(
            Value::Float64(floats.multiply(floats.from_int(*a), *b)),
        ),
        (Value::Float64(a), Value::Int64(b)) => Ok(
            Value::Float64(floats.multiply(*a, floats.from_int(*b))),
        ),
        (Value::Null, _) => Ok(Value::Null),
        (_, Value::Null) => Ok(Value::Null),
        _ => Err(mismatch()),
    }
}

/// `left / right`: fails with `DivisionByZero` where the divisor is zero,
/// integer or float; a null on either side gives null.
pub fn values_divide<F: FloatArithmetic>(floats: &F, left: &Value, right: &Value) -> (r: Result<
    Value,
    DatabaseError,
>)
    ensures
        agrees(r, division(left@, right@)),
        division(left@, right@) is Floating ==> r matches Ok(Value::Float64(_)),
{
    match (left, right) {
        (Value::Int64(a), Value::Int64(b)) => {
            if *b == 0 {
                return Err(DatabaseError::DivisionByZero);
            }
            Ok(Value::Int64(divide_ints(*a, *b)))
        },
        (Value::Float64(a), Value::Float64(b)) => {
            if is_zero_bits(*b) {
                return Err(DatabaseError::DivisionByZero);
            }
            Ok(Value::Float64(floats.divide(*a, *b)))
        },
        (Value::Int64(a), Value::Float64(b)) => {
            if is_zero_bits(*b) {
                return Err(DatabaseError::DivisionByZero);
            }
            Ok(Value::Float64(floats.divide(floats.from_int(*a), *b)))
        },
        (Value::Float64(a), Value::Int64(b)) => {
            if *b == 0 {
                return Err(DatabaseError::DivisionByZero);
            }
            Ok(Value::Float64(floats.divide(*a, floats.from_int(*b))))
        },
        (Value::Null, _) => Ok(Value::Null),
        (_, Value::Null) => Ok(Value::Null),
        _ => Err(mismatch()),
    }
}

/// Whether two floats with this difference differ by less than the machine epsilon.
fn floats_near(difference: u64) -> (near: bool)
    ensures
        near == float_near(difference),
{
    less_than_bits(difference & 0x7fff_ffff_ffff_ffff, FLOAT_EPSILON_BITS)
}

/// Whether a difference of two floats is less than the machine epsilon in
/// magnitude: the difference without its sign comes before 2^-52. The
/// difference of floats of which one is a NaN is a NaN, and is not.
pub open spec fn float_near(difference: u64) -> bool {
    float_lt(float_magnitude(difference), 0x3cb0_0000_0000_0000u64)
}

/// `left = right`: null if either side is null; floats are equal where they
/// differ by less than the machine epsilon; values of unlike kinds are unequal.
pub fn values_equal<F: FloatArithmetic>(floats: &F, left: &Value, right: &Value) -> (r: Value)
    ensures
        agrees(Ok(r), equality(left@, right@)),
        equality(left@, right@) is Floating ==> r is Bool,
{
    match (left, right) {
        (Value::Null, _) => Value::Null,
        (_, Value::Null) => Value::Null,
        (Value::Int64(a), Value::Int64(b)) => Value::Bool(*a == *b),
        (Value::Float64(a), Value::Float64(b)) => Value::Bool(
            floats_near(floats.subtract(*a, *b)),
        ),
        (Value::Int64(a), Value::Float64(b)) => Value::Bool(
            floats_near(floats.subtract(floats.from_int(*a), *b)),
        ),
        (Value::Float64(a), Value::Int64(b)) => Value::Bool(
            floats_near(floats.subtract(*a, floats.from_int(*b))),
        ),
        (Value::Text(a), Value::Text(b)) => Value::Bool(
            crate::text::str_eq(a.as_str(), b.as_str()),
        ),
        (Value::Bool(a), Value::Bool(b)) => Value::Bool(*a == *b),
        _ => Value::Bool(false),
    }
}

/// `left < right`: null if either side is null; fails with `TypeMismatch`
/// unless both sides are numbers or both are texts.
pub fn values_less_than<F: FloatArithmetic>(floats: &F, left: &Value, right: &Value) -> (r: Result<
    Value,
    DatabaseError,
>)
    ensures
        agrees(r, less_than(left@, right@)),
        less_than(left@, right@) is Floating ==> r matches Ok(Value::Bool(_)),
{
    match (left, right) {
        (Value::Null, _) => Ok(Value::Null),
        (_, Value::Null) => Ok(Value::Null),
        (Value::Int64(a), Value::Int64(b)) => Ok(Value::Bool(*a < *b)),
        (Value::Float64(a), Value::Float64(b)) => Ok(Value::Bool(less_than_bits(*a, *b))),
        (Value::Int64(a), Value::Float64(b)) => Ok(
            Value::Bool(less_than_bits(floats.from_int(*a), *b)),
        ),
        (Value::Float64(a), Value::Int64(b)) => Ok(
            Value::Bool(less_than_bits(*a, floats.from_int(*b))),
        ),
        (Value::Text(a), Value::Text(b)) => Ok(Value::Bool(text_less(a.as_str(), b.as_str()))),
        _ => Err(mismatch()),
    }
}

/// `left > right`, which is `right < left`.
pub fn values_greater_than<F: FloatArithmetic>(
    floats: &F,
    left: &Value,
    right: &Value,
) -> (r: Result<Value, DatabaseError>)
    ensures
        agrees(r, less_than(right@, left@)),
        less_than(right@, left@) is Floating ==> r matches Ok(Value::Bool(_)),
{
    values_less_than(floats, right, left)
}

/// `NOT` on the result of a comparison: a truth value is inverted, a null
/// stays null.
fn invert(r: Result<Value, DatabaseError>) -> (out: Result<Value, DatabaseError>)
    ensures
        forall|e: Evaluated| agrees(r, e) ==> agrees(out, inverted(e)),
        r matches Ok(Value::Bool(_)) ==> out matches Ok(Value::Bool(_)),
{
    match r {
        Ok(Value::Bool(b)) => Ok(Value::Bool(!b)),
        other => other,
    }
}

/// Evaluates expressions to values, with the floating-point arithmetic of `floats`.
pub struct ExpressionEvaluator<F: FloatArithmetic> {
    pub floats: F,
}

impl<F: FloatArithmetic> ExpressionEvaluator<F> {
    pub fn new(floats: F) -> (evaluator: Self)
        ensures
            evaluator.floats == floats,
    {
        Self { floats }
    }

    /// Applies an operator other than `AND` and `OR` to two values. Where
    /// floating-point arithmetic decides, arithmetic gives a float and a
    /// comparison a truth value.
    pub fn apply(&self, op: Operator, left: &Value, right: &Value) -> (r: Result<
        Value,
        DatabaseError,
    >)
        ensures
            agrees(r, apply(op, left@, right@)),
            apply(op, left@, right@) is Floating ==> (r matches Ok(v) && if op.is_arithmetic() {
                v is Float64
            } else {
                v is Bool
            }),
    {
        match op {
            Operator::Add => values_add(&self.floats, left, right),
            Operator::Subtract => values_subtract(&self.floats, left, right),
            Operator::Multiply => values_multiply(&self.floats, left, right),
            Operator::Divide => values_divide(&self.floats, left, right),
            Operator::Equal => Ok(values_equal(&self.floats, left, right)),
            Operator::NotEqual => invert(Ok(values_equal(&self.floats, left, right))),
            Operator::LessThan => values_less_than(&self.floats, left, right),
            Operator::GreaterThan => values_greater_than(&self.floats, left, right),
            Operator::GreaterThanEqual => invert(values_less_than(&self.floats, left, right)),
            Operator::LessThanEqual => invert(values_greater_than(&self.floats, left, right)),
            Operator::And | Operator::Or => Err(mismatch()),
        }
    }

    /// Evaluates `expr` on `row`.
    ///
    /// A column beyond the end of the row is null. `AND` and `OR` evaluate
    /// their right operand only where the left one does not decide.
    pub fn evaluate(&self, expr: &AnalyzedExpression, row: &Row) -> (r: Result<
        Value,
        DatabaseError,
    >)
        ensures
            agrees(r, evaluate(*expr, row@)),
        decreases expr,
    {
        match expr {
            AnalyzedExpression::Literal(value) => Ok(value.duplicate()),
            AnalyzedExpression::Column(column, _) => {
                if column.index < row.values.len() {
                    assert(row@[column.index as int] == row.values@[column.index as int]@);
                    Ok(row.values[column.index].duplicate())
                } else {
                    Ok(Value::Null)
                }
            },
            AnalyzedExpression::BinaryExpr { left, op, right, .. } => {
                let left_val = match self.evaluate(left, row) {
                    Ok(v) => v,
                    Err(e) => {
                        return Err(e);
                    },
                };
                match op {
                    Operator::And => {
                        if !left_val.is_truthy() {
                            return Ok(Value::Bool(false));
                        }
                        match self.evaluate(right, row) {
                            Ok(v) => Ok(Value::Bool(v.is_truthy())),
                            Err(e) => Err(e),
                        }
                    },
                    Operator::Or => {
                        if left_val.is_truthy() {
                            return Ok(Value::Bool(true));
                        }
                        match self.evaluate(right, row) {
                            Ok(v) => Ok(Value::Bool(v.is_truthy())),
                            Err(e) => Err(e),
                        }
                    },
                    _ => {
                        let right_val = match self.evaluate(right, row) {
                            Ok(v) => v,
                            Err(e) => {
                                return Err(e);
                            },
                        };
                        self.apply(*op, &left_val, &right_val)
                    },
                }
            },
            AnalyzedExpression::IsPredicate { expr, predicate, negated } => {
                let value = match self.evaluate(expr, row) {
                    Ok(v) => v,
                    Err(e) => {
                        return Err(e);
                    },
                };
                let match_against = match predicate {
                    IsPredicateTarget::True => Value::Bool(true),
                    IsPredicateTarget::False => Value::Bool(false),
                    IsPredicateTarget::Null => Value::Null,
                };
                let same: bool = value.same_as(&match_against);
                Ok(Value::Bool(same != *negated))
            },
        }
    }
}

/// The verdict on a row, given what its condition evaluated to: a yes only
/// for true. Null, and any value that is no truth value, is a no, whatever
/// arithmetic the value came from.
pub fn verdict(value: &Value) -> (pass: bool)
    ensures
        pass == passes(value@),
        value@ is Null ==> !pass,
{
    value.is_truthy()
}

/// Evaluates `WHERE` conditions to a yes or a no.
pub struct PredicateEvaluator<F: FloatArithmetic> {
    pub expressions: ExpressionEvaluator<F>,
}

impl<F: FloatArithmetic> PredicateEvaluator<F> {
    pub fn new(floats: F) -> (evaluator: Self)
        ensures
            evaluator.expressions.floats == floats,
    {
        Self { expressions: ExpressionEvaluator::new(floats) }
    }

    /// Whether `row` passes the condition `expr`: only where it evaluates to
    /// true. A condition that comes to null, or to a value that is no truth
    /// value, does not pass.
    pub fn evaluate(&self, expr: &AnalyzedExpression, row: &Row) -> (r: Result<bool, DatabaseError>)
        ensures
            verdict_agrees(r, evaluate(*expr, row@)),
    {
        match self.expressions.evaluate(expr, row) {
            Ok(value) => Ok(verdict(&value)),
            Err(e) => Err(e),
        }
    }
}

/// Whether the verdict `r` on a row is what the outcome `e` of evaluating the
/// condition asks for. Where the outcome rests on floating-point
/// arithmetic, only this is said: that a failure is a division by zero or
/// a type mismatch.
pub open spec fn verdict_agrees(r: Result<bool, DatabaseError>, e: Evaluated) -> bool {
    match e {
        Evaluated::Value(v) => r == Ok::<bool, DatabaseError>(passes(v)),
        Evaluated::Fails(Fault::DivisionByZero) => r == Err::<bool, DatabaseError>(
            DatabaseError::DivisionByZero,
        ),
        Evaluated::Fails(Fault::TypeMismatch) => r matches Err(DatabaseError::TypeMismatch(_)),
        Evaluated::Floating => r matches Err(e) ==> e is DivisionByZero || e is TypeMismatch,
    }
}

/// Short circuit: with a left operand that is not true, `AND` is false
/// whatever its right operand is, and with one that is true, `OR` is true.
pub proof fn lemma_short_circuit(
    left: AnalyzedExpression,
    right: AnalyzedExpression,
    other: AnalyzedExpression,
    t: crate::types::DataType,
    row: Seq<ValueView>,
)
    ensures
        evaluate(left, row) matches Evaluated::Value(l) && !l.truthy() ==> evaluate(
            AnalyzedExpression::BinaryExpr {
                left: Box::new(left),
                op: Operator::And,
                right: Box::new(right),
                return_type: t,
            },
            row,
        ) == Evaluated::Value(ValueView::Bool(false)),
        evaluate(left, row) matches Evaluated::Value(l) && l.truthy() ==> evaluate(
            AnalyzedExpression::BinaryExpr {
                left: Box::new(left),
                op: Operator::Or,
                right: Box::new(right),
                return_type: t,
            },
            row,
        ) == Evaluated::Value(ValueView::Bool(true)),
        evaluate(
            AnalyzedExpression::BinaryExpr {
                left: Box::new(AnalyzedExpression::Literal(Value::Bool(false))),
                op: Operator::And,
                right: Box::new(right),
                return_type: t,
            },
            row,
        ) == evaluate(
            AnalyzedExpression::BinaryExpr {
                left: Box::new(AnalyzedExpression::Literal(Value::Bool(false))),
                op: Operator::And,
                right: Box::new(other),
                return_type: t,
            },
            row,
        ),
        evaluate(
            AnalyzedExpression::BinaryExpr {
                left: Box::new(AnalyzedExpression::Literal(Value::Bool(true))),
                op: Operator::Or,
                right: Box::new(right),
                return_type: t,
            },
            row,
        ) == evaluate(
            AnalyzedExpression::BinaryExpr {
                left: Box::new(AnalyzedExpression::Literal(Value::Bool(true))),
                op: Operator::Or,
                right: Box::new(other),
                return_type: t,
            },
            row,
        ),
{
    reveal_with_fuel(evaluate, 3);
    assert(Value::Bool(false)@ == ValueView::Bool(false));
    assert(Value::Bool(true)@ == ValueView::Bool(true));
}

} // verus!
