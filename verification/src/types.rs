use vstd::prelude::*;
use vstd::string::*;
use vstd::utf8::*;

verus! {

/// The logical type of a column.
#[derive(Debug, Clone, Copy, PartialEq, Eq, Structural)]
pub enum DataType {
    /// 64-bit signed integer, stored as 8 little-endian bytes.
    Int64,
    /// Text without a size limit, stored as a 4-byte length and UTF-8 bytes.
    Text,
    /// Text of at most the given number of UTF-8 bytes.
    VarChar(u32),
    /// A truth value, stored as one byte.
    Bool,
    /// 64-bit IEEE-754 number, stored as 8 little-endian bytes.
    Float64,
    /// Reserved; no value of this type can be stored yet.
    Timestamp,
}

impl DataType {
    /// Whether a value of type `from` may stand where `to` is expected in a
    /// comparison or in arithmetic.
    pub open spec fn coercible(from: DataType, to: DataType) -> bool {
        from == to || match (from, to) {
            (DataType::Int64, DataType::Float64) => true,
            (DataType::Text, DataType::VarChar(_)) => true,
            (DataType::VarChar(_), DataType::Text) => true,
            (DataType::VarChar(_), DataType::VarChar(_)) => true,
            _ => false,
        }
    }

    /// Whether a value of type `from` may stand where `to` is expected.
    pub fn can_coerce(from: DataType, to: DataType) -> (ok: bool)
        ensures
            ok == Self::coercible(from, to),
    {
        if from == to {
            return true;
        }
        match (from, to) {
            (DataType::Int64, DataType::Float64) => true,
            (DataType::Text, DataType::VarChar(_)) => true,
            (DataType::VarChar(_), DataType::Text) => true,
            (DataType::VarChar(_), DataType::VarChar(_)) => true,
            _ => false,
        }
    }
}

/// A value held by one column of one row.
///
/// A `Float64` carries the 64 bits of its IEEE-754 representation.
#[derive(Debug, Clone, PartialEq)]
pub enum Value {
    Int64(i64),
    Float64(u64),
    Text(String),
    Bool(bool),
    /// The absence of a value; accepted only by nullable columns.
    Null,
}

/// The mathematical content of a [`Value`]: a text is its sequence of characters.
pub enum ValueView {
    Int64(i64),
    Float64(u64),
    Text(Seq<char>),
    Bool(bool),
    Null,
}

impl ValueView {
    /// Whether this value may be stored in a column of type `data_type`.
    /// `Null` fits every type here; nullability is the column's own matter.
    pub open spec fn fits(self, data_type: DataType) -> bool {
        match (self, data_type) {
            (ValueView::Text(s), DataType::VarChar(max_len)) => encode_utf8(s).len() <= max_len,
            (ValueView::Int64(_), DataType::Int64) => true,
            (ValueView::Bool(_), DataType::Bool) => true,
            (ValueView::Float64(_), DataType::Float64) => true,
            (ValueView::Null, _) => true,
            (ValueView::Text(_), DataType::Text) => true,
            _ => false,
        }
    }

    /// Only `Bool(true)` counts as true; `Null` and everything else is false.
    pub open spec fn truthy(self) -> bool {
        self == ValueView::Bool(true)
    }
}

impl View for Value {
    type V = ValueView;

    open spec fn view(&self) -> ValueView {
        match *self {
            Value::Int64(n) => ValueView::Int64(n),
            Value::Float64(bits) => ValueView::Float64(bits),
            Value::Text(s) => ValueView::Text(s@),
            Value::Bool(b) => ValueView::Bool(b),
            Value::Null => ValueView::Null,
        }
    }
}

/// The contents of a vector of values.
pub open spec fn values_view(values: Seq<Value>) -> Seq<ValueView> {
    Seq::new(values.len(), |i: int| values[i]@)
}

impl Value {
    /// The type of this value, or `None` for `Null`, which has none.
    pub fn data_type(&self) -> (t: Option<DataType>)
        ensures
            t == match self@ {
                ValueView::Int64(_) => Some(DataType::Int64),
                ValueView::Float64(_) => Some(DataType::Float64),
                ValueView::Text(_) => Some(DataType::Text),
                ValueView::Bool(_) => Some(DataType::Bool),
                ValueView::Null => None,
            },
    {
        match self {
            Value::Int64(_) => Some(DataType::Int64),
            Value::Float64(_) => Some(DataType::Float64),
            Value::Text(_) => Some(DataType::Text),
            Value::Bool(_) => Some(DataType::Bool),
            Value::Null => None,
        }
    }

    /// Checks that this value may be stored in a column of type `data_type`;
    /// for `VarChar` that includes the byte length of the text.
    pub fn is_compatible_with(&self, data_type: &DataType) -> (r: Result<(), String>)
        ensures
            r is Ok <==> self@.fits(*data_type),
    {
        match (self, data_type) {
            (Value::Text(s), DataType::VarChar(max_len)) => {
                if s.as_str().as_bytes().len() <= *max_len as usize {
                    Ok(())
                } else {
                    Err("Text length exceeds VARCHAR limit".to_string())
                }
            },
            (Value::Int64(_), DataType::Int64) => Ok(()),
            (Value::Bool(_), DataType::Bool) => Ok(()),
            (Value::Float64(_), DataType::Float64) => Ok(()),
            (Value::Null, _) => Ok(()),
            (Value::Text(_), DataType::Text) => Ok(()),
            _ => Err("Type mismatch: value cannot be stored in a column of this type".to_string()),
        }
    }

    /// Whether this value is `Bool(true)`.
    pub fn is_truthy(&self) -> (t: bool)
        ensures
            t == self@.truthy(),
    {
        match self {
            Value::Bool(b) => *b,
            _ => false,
        }
    }

    /// Whether the two values are the same variant with the same content.
    pub fn same_as(&self, other: &Value) -> (same: bool)
        ensures
            same == (self@ == other@),
    {
        match (self, other) {
            (Value::Int64(a), Value::Int64(b)) => *a == *b,
            (Value::Float64(a), Value::Float64(b)) => *a == *b,
            (Value::Text(a), Value::Text(b)) => crate::text::str_eq(a.as_str(), b.as_str()),
            (Value::Bool(a), Value::Bool(b)) => *a == *b,
            (Value::Null, Value::Null) => true,
            _ => false,
        }
    }

    /// A copy of this value.
    pub fn duplicate(&self) -> (copy: Value)
        ensures
            copy@ == self@,
    {
        match self {
            Value::Int64(a) => Value::Int64(*a),
            Value::Float64(a) => Value::Float64(*a),
            Value::Text(a) => Value::Text(a.clone()),
            Value::Bool(a) => Value::Bool(*a),
            Value::Null => Value::Null,
        }
    }
}

} // verus!
