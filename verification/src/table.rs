//! Columns, schemas, rows and table definitions, with the row codec and the
//! insert-time validation of a row against a schema.

use crate::bytes::{push_u32_le, push_u64_le, read_u32_le, read_u64_le};
use crate::codec::{
    decode_from, decode_row, decode_value, encode_from, encode_row, encode_value, null_bits,
    row_storable, value_storable,
};
use crate::error::DatabaseError;
use crate::null_bitmap::{bitmap_len, NullBitmap};
use crate::text::{str_eq, string_from_utf8};
use crate::types::{values_view, DataType, Value, ValueView};
use vstd::prelude::*;
use vstd::slice::*;
use vstd::string::*;
use vstd::utf8::*;

verus! {

/// One column of a schema: its name, its type, and whether it accepts nulls.
#[derive(Debug, Clone, PartialEq)]
pub struct ColumnDef {
    pub name: String,
    pub data_type: DataType,
    pub nullable: bool,
}

impl ColumnDef {
    pub fn new(name: &str, data_type: DataType, nullable: bool) -> (column: Self)
        ensures
            column.name@ == name@,
            column.data_type == data_type,
            column.nullable == nullable,
    {
        Self { name: name.to_owned(), data_type, nullable }
    }
}

/// An ordered vector of values, one per column of a schema.
#[derive(Debug, Clone, PartialEq)]
pub struct Row {
    pub values: Vec<Value>,
}

impl View for Row {
    type V = Seq<ValueView>;

    open spec fn view(&self) -> Seq<ValueView> {
        values_view(self.values@)
    }
}

impl Row {
    pub fn new(values: Vec<Value>) -> (row: Self)
        ensures
            row.values == values,
    {
        Self { values }
    }

    /// The value of column `index`, or `None` beyond the last column.
    pub fn get_value(&self, index: usize) -> (value: Option<&Value>)
        ensures
            index < self.values@.len() ==> value == Some(&self.values@[index as int]),
            index >= self.values@.len() ==> value is None,
    {
        if index < self.values.len() {
            Some(&self.values[index])
        } else {
            None
        }
    }

    /// A copy of this row.
    pub fn duplicate(&self) -> (copy: Row)
        ensures
            copy@ == self@,
    {
        let mut values: Vec<Value> = Vec::new();
        let n: usize = self.values.len();
        let mut i: usize = 0;
        while i < n
            invariant
                i <= n,
                n == self.values@.len(),
                values@.len() == i,
                forall|k: int| 0 <= k < i ==> values@[k]@ == self.values@[k]@,
            decreases n - i,
        {
            values.push(self.values[i].duplicate());
            i += 1;
        }
        let copy = Row { values };
        assert(copy@ =~= self@);
        copy
    }
}

/// An ordered list of column definitions.
#[derive(Debug, Clone, PartialEq)]
pub struct Schema {
    pub columns: Vec<ColumnDef>,
}

impl Schema {
    /// The types of the columns, in order.
    pub open spec fn types(self) -> Seq<DataType> {
        Seq::new(self.columns@.len(), |i: int| self.columns@[i].data_type)
    }

    /// The names of the columns, in order.
    pub open spec fn names(self) -> Seq<Seq<char>> {
        Seq::new(self.columns@.len(), |i: int| self.columns@[i].name@)
    }

    /// The insert-time rule: one value per column; a null only where the
    /// column is nullable; any other value of a kind that fits the column's type.
    pub open spec fn accepts(self, row: Seq<ValueView>) -> bool {
        &&& row.len() == self.columns@.len()
        &&& forall|i: int|
            0 <= i < row.len() ==> if (#[trigger] row[i]) is Null {
                self.columns@[i].nullable
            } else {
                row[i].fits(self.columns@[i].data_type)
            }
    }

    /// Whether the value of column `i` breaks the rule of [`Schema::accepts`].
    pub open spec fn rejects_at(self, row: Seq<ValueView>, i: int) -> bool {
        &&& 0 <= i < row.len()
        &&& !(if row[i] is Null {
            self.columns@[i].nullable
        } else {
            row[i].fits(self.columns@[i].data_type)
        })
    }

    pub fn new(columns: Vec<ColumnDef>) -> (schema: Self)
        ensures
            schema.columns == columns,
    {
        Self { columns }
    }

    /// The index of the first column named `name`.
    pub fn get_column_index(&self, name: &str) -> (index: Option<usize>)
        ensures
            match index {
                Some(i) => i < self.columns@.len() && self.columns@[i as int].name@ == name@
                    && forall|k: int| 0 <= k < i ==> self.columns@[k].name@ != name@,
                None => forall|k: int| 0 <= k < self.columns@.len() ==> self.columns@[k].name@ != name@,
            },
    {
        let n: usize = self.columns.len();
        let mut i: usize = 0;
        while i < n
            invariant
                i <= n,
                n == self.columns@.len(),
                forall|k: int| 0 <= k < i ==> self.columns@[k].name@ != name@,
            decreases n - i,
        {
            if str_eq(self.columns[i].name.as_str(), name) {
                return Some(i);
            }
            i += 1;
        }
        None
    }

    /// Checks a row against the insert-time rule.
    ///
    /// Fails with `TypeMismatch` exactly when the schema does not accept the row.
    pub fn validate(&self, row: &Row) -> (r: Result<(), DatabaseError>)
        ensures
            r is Ok <==> self.accepts(row@),
            r matches Err(e) ==> e is TypeMismatch,
    {
        let n: usize = self.columns.len();
        if row.values.len() != n {
            return Err(
                DatabaseError::TypeMismatch("Row length doesn't match schema".to_string()),
            );
        }
        let mut i: usize = 0;
        while i < n
            invariant
                i <= n,
                n == self.columns@.len(),
                n == row.values@.len(),
                forall|k: int|
                    0 <= k < i ==> if (#[trigger] row@[k]) is Null {
                        self.columns@[k].nullable
                    } else {
                        row@[k].fits(self.columns@[k].data_type)
                    },
            decreases n - i,
        {
            let column = &self.columns[i];
            let value = &row.values[i];
            assert(row@[i as int] == value@);
            match value {
                Value::Null => {
                    if !column.nullable {
                        assert(self.rejects_at(row@, i as int));
                        return Err(
                            DatabaseError::TypeMismatch(
                                String::from_str("Column cannot be null: ").concat(
                                    column.name.as_str(),
                                ),
                            ),
                        );
                    }
                },
                _ => {
                    if let Err(msg) = value.is_compatible_with(&column.data_type) {
                        assert(self.rejects_at(row@, i as int));
                        return Err(DatabaseError::TypeMismatch(msg));
                    }
                },
            }
            i += 1;
        }
        Ok(())
    }

    /// Encodes a row for storage: the null bitmap, then the payload of every
    /// value that is not null.
    ///
    /// Fails with `TypeMismatch` exactly when the row is not storable: it has
    /// the wrong number of values, a value of a kind that does not fit its
    /// column, a text longer than its `VarChar` allows, or a text of 4 GiB or more.
    pub fn encode(&self, row: &Row) -> (r: Result<Vec<u8>, DatabaseError>)
        ensures
            r is Ok <==> row_storable(self.types(), row@),
            r matches Ok(bytes) ==> bytes@ == encode_row(row@),
            r matches Err(e) ==> e is TypeMismatch,
    {
        let n: usize = self.columns.len();
        if row.values.len() != n {
            return Err(
                DatabaseError::TypeMismatch("Row length doesn't match schema".to_string()),
            );
        }
        let mut bitmap = NullBitmap::new(n);
        let mut i: usize = 0;
        while i < n
            invariant
                i <= n,
                n == row.values@.len(),
                bitmap.bytes@.len() == bitmap_len(n as int),
                bitmap.bytes@ == null_bits(row@, n as int, i as int),
            decreases n - i,
        {
            let value = &row.values[i];
            assert(row@[i as int] == value@);
            if let Value::Null = value {
                bitmap.set_null(i);
            }
            i += 1;
        }
        let mut bytes: Vec<u8> = bitmap.bytes;
        let mut j: usize = 0;
        while j < n
            invariant
                j <= n,
                n == row.values@.len(),
                n == self.columns@.len(),
                bytes@ + encode_from(row@, j as int) == encode_row(row@),
                forall|k: int| 0 <= k < j ==> value_storable(#[trigger] row@[k], self.types()[k]),
            decreases n - j,
        {
            let value = &row.values[j];
            let column = &self.columns[j];
            let ghost before = bytes@;
            assert(row@[j as int] == value@);
            assert(self.types()[j as int] == column.data_type);
            match (column.data_type, value) {
                (_, Value::Null) => {},
                (DataType::Int64, Value::Int64(number)) => {
                    push_u64_le(&mut bytes, *number as u64);
                },
                (DataType::Float64, Value::Float64(bits)) => {
                    push_u64_le(&mut bytes, *bits);
                },
                (DataType::Text, Value::Text(text)) => {
                    let text_bytes = text.as_str().as_bytes();
                    if text_bytes.len() > 0xffff_ffff {
                        return Err(
                            DatabaseError::TypeMismatch("Text is too long to store".to_string()),
                        );
                    }
                    push_u32_le(&mut bytes, text_bytes.len() as u32);
                    append_bytes(&mut bytes, text_bytes);
                },
                (DataType::VarChar(max_length), Value::Text(text)) => {
                    let text_bytes = text.as_str().as_bytes();
                    if text_bytes.len() > max_length as usize {
                        return Err(
                            DatabaseError::TypeMismatch(
                                "Text exceeds VARCHAR limit".to_string(),
                            ),
                        );
                    }
                    push_u32_le(&mut bytes, text_bytes.len() as u32);
                    append_bytes(&mut bytes, text_bytes);
                },
                (DataType::Bool, Value::Bool(b)) => {
                    bytes.push(
                        if *b {
                            1
                        } else {
                            0
                        },
                    );
                },
                _ => {
                    return Err(
                        DatabaseError::TypeMismatch(
                            "Column type and value do not go together".to_string(),
                        ),
                    );
                },
            }
            assert(bytes@ =~= before + encode_value(row@[j as int]));
            assert(bytes@ + encode_from(row@, j + 1) =~= before + encode_from(row@, j as int));
            j += 1;
        }
        assert(bytes@ =~= encode_row(row@));
        Ok(bytes)
    }

    /// Decodes a row from its stored bytes.
    ///
    /// Fails with `SerializationError` exactly when the bytes encode no row of
    /// this schema: they end too early, a text is not valid UTF-8, or a column
    /// of a type without an encoding is not null.
    pub fn decode(&self, bytes: &[u8]) -> (r: Result<Row, DatabaseError>)
        ensures
            r is Ok <==> decode_row(self.types(), bytes@) is Some,
            r matches Ok(row) ==> Some(row@) == decode_row(self.types(), bytes@),
            r matches Err(e) ==> e is SerializationError,
    {
        let n: usize = self.columns.len();
        let bitmap = match NullBitmap::from_bytes(bytes, n) {
            Ok(bitmap) => bitmap,
            Err(e) => {
                return Err(e);
            },
        };
        let total: usize = bytes.len();
        let mut values: Vec<Value> = Vec::new();
        let mut offset: usize = bitmap.bytes.len();
        let ghost types = self.types();
        let mut idx: usize = 0;
        while idx < n
            invariant
                idx <= n,
                n == self.columns@.len(),
                types == self.types(),
                total == bytes@.len(),
                offset <= total,
                bitmap.bytes@ == bytes@.subrange(0, bitmap_len(n as int)),
                values@.len() == idx,
                decode_row(types, bytes@) == match decode_from(
                    types,
                    bitmap.bytes@,
                    bytes@,
                    idx as int,
                    offset as int,
                ) {
                    Some(rest) => Some(values_view(values@) + rest),
                    None => None,
                },
            decreases n - idx,
        {
            let column = &self.columns[idx];
            let ghost done = values_view(values@);
            let ghost here = bytes@.skip(offset as int);
            assert(types[idx as int] == column.data_type);
            if bitmap.is_null(idx) {
                values.push(Value::Null);
                assert(values_view(values@) =~= done + seq![ValueView::Null]);
                proof {
                    lemma_append_prepend(
                        done,
                        ValueView::Null,
                        decode_from(types, bitmap.bytes@, bytes@, idx + 1, offset as int),
                    );
                }
                idx += 1;
                continue ;
            }
            let ghost next: int;
            match column.data_type {
                DataType::Int64 => {
                    if total - offset < 8 {
                        return Err(
                            DatabaseError::SerializationError(
                                "Not enough bytes for integer value".to_string(),
                            ),
                        );
                    }
                    let raw: u64 = read_u64_le(bytes, offset);
                    assert(here.subrange(0, 8) =~= bytes@.subrange(offset as int, offset + 8));
                    values.push(Value::Int64(raw as i64));
                    offset += 8;
                },
                DataType::Float64 => {
                    if total - offset < 8 {
                        return Err(
                            DatabaseError::SerializationError(
                                "Not enough bytes for float value".to_string(),
                            ),
                        );
                    }
                    let raw: u64 = read_u64_le(bytes, offset);
                    assert(here.subrange(0, 8) =~= bytes@.subrange(offset as int, offset + 8));
                    values.push(Value::Float64(raw));
                    offset += 8;
                },
                DataType::Bool => {
                    if total - offset < 1 {
                        return Err(
                            DatabaseError::SerializationError(
                                "Not enough bytes for boolean value".to_string(),
                            ),
                        );
                    }
                    let raw_byte: u8 = bytes[offset];
                    values.push(Value::Bool(raw_byte != 0));
                    offset += 1;
                },
                DataType::Text | DataType::VarChar(_) => {
                    if total - offset < 4 {
                        return Err(
                            DatabaseError::SerializationError(
                                "Not enough bytes for string length".to_string(),
                            ),
                        );
                    }
                    let length: usize = read_u32_le(bytes, offset) as usize;
                    assert(here.subrange(0, 4) =~= bytes@.subrange(offset as int, offset + 4));
                    if total - offset - 4 < length {
                        return Err(
                            DatabaseError::SerializationError(
                                "Not enough bytes for string content".to_string(),
                            ),
                        );
                    }
                    let start: usize = offset + 4;
                    let text_bytes = slice_to_vec(slice_subrange(bytes, start, start + length));
                    assert(here.subrange(4, 4 + length) =~= text_bytes@);
                    match string_from_utf8(text_bytes) {
                        Some(text) => {
                            values.push(Value::Text(text));
                            offset = start + length;
                        },
                        None => {
                            return Err(
                                DatabaseError::SerializationError(
                                    "Invalid UTF-8 sequence".to_string(),
                                ),
                            );
                        },
                    }
                },
                DataType::Timestamp => {
                    return Err(
                        DatabaseError::SerializationError(
                            "Timestamp values have no encoding".to_string(),
                        ),
                    );
                },
            }
            proof {
                let (v, used) = decode_value(types[idx as int], here)->Some_0;
                assert(values_view(values@) =~= done + seq![v]);
                lemma_append_prepend(
                    done,
                    v,
                    decode_from(types, bitmap.bytes@, bytes@, idx + 1, offset as int),
                );
            }
            idx += 1;
        }
        let row = Row::new(values);
        assert(row@ =~= values_view(values@) + Seq::empty());
        Ok(row)
    }
}

/// Putting `v` at the end of `done` and then the tail, or `v` in front of
/// the tail and then `done` in front of both, is the same.
proof fn lemma_append_prepend(done: Seq<ValueView>, v: ValueView, tail: Option<Seq<ValueView>>)
    ensures
        (match crate::codec::prepend(v, tail) {
            Some(rest) => Some(done + rest),
            None => None,
        }) == (match tail {
            Some(rest) => Some((done + seq![v]) + rest),
            None => None::<Seq<ValueView>>,
        }),
{
    if let Some(rest) = tail {
        assert(done + (seq![v] + rest) =~= (done + seq![v]) + rest);
    }
}

/// Appends all of `more` to `out`.
fn append_bytes(out: &mut Vec<u8>, more: &[u8])
    ensures
        final(out)@ == old(out)@ + more@,
{
    let n: usize = more.len();
    let mut i: usize = 0;
    while i < n
        invariant
            i <= n,
            n == more@.len(),
            out@ == old(out)@ + more@.take(i as int),
        decreases n - i,
    {
        out.push(more[i]);
        i += 1;
        assert(out@ =~= old(out)@ + more@.take(i as int));
    }
    assert(more@.take(n as int) =~= more@);
}

/// A table: a name and the schema of its rows. The rows themselves live in
/// the pages of the buffer pool.
#[derive(Debug, Clone)]
pub struct TableDef {
    pub name: String,
    pub schema: Schema,
}

impl TableDef {
    pub fn new(name: String, schema: Schema) -> (table: Self)
        ensures
            table.name == name,
            table.schema == schema,
    {
        Self { name, schema }
    }

    pub fn name(&self) -> (name: &str)
        ensures
            name@ == self.name@,
    {
        self.name.as_str()
    }

    pub fn schema(&self) -> (schema: &Schema)
        ensures
            *schema == self.schema,
    {
        &self.schema
    }

    /// Checks that `row` may be inserted into this table. The table itself
    /// holds no rows and is left as it is.
    ///
    /// Fails with `TypeMismatch` exactly when the schema does not accept the row.
    pub fn insert_row(&mut self, row: Row) -> (r: Result<(), DatabaseError>)
        ensures
            *final(self) == *old(self),
            r is Ok <==> old(self).schema.accepts(row@),
            r matches Err(e) ==> e is TypeMismatch,
    {
        self.schema.validate(&row)
    }
}

} // verus!
