//! The on-disk encoding of a row, stated over sequences: a null bitmap, then
//! the payload of every column that is not null, in column order.

use crate::bytes::{
    i64_from_le, i64_le, lemma_i64_round_trip, lemma_u32_round_trip, lemma_u64_round_trip,
    u32_from_le, u32_le, u64_from_le, u64_le,
};
use crate::null_bitmap::{bit_is_set, bitmap_len, lemma_with_bit, with_bit};
use crate::types::{DataType, ValueView};
use vstd::prelude::*;
use vstd::utf8::*;

verus! {

/// The payload of one value. A null has none.
pub open spec fn encode_value(v: ValueView) -> Seq<u8> {
    match v {
        ValueView::Int64(n) => i64_le(n),
        ValueView::Float64(bits) => u64_le(bits),
        ValueView::Bool(b) => seq![if b { 1u8 } else { 0u8 }],
        ValueView::Text(s) => u32_le(encode_utf8(s).len() as u32) + encode_utf8(s),
        ValueView::Null => Seq::empty(),
    }
}

/// The payloads of the values from index `i` on, one after the other.
pub open spec fn encode_from(row: Seq<ValueView>, i: int) -> Seq<u8>
    decreases row.len() - i,
{
    if i < 0 || i >= row.len() {
        Seq::empty()
    } else {
        encode_value(row[i]) + encode_from(row, i + 1)
    }
}

/// The bitmap for `columns` columns in which, of the first `k` values, exactly
/// the nulls are marked.
pub open spec fn null_bits(row: Seq<ValueView>, columns: int, k: int) -> Seq<u8>
    decreases k,
{
    if k <= 0 {
        Seq::new(bitmap_len(columns) as nat, |i: int| 0u8)
    } else if row[k - 1] is Null {
        with_bit(null_bits(row, columns, k - 1), k - 1)
    } else {
        null_bits(row, columns, k - 1)
    }
}

/// The encoding of a row: its null bitmap, then its payloads.
pub open spec fn encode_row(row: Seq<ValueView>) -> Seq<u8> {
    null_bits(row, row.len() as int, row.len() as int) + encode_from(row, 0)
}

/// Whether `v` can be written into a column of type `t`: it is null, or it
/// fits the type and, being a text, has a length that four bytes can hold.
pub open spec fn value_storable(v: ValueView, t: DataType) -> bool {
    v is Null || (v.fits(t) && (v matches ValueView::Text(s) ==> encode_utf8(s).len()
        <= 0xffff_ffff))
}

/// Whether a row can be written into columns of the given types.
pub open spec fn row_storable(types: Seq<DataType>, row: Seq<ValueView>) -> bool {
    &&& row.len() == types.len()
    &&& forall|i: int| 0 <= i < row.len() ==> value_storable(#[trigger] row[i], types[i])
}

/// The value of type `t` at the start of `bytes`, with the number of bytes it
/// takes; `None` where the bytes end too early or a text is not UTF-8.
pub open spec fn decode_value(t: DataType, bytes: Seq<u8>) -> Option<(ValueView, int)> {
    match t {
        DataType::Int64 => if bytes.len() >= 8 {
            Some((ValueView::Int64(i64_from_le(bytes.subrange(0, 8))), 8))
        } else {
            None
        },
        DataType::Float64 => if bytes.len() >= 8 {
            Some((ValueView::Float64(u64_from_le(bytes.subrange(0, 8))), 8))
        } else {
            None
        },
        DataType::Bool => if bytes.len() >= 1 {
            Some((ValueView::Bool(bytes[0] != 0), 1))
        } else {
            None
        },
        DataType::Text | DataType::VarChar(_) => if bytes.len() >= 4 {
            let n = u32_from_le(bytes.subrange(0, 4)) as int;
            if bytes.len() >= 4 + n && valid_utf8(bytes.subrange(4, 4 + n)) {
                Some((ValueView::Text(decode_utf8(bytes.subrange(4, 4 + n))), 4 + n))
            } else {
                None
            }
        } else {
            None
        },
        DataType::Timestamp => None,
    }
}

/// `head` in front of the values of `tail`, where there are any.
pub open spec fn prepend(head: ValueView, tail: Option<Seq<ValueView>>) -> Option<Seq<ValueView>> {
    match tail {
        Some(rest) => Some(seq![head] + rest),
        None => None,
    }
}

/// The values of the columns from index `i` on, read from `bytes` at `offset`:
/// a column that the bitmap marks is null and takes no bytes.
pub open spec fn decode_from(
    types: Seq<DataType>,
    bitmap: Seq<u8>,
    bytes: Seq<u8>,
    i: int,
    offset: int,
) -> Option<Seq<ValueView>>
    decreases types.len() - i,
{
    if i < 0 || i >= types.len() {
        Some(Seq::empty())
    } else if bit_is_set(bitmap, i) {
        prepend(ValueView::Null, decode_from(types, bitmap, bytes, i + 1, offset))
    } else {
        match decode_value(types[i], bytes.skip(offset)) {
            None => None,
            Some((v, used)) => prepend(v, decode_from(types, bitmap, bytes, i + 1, offset + used)),
        }
    }
}

/// The row that `bytes` encode for columns of the given types, if they encode one.
pub open spec fn decode_row(types: Seq<DataType>, bytes: Seq<u8>) -> Option<Seq<ValueView>> {
    let n = bitmap_len(types.len() as int);
    if bytes.len() < n {
        None
    } else {
        decode_from(types, bytes.subrange(0, n), bytes, 0, n)
    }
}

/// The null bitmap of a row has the length that its column count asks for,
/// and bit `i` is set exactly when value `i` is null.
pub proof fn lemma_null_bits(row: Seq<ValueView>, columns: int, k: int)
    requires
        0 <= k <= columns,
        k <= row.len(),
    ensures
        null_bits(row, columns, k).len() == bitmap_len(columns),
        forall|i: int|
            0 <= i ==> bit_is_set(null_bits(row, columns, k), i) == (i < k && row[i] is Null),
    decreases k,
{
    if k <= 0 {
        assert forall|i: int| 0 <= i implies !bit_is_set(null_bits(row, columns, k), i) by {
            let s = ((i % 8) as u8);
            assert(0u8 & (1u8 << s) == 0u8) by (bit_vector);
        }
    } else {
        lemma_null_bits(row, columns, k - 1);
        let before = null_bits(row, columns, k - 1);
        if row[k - 1] is Null {
            assert forall|i: int| 0 <= i implies bit_is_set(null_bits(row, columns, k), i) == (i
                < k && row[i] is Null) by {
                lemma_with_bit(before, k - 1, i);
            }
        }
    }
}

/// Reading a stored value back from its payload, whatever follows it, gives
/// the value and the payload's length.
pub proof fn lemma_decode_value(t: DataType, v: ValueView, rest: Seq<u8>)
    requires
        value_storable(v, t),
        !(v is Null),
    ensures
        decode_value(t, encode_value(v) + rest) == Some((v, encode_value(v).len() as int)),
{
    let e = encode_value(v);
    let all = e + rest;
    match v {
        ValueView::Int64(n) => {
            lemma_i64_round_trip(n);
            assert(all.subrange(0, 8) =~= e);
        },
        ValueView::Float64(bits) => {
            lemma_u64_round_trip(bits);
            assert(all.subrange(0, 8) =~= e);
        },
        ValueView::Bool(b) => {
            assert(all[0] == e[0]);
        },
        ValueView::Text(s) => {
            let utf8 = encode_utf8(s);
            let n = utf8.len() as u32;
            lemma_u32_round_trip(n);
            assert(all.subrange(0, 4) =~= u32_le(n));
            assert(all.subrange(4, 4 + n) =~= utf8);
            encode_utf8_valid_utf8(s);
            encode_utf8_decode_utf8(s);
        },
        ValueView::Null => {},
    }
}

/// Reading the columns from `i` on, at the place where their payloads start,
/// gives the values from `i` on.
pub proof fn lemma_decode_from(
    types: Seq<DataType>,
    row: Seq<ValueView>,
    bitmap: Seq<u8>,
    bytes: Seq<u8>,
    i: int,
    offset: int,
)
    requires
        row_storable(types, row),
        0 <= i <= row.len(),
        0 <= offset <= bytes.len(),
        forall|k: int| 0 <= k < row.len() ==> bit_is_set(bitmap, k) == (row[k] is Null),
        bytes.skip(offset) == encode_from(row, i),
    ensures
        decode_from(types, bitmap, bytes, i, offset) == Some(row.skip(i)),
    decreases row.len() - i,
{
    if i >= row.len() {
        assert(row.skip(i) =~= Seq::empty());
    } else {
        let e = encode_value(row[i]);
        let rest = encode_from(row, i + 1);
        assert(value_storable(row[i], types[i]));
        assert(bytes.skip(offset + e.len()) =~= rest) by {
            assert(bytes.skip(offset) == e + rest);
            assert(bytes.skip(offset).skip(e.len() as int) =~= rest);
            assert(bytes.skip(offset).skip(e.len() as int) =~= bytes.skip(offset + e.len()));
        }
        assert(offset + e.len() <= bytes.len()) by {
            assert(bytes.skip(offset).len() == e.len() + rest.len());
        }
        lemma_decode_from(types, row, bitmap, bytes, i + 1, offset + e.len());
        if !(row[i] is Null) {
            lemma_decode_value(types[i], row[i], rest);
        }
        assert(seq![row[i]] + row.skip(i + 1) =~= row.skip(i));
    }
}

/// Row round trip: decoding the encoding of a storable row gives the row back.
pub proof fn lemma_row_round_trip(types: Seq<DataType>, row: Seq<ValueView>)
    requires
        row_storable(types, row),
    ensures
        decode_row(types, encode_row(row)) == Some(row),
{
    let n = row.len() as int;
    let bitmap = null_bits(row, n, n);
    let bytes = encode_row(row);
    lemma_null_bits(row, n, n);
    assert(bytes.subrange(0, bitmap_len(n)) =~= bitmap);
    assert(bytes.skip(bitmap_len(n)) =~= encode_from(row, 0));
    lemma_decode_from(types, row, bitmap, bytes, 0, bitmap_len(n));
    assert(row.skip(0) =~= row);
}

/// What decoding gives for the columns from `i` on, where it gives
/// anything: one value per column, a null exactly where the bitmap marks
/// the column.
pub proof fn lemma_decoded_nulls(
    types: Seq<DataType>,
    bitmap: Seq<u8>,
    bytes: Seq<u8>,
    i: int,
    offset: int,
)
    requires
        0 <= i <= types.len(),
    ensures
        decode_from(types, bitmap, bytes, i, offset) matches Some(values) ==> values.len()
            == types.len() - i && forall|k: int|
            0 <= k < values.len() ==> (#[trigger] values[k] is Null) == bit_is_set(bitmap, i + k),
    decreases types.len() - i,
{
    if i < types.len() {
        if bit_is_set(bitmap, i) {
            lemma_decoded_nulls(types, bitmap, bytes, i + 1, offset);
        } else {
            match decode_value(types[i], bytes.skip(offset)) {
                None => {},
                Some((v, used)) => {
                    lemma_decoded_nulls(types, bitmap, bytes, i + 1, offset + used);
                },
            }
        }
    }
}

/// A decoded row has one value per column, and a null exactly in the
/// columns whose bit is set in the leading bitmap.
pub proof fn lemma_decode_row_nulls(types: Seq<DataType>, bytes: Seq<u8>)
    ensures
        decode_row(types, bytes) matches Some(row) ==> row.len() == types.len() && forall|k: int|
            0 <= k < row.len() ==> (#[trigger] row[k] is Null) == bit_is_set(
                bytes.subrange(0, bitmap_len(types.len() as int)),
                k,
            ),
{
    let n = bitmap_len(types.len() as int);
    if bytes.len() >= n {
        lemma_decoded_nulls(types, bytes.subrange(0, n), bytes, 0, n);
    }
}

/// Null bitmap correctness: in the encoding of a row, bit `i` of the leading
/// bitmap is set exactly when value `i` is null, and where decoding succeeds,
/// it gives a null exactly for the columns whose bit is set.
pub proof fn lemma_null_bitmap_correct(types: Seq<DataType>, row: Seq<ValueView>, i: int)
    requires
        row_storable(types, row),
        0 <= i < row.len(),
    ensures
        bit_is_set(encode_row(row).subrange(0, bitmap_len(row.len() as int)), i) == (row[i] is Null),
        decode_row(types, encode_row(row)) matches Some(back) && (back[i] is Null) == bit_is_set(
            encode_row(row).subrange(0, bitmap_len(row.len() as int)),
            i,
        ),
{
    let n = row.len() as int;
    lemma_null_bits(row, n, n);
    assert(encode_row(row).subrange(0, bitmap_len(n)) =~= null_bits(row, n, n));
    lemma_row_round_trip(types, row);
}

} // verus!
