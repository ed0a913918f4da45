//! The null bitmap that leads every encoded row: one bit per column, least
//! significant bit first within each byte.

use crate::error::DatabaseError;
use vstd::prelude::*;

verus! {

/// The number of bytes that a bitmap for `num_columns` columns takes.
pub open spec fn bitmap_len(num_columns: int) -> int {
    (num_columns + 7) / 8
}

/// Whether bit `index` of `bytes` is set. A bit beyond the last byte is not.
pub open spec fn bit_is_set(bytes: Seq<u8>, index: int) -> bool {
    index / 8 < bytes.len() && bytes[index / 8] & (1u8 << ((index % 8) as u8)) != 0u8
}

/// `bytes` with bit `index` set.
pub open spec fn with_bit(bytes: Seq<u8>, index: int) -> Seq<u8> {
    bytes.update(index / 8, bytes[index / 8] | (1u8 << ((index % 8) as u8)))
}

/// Setting one bit sets that bit and no other.
pub proof fn lemma_with_bit(bytes: Seq<u8>, index: int, other: int)
    requires
        0 <= index,
        0 <= other,
        index / 8 < bytes.len(),
    ensures
        bit_is_set(with_bit(bytes, index), other) == (other == index || bit_is_set(bytes, other)),
{
    let b = bytes[index / 8];
    let i = (index % 8) as u8;
    let j = (other % 8) as u8;
    if other / 8 == index / 8 {
        assert(i < 8 && j < 8 ==> (((b | (1u8 << i)) & (1u8 << j) != 0u8) == (i == j || (b & (1u8
            << j) != 0u8)))) by (bit_vector);
    }
}

/// A bitmap with one bit per column of a row; a set bit marks a null.
#[derive(Debug, Clone)]
pub struct NullBitmap {
    pub bytes: Vec<u8>,
}

impl NullBitmap {
    /// Whether the bitmap marks column `index` as null.
    pub open spec fn marks(self, index: int) -> bool {
        bit_is_set(self.bytes@, index)
    }

    /// A bitmap for `num_columns` columns with no bit set.
    pub fn new(num_columns: usize) -> (bitmap: Self)
        ensures
            bitmap.bytes@ == Seq::new(bitmap_len(num_columns as int) as nat, |i: int| 0u8),
            forall|i: int| 0 <= i ==> !bitmap.marks(i),
    {
        let bitmap_size: usize = num_columns / 8 + if num_columns % 8 != 0 {
            1
        } else {
            0
        };
        let mut bytes: Vec<u8> = Vec::new();
        let mut i: usize = 0;
        while i < bitmap_size
            invariant
                i <= bitmap_size,
                bytes@ == Seq::new(i as nat, |k: int| 0u8),
            decreases bitmap_size - i,
        {
            bytes.push(0u8);
            i += 1;
            assert(bytes@ =~= Seq::new(i as nat, |k: int| 0u8));
        }
        let bitmap = Self { bytes };
        assert forall|i: int| 0 <= i implies !bitmap.marks(i) by {
            let s = ((i % 8) as u8);
            assert(0u8 & (1u8 << s) == 0u8) by (bit_vector);
        }
        bitmap
    }

    /// Reads the bitmap for `num_columns` columns from the start of `bytes`.
    ///
    /// Fails with `SerializationError` when `bytes` is shorter than the bitmap.
    pub fn from_bytes(bytes: &[u8], num_columns: usize) -> (r: Result<Self, DatabaseError>)
        ensures
            r is Ok <==> bytes@.len() >= bitmap_len(num_columns as int),
            r matches Ok(bitmap) ==> bitmap.bytes@ == bytes@.subrange(
                0,
                bitmap_len(num_columns as int),
            ),
            r matches Err(e) ==> e is SerializationError,
    {
        let expected_len: usize = num_columns / 8 + if num_columns % 8 != 0 {
            1
        } else {
            0
        };
        if bytes.len() < expected_len {
            return Err(DatabaseError::SerializationError("Bitmap too short".to_string()));
        }
        let mut out: Vec<u8> = Vec::new();
        let mut i: usize = 0;
        while i < expected_len
            invariant
                i <= expected_len,
                expected_len <= bytes@.len(),
                out@ == bytes@.subrange(0, i as int),
            decreases expected_len - i,
        {
            out.push(bytes[i]);
            i += 1;
            assert(out@ =~= bytes@.subrange(0, i as int));
        }
        Ok(Self { bytes: out })
    }

    /// Marks column `index` as null.
    pub fn set_null(&mut self, index: usize)
        requires
            index / 8 < old(self).bytes@.len(),
        ensures
            final(self).bytes@ == with_bit(old(self).bytes@, index as int),
            forall|i: int| 0 <= i ==> final(self).marks(i) == (i == index || old(self).marks(i)),
    {
        let byte_idx: usize = index / 8;
        let bit_idx: u8 = (index % 8) as u8;
        let byte: u8 = self.bytes[byte_idx];
        assert(1u8 << bit_idx == 1u8 << ((index as int % 8) as u8));
        self.bytes[byte_idx] = byte | (1u8 << bit_idx);
        proof {
            assert(self.bytes@ =~= with_bit(old(self).bytes@, index as int));
            assert forall|i: int| 0 <= i implies self.marks(i) == (i == index || old(self).marks(
                i,
            )) by {
                lemma_with_bit(old(self).bytes@, index as int, i);
            }
        }
    }

    /// Whether column `index` is marked as null. A column beyond the bitmap is not.
    pub fn is_null(&self, index: usize) -> (null: bool)
        ensures
            null == self.marks(index as int),
    {
        let byte_idx: usize = index / 8;
        let bit_idx: u8 = (index % 8) as u8;
        if byte_idx >= self.bytes.len() {
            return false;
        }
        (self.bytes[byte_idx] & (1u8 << bit_idx)) != 0
    }
}

} // verus!
