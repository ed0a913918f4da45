//! The slotted page: a fixed-size block with a header, an array of item
//! pointers that grows upward and a tuple heap that grows downward.

use crate::bytes::{lemma_u16_round_trip, lemma_u32_round_trip, read_u32_le, u16_from_le, u16_le, u32_from_le, u32_le};
use crate::error::DatabaseError;
use vstd::prelude::*;

verus! {

/// The size in bytes of every page, in memory and on disk.
pub const PAGE_SIZE: usize = 8192;

/// The position of a page within its table's file.
pub type PageId = u32;

/// The position of an item within its page.
pub type ItemId = u16;

/// What a page is used for.
#[derive(Debug, Clone, Copy, PartialEq, Eq)]
pub enum PageType {
    BTreeInternal { parent_page_id: Option<PageId>, level: u16 },
    BTreeLeaf { next_leaf_page: Option<PageId>, prev_leaf_page: Option<PageId> },
    Table,
    Catalog,
}

impl PageType {
    /// Whether a page of this type has a byte encoding. Only table and
    /// catalog pages do.
    pub open spec fn is_storable(self) -> bool {
        self is Table || self is Catalog
    }

    /// The byte that stands for this type in an encoded header.
    pub open spec fn tag(self) -> u8 {
        match self {
            PageType::Table => 0,
            PageType::Catalog => 1,
            PageType::BTreeInternal { .. } => 2,
            PageType::BTreeLeaf { .. } => 3,
        }
    }

    /// The storable type that `tag` stands for.
    pub open spec fn from_tag(tag: u8) -> PageType {
        if tag == 0 {
            PageType::Table
        } else {
            PageType::Catalog
        }
    }
}

/// The bookkeeping at the start of every page.
#[derive(Debug, Clone, Copy, PartialEq)]
pub struct PageHeader {
    /// The page's position in its file.
    pub page_id: PageId,
    pub page_type: PageType,
    /// The end of the item-pointer array, as an offset from the page start.
    pub lower: u16,
    /// The start of the tuple heap, as an offset from the page start.
    pub upper: u16,
    /// The number of item pointers, deleted ones included.
    pub item_count: u16,
    /// The start of the special region at the end of the page.
    pub special: u16,
}

impl PageHeader {
    /// The size in bytes of an encoded header.
    pub const SIZE: u16 = 24;

    /// The 24 bytes that encode this header: the fields in little-endian
    /// order, padded with zeros.
    pub open spec fn encode(self) -> Seq<u8> {
        u32_le(self.page_id) + seq![self.page_type.tag()] + u16_le(self.lower) + u16_le(
            self.upper,
        ) + u16_le(self.item_count) + u16_le(self.special) + Seq::new(11, |i: int| 0u8)
    }

    /// The header that the first 13 of the bytes `s` encode.
    pub open spec fn decode(s: Seq<u8>) -> PageHeader {
        PageHeader {
            page_id: u32_from_le(s.subrange(0, 4)),
            page_type: PageType::from_tag(s[4]),
            lower: u16_from_le(s.subrange(5, 7)),
            upper: u16_from_le(s.subrange(7, 9)),
            item_count: u16_from_le(s.subrange(9, 11)),
            special: u16_from_le(s.subrange(11, 13)),
        }
    }

    /// The header of an empty page.
    pub fn new(page_id: PageId, page_type: PageType) -> (header: Self)
        ensures
            header == (PageHeader {
                page_id,
                page_type,
                lower: 24,
                upper: 8192,
                item_count: 0,
                special: 8192,
            }),
    {
        Self { page_id, page_type, lower: Self::SIZE, upper: 8192, special: 8192, item_count: 0 }
    }

    /// Encodes the header of a table or catalog page.
    pub fn to_bytes(&self) -> (data: [u8; 24])
        requires
            self.page_type.is_storable(),
        ensures
            data@ == self.encode(),
    {
        let mut data = [0u8; 24];
        data[0] = (self.page_id % 256) as u8;
        data[1] = (self.page_id / 256 % 256) as u8;
        data[2] = (self.page_id / 65536 % 256) as u8;
        data[3] = (self.page_id / 16777216) as u8;
        data[4] = match self.page_type {
            PageType::Table => 0,
            _ => 1,
        };
        data[5] = (self.lower % 256) as u8;
        data[6] = (self.lower / 256) as u8;
        data[7] = (self.upper % 256) as u8;
        data[8] = (self.upper / 256) as u8;
        data[9] = (self.item_count % 256) as u8;
        data[10] = (self.item_count / 256) as u8;
        data[11] = (self.special % 256) as u8;
        data[12] = (self.special / 256) as u8;
        assert(data@ =~= self.encode());
        data
    }

    /// Decodes a header whose type byte names a table or catalog page.
    pub fn from_bytes(data: [u8; 24]) -> (header: Self)
        requires
            data@[4] <= 1,
        ensures
            header == Self::decode(data@),
    {
        let page_id: u32 = read_u32_le(data.as_slice(), 0);
        let page_type = if data[4] == 0 {
            PageType::Table
        } else {
            PageType::Catalog
        };
        let lower: u16 = data[5] as u16 + data[6] as u16 * 256;
        let upper: u16 = data[7] as u16 + data[8] as u16 * 256;
        let item_count: u16 = data[9] as u16 + data[10] as u16 * 256;
        let special: u16 = data[11] as u16 + data[12] as u16 * 256;
        Self { page_id, page_type, lower, upper, item_count, special }
    }

    /// Decoding an encoded header gives the header back.
    pub proof fn lemma_round_trip(self)
        requires
            self.page_type.is_storable(),
        ensures
            self.encode().len() == 24,
            self.encode()[4] <= 1,
            Self::decode(self.encode()) == self,
    {
        let s = self.encode();
        lemma_u32_round_trip(self.page_id);
        lemma_u16_round_trip(self.lower);
        lemma_u16_round_trip(self.upper);
        lemma_u16_round_trip(self.item_count);
        lemma_u16_round_trip(self.special);
        assert(s.subrange(0, 4) =~= u32_le(self.page_id));
        assert(s.subrange(5, 7) =~= u16_le(self.lower));
        assert(s.subrange(7, 9) =~= u16_le(self.upper));
        assert(s.subrange(9, 11) =~= u16_le(self.item_count));
        assert(s.subrange(11, 13) =~= u16_le(self.special));
        assert(s[4] == self.page_type.tag());
    }
}

/// A slot: where one tuple lies on its page, and whether it was deleted.
#[derive(Debug, Clone, Copy, PartialEq, Eq, Structural)]
pub struct ItemPointer {
    /// The tuple's first byte, as an offset from the page start.
    pub offset: u16,
    /// The tuple's length in bytes.
    pub length: u16,
    /// Status bits; bit 0 marks the item as deleted.
    pub flags: u8,
}

impl ItemPointer {
    /// The size in bytes of an encoded item pointer.
    pub const SIZE: usize = 5;

    const DELETED_FLAG: u8 = 1;

    const LIVE_FLAG: u8 = 0;

    /// Whether the deleted bit is set.
    pub open spec fn deleted(self) -> bool {
        self.flags & 1u8 != 0u8
    }

    /// The five bytes that encode this pointer.
    pub open spec fn encode(self) -> Seq<u8> {
        u16_le(self.offset) + u16_le(self.length) + seq![self.flags]
    }

    /// The pointer that the first five of the bytes `s` encode.
    pub open spec fn decode(s: Seq<u8>) -> ItemPointer {
        ItemPointer {
            offset: u16_from_le(s.subrange(0, 2)),
            length: u16_from_le(s.subrange(2, 4)),
            flags: s[4],
        }
    }

    /// The half-open range of page offsets that the tuple occupies.
    pub open spec fn end(self) -> int {
        self.offset + self.length
    }

    /// Whether the tuples of the two pointers share no byte.
    pub open spec fn disjoint(self, other: ItemPointer) -> bool {
        self.end() <= other.offset || other.end() <= self.offset
    }

    /// A pointer to a live tuple.
    pub fn new(offset: u16, length: u16) -> (pointer: Self)
        ensures
            pointer == (ItemPointer { offset, length, flags: 0 }),
            !pointer.deleted(),
    {
        assert(0u8 & 1u8 == 0u8) by (bit_vector);
        Self { offset, length, flags: Self::LIVE_FLAG }
    }

    pub fn is_deleted(&self) -> (deleted: bool)
        ensures
            deleted == self.deleted(),
    {
        self.flags & Self::DELETED_FLAG != 0
    }

    /// Sets the deleted bit and leaves everything else as it is.
    pub fn mark_deleted(&mut self)
        ensures
            final(self).deleted(),
            *final(self) == (ItemPointer { flags: old(self).flags | 1u8, ..*old(self) }),
    {
        let flags: u8 = self.flags;
        assert((flags | 1u8) & 1u8 != 0u8) by (bit_vector);
        self.flags = flags | Self::DELETED_FLAG;
    }

    pub fn to_bytes(self) -> (data: [u8; 5])
        ensures
            data@ == self.encode(),
    {
        let mut data = [0u8; 5];
        data[0] = (self.offset % 256) as u8;
        data[1] = (self.offset / 256) as u8;
        data[2] = (self.length % 256) as u8;
        data[3] = (self.length / 256) as u8;
        data[4] = self.flags;
        assert(data@ =~= self.encode());
        data
    }

    pub fn from_bytes(data: [u8; 5]) -> (pointer: Self)
        ensures
            pointer == Self::decode(data@),
    {
        let offset: u16 = data[0] as u16 + data[1] as u16 * 256;
        let length: u16 = data[2] as u16 + data[3] as u16 * 256;
        Self { offset, length, flags: data[4] }
    }

    /// Decoding an encoded pointer gives the pointer back.
    pub proof fn lemma_round_trip(self)
        ensures
            self.encode().len() == 5,
            Self::decode(self.encode()) == self,
    {
        let s = self.encode();
        lemma_u16_round_trip(self.offset);
        lemma_u16_round_trip(self.length);
        assert(s.subrange(0, 2) =~= u16_le(self.offset));
        assert(s.subrange(2, 4) =~= u16_le(self.length));
    }
}

/// `base` with the bytes of `patch` written over it from index `at` on.
pub open spec fn splice(base: Seq<u8>, at: int, patch: Seq<u8>) -> Seq<u8> {
    Seq::new(
        base.len(),
        |k: int|
            if at <= k < at + patch.len() {
                patch[k - at]
            } else {
                base[k]
            },
    )
}

/// One page: its header and the 8168 bytes that follow it. The item-pointer
/// array starts at the first of those bytes.
#[derive(Debug, Clone, PartialEq)]
pub struct Page {
    pub header: PageHeader,
    pub data: [u8; 8168],
}

impl Page {
    /// The pointer in slot `i`, read from the page's bytes.
    pub open spec fn pointer_at(self, i: int) -> ItemPointer {
        ItemPointer::decode(self.data@.subrange(5 * i, 5 * i + 5))
    }

    /// The number of slots that the header counts, and at most the number
    /// of pointers that the data region has room for.
    pub open spec fn slot_count(self) -> nat {
        if self.header.item_count <= 1633 {
            self.header.item_count as nat
        } else {
            1633
        }
    }

    /// All item pointers of the page, in slot order.
    pub open spec fn pointers(self) -> Seq<ItemPointer> {
        Seq::new(self.slot_count(), |i: int| self.pointer_at(i))
    }

    /// The bytes of the tuple in slot `i`.
    pub open spec fn item(self, i: int) -> Seq<u8> {
        let p = self.pointer_at(i);
        self.data@.subrange(p.offset - 24, p.offset - 24 + p.length)
    }

    /// The number of bytes between the pointer array and the tuple heap.
    pub open spec fn spec_free_space(self) -> int {
        self.header.upper - self.header.lower
    }

    /// The page invariant: the header's bounds are ordered, the pointer array
    /// ends at `lower`, and every tuple lies in the heap, apart from the others.
    pub open spec fn wf(self) -> bool {
        &&& 24 <= self.header.lower <= self.header.upper <= self.header.special <= 8192
        &&& self.header.item_count * 5 == self.header.lower - 24
        &&& forall|i: int|
            0 <= i < self.header.item_count ==> self.header.upper <= (#[trigger] self.pointer_at(
                i,
            )).offset && self.pointer_at(i).end() <= 8192
        &&& forall|i: int, j: int|
            0 <= i < j < self.header.item_count ==> (#[trigger] self.pointer_at(i)).disjoint(
                #[trigger] self.pointer_at(j),
            )
    }

    /// The 8192 bytes that encode this page: the header, then the data region.
    pub open spec fn encode(self) -> Seq<u8> {
        self.header.encode() + self.data@
    }

    /// The page whose header and data region are read from the 8192 bytes `s`.
    pub open spec fn decoded_header(s: Seq<u8>) -> PageHeader {
        PageHeader::decode(s.subrange(0, 24))
    }

    /// This page after `payload` was added to it: the payload lies just below
    /// the old heap, and a live pointer to it fills the next slot.
    pub open spec fn with_item(self, payload: Seq<u8>) -> (PageHeader, Seq<u8>) {
        let upper = (self.header.upper - payload.len()) as u16;
        let pointer = ItemPointer { offset: upper, length: payload.len() as u16, flags: 0 };
        (
            PageHeader {
                upper,
                lower: (self.header.lower + 5) as u16,
                item_count: (self.header.item_count + 1) as u16,
                ..self.header
            },
            splice(
                splice(self.data@, upper - 24, payload),
                5 * self.header.item_count,
                pointer.encode(),
            ),
        )
    }

    /// An empty page.
    pub fn new(page_id: PageId, page_type: PageType) -> (page: Self)
        ensures
            page.header == (PageHeader {
                page_id,
                page_type,
                lower: 24,
                upper: 8192,
                item_count: 0,
                special: 8192,
            }),
            page.data@ == Seq::new(8168, |i: int| 0u8),
            page.wf(),
    {
        let header = PageHeader::new(page_id, page_type);
        let page = Self { header, data: [0u8; 8168] };
        assert(page.data@ =~= Seq::new(8168, |i: int| 0u8));
        page
    }

    /// Encodes a table or catalog page as one block of bytes.
    pub fn to_bytes(&self) -> (data: [u8; 8192])
        requires
            self.header.page_type.is_storable(),
        ensures
            data@ == self.encode(),
    {
        let head = self.header.to_bytes();
        let mut data = [0u8; 8192];
        let mut i: usize = 0;
        while i < 24
            invariant
                i <= 24,
                forall|k: int| 0 <= k < i ==> data@[k] == head@[k],
            decreases 24 - i,
        {
            data[i] = head[i];
            i += 1;
        }
        let mut j: usize = 0;
        while j < 8168
            invariant
                j <= 8168,
                forall|k: int| 0 <= k < 24 ==> data@[k] == head@[k],
                forall|k: int| 0 <= k < j ==> data@[24 + k] == self.data@[k],
            decreases 8168 - j,
        {
            data[24 + j] = self.data[j];
            j += 1;
        }
        proof {
            self.header.lemma_round_trip();
            assert(data@ =~= self.encode());
        }
        data
    }

    /// Decodes a block of bytes whose type byte names a table or catalog page.
    pub fn from_bytes(data: [u8; 8192]) -> (page: Self)
        requires
            data@[4] <= 1,
        ensures
            page.header == Self::decoded_header(data@),
            page.data@ == data@.subrange(24, 8192),
    {
        let mut head = [0u8; 24];
        let mut i: usize = 0;
        while i < 24
            invariant
                i <= 24,
                forall|k: int| 0 <= k < i ==> head@[k] == data@[k],
            decreases 24 - i,
        {
            head[i] = data[i];
            i += 1;
        }
        assert(head@ =~= data@.subrange(0, 24));
        let header = PageHeader::from_bytes(head);
        let mut page_data = [0u8; 8168];
        let mut j: usize = 0;
        while j < 8168
            invariant
                j <= 8168,
                forall|k: int| 0 <= k < j ==> page_data@[k] == data@[24 + k],
            decreases 8168 - j,
        {
            page_data[j] = data[24 + j];
            j += 1;
        }
        assert(page_data@ =~= data@.subrange(24, 8192));
        Self { header, data: page_data }
    }

    /// The number of bytes left between the pointer array and the tuple heap.
    pub fn free_space(&self) -> (free: usize)
        requires
            self.header.lower <= self.header.upper,
        ensures
            free == self.spec_free_space(),
    {
        (self.header.upper - self.header.lower) as usize
    }

    /// The item pointers of the page, in slot order, deleted ones included.
    pub fn item_pointers(&self) -> (pointers: Vec<ItemPointer>)
        ensures
            pointers@ == self.pointers(),
    {
        let mut out: Vec<ItemPointer> = Vec::new();
        let count: usize = if self.header.item_count <= 1633 {
            self.header.item_count as usize
        } else {
            1633
        };
        let mut i: usize = 0;
        while i < count
            invariant
                i <= count,
                count == self.slot_count(),
                count * 5 <= 8168,
                out@.len() == i,
                forall|k: int| 0 <= k < i ==> out@[k] == self.pointer_at(k),
            decreases count - i,
        {
            out.push(self.read_pointer(i));
            i += 1;
        }
        assert(out@ =~= self.pointers());
        out
    }

    /// Reads the pointer in slot `slot`.
    fn read_pointer(&self, slot: usize) -> (pointer: ItemPointer)
        requires
            slot * 5 + 5 <= 8168,
        ensures
            pointer == self.pointer_at(slot as int),
    {
        let at: usize = slot * 5;
        let chunk: [u8; 5] = [
            self.data[at],
            self.data[at + 1],
            self.data[at + 2],
            self.data[at + 3],
            self.data[at + 4],
        ];
        assert(chunk@ =~= self.data@.subrange(5 * slot, 5 * slot + 5));
        ItemPointer::from_bytes(chunk)
    }

    /// Writes `pointer` into slot `slot`.
    fn write_pointer(&mut self, slot: usize, pointer: ItemPointer)
        requires
            slot * 5 + 5 <= 8168,
        ensures
            final(self).header == old(self).header,
            final(self).data@ == splice(old(self).data@, 5 * slot, pointer.encode()),
    {
        let at: usize = slot * 5;
        let bytes = pointer.to_bytes();
        self.data[at] = bytes[0];
        self.data[at + 1] = bytes[1];
        self.data[at + 2] = bytes[2];
        self.data[at + 3] = bytes[3];
        self.data[at + 4] = bytes[4];
        assert(self.data@ =~= splice(old(self).data@, 5 * slot, pointer.encode()));
    }

    /// Appends `data` as a new item and returns its id.
    ///
    /// Fails with `NotEnoughSpace`, leaving the page as it was, when the free
    /// space is less than the payload and one item pointer need.
    pub fn add_data(&mut self, data: &[u8]) -> (r: Result<ItemId, DatabaseError>)
        requires
            old(self).wf(),
        ensures
            final(self).wf(),
            old(self).spec_free_space() < data@.len() + 5 ==> r == Err::<ItemId, DatabaseError>(
                DatabaseError::NotEnoughSpace,
            ) && *final(self) == *old(self),
            old(self).spec_free_space() >= data@.len() + 5 ==> {
                &&& r == Ok::<ItemId, DatabaseError>(old(self).header.item_count)
                &&& final(self).header == old(self).with_item(data@).0
                &&& final(self).data@ == old(self).with_item(data@).1
                &&& final(self).pointer_at(old(self).header.item_count as int) == (ItemPointer {
                    offset: (old(self).header.upper - data@.len()) as u16,
                    length: data@.len() as u16,
                    flags: 0,
                })
                &&& final(self).item(old(self).header.item_count as int) == data@
                &&& forall|i: int|
                    0 <= i < old(self).header.item_count ==> final(self).pointer_at(i) == old(
                        self,
                    ).pointer_at(i) && final(self).item(i) == old(self).item(i)
            },
    {
        let len: usize = data.len();
        let free: usize = self.free_space();
        if len > free || free - len < 5 {
            return Err(DatabaseError::NotEnoughSpace);
        }
        let ghost before = *self;
        let count: u16 = self.header.item_count;
        let upper: u16 = self.header.upper - len as u16;
        let start: usize = upper as usize - 24;
        let mut i: usize = 0;
        while i < len
            invariant
                i <= len,
                len == data@.len(),
                start + len <= 8168,
                self.header == before.header,
                self.data@ == splice(before.data@, start as int, data@.take(i as int)),
            decreases len - i,
        {
            self.data[start + i] = data[i];
            i += 1;
            assert(self.data@ =~= splice(before.data@, start as int, data@.take(i as int)));
        }
        assert(data@.take(len as int) =~= data@);
        let pointer = ItemPointer::new(upper, len as u16);
        self.write_pointer(count as usize, pointer);
        self.header.upper = upper;
        self.header.lower = self.header.lower + 5;
        self.header.item_count = count + 1;
        proof {
            before.lemma_with_item(data@, *self);
        }
        Ok(count)
    }

    /// What adding an item does to a well-formed page with room for it: the
    /// page stays well formed, the new slot points at the payload, and the
    /// older slots and their tuples are as they were.
    pub proof fn lemma_with_item(self, payload: Seq<u8>, after: Page)
        requires
            self.wf(),
            self.spec_free_space() >= payload.len() + 5,
            after.header == self.with_item(payload).0,
            after.data@ == self.with_item(payload).1,
        ensures
            after.wf(),
            after.pointer_at(self.header.item_count as int) == (ItemPointer {
                offset: (self.header.upper - payload.len()) as u16,
                length: payload.len() as u16,
                flags: 0,
            }),
            after.item(self.header.item_count as int) == payload,
            forall|i: int|
                0 <= i < self.header.item_count ==> #[trigger] after.pointer_at(i)
                    == self.pointer_at(i) && after.item(i) == self.item(i),
    {
        let count = self.header.item_count as int;
        let upper = (self.header.upper - payload.len()) as u16;
        let pointer = ItemPointer { offset: upper, length: payload.len() as u16, flags: 0 };
        let p = after;
        pointer.lemma_round_trip();
        assert(p.data@.subrange(5 * count, 5 * count + 5) =~= pointer.encode());
        assert(p.item(count) =~= payload);
        assert forall|i: int| 0 <= i < count implies #[trigger] p.pointer_at(i) == self.pointer_at(
            i,
        ) && p.item(i) == self.item(i) by {
            assert(p.data@.subrange(5 * i, 5 * i + 5) =~= self.data@.subrange(5 * i, 5 * i + 5));
            let q = self.pointer_at(i);
            assert(self.header.upper <= q.offset && q.end() <= 8192);
            assert(p.item(i) =~= self.item(i));
        }
        assert forall|i: int| 0 <= i < count + 1 implies p.header.upper <= (#[trigger] p.pointer_at(
            i,
        )).offset && p.pointer_at(i).end() <= 8192 by {
            if i < count {
                assert(p.pointer_at(i) == self.pointer_at(i));
            }
        }
        assert forall|i: int, j: int| 0 <= i < j < count + 1 implies (#[trigger] p.pointer_at(
            i,
        )).disjoint(#[trigger] p.pointer_at(j)) by {
            assert(p.pointer_at(i) == self.pointer_at(i));
            if j < count {
                assert(p.pointer_at(j) == self.pointer_at(j));
            }
        }
    }

    /// The bytes of the item `item_id`.
    ///
    /// Fails with `ItemNotFound` when the id is out of range or the item was deleted.
    pub fn get_item(&self, item_id: ItemId) -> (r: Result<&[u8], DatabaseError>)
        requires
            self.wf(),
        ensures
            item_id < self.header.item_count && !self.pointer_at(item_id as int).deleted() ==> r
                is Ok && r->Ok_0@ == self.item(item_id as int),
            !(item_id < self.header.item_count && !self.pointer_at(item_id as int).deleted())
                ==> r == Err::<&[u8], DatabaseError>(DatabaseError::ItemNotFound),
    {
        if item_id >= self.header.item_count {
            return Err(DatabaseError::ItemNotFound);
        }
        let pointer = self.read_pointer(item_id as usize);
        if pointer.is_deleted() {
            return Err(DatabaseError::ItemNotFound);
        }
        let start: usize = pointer.offset as usize - 24;
        let end: usize = start + pointer.length as usize;
        Ok(vstd::slice::slice_subrange(self.data.as_slice(), start, end))
    }

    /// This page's data region after the item in slot `slot` was marked deleted.
    pub open spec fn with_deleted(self, slot: int) -> Seq<u8> {
        let p = self.pointer_at(slot);
        splice(self.data@, 5 * slot, (ItemPointer { flags: p.flags | 1u8, ..p }).encode())
    }

    /// Marks the item `item_id` as deleted. Its bytes stay where they are,
    /// and its space is not reclaimed.
    ///
    /// Fails with `ItemNotFound`, leaving the page as it was, when the id is
    /// out of range.
    pub fn delete_item(&mut self, item_id: ItemId) -> (r: Result<(), DatabaseError>)
        requires
            old(self).wf(),
        ensures
            final(self).wf(),
            final(self).header == old(self).header,
            item_id >= old(self).header.item_count ==> r == Err::<(), DatabaseError>(
                DatabaseError::ItemNotFound,
            ) && *final(self) == *old(self),
            item_id < old(self).header.item_count ==> {
                &&& r == Ok::<(), DatabaseError>(())
                &&& final(self).data@ == old(self).with_deleted(item_id as int)
                &&& final(self).pointer_at(item_id as int).deleted()
                &&& forall|i: int|
                    0 <= i < old(self).header.item_count ==> {
                        &&& final(self).item(i) == old(self).item(i)
                        &&& (#[trigger] final(self).pointer_at(i)).offset == old(self).pointer_at(
                            i,
                        ).offset
                        &&& final(self).pointer_at(i).length == old(self).pointer_at(i).length
                        &&& i != item_id ==> final(self).pointer_at(i) == old(self).pointer_at(i)
                    }
            },
    {
        if item_id >= self.header.item_count {
            return Err(DatabaseError::ItemNotFound);
        }
        let ghost before = *self;
        let slot: usize = item_id as usize;
        let mut pointer = self.read_pointer(slot);
        pointer.mark_deleted();
        self.write_pointer(slot, pointer);
        proof {
            pointer.lemma_round_trip();
            let count = before.header.item_count as int;
            assert(self.data@.subrange(5 * slot, 5 * slot + 5) =~= pointer.encode());
            assert forall|i: int| 0 <= i < count implies {
                &&& self.item(i) == before.item(i)
                &&& (#[trigger] self.pointer_at(i)).offset == before.pointer_at(i).offset
                &&& self.pointer_at(i).length == before.pointer_at(i).length
                &&& i != item_id ==> self.pointer_at(i) == before.pointer_at(i)
            } by {
                if i != slot {
                    assert(self.data@.subrange(5 * i, 5 * i + 5) =~= before.data@.subrange(
                        5 * i,
                        5 * i + 5,
                    ));
                }
                let q = before.pointer_at(i);
                assert(before.header.upper <= q.offset && q.end() <= 8192);
                assert(self.item(i) =~= before.item(i));
            }
            assert forall|i: int, j: int| 0 <= i < j < count implies (#[trigger] self.pointer_at(
                i,
            )).disjoint(#[trigger] self.pointer_at(j)) by {
                assert(before.pointer_at(i).disjoint(before.pointer_at(j)));
            }
        }
        Ok(())
    }

    /// Whether the page invariant holds, checked slot by slot.
    pub fn validate(&self) -> (ok: bool)
        ensures
            ok == self.wf(),
    {
        let h = self.header;
        if !(24 <= h.lower && h.lower <= h.upper && h.upper <= h.special && h.special <= 8192) {
            return false;
        }
        if h.item_count as usize * 5 != h.lower as usize - 24 {
            return false;
        }
        let pointers = self.item_pointers();
        let count: usize = pointers.len();
        let mut j: usize = 0;
        while j < count
            invariant
                j <= count,
                count == self.header.item_count,
                count <= 1633,
                h == self.header,
                pointers@ == self.pointers(),
                forall|b: int|
                    0 <= b < j ==> self.header.upper <= (#[trigger] self.pointer_at(b)).offset
                        && self.pointer_at(b).end() <= 8192,
                forall|a: int, b: int|
                    0 <= a < b < j ==> (#[trigger] self.pointer_at(a)).disjoint(
                        #[trigger] self.pointer_at(b),
                    ),
            decreases count - j,
        {
            let q = pointers[j];
            assert(q == self.pointer_at(j as int));
            if q.offset < h.upper || q.offset as usize + q.length as usize > 8192 {
                return false;
            }
            let mut i: usize = 0;
            while i < j
                invariant
                    i <= j,
                    j < count,
                    count == self.header.item_count,
                    count <= 1633,
                    pointers@ == self.pointers(),
                    q == self.pointer_at(j as int),
                    forall|a: int|
                        0 <= a < i ==> (#[trigger] self.pointer_at(a)).disjoint(q),
                decreases j - i,
            {
                let p = pointers[i];
                assert(p == self.pointer_at(i as int));
                let apart = p.offset as usize + p.length as usize <= q.offset as usize
                    || q.offset as usize + q.length as usize <= p.offset as usize;
                if !apart {
                    return false;
                }
                i += 1;
            }
            j += 1;
        }
        true
    }

    /// Decodes one page from the bytes read from a table file.
    ///
    /// Fails with `SerializationError` unless there are exactly 8192 bytes,
    /// the type byte names a table or catalog page, and the page they encode
    /// satisfies the page invariant.
    pub fn decode(bytes: &[u8]) -> (r: Result<Page, DatabaseError>)
        ensures
            r is Ok <==> Self::decodable(bytes@),
            r matches Ok(page) ==> page.wf() && page.header == Self::decoded_header(bytes@)
                && page.data@ == bytes@.subrange(24, 8192),
            r matches Err(e) ==> e is SerializationError,
    {
        if bytes.len() != 8192 || bytes[4] > 1 {
            return Err(DatabaseError::SerializationError("not a page".to_string()));
        }
        let mut block = [0u8; 8192];
        let mut i: usize = 0;
        while i < 8192
            invariant
                i <= 8192,
                bytes@.len() == 8192,
                forall|k: int| 0 <= k < i ==> block@[k] == bytes@[k],
            decreases 8192 - i,
        {
            block[i] = bytes[i];
            i += 1;
        }
        assert(block@ =~= bytes@);
        let page = Self::from_bytes(block);
        proof {
            Self::lemma_decodable(bytes@, page);
        }
        if page.validate() {
            Ok(page)
        } else {
            Err(DatabaseError::SerializationError("page layout is corrupt".to_string()))
        }
    }

    /// Whether the bytes `s` encode a well-formed table or catalog page.
    pub open spec fn decodable(s: Seq<u8>) -> bool {
        &&& s.len() == 8192
        &&& s[4] <= 1
        &&& forall|p: Page|
            p.header == Self::decoded_header(s) && p.data@ == s.subrange(24, 8192) ==> p.wf()
    }

    /// A block of bytes is decodable exactly when the page read from it is well formed.
    pub proof fn lemma_decodable(s: Seq<u8>, page: Page)
        requires
            s.len() == 8192,
            s[4] <= 1,
            page.header == Self::decoded_header(s),
            page.data@ == s.subrange(24, 8192),
        ensures
            Self::decodable(s) <==> page.wf(),
    {
        if page.wf() {
            assert forall|p: Page|
                p.header == Self::decoded_header(s) && p.data@ == s.subrange(
                    24,
                    8192,
                ) implies p.wf() by {
                assert(p.data@ =~= page.data@);
                assert(p.data =~= page.data);
                assert(p == page);
            }
        }
    }

    /// Space accounting: the pointer array, the free space and the tuple heap
    /// make up the whole page, and the pointer array holds five bytes a slot.
    pub proof fn lemma_space_accounting(self)
        requires
            self.wf(),
        ensures
            self.header.lower + self.spec_free_space() + (8192 - self.header.upper) == 8192,
            self.header.item_count * 5 + 24 == self.header.lower,
    {
    }

    /// No two slots of a well-formed page point at a common byte.
    pub proof fn lemma_no_overlap(self, a: int, b: int)
        requires
            self.wf(),
            0 <= a < self.header.item_count,
            0 <= b < self.header.item_count,
            a != b,
        ensures
            self.pointer_at(a).disjoint(self.pointer_at(b)),
    {
        if a < b {
            assert(self.pointer_at(a).disjoint(self.pointer_at(b)));
        } else {
            assert(self.pointer_at(b).disjoint(self.pointer_at(a)));
        }
    }

    /// Page round trip: decoding an encoded page gives the page back, its
    /// header and its data region, and with them its item pointers; and the
    /// encoding of a well-formed page is decodable.
    pub proof fn lemma_round_trip(self)
        requires
            self.header.page_type.is_storable(),
        ensures
            self.encode().len() == 8192,
            self.encode()[4] <= 1,
            Self::decoded_header(self.encode()) == self.header,
            self.encode().subrange(24, 8192) == self.data@,
            forall|back: Page|
                back.header == Self::decoded_header(self.encode()) && back.data@
                    == self.encode().subrange(24, 8192) ==> back == self,
            self.wf() ==> Self::decodable(self.encode()),
    {
        self.header.lemma_round_trip();
        assert(self.encode().subrange(0, 24) =~= self.header.encode());
        assert(self.encode().subrange(24, 8192) =~= self.data@);
        assert forall|back: Page|
            back.header == Self::decoded_header(self.encode()) && back.data@
                == self.encode().subrange(24, 8192) implies back == self by {
            assert(back.data =~= self.data);
        }
        if self.wf() {
            Self::lemma_decodable(self.encode(), self);
        }
    }
}

} // verus!
