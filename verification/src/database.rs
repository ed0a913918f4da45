//! The database: a catalog of tables and the buffer pool that holds their rows.

use crate::buffer_manager::{
    first_fit, heap_count, lemma_insert_to_multiset, page_grown, BufferManager, MAX_PAGES,
};
use crate::codec::{decode_row, encode_row, lemma_row_round_trip, row_storable};
use crate::error::DatabaseError;
use crate::page::{ItemId, Page, PageHeader, PageId, PageType};
use crate::codec::lemma_decode_row_nulls;
use crate::sql::analyzer::{
    analysis, fields_of, lifted, plan_matches, Analysis, AnalyzedExpression, Analyzer,
    OutputSchema,
};
use crate::sql::ast::{StatementView, TargetView};
use crate::sql::evaluator::{ExpressionEvaluator, FloatArithmetic};
use crate::sql::evaluator::fault_is;
use crate::sql::executor::{
    chunks, flatten, gathered, is_row_fault, project_from, run, scannable, through, transform,
    End, Output, PhysicalPlan, RowOp, RowResult, Stream,
};
use crate::sql::lexer::lex_tokens;
use crate::sql::logical_planner::LogicalPlan;
use crate::sql::parser::{parse_query, spec_statement};
use crate::sql::planner_context::PlannerContext;
use crate::table::{Row, Schema, TableDef};
use crate::text::str_eq;
use crate::types::{DataType, ValueView};
use vstd::prelude::*;
use vstd::seq_lib::*;

verus! {

/// The rows that the tuples `items` encode for columns of the given types,
/// in order; `None` where a tuple encodes no row.
pub open spec fn decode_all(types: Seq<DataType>, items: Seq<Seq<u8>>, n: int) -> Option<
    Seq<Seq<ValueView>>,
>
    decreases n,
{
    if n <= 0 {
        Some(Seq::empty())
    } else {
        match (decode_all(types, items, n - 1), decode_row(types, items[n - 1])) {
            (Some(rows), Some(row)) => Some(rows.push(row)),
            _ => None,
        }
    }
}

/// What decoding all tuples gives, where it gives anything: one row per tuple.
pub proof fn lemma_decode_all(types: Seq<DataType>, items: Seq<Seq<u8>>, n: int)
    requires
        0 <= n <= items.len(),
    ensures
        decode_all(types, items, n) matches Some(rows) ==> rows.len() == n && forall|i: int|
            0 <= i < n ==> decode_row(types, #[trigger] items[i]) == Some(rows[i]),
        decode_all(types, items, n) is None ==> exists|i: int|
            0 <= i < n && decode_row(types, #[trigger] items[i]) is None,
    decreases n,
{
    if n > 0 {
        lemma_decode_all(types, items, n - 1);
    }
}

/// Tuples that all decode, decode to one row each.
pub proof fn lemma_decode_each(
    types: Seq<DataType>,
    items: Seq<Seq<u8>>,
    rows: Seq<Seq<ValueView>>,
    n: int,
)
    requires
        0 <= n <= items.len(),
        n <= rows.len(),
        forall|i: int| 0 <= i < n ==> decode_row(types, #[trigger] items[i]) == Some(rows[i]),
    ensures
        decode_all(types, items, n) == Some(rows.take(n)),
    decreases n,
{
    if n > 0 {
        lemma_decode_each(types, items, rows, n - 1);
        assert(rows.take(n - 1).push(rows[n - 1]) =~= rows.take(n));
    } else {
        assert(rows.take(0) =~= Seq::empty());
    }
}

/// The outcome of a query: the schema of its result, and the rows.
#[derive(Debug)]
pub struct QueryResponse {
    pub schema: OutputSchema,
    pub rows: Vec<Row>,
}

/// The database handle. It owns the catalog and the buffer pool.
#[derive(Debug)]
pub struct Database {
    /// The catalog: the tables by name, no name twice.
    pub tables: Vec<TableDef>,
    pub buffer_manager: BufferManager,
    /// The directory that holds one file per table.
    pub data_directory: String,
}

impl Database {
    /// The database invariant: no table name occurs twice in the catalog,
    /// and the buffer pool is well formed.
    pub open spec fn wf(self) -> bool {
        &&& self.buffer_manager.wf()
        &&& forall|i: int, j: int|
            0 <= i < j < self.tables@.len() ==> (#[trigger] self.tables@[i]).name@ != (
            #[trigger] self.tables@[j]).name@
    }

    /// Whether the catalog has a table named `name`.
    pub open spec fn has_table(self, name: Seq<char>) -> bool {
        exists|i: int| 0 <= i < self.tables@.len() && (#[trigger] self.tables@[i]).name@ == name
    }

    /// The index of the table named `name` in the catalog.
    pub open spec fn index_of(self, name: Seq<char>) -> int {
        choose|i: int| 0 <= i < self.tables@.len() && (#[trigger] self.tables@[i]).name@ == name
    }

    /// The table named `name`.
    pub open spec fn table(self, name: Seq<char>) -> TableDef {
        self.tables@[self.index_of(name)]
    }

    /// The stored tuples of the table `name`, in scan order.
    pub open spec fn items(self, name: Seq<char>) -> Seq<Seq<u8>> {
        self.buffer_manager.items_of(name)
    }

    /// The rows of the table `name` in scan order: by page, then by slot.
    /// `None` where a stored tuple encodes no row of the table's schema.
    pub open spec fn scan(self, name: Seq<char>) -> Option<Seq<Seq<ValueView>>> {
        decode_all(self.table(name).schema.types(), self.items(name), self.items(name).len() as int)
    }

    /// Whether `after` is `before` with `row` inserted into the table
    /// `name`: the catalog is the same, and the tuples of the table are
    /// those of before with the encoded row put among them.
    pub open spec fn inserted(before: Database, after: Database, name: Seq<char>, row: Seq<
        ValueView,
    >) -> bool {
        &&& after.tables == before.tables
        &&& exists|k: int|
            0 <= k <= before.items(name).len() && #[trigger] before.items(name).insert(
                k,
                encode_row(row),
            ) == after.items(name)
    }

    /// Whether `after` are the pages `before` with `payload` added to page
    /// `at`: that page, an empty table page if it is a new one behind the
    /// others, holds the payload as its newest item, and every other page
    /// is as it was.
    pub open spec fn placed(before: Seq<Page>, after: Seq<Page>, at: int, payload: Seq<u8>) -> bool {
        if 0 <= at < before.len() {
            &&& after.len() == before.len()
            &&& page_grown(before[at], after[at], payload)
            &&& forall|k: int| 0 <= k < before.len() && k != at ==> after[k] == before[k]
        } else {
            &&& at == before.len()
            &&& after.len() == before.len() + 1
            &&& after.subrange(0, before.len() as int) == before
            &&& forall|fresh: Page|
                fresh.header == (PageHeader {
                    page_id: at as u32,
                    page_type: PageType::Table,
                    lower: 24,
                    upper: 8192,
                    item_count: 0,
                    special: 8192,
                }) && fresh.data@ == Seq::new(8168, |i: int| 0u8) ==> #[trigger] page_grown(
                    fresh,
                    after[at],
                    payload,
                )
        }
    }

    proof fn lemma_index(self, i: int)
        requires
            self.wf(),
            0 <= i < self.tables@.len(),
        ensures
            self.has_table(self.tables@[i].name@),
            self.index_of(self.tables@[i].name@) == i,
    {
        let name = self.tables@[i].name@;
        let j = self.index_of(name);
        if j < i {
            assert(self.tables@[j].name@ != self.tables@[i].name@);
        } else if i < j {
            assert(self.tables@[i].name@ != self.tables@[j].name@);
        }
    }

    /// A database without tables whose files are to lie in `data_directory`.
    pub fn new(data_directory: &str) -> (db: Self)
        ensures
            db.wf(),
            db.tables@.len() == 0,
            db.data_directory@ == data_directory@,
            forall|name: Seq<char>| db.buffer_manager.pages_of(name) == Seq::<Page>::empty(),
            forall|name: Seq<char>| db.items(name) == Seq::<Seq<u8>>::empty(),
    {
        let db = Self {
            tables: Vec::new(),
            buffer_manager: BufferManager::new(),
            data_directory: data_directory.to_owned(),
        };
        assert forall|name: Seq<char>| db.items(name) == Seq::<Seq<u8>>::empty() by {
            assert(db.buffer_manager.pages_of(name) == Seq::<Page>::empty());
        }
        db
    }

    pub fn initialize(&mut self) -> (r: Result<(), DatabaseError>)
        ensures
            r is Ok,
            *final(self) == *old(self),
    {
        Ok(())
    }

    /// The index of the table `name` in the catalog.
    fn find_table(&self, name: &str) -> (found: Option<usize>)
        requires
            self.wf(),
        ensures
            found is Some <==> self.has_table(name@),
            found matches Some(i) ==> i < self.tables@.len() && self.index_of(name@) == i,
    {
        let n: usize = self.tables.len();
        let mut i: usize = 0;
        while i < n
            invariant
                i <= n,
                n == self.tables@.len(),
                self.wf(),
                forall|k: int| 0 <= k < i ==> (#[trigger] self.tables@[k]).name@ != name@,
            decreases n - i,
        {
            if str_eq(self.tables[i].name.as_str(), name) {
                proof {
                    self.lemma_index(i as int);
                }
                return Some(i);
            }
            i += 1;
        }
        None
    }

    /// Whether the catalog has a table named `name`.
    pub fn table_exists(&self, name: &str) -> (exists: bool)
        requires
            self.wf(),
        ensures
            exists == self.has_table(name@),
    {
        self.find_table(name).is_some()
    }

    /// Registers the table `name` with `schema`. A table of that name that
    /// is registered already is replaced; stored pages are not touched.
    pub fn create_table(&mut self, name: &str, schema: Schema) -> (r: Result<(), DatabaseError>)
        requires
            old(self).wf(),
        ensures
            final(self).wf(),
            r is Ok,
            final(self).buffer_manager == old(self).buffer_manager,
            final(self).has_table(name@),
            final(self).table(name@).name@ == name@,
            final(self).table(name@).schema == schema,
            forall|other: Seq<char>|
                other != name@ ==> final(self).has_table(other) == old(self).has_table(other) && (
                old(self).has_table(other) ==> final(self).table(other) == old(self).table(other)),
    {
        let table = TableDef::new(name.to_owned(), schema);
        let ghost before = *self;
        let at: usize = match self.find_table(name) {
            Some(i) => {
                self.tables[i] = table;
                i
            },
            None => {
                self.tables.push(table);
                self.tables.len() - 1
            },
        };
        proof {
            assert forall|i: int, j: int| 0 <= i < j < self.tables@.len() implies (
            #[trigger] self.tables@[i]).name@ != (#[trigger] self.tables@[j]).name@ by {
                if i != at && j != at {
                    assert(before.tables@[i].name@ != before.tables@[j].name@);
                } else if i == at && at < before.tables@.len() {
                    assert(before.tables@[i].name@ != before.tables@[j].name@);
                } else if j == at && at < before.tables@.len() {
                    assert(before.tables@[i].name@ != before.tables@[j].name@);
                } else {
                    assert(self.tables@[i] == before.tables@[i]);
                }
            }
            self.lemma_index(at as int);
            assert forall|other: Seq<char>| other != name@ implies self.has_table(other)
                == before.has_table(other) && (before.has_table(other) ==> self.table(other)
                == before.table(other)) by {
                if before.has_table(other) {
                    let k = before.index_of(other);
                    assert(self.tables@[k] == before.tables@[k]);
                    self.lemma_index(k);
                }
                if self.has_table(other) {
                    let k = self.index_of(other);
                    assert(self.tables@[k] == before.tables@[k]);
                }
            }
        }
        Ok(())
    }

    /// The table `name`.
    ///
    /// Fails with `TableNotFound` exactly when the catalog has no such table.
    pub fn get_table(&self, name: &str) -> (r: Result<&TableDef, DatabaseError>)
        requires
            self.wf(),
        ensures
            match r {
                Ok(table) => self.has_table(name@) && *table == self.table(name@),
                Err(e) => !self.has_table(name@) && e.is_missing_table(name@),
            },
    {
        match self.find_table(name) {
            Some(i) => Ok(&self.tables[i]),
            None => Err(DatabaseError::TableNotFound(name.to_owned())),
        }
    }

    /// Removes the table `name` from the catalog. Its pages stay where they are.
    ///
    /// Fails with `TableNotFound`, leaving the catalog as it was, exactly
    /// when the catalog has no such table.
    pub fn drop_table(&mut self, name: &str) -> (r: Result<(), DatabaseError>)
        requires
            old(self).wf(),
        ensures
            final(self).wf(),
            final(self).buffer_manager == old(self).buffer_manager,
            !final(self).has_table(name@),
            match r {
                Ok(_) => old(self).has_table(name@),
                Err(e) => !old(self).has_table(name@) && *final(self) == *old(self) && e.is_missing_table(name@),
            },
            forall|other: Seq<char>|
                other != name@ ==> final(self).has_table(other) == old(self).has_table(other) && (
                old(self).has_table(other) ==> final(self).table(other) == old(self).table(other)),
    {
        let ghost before = *self;
        match self.find_table(name) {
            Some(i) => {
                self.tables.remove(i);
                proof {
                    assert forall|a: int, b: int| 0 <= a < b < self.tables@.len() implies (
                    #[trigger] self.tables@[a]).name@ != (#[trigger] self.tables@[b]).name@ by {
                        let a0 = if a < i { a } else { a + 1 };
                        let b0 = if b < i { b } else { b + 1 };
                        assert(self.tables@[a] == before.tables@[a0]);
                        assert(self.tables@[b] == before.tables@[b0]);
                        assert(before.tables@[a0].name@ != before.tables@[b0].name@);
                    }
                    if self.has_table(name@) {
                        let k = self.index_of(name@);
                        let k0 = if k < i { k } else { k + 1 };
                        assert(self.tables@[k] == before.tables@[k0]);
                        if k0 < i {
                            assert(before.tables@[k0].name@ != before.tables@[i as int].name@);
                        } else {
                            assert(before.tables@[i as int].name@ != before.tables@[k0].name@);
                        }
                    }
                    assert forall|other: Seq<char>| other != name@ implies self.has_table(other)
                        == before.has_table(other) && (before.has_table(other) ==> self.table(
                        other,
                    ) == before.table(other)) by {
                        if before.has_table(other) {
                            let k0 = before.index_of(other);
                            let k = if k0 < i { k0 } else { k0 - 1 };
                            assert(self.tables@[k] == before.tables@[k0]);
                            self.lemma_index(k);
                        }
                        if self.has_table(other) {
                            let k = self.index_of(other);
                            let k0 = if k < i { k } else { k + 1 };
                            assert(self.tables@[k] == before.tables@[k0]);
                        }
                    }
                }
                Ok(())
            },
            None => Err(DatabaseError::TableNotFound(name.to_owned())),
        }
    }

    /// Inserts a row into the table `table_name`: the row is checked against
    /// the schema and encoded, and the tuple goes to the first page with
    /// room for it, or to a new page. Returns the page and the slot.
    ///
    /// Fails, leaving the rows of every table as they were, with
    /// `TableNotFound` where the catalog has no such table, with
    /// `TypeMismatch` where the schema does not accept the row or the row
    /// cannot be encoded, and with `NoFreePage` where every page up to the
    /// ceiling is full: where the table has all its pages and none has
    /// room, or where the encoded row is larger than an empty page can hold.
    pub fn insert_row(&mut self, table_name: &str, row: Row) -> (r: Result<
        (PageId, ItemId),
        DatabaseError,
    >)
        requires
            old(self).wf(),
        ensures
            final(self).wf(),
            final(self).tables == old(self).tables,
            forall|other: Seq<char>|
                other != table_name@ ==> final(self).items(other) == old(self).items(other),
            match r {
                Ok((page_id, item_id)) => {
                    let pages = old(self).buffer_manager.pages_of(table_name@);
                    let size = encode_row(row@).len() as int;
                    &&& old(self).has_table(table_name@)
                    &&& old(self).table(table_name@).schema.accepts(row@)
                    &&& row_storable(old(self).table(table_name@).schema.types(), row@)
                    &&& size + 5 <= 8168
                    &&& page_id == first_fit(pages, size, pages.len() as int)
                    &&& page_id < pages.len() || pages.len() < MAX_PAGES
                    &&& item_id == if page_id < pages.len() {
                        pages[page_id as int].header.item_count
                    } else {
                        0
                    }
                    &&& Self::inserted(*old(self), *final(self), table_name@, row@)
                    &&& page_id < final(self).buffer_manager.pages_of(table_name@).len()
                    &&& final(self).buffer_manager.pages_of(table_name@)[page_id as int].item(
                        item_id as int,
                    ) == encode_row(row@)
                    &&& Self::placed(
                        pages,
                        final(self).buffer_manager.pages_of(table_name@),
                        page_id as int,
                        encode_row(row@),
                    )
                    &&& final(self).items(table_name@) == old(self).items(table_name@).insert(
                        if page_id < pages.len() {
                            heap_count(pages, page_id + 1)
                        } else {
                            old(self).items(table_name@).len() as int
                        },
                        encode_row(row@),
                    )
                },
                Err(e) => {
                    let pages = old(self).buffer_manager.pages_of(table_name@);
                    let size = encode_row(row@).len() as int;
                    &&& final(self).items(table_name@) == old(self).items(table_name@)
                    &&& if !old(self).has_table(table_name@) {
                        e.is_missing_table(table_name@)
                    } else if !(old(self).table(table_name@).schema.accepts(row@) && row_storable(
                        old(self).table(table_name@).schema.types(),
                        row@,
                    )) {
                        e is TypeMismatch
                    } else {
                        e == DatabaseError::NoFreePage && (size + 5 > 8168 || (first_fit(
                            pages,
                            size,
                            pages.len() as int,
                        ) == pages.len() && pages.len() >= MAX_PAGES))
                    }
                },
            },
    {
        let encoded_data = {
            let table = match self.get_table(table_name) {
                Ok(t) => t,
                Err(e) => {
                    return Err(e);
                },
            };
            match table.schema.validate(&row) {
                Ok(_) => {},
                Err(e) => {
                    return Err(e);
                },
            }
            match table.schema.encode(&row) {
                Ok(bytes) => bytes,
                Err(e) => {
                    return Err(e);
                },
            }
        };
        let ghost before = *self;
        let page_id = match self.buffer_manager.get_free_page(table_name, encoded_data.len()) {
            Ok(id) => id,
            Err(e) => {
                proof {
                    assert forall|other: Seq<char>| self.items(other) == before.items(other) by {
                        assert(self.buffer_manager.pages_of(other) == before.buffer_manager.pages_of(
                            other,
                        ));
                    }
                }
                return Err(e);
            },
        };
        let ghost mid = *self;
        proof {
            let pages = before.buffer_manager.pages_of(table_name@);
            let now = mid.buffer_manager.pages_of(table_name@);
            crate::buffer_manager::lemma_first_fit(
                pages,
                encoded_data@.len() as int,
                pages.len() as int,
            );
            lemma_fresh_page(pages, now);
            assert forall|other: Seq<char>| other != table_name@ implies mid.items(other)
                == before.items(other) by {
                assert(mid.buffer_manager.pages_of(other) == before.buffer_manager.pages_of(other));
            }
        }
        match self.buffer_manager.add_data(table_name, page_id, encoded_data.as_slice()) {
            Ok(item_id) => {
                proof {
                    assert forall|other: Seq<char>| other != table_name@ implies self.items(other)
                        == before.items(other) by {
                        assert(self.buffer_manager.pages_of(other)
                            == mid.buffer_manager.pages_of(other));
                    }
                    let pages = before.buffer_manager.pages_of(table_name@);
                    let now = mid.buffer_manager.pages_of(table_name@);
                    let k = heap_count(now, page_id + 1);
                    assert(before.items(table_name@).insert(k, encode_row(row@)) == self.items(
                        table_name@,
                    ));
                    let after = self.buffer_manager.pages_of(table_name@);
                    now[page_id as int].lemma_with_item(encoded_data@, after[page_id as int]);
                    if page_id < pages.len() {
                        assert(now == pages);
                    } else {
                        assert(k == before.items(table_name@).len());
                        assert(after.subrange(0, pages.len() as int) =~= pages) by {
                            assert forall|i: int| 0 <= i < pages.len() implies after[i]
                                == pages[i] by {
                                assert(now.subrange(0, pages.len() as int)[i] == pages[i]);
                            }
                        }
                        assert forall|fresh: Page|
                            fresh.header == now[page_id as int].header && fresh.data@
                                == now[page_id as int].data@ implies #[trigger] page_grown(
                            fresh,
                            after[page_id as int],
                            encode_row(row@),
                        ) by {
                            assert(fresh.data =~= now[page_id as int].data);
                        }
                    }
                }
                Ok((page_id, item_id))
            },
            Err(e) => Err(e),
        }
    }

    /// All rows of the table `table_name`, in scan order: by page, then by slot.
    ///
    /// Fails with `TableNotFound` where the catalog has no such table, and
    /// with `SerializationError` where a stored tuple encodes no row of the
    /// table's schema.
    #[verifier::loop_isolation(false)]
    pub fn get_rows(&self, table_name: &str) -> (r: Result<Vec<Row>, DatabaseError>)
        requires
            self.wf(),
        ensures
            match r {
                Ok(rows) => self.has_table(table_name@) && self.scan(table_name@) == Some(
                    rows_view(rows@),
                ),
                Err(e) => if self.has_table(table_name@) {
                    self.scan(table_name@) is None && e is SerializationError
                } else {
                    e is TableNotFound
                },
            },
    {
        let table = match self.get_table(table_name) {
            Ok(t) => t,
            Err(e) => {
                return Err(e);
            },
        };
        let ghost types = table.schema.types();
        let ghost pages = self.buffer_manager.pages_of(table_name@);
        let page_count: usize = self.buffer_manager.page_count(table_name);
        let mut found_rows: Vec<Row> = Vec::new();
        let mut p: usize = 0;
        while p < page_count
            invariant
                p <= page_count,
                self.wf(),
                page_count == pages.len(),
                page_count <= crate::buffer_manager::MAX_PAGES,
                pages == self.buffer_manager.pages_of(table_name@),
                crate::buffer_manager::pages_wf(pages),
                types == table.schema.types(),
                decode_all(
                    types,
                    crate::buffer_manager::heap_items(pages, p as int),
                    crate::buffer_manager::heap_items(pages, p as int).len() as int,
                ) == Some(rows_view(found_rows@)),
            decreases page_count - p,
        {
            let page = match self.buffer_manager.get_page(table_name, p as u32) {
                Some(page) => page,
                None => {
                    break ;
                },
            };
            assert(*page == pages[p as int]);
            assert(page.wf());
            let ghost base = crate::buffer_manager::heap_items(pages, p as int);
            let pointers = page.item_pointers();
            let count: usize = pointers.len();
            let mut i: usize = 0;
            while i < count
                invariant
                    i <= count,
                    page.wf(),
                    *page == pages[p as int],
                    pointers@ == page.pointers(),
                    count == page.header.item_count,
                    types == table.schema.types(),
                    decode_all(
                        types,
                        base + crate::buffer_manager::live_items(*page, i as int),
                        (base + crate::buffer_manager::live_items(*page, i as int)).len() as int,
                    ) == Some(rows_view(found_rows@)),
                decreases count - i,
            {
                let item_pointer = pointers[i];
                assert(item_pointer == page.pointer_at(i as int));
                if item_pointer.is_deleted() {
                    i += 1;
                    continue ;
                }
                let offset: usize = item_pointer.offset as usize - 24;
                let length: usize = item_pointer.length as usize;
                let item_data = vstd::slice::slice_subrange(
                    page.data.as_slice(),
                    offset,
                    offset + length,
                );
                let ghost so_far = base + crate::buffer_manager::live_items(*page, i as int);
                let ghost next = base + crate::buffer_manager::live_items(*page, i + 1);
                let ghost done = rows_view(found_rows@);
                proof {
                    assert(next =~= so_far.push(item_data@));
                    lemma_decode_all(types, so_far, so_far.len() as int);
                    lemma_decode_prefix(types, so_far, next, so_far.len() as int);
                }
                match table.schema.decode(item_data) {
                    Ok(decoded_row) => {
                        found_rows.push(decoded_row);
                        assert(rows_view(found_rows@) =~= done.push(decoded_row@));
                    },
                    Err(e) => {
                        proof {
                            let all = self.items(table_name@);
                            let whole = crate::buffer_manager::heap_items(pages, p + 1);
                            lemma_items_prefix(pages, p as int, page_count as int);
                            lemma_live_prefix(*page, i + 1, count as int);
                            let k = so_far.len() as int;
                            assert(next[k] == item_data@);
                            assert(whole == base + crate::buffer_manager::live_items(
                                *page,
                                count as int,
                            ));
                            assert(whole[k] == next[k]);
                            assert(all[k] == whole[k]);
                            lemma_decode_all(types, all, all.len() as int);
                        }
                        return Err(e);
                    },
                }
                i += 1;
            }
            assert(crate::buffer_manager::heap_items(pages, p + 1) == base
                + crate::buffer_manager::live_items(*page, count as int));
            p += 1;
        }
        Ok(found_rows)
    }

    /// Runs one `SELECT` through the read pipeline: it is parsed, analyzed
    /// against the catalog, lowered to operators and executed. The answer
    /// holds the analyzed output schema and all rows, none where the result
    /// is empty.
    ///
    /// Fails with `InvalidQuery` where the text is no statement or no
    /// `SELECT`, with `TableNotFound`, `ColumnNotFound` and `TypeMismatch`
    /// as the analysis finds, with `SerializationError` where a stored
    /// tuple does not decode, and with `DivisionByZero` or `TypeMismatch`
    /// where an expression fails on a row; no row is then returned.
    pub fn execute_query<F: FloatArithmetic>(
        &self,
        query: &str,
        evaluator: &ExpressionEvaluator<F>,
    ) -> (r: Result<QueryResponse, DatabaseError>)
        requires
            self.wf(),
        ensures
            match spec_statement(lex_tokens(query@, 0)) {
                None => r matches Err(DatabaseError::InvalidQuery(_)),
                Some(statement) => query_agrees(r, statement, *self),
            },
    {
        let statement = match parse_query(query) {
            Ok(s) => s,
            Err(e) => {
                return Err(e);
            },
        };
        let context = PlannerContext::new(self);
        let analyzer = Analyzer::new(&context, &evaluator.floats);
        let logical_plan = match analyzer.analyze(&statement) {
            Ok(p) => p,
            Err(e) => {
                return Err(e);
            },
        };
        let ghost plan = logical_plan;
        let schema = logical_plan.schema().duplicate();
        let mut physical_plan = match PhysicalPlan::from_logical_plan(logical_plan, self) {
            Ok(p) => p,
            Err(e) => {
                assert(answer_agrees(Err(e), plan, *self));
                return Err(e);
            },
        };
        match physical_plan.collect(evaluator) {
            Ok(rows) => {
                let response = QueryResponse { schema, rows };
                assert(answer_agrees(Ok(response), plan, *self));
                Ok(response)
            },
            Err(e) => {
                assert(answer_agrees(Err(e), plan, *self));
                Err(e)
            },
        }
    }

    /// Scan totality: where rows are inserted one after the other into a
    /// table that starts without tuples, a scan then finds exactly the
    /// inserted rows, each as often as it was inserted.
    pub proof fn lemma_scan_totality(
        states: Seq<Database>,
        name: Seq<char>,
        rows: Seq<Seq<ValueView>>,
    )
        requires
            states.len() == rows.len() + 1,
            states[0].items(name).len() == 0,
            forall|i: int|
                0 <= i < rows.len() ==> row_storable(
                    states[0].table(name).schema.types(),
                    #[trigger] rows[i],
                ),
            forall|i: int|
                0 <= i < rows.len() ==> Self::inserted(
                    #[trigger] states[i],
                    states[i + 1],
                    name,
                    rows[i],
                ),
        ensures
            states.last().scan(name) matches Some(found) && found.to_multiset()
                == rows.to_multiset(),
        decreases rows.len(),
    {
        broadcast use group_to_multiset_ensures;

        let types = states[0].table(name).schema.types();
        if rows.len() == 0 {
            assert(states.last().scan(name) == Some(Seq::<Seq<ValueView>>::empty()));
            assert(rows =~= Seq::empty());
        } else {
            let n = rows.len() as int;
            let earlier = states.drop_last();
            let first_rows = rows.drop_last();
            assert forall|i: int| 0 <= i < first_rows.len() implies Self::inserted(
                #[trigger] earlier[i],
                earlier[i + 1],
                name,
                first_rows[i],
            ) by {
                assert(Self::inserted(states[i], states[i + 1], name, rows[i]));
            }
            assert forall|i: int| 0 <= i < first_rows.len() implies row_storable(
                earlier[0].table(name).schema.types(),
                #[trigger] first_rows[i],
            ) by {
                assert(row_storable(types, rows[i]));
            }
            Self::lemma_scan_totality(earlier, name, first_rows);
            Self::lemma_same_catalog(states, name, rows, n - 1);
            Self::lemma_same_catalog(states, name, rows, n);
            let before = states[n - 1];
            let after = states[n];
            assert(earlier.last() == before);
            assert(states.last() == after);
            assert(Self::inserted(before, after, name, rows[n - 1]));
            let found = before.scan(name)->Some_0;
            let items = before.items(name);
            let k = choose|k: int|
                0 <= k <= items.len() && #[trigger] items.insert(k, encode_row(rows[n - 1]))
                    == after.items(name);
            let grown = items.insert(k, encode_row(rows[n - 1]));
            lemma_decode_all(types, items, items.len() as int);
            lemma_row_round_trip(types, rows[n - 1]);
            let found_after = found.insert(k, rows[n - 1]);
            assert forall|i: int| 0 <= i < grown.len() implies decode_row(
                types,
                #[trigger] grown[i],
            ) == Some(found_after[i]) by {
                if i < k {
                    assert(grown[i] == items[i]);
                } else if i > k {
                    assert(grown[i] == items[i - 1]);
                }
            }
            lemma_decode_each(types, grown, found_after, grown.len() as int);
            assert(found_after.take(grown.len() as int) =~= found_after);
            lemma_insert_to_multiset(found, k, rows[n - 1]);
            assert(first_rows.push(rows[n - 1]) =~= rows);
        }
    }

    /// Inserting rows leaves the catalog as it is.
    proof fn lemma_same_catalog(
        states: Seq<Database>,
        name: Seq<char>,
        rows: Seq<Seq<ValueView>>,
        upto: int,
    )
        requires
            states.len() == rows.len() + 1,
            0 <= upto <= rows.len(),
            forall|i: int|
                0 <= i < rows.len() ==> Self::inserted(
                    #[trigger] states[i],
                    states[i + 1],
                    name,
                    rows[i],
                ),
        ensures
            states[upto].tables == states[0].tables,
            states[upto].table(name) == states[0].table(name),
        decreases upto,
    {
        if upto > 0 {
            Self::lemma_same_catalog(states, name, rows, upto - 1);
            assert(Self::inserted(states[upto - 1], states[upto], name, rows[upto - 1]));
        }
    }
}

/// Whether the answer `r` to a query is what running `plan` on `db` comes
/// to: the rows of the plan under its schema; a `SerializationError` where
/// a stored tuple does not decode; a `DivisionByZero` or a `TypeMismatch`
/// where an expression fails on a row.
pub open spec fn answer_agrees(r: Result<QueryResponse, DatabaseError>, plan: LogicalPlan, db: Database) -> bool {
    if !scannable(plan, db) {
        r matches Err(e) && (e is SerializationError || e is TableNotFound)
    } else {
        match gathered(run(plan, db)) {
            Output::Rows(rows) => r matches Ok(response) && rows_view(response.rows@) == rows
                && response.schema@ == plan.fields(),
            Output::Fails(f) => r matches Err(e) && fault_is(e, f),
            Output::Floating => r matches Err(e) ==> is_row_fault(e),
        }
    }
}

/// Whether the answer `r` to the query `statement` is what the analysis of
/// the statement and the run of its plan on `db` come to. The plan is the
/// one that the analysis describes; where the statement holds a float
/// literal, its value in the plan is the float that the text writes.
pub open spec fn query_agrees(r: Result<QueryResponse, DatabaseError>, statement: StatementView, db: Database) -> bool {
    match analysis(statement, fields_of(db, statement)) {
        Analysis::Plan => statement matches StatementView::Select { targets, table_name, condition }
            && fields_of(db, statement) matches Some(fields) && exists|plan: LogicalPlan|
            #[trigger] plan_matches(targets, table_name, condition, fields, plan) && answer_agrees(
                r,
                plan,
                db,
            ),
        Analysis::TableNotFound(name) => r matches Err(e) && e.is_missing_table(name),
        Analysis::ColumnNotFound(name) => r matches Err(e) && e.is_missing_column(name),
        Analysis::TypeMismatch => r matches Err(DatabaseError::TypeMismatch(_)),
        Analysis::InvalidQuery => r matches Err(DatabaseError::InvalidQuery(_)),
    }
}

/// Column references to the first fields of a row, in order, give the row
/// from the first of them on.
proof fn lemma_project_columns(exprs: Seq<AnalyzedExpression>, row: Seq<ValueView>, k: int)
    requires
        0 <= k <= exprs.len(),
        exprs.len() == row.len(),
        forall|i: int|
            0 <= i < exprs.len() ==> (#[trigger] exprs[i] matches AnalyzedExpression::Column(
                column,
                _,
            ) && column.index == i),
    ensures
        project_from(exprs, row, k) == RowResult::Keep(row.skip(k)),
    decreases exprs.len() - k,
{
    if k < exprs.len() {
        lemma_project_columns(exprs, row, k + 1);
        assert(exprs[k] is Column);
        assert(seq![row[k]] + row.skip(k + 1) =~= row.skip(k));
    } else {
        assert(row.skip(k) =~= Seq::empty());
    }
}

/// A projection that keeps every row as it is gives the rows of its input.
proof fn lemma_transform_identity(op: RowOp, rows: Seq<Seq<ValueView>>, i: int)
    requires
        0 <= i <= rows.len(),
        forall|k: int|
            0 <= k < rows.len() ==> crate::sql::executor::row_result(op, #[trigger] rows[k])
                == RowResult::Keep(rows[k]),
    ensures
        transform(op, rows, i) == Output::Rows(rows.skip(i)),
    decreases rows.len() - i,
{
    if i < rows.len() {
        lemma_transform_identity(op, rows, i + 1);
        assert(seq![rows[i]] + rows.skip(i + 1) =~= rows.skip(i));
    } else {
        assert(rows.skip(i) =~= Seq::empty());
    }
}

/// `SELECT * FROM t` without a condition gives the rows of a scan of `t`,
/// in scan order, under the schema of the table.
pub proof fn lemma_select_star(plan: LogicalPlan, db: Database, name: Seq<char>)
    requires
        db.has_table(name),
        db.scan(name) is Some,
        plan_matches(
            seq![TargetView::Star],
            name,
            None,
            lifted(db.table(name).schema),
            plan,
        ),
    ensures
        scannable(plan, db),
        run(plan, db) == (Stream { batches: chunks(db.scan(name)->0, 0), end: End::Done }),
        gathered(run(plan, db)) == Output::Rows(db.scan(name)->0),
        plan.fields() == lifted(db.table(name).schema),
{
    let fields = lifted(db.table(name).schema);
    let types = db.table(name).schema.types();
    let rows = db.scan(name)->0;
    let items = db.items(name);
    lemma_decode_all(types, items, items.len() as int);
    if let LogicalPlan::Projection { input, expressions, schema } = plan {
        let exprs = expressions@;
        let targets = seq![TargetView::Star];
        assert(crate::sql::analyzer::projected_fields(targets, fields, 1) =~= fields) by {
            assert(crate::sql::analyzer::projected_fields(targets, fields, 0) =~= Seq::empty());
        }
        reveal_with_fuel(crate::sql::analyzer::projection_binds, 2);
        reveal_with_fuel(scannable, 2);
        reveal_with_fuel(run, 2);
        assert(*input is Scan);
        assert(scannable(*input, db));
        assert(run(*input, db) == Stream { batches: chunks(rows, 0), end: End::Done });
        assert(crate::sql::analyzer::target_fields(targets[0], fields) == fields);
        assert(exprs.take(exprs.len() - fields.len()).len() == 0);
        assert(exprs.len() == fields.len());
        assert(exprs.skip(0) =~= exprs);
        assert(fields.len() == db.table(name).schema.columns.len());
        assert forall|i: int| 0 <= i < exprs.len() implies (
        #[trigger] exprs[i] matches AnalyzedExpression::Column(column, _) && column.index == i) by {
            assert(exprs[i] == exprs.skip(0)[i]);
        }
        let op = RowOp::Project(exprs);
        assert forall|k: int| 0 <= k < rows.len() implies crate::sql::executor::row_result(
            op,
            #[trigger] rows[k],
        ) == RowResult::Keep(rows[k]) by {
            lemma_decode_row_nulls(types, items[k]);
            assert(decode_row(types, items[k]) == Some(rows[k]));
            lemma_project_columns(exprs, rows[k], 0);
            assert(rows[k].skip(0) =~= rows[k]);
        }
        lemma_chunks_identity(op, rows, 0);
        assert(rows.skip(0) =~= rows);
    }
}

/// The rows of a batch in front of the rows of the batches behind it.
proof fn lemma_flatten_front(
    first: Seq<Seq<ValueView>>,
    rest: Seq<Seq<Seq<ValueView>>>,
    n: int,
)
    requires
        0 <= n <= rest.len(),
    ensures
        flatten(seq![first] + rest, n + 1) == first + flatten(rest, n),
    decreases n,
{
    let all = seq![first] + rest;
    if n > 0 {
        lemma_flatten_front(first, rest, n - 1);
        assert(all[n] == rest[n - 1]);
        assert(flatten(all, n + 1) =~= first + flatten(rest, n));
    } else {
        assert(flatten(all, 0) =~= Seq::empty());
        assert(flatten(all, 1) =~= first + flatten(rest, 0));
    }
}

/// An operator that keeps every row of a scan as it is hands out the
/// batches of the scan, and these hold the rows of the scan in order.
proof fn lemma_chunks_identity(op: RowOp, rows: Seq<Seq<ValueView>>, from: int)
    requires
        0 <= from <= rows.len(),
        forall|k: int|
            0 <= k < rows.len() ==> crate::sql::executor::row_result(op, #[trigger] rows[k])
                == RowResult::Keep(rows[k]),
    ensures
        through(op, Stream { batches: chunks(rows, from), end: End::Done }, 0) == (Stream {
            batches: chunks(rows, from),
            end: End::Done,
        }),
        flatten(chunks(rows, from), chunks(rows, from).len() as int) == rows.skip(from),
    decreases rows.len() - from,
{
    let all = Stream { batches: chunks(rows, from), end: End::Done };
    if from >= rows.len() {
        assert(rows.skip(from) =~= Seq::empty());
    } else {
        let end = if rows.len() - from > 1024 {
            from + 1024
        } else {
            rows.len() as int
        };
        let first = rows.subrange(from, end);
        let rest = chunks(rows, end);
        lemma_chunks_identity(op, rows, end);
        assert forall|k: int| 0 <= k < first.len() implies crate::sql::executor::row_result(
            op,
            #[trigger] first[k],
        ) == RowResult::Keep(first[k]) by {
            assert(first[k] == rows[from + k]);
        }
        lemma_transform_identity(op, first, 0);
        assert(first.skip(0) =~= first);
        assert(all.batches[0] == first);
        crate::sql::executor::lemma_through_behind(op, all, 0);
        assert(crate::sql::executor::behind(all).batches =~= rest);
        lemma_flatten_front(first, rest, rest.len() as int);
        assert(first + rows.skip(end) =~= rows.skip(from));
    }
}

/// The contents of a vector of rows.
pub open spec fn rows_view(rows: Seq<Row>) -> Seq<Seq<ValueView>> {
    Seq::new(rows.len(), |i: int| rows[i]@)
}

/// A table whose pages were searched for room has the pages it had, and
/// maybe one new, empty page behind them, which holds no tuple.
proof fn lemma_fresh_page(before: Seq<Page>, now: Seq<Page>)
    requires
        now == before || (now.len() == before.len() + 1 && now.subrange(0, before.len() as int)
            == before && now[before.len() as int].header.item_count == 0),
    ensures
        crate::buffer_manager::heap_items(now, now.len() as int)
            == crate::buffer_manager::heap_items(before, before.len() as int),
{
    if now != before {
        let n = before.len() as int;
        assert forall|i: int| 0 <= i < n implies now[i] == before[i] by {
            assert(now.subrange(0, n)[i] == before[i]);
        }
        lemma_same_items(now, before, n);
        assert(crate::buffer_manager::page_items(now[n]) =~= Seq::<Seq<u8>>::empty());
        assert(crate::buffer_manager::heap_items(now, n + 1) =~= crate::buffer_manager::heap_items(
            now,
            n,
        ));
    }
}

proof fn lemma_same_items(a: Seq<Page>, b: Seq<Page>, n: int)
    requires
        0 <= n <= a.len(),
        n <= b.len(),
        forall|i: int| 0 <= i < n ==> a[i] == b[i],
    ensures
        crate::buffer_manager::heap_items(a, n) == crate::buffer_manager::heap_items(b, n),
    decreases n,
{
    if n > 0 {
        lemma_same_items(a, b, n - 1);
    }
}

/// Decoding the first `n` tuples does not depend on the tuples behind them.
proof fn lemma_decode_prefix(types: Seq<DataType>, a: Seq<Seq<u8>>, b: Seq<Seq<u8>>, n: int)
    requires
        0 <= n <= a.len(),
        n <= b.len(),
        forall|i: int| 0 <= i < n ==> a[i] == b[i],
    ensures
        decode_all(types, a, n) == decode_all(types, b, n),
    decreases n,
{
    if n > 0 {
        lemma_decode_prefix(types, a, b, n - 1);
    }
}

/// The tuples of the first `p` pages and the first slots of the next page
/// stand at the start of the tuples of all pages.
proof fn lemma_items_prefix(pages: Seq<Page>, p: int, n: int)
    requires
        0 <= p < n <= pages.len(),
    ensures
        crate::buffer_manager::heap_items(pages, p + 1).is_prefix_of(
            crate::buffer_manager::heap_items(pages, n),
        ),
    decreases n,
{
    if n > p + 1 {
        lemma_items_prefix(pages, p, n - 1);
    }
}

/// The live tuples of the first `i` slots stand at the start of those of
/// the first `count` slots.
proof fn lemma_live_prefix(page: Page, i: int, count: int)
    requires
        0 <= i <= count,
    ensures
        crate::buffer_manager::live_items(page, i).is_prefix_of(
            crate::buffer_manager::live_items(page, count),
        ),
    decreases count,
{
    if count > i {
        lemma_live_prefix(page, i, count - 1);
    }
}

} // verus!
