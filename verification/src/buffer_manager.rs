//! The buffer pool: the pages of every table, held in memory. The pages of
//! one table are numbered from zero without gaps, as they lie in its file.

use crate::error::DatabaseError;
use crate::page::{ItemId, Page, PageId, PageType};
use crate::text::str_eq;
use vstd::prelude::*;
use vstd::seq_lib::*;

verus! {

/// The search ceiling: no table has more pages than this.
pub const MAX_PAGES: usize = 1000;

/// Where the pages of one table are kept on disk.
#[derive(Debug, Clone)]
pub struct TableFile {
    pub table_id: u32,
    pub table_name: String,
    pub file_path: String,
    pub page_count: u32,
}

/// The cached pages of one table; the page at index `k` has page id `k`.
#[derive(Debug)]
pub struct TablePages {
    pub table_name: String,
    pub pages: Vec<Page>,
}

/// The tuples of the first `k` slots of `page` that are not deleted, in slot order.
pub open spec fn live_items(page: Page, k: int) -> Seq<Seq<u8>>
    decreases k,
{
    if k <= 0 {
        Seq::empty()
    } else if page.pointer_at(k - 1).deleted() {
        live_items(page, k - 1)
    } else {
        live_items(page, k - 1).push(page.item(k - 1))
    }
}

/// All live tuples of a page, in slot order.
pub open spec fn page_items(page: Page) -> Seq<Seq<u8>> {
    live_items(page, page.header.item_count as int)
}

/// The live tuples of the first `n` pages, in page order and then slot order.
pub open spec fn heap_items(pages: Seq<Page>, n: int) -> Seq<Seq<u8>>
    decreases n,
{
    if n <= 0 {
        Seq::empty()
    } else {
        heap_items(pages, n - 1) + page_items(pages[n - 1])
    }
}

/// The pages of one table are well formed and numbered by their position.
pub open spec fn pages_wf(pages: Seq<Page>) -> bool {
    &&& pages.len() <= MAX_PAGES
    &&& forall|k: int|
        0 <= k < pages.len() ==> (#[trigger] pages[k]).wf() && pages[k].header.page_id == k
}

/// Whether `after` is `before` with `payload` added as its newest item.
pub open spec fn page_grown(before: Page, after: Page, payload: Seq<u8>) -> bool {
    &&& before.spec_free_space() >= payload.len() + 5
    &&& after.header == before.with_item(payload).0
    &&& after.data@ == before.with_item(payload).1
}

/// The first page among the first `n` with room for a payload of `size`
/// bytes and its item pointer, or `n` if there is none.
pub open spec fn first_fit(pages: Seq<Page>, size: int, n: int) -> int
    decreases n,
{
    if n <= 0 {
        0
    } else {
        let before = first_fit(pages, size, n - 1);
        if before < n - 1 {
            before
        } else if pages[n - 1].spec_free_space() >= size + 5 {
            n - 1
        } else {
            n
        }
    }
}

/// What the first fit is: the lowest index whose page has room.
pub proof fn lemma_first_fit(pages: Seq<Page>, size: int, n: int)
    requires
        0 <= n <= pages.len(),
    ensures
        0 <= first_fit(pages, size, n) <= n,
        first_fit(pages, size, n) < n ==> pages[first_fit(pages, size, n)].spec_free_space()
            >= size + 5,
        forall|k: int|
            0 <= k < first_fit(pages, size, n) ==> (#[trigger] pages[k]).spec_free_space() < size
                + 5,
    decreases n,
{
    if n > 0 {
        lemma_first_fit(pages, size, n - 1);
    }
}

/// Adding an item to a page adds it at the end of the page's live tuples.
pub proof fn lemma_page_grown(before: Page, after: Page, payload: Seq<u8>)
    requires
        before.wf(),
        page_grown(before, after, payload),
    ensures
        after.wf(),
        page_items(after) == page_items(before).push(payload),
{
    before.lemma_with_item(payload, after);
    let count = before.header.item_count as int;
    lemma_live_items_same(before, after, count);
    assert(!after.pointer_at(count).deleted()) by {
        assert(0u8 & 1u8 == 0u8) by (bit_vector);
    }
}

/// Pages that agree on their first `k` slots have the same live tuples there.
proof fn lemma_live_items_same(a: Page, b: Page, k: int)
    requires
        forall|i: int| 0 <= i < k ==> #[trigger] b.pointer_at(i) == a.pointer_at(i) && b.item(i) == a.item(i),
    ensures
        live_items(b, k) == live_items(a, k),
    decreases k,
{
    if k > 0 {
        lemma_live_items_same(a, b, k - 1);
        assert(b.pointer_at(k - 1) == a.pointer_at(k - 1));
    }
}

/// Pages that agree on their first `n` entries hold the same tuples there.
proof fn lemma_heap_items_same(a: Seq<Page>, b: Seq<Page>, n: int)
    requires
        0 <= n <= a.len(),
        n <= b.len(),
        forall|i: int| 0 <= i < n ==> a[i] == b[i],
    ensures
        heap_items(a, n) == heap_items(b, n),
    decreases n,
{
    if n > 0 {
        lemma_heap_items_same(a, b, n - 1);
    }
}

/// The number of live tuples in the first `n` pages.
pub open spec fn heap_count(pages: Seq<Page>, n: int) -> int {
    heap_items(pages, n).len() as int
}

/// Replacing page `at` by one that holds `payload` besides puts `payload`
/// into the tuples of the heap, behind the tuples of that page, and changes
/// nothing else.
pub proof fn lemma_heap_grown(before: Seq<Page>, after: Seq<Page>, at: int, payload: Seq<u8>, n: int)
    requires
        0 <= at < n <= before.len(),
        after.len() == before.len(),
        forall|i: int| 0 <= i < before.len() && i != at ==> after[i] == before[i],
        page_items(after[at]) == page_items(before[at]).push(payload),
    ensures
        heap_count(before, at + 1) <= heap_count(before, n),
        heap_items(after, n) == heap_items(before, n).insert(heap_count(before, at + 1), payload),
    decreases n,
{
    if at == n - 1 {
        lemma_heap_items_same(before, after, n - 1);
        assert(heap_items(after, n) =~= heap_items(before, n).insert(
            heap_count(before, at + 1),
            payload,
        ));
    } else {
        lemma_heap_grown(before, after, at, payload, n - 1);
        assert(heap_items(after, n) =~= heap_items(before, n).insert(
            heap_count(before, at + 1),
            payload,
        ));
    }
}

/// Putting one element into a sequence adds it, once, to the elements that
/// the sequence holds.
pub proof fn lemma_insert_to_multiset<A>(s: Seq<A>, k: int, x: A)
    requires
        0 <= k <= s.len(),
    ensures
        s.insert(k, x).to_multiset() == s.to_multiset().insert(x),
{
    broadcast use group_to_multiset_ensures;

    let t = s.insert(k, x);
    assert(t.remove(k) =~= s);
    assert(t[k] == x);
    assert(t.to_multiset().count(x) > 0) by {
        assert(t.contains(x));
    }
    assert(t.to_multiset() =~= s.to_multiset().insert(x));
}

/// The in-memory cache of pages, keyed by table name and page id.
#[derive(Debug)]
pub struct BufferManager {
    pub tables: Vec<TablePages>,
}

impl BufferManager {
    /// The pool invariant: no table name occurs twice, and the pages of every
    /// table are well formed and numbered by their position.
    pub open spec fn wf(self) -> bool {
        &&& forall|i: int, j: int|
            0 <= i < j < self.tables@.len() ==> (#[trigger] self.tables@[i]).table_name@ != (
            #[trigger] self.tables@[j]).table_name@
        &&& forall|i: int| 0 <= i < self.tables@.len() ==> pages_wf((#[trigger] self.tables@[i]).pages@)
    }

    /// Whether the pool holds pages of the table `name`.
    pub open spec fn has_table(self, name: Seq<char>) -> bool {
        exists|i: int| 0 <= i < self.tables@.len() && (#[trigger] self.tables@[i]).table_name@ == name
    }

    /// The index of the entry for the table `name`.
    pub open spec fn index_of(self, name: Seq<char>) -> int {
        choose|i: int| 0 <= i < self.tables@.len() && (#[trigger] self.tables@[i]).table_name@ == name
    }

    /// The cached pages of the table `name`, in page order; none if the pool
    /// has no page of that table.
    pub open spec fn pages_of(self, name: Seq<char>) -> Seq<Page> {
        if self.has_table(name) {
            self.tables@[self.index_of(name)].pages@
        } else {
            Seq::empty()
        }
    }

    /// The live tuples of the table `name`, in page order and then slot order.
    pub open spec fn items_of(self, name: Seq<char>) -> Seq<Seq<u8>> {
        heap_items(self.pages_of(name), self.pages_of(name).len() as int)
    }

    /// In a well-formed pool the entry at index `i` is the entry of its name.
    pub proof fn lemma_index(self, i: int)
        requires
            self.wf(),
            0 <= i < self.tables@.len(),
        ensures
            self.has_table(self.tables@[i].table_name@),
            self.index_of(self.tables@[i].table_name@) == i,
            self.pages_of(self.tables@[i].table_name@) == self.tables@[i].pages@,
    {
        let name = self.tables@[i].table_name@;
        let j = self.index_of(name);
        if j < i {
            assert(self.tables@[j].table_name@ != self.tables@[i].table_name@);
        } else if i < j {
            assert(self.tables@[i].table_name@ != self.tables@[j].table_name@);
        }
    }

    /// An empty pool.
    pub fn new() -> (pool: Self)
        ensures
            pool.wf(),
            pool.tables@.len() == 0,
            forall|name: Seq<char>| pool.pages_of(name) == Seq::<Page>::empty(),
    {
        Self { tables: Vec::new() }
    }

    /// The index of the entry for `table_name`, if the pool has one.
    fn find_table(&self, table_name: &str) -> (found: Option<usize>)
        requires
            self.wf(),
        ensures
            found is Some <==> self.has_table(table_name@),
            found matches Some(i) ==> i < self.tables@.len() && self.index_of(table_name@) == i
                && self.tables@[i as int].table_name@ == table_name@,
    {
        let n: usize = self.tables.len();
        let mut i: usize = 0;
        while i < n
            invariant
                i <= n,
                n == self.tables@.len(),
                self.wf(),
                forall|k: int| 0 <= k < i ==> (#[trigger] self.tables@[k]).table_name@ != table_name@,
            decreases n - i,
        {
            if str_eq(self.tables[i].table_name.as_str(), table_name) {
                proof {
                    self.lemma_index(i as int);
                }
                return Some(i);
            }
            i += 1;
        }
        None
    }

    /// The number of cached pages of `table_name`.
    pub fn page_count(&self, table_name: &str) -> (count: usize)
        requires
            self.wf(),
        ensures
            count == self.pages_of(table_name@).len(),
    {
        match self.find_table(table_name) {
            Some(i) => self.tables[i].pages.len(),
            None => 0,
        }
    }

    /// The cached page `page_id` of `table_name`, or `None` on a miss.
    pub fn get_page(&self, table_name: &str, page_id: PageId) -> (page: Option<&Page>)
        requires
            self.wf(),
        ensures
            page_id < self.pages_of(table_name@).len() ==> page == Some(
                &self.pages_of(table_name@)[page_id as int],
            ),
            page_id >= self.pages_of(table_name@).len() ==> page is None,
    {
        match self.find_table(table_name) {
            Some(i) => {
                if (page_id as usize) < self.tables[i].pages.len() {
                    Some(&self.tables[i].pages[page_id as usize])
                } else {
                    None
                }
            },
            None => None,
        }
    }

    /// The index of the entry for `table_name`, made first if there is none.
    fn entry(&mut self, table_name: &str) -> (i: usize)
        requires
            old(self).wf(),
        ensures
            final(self).wf(),
            i < final(self).tables@.len(),
            final(self).tables@[i as int].table_name@ == table_name@,
            final(self).index_of(table_name@) == i,
            final(self).has_table(table_name@),
            final(self).tables@[i as int].pages@ == old(self).pages_of(table_name@),
            forall|name: Seq<char>| final(self).pages_of(name) == old(self).pages_of(name),
    {
        match self.find_table(table_name) {
            Some(i) => i,
            None => {
                let at: usize = self.tables.len();
                self.tables.push(TablePages { table_name: table_name.to_owned(), pages: Vec::new() });
                proof {
                    assert forall|a: int, b: int| 0 <= a < b < self.tables@.len() implies (
                    #[trigger] self.tables@[a]).table_name@ != (#[trigger] self.tables@[b]).table_name@ by {
                        if b == at {
                            assert(self.tables@[a] == old(self).tables@[a]);
                        } else {
                            assert(self.tables@[a] == old(self).tables@[a]);
                            assert(self.tables@[b] == old(self).tables@[b]);
                        }
                    }
                    assert forall|a: int| 0 <= a < self.tables@.len() implies pages_wf(
                        (#[trigger] self.tables@[a]).pages@,
                    ) by {
                        if a < at {
                            assert(self.tables@[a] == old(self).tables@[a]);
                        }
                    }
                    self.lemma_index(at as int);
                    assert forall|name: Seq<char>| self.pages_of(name) == old(self).pages_of(
                        name,
                    ) by {
                        if name == table_name@ {
                        } else if old(self).has_table(name) {
                            let k = old(self).index_of(name);
                            assert(self.tables@[k] == old(self).tables@[k]);
                            self.lemma_index(k);
                        } else if self.has_table(name) {
                            let k = self.index_of(name);
                            assert(self.tables@[k] == old(self).tables@[k]);
                        }
                    }
                }
                at
            },
        }
    }

    /// Appends a page that was read from the table's file to the cached pages
    /// of `table_name` and returns its page id.
    ///
    /// Fails with `SerializationError`, leaving the pool as it was, unless the
    /// page is well formed and carries the next page id of the table; fails
    /// with `NoFreePage` where the table already has `MAX_PAGES` pages.
    pub fn put_page(&mut self, table_name: &str, page: Page) -> (r: Result<PageId, DatabaseError>)
        requires
            old(self).wf(),
        ensures
            final(self).wf(),
            forall|name: Seq<char>|
                name != table_name@ ==> final(self).pages_of(name) == old(self).pages_of(name),
            match r {
                Ok(id) => {
                    &&& page.wf()
                    &&& id == old(self).pages_of(table_name@).len()
                    &&& id == page.header.page_id
                    &&& final(self).pages_of(table_name@) == old(self).pages_of(table_name@).push(
                        page,
                    )
                },
                Err(e) => {
                    &&& final(self).pages_of(table_name@) == old(self).pages_of(table_name@)
                    &&& if old(self).pages_of(table_name@).len() >= MAX_PAGES {
                        e == DatabaseError::NoFreePage
                    } else {
                        e is SerializationError && !(page.wf() && page.header.page_id == old(self).pages_of(table_name@).len())
                    }
                },
            },
    {
        let count: usize = self.page_count(table_name);
        if count >= MAX_PAGES {
            return Err(DatabaseError::NoFreePage);
        }
        if !page.validate() || page.header.page_id as usize != count {
            return Err(
                DatabaseError::SerializationError("page does not continue the table".to_string()),
            );
        }
        let t: usize = self.entry(table_name);
        let ghost mid = *self;
        self.tables[t].pages.push(page);
        proof {
            self.lemma_replaced(mid, t as int);
        }
        Ok(count as u32)
    }

    /// After the pages of entry `t` changed and stayed well formed, the pool
    /// is well formed, and every other table has the pages it had.
    proof fn lemma_replaced(self, before: Self, t: int)
        requires
            before.wf(),
            0 <= t < before.tables@.len(),
            self.tables@.len() == before.tables@.len(),
            self.tables@[t].table_name@ == before.tables@[t].table_name@,
            pages_wf(self.tables@[t].pages@),
            forall|k: int| 0 <= k < before.tables@.len() && k != t ==> self.tables@[k] == before.tables@[k],
        ensures
            self.wf(),
            self.pages_of(before.tables@[t].table_name@) == self.tables@[t].pages@,
            forall|name: Seq<char>|
                name != before.tables@[t].table_name@ ==> self.pages_of(name) == before.pages_of(name),
    {
        assert forall|a: int, b: int| 0 <= a < b < self.tables@.len() implies (
        #[trigger] self.tables@[a]).table_name@ != (#[trigger] self.tables@[b]).table_name@ by {
            assert(before.tables@[a].table_name@ != before.tables@[b].table_name@);
        }
        assert forall|a: int| 0 <= a < self.tables@.len() implies pages_wf(
            (#[trigger] self.tables@[a]).pages@,
        ) by {
            if a != t {
                assert(self.tables@[a] == before.tables@[a]);
            }
        }
        self.lemma_index(t);
        assert forall|name: Seq<char>| name != before.tables@[t].table_name@ implies self.pages_of(
            name,
        ) == before.pages_of(name) by {
            if before.has_table(name) {
                let k = before.index_of(name);
                assert(self.tables@[k] == before.tables@[k]);
                self.lemma_index(k);
            } else if self.has_table(name) {
                let k = self.index_of(name);
                assert(self.tables@[k] == before.tables@[k]);
            }
        }
    }

    /// Finds the page of `table_name` that a payload of `size` bytes goes to:
    /// the first cached page with room for the payload and its item pointer,
    /// or else a new empty page at the next page id.
    ///
    /// Fails with `NoFreePage`, leaving the pool as it was, where every page
    /// up to the ceiling is full: where the table has all its pages and none
    /// has room, or where the payload is larger than an empty page can hold.
    #[verifier::loop_isolation(false)]
    pub fn get_free_page(&mut self, table_name: &str, size: usize) -> (r: Result<
        PageId,
        DatabaseError,
    >)
        requires
            old(self).wf(),
        ensures
            final(self).wf(),
            forall|name: Seq<char>|
                name != table_name@ ==> final(self).pages_of(name) == old(self).pages_of(name),
            ({
                let pages = old(self).pages_of(table_name@);
                let fit = first_fit(pages, size as int, pages.len() as int);
                if size + 5 > 8168 {
                    r == Err::<PageId, DatabaseError>(DatabaseError::NoFreePage)
                        && final(self).pages_of(table_name@) == pages
                } else if fit < pages.len() {
                    r == Ok::<PageId, DatabaseError>(fit as PageId) && final(self).pages_of(
                        table_name@,
                    ) == pages
                } else if pages.len() < MAX_PAGES {
                    &&& r == Ok::<PageId, DatabaseError>(pages.len() as u32)
                    &&& final(self).pages_of(table_name@).len() == pages.len() + 1
                    &&& final(self).pages_of(table_name@).subrange(0, pages.len() as int) == pages
                    &&& final(self).pages_of(table_name@)[pages.len() as int].header
                        == crate::page::PageHeader {
                        page_id: pages.len() as u32,
                        page_type: PageType::Table,
                        lower: 24,
                        upper: 8192,
                        item_count: 0,
                        special: 8192,
                    }
                    &&& final(self).pages_of(table_name@)[pages.len() as int].data@ == Seq::new(
                        8168,
                        |i: int| 0u8,
                    )
                } else {
                    r == Err::<PageId, DatabaseError>(DatabaseError::NoFreePage) && final(self).pages_of(table_name@) == pages
                }
            }),
    {
        if size > 8163 {
            return Err(DatabaseError::NoFreePage);
        }
        let t: usize = self.entry(table_name);
        let ghost mid = *self;
        let ghost pages = self.tables@[t as int].pages@;
        let count: usize = self.tables[t].pages.len();
        let mut page_id: usize = 0;
        while page_id < count
            invariant
                page_id <= count,
                t < self.tables@.len(),
                size <= 8163,
                *self == mid,
                count == pages.len(),
                pages == self.tables@[t as int].pages@,
                pages_wf(pages),
                first_fit(pages, size as int, page_id as int) == page_id,
            decreases count - page_id,
        {
            assert(pages[page_id as int].wf());
            if self.tables[t].pages[page_id].free_space() >= size + 5 {
                proof {
                    lemma_first_fit_found(pages, size as int, page_id as int, count as int);
                }
                return Ok(page_id as u32);
            }
            page_id += 1;
        }
        if count >= MAX_PAGES {
            return Err(DatabaseError::NoFreePage);
        }
        let new_page = Page::new(count as u32, PageType::Table);
        self.tables[t].pages.push(new_page);
        proof {
            self.lemma_replaced(mid, t as int);
            assert(self.pages_of(table_name@).subrange(0, pages.len() as int) =~= pages);
        }
        Ok(count as u32)
    }

    /// Appends `data` to the cached page `page_id` of `table_name`.
    ///
    /// Fails with `ItemNotFound` where the page is not cached and with
    /// `NotEnoughSpace` where it has too little room; the pool is then as it was.
    pub fn add_data(&mut self, table_name: &str, page_id: PageId, data: &[u8]) -> (r: Result<
        ItemId,
        DatabaseError,
    >)
        requires
            old(self).wf(),
        ensures
            final(self).wf(),
            forall|name: Seq<char>|
                name != table_name@ ==> final(self).pages_of(name) == old(self).pages_of(name),
            ({
                let pages = old(self).pages_of(table_name@);
                let after = final(self).pages_of(table_name@);
                if page_id >= pages.len() {
                    r == Err::<ItemId, DatabaseError>(DatabaseError::ItemNotFound) && after == pages
                } else if pages[page_id as int].spec_free_space() < data@.len() + 5 {
                    r == Err::<ItemId, DatabaseError>(DatabaseError::NotEnoughSpace) && after
                        == pages
                } else {
                    &&& r == Ok::<ItemId, DatabaseError>(pages[page_id as int].header.item_count)
                    &&& after.len() == pages.len()
                    &&& page_grown(pages[page_id as int], after[page_id as int], data@)
                    &&& forall|k: int| 0 <= k < pages.len() && k != page_id ==> after[k] == pages[k]
                    &&& heap_count(pages, page_id + 1) <= old(self).items_of(table_name@).len()
                    &&& final(self).items_of(table_name@) == old(self).items_of(table_name@).insert(
                        heap_count(pages, page_id + 1),
                        data@,
                    )
                }
            }),
    {
        let t: usize = match self.find_table(table_name) {
            Some(t) => t,
            None => {
                return Err(DatabaseError::ItemNotFound);
            },
        };
        let p: usize = page_id as usize;
        if p >= self.tables[t].pages.len() {
            return Err(DatabaseError::ItemNotFound);
        }
        let ghost before = *self;
        let ghost pages = self.tables@[t as int].pages@;
        assert(pages[p as int].wf());
        match self.tables[t].pages[p].add_data(data) {
            Ok(item_id) => {
                proof {
                    let after = self.tables@[t as int].pages@;
                    assert(after.len() == pages.len());
                    assert forall|k: int| 0 <= k < after.len() implies (#[trigger] after[k]).wf()
                        && after[k].header.page_id == k by {
                        assert(pages[k].wf());
                    }
                    self.lemma_replaced(before, t as int);
                    lemma_page_grown(pages[p as int], after[p as int], data@);
                    lemma_heap_grown(pages, after, p as int, data@, pages.len() as int);
                }
                Ok(item_id)
            },
            Err(e) => {
                proof {
                    let after = self.tables@[t as int].pages@;
                    assert(after =~= pages);
                    self.lemma_replaced(before, t as int);
                }
                Err(e)
            },
        }
    }

    /// The bytes of the cached page `page_id` of `table_name`, to be written
    /// to the table's file at offset `page_id * PAGE_SIZE`; `None` on a miss.
    pub fn save_page(&self, table_name: &str, page_id: PageId) -> (block: Option<[u8; 8192]>)
        requires
            self.wf(),
        ensures
            page_id < self.pages_of(table_name@).len() && self.pages_of(
                table_name@,
            )[page_id as int].header.page_type.is_storable() ==> block is Some && block->Some_0@
                == self.pages_of(table_name@)[page_id as int].encode(),
            !(page_id < self.pages_of(table_name@).len() && self.pages_of(
                table_name@,
            )[page_id as int].header.page_type.is_storable()) ==> block is None,
    {
        match self.get_page(table_name, page_id) {
            Some(page) => match page.header.page_type {
                PageType::Table | PageType::Catalog => Some(page.to_bytes()),
                _ => None,
            },
            None => None,
        }
    }
}

/// A page with room at index `at`, none before it, is the first fit.
proof fn lemma_first_fit_found(pages: Seq<Page>, size: int, at: int, n: int)
    requires
        0 <= at < n <= pages.len(),
        first_fit(pages, size, at) == at,
        pages[at].spec_free_space() >= size + 5,
    ensures
        first_fit(pages, size, n) == at,
    decreases n,
{
    if n > at + 1 {
        lemma_first_fit_found(pages, size, at, n - 1);
    }
}

} // verus!
