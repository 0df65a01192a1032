//! In-memory record store: the keyed, paginated store interface the refresh
//! engine and its tests drive. The scan is resumable through an index cursor;
//! point reads and full-overwrite writes go by key.

use vstd::prelude::*;

use crate::model::Record;

verus! {

/// The resume position a scan cursor denotes: the top of the table for
/// `None`.
pub open spec fn cursor_index(cursor: Option<usize>) -> int {
    match cursor {
        None => 0,
        Some(c) => c as int,
    }
}

/// A record store held in memory, in insertion order, with distinct keys.
#[derive(Debug)]
pub struct MemStore {
    pub records: Vec<Record>,
}

impl MemStore {
    /// Well-formed: no two records share a key.
    pub open spec fn wf(self) -> bool {
        forall|i: int, j: int|
            0 <= i < j < self.records@.len() ==> self.records@[i].key@ != self.records@[j].key@
    }

    /// The stored keys, in store order.
    pub open spec fn keys(self) -> Seq<Seq<char>> {
        self.records@.map_values(|r: Record| r.key@)
    }

    pub fn new() -> (r: MemStore)
        ensures
            r.records@.len() == 0,
            r.wf(),
    {
        MemStore { records: Vec::new() }
    }

    /// One scan page: up to `page_size` records from the cursor position, and
    /// the cursor to resume from — `None` once the table is exhausted.
    pub fn scan<'a>(&'a self, cursor: Option<usize>, page_size: usize) -> (r: (
        Vec<&'a Record>,
        Option<usize>,
    ))
        requires
            page_size >= 1,
            cursor matches Some(c) ==> c < self.records@.len(),
        ensures
            ({
                let start = cursor_index(cursor);
                let end = if start + page_size <= self.records@.len() {
                    start + page_size
                } else {
                    self.records@.len() as int
                };
                &&& r.0@.len() == end - start
                &&& forall|i: int| 0 <= i < r.0@.len() ==> *r.0@[i] == self.records@[start + i]
                &&& r.1 == (if end < self.records@.len() {
                    Some(end as usize)
                } else {
                    None::<usize>
                })
            }),
    {
        let start = match cursor {
            None => 0,
            Some(c) => c,
        };
        let len = self.records.len();
        let end = if len - start <= page_size {
            len
        } else {
            start + page_size
        };
        let mut page: Vec<&Record> = Vec::new();
        let mut i = start;
        while i < end
            invariant
                start <= i <= end <= self.records@.len(),
                page@.len() == i - start,
                forall|j: int| 0 <= j < page@.len() ==> *page@[j] == self.records@[start + j],
            decreases end - i,
        {
            page.push(&self.records[i]);
            i = i + 1;
        }
        let next = if end < len {
            Some(end)
        } else {
            None
        };
        (page, next)
    }

    /// Point read by key.
    pub fn get(&self, key: &String) -> (r: Option<&Record>)
        ensures
            r matches Some(rec) ==> exists|i: int|
                0 <= i < self.records@.len() && #[trigger] self.records@[i] == *rec && rec.key@
                    == key@,
            r is None ==> forall|i: int|
                0 <= i < self.records@.len() ==> self.records@[i].key@ != key@,
    {
        let n = self.records.len();
        let mut i: usize = 0;
        while i < n
            invariant
                i <= n,
                n == self.records@.len(),
                forall|j: int| 0 <= j < i ==> self.records@[j].key@ != key@,
            decreases n - i,
        {
            if self.records[i].key == *key {
                return Some(&self.records[i]);
            }
            i = i + 1;
        }
        None
    }

    /// Full-overwrite write: replaces the record stored under the same key,
    /// or appends when the key is new. Last writer wins.
    #[verifier::loop_isolation(false)]
    pub fn put(&mut self, record: Record)
        requires
            old(self).wf(),
        ensures
            final(self).wf(),
            forall|i: int|
                0 <= i < old(self).records@.len() && old(self).records@[i].key@ == record.key@
                    ==> final(self).records@ == old(self).records@.update(i, record),
            (forall|i: int|
                0 <= i < old(self).records@.len() ==> old(self).records@[i].key@ != record.key@)
                ==> final(self).records@ == old(self).records@.push(record),
    {
        let n = self.records.len();
        let mut i: usize = 0;
        while i < n
            invariant
                i <= n,
                n == self.records@.len(),
                self == old(self),
                forall|j: int| 0 <= j < i ==> self.records@[j].key@ != record.key@,
            decreases n - i,
        {
            if self.records[i].key == record.key {
                let ghost k = i as int;
                self.records[i] = record;
                proof {
                    assert(self.records@ =~= old(self).records@.update(k, self.records@[k]));
                    assert forall|a: int, b: int|
                        0 <= a < b < self.records@.len() implies self.records@[a].key@
                        != self.records@[b].key@ by {
                        assert(self.records@[a].key@ == old(self).records@[a].key@);
                        assert(self.records@[b].key@ == old(self).records@[b].key@);
                    }
                }
                return ;
            }
            i = i + 1;
        }
        self.records.push(record);
    }
}

/// Pagination completeness: a cursor-driven sweep — scanning until the store
/// answers with no resume cursor — visits the key of every record exactly
/// once, in store order, whatever the page size.
#[verifier::loop_isolation(false)]
pub fn sweep_keys(store: &MemStore, page_size: usize) -> (keys: Vec<String>)
    requires
        page_size >= 1,
    ensures
        keys@.map_values(|k: String| k@) == store.keys(),
        store.wf() ==> forall|i: int, j: int|
            0 <= i < j < keys@.len() ==> keys@[i]@ != keys@[j]@,
{
    proof {
        assert(store.records.len() == store.records@.len());
    }
    let mut keys: Vec<String> = Vec::new();
    let mut cursor: Option<usize> = None;
    let mut done = false;
    while !done
        invariant
            page_size >= 1,
            keys@.len() <= store.records@.len(),
            keys@.map_values(|k: String| k@) == store.keys().take(keys@.len() as int),
            !done ==> (match cursor {
                None => keys@.len() == 0,
                Some(c) => c == keys@.len() && c < store.records@.len(),
            }),
            done ==> keys@.len() == store.records@.len(),
        decreases (if done {
            0int
        } else {
            store.records@.len() - keys@.len() + 1
        }),
    {
        let (page, next) = store.scan(cursor, page_size);
        let ghost start = keys@.len() as int;
        let m = page.len();
        let mut j: usize = 0;
        while j < m
            invariant
                j <= m,
                m == page@.len(),
                start + m <= store.records@.len(),
                keys@.len() == start + j,
                forall|x: int| 0 <= x < page@.len() ==> *page@[x] == store.records@[start + x],
                keys@.map_values(|k: String| k@) == store.keys().take(keys@.len() as int),
            decreases m - j,
        {
            keys.push(page[j].key.clone());
            proof {
                assert(keys@.map_values(|k: String| k@) =~= store.keys().take(
                    keys@.len() as int,
                ));
            }
            j = j + 1;
        }
        match next {
            Some(c) => {
                cursor = Some(c);
            },
            None => {
                done = true;
            },
        }
    }
    proof {
        assert(store.keys().take(keys@.len() as int) =~= store.keys());
        assert forall|i: int, j: int|
            store.wf() && 0 <= i < j < keys@.len() implies keys@[i]@ != keys@[j]@ by {
            assert(keys@.map_values(|k: String| k@)[i] == keys@[i]@);
            assert(keys@.map_values(|k: String| k@)[j] == keys@[j]@);
            assert(store.keys()[i] == store.records@[i].key@);
            assert(store.keys()[j] == store.records@[j].key@);
        }
    }
    keys
}

} // verus!
