//! The record store: reader and book tables with optimistic id assignment.
//!
//! A table owns its rows. `create` computes `max(existing ids) + 1` (or `1`
//! on an empty table), inserts a row with that id, and returns the row read
//! back as the one with the maximum id. `delete` removes the row with a given
//! id unconditionally and treats absence as success.

use vstd::prelude::*;

verus! {

/// A persisted reader row: name fields and the ids of the books read.
pub struct Reader {
    pub id: i32,
    pub firstname: String,
    pub surname: String,
    pub read_books: Vec<i32>,
}

/// The mathematical value of a `Reader` row.
#[verifier::ext_equal]
pub struct ReaderV {
    pub id: int,
    pub firstname: Seq<char>,
    pub surname: Seq<char>,
    pub read_books: Seq<int>,
}

impl View for Reader {
    type V = ReaderV;

    open spec fn view(&self) -> ReaderV {
        ReaderV {
            id: self.id as int,
            firstname: self.firstname@,
            surname: self.surname@,
            read_books: self.read_books@.map_values(|b: i32| b as int),
        }
    }
}

/// A persisted book row.
pub struct Book {
    pub id: i32,
    pub name: String,
}

/// The mathematical value of a `Book` row.
#[verifier::ext_equal]
pub struct BookV {
    pub id: int,
    pub name: Seq<char>,
}

impl View for Book {
    type V = BookV;

    open spec fn view(&self) -> BookV {
        BookV { id: self.id as int, name: self.name@ }
    }
}

/// The largest element of `ids`, or `0` when there are none.
pub open spec fn max_or_zero(ids: Seq<int>) -> int
    decreases ids.len(),
{
    if ids.len() == 0 {
        0
    } else if ids.last() > max_or_zero(ids.drop_last()) {
        ids.last()
    } else {
        max_or_zero(ids.drop_last())
    }
}

/// The id that the next `create` assigns: one past the maximum existing id.
pub open spec fn next_id(ids: Seq<int>) -> int {
    max_or_zero(ids) + 1
}

/// No id occurs twice.
pub open spec fn distinct_ids(ids: Seq<int>) -> bool {
    forall|i: int, j: int| 0 <= i < j < ids.len() ==> ids[i] != ids[j]
}

/// Ids are pairwise distinct and at least `1`.
pub open spec fn valid_ids(ids: Seq<int>) -> bool {
    &&& distinct_ids(ids)
    &&& forall|i: int| 0 <= i < ids.len() ==> ids[i] >= 1
}

pub proof fn lemma_max_nonneg(ids: Seq<int>)
    ensures
        max_or_zero(ids) >= 0,
    decreases ids.len(),
{
    if ids.len() > 0 {
        lemma_max_nonneg(ids.drop_last());
    }
}

pub proof fn lemma_max_is_upper_bound(ids: Seq<int>)
    ensures
        forall|i: int| 0 <= i < ids.len() ==> ids[i] <= max_or_zero(ids),
    decreases ids.len(),
{
    if ids.len() > 0 {
        lemma_max_is_upper_bound(ids.drop_last());
        assert(forall|i: int| 0 <= i < ids.len() - 1 ==> ids[i] == ids.drop_last()[i]);
    }
}

pub proof fn lemma_max_push(ids: Seq<int>, x: int)
    ensures
        max_or_zero(ids.push(x)) == if x > max_or_zero(ids) {
            x
        } else {
            max_or_zero(ids)
        },
{
    assert(ids.push(x).drop_last() =~= ids);
    assert(ids.push(x).last() == x);
}

/// The ids of a sequence of reader rows, in row order.
pub open spec fn reader_ids(rows: Seq<ReaderV>) -> Seq<int> {
    rows.map_values(|r: ReaderV| r.id)
}

/// The rows that remain after deleting the id `id`: every row whose id
/// differs, in their original order.
pub open spec fn without_id(rows: Seq<ReaderV>, id: int) -> Seq<ReaderV> {
    rows.filter(|rec: ReaderV| rec.id != id)
}

pub proof fn lemma_without_id_empty(id: int)
    ensures
        without_id(Seq::<ReaderV>::empty(), id) == Seq::<ReaderV>::empty(),
{
    reveal(Seq::filter);
}

pub proof fn lemma_without_id_push(rows: Seq<ReaderV>, x: ReaderV, id: int)
    ensures
        without_id(rows.push(x), id) == if x.id != id {
            without_id(rows, id).push(x)
        } else {
            without_id(rows, id)
        },
{
    reveal(Seq::filter);
    assert(rows.push(x).drop_last() =~= rows);
    assert(rows.push(x).last() == x);
}

/// Every row that survives a deletion stood in the table before it, and its
/// id is not the deleted one.
pub proof fn lemma_without_id_elements(s: Seq<ReaderV>, id: int)
    ensures
        forall|k: int|
            0 <= k < without_id(s, id).len() ==> s.contains(#[trigger] without_id(s, id)[k])
                && without_id(s, id)[k].id != id,
    decreases s.len(),
{
    if s.len() == 0 {
        lemma_without_id_empty(id);
    } else {
        let t = s.drop_last();
        lemma_without_id_elements(t, id);
        assert(t.push(s.last()) =~= s);
        lemma_without_id_push(t, s.last(), id);
        let fs = without_id(s, id);
        let ft = without_id(t, id);
        assert forall|k: int| 0 <= k < fs.len() implies s.contains(#[trigger] fs[k]) && fs[k].id
            != id by {
            if k < ft.len() {
                assert(fs[k] == ft[k]);
                let j = choose|j: int| 0 <= j < t.len() && t[j] == ft[k];
                assert(s[j] == ft[k]);
            } else {
                assert(fs[k] == s.last());
                assert(s[s.len() - 1] == s.last());
            }
        }
    }
}

/// Deleting an id keeps the remaining ids pairwise distinct and positive.
pub proof fn lemma_without_id_valid(s: Seq<ReaderV>, id: int)
    requires
        valid_ids(reader_ids(s)),
    ensures
        valid_ids(reader_ids(without_id(s, id))),
    decreases s.len(),
{
    if s.len() == 0 {
        lemma_without_id_empty(id);
    } else {
        let t = s.drop_last();
        assert forall|i: int, j: int|
            0 <= i < j < reader_ids(t).len() implies reader_ids(t)[i] != reader_ids(t)[j] by {
            assert(reader_ids(s)[i] == s[i].id);
            assert(reader_ids(s)[j] == s[j].id);
            assert(reader_ids(s)[i] != reader_ids(s)[j]);
        }
        assert forall|i: int| 0 <= i < reader_ids(t).len() implies reader_ids(t)[i] >= 1 by {
            assert(reader_ids(s)[i] == s[i].id);
            assert(reader_ids(s)[i] >= 1);
        }
        lemma_without_id_valid(t, id);
        lemma_without_id_elements(t, id);
        assert(t.push(s.last()) =~= s);
        lemma_without_id_push(t, s.last(), id);
        let fs = without_id(s, id);
        let ft = without_id(t, id);
        if s.last().id != id {
            assert(fs == ft.push(s.last()));
            assert forall|a: int, b: int|
                0 <= a < b < reader_ids(fs).len() implies reader_ids(fs)[a]
                != reader_ids(fs)[b] by {
                assert(reader_ids(fs)[a] == fs[a].id);
                assert(reader_ids(fs)[b] == fs[b].id);
                if b < ft.len() {
                    assert(reader_ids(ft)[a] == ft[a].id);
                    assert(reader_ids(ft)[b] == ft[b].id);
                    assert(reader_ids(ft)[a] != reader_ids(ft)[b]);
                } else {
                    assert(fs[b] == s.last());
                    assert(fs[a] == ft[a]);
                    assert(t.contains(ft[a]));
                    let j = choose|j: int| 0 <= j < t.len() && t[j] == ft[a];
                    assert(reader_ids(s)[j] == ft[a].id);
                    assert(reader_ids(s)[s.len() - 1] == s.last().id);
                }
            }
            assert forall|a: int| 0 <= a < reader_ids(fs).len() implies reader_ids(fs)[a]
                >= 1 by {
                assert(reader_ids(fs)[a] == fs[a].id);
                if a < ft.len() {
                    assert(reader_ids(ft)[a] == ft[a].id);
                    assert(reader_ids(ft)[a] >= 1);
                } else {
                    assert(fs[a] == s.last());
                    assert(reader_ids(s)[s.len() - 1] == s.last().id);
                    assert(reader_ids(s)[s.len() - 1] >= 1);
                }
            }
        } else {
            assert(fs == ft);
        }
    }
}

/// Copies a row so that the caller receives an owned value, not a live
/// reference into the table.
fn copy_reader(r: &Reader) -> (c: Reader)
    ensures
        c@ == r@,
{
    let mut books: Vec<i32> = Vec::new();
    let mut i: usize = 0;
    while i < r.read_books.len()
        invariant
            i <= r.read_books.len(),
            books@ =~= r.read_books@.subrange(0, i as int),
        decreases r.read_books.len() - i,
    {
        books.push(r.read_books[i]);
        proof {
            assert(books@ =~= r.read_books@.subrange(0, i + 1));
        }
        i = i + 1;
    }
    let c = Reader {
        id: r.id,
        firstname: r.firstname.clone(),
        surname: r.surname.clone(),
        read_books: books,
    };
    proof {
        assert(c.read_books@ =~= r.read_books@);
        assert(c@.read_books =~= r@.read_books);
        assert(c@ =~= r@);
    }
    c
}

/// The reader table: the persisted rows, in insertion order.
pub struct ReaderTable {
    rows: Vec<Reader>,
}

impl View for ReaderTable {
    type V = Seq<ReaderV>;

    closed spec fn view(&self) -> Seq<ReaderV> {
        self.rows@.map_values(|r: Reader| r@)
    }
}

impl ReaderTable {
    /// Well-formed: ids are pairwise distinct and at least `1`, as the
    /// assignment scheme guarantees under a single writer.
    pub open spec fn wf(&self) -> bool {
        valid_ids(reader_ids(self@))
    }

    /// An empty table.
    pub fn new() -> (t: ReaderTable)
        ensures
            t@ == Seq::<ReaderV>::empty(),
            t.wf(),
    {
        let t = ReaderTable { rows: Vec::new() };
        proof {
            assert(t@ =~= Seq::<ReaderV>::empty());
        }
        t
    }

    /// The largest id currently in the table, or `0` when it is empty.
    fn current_max(&self) -> (m: i32)
        ensures
            m as int == max_or_zero(reader_ids(self@)),
    {
        let ghost ids = reader_ids(self@);
        let mut m: i32 = 0;
        let mut i: usize = 0;
        proof {
            assert(ids.subrange(0, 0) =~= Seq::<int>::empty());
        }
        while i < self.rows.len()
            invariant
                i <= self.rows.len(),
                ids == reader_ids(self@),
                ids.len() == self.rows.len(),
                m as int == max_or_zero(ids.subrange(0, i as int)),
            decreases self.rows.len() - i,
        {
            proof {
                assert(self@[i as int] == self.rows@[i as int]@);
                assert(ids[i as int] == self@[i as int].id);
                assert(ids.subrange(0, i + 1) =~= ids.subrange(0, i as int).push(ids[i as int]));
                lemma_max_push(ids.subrange(0, i as int), ids[i as int]);
            }
            let x = self.rows[i].id;
            if x > m {
                m = x;
            }
            i = i + 1;
        }
        proof {
            assert(ids.subrange(0, self.rows.len() as int) =~= ids);
        }
        m
    }

    /// Returns an owned copy of the most recently assigned row: the one with
    /// the maximum id. Returns `None` exactly when the table is empty.
    pub fn fetch_latest(&self) -> (r: Option<Reader>)
        requires
            self.wf(),
        ensures
            match r {
                None => self@.len() == 0,
                Some(rec) => self@.contains(rec@) && rec@.id == max_or_zero(reader_ids(self@)),
            },
    {
        let ghost ids = reader_ids(self@);
        if self.rows.len() == 0 {
            return None;
        }
        let mut best: usize = 0;
        let mut i: usize = 1;
        proof {
            assert(ids.subrange(0, 1) =~= Seq::<int>::empty().push(ids[0]));
            lemma_max_push(Seq::<int>::empty(), ids[0]);
            assert(self@[0] == self.rows@[0]@);
        }
        while i < self.rows.len()
            invariant
                0 < self.rows.len(),
                best < i <= self.rows.len(),
                ids == reader_ids(self@),
                ids.len() == self.rows.len(),
                forall|k: int| 0 <= k < ids.len() ==> ids[k] >= 1,
                self@[best as int].id == max_or_zero(ids.subrange(0, i as int)),
            decreases self.rows.len() - i,
        {
            proof {
                assert(self@[i as int] == self.rows@[i as int]@);
                assert(ids[i as int] == self@[i as int].id);
                assert(ids.subrange(0, i + 1) =~= ids.subrange(0, i as int).push(ids[i as int]));
                lemma_max_push(ids.subrange(0, i as int), ids[i as int]);
            }
            if self.rows[i].id > self.rows[best].id {
                best = i;
            }
            i = i + 1;
        }
        proof {
            assert(ids.subrange(0, self.rows.len() as int) =~= ids);
        }
        let rec = copy_reader(&self.rows[best]);
        proof {
            assert(self@[best as int] == self.rows@[best as int]@);
            assert(self@.contains(rec@));
        }
        Some(rec)
    }

    /// Creates a reader row: assigns the id `max(existing ids) + 1` (or `1`
    /// on an empty table), inserts the row with an empty reading list, and
    /// returns the row read back as the one with the maximum id.
    pub fn create(&mut self, firstname: String, surname: String) -> (r: Reader)
        requires
            old(self).wf(),
            max_or_zero(reader_ids(old(self)@)) < i32::MAX,
        ensures
            final(self).wf(),
            final(self)@ == old(self)@.push(r@),
            r@.id == next_id(reader_ids(old(self)@)),
            r@.firstname == firstname@,
            r@.surname == surname@,
            r@.read_books == Seq::<int>::empty(),
    {
        let ghost old_view = self@;
        let ghost old_ids = reader_ids(old_view);
        let m = self.current_max();
        let next = m + 1;
        let row = Reader { id: next, firstname, surname, read_books: Vec::new() };
        let ghost rowv = row@;
        proof {
            assert(rowv.read_books =~= Seq::<int>::empty());
        }
        self.rows.push(row);
        proof {
            assert(self@ =~= old_view.push(rowv));
            assert(reader_ids(self@) =~= old_ids.push(rowv.id));
            lemma_max_push(old_ids, rowv.id);
            lemma_max_is_upper_bound(old_ids);
            lemma_max_nonneg(old_ids);
            assert(valid_ids(reader_ids(self@)));
        }
        match self.fetch_latest() {
            Some(rec) => {
                proof {
                    assert(max_or_zero(reader_ids(self@)) == rowv.id);
                    assert(rec@.id == rowv.id);
                    let k = choose|k: int| 0 <= k < self@.len() && self@[k] == rec@;
                    if k < old_view.len() {
                        assert(self@[k] == old_view[k]);
                        assert(reader_ids(old_view)[k] == old_view[k].id);
                        assert(old_view[k].id <= max_or_zero(old_ids));
                    }
                    assert(k == old_view.len());
                    assert(rec@ == rowv);
                }
                rec
            },
            None => {
                proof {
                    assert(self@.len() > 0);
                }
                vstd::pervasive::unreached()
            },
        }
    }

    /// Removes the row with the given id, unconditionally: deleting an id
    /// that is absent leaves the table unchanged and is treated as success.
    pub fn delete(&mut self, record_id: i32)
        ensures
            final(self)@ == without_id(old(self)@, record_id as int),
            old(self).wf() ==> final(self).wf(),
    {
        let ghost old_view = self@;
        let mut kept: Vec<Reader> = Vec::new();
        let mut i: usize = 0;
        proof {
            assert(old_view.subrange(0, 0) =~= Seq::<ReaderV>::empty());
            lemma_without_id_empty(record_id as int);
        }
        while i < self.rows.len()
            invariant
                i <= self.rows.len(),
                old_view == self@,
                old_view.len() == self.rows.len(),
                kept@.map_values(|r: Reader| r@) == without_id(
                    old_view.subrange(0, i as int),
                    record_id as int,
                ),
            decreases self.rows.len() - i,
        {
            let ghost prefix = old_view.subrange(0, i as int);
            let ghost t = old_view.subrange(0, i + 1);
            proof {
                assert(self@[i as int] == self.rows@[i as int]@);
                assert(old_view[i as int].id == self.rows@[i as int].id as int);
                assert(t =~= prefix.push(old_view[i as int]));
                lemma_without_id_push(prefix, old_view[i as int], record_id as int);
            }
            if self.rows[i].id != record_id {
                let c = copy_reader(&self.rows[i]);
                let ghost kept_before = kept@;
                proof {
                    assert(c@ == old_view[i as int]);
                }
                kept.push(c);
                proof {
                    assert(kept@ == kept_before.push(c));
                    assert(kept@.map_values(|r: Reader| r@) =~= kept_before.map_values(
                        |r: Reader| r@,
                    ).push(c@));
                    assert(kept@.map_values(|r: Reader| r@) == without_id(t, record_id as int));
                }
            } else {
                proof {
                    assert(kept@.map_values(|r: Reader| r@) == without_id(t, record_id as int));
                }
            }
            i = i + 1;
            proof {
                assert(t =~= old_view.subrange(0, i as int));
            }
        }
        self.rows = kept;
        proof {
            assert(old_view.subrange(0, old_view.len() as int) =~= old_view);
            assert(self@ == without_id(old_view, record_id as int));
            if valid_ids(reader_ids(old_view)) {
                lemma_without_id_valid(old_view, record_id as int);
            }
        }
    }
}

impl Reader {
    /// Creates a reader row in the store, as the signup route does: the new
    /// id is one past the maximum existing id, and the reading list starts
    /// empty.
    pub fn create(firstname: String, surname: String, table: &mut ReaderTable) -> (r: Reader)
        requires
            old(table).wf(),
            max_or_zero(reader_ids(old(table)@)) < i32::MAX,
        ensures
            final(table).wf(),
            final(table)@ == old(table)@.push(r@),
            r@.id == next_id(reader_ids(old(table)@)),
            r@.firstname == firstname@,
            r@.surname == surname@,
            r@.read_books == Seq::<int>::empty(),
    {
        table.create(firstname, surname)
    }

    /// Deletes this reader's row from the store.
    pub fn delete(reader: Reader, table: &mut ReaderTable)
        ensures
            final(table)@ == without_id(old(table)@, reader.id as int),
            old(table).wf() ==> final(table).wf(),
    {
        table.delete(reader.id)
    }
}

/// Ids run `1 .. N + 1` in creation order.
pub open spec fn ids_sequential(rows: Seq<ReaderV>) -> bool {
    forall|i: int| 0 <= i < rows.len() ==> rows[i].id == i + 1
}

proof fn lemma_sequential_max(rows: Seq<ReaderV>)
    requires
        ids_sequential(rows),
    ensures
        max_or_zero(reader_ids(rows)) == rows.len(),
    decreases rows.len(),
{
    if rows.len() == 0 {
        assert(reader_ids(rows) =~= Seq::<int>::empty());
    } else {
        let t = rows.drop_last();
        assert forall|i: int| 0 <= i < t.len() implies t[i].id == i + 1 by {
            assert(t[i] == rows[i]);
        }
        lemma_sequential_max(t);
        assert(reader_ids(rows) =~= reader_ids(t).push(rows.last().id));
        lemma_max_push(reader_ids(t), rows.last().id);
        assert(rows.last().id == rows.len());
    }
}

/// Law: on an empty table a sequence of creates assigns the ids
/// `1, 2, .., N` in creation order. The empty table satisfies
/// `ids_sequential`, and each create, whose new row receives the id
/// `next_id`, preserves it; so after `N` creates row `i` carries id `i + 1`.
pub proof fn lemma_creates_assign_sequential_ids(rows: Seq<ReaderV>, r: ReaderV)
    requires
        ids_sequential(rows),
        r.id == next_id(reader_ids(rows)),
    ensures
        ids_sequential(rows.push(r)),
        ids_sequential(Seq::<ReaderV>::empty()),
{
    lemma_sequential_max(rows);
    let s = rows.push(r);
    assert forall|i: int| 0 <= i < s.len() implies s[i].id == i + 1 by {
        if i < rows.len() {
            assert(s[i] == rows[i]);
        } else {
            assert(s[i] == r);
        }
    }
}

proof fn lemma_without_id_absent(s: Seq<ReaderV>, id: int)
    requires
        forall|i: int| 0 <= i < s.len() ==> s[i].id != id,
    ensures
        without_id(s, id) == s,
    decreases s.len(),
{
    if s.len() == 0 {
        lemma_without_id_empty(id);
        assert(s =~= Seq::<ReaderV>::empty());
    } else {
        let t = s.drop_last();
        assert forall|i: int| 0 <= i < t.len() implies t[i].id != id by {
            assert(t[i] == s[i]);
        }
        lemma_without_id_absent(t, id);
        assert(t.push(s.last()) =~= s);
        lemma_without_id_push(t, s.last(), id);
        assert(s[s.len() - 1].id != id);
    }
}

/// Law: a create followed immediately by a delete of the returned id leaves
/// the table exactly as it was before the create — in particular its row
/// count and its maximum id are unchanged. The created row is the only one
/// carrying the fresh id, since that id is one past the previous maximum.
pub proof fn lemma_create_then_delete_restores(rows: Seq<ReaderV>, r: ReaderV)
    requires
        r.id == next_id(reader_ids(rows)),
    ensures
        without_id(rows.push(r), r.id) == rows,
{
    lemma_max_is_upper_bound(reader_ids(rows));
    lemma_without_id_push(rows, r, r.id);
    assert forall|i: int| 0 <= i < rows.len() implies rows[i].id != r.id by {
        assert(reader_ids(rows)[i] == rows[i].id);
        assert(reader_ids(rows)[i] <= max_or_zero(reader_ids(rows)));
    }
    lemma_without_id_absent(rows, r.id);
}

/// The ids of a sequence of book rows, in row order.
pub open spec fn book_ids(rows: Seq<BookV>) -> Seq<int> {
    rows.map_values(|b: BookV| b.id)
}

/// The book rows that remain after deleting the id `id`.
pub open spec fn books_without_id(rows: Seq<BookV>, id: int) -> Seq<BookV> {
    rows.filter(|b: BookV| b.id != id)
}

pub proof fn lemma_books_without_id_empty(id: int)
    ensures
        books_without_id(Seq::<BookV>::empty(), id) == Seq::<BookV>::empty(),
{
    reveal(Seq::filter);
}

pub proof fn lemma_books_without_id_push(rows: Seq<BookV>, x: BookV, id: int)
    ensures
        books_without_id(rows.push(x), id) == if x.id != id {
            books_without_id(rows, id).push(x)
        } else {
            books_without_id(rows, id)
        },
{
    reveal(Seq::filter);
    assert(rows.push(x).drop_last() =~= rows);
    assert(rows.push(x).last() == x);
}

pub proof fn lemma_books_without_id_elements(s: Seq<BookV>, id: int)
    ensures
        forall|k: int|
            0 <= k < books_without_id(s, id).len() ==> s.contains(
                #[trigger] books_without_id(s, id)[k],
            ) && books_without_id(s, id)[k].id != id,
    decreases s.len(),
{
    if s.len() == 0 {
        lemma_books_without_id_empty(id);
    } else {
        let t = s.drop_last();
        lemma_books_without_id_elements(t, id);
        assert(t.push(s.last()) =~= s);
        lemma_books_without_id_push(t, s.last(), id);
        let fs = books_without_id(s, id);
        let ft = books_without_id(t, id);
        assert forall|k: int| 0 <= k < fs.len() implies s.contains(#[trigger] fs[k]) && fs[k].id
            != id by {
            if k < ft.len() {
                assert(fs[k] == ft[k]);
                let j = choose|j: int| 0 <= j < t.len() && t[j] == ft[k];
                assert(s[j] == ft[k]);
            } else {
                assert(fs[k] == s.last());
                assert(s[s.len() - 1] == s.last());
            }
        }
    }
}

pub proof fn lemma_books_without_id_valid(s: Seq<BookV>, id: int)
    requires
        valid_ids(book_ids(s)),
    ensures
        valid_ids(book_ids(books_without_id(s, id))),
    decreases s.len(),
{
    if s.len() == 0 {
        lemma_books_without_id_empty(id);
    } else {
        let t = s.drop_last();
        assert forall|i: int, j: int|
            0 <= i < j < book_ids(t).len() implies book_ids(t)[i] != book_ids(t)[j] by {
            assert(book_ids(s)[i] == s[i].id);
            assert(book_ids(s)[j] == s[j].id);
            assert(book_ids(s)[i] != book_ids(s)[j]);
        }
        assert forall|i: int| 0 <= i < book_ids(t).len() implies book_ids(t)[i] >= 1 by {
            assert(book_ids(s)[i] == s[i].id);
            assert(book_ids(s)[i] >= 1);
        }
        lemma_books_without_id_valid(t, id);
        lemma_books_without_id_elements(t, id);
        assert(t.push(s.last()) =~= s);
        lemma_books_without_id_push(t, s.last(), id);
        let fs = books_without_id(s, id);
        let ft = books_without_id(t, id);
        if s.last().id != id {
            assert(fs == ft.push(s.last()));
            assert forall|a: int, b: int|
                0 <= a < b < book_ids(fs).len() implies book_ids(fs)[a] != book_ids(fs)[b] by {
                assert(book_ids(fs)[a] == fs[a].id);
                assert(book_ids(fs)[b] == fs[b].id);
                if b < ft.len() {
                    assert(book_ids(ft)[a] == ft[a].id);
                    assert(book_ids(ft)[b] == ft[b].id);
                    assert(book_ids(ft)[a] != book_ids(ft)[b]);
                } else {
                    assert(fs[b] == s.last());
                    assert(fs[a] == ft[a]);
                    assert(t.contains(ft[a]));
                    let j = choose|j: int| 0 <= j < t.len() && t[j] == ft[a];
                    assert(book_ids(s)[j] == ft[a].id);
                    assert(book_ids(s)[s.len() - 1] == s.last().id);
                }
            }
            assert forall|a: int| 0 <= a < book_ids(fs).len() implies book_ids(fs)[a] >= 1 by {
                assert(book_ids(fs)[a] == fs[a].id);
                if a < ft.len() {
                    assert(book_ids(ft)[a] == ft[a].id);
                    assert(book_ids(ft)[a] >= 1);
                } else {
                    assert(fs[a] == s.last());
                    assert(book_ids(s)[s.len() - 1] == s.last().id);
                    assert(book_ids(s)[s.len() - 1] >= 1);
                }
            }
        } else {
            assert(fs == ft);
        }
    }
}

/// Copies a book row so that the caller receives an owned value.
fn copy_book(b: &Book) -> (c: Book)
    ensures
        c@ == b@,
{
    let c = Book { id: b.id, name: b.name.clone() };
    proof {
        assert(c@ =~= b@);
    }
    c
}

/// The book table: the persisted rows, in insertion order.
pub struct BookTable {
    rows: Vec<Book>,
}

impl View for BookTable {
    type V = Seq<BookV>;

    closed spec fn view(&self) -> Seq<BookV> {
        self.rows@.map_values(|b: Book| b@)
    }
}

impl BookTable {
    /// Well-formed: ids are pairwise distinct and at least `1`.
    pub open spec fn wf(&self) -> bool {
        valid_ids(book_ids(self@))
    }

    /// An empty table.
    pub fn new() -> (t: BookTable)
        ensures
            t@ == Seq::<BookV>::empty(),
            t.wf(),
    {
        let t = BookTable { rows: Vec::new() };
        proof {
            assert(t@ =~= Seq::<BookV>::empty());
        }
        t
    }

    /// The largest id currently in the table, or `0` when it is empty.
    fn current_max(&self) -> (m: i32)
        ensures
            m as int == max_or_zero(book_ids(self@)),
    {
        let ghost ids = book_ids(self@);
        let mut m: i32 = 0;
        let mut i: usize = 0;
        proof {
            assert(ids.subrange(0, 0) =~= Seq::<int>::empty());
        }
        while i < self.rows.len()
            invariant
                i <= self.rows.len(),
                ids == book_ids(self@),
                ids.len() == self.rows.len(),
                m as int == max_or_zero(ids.subrange(0, i as int)),
            decreases self.rows.len() - i,
        {
            proof {
                assert(self@[i as int] == self.rows@[i as int]@);
                assert(ids[i as int] == self@[i as int].id);
                assert(ids.subrange(0, i + 1) =~= ids.subrange(0, i as int).push(ids[i as int]));
                lemma_max_push(ids.subrange(0, i as int), ids[i as int]);
            }
            let x = self.rows[i].id;
            if x > m {
                m = x;
            }
            i = i + 1;
        }
        proof {
            assert(ids.subrange(0, self.rows.len() as int) =~= ids);
        }
        m
    }

    /// Returns an owned copy of the row with the maximum id, or `None`
    /// exactly when the table is empty.
    pub fn fetch_latest(&self) -> (r: Option<Book>)
        requires
            self.wf(),
        ensures
            match r {
                None => self@.len() == 0,
                Some(rec) => self@.contains(rec@) && rec@.id == max_or_zero(book_ids(self@)),
            },
    {
        let ghost ids = book_ids(self@);
        if self.rows.len() == 0 {
            return None;
        }
        let mut best: usize = 0;
        let mut i: usize = 1;
        proof {
            assert(ids.subrange(0, 1) =~= Seq::<int>::empty().push(ids[0]));
            lemma_max_push(Seq::<int>::empty(), ids[0]);
            assert(self@[0] == self.rows@[0]@);
        }
        while i < self.rows.len()
            invariant
                0 < self.rows.len(),
                best < i <= self.rows.len(),
                ids == book_ids(self@),
                ids.len() == self.rows.len(),
                forall|k: int| 0 <= k < ids.len() ==> ids[k] >= 1,
                self@[best as int].id == max_or_zero(ids.subrange(0, i as int)),
            decreases self.rows.len() - i,
        {
            proof {
                assert(self@[i as int] == self.rows@[i as int]@);
                assert(ids[i as int] == self@[i as int].id);
                assert(ids.subrange(0, i + 1) =~= ids.subrange(0, i as int).push(ids[i as int]));
                lemma_max_push(ids.subrange(0, i as int), ids[i as int]);
            }
            if self.rows[i].id > self.rows[best].id {
                best = i;
            }
            i = i + 1;
        }
        proof {
            assert(ids.subrange(0, self.rows.len() as int) =~= ids);
        }
        let rec = copy_book(&self.rows[best]);
        proof {
            assert(self@[best as int] == self.rows@[best as int]@);
            assert(self@.contains(rec@));
        }
        Some(rec)
    }

    /// Creates a book row: assigns the id `max(existing ids) + 1` (or `1` on
    /// an empty table), inserts the row, and returns the row read back as
    /// the one with the maximum id.
    pub fn create(&mut self, name: String) -> (b: Book)
        requires
            old(self).wf(),
            max_or_zero(book_ids(old(self)@)) < i32::MAX,
        ensures
            final(self).wf(),
            final(self)@ == old(self)@.push(b@),
            b@.id == next_id(book_ids(old(self)@)),
            b@.name == name@,
    {
        let ghost old_view = self@;
        let ghost old_ids = book_ids(old_view);
        let m = self.current_max();
        let next = m + 1;
        let row = Book { id: next, name };
        let ghost rowv = row@;
        self.rows.push(row);
        proof {
            assert(self@ =~= old_view.push(rowv));
            assert(book_ids(self@) =~= old_ids.push(rowv.id));
            lemma_max_push(old_ids, rowv.id);
            lemma_max_is_upper_bound(old_ids);
            lemma_max_nonneg(old_ids);
            assert(valid_ids(book_ids(self@)));
        }
        match self.fetch_latest() {
            Some(rec) => {
                proof {
                    assert(max_or_zero(book_ids(self@)) == rowv.id);
                    assert(rec@.id == rowv.id);
                    let k = choose|k: int| 0 <= k < self@.len() && self@[k] == rec@;
                    if k < old_view.len() {
                        assert(self@[k] == old_view[k]);
                        assert(book_ids(old_view)[k] == old_view[k].id);
                        assert(old_view[k].id <= max_or_zero(old_ids));
                    }
                    assert(k == old_view.len());
                    assert(rec@ == rowv);
                }
                rec
            },
            None => {
                proof {
                    assert(self@.len() > 0);
                }
                vstd::pervasive::unreached()
            },
        }
    }

    /// Removes the row with the given id, unconditionally: deleting an id
    /// that is absent leaves the table unchanged and is treated as success.
    pub fn delete(&mut self, record_id: i32)
        ensures
            final(self)@ == books_without_id(old(self)@, record_id as int),
            old(self).wf() ==> final(self).wf(),
    {
        let ghost old_view = self@;
        let mut kept: Vec<Book> = Vec::new();
        let mut i: usize = 0;
        proof {
            assert(old_view.subrange(0, 0) =~= Seq::<BookV>::empty());
            lemma_books_without_id_empty(record_id as int);
        }
        while i < self.rows.len()
            invariant
                i <= self.rows.len(),
                old_view == self@,
                old_view.len() == self.rows.len(),
                kept@.map_values(|b: Book| b@) == books_without_id(
                    old_view.subrange(0, i as int),
                    record_id as int,
                ),
            decreases self.rows.len() - i,
        {
            let ghost prefix = old_view.subrange(0, i as int);
            let ghost t = old_view.subrange(0, i + 1);
            proof {
                assert(self@[i as int] == self.rows@[i as int]@);
                assert(old_view[i as int].id == self.rows@[i as int].id as int);
                assert(t =~= prefix.push(old_view[i as int]));
                lemma_books_without_id_push(prefix, old_view[i as int], record_id as int);
            }
            if self.rows[i].id != record_id {
                let c = copy_book(&self.rows[i]);
                let ghost kept_before = kept@;
                proof {
                    assert(c@ == old_view[i as int]);
                }
                kept.push(c);
                proof {
                    assert(kept@ == kept_before.push(c));
                    assert(kept@.map_values(|b: Book| b@) =~= kept_before.map_values(
                        |b: Book| b@,
                    ).push(c@));
                    assert(kept@.map_values(|b: Book| b@) == books_without_id(
                        t,
                        record_id as int,
                    ));
                }
            } else {
                proof {
                    assert(kept@.map_values(|b: Book| b@) == books_without_id(
                        t,
                        record_id as int,
                    ));
                }
            }
            i = i + 1;
            proof {
                assert(t =~= old_view.subrange(0, i as int));
            }
        }
        self.rows = kept;
        proof {
            assert(old_view.subrange(0, old_view.len() as int) =~= old_view);
            assert(self@ == books_without_id(old_view, record_id as int));
            if valid_ids(book_ids(old_view)) {
                lemma_books_without_id_valid(old_view, record_id as int);
            }
        }
    }
}

/// Book ids run `1 .. N + 1` in creation order.
pub open spec fn book_ids_sequential(rows: Seq<BookV>) -> bool {
    forall|i: int| 0 <= i < rows.len() ==> rows[i].id == i + 1
}

proof fn lemma_book_sequential_max(rows: Seq<BookV>)
    requires
        book_ids_sequential(rows),
    ensures
        max_or_zero(book_ids(rows)) == rows.len(),
    decreases rows.len(),
{
    if rows.len() == 0 {
        assert(book_ids(rows) =~= Seq::<int>::empty());
    } else {
        let t = rows.drop_last();
        assert forall|i: int| 0 <= i < t.len() implies t[i].id == i + 1 by {
            assert(t[i] == rows[i]);
        }
        lemma_book_sequential_max(t);
        assert(book_ids(rows) =~= book_ids(t).push(rows.last().id));
        lemma_max_push(book_ids(t), rows.last().id);
        assert(rows.last().id == rows.len());
    }
}

/// Law: on an empty table a sequence of creates assigns the book ids
/// `1, 2, .., N` in creation order, exactly as for readers.
pub proof fn lemma_book_creates_assign_sequential_ids(rows: Seq<BookV>, b: BookV)
    requires
        book_ids_sequential(rows),
        b.id == next_id(book_ids(rows)),
    ensures
        book_ids_sequential(rows.push(b)),
        book_ids_sequential(Seq::<BookV>::empty()),
{
    lemma_book_sequential_max(rows);
    let s = rows.push(b);
    assert forall|i: int| 0 <= i < s.len() implies s[i].id == i + 1 by {
        if i < rows.len() {
            assert(s[i] == rows[i]);
        } else {
            assert(s[i] == b);
        }
    }
}

proof fn lemma_books_without_id_absent(s: Seq<BookV>, id: int)
    requires
        forall|i: int| 0 <= i < s.len() ==> s[i].id != id,
    ensures
        books_without_id(s, id) == s,
    decreases s.len(),
{
    if s.len() == 0 {
        lemma_books_without_id_empty(id);
        assert(s =~= Seq::<BookV>::empty());
    } else {
        let t = s.drop_last();
        assert forall|i: int| 0 <= i < t.len() implies t[i].id != id by {
            assert(t[i] == s[i]);
        }
        lemma_books_without_id_absent(t, id);
        assert(t.push(s.last()) =~= s);
        lemma_books_without_id_push(t, s.last(), id);
        assert(s[s.len() - 1].id != id);
    }
}

/// Law: creating a book and at once deleting the returned id leaves the
/// table exactly as it was before the create.
pub proof fn lemma_book_create_then_delete_restores(rows: Seq<BookV>, b: BookV)
    requires
        b.id == next_id(book_ids(rows)),
    ensures
        books_without_id(rows.push(b), b.id) == rows,
{
    lemma_max_is_upper_bound(book_ids(rows));
    lemma_books_without_id_push(rows, b, b.id);
    assert forall|i: int| 0 <= i < rows.len() implies rows[i].id != b.id by {
        assert(book_ids(rows)[i] == rows[i].id);
        assert(book_ids(rows)[i] <= max_or_zero(book_ids(rows)));
    }
    lemma_books_without_id_absent(rows, b.id);
}

impl Book {
    /// Creates a book row in the store; the new id is one past the maximum
    /// existing id.
    pub fn new(name: String, table: &mut BookTable) -> (b: Book)
        requires
            old(table).wf(),
            max_or_zero(book_ids(old(table)@)) < i32::MAX,
        ensures
            final(table).wf(),
            final(table)@ == old(table)@.push(b@),
            b@.id == next_id(book_ids(old(table)@)),
            b@.name == name@,
    {
        table.create(name)
    }

    /// Deletes this book's row from the store.
    pub fn delete(book: Book, table: &mut BookTable)
        ensures
            final(table)@ == books_without_id(old(table)@, book.id as int),
            old(table).wf() ==> final(table).wf(),
    {
        table.delete(book.id)
    }
}

} // verus!
