//! The book record and the in-memory store: a collection keyed by integer id
//! with create, read, update, delete and list operations. The store's
//! mathematical image is the map from each id to its record.

use vstd::prelude::*;
use vstd::seq_lib::group_seq_properties;
use vstd::set_lib::lemma_int_range;
use vstd::set_lib::lemma_len_subset;
use vstd::set_lib::set_int_range;
use crate::date::Date;

verus! {

broadcast use vstd::set::group_set_axioms, vstd::map::group_map_axioms, group_seq_properties;

/// A catalogue record.
#[derive(Debug)]
pub struct Book {
    pub id: i32,
    pub title: String,
    pub author: String,
    pub date_published: Date,
}

/// The mathematical image of one record.
pub struct BookSpec {
    pub id: int,
    pub title: Seq<char>,
    pub author: Seq<char>,
    pub date_published: Date,
}

impl View for Book {
    type V = BookSpec;

    open spec fn view(&self) -> BookSpec {
        BookSpec {
            id: self.id as int,
            title: self.title@,
            author: self.author@,
            date_published: self.date_published,
        }
    }
}

impl Clone for Book {
    fn clone(&self) -> (r: Book)
        ensures
            r@ == self@,
    {
        Book {
            id: self.id,
            title: self.title.clone(),
            author: self.author.clone(),
            date_published: self.date_published,
        }
    }
}

/// The transient creation payload: a record minus the id, which the store
/// assigns.
#[derive(Debug)]
pub struct NewBook {
    pub title: String,
    pub author: String,
    pub date_published: Date,
}

/// No two records of the sequence carry the same id.
pub open spec fn unique_ids(s: Seq<BookSpec>) -> bool {
    forall|i: int, j: int| 0 <= i < j < s.len() ==> s[i].id != s[j].id
}

/// Every record of the sequence carries a positive id.
pub open spec fn ids_positive(s: Seq<BookSpec>) -> bool {
    forall|i: int| 0 <= i < s.len() ==> 1 <= (#[trigger] s[i]).id
}

/// The mapping from id to record that a sequence of records denotes.
pub open spec fn map_of(s: Seq<BookSpec>) -> Map<int, BookSpec>
    decreases s.len(),
{
    if s.len() == 0 {
        Map::empty()
    } else {
        map_of(s.drop_last()).insert(s.last().id, s.last())
    }
}

/// `r` is the maximum id of the catalogue, or 0 when it is empty.
pub open spec fn is_max_id(m: Map<int, BookSpec>, r: int) -> bool {
    r >= 0 && (forall|k: int| m.contains_key(k) ==> k <= r) && (r == 0 || m.contains_key(r))
}

/// The ids a deletion request names, as a set.
pub open spec fn ids_set(ids: Seq<i32>) -> Set<int> {
    Set::new(|k: int| exists|i: int| 0 <= i < ids.len() && ids[i] as int == k)
}

proof fn lemma_map_of_contains(s: Seq<BookSpec>, k: int)
    ensures
        map_of(s).contains_key(k) <==> exists|i: int| 0 <= i < s.len() && s[i].id == k,
    decreases s.len(),
{
    if s.len() > 0 {
        lemma_map_of_contains(s.drop_last(), k);
        if map_of(s).contains_key(k) {
            if k == s.last().id {
                assert(s[s.len() - 1].id == k);
            } else {
                let i = choose|i: int| 0 <= i < s.drop_last().len() && s.drop_last()[i].id == k;
                assert(s[i].id == k);
            }
        }
        if exists|i: int| 0 <= i < s.len() && s[i].id == k {
            let i = choose|i: int| 0 <= i < s.len() && s[i].id == k;
            if i < s.len() - 1 {
                assert(s.drop_last()[i].id == k);
            }
        }
    }
}

proof fn lemma_map_of_index(s: Seq<BookSpec>, i: int)
    requires
        unique_ids(s),
        0 <= i < s.len(),
    ensures
        map_of(s).contains_key(s[i].id),
        map_of(s)[s[i].id] == s[i],
    decreases s.len(),
{
    if i < s.len() - 1 {
        assert(unique_ids(s.drop_last()));
        assert(s.drop_last()[i] == s[i]);
        lemma_map_of_index(s.drop_last(), i);
        assert(s[i].id != s.last().id);
    }
}

proof fn lemma_map_of_len(s: Seq<BookSpec>)
    requires
        unique_ids(s),
    ensures
        map_of(s).dom().finite(),
        map_of(s).len() == s.len(),
    decreases s.len(),
{
    if s.len() > 0 {
        assert(unique_ids(s.drop_last()));
        lemma_map_of_len(s.drop_last());
        lemma_map_of_contains(s.drop_last(), s.last().id);
        assert(forall|i: int|
            0 <= i < s.drop_last().len() ==> s.drop_last()[i] == s[i]
                && s[i].id != s.last().id);
        assert(!map_of(s.drop_last()).contains_key(s.last().id));
    }
}

proof fn lemma_remove_keeps_shape(s: Seq<BookSpec>, i: int)
    requires
        unique_ids(s),
        0 <= i < s.len(),
    ensures
        unique_ids(s.remove(i)),
        ids_positive(s) ==> ids_positive(s.remove(i)),
        forall|j: int| 0 <= j < s.remove(i).len() ==> s.remove(i)[j].id != s[i].id,
{
    s.remove_ensures(i);
    assert forall|j1: int, j2: int| 0 <= j1 < j2 < s.remove(i).len() implies s.remove(i)[j1].id
        != s.remove(i)[j2].id by {
        let k1 = if j1 < i {
            j1
        } else {
            j1 + 1
        };
        let k2 = if j2 < i {
            j2
        } else {
            j2 + 1
        };
        assert(s.remove(i)[j1] == s[k1]);
        assert(s.remove(i)[j2] == s[k2]);
    }
    assert forall|j: int| 0 <= j < s.remove(i).len() implies s.remove(i)[j].id != s[i].id by {
        let k = if j < i {
            j
        } else {
            j + 1
        };
        assert(s.remove(i)[j] == s[k]);
    }
    if ids_positive(s) {
        assert forall|j: int| 0 <= j < s.remove(i).len() implies 1 <= (#[trigger] s.remove(
            i,
        )[j]).id by {
            let k = if j < i {
                j
            } else {
                j + 1
            };
            assert(s.remove(i)[j] == s[k]);
        }
    }
}

proof fn lemma_map_of_remove(s: Seq<BookSpec>, i: int)
    requires
        unique_ids(s),
        0 <= i < s.len(),
    ensures
        map_of(s.remove(i)) == map_of(s).remove(s[i].id),
    decreases s.len(),
{
    s.remove_ensures(i);
    if i == s.len() - 1 {
        assert(s.remove(i) =~= s.drop_last());
        lemma_map_of_contains(s.drop_last(), s.last().id);
        assert(forall|j: int|
            0 <= j < s.drop_last().len() ==> s.drop_last()[j] == s[j] && s[j].id
                != s.last().id);
        assert(!map_of(s.drop_last()).contains_key(s.last().id));
        assert(map_of(s).remove(s[i].id) =~= map_of(s.drop_last()));
    } else {
        let dl = s.drop_last();
        assert(unique_ids(dl));
        lemma_map_of_remove(dl, i);
        assert(dl[i] == s[i]);
        assert(s.remove(i).len() == s.len() - 1);
        assert(s.remove(i).last() == s[s.len() - 1]);
        assert(s.remove(i).drop_last() =~= dl.remove(i));
        assert(map_of(s.remove(i)) == map_of(dl.remove(i)).insert(s.last().id, s.last()));
        assert(s[i].id != s.last().id);
        assert(map_of(dl).remove(s[i].id).insert(s.last().id, s.last()) =~= map_of(dl).insert(
            s.last().id,
            s.last(),
        ).remove(s[i].id));
    }
}

/// The in-memory catalogue: the sole authority for book records.
pub struct Store {
    books: Vec<Book>,
}

impl View for Store {
    type V = Map<int, BookSpec>;

    closed spec fn view(&self) -> Map<int, BookSpec> {
        map_of(self.books@.map_values(|b: Book| b@))
    }
}

impl Store {
    /// The records as the store holds them, in storage order.
    closed spec fn sv(&self) -> Seq<BookSpec> {
        self.books@.map_values(|b: Book| b@)
    }

    /// The store's internal shape: ids unique and positive.
    pub closed spec fn wf(&self) -> bool {
        unique_ids(self.sv()) && ids_positive(self.sv())
    }

    /// A freshly constructed store holds nothing.
    pub fn new() -> (r: Store)
        ensures
            r@ == Map::<int, BookSpec>::empty(),
            r.wf(),
    {
        let r = Store { books: Vec::new() };
        proof {
            assert(r.sv() =~= Seq::<BookSpec>::empty());
        }
        r
    }

    /// A store never holds more records than there are positive 32-bit ids.
    proof fn lemma_len_bound(&self)
        requires
            self.wf(),
        ensures
            self@.dom().finite(),
            self@.len() <= i32::MAX as int,
    {
        lemma_map_of_len(self.sv());
        assert forall|k: int| self@.dom().contains(k) implies set_int_range(
            1,
            i32::MAX as int + 1,
        ).contains(k) by {
            lemma_map_of_contains(self.sv(), k);
            let i = choose|i: int| 0 <= i < self.sv().len() && self.sv()[i].id == k;
            assert(self.sv()[i] == self.books@[i]@);
        }
        assert(self@.dom().subset_of(set_int_range(1, i32::MAX as int + 1)));
        lemma_int_range(1, i32::MAX as int + 1);
        lemma_len_subset(self@.dom(), set_int_range(1, i32::MAX as int + 1));
    }

    /// The greatest id currently present, or 0 for an empty store.
    pub fn max_id(&self) -> (r: i32)
        ensures
            is_max_id(self@, r as int),
            r >= 0,
    {
        let mut r: i32 = 0;
        let mut i: usize = 0;
        while i < self.books.len()
            invariant
                0 <= i <= self.books.len(),
                r >= 0,
                forall|j: int| 0 <= j < i ==> (#[trigger] self.sv()[j]).id <= r as int,
                r == 0 || exists|j: int| 0 <= j < i && (#[trigger] self.sv()[j]).id == r as int,
            decreases self.books.len() - i,
        {
            proof {
                assert(self.sv()[i as int] == self.books@[i as int]@);
            }
            if r < self.books[i].id {
                r = self.books[i].id;
                proof {
                    assert(self.sv()[i as int].id == r as int);
                }
            }
            i = i + 1;
        }
        proof {
            assert forall|k: int| self@.contains_key(k) implies k <= r as int by {
                lemma_map_of_contains(self.sv(), k);
            }
            if r > 0 {
                let j = choose|j: int|
                    0 <= j < self.sv().len() && (#[trigger] self.sv()[j]).id == r as int;
                lemma_map_of_contains(self.sv(), r as int);
            }
        }
        r
    }

    /// Creates a record: assigns the next id (maximum plus one, so 1 in an
    /// empty store), stores the new record under it and returns a copy.
    pub fn create_book(&mut self, new_book: NewBook) -> (r: Book)
        requires
            old(self).wf(),
            !old(self)@.contains_key(i32::MAX as int),
        ensures
            final(self).wf(),
            r.id >= 1,
            is_max_id(old(self)@, r.id - 1),
            !old(self)@.contains_key(r.id as int),
            r@.title == new_book.title@,
            r@.author == new_book.author@,
            r@.date_published == new_book.date_published,
            final(self)@ == old(self)@.insert(r.id as int, r@),
            final(self)@.len() == old(self)@.len() + 1,
    {
        let max = self.max_id();
        proof {
            if max == i32::MAX {
                assert(self@.contains_key(i32::MAX as int));
            }
        }
        let raw_id = max + 1;
        let book = Book {
            id: raw_id,
            title: new_book.title,
            author: new_book.author,
            date_published: new_book.date_published,
        };
        let copy = book.clone();
        proof {
            lemma_map_of_contains(self.sv(), raw_id as int);
            self.lemma_len_bound();
            lemma_map_of_len(self.sv());
        }
        let ghost pre = self.sv();
        self.books.push(book);
        proof {
            assert(self.sv() =~= pre.push(copy@));
            assert(self.sv().drop_last() =~= pre);
            assert forall|i1: int, j1: int| 0 <= i1 < j1 < self.sv().len() implies self.sv()[
                i1
            ].id != self.sv()[j1].id by {
                if j1 == self.sv().len() - 1 {
                    lemma_map_of_index(pre, i1);
                    assert(pre[i1].id <= max as int);
                }
            }
            assert(ids_positive(self.sv()));
            assert(self@ == map_of(pre).insert(copy@.id, copy@));
        }
        copy
    }

    /// Replaces the record under `id` with the given content, forcing the
    /// stored id to stay `id` (the payload's own id field is ignored), and
    /// confirms with `Some(id)`; absent ids change nothing and give `None`.
    pub fn update_book(&mut self, id: i32, book: Book) -> (r: Option<i32>)
        requires
            old(self).wf(),
        ensures
            final(self).wf(),
            match r {
                Some(rid) => rid == id && old(self)@.contains_key(id as int) && final(self)@
                    == old(self)@.insert(
                    id as int,
                    BookSpec {
                        id: id as int,
                        title: book@.title,
                        author: book@.author,
                        date_published: book@.date_published,
                    },
                ),
                None => !old(self)@.contains_key(id as int) && final(self)@ == old(self)@,
            },
    {
        let ghost pre = self.sv();
        let mut i: usize = 0;
        while i < self.books.len()
            invariant
                0 <= i <= self.books.len(),
                old(self).wf(),
                old(self).sv() == pre,
                self.wf(),
                self.sv() == pre,
                forall|j: int| 0 <= j < i ==> (#[trigger] self.sv()[j]).id != id as int,
            decreases self.books.len() - i,
        {
            proof {
                assert(self.sv()[i as int] == self.books@[i as int]@);
            }
            if self.books[i].id == id {
                proof {
                    assert(pre[i as int].id == id as int && pre[i as int].id >= 1);
                }
                let forced = Book {
                    id,
                    title: book.title,
                    author: book.author,
                    date_published: book.date_published,
                };
                proof {
                    lemma_map_of_index(pre, i as int);
                    lemma_map_of_remove(pre, i as int);
                    lemma_remove_keeps_shape(pre, i as int);
                }
                let ghost fv = forced@;
                self.books.remove(i);
                proof {
                    assert(self.sv() =~= pre.remove(i as int));
                }
                let ghost mid = self.sv();
                self.books.push(forced);
                proof {
                    assert(self.sv() =~= mid.push(fv));
                    assert(self.sv().drop_last() =~= mid);
                    assert(self.sv().last() == fv);
                    assert forall|i1: int, j1: int| 0 <= i1 < j1 < self.sv().len() implies self
                        .sv()[i1].id != self.sv()[j1].id by {
                        assert(self.sv()[i1] == mid[i1]);
                        if j1 == self.sv().len() - 1 {
                            assert(mid[i1].id != id as int);
                        } else {
                            assert(self.sv()[j1] == mid[j1]);
                        }
                    }
                    assert forall|j: int| 0 <= j < self.sv().len() implies 1 <= (
                    #[trigger] self.sv()[j]).id by {
                        if j < self.sv().len() - 1 {
                            assert(self.sv()[j] == mid[j]);
                        }
                    }
                    assert(self@ == map_of(mid).insert(fv.id, fv));
                    assert(self@ =~= map_of(pre).insert(id as int, fv));
                }
                return Some(id);
            }
            i = i + 1;
        }
        proof {
            lemma_map_of_contains(pre, id as int);
        }
        None
    }

    /// Looks a record up by id: a copy when present, `None` otherwise.
    /// Absence is a normal outcome, never an error.
    pub fn get_book(&self, id: &i32) -> (r: Option<Book>)
        requires
            self.wf(),
        ensures
            match r {
                Some(b) => self@.contains_key(*id as int) && b@ == self@[*id as int],
                None => !self@.contains_key(*id as int),
            },
    {
        let mut i: usize = 0;
        while i < self.books.len()
            invariant
                0 <= i <= self.books.len(),
                self.wf(),
                forall|j: int| 0 <= j < i ==> (#[trigger] self.sv()[j]).id != *id as int,
            decreases self.books.len() - i,
        {
            proof {
                assert(self.sv()[i as int] == self.books@[i as int]@);
            }
            if self.books[i].id == *id {
                let b = self.books[i].clone();
                proof {
                    lemma_map_of_index(self.sv(), i as int);
                }
                return Some(b);
            }
            i = i + 1;
        }
        proof {
            lemma_map_of_contains(self.sv(), *id as int);
        }
        None
    }

    /// Lists a copy of every record, in unspecified order: exactly the
    /// store's records, each id once.
    pub fn get_books(&self) -> (r: Vec<Book>)
        requires
            self.wf(),
        ensures
            r@.len() == self@.len(),
            forall|i: int|
                0 <= i < r@.len() ==> self@.contains_key((#[trigger] r@[i])@.id) && self@[r@[
                    i
                ]@.id] == r@[i]@,
            forall|i: int, j: int| 0 <= i < j < r@.len() ==> r@[i]@.id != r@[j]@.id,
            forall|k: int|
                self@.contains_key(k) ==> exists|i: int| 0 <= i < r@.len() && (#[trigger] r@[
                    i
                ])@.id == k,
    {
        let mut r: Vec<Book> = Vec::new();
        let mut i: usize = 0;
        while i < self.books.len()
            invariant
                0 <= i <= self.books.len(),
                self.wf(),
                r@.len() == i,
                forall|j: int| 0 <= j < i ==> (#[trigger] r@[j])@ == self.sv()[j],
            decreases self.books.len() - i,
        {
            let b = self.books[i].clone();
            proof {
                assert(self.sv()[i as int] == self.books@[i as int]@);
            }
            r.push(b);
            i = i + 1;
        }
        proof {
            lemma_map_of_len(self.sv());
            assert forall|i1: int| 0 <= i1 < r@.len() implies self@.contains_key(
                (#[trigger] r@[i1])@.id,
            ) && self@[r@[i1]@.id] == r@[i1]@ by {
                lemma_map_of_index(self.sv(), i1);
            }
            assert forall|k: int| self@.contains_key(k) implies exists|i1: int|
                0 <= i1 < r@.len() && (#[trigger] r@[i1])@.id == k by {
                lemma_map_of_contains(self.sv(), k);
                let i1 = choose|i1: int| 0 <= i1 < self.sv().len() && self.sv()[i1].id == k;
                assert(r@[i1]@.id == k);
            }
        }
        r
    }

    /// Removes the record under `id` when present; reports whether it was.
    fn remove_by_id(&mut self, id: i32) -> (removed: bool)
        requires
            old(self).wf(),
        ensures
            final(self).wf(),
            removed == old(self)@.contains_key(id as int),
            final(self)@ == old(self)@.remove(id as int),
            old(self)@.dom().finite(),
            final(self)@.len() as int == if removed {
                old(self)@.len() - 1
            } else {
                old(self)@.len() as int
            },
    {
        proof {
            self.lemma_len_bound();
            lemma_map_of_len(self.sv());
        }
        let ghost pre = self.sv();
        let mut i: usize = 0;
        while i < self.books.len()
            invariant
                0 <= i <= self.books.len(),
                old(self).wf(),
                old(self).sv() == pre,
                self.wf(),
                self.sv() == pre,
                forall|j: int| 0 <= j < i ==> (#[trigger] self.sv()[j]).id != id as int,
            decreases self.books.len() - i,
        {
            proof {
                assert(self.sv()[i as int] == self.books@[i as int]@);
            }
            if self.books[i].id == id {
                proof {
                    self.lemma_len_bound();
                    lemma_map_of_len(pre);
                    lemma_map_of_index(pre, i as int);
                    lemma_map_of_remove(pre, i as int);
                    lemma_remove_keeps_shape(pre, i as int);
                    lemma_map_of_len(pre.remove(i as int));
                    pre.remove_ensures(i as int);
                }
                self.books.remove(i);
                proof {
                    assert(self.sv() =~= pre.remove(i as int));
                }
                return true;
            }
            i = i + 1;
        }
        proof {
            lemma_map_of_contains(pre, id as int);
            assert(self@ =~= self@.remove(id as int));
        }
        false
    }

    /// Removes each named id that is present, skipping the rest, and counts
    /// the records actually removed; a duplicate id can match at most once.
    pub fn delete_book(&mut self, ids: &[i32]) -> (count: i32)
        requires
            old(self).wf(),
        ensures
            final(self).wf(),
            final(self)@ == old(self)@.remove_keys(ids_set(ids@)),
            count as int == old(self)@.len() - final(self)@.len(),
            count >= 0,
    {
        proof {
            self.lemma_len_bound();
        }
        let mut deleted: i32 = 0;
        let mut i: usize = 0;
        while i < ids.len()
            invariant
                0 <= i <= ids@.len(),
                old(self).wf(),
                self.wf(),
                old(self)@.dom().finite(),
                old(self)@.len() <= i32::MAX as int,
                self@ == old(self)@.remove_keys(ids_set(ids@.subrange(0, i as int))),
                self@.dom().finite(),
                deleted as int == old(self)@.len() - self@.len(),
                self@.len() <= old(self)@.len(),
                deleted >= 0,
            decreases ids@.len() - i,
        {
            let id = ids[i];
            let ghost cur = self@;
            let removed = self.remove_by_id(id);
            proof {
                let s_i = ids_set(ids@.subrange(0, i as int));
                let s_n = ids_set(ids@.subrange(0, i as int + 1));
                assert forall|k: int| s_n.contains(k) implies s_i.insert(id as int).contains(
                    k,
                ) by {
                    let j = choose|j: int|
                        0 <= j < ids@.subrange(0, i as int + 1).len() && (#[trigger] ids@.subrange(
                            0,
                            i as int + 1,
                        )[j]) as int == k;
                    if j < i as int {
                        assert(ids@.subrange(0, i as int)[j] as int == k);
                    }
                }
                assert forall|k: int| s_i.insert(id as int).contains(k) implies s_n.contains(
                    k,
                ) by {
                    if s_i.contains(k) {
                        let j = choose|j: int|
                            0 <= j < ids@.subrange(0, i as int).len() && (#[trigger] ids@.subrange(
                                0,
                                i as int,
                            )[j]) as int == k;
                        assert(ids@.subrange(0, i as int + 1)[j] as int == k);
                    } else {
                        assert(ids@.subrange(0, i as int + 1)[i as int] as int == k);
                    }
                }
                assert(s_n =~= s_i.insert(id as int));
                assert(self@ == cur.remove(id as int));
                assert(old(self)@.remove_keys(s_n) =~= cur.remove(id as int));
            }
            if removed {
                deleted = deleted + 1;
            }
            i = i + 1;
        }
        proof {
            assert(ids@.subrange(0, ids@.len() as int) =~= ids@);
        }
        deleted
    }
}

/// Empty-store baseline: the only maximum id of a store holding nothing is 0,
/// so the first create assigns id 0 + 1 = 1.
pub proof fn lemma_empty_store_max_zero(r: int)
    requires
        is_max_id(Map::<int, BookSpec>::empty(), r),
    ensures
        r == 0,
{
}

/// Id monotonicity: a store holding exactly the ids 1 through `n` has maximum
/// id `n`, so the next create assigns `n + 1`. Applied create after create
/// starting from the empty store, the assigned ids are exactly 1, 2, 3, ...
/// in creation order.
pub proof fn lemma_initial_segment_max(m: Map<int, BookSpec>, n: int, r: int)
    requires
        n >= 0,
        m.dom() == set_int_range(1, n + 1),
        is_max_id(m, r),
    ensures
        r == n,
{
    if n == 0 {
        if r != 0 {
            assert(m.contains_key(r));
        }
    } else {
        assert(set_int_range(1, n + 1).contains(n));
        assert(m.contains_key(n));
        assert(m.contains_key(r));
    }
}

/// Id monotonicity, the step: inserting the next id `n + 1` into a store
/// holding exactly the ids 1 through `n` gives exactly the ids 1 through
/// `n + 1`.
pub proof fn lemma_initial_segment_extend(m: Map<int, BookSpec>, n: int, b: BookSpec)
    requires
        n >= 0,
        m.dom() == set_int_range(1, n + 1),
        b.id == n + 1,
    ensures
        m.insert(b.id, b).dom() == set_int_range(1, n + 2),
{
    assert(m.insert(b.id, b).dom() =~= set_int_range(1, n + 2));
}

/// Create safety: a freshly assigned id (maximum plus one) collides with no
/// id already present, so a create loses no record and the count grows by
/// exactly one. Under the store's one-operation-at-a-time locking this makes
/// any number of interleaved creates yield pairwise distinct ids.
pub proof fn lemma_create_fresh_id(m: Map<int, BookSpec>, r: int, b: BookSpec)
    requires
        is_max_id(m, r),
        b.id == r + 1,
        m.dom().finite(),
    ensures
        !m.contains_key(b.id),
        m.insert(b.id, b).len() == m.len() + 1,
{
    if m.contains_key(b.id) {
        assert(b.id <= r);
    }
}

/// Get after create: the record just stored is present under its id, equal to
/// what create returned; any id never stored (or since removed) is absent,
/// which `Store::get_book` reports as `None`.
pub proof fn lemma_get_after_create(m: Map<int, BookSpec>, b: BookSpec)
    ensures
        m.insert(b.id, b).contains_key(b.id),
        m.insert(b.id, b)[b.id] == b,
{
}

/// Update preserves the id and replaces the content: updating a present id
/// keeps the set of stored ids unchanged and stores the given content under
/// the same id, whatever id the payload itself carried.
pub proof fn lemma_update_preserves_id(m: Map<int, BookSpec>, id: int, b: BookSpec)
    requires
        m.contains_key(id),
        b.id == id,
    ensures
        m.insert(id, b).dom() == m.dom(),
        m.insert(id, b)[id] == b,
        m.insert(id, b)[id].id == id,
{
    assert(m.insert(id, b).dom() =~= m.dom());
}

/// Delete collapses duplicates: the ids a deletion request names form a set,
/// so naming an id twice removes (and counts) at most one record.
pub proof fn lemma_ids_set_duplicate(ids: Seq<i32>, x: i32)
    requires
        ids.contains(x),
    ensures
        ids_set(ids.push(x)) == ids_set(ids),
{
    assert forall|k: int| ids_set(ids.push(x)).contains(k) implies ids_set(ids).contains(k) by {
        let i = choose|i: int|
            0 <= i < ids.push(x).len() && (#[trigger] ids.push(x)[i]) as int == k;
        if i < ids.len() {
            assert(ids[i] as int == k);
        } else {
            let j = choose|j: int| 0 <= j < ids.len() && ids[j] == x;
            assert(ids[j] as int == k);
        }
    }
    assert forall|k: int| ids_set(ids).contains(k) implies ids_set(ids.push(x)).contains(k) by {
        let i = choose|i: int| 0 <= i < ids.len() && (#[trigger] ids[i]) as int == k;
        assert(ids.push(x)[i] as int == k);
    }
    assert(ids_set(ids.push(x)) =~= ids_set(ids));
}

impl Default for Store {
    /// Same as `Store::new`: an empty store.
    fn default() -> (r: Store)
        ensures
            r@ == Map::<int, BookSpec>::empty(),
            r.wf(),
    {
        Store::new()
    }
}

} // verus!
