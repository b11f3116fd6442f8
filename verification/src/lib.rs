//! A small in-memory book catalogue: a store of records keyed by integer id,
//! a calendar-date wire codec, the decision logic behind each HTTP operation
//! of the service exposing the catalogue, and the pieces around them (error
//! taxonomy, configuration validation, API description). The free functions
//! here mirror the store's methods for callers preferring function-call
//! style over method calls.

pub mod api;
pub mod config;
pub mod date;
pub mod digits;
pub mod docs;
pub mod error;
pub mod models;

use vstd::prelude::*;
use crate::date::Date;
use crate::models::ids_set;
use crate::models::is_max_id;
use crate::models::Book;
use crate::models::BookSpec;
use crate::models::NewBook;
use crate::models::Store;

verus! {

/// Builds the store a freshly started process works against: empty.
pub fn establish_connection() -> (r: Store)
    ensures
        r@ == Map::<int, BookSpec>::empty(),
        r.wf(),
{
    Store::new()
}

/// Function-call form of `Store::create_book`.
pub fn create_book(conn: &mut Store, title: &str, author: &str, date_published: &Date) -> (r:
    Book)
    requires
        old(conn).wf(),
        !old(conn)@.contains_key(i32::MAX as int),
    ensures
        final(conn).wf(),
        r.id >= 1,
        is_max_id(old(conn)@, r.id - 1),
        !old(conn)@.contains_key(r.id as int),
        r@.title == title@,
        r@.author == author@,
        r@.date_published == *date_published,
        final(conn)@ == old(conn)@.insert(r.id as int, r@),
        final(conn)@.len() == old(conn)@.len() + 1,
{
    conn.create_book(
        NewBook {
            title: title.to_owned(),
            author: author.to_owned(),
            date_published: *date_published,
        },
    )
}

/// Function-call form of `Store::delete_book`.
pub fn delete_book(conn: &mut Store, ids: &[i32]) -> (count: i32)
    requires
        old(conn).wf(),
    ensures
        final(conn).wf(),
        final(conn)@ == old(conn)@.remove_keys(ids_set(ids@)),
        count as int == old(conn)@.len() - final(conn)@.len(),
        count >= 0,
{
    conn.delete_book(ids)
}

/// Function-call form of `Store::get_book`.
pub fn get_book(conn: &mut Store, id: &i32) -> (r: Option<Book>)
    requires
        old(conn).wf(),
    ensures
        *final(conn) == *old(conn),
        match r {
            Some(b) => old(conn)@.contains_key(*id as int) && b@ == old(conn)@[*id as int],
            None => !old(conn)@.contains_key(*id as int),
        },
{
    conn.get_book(id)
}

/// Function-call form of `Store::get_books`.
pub fn get_books(conn: &mut Store) -> (r: Vec<Book>)
    requires
        old(conn).wf(),
    ensures
        *final(conn) == *old(conn),
        r@.len() == old(conn)@.len(),
        forall|i: int|
            0 <= i < r@.len() ==> old(conn)@.contains_key((#[trigger] r@[i])@.id) && old(conn)@[
                r@[i]@.id
            ] == r@[i]@,
        forall|i: int, j: int| 0 <= i < j < r@.len() ==> r@[i]@.id != r@[j]@.id,
        forall|k: int|
            old(conn)@.contains_key(k) ==> exists|i: int|
                0 <= i < r@.len() && (#[trigger] r@[i])@.id == k,
{
    conn.get_books()
}

/// Function-call form of `Store::update_book`.
pub fn update_book(conn: &mut Store, id: i32, book: Book) -> (r: Option<i32>)
    requires
        old(conn).wf(),
    ensures
        final(conn).wf(),
        match r {
            Some(rid) => rid == id && old(conn)@.contains_key(id as int) && final(conn)@ == old(
                conn,
            )@.insert(
                id as int,
                BookSpec {
                    id: id as int,
                    title: book@.title,
                    author: book@.author,
                    date_published: book@.date_published,
                },
            ),
            None => !old(conn)@.contains_key(id as int) && final(conn)@ == old(conn)@,
        },
{
    conn.update_book(id, book)
}

} // verus!
