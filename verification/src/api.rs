//! The request/response boundary: one decision function per HTTP operation,
//! the request and response shapes, and the error-to-status mapping. Each
//! function takes the parsed request values, performs one store operation and
//! returns either the success payload or the error the response is built
//! from.

use vstd::prelude::*;
use vstd::string::StringExecFns;
use crate::digits::i32_to_string;
use crate::digits::int_rep;
use crate::models::ids_set;
use crate::models::is_max_id;
use crate::models::Book;
use crate::models::BookSpec;
use crate::models::NewBook;
use crate::models::Store;

verus! {

/// The error taxonomy of the handler layer: an absent id, a list over an
/// empty store, or an unanticipated internal failure (whose message never
/// reaches the client).
#[derive(Debug)]
pub enum BookError {
    NotFound(String),
    EmptyStore(String),
    Unexpected(String),
}

/// The HTTP status an error maps to: absence and emptiness are 404, the
/// unexpected is an opaque 500.
pub open spec fn spec_status_code(e: &BookError) -> int {
    match e {
        BookError::NotFound(_) => 404,
        BookError::EmptyStore(_) => 404,
        BookError::Unexpected(_) => 500,
    }
}

impl BookError {
    pub fn status_code(&self) -> (r: u16)
        ensures
            r as int == spec_status_code(self),
    {
        match self {
            BookError::NotFound(_) => 404,
            BookError::EmptyStore(_) => 404,
            BookError::Unexpected(_) => 500,
        }
    }

    /// The response body: the plain message for an absent id or an empty
    /// store; deliberately empty for an unexpected failure, so internal
    /// detail never leaks to the client.
    pub fn error_response(&self) -> (r: String)
        ensures
            match self {
                BookError::NotFound(m) => r@ == m@,
                BookError::EmptyStore(m) => r@ == m@,
                BookError::Unexpected(_) => r@ == Seq::<char>::empty(),
            },
    {
        match self {
            BookError::NotFound(m) => m.clone(),
            BookError::EmptyStore(m) => m.clone(),
            BookError::Unexpected(_) => String::new(),
        }
    }
}

/// The response shape confirming which record an update modified.
#[derive(Clone, Copy, PartialEq, Eq, Structural, Debug)]
pub struct Id {
    pub id: i32,
}

/// The request shape naming the records a bulk delete removes.
#[derive(Debug)]
pub struct ListIds {
    pub ids: Vec<i32>,
}

/// Creates a book from the payload: the store assigns the next id and the
/// created record comes back whole (HTTP 200). Never fails.
pub fn create_book(pool: &mut Store, info: NewBook) -> (r: Book)
    requires
        old(pool).wf(),
        !old(pool)@.contains_key(i32::MAX as int),
    ensures
        final(pool).wf(),
        r.id >= 1,
        is_max_id(old(pool)@, r.id - 1),
        !old(pool)@.contains_key(r.id as int),
        r@.title == info.title@,
        r@.author == info.author@,
        r@.date_published == info.date_published,
        final(pool)@ == old(pool)@.insert(r.id as int, r@),
        final(pool)@.len() == old(pool)@.len() + 1,
{
    pool.create_book(info)
}

/// Updates the record the payload's own id names: `Ok` with that id when it
/// exists, else a 404-mapped `NotFound` with the store left unchanged.
pub fn update_book(pool: &mut Store, book: Book) -> (r: Result<Id, BookError>)
    requires
        old(pool).wf(),
    ensures
        final(pool).wf(),
        match r {
            Ok(out) => out.id == book.id && old(pool)@.contains_key(book@.id) && final(pool)@
                == old(pool)@.insert(
                book@.id,
                BookSpec {
                    id: book@.id,
                    title: book@.title,
                    author: book@.author,
                    date_published: book@.date_published,
                },
            ),
            Err(e) => !old(pool)@.contains_key(book@.id) && final(pool)@ == old(pool)@ && (
            e matches BookError::NotFound(m) && m@ == "No book with id="@ + int_rep(book@.id)
                + " to update"@),
        },
{
    let book_id = book.id;
    match pool.update_book(book_id, book) {
        Some(id) => Ok(Id { id }),
        None => {
            let mut m = String::new();
            m.append("No book with id=");
            let num = i32_to_string(book_id);
            m.append(num.as_str());
            m.append(" to update");
            proof {
                assert(m@ =~= "No book with id="@ + int_rep(book_id as int) + " to update"@);
            }
            Err(BookError::NotFound(m))
        },
    }
}

/// Looks one record up by its path id: `Ok` with a copy when present, else a
/// 404-mapped `NotFound` naming the id.
pub fn get_book(pool: &Store, book_id: i32) -> (r: Result<Book, BookError>)
    requires
        pool.wf(),
    ensures
        match r {
            Ok(b) => pool@.contains_key(book_id as int) && b@ == pool@[book_id as int],
            Err(e) => !pool@.contains_key(book_id as int) && (
            e matches BookError::NotFound(m) && m@ == "No book with id: "@ + int_rep(
                book_id as int,
            )),
        },
{
    match pool.get_book(&book_id) {
        Some(b) => Ok(b),
        None => {
            let mut m = String::new();
            m.append("No book with id: ");
            let num = i32_to_string(book_id);
            m.append(num.as_str());
            proof {
                assert(m@ =~= "No book with id: "@ + int_rep(book_id as int));
            }
            Err(BookError::NotFound(m))
        },
    }
}

/// Lists every record: `Ok` with exactly the store's records when any exist;
/// an empty store is its own 404-mapped outcome, never an empty 200 list.
pub fn get_books(pool: &Store) -> (r: Result<Vec<Book>, BookError>)
    requires
        pool.wf(),
    ensures
        match r {
            Ok(list) => pool@.len() > 0 && list@.len() == pool@.len() && (forall|i: int|
                0 <= i < list@.len() ==> pool@.contains_key((#[trigger] list@[i])@.id) && pool@[
                    list@[i]@.id
                ] == list@[i]@) && (forall|i: int, j: int|
                0 <= i < j < list@.len() ==> list@[i]@.id != list@[j]@.id) && (forall|k: int|
                pool@.contains_key(k) ==> exists|i: int|
                    0 <= i < list@.len() && (#[trigger] list@[i])@.id == k),
            Err(e) => pool@.len() == 0 && (e matches BookError::EmptyStore(m) && m@
                == "No books found in Book Store"@),
        },
{
    let book_list = pool.get_books();
    if book_list.len() == 0 {
        let mut m = String::new();
        m.append("No books found in Book Store");
        proof {
            assert(m@ =~= "No books found in Book Store"@);
        }
        Err(BookError::EmptyStore(m))
    } else {
        Ok(book_list)
    }
}

/// Removes the named records: `Ok` with the text `<n> books were deleted`
/// when anything matched, else a 404-mapped `NotFound`; either way every
/// named id is gone afterwards.
pub fn delete_book(pool: &mut Store, del_list: ListIds) -> (r: Result<String, BookError>)
    requires
        old(pool).wf(),
    ensures
        final(pool).wf(),
        final(pool)@ == old(pool)@.remove_keys(ids_set(del_list.ids@)),
        match r {
            Ok(body) => old(pool)@.len() > final(pool)@.len() && body@ == int_rep(
                old(pool)@.len() - final(pool)@.len(),
            ) + " books were deleted"@,
            Err(e) => old(pool)@.len() == final(pool)@.len() && (
            e matches BookError::NotFound(m) && m@ == "No books were found for deletion"@),
        },
{
    let del_count = pool.delete_book(del_list.ids.as_slice());
    if del_count == 0 {
        let mut m = String::new();
        m.append("No books were found for deletion");
        proof {
            assert(m@ =~= "No books were found for deletion"@);
        }
        Err(BookError::NotFound(m))
    } else {
        let mut body = i32_to_string(del_count);
        body.append(" books were deleted");
        proof {
            assert(body@ =~= int_rep(del_count as int) + " books were deleted"@);
        }
        Ok(body)
    }
}

/// List emptiness semantics: the outcome `get_books` returns for a store
/// with zero records is the empty-store error, and that error maps to HTTP
/// 404, never to a success status; a store with records yields the full list
/// (the success side of `get_books`' contract).
pub proof fn lemma_empty_store_status(e: BookError)
    requires
        e matches BookError::EmptyStore(_),
    ensures
        spec_status_code(&e) == 404,
{
}

/// The rendering of one error and its chain of causes, as the server-side
/// diagnostic log shows it: the error's own message first, then one indented
/// `Caused by:` line per cause, outermost first.
pub open spec fn error_chain_rep(msgs: Seq<Seq<char>>) -> Seq<char> {
    if msgs.len() == 0 {
        Seq::empty()
    } else {
        msgs[0] + "\n\n"@ + causes_rep(msgs.drop_first())
    }
}

pub open spec fn causes_rep(msgs: Seq<Seq<char>>) -> Seq<char>
    decreases msgs.len(),
{
    if msgs.len() == 0 {
        Seq::empty()
    } else {
        causes_rep(msgs.drop_last()) + "Caused by:\n\t"@ + msgs.last() + "\n"@
    }
}

/// The views of a list of messages.
pub open spec fn msg_views(v: Seq<String>) -> Seq<Seq<char>> {
    v.map_values(|s: String| s@)
}

/// Renders an error chain for the diagnostic log: the first message is the
/// error itself, the rest are its causes, outermost first.
pub fn error_chain_fmt(messages: &Vec<String>) -> (r: String)
    ensures
        r@ == error_chain_rep(msg_views(messages@)),
{
    let mut out = String::new();
    if messages.len() == 0 {
        return out;
    }
    out.append(messages[0].as_str());
    out.append("\n\n");
    proof {
        let dv = msg_views(messages@);
        assert(dv.subrange(1, 1) =~= Seq::<Seq<char>>::empty());
        assert(out@ =~= messages@[0]@ + "\n\n"@ + causes_rep(dv.subrange(1, 1)));
    }
    let mut i: usize = 1;
    while i < messages.len()
        invariant
            1 <= i <= messages@.len(),
            out@ == msg_views(messages@)[0] + "\n\n"@ + causes_rep(
                msg_views(messages@).subrange(1, i as int),
            ),
        decreases messages@.len() - i,
    {
        out.append("Caused by:\n\t");
        out.append(messages[i].as_str());
        out.append("\n");
        proof {
            let dv = msg_views(messages@);
            assert(dv.subrange(1, i as int + 1).drop_last() =~= dv.subrange(1, i as int));
            assert(dv.subrange(1, i as int + 1).last() == dv[i as int]);
            assert(dv[i as int] == messages@[i as int]@);
            assert(out@ =~= dv[0] + "\n\n"@ + causes_rep(dv.subrange(1, i as int + 1)));
        }
        i = i + 1;
    }
    proof {
        let dv = msg_views(messages@);
        assert(dv.drop_first() =~= dv.subrange(1, messages@.len() as int));
        assert(out@ =~= error_chain_rep(dv));
    }
    out
}

} // verus!
