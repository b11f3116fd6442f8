//! The API documentation description: the fixed list of operations the HTTP
//! surface offers and the data shapes they consume and produce. Assembled
//! once at startup and served alongside the API; it must stay in lock-step
//! with the handler layer.

use vstd::prelude::*;
use vstd::string::StringExecFns;

verus! {

#[derive(Clone, Copy, PartialEq, Eq, Structural, Debug)]
pub enum HttpMethod {
    Get,
    Post,
    Put,
    Delete,
}

/// One operation of the HTTP surface: a method bound to a path.
#[derive(Debug)]
pub struct Operation {
    pub method: HttpMethod,
    pub path: String,
}

/// The machine-readable description of the HTTP surface.
pub struct ApiDoc;

impl ApiDoc {
    /// The five book operations, in the order the route table registers
    /// them: list, read-one, create, update, delete.
    pub fn operations() -> (r: Vec<Operation>)
        ensures
            r@.len() == 5,
            r@[0].method == HttpMethod::Get && r@[0].path@ == "/bis"@,
            r@[1].method == HttpMethod::Get && r@[1].path@ == "/bis/{book_id}"@,
            r@[2].method == HttpMethod::Post && r@[2].path@ == "/bis"@,
            r@[3].method == HttpMethod::Put && r@[3].path@ == "/bis"@,
            r@[4].method == HttpMethod::Delete && r@[4].path@ == "/bis"@,
    {
        let mut r: Vec<Operation> = Vec::new();
        r.push(Operation { method: HttpMethod::Get, path: String::from_str("/bis") });
        r.push(Operation { method: HttpMethod::Get, path: String::from_str("/bis/{book_id}") });
        r.push(Operation { method: HttpMethod::Post, path: String::from_str("/bis") });
        r.push(Operation { method: HttpMethod::Put, path: String::from_str("/bis") });
        r.push(Operation { method: HttpMethod::Delete, path: String::from_str("/bis") });
        r
    }

    /// The data shapes the operations speak: the stored record, the creation
    /// payload, the update confirmation and the bulk-delete request.
    pub fn schemas() -> (r: Vec<String>)
        ensures
            r@.len() == 4,
            r@[0]@ == "Book"@,
            r@[1]@ == "NewBook"@,
            r@[2]@ == "Id"@,
            r@[3]@ == "ListIds"@,
    {
        let mut r: Vec<String> = Vec::new();
        r.push(String::from_str("Book"));
        r.push(String::from_str("NewBook"));
        r.push(String::from_str("Id"));
        r.push(String::from_str("ListIds"));
        r
    }
}

} // verus!
