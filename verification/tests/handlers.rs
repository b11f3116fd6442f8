use bis::api::{self, BookError, ListIds};
use bis::date::Date;
use bis::models::{Book, NewBook, Store};

fn date(y: i32, m: u8, d: u8) -> Date {
    Date::new(y, m, d).expect("valid date")
}

fn payload(title: &str, author: &str, d: Date) -> NewBook {
    NewBook { title: title.to_string(), author: author.to_string(), date_published: d }
}

#[test]
fn end_to_end_scenario() {
    let mut store = bis::establish_connection();

    // POST /bis on an empty store.
    let created = api::create_book(
        &mut store,
        payload("Dune", "Frank Herbert", date(1965, 8, 1)),
    );
    assert_eq!(created.id, 1);
    assert_eq!(created.title, "Dune");
    assert_eq!(created.author, "Frank Herbert");
    assert_eq!(created.date_published.encode(), "1965-08-01");

    // GET /bis/1 returns the same record.
    let got = api::get_book(&store, 1).expect("present");
    assert_eq!(got.id, 1);
    assert_eq!(got.title, "Dune");
    assert_eq!(got.author, "Frank Herbert");
    assert_eq!(got.date_published.encode(), "1965-08-01");

    // DELETE /bis with ids [1].
    let body = api::delete_book(&mut store, ListIds { ids: vec![1] }).expect("deleted");
    assert_eq!(body, "1 books were deleted");

    // GET /bis/1 is now a 404 with the documented message.
    match api::get_book(&store, 1) {
        Err(BookError::NotFound(m)) => {
            assert_eq!(m, "No book with id: 1");
        }
        other => panic!("expected not-found, got {:?}", other),
    }
}

#[test]
fn get_books_distinguishes_empty_from_populated() {
    let mut store = Store::new();
    match api::get_books(&store) {
        Err(e) => {
            assert_eq!(e.status_code(), 404);
            match e {
                BookError::EmptyStore(m) => assert_eq!(m, "No books found in Book Store"),
                other => panic!("expected empty-store, got {:?}", other),
            }
        }
        Ok(_) => panic!("empty store must not list successfully"),
    }
    api::create_book(&mut store, payload("T", "A", date(2000, 1, 1)));
    let list = api::get_books(&store).expect("non-empty");
    assert_eq!(list.len(), 1);
    assert_eq!(list[0].id, 1);
}

#[test]
fn update_present_id_confirms_and_ignores_payload_id() {
    let mut store = Store::new();
    for _ in 0..3 {
        api::create_book(&mut store, payload("Old", "Old", date(2000, 1, 1)));
    }
    let body = Book {
        id: 3,
        title: "New".to_string(),
        author: "New".to_string(),
        date_published: date(2020, 2, 2),
    };
    let confirmation = api::update_book(&mut store, body).expect("present");
    assert_eq!(confirmation.id, 3);
    let got = api::get_book(&store, 3).expect("present");
    assert_eq!(got.title, "New");
    assert_eq!(got.id, 3);
}

#[test]
fn update_missing_id_is_not_found_and_keeps_count() {
    let mut store = Store::new();
    api::create_book(&mut store, payload("T", "A", date(2000, 1, 1)));
    let body = Book {
        id: 42,
        title: "X".to_string(),
        author: "Y".to_string(),
        date_published: date(2001, 1, 1),
    };
    match api::update_book(&mut store, body) {
        Err(e) => {
            assert_eq!(e.status_code(), 404);
            match e {
                BookError::NotFound(m) => assert_eq!(m, "No book with id=42 to update"),
                other => panic!("expected not-found, got {:?}", other),
            }
        }
        Ok(_) => panic!("missing id must not update"),
    }
    assert_eq!(api::get_books(&store).expect("one record").len(), 1);
}

#[test]
fn delete_nothing_matching_is_not_found() {
    let mut store = Store::new();
    api::create_book(&mut store, payload("T", "A", date(2000, 1, 1)));
    match api::delete_book(&mut store, ListIds { ids: vec![5, 6] }) {
        Err(e) => {
            assert_eq!(e.status_code(), 404);
            match e {
                BookError::NotFound(m) => assert_eq!(m, "No books were found for deletion"),
                other => panic!("expected not-found, got {:?}", other),
            }
        }
        Ok(_) => panic!("nothing matched, so the delete must report not-found"),
    }
}

#[test]
fn delete_reports_the_number_removed() {
    let mut store = Store::new();
    for _ in 0..4 {
        api::create_book(&mut store, payload("T", "A", date(2000, 1, 1)));
    }
    let body = api::delete_book(&mut store, ListIds { ids: vec![1, 3, 99] }).expect("some");
    assert_eq!(body, "2 books were deleted");
}

#[test]
fn error_statuses_and_bodies_follow_the_taxonomy() {
    let nf = BookError::NotFound("gone".to_string());
    let es = BookError::EmptyStore("empty".to_string());
    let un = BookError::Unexpected("secret detail".to_string());
    assert_eq!(nf.status_code(), 404);
    assert_eq!(es.status_code(), 404);
    assert_eq!(un.status_code(), 500);
    assert_eq!(nf.error_response(), "gone");
    assert_eq!(es.error_response(), "empty");
    assert_eq!(un.error_response(), "");
}

#[test]
fn error_chain_renders_each_cause_on_its_own_line() {
    let messages = vec![
        "request failed".to_string(),
        "store unavailable".to_string(),
        "disk on fire".to_string(),
    ];
    let rendered = api::error_chain_fmt(&messages);
    assert_eq!(
        rendered,
        "request failed\n\nCaused by:\n\tstore unavailable\nCaused by:\n\tdisk on fire\n"
    );
    assert_eq!(api::error_chain_fmt(&vec!["only".to_string()]), "only\n\n");
    assert_eq!(api::error_chain_fmt(&Vec::new()), "");
}

#[test]
fn facade_functions_mirror_the_store() {
    let mut conn = bis::establish_connection();
    let d = date(2010, 10, 10);
    let b = bis::create_book(&mut conn, "T", "A", &d);
    assert_eq!(b.id, 1);
    assert_eq!(bis::get_books(&mut conn).len(), 1);
    let got = bis::get_book(&mut conn, &1).expect("present");
    assert_eq!(got.title, "T");
    let replacement = Book {
        id: 1,
        title: "U".to_string(),
        author: "B".to_string(),
        date_published: d,
    };
    assert_eq!(bis::update_book(&mut conn, 1, replacement), Some(1));
    assert_eq!(bis::delete_book(&mut conn, &[1, 2]), 1);
    assert!(bis::get_book(&mut conn, &1).is_none());
}
