use bis::date::Date;
use bis::models::{NewBook, Store};

fn date(y: i32, m: u8, d: u8) -> Date {
    Date::new(y, m, d).expect("valid date")
}

fn payload(title: &str, author: &str, d: Date) -> NewBook {
    NewBook { title: title.to_string(), author: author.to_string(), date_published: d }
}

#[test]
fn fresh_store_has_max_id_zero() {
    let s = Store::new();
    assert_eq!(s.max_id(), 0);
}

#[test]
fn first_create_assigns_id_one() {
    let mut s = Store::new();
    let b = s.create_book(payload("Dune", "Frank Herbert", date(1965, 8, 1)));
    assert_eq!(b.id, 1);
    assert_eq!(s.max_id(), 1);
}

#[test]
fn creates_assign_consecutive_ids() {
    let mut s = Store::new();
    for n in 1..=5 {
        let b = s.create_book(payload("T", "A", date(2000, 1, 1)));
        assert_eq!(b.id, n);
    }
    assert_eq!(s.max_id(), 5);
}

#[test]
fn deleted_ids_are_not_reused_below_max() {
    let mut s = Store::new();
    for _ in 0..3 {
        s.create_book(payload("T", "A", date(2000, 1, 1)));
    }
    assert_eq!(s.delete_book(&[1]), 1);
    let b = s.create_book(payload("T", "A", date(2000, 1, 1)));
    assert_eq!(b.id, 4);
}

#[test]
fn get_absent_returns_none() {
    let s = Store::new();
    assert!(s.get_book(&42).is_none());
}

#[test]
fn get_after_create_returns_equal_record() {
    let mut s = Store::new();
    let b = s.create_book(payload("Dune", "Frank Herbert", date(1965, 8, 1)));
    let g = s.get_book(&b.id).expect("present");
    assert_eq!(g.id, b.id);
    assert_eq!(g.title, b.title);
    assert_eq!(g.author, b.author);
    assert_eq!(g.date_published, b.date_published);
}

#[test]
fn get_after_delete_returns_none() {
    let mut s = Store::new();
    let b = s.create_book(payload("T", "A", date(2000, 1, 1)));
    assert_eq!(s.delete_book(&[b.id]), 1);
    assert!(s.get_book(&b.id).is_none());
}

#[test]
fn update_preserves_id_and_replaces_content() {
    let mut s = Store::new();
    for _ in 0..3 {
        s.create_book(payload("Old", "Old Author", date(2000, 1, 1)));
    }
    let replacement = bis::models::Book {
        id: 99,
        title: "New".to_string(),
        author: "New Author".to_string(),
        date_published: date(2020, 2, 2),
    };
    let r = s.update_book(3, replacement);
    assert_eq!(r, Some(3));
    let g = s.get_book(&3).expect("still present");
    assert_eq!(g.id, 3);
    assert_eq!(g.title, "New");
    assert_eq!(g.author, "New Author");
    assert_eq!(g.date_published, date(2020, 2, 2));
    assert!(s.get_book(&99).is_none());
}

#[test]
fn update_missing_id_returns_none_and_changes_nothing() {
    let mut s = Store::new();
    s.create_book(payload("T", "A", date(2000, 1, 1)));
    let replacement = bis::models::Book {
        id: 7,
        title: "X".to_string(),
        author: "Y".to_string(),
        date_published: date(2001, 1, 1),
    };
    assert_eq!(s.update_book(7, replacement), None);
    assert_eq!(s.get_books().len(), 1);
    let g = s.get_book(&1).expect("present");
    assert_eq!(g.title, "T");
}

#[test]
fn delete_counts_duplicates_once_and_skips_missing() {
    let mut s = Store::new();
    for _ in 0..3 {
        s.create_book(payload("T", "A", date(2000, 1, 1)));
    }
    assert_eq!(s.delete_book(&[1, 2]), 2);
    // Only id 3 is left now.
    assert_eq!(s.delete_book(&[3, 3, 999]), 1);
    assert_eq!(s.delete_book(&[999]), 0);
    assert!(s.get_books().is_empty());
}

#[test]
fn list_returns_every_record_once() {
    let mut s = Store::new();
    for _ in 0..4 {
        s.create_book(payload("T", "A", date(2000, 1, 1)));
    }
    let mut ids: Vec<i32> = s.get_books().into_iter().map(|b| b.id).collect();
    ids.sort();
    assert_eq!(ids, vec![1, 2, 3, 4]);
}

#[test]
fn distinct_creates_never_collide() {
    let mut s = Store::new();
    let mut ids = Vec::new();
    for _ in 0..20 {
        ids.push(s.create_book(payload("T", "A", date(2000, 1, 1))).id);
    }
    let mut sorted = ids.clone();
    sorted.sort();
    sorted.dedup();
    assert_eq!(sorted.len(), ids.len());
    assert_eq!(s.get_books().len(), 20);
}

#[test]
fn default_store_is_empty() {
    let s: Store = Default::default();
    assert_eq!(s.max_id(), 0);
    assert!(s.get_books().is_empty());
}
