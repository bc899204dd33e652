//! The collection model: upsert-by-identity, lookup, bulk insert,
//! partial update, and deletion.

use bongo::{Collection, Document, Error, Field, Filter, Patch, Value};

fn doc(id: u64, title: &str) -> Document {
    Document::new(
        id,
        vec![Field::new(String::from("title"), Value::Text(String::from(title)))],
    )
}

#[test]
fn save_then_find_by_id_returns_equal_record() {
    let mut c = Collection::new(String::from("todos"));
    let d = doc(7, "water the plants");
    c.save(&d);
    assert_eq!(c.find_by_id(7), Some(d));
}

#[test]
fn save_twice_leaves_state_of_single_save() {
    let mut c = Collection::new(String::from("todos"));
    let d = doc(7, "water the plants");
    c.save(&d);
    let after_one_count = c.estimated_document_count();
    let after_one = c.find(&Filter::All);
    c.save(&d);
    assert_eq!(c.estimated_document_count(), after_one_count);
    assert_eq!(c.find(&Filter::All), after_one);
    assert_eq!(c.estimated_document_count(), 1);
}

#[test]
fn save_replaces_matched_record_and_reports_upsert() {
    let mut c = Collection::new(String::from("todos"));
    let first = c.save(&doc(7, "old title"));
    assert_eq!(first.matched_count, 0);
    assert_eq!(first.upserted_id, Some(7));
    let second = c.save(&doc(7, "new title"));
    assert_eq!(second.matched_count, 1);
    assert_eq!(second.modified_count, 1);
    assert_eq!(second.upserted_id, None);
    assert_eq!(c.find_by_id(7), Some(doc(7, "new title")));
    assert_eq!(c.estimated_document_count(), 1);
}

#[test]
fn find_returns_matches_in_stored_order() {
    let mut c = Collection::new(String::from("todos"));
    c.save(&doc(1, "a"));
    c.save(&doc(2, "b"));
    c.save(&doc(3, "c"));
    let all = c.find(&Filter::All);
    assert_eq!(all, vec![doc(1, "a"), doc(2, "b"), doc(3, "c")]);
    assert_eq!(c.find(&Filter::IdEq(2)), vec![doc(2, "b")]);
}

#[test]
fn find_one_returns_first_match_or_none() {
    let mut c = Collection::new(String::from("todos"));
    assert_eq!(c.find_one(&Filter::All), None);
    c.save(&doc(1, "a"));
    c.save(&doc(2, "b"));
    assert_eq!(c.find_one(&Filter::All), Some(doc(1, "a")));
    assert_eq!(c.find_one(&Filter::IdEq(9)), None);
}

#[test]
fn counts_are_exact() {
    let mut c = Collection::new(String::from("todos"));
    c.save(&doc(1, "a"));
    c.save(&doc(2, "b"));
    assert_eq!(c.estimated_document_count(), 2);
    assert_eq!(c.count_documents(&Filter::All), 2);
    assert_eq!(c.count_documents(&Filter::IdEq(2)), 1);
    assert_eq!(c.count_documents(&Filter::IdEq(9)), 0);
}

#[test]
fn insert_many_inserts_all_in_order() {
    let mut c = Collection::new(String::from("todos"));
    let summary = c
        .insert_many(&vec![doc(1, "a"), doc(2, "b"), doc(3, "c")])
        .unwrap();
    assert_eq!(summary.inserted_count, 3);
    assert_eq!(c.find(&Filter::All), vec![doc(1, "a"), doc(2, "b"), doc(3, "c")]);
}

#[test]
fn insert_many_stops_at_first_duplicate() {
    let mut c = Collection::new(String::from("todos"));
    c.save(&doc(2, "existing"));
    let r = c.insert_many(&vec![doc(1, "a"), doc(2, "dup"), doc(3, "c")]);
    assert_eq!(r, Err(Error::DatabaseError));
    // The document before the duplicate stays inserted; the rest were
    // never attempted.
    assert_eq!(c.find(&Filter::All), vec![doc(2, "existing"), doc(1, "a")]);
}

#[test]
fn insert_many_rejects_duplicate_within_batch() {
    let mut c = Collection::new(String::from("todos"));
    let r = c.insert_many(&vec![doc(1, "a"), doc(1, "again")]);
    assert_eq!(r, Err(Error::DatabaseError));
    assert_eq!(c.find(&Filter::All), vec![doc(1, "a")]);
}

#[test]
fn update_many_sets_fields_on_matches_only() {
    let mut c = Collection::new(String::from("todos"));
    c.save(&doc(1, "a"));
    c.save(&doc(2, "b"));
    let patch = Patch::new(vec![Field::new(
        String::from("title"),
        Value::Text(String::from("done")),
    )]);
    let summary = c.update_many(&Filter::IdEq(2), &patch);
    assert_eq!(summary.matched_count, 1);
    assert_eq!(summary.modified_count, 1);
    assert_eq!(summary.upserted_id, None);
    assert_eq!(c.find_by_id(1), Some(doc(1, "a")));
    assert_eq!(c.find_by_id(2), Some(doc(2, "done")));
}

#[test]
fn update_many_adds_absent_field_and_keeps_others() {
    let mut c = Collection::new(String::from("todos"));
    c.save(&doc(1, "a"));
    let patch = Patch::new(vec![Field::new(String::from("done"), Value::Bool(true))]);
    c.update_many(&Filter::All, &patch);
    let expected = Document::new(
        1,
        vec![
            Field::new(String::from("title"), Value::Text(String::from("a"))),
            Field::new(String::from("done"), Value::Bool(true)),
        ],
    );
    assert_eq!(c.find_by_id(1), Some(expected));
}

#[test]
fn delete_many_deletes_matches_and_reports_count() {
    let mut c = Collection::new(String::from("todos"));
    c.save(&doc(1, "a"));
    c.save(&doc(2, "b"));
    c.save(&doc(3, "c"));
    let summary = c.delete_many(&Filter::IdEq(2));
    assert_eq!(summary.deleted_count, 1);
    assert_eq!(c.find(&Filter::All), vec![doc(1, "a"), doc(3, "c")]);
    let summary = c.delete_many(&Filter::All);
    assert_eq!(summary.deleted_count, 2);
    assert_eq!(c.estimated_document_count(), 0);
}

#[test]
fn remove_deletes_record_by_its_own_identity() {
    let mut c = Collection::new(String::from("todos"));
    let d = doc(5, "a");
    c.save(&d);
    c.save(&doc(6, "b"));
    let summary = c.remove(&d);
    assert_eq!(summary.deleted_count, 1);
    assert_eq!(c.find(&Filter::All), vec![doc(6, "b")]);
    let summary = c.remove(&d);
    assert_eq!(summary.deleted_count, 0);
}

#[test]
fn document_id_query_is_identity_filter() {
    let d = doc(42, "x");
    assert_eq!(d.id(), 42);
    assert_eq!(d.id_query(), Filter::IdEq(42));
}

#[test]
fn document_get_and_set_field() {
    let mut d = doc(1, "a");
    assert_eq!(
        d.get(&String::from("title")),
        Some(&Value::Text(String::from("a")))
    );
    assert_eq!(d.get(&String::from("missing")), None);
    d.set_field(&String::from("title"), &Value::Text(String::from("b")));
    assert_eq!(
        d.get(&String::from("title")),
        Some(&Value::Text(String::from("b")))
    );
    d.set_field(&String::from("count"), &Value::Int(3));
    assert_eq!(d.get(&String::from("count")), Some(&Value::Int(3)));
}
