//! The connection guard: one-time initialization, `NotConnected` before
//! `connect`, `AlreadyConnected` on a second attempt, and the set-once
//! collection slot, together with the dispatch outcome of the
//! non-blocking surface.

use bongo::{dispatch_outcome, BlockingModel, Document, Error, Field, Filter, Registry, Value};

fn doc(id: u64) -> Document {
    Document::new(id, vec![Field::new(String::from("n"), Value::Int(1))])
}

#[test]
fn crud_before_connect_fails_with_not_connected() {
    let registry = Registry::new();
    let mut todos = BlockingModel::new(String::from("todos"));
    assert_eq!(
        todos.save_sync(&registry, &doc(1)),
        Err(Error::NotConnected)
    );
    assert_eq!(
        todos.find_by_id_sync(&registry, 1),
        Err(Error::NotConnected)
    );
    assert_eq!(
        todos.estimated_document_count_sync(&registry),
        Err(Error::NotConnected)
    );
    assert_eq!(
        todos.delete_many_sync(&registry, &Filter::All),
        Err(Error::NotConnected)
    );
}

#[test]
fn accessors_before_connect_fail_with_not_connected() {
    let registry = Registry::new();
    assert!(matches!(registry.client(), Err(Error::NotConnected)));
    assert!(matches!(registry.database(), Err(Error::NotConnected)));
}

#[test]
fn second_connect_fails_and_keeps_first_connection() {
    let mut registry = Registry::new();
    assert_eq!(
        registry.connect("mongodb://localhost:27017", "app"),
        Ok(())
    );
    assert_eq!(
        registry.connect("mongodb://elsewhere:27017", "other"),
        Err(Error::AlreadyConnected)
    );
    let conn = registry.client().unwrap();
    assert_eq!(conn.uri, "mongodb://localhost:27017");
    assert_eq!(conn.database_name, "app");
    assert_eq!(registry.database().unwrap(), "app");
}

#[test]
fn operations_succeed_after_connect() {
    let mut registry = Registry::new();
    registry.connect("mongodb://localhost:27017", "app").unwrap();
    let mut todos = BlockingModel::new(String::from("todos"));
    todos.save_sync(&registry, &doc(1)).unwrap();
    assert_eq!(todos.find_by_id_sync(&registry, 1), Ok(Some(doc(1))));
    assert_eq!(todos.estimated_document_count_sync(&registry), Ok(1));
}

#[test]
fn retry_after_connect_succeeds_on_same_slot() {
    let mut registry = Registry::new();
    let mut todos = BlockingModel::new(String::from("todos"));
    assert_eq!(
        todos.save_sync(&registry, &doc(1)),
        Err(Error::NotConnected)
    );
    registry.connect("mongodb://localhost:27017", "app").unwrap();
    assert_eq!(todos.save_sync(&registry, &doc(1)).is_ok(), true);
    assert_eq!(todos.find_by_id_sync(&registry, 1), Ok(Some(doc(1))));
}

#[test]
fn cached_slot_serves_reads_without_consulting_registry() {
    let mut registry = Registry::new();
    registry.connect("mongodb://localhost:27017", "app").unwrap();
    let mut todos = BlockingModel::new(String::from("todos"));
    todos.save_sync(&registry, &doc(1)).unwrap();
    // A fresh, unconnected registry: the cached handle still answers.
    let fresh = Registry::new();
    assert_eq!(todos.find_by_id_sync(&fresh, 1), Ok(Some(doc(1))));
}

#[test]
fn collection_resolves_handle_named_after_type() {
    let mut registry = Registry::new();
    registry.connect("mongodb://localhost:27017", "app").unwrap();
    let mut todos = BlockingModel::new(String::from("todos"));
    let handle = todos.collection(&registry).unwrap();
    assert_eq!(handle.name, "todos");
}

#[test]
fn dispatch_outcome_distinguishes_join_failure() {
    assert_eq!(dispatch_outcome(Some(Ok(3u64))), Ok(3u64));
    assert_eq!(
        dispatch_outcome::<u64>(Some(Err(Error::DatabaseError))),
        Err(Error::DatabaseError)
    );
    assert_eq!(dispatch_outcome::<u64>(None), Err(Error::DispatchError));
}

#[test]
fn model_sync_operations_mirror_collection_semantics() {
    let mut registry = Registry::new();
    registry.connect("mongodb://localhost:27017", "app").unwrap();
    let mut todos = BlockingModel::new(String::from("todos"));
    todos
        .insert_many_sync(&registry, &vec![doc(1), doc(2)])
        .unwrap();
    assert_eq!(todos.count_documents_sync(&registry, &Filter::All), Ok(2));
    let r = todos.insert_many_sync(&registry, &vec![doc(2)]);
    assert_eq!(r, Err(Error::DatabaseError));
    todos.remove_sync(&registry, &doc(1)).unwrap();
    assert_eq!(todos.count_documents_sync(&registry, &Filter::All), Ok(1));
    let found = todos.find_sync(&registry, &Filter::All).unwrap();
    assert_eq!(found, vec![doc(2)]);
}
