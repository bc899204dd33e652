//! The relation subsystem: getters that fetch referenced records in
//! stored order and fail fast on the first missing reference, and
//! existence checks that validate without materializing.

use bongo::{
    check_many_sync, check_one_sync, check_relations_sync, get_many_sync, get_one_sync,
    BlockingModel, Document, Error, Field, Registry, RelationValue, Value,
};

fn user(id: u64, name: &str) -> Document {
    Document::new(
        id,
        vec![Field::new(String::from("name"), Value::Text(String::from(name)))],
    )
}

fn connected_users() -> (Registry, BlockingModel) {
    let mut registry = Registry::new();
    registry.connect("mongodb://localhost:27017", "app").unwrap();
    let mut users = BlockingModel::new(String::from("users"));
    users.save_sync(&registry, &user(1, "ada")).unwrap();
    users.save_sync(&registry, &user(2, "grace")).unwrap();
    users.save_sync(&registry, &user(3, "edsger")).unwrap();
    (registry, users)
}

#[test]
fn has_one_getter_returns_referenced_record() {
    let (registry, mut users) = connected_users();
    assert_eq!(get_one_sync(&mut users, &registry, 2), Ok(user(2, "grace")));
}

#[test]
fn has_one_getter_fails_naming_missing_identity() {
    let (registry, mut users) = connected_users();
    assert_eq!(
        get_one_sync(&mut users, &registry, 9),
        Err(Error::RelationError(9))
    );
}

#[test]
fn has_many_getter_returns_records_in_stored_list_order() {
    let (registry, mut users) = connected_users();
    let r = get_many_sync(&mut users, &registry, &vec![3, 1, 2]);
    assert_eq!(
        r,
        Ok(vec![user(3, "edsger"), user(1, "ada"), user(2, "grace")])
    );
}

#[test]
fn has_many_getter_short_circuits_on_first_missing_reference() {
    let (registry, mut users) = connected_users();
    users.remove_sync(&registry, &user(2, "grace")).unwrap();
    // With the list [1, 2, 3] and 2 missing, the failure names 2; no
    // partial list is returned.
    let r = get_many_sync(&mut users, &registry, &vec![1, 2, 3]);
    assert_eq!(r, Err(Error::RelationError(2)));
}

#[test]
fn has_many_getter_empty_list_succeeds() {
    let (registry, mut users) = connected_users();
    assert_eq!(get_many_sync(&mut users, &registry, &vec![]), Ok(vec![]));
}

#[test]
fn check_one_validates_existence_only() {
    let (registry, mut users) = connected_users();
    assert_eq!(check_one_sync(&mut users, &registry, 1), Ok(()));
    assert_eq!(
        check_one_sync(&mut users, &registry, 9),
        Err(Error::RelationError(9))
    );
}

#[test]
fn check_many_aborts_at_first_failing_identity() {
    let (registry, mut users) = connected_users();
    assert_eq!(check_many_sync(&mut users, &registry, &vec![1, 2, 3]), Ok(()));
    assert_eq!(
        check_many_sync(&mut users, &registry, &vec![1, 9, 8]),
        Err(Error::RelationError(9))
    );
}

#[test]
fn check_relations_runs_every_field_check_in_order() {
    let (registry, mut users) = connected_users();
    let values = vec![
        RelationValue::One(1),
        RelationValue::Many(vec![2, 3]),
    ];
    assert_eq!(check_relations_sync(&mut users, &registry, &values), Ok(()));
    let values = vec![
        RelationValue::One(1),
        RelationValue::Many(vec![2, 9]),
        RelationValue::One(8),
    ];
    assert_eq!(
        check_relations_sync(&mut users, &registry, &values),
        Err(Error::RelationError(9))
    );
}

#[test]
fn relation_calls_before_connect_fail_with_not_connected() {
    let registry = Registry::new();
    let mut users = BlockingModel::new(String::from("users"));
    assert_eq!(
        get_one_sync(&mut users, &registry, 1),
        Err(Error::NotConnected)
    );
    assert_eq!(
        check_many_sync(&mut users, &registry, &vec![1]),
        Err(Error::NotConnected)
    );
}
