//! The code-generation decisions: collection naming, identity detection,
//! and relation wiring.

use bongo::{
    blocking_model, camel_case, collection_name, id_field, model, relation_info, relations,
    DataShape, DefinitionError, DeriveInput, FieldAttr, FieldDef, RelationArg, RelationKind,
    TypeAttr,
};

fn named_input(ident: &str, attrs: Vec<TypeAttr>, fields: Vec<FieldDef>) -> DeriveInput {
    DeriveInput { ident: String::from(ident), attrs, data: DataShape::NamedFields(fields) }
}

fn id_field_def() -> FieldDef {
    FieldDef { name: String::from("_id"), attrs: vec![] }
}

#[test]
fn default_collection_name_user() {
    assert_eq!(camel_case("User"), "users");
}

#[test]
fn default_collection_name_todo() {
    assert_eq!(camel_case("Todo"), "todos");
}

#[test]
fn default_collection_name_lowercase_start() {
    assert_eq!(camel_case("item"), "items");
}

#[test]
fn default_collection_name_keeps_non_ascii_tail() {
    assert_eq!(camel_case("Aéro"), "aéros");
}

#[test]
fn collection_name_defaults_to_camel_cased_ident() {
    let input = named_input("User", vec![], vec![id_field_def()]);
    assert_eq!(collection_name(&input), Ok(String::from("users")));
}

#[test]
fn collection_name_override_wins() {
    let input = named_input(
        "User",
        vec![TypeAttr::CollectionName(String::from("people"))],
        vec![id_field_def()],
    );
    assert_eq!(collection_name(&input), Ok(String::from("people")));
}

#[test]
fn collection_name_last_override_wins() {
    let input = named_input(
        "User",
        vec![
            TypeAttr::CollectionName(String::from("people")),
            TypeAttr::Other,
            TypeAttr::CollectionName(String::from("folks")),
        ],
        vec![id_field_def()],
    );
    assert_eq!(collection_name(&input), Ok(String::from("folks")));
}

#[test]
fn collection_name_non_string_is_definition_error() {
    let input = named_input(
        "User",
        vec![TypeAttr::CollectionNotString],
        vec![id_field_def()],
    );
    assert_eq!(
        collection_name(&input),
        Err(DefinitionError::CollectionNameNotString)
    );
}

#[test]
fn id_field_literal_name_is_selected() {
    let fields = vec![
        FieldDef { name: String::from("title"), attrs: vec![] },
        FieldDef { name: String::from("_id"), attrs: vec![] },
    ];
    assert_eq!(id_field(&fields), Ok(1));
}

#[test]
fn id_field_serde_rename_is_selected() {
    let fields = vec![
        FieldDef { name: String::from("title"), attrs: vec![] },
        FieldDef {
            name: String::from("key"),
            attrs: vec![FieldAttr::SerdeRename(String::from("_id"))],
        },
    ];
    assert_eq!(id_field(&fields), Ok(1));
}

#[test]
fn id_field_other_rename_is_not_selected() {
    let fields = vec![FieldDef {
        name: String::from("key"),
        attrs: vec![FieldAttr::SerdeRename(String::from("ident"))],
    }];
    assert_eq!(id_field(&fields), Err(DefinitionError::NoIdField));
}

#[test]
fn id_field_missing_is_definition_error() {
    let fields = vec![FieldDef { name: String::from("title"), attrs: vec![] }];
    assert_eq!(id_field(&fields), Err(DefinitionError::NoIdField));
}

#[test]
fn id_field_literal_name_beats_earlier_rename() {
    let fields = vec![
        FieldDef {
            name: String::from("key"),
            attrs: vec![FieldAttr::SerdeRename(String::from("_id"))],
        },
        FieldDef { name: String::from("_id"), attrs: vec![] },
    ];
    assert_eq!(id_field(&fields), Ok(1));
}

#[test]
fn id_field_first_renamed_wins_absent_literal() {
    let fields = vec![
        FieldDef { name: String::from("title"), attrs: vec![] },
        FieldDef {
            name: String::from("key"),
            attrs: vec![FieldAttr::SerdeRename(String::from("_id"))],
        },
        FieldDef {
            name: String::from("other"),
            attrs: vec![FieldAttr::SerdeRename(String::from("_id"))],
        },
    ];
    assert_eq!(id_field(&fields), Ok(1));
}

#[test]
fn relation_info_default_getter_names() {
    let args = vec![RelationArg::Target(String::from("User"))];
    let rd = relation_info(&args, &String::from("author"), RelationKind::One).unwrap();
    assert_eq!(rd.target, "User");
    assert_eq!(rd.sync_getter, "author_sync");
    assert_eq!(rd.async_getter, "author");
    assert_eq!(rd.kind, RelationKind::One);
}

#[test]
fn relation_info_custom_getter_names() {
    let args = vec![
        RelationArg::Target(String::from("User")),
        RelationArg::Name(String::from("writer_blocking")),
        RelationArg::Name(String::from("writer")),
    ];
    let rd = relation_info(&args, &String::from("author"), RelationKind::Many).unwrap();
    assert_eq!(rd.sync_getter, "writer_blocking");
    assert_eq!(rd.async_getter, "writer");
    assert_eq!(rd.kind, RelationKind::Many);
}

#[test]
fn relation_info_missing_target_is_definition_error() {
    let args: Vec<RelationArg> = vec![];
    assert_eq!(
        relation_info(&args, &String::from("author"), RelationKind::One),
        Err(DefinitionError::RelationTargetMissing)
    );
    let args = vec![RelationArg::Name(String::from("User"))];
    assert_eq!(
        relation_info(&args, &String::from("author"), RelationKind::One),
        Err(DefinitionError::RelationTargetMissing)
    );
}

#[test]
fn relation_info_non_string_name_is_definition_error() {
    let args = vec![
        RelationArg::Target(String::from("User")),
        RelationArg::Other,
    ];
    assert_eq!(
        relation_info(&args, &String::from("author"), RelationKind::One),
        Err(DefinitionError::RelationNameNotString)
    );
}

#[test]
fn relations_collects_in_declaration_order() {
    let fields = vec![
        FieldDef { name: String::from("_id"), attrs: vec![] },
        FieldDef {
            name: String::from("author"),
            attrs: vec![FieldAttr::HasOne(vec![RelationArg::Target(String::from("User"))])],
        },
        FieldDef {
            name: String::from("tags"),
            attrs: vec![FieldAttr::HasMany(vec![RelationArg::Target(String::from("Tag"))])],
        },
    ];
    let rels = relations(&fields).unwrap();
    assert_eq!(rels.len(), 2);
    assert_eq!(rels[0].field, "author");
    assert_eq!(rels[0].kind, RelationKind::One);
    assert_eq!(rels[0].target, "User");
    assert_eq!(rels[1].field, "tags");
    assert_eq!(rels[1].kind, RelationKind::Many);
    assert_eq!(rels[1].target, "Tag");
}

#[test]
fn model_resolves_full_definition() {
    let input = named_input(
        "Todo",
        vec![],
        vec![
            FieldDef { name: String::from("_id"), attrs: vec![] },
            FieldDef {
                name: String::from("author"),
                attrs: vec![FieldAttr::HasOne(vec![RelationArg::Target(String::from("User"))])],
            },
        ],
    );
    let md = model(&input).unwrap();
    assert_eq!(md.collection, "todos");
    assert_eq!(md.id_index, 0);
    assert_eq!(md.relations.len(), 1);
    assert!(md.async_surface);
}

#[test]
fn blocking_model_resolves_blocking_surface_only() {
    let input = named_input("Todo", vec![], vec![id_field_def()]);
    let md = blocking_model(&input).unwrap();
    assert_eq!(md.collection, "todos");
    assert!(!md.async_surface);
}

#[test]
fn model_rejects_non_struct_definitions() {
    let input = DeriveInput {
        ident: String::from("Choice"),
        attrs: vec![],
        data: DataShape::NotAStruct,
    };
    assert_eq!(model(&input), Err(DefinitionError::NotAStruct));
    let input = DeriveInput {
        ident: String::from("Pair"),
        attrs: vec![],
        data: DataShape::UnnamedFields,
    };
    assert_eq!(model(&input), Err(DefinitionError::UnnamedFields));
}

#[test]
fn model_without_identity_fails_at_definition_time() {
    let input = named_input(
        "Todo",
        vec![],
        vec![FieldDef { name: String::from("title"), attrs: vec![] }],
    );
    assert_eq!(model(&input), Err(DefinitionError::NoIdField));
}
