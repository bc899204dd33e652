//! An object-document mapping core: collection naming and identity detection
//! for model types, an identity-keyed document store with CRUD operations,
//! a connection registry with one-time initialization, and a relation
//! subsystem that fetches and validates references between model types.

pub mod collection;
pub mod document;
pub mod error;
pub mod generator;
pub mod model;
pub mod registry;
pub mod relation;

pub use collection::{Collection, DeleteSummary, InsertSummary, UpdateSummary};
pub use document::{DocView, Document, Field, FieldView, Filter, Patch, Value, ValueView};
pub use error::Error;
pub use generator::{
    blocking_model, camel_case, collection_name, id_field, model, relation_info, relations,
    DataShape, DefinitionError, DeriveInput, FieldAttr, FieldDef, ModelDef, ModelDefView,
    RelationArg, RelationDef, RelationDefView, RelationKind, TypeAttr,
};
pub use model::{dispatch_outcome, BlockingModel};
pub use registry::{Connection, Registry};
pub use relation::{
    check_many_sync, check_one_sync, check_relations_sync, get_many_sync, get_one_sync,
    RelationValue,
};
