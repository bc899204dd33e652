//! The code-generation semantics: what the derive step decides for a model
//! type from the shape of its definition and its declarative annotations.
//! Given a definition — type name, type-level annotations, named fields
//! with their annotations — it resolves the collection name, detects the
//! identity field, and collects the declared relations. Its failures are
//! definition errors, raised once per type at build time, never at
//! request time.

use vstd::prelude::*;

verus! {

/// A failure of the code generator: the model definition itself is
/// malformed. These are deliberately fatal at build time.
#[derive(Clone, Copy, Debug, PartialEq, Eq, Structural)]
pub enum DefinitionError {
    /// The annotated item is not a struct.
    NotAStruct,
    /// The annotated struct does not have named fields.
    UnnamedFields,
    /// No field is named `_id` and none is renamed to `_id`.
    NoIdField,
    /// The collection annotation's value is not a string literal.
    CollectionNameNotString,
    /// The first argument of a relation annotation is not the target type.
    RelationTargetMissing,
    /// A getter-name argument of a relation annotation is not a string
    /// literal.
    RelationNameNotString,
}

/// The cardinality of a declared relation.
#[derive(Clone, Copy, Debug, PartialEq, Eq, Structural)]
pub enum RelationKind {
    One,
    Many,
}

/// One argument of a relation annotation: a path (the target model type),
/// a string literal (a getter name), or anything else.
#[derive(Debug, PartialEq, Eq)]
pub enum RelationArg {
    Target(String),
    Name(String),
    Other,
}

/// One parsed annotation on a field.
#[derive(Debug, PartialEq, Eq)]
pub enum FieldAttr {
    /// The serialization collaborator's rename annotation.
    SerdeRename(String),
    /// A declared single reference to another model type.
    HasOne(Vec<RelationArg>),
    /// A declared list reference to another model type.
    HasMany(Vec<RelationArg>),
    /// Any other annotation: ignored.
    Other,
}

/// One named field of the annotated struct.
#[derive(Debug, PartialEq, Eq)]
pub struct FieldDef {
    pub name: String,
    pub attrs: Vec<FieldAttr>,
}

/// One parsed type-level annotation.
#[derive(Debug, PartialEq, Eq)]
pub enum TypeAttr {
    /// A `collection = "<name>"` override.
    CollectionName(String),
    /// A collection override whose value is not a string literal.
    CollectionNotString,
    /// Any other annotation: ignored.
    Other,
}

/// The shape of the annotated item's data.
#[derive(Debug, PartialEq, Eq)]
pub enum DataShape {
    NamedFields(Vec<FieldDef>),
    UnnamedFields,
    NotAStruct,
}

/// A model type's definition as the generator sees it.
#[derive(Debug, PartialEq, Eq)]
pub struct DeriveInput {
    /// The type's name.
    pub ident: String,
    pub attrs: Vec<TypeAttr>,
    pub data: DataShape,
}

/// One declared relation, fully resolved: the field it sits on, its
/// cardinality, the target model type, and the two getter names.
#[derive(Debug, PartialEq, Eq)]
pub struct RelationDef {
    pub field: String,
    pub kind: RelationKind,
    pub target: String,
    pub sync_getter: String,
    pub async_getter: String,
}

/// The mathematical value of a [`RelationDef`].
#[verifier::ext_equal]
pub ghost struct RelationDefView {
    pub field: Seq<char>,
    pub kind: RelationKind,
    pub target: Seq<char>,
    pub sync_getter: Seq<char>,
    pub async_getter: Seq<char>,
}

impl View for RelationDef {
    type V = RelationDefView;

    open spec fn view(&self) -> RelationDefView {
        RelationDefView {
            field: self.field@,
            kind: self.kind,
            target: self.target@,
            sync_getter: self.sync_getter@,
            async_getter: self.async_getter@,
        }
    }
}

/// The mathematical value of a relation list.
pub open spec fn spec_rel_defs_view(defs: Seq<RelationDef>) -> Seq<RelationDefView> {
    Seq::new(defs.len(), |i: int| defs[i]@)
}

/// Everything the generator emits for one model type.
#[derive(Debug, PartialEq, Eq)]
pub struct ModelDef {
    /// The resolved collection name.
    pub collection: String,
    /// The position of the identity field in the field list.
    pub id_index: usize,
    /// Every declared relation, in declaration order.
    pub relations: Vec<RelationDef>,
    /// Whether the non-blocking surface is generated as well.
    pub async_surface: bool,
}

/// The mathematical value of a [`ModelDef`].
#[verifier::ext_equal]
pub ghost struct ModelDefView {
    pub collection: Seq<char>,
    pub id_index: int,
    pub relations: Seq<RelationDefView>,
    pub async_surface: bool,
}

impl View for ModelDef {
    type V = ModelDefView;

    open spec fn view(&self) -> ModelDefView {
        ModelDefView {
            collection: self.collection@,
            id_index: self.id_index as int,
            relations: spec_rel_defs_view(self.relations@),
            async_surface: self.async_surface,
        }
    }
}

/// An upper-case ASCII letter lowered; every other character unchanged.
pub open spec fn spec_lower(c: char) -> char {
    if 65 <= c as int && c as int <= 90 {
        (((c as int) + 32) as u8) as char
    } else {
        c
    }
}

/// The default collection name: the type name with its first character
/// lower-cased and a pluralizing `s` appended.
pub open spec fn spec_camel_case(s: Seq<char>) -> Seq<char> {
    seq![spec_lower(s[0])] + s.skip(1) + seq!['s']
}

/// Relies on char::to_string of std: the returned string holds exactly the
/// one character the byte codes for.
#[verifier::external_body]
fn byte_to_string(b: u8) -> (r: String)
    ensures
        r@ == seq![b as char],
{
    (b as char).to_string()
}

/// The default collection name for a type name: first character
/// lower-cased, pluralizing `s` appended (`User` becomes `users`). The
/// name must be non-empty and start with an ASCII character; the rest may
/// be anything and is kept unchanged.
pub fn camel_case(s: &str) -> (r: String)
    requires
        s@.len() > 0,
        (s@[0] as int) < 128,
    ensures
        r@ == spec_camel_case(s@),
{
    let c = s.get_char(0);
    let code = c as u32;
    let lowered: u8 = if 65 <= code && code <= 90 {
        (code + 32) as u8
    } else {
        code as u8
    };
    let mut r = byte_to_string(lowered);
    let rest = s.substring_char(1, s.unicode_len());
    r.append(rest);
    r.append("s");
    proof {
        reveal_strlit("s");
        assert(lowered as char == spec_lower(s@[0]));
        assert(r@ =~= spec_camel_case(s@));
    }
    r
}

/// The last collection override among the type-level annotations, if any.
pub open spec fn spec_last_collection(attrs: Seq<TypeAttr>) -> Option<Seq<char>>
    decreases attrs.len(),
{
    if attrs.len() == 0 {
        None
    } else {
        match attrs.last() {
            TypeAttr::CollectionName(n) => Some(n@),
            _ => spec_last_collection(attrs.drop_last()),
        }
    }
}

/// Whether some collection override carries a non-string value.
pub open spec fn spec_has_bad_collection(attrs: Seq<TypeAttr>) -> bool {
    exists|k: int| 0 <= k < attrs.len() && attrs[k] is CollectionNotString
}

/// The collection name a definition resolves to: the last override wins,
/// the camel-cased type name is the default, and a non-string override
/// anywhere is a definition error.
pub open spec fn spec_collection_name(attrs: Seq<TypeAttr>, ident: Seq<char>) -> Result<
    Seq<char>,
    DefinitionError,
> {
    if spec_has_bad_collection(attrs) {
        Err(DefinitionError::CollectionNameNotString)
    } else {
        match spec_last_collection(attrs) {
            Some(n) => Ok(n),
            None => Ok(spec_camel_case(ident)),
        }
    }
}

/// Resolves the collection name of a definition.
pub fn collection_name(input: &DeriveInput) -> (r: Result<String, DefinitionError>)
    requires
        input.ident@.len() > 0,
        (input.ident@[0] as int) < 128,
    ensures
        match r {
            Ok(n) => spec_collection_name(input.attrs@, input.ident@) == Ok::<
                Seq<char>,
                DefinitionError,
            >(n@),
            Err(e) => spec_collection_name(input.attrs@, input.ident@) == Err::<
                Seq<char>,
                DefinitionError,
            >(e),
        },
{
    let ghost attrs = input.attrs@;
    let mut result: Option<String> = None;
    let mut i: usize = 0;
    while i < input.attrs.len()
        invariant
            i <= attrs.len(),
            attrs == input.attrs@,
            forall|j: int| 0 <= j < i ==> !((#[trigger] attrs[j]) is CollectionNotString),
            match result {
                Some(n) => spec_last_collection(attrs.take(i as int)) == Some(n@),
                None => spec_last_collection(attrs.take(i as int)) is None,
            },
        decreases input.attrs.len() - i,
    {
        proof {
            assert(attrs.take(i as int + 1).drop_last() =~= attrs.take(i as int));
            assert(attrs.take(i as int + 1).last() == attrs[i as int]);
        }
        match &input.attrs[i] {
            TypeAttr::CollectionName(n) => {
                result = Some(n.clone());
            },
            TypeAttr::CollectionNotString => {
                proof {
                    assert(attrs[i as int] is CollectionNotString);
                }
                return Err(DefinitionError::CollectionNameNotString);
            },
            TypeAttr::Other => {},
        }
        i = i + 1;
    }
    proof {
        assert(attrs.take(attrs.len() as int) =~= attrs);
    }
    match result {
        Some(n) => Ok(n),
        None => Ok(camel_case(input.ident.as_str())),
    }
}

/// Whether a field is literally named `_id`.
pub open spec fn spec_is_named_id(f: FieldDef) -> bool {
    f.name@ == "_id"@
}

/// Whether a field is renamed to `_id` by a serialization annotation.
pub open spec fn spec_is_renamed_id(f: FieldDef) -> bool {
    exists|k: int|
        0 <= k < f.attrs@.len() && ((#[trigger] f.attrs@[k]) matches FieldAttr::SerdeRename(n)
            && n@ == "_id"@)
}

/// The position of the first field literally named `_id`, or `-1`.
pub open spec fn spec_named_id_index(fields: Seq<FieldDef>) -> int
    decreases fields.len(),
{
    if fields.len() == 0 {
        -1
    } else if spec_is_named_id(fields[0]) {
        0
    } else {
        let r = spec_named_id_index(fields.skip(1));
        if r == -1 {
            -1
        } else {
            r + 1
        }
    }
}

/// The position of the first field renamed to `_id`, or `-1`.
pub open spec fn spec_renamed_id_index(fields: Seq<FieldDef>) -> int
    decreases fields.len(),
{
    if fields.len() == 0 {
        -1
    } else if spec_is_renamed_id(fields[0]) {
        0
    } else {
        let r = spec_renamed_id_index(fields.skip(1));
        if r == -1 {
            -1
        } else {
            r + 1
        }
    }
}

/// The position of the identity field: a field literally named `_id` takes
/// priority wherever it stands; only absent such a field does the first
/// field renamed to `_id` count. `-1` if neither exists.
pub open spec fn spec_id_index(fields: Seq<FieldDef>) -> int {
    if spec_named_id_index(fields) != -1 {
        spec_named_id_index(fields)
    } else {
        spec_renamed_id_index(fields)
    }
}

/// The identity field a definition resolves to: the field literally named
/// `_id`; absent that, the first field renamed to `_id`; absent both, a
/// definition error.
pub open spec fn spec_id_field(fields: Seq<FieldDef>) -> Result<int, DefinitionError> {
    if spec_id_index(fields) == -1 {
        Err(DefinitionError::NoIdField)
    } else {
        Ok(spec_id_index(fields))
    }
}

/// Characterizes `spec_named_id_index`: `-1` with no literally named
/// field, or the first position of one.
proof fn lemma_named_id_index_spec(fields: Seq<FieldDef>)
    ensures
        spec_named_id_index(fields) == -1 ==> forall|j: int|
            0 <= j < fields.len() ==> !spec_is_named_id(#[trigger] fields[j]),
        spec_named_id_index(fields) != -1 ==> {
            let i = spec_named_id_index(fields);
            &&& 0 <= i < fields.len()
            &&& spec_is_named_id(fields[i])
            &&& forall|j: int| 0 <= j < i ==> !spec_is_named_id(#[trigger] fields[j])
        },
    decreases fields.len(),
{
    if fields.len() > 0 && !spec_is_named_id(fields[0]) {
        lemma_named_id_index_spec(fields.skip(1));
        let r = spec_named_id_index(fields.skip(1));
        if r == -1 {
            assert forall|j: int|
                0 <= j < fields.len() implies !spec_is_named_id(#[trigger] fields[j]) by {
                if j > 0 {
                    assert(fields.skip(1)[j - 1] == fields[j]);
                }
            }
        } else {
            assert(fields.skip(1)[r] == fields[r + 1]);
            assert forall|j: int|
                0 <= j < r + 1 implies !spec_is_named_id(#[trigger] fields[j]) by {
                if j > 0 {
                    assert(fields.skip(1)[j - 1] == fields[j]);
                }
            }
        }
    }
}

/// Characterizes `spec_renamed_id_index` the same way.
proof fn lemma_renamed_id_index_spec(fields: Seq<FieldDef>)
    ensures
        spec_renamed_id_index(fields) == -1 ==> forall|j: int|
            0 <= j < fields.len() ==> !spec_is_renamed_id(#[trigger] fields[j]),
        spec_renamed_id_index(fields) != -1 ==> {
            let i = spec_renamed_id_index(fields);
            &&& 0 <= i < fields.len()
            &&& spec_is_renamed_id(fields[i])
            &&& forall|j: int| 0 <= j < i ==> !spec_is_renamed_id(#[trigger] fields[j])
        },
    decreases fields.len(),
{
    if fields.len() > 0 && !spec_is_renamed_id(fields[0]) {
        lemma_renamed_id_index_spec(fields.skip(1));
        let r = spec_renamed_id_index(fields.skip(1));
        if r == -1 {
            assert forall|j: int|
                0 <= j < fields.len() implies !spec_is_renamed_id(#[trigger] fields[j]) by {
                if j > 0 {
                    assert(fields.skip(1)[j - 1] == fields[j]);
                }
            }
        } else {
            assert(fields.skip(1)[r] == fields[r + 1]);
            assert forall|j: int|
                0 <= j < r + 1 implies !spec_is_renamed_id(#[trigger] fields[j]) by {
                if j > 0 {
                    assert(fields.skip(1)[j - 1] == fields[j]);
                }
            }
        }
    }
}

/// If every field before position `i` carries another name and the one at
/// `i` is literally `_id`, the first literally named position is `i`.
proof fn lemma_named_id_found(fields: Seq<FieldDef>, i: int)
    requires
        0 <= i < fields.len(),
        spec_is_named_id(fields[i]),
        forall|j: int| 0 <= j < i ==> !spec_is_named_id(#[trigger] fields[j]),
    ensures
        spec_named_id_index(fields) == i,
    decreases fields.len(),
{
    if i > 0 {
        lemma_named_id_found(fields.skip(1), i - 1);
    }
}

/// If no earlier field is renamed to `_id` and the one at `i` is, the
/// first renamed position is `i`.
proof fn lemma_renamed_id_found(fields: Seq<FieldDef>, i: int)
    requires
        0 <= i < fields.len(),
        spec_is_renamed_id(fields[i]),
        forall|j: int| 0 <= j < i ==> !spec_is_renamed_id(#[trigger] fields[j]),
    ensures
        spec_renamed_id_index(fields) == i,
    decreases fields.len(),
{
    if i > 0 {
        lemma_renamed_id_found(fields.skip(1), i - 1);
    }
}

proof fn lemma_named_id_missing(fields: Seq<FieldDef>)
    requires
        forall|j: int| 0 <= j < fields.len() ==> !spec_is_named_id(#[trigger] fields[j]),
    ensures
        spec_named_id_index(fields) == -1,
    decreases fields.len(),
{
    if fields.len() > 0 {
        lemma_named_id_missing(fields.skip(1));
    }
}

proof fn lemma_renamed_id_missing(fields: Seq<FieldDef>)
    requires
        forall|j: int| 0 <= j < fields.len() ==> !spec_is_renamed_id(#[trigger] fields[j]),
    ensures
        spec_renamed_id_index(fields) == -1,
    decreases fields.len(),
{
    if fields.len() > 0 {
        lemma_renamed_id_missing(fields.skip(1));
    }
}

/// Identity detection: when some field is literally named `_id`, the first
/// such field is selected, whatever renamed fields stand before it; absent
/// that, the first field renamed to `_id` is selected; absent both, the
/// definition is rejected at build time.
pub proof fn lemma_identity_detection(fields: Seq<FieldDef>)
    ensures
        (exists|i: int| 0 <= i < fields.len() && spec_is_named_id(#[trigger] fields[i])) ==> {
            let i = spec_id_index(fields);
            &&& 0 <= i < fields.len()
            &&& spec_is_named_id(fields[i])
            &&& forall|j: int| 0 <= j < i ==> !spec_is_named_id(#[trigger] fields[j])
        },
        (forall|i: int| 0 <= i < fields.len() ==> !spec_is_named_id(#[trigger] fields[i]))
            && (exists|i: int|
            0 <= i < fields.len() && spec_is_renamed_id(#[trigger] fields[i])) ==> {
            let i = spec_id_index(fields);
            &&& 0 <= i < fields.len()
            &&& spec_is_renamed_id(fields[i])
            &&& forall|j: int| 0 <= j < i ==> !spec_is_renamed_id(#[trigger] fields[j])
        },
        (forall|i: int|
            0 <= i < fields.len() ==> !spec_is_named_id(#[trigger] fields[i])
                && !spec_is_renamed_id(fields[i])) ==> spec_id_field(fields) == Err::<
            int,
            DefinitionError,
        >(DefinitionError::NoIdField),
{
    lemma_named_id_index_spec(fields);
    lemma_renamed_id_index_spec(fields);
}

/// Whether this field carries a serialization annotation renaming it to
/// `_id`.
fn field_is_renamed_id(f: &FieldDef, id_name: &String) -> (r: bool)
    requires
        id_name@ == "_id"@,
    ensures
        r == spec_is_renamed_id(*f),
{
    let mut k: usize = 0;
    while k < f.attrs.len()
        invariant
            k <= f.attrs@.len(),
            id_name@ == "_id"@,
            forall|j: int|
                0 <= j < k ==> !((#[trigger] f.attrs@[j]) matches FieldAttr::SerdeRename(n)
                    && n@ == "_id"@),
        decreases f.attrs.len() - k,
    {
        match &f.attrs[k] {
            FieldAttr::SerdeRename(n) => {
                if *n == *id_name {
                    proof {
                        assert((f.attrs@[k as int]) matches FieldAttr::SerdeRename(m) && m@
                            == "_id"@);
                    }
                    return true;
                }
            },
            _ => {},
        }
        k = k + 1;
    }
    false
}

/// Detects the identity field: the field literally named `_id`; only
/// absent that, the first field renamed to `_id` by a serialization
/// annotation; absent both, a definition error.
pub fn id_field(fields: &Vec<FieldDef>) -> (r: Result<usize, DefinitionError>)
    ensures
        match r {
            Ok(i) => spec_id_field(fields@) == Ok::<int, DefinitionError>(i as int),
            Err(e) => spec_id_field(fields@) == Err::<int, DefinitionError>(e),
        },
{
    let id_name = String::from_str("_id");
    let mut i: usize = 0;
    while i < fields.len()
        invariant
            i <= fields@.len(),
            id_name@ == "_id"@,
            forall|j: int| 0 <= j < i ==> !spec_is_named_id(#[trigger] fields@[j]),
        decreases fields.len() - i,
    {
        if fields[i].name == id_name {
            proof {
                lemma_named_id_found(fields@, i as int);
            }
            return Ok(i);
        }
        i = i + 1;
    }
    proof {
        lemma_named_id_missing(fields@);
    }
    let mut i: usize = 0;
    while i < fields.len()
        invariant
            i <= fields@.len(),
            id_name@ == "_id"@,
            spec_named_id_index(fields@) == -1,
            forall|j: int| 0 <= j < i ==> !spec_is_renamed_id(#[trigger] fields@[j]),
        decreases fields.len() - i,
    {
        if field_is_renamed_id(&fields[i], &id_name) {
            proof {
                lemma_renamed_id_found(fields@, i as int);
            }
            return Ok(i);
        }
        i = i + 1;
    }
    proof {
        lemma_renamed_id_missing(fields@);
    }
    Err(DefinitionError::NoIdField)
}

/// What a relation annotation's argument list resolves to: the target
/// type first, then optional custom names for the blocking and
/// non-blocking getters, defaulting to the field name with a `_sync`
/// suffix and the field name itself.
pub open spec fn spec_relation_info(
    args: Seq<RelationArg>,
    field: Seq<char>,
    kind: RelationKind,
) -> Result<RelationDefView, DefinitionError> {
    if args.len() == 0 || !(args[0] is Target) {
        Err(DefinitionError::RelationTargetMissing)
    } else if args.len() >= 2 && !(args[1] is Name) {
        Err(DefinitionError::RelationNameNotString)
    } else if args.len() >= 3 && !(args[2] is Name) {
        Err(DefinitionError::RelationNameNotString)
    } else {
        Ok(
            RelationDefView {
                field,
                kind,
                target: spec_arg_text(args[0]),
                sync_getter: if args.len() >= 2 {
                    spec_arg_text(args[1])
                } else {
                    field + "_sync"@
                },
                async_getter: if args.len() >= 3 {
                    spec_arg_text(args[2])
                } else {
                    field
                },
            },
        )
    }
}

/// The text an argument carries.
pub open spec fn spec_arg_text(arg: RelationArg) -> Seq<char> {
    match arg {
        RelationArg::Target(t) => t@,
        RelationArg::Name(n) => n@,
        RelationArg::Other => Seq::empty(),
    }
}

/// Resolves one relation annotation.
pub fn relation_info(args: &Vec<RelationArg>, field: &String, kind: RelationKind) -> (r: Result<
    RelationDef,
    DefinitionError,
>)
    ensures
        match r {
            Ok(rd) => spec_relation_info(args@, field@, kind) == Ok::<
                RelationDefView,
                DefinitionError,
            >(rd@),
            Err(e) => spec_relation_info(args@, field@, kind) == Err::<
                RelationDefView,
                DefinitionError,
            >(e),
        },
{
    if args.len() == 0 {
        return Err(DefinitionError::RelationTargetMissing);
    }
    let target = match &args[0] {
        RelationArg::Target(t) => t.clone(),
        _ => {
            return Err(DefinitionError::RelationTargetMissing);
        },
    };
    let sync_getter = if args.len() >= 2 {
        match &args[1] {
            RelationArg::Name(n) => n.clone(),
            _ => {
                return Err(DefinitionError::RelationNameNotString);
            },
        }
    } else {
        field.clone().concat("_sync")
    };
    let async_getter = if args.len() >= 3 {
        match &args[2] {
            RelationArg::Name(n) => n.clone(),
            _ => {
                return Err(DefinitionError::RelationNameNotString);
            },
        }
    } else {
        field.clone()
    };
    Ok(RelationDef { field: field.clone(), kind, target, sync_getter, async_getter })
}

/// The relations a field's annotations declare, in annotation order; the
/// first malformed annotation is the definition error.
pub open spec fn spec_attrs_relations(attrs: Seq<FieldAttr>, field: Seq<char>) -> Result<
    Seq<RelationDefView>,
    DefinitionError,
>
    decreases attrs.len(),
{
    if attrs.len() == 0 {
        Ok(Seq::empty())
    } else {
        match spec_attrs_relations(attrs.drop_last(), field) {
            Err(e) => Err(e),
            Ok(prev) => match attrs.last() {
                FieldAttr::HasOne(args) => match spec_relation_info(
                    args@,
                    field,
                    RelationKind::One,
                ) {
                    Ok(rd) => Ok(prev.push(rd)),
                    Err(e) => Err(e),
                },
                FieldAttr::HasMany(args) => match spec_relation_info(
                    args@,
                    field,
                    RelationKind::Many,
                ) {
                    Ok(rd) => Ok(prev.push(rd)),
                    Err(e) => Err(e),
                },
                _ => Ok(prev),
            },
        }
    }
}

/// The relations a definition declares, field by field in order; the
/// first malformed annotation is the definition error.
pub open spec fn spec_relations(fields: Seq<FieldDef>) -> Result<
    Seq<RelationDefView>,
    DefinitionError,
>
    decreases fields.len(),
{
    if fields.len() == 0 {
        Ok(Seq::empty())
    } else {
        match spec_relations(fields.drop_last()) {
            Err(e) => Err(e),
            Ok(prev) => match spec_attrs_relations(fields.last().attrs@, fields.last().name@) {
                Ok(rs) => Ok(prev + rs),
                Err(e) => Err(e),
            },
        }
    }
}

/// An error in a prefix of the annotations settles the whole field.
proof fn lemma_attrs_err_sticks(attrs: Seq<FieldAttr>, field: Seq<char>, m: int)
    requires
        0 <= m <= attrs.len(),
        spec_attrs_relations(attrs.take(m), field) is Err,
    ensures
        spec_attrs_relations(attrs, field) == spec_attrs_relations(attrs.take(m), field),
    decreases attrs.len() - m,
{
    if m == attrs.len() {
        assert(attrs.take(m) =~= attrs);
    } else {
        assert(attrs.take(m + 1).drop_last() =~= attrs.take(m));
        lemma_attrs_err_sticks(attrs, field, m + 1);
    }
}

/// An error in a prefix of the fields settles the whole definition.
proof fn lemma_relations_err_sticks(fields: Seq<FieldDef>, m: int)
    requires
        0 <= m <= fields.len(),
        spec_relations(fields.take(m)) is Err,
    ensures
        spec_relations(fields) == spec_relations(fields.take(m)),
    decreases fields.len() - m,
{
    if m == fields.len() {
        assert(fields.take(m) =~= fields);
    } else {
        assert(fields.take(m + 1).drop_last() =~= fields.take(m));
        lemma_relations_err_sticks(fields, m + 1);
    }
}

/// Collects every relation a definition declares, in declaration order.
pub fn relations(fields: &Vec<FieldDef>) -> (r: Result<Vec<RelationDef>, DefinitionError>)
    ensures
        match r {
            Ok(defs) => spec_relations(fields@) == Ok::<Seq<RelationDefView>, DefinitionError>(
                spec_rel_defs_view(defs@),
            ),
            Err(e) => spec_relations(fields@) == Err::<Seq<RelationDefView>, DefinitionError>(e),
        },
{
    let ghost fs = fields@;
    let mut defs: Vec<RelationDef> = Vec::new();
    proof {
        assert(spec_rel_defs_view(defs@) =~= Seq::<RelationDefView>::empty());
        assert(fs.take(0) =~= Seq::<FieldDef>::empty());
    }
    let mut i: usize = 0;
    while i < fields.len()
        invariant
            i <= fs.len(),
            fs == fields@,
            spec_relations(fs.take(i as int)) == Ok::<Seq<RelationDefView>, DefinitionError>(
                spec_rel_defs_view(defs@),
            ),
        decreases fields.len() - i,
    {
        let field = &fields[i];
        let ghost attrs = field.attrs@;
        let ghost base = spec_rel_defs_view(defs@);
        let ghost mut cur: Seq<RelationDefView> = Seq::empty();
        proof {
            assert(attrs.take(0) =~= Seq::<FieldAttr>::empty());
            assert(base + cur =~= base);
        }
        let mut k: usize = 0;
        while k < field.attrs.len()
            invariant
                k <= attrs.len(),
                attrs == field.attrs@,
                i < fs.len(),
                fs == fields@,
                *field == fs[i as int],
                spec_relations(fs.take(i as int)) == Ok::<Seq<RelationDefView>, DefinitionError>(
                    base,
                ),
                spec_attrs_relations(attrs.take(k as int), field.name@) == Ok::<
                    Seq<RelationDefView>,
                    DefinitionError,
                >(cur),
                spec_rel_defs_view(defs@) == base + cur,
            decreases field.attrs.len() - k,
        {
            proof {
                assert(attrs.take(k as int + 1).drop_last() =~= attrs.take(k as int));
                assert(attrs.take(k as int + 1).last() == attrs[k as int]);
            }
            let outcome = match &field.attrs[k] {
                FieldAttr::HasOne(args) => Some(relation_info(args, &field.name, RelationKind::One)),
                FieldAttr::HasMany(args) => Some(
                    relation_info(args, &field.name, RelationKind::Many),
                ),
                _ => None,
            };
            match outcome {
                None => {},
                Some(Ok(rd)) => {
                    let ghost pre = defs@;
                    let ghost rdv = rd@;
                    defs.push(rd);
                    proof {
                        let ghost oldcur = cur;
                        cur = oldcur.push(rdv);
                        assert(spec_attrs_relations(attrs.take(k as int + 1), field.name@) == Ok::<
                            Seq<RelationDefView>,
                            DefinitionError,
                        >(cur));
                        assert(spec_rel_defs_view(pre) == base + oldcur);
                        assert(cur.len() == oldcur.len() + 1);
                        assert((base + cur).len() == base.len() + cur.len());
                        assert(defs@.len() == pre.len() + 1);
                        assert(spec_rel_defs_view(pre).len() == pre.len());
                        assert(pre.len() == base.len() + oldcur.len());
                        assert forall|j: int|
                            0 <= j < defs@.len() implies #[trigger] spec_rel_defs_view(defs@)[j]
                            == (base + cur)[j] by {
                            if j < pre.len() {
                                assert(defs@[j] == pre[j]);
                                assert(spec_rel_defs_view(pre)[j] == (base + oldcur)[j]);
                                assert((base + cur)[j] == (base + oldcur)[j]);
                            } else {
                                assert(defs@[j]@ == rdv);
                                assert((base + cur)[j] == cur[j - base.len()]);
                                assert(cur[j - base.len()] == rdv);
                            }
                        }
                        assert(spec_rel_defs_view(defs@) =~= base + cur);
                    }
                },
                Some(Err(e)) => {
                    proof {
                        assert(spec_attrs_relations(attrs.take(k as int + 1), field.name@)
                            == Err::<Seq<RelationDefView>, DefinitionError>(e));
                        lemma_attrs_err_sticks(attrs, field.name@, k as int + 1);
                        assert(fs.take(i as int + 1).drop_last() =~= fs.take(i as int));
                        assert(fs.take(i as int + 1).last() == fs[i as int]);
                        assert(spec_relations(fs.take(i as int + 1)) == Err::<
                            Seq<RelationDefView>,
                            DefinitionError,
                        >(e));
                        lemma_relations_err_sticks(fs, i as int + 1);
                    }
                    return Err(e);
                },
            }
            k = k + 1;
        }
        proof {
            assert(attrs.take(attrs.len() as int) =~= attrs);
            assert(fs.take(i as int + 1).drop_last() =~= fs.take(i as int));
            assert(fs.take(i as int + 1).last() == fs[i as int]);
            assert(spec_relations(fs.take(i as int + 1)) == Ok::<
                Seq<RelationDefView>,
                DefinitionError,
            >(base + cur));
        }
        i = i + 1;
    }
    proof {
        assert(fs.take(fs.len() as int) =~= fs);
    }
    Ok(defs)
}

/// Everything the generator decides for a definition, in the order the
/// checks run: the shape of the data, the collection name, the identity
/// field, the relations.
pub open spec fn spec_model_def(input: DeriveInput, async_surface: bool) -> Result<
    ModelDefView,
    DefinitionError,
> {
    match input.data {
        DataShape::NotAStruct => Err(DefinitionError::NotAStruct),
        DataShape::UnnamedFields => Err(DefinitionError::UnnamedFields),
        DataShape::NamedFields(fields) => match spec_collection_name(input.attrs@, input.ident@) {
            Err(e) => Err(e),
            Ok(cname) => match spec_id_field(fields@) {
                Err(e) => Err(e),
                Ok(idx) => match spec_relations(fields@) {
                    Err(e) => Err(e),
                    Ok(rels) => Ok(
                        ModelDefView {
                            collection: cname,
                            id_index: idx,
                            relations: rels,
                            async_surface,
                        },
                    ),
                },
            },
        },
    }
}

/// The shared resolution step behind both derive surfaces.
fn model_def(input: &DeriveInput, async_surface: bool) -> (r: Result<ModelDef, DefinitionError>)
    requires
        input.ident@.len() > 0,
        (input.ident@[0] as int) < 128,
    ensures
        match r {
            Ok(md) => spec_model_def(*input, async_surface) == Ok::<ModelDefView, DefinitionError>(
                md@,
            ),
            Err(e) => spec_model_def(*input, async_surface) == Err::<ModelDefView, DefinitionError>(
                e,
            ),
        },
{
    let fields = match &input.data {
        DataShape::NamedFields(fields) => fields,
        DataShape::UnnamedFields => {
            return Err(DefinitionError::UnnamedFields);
        },
        DataShape::NotAStruct => {
            return Err(DefinitionError::NotAStruct);
        },
    };
    let collection = match collection_name(input) {
        Ok(n) => n,
        Err(e) => {
            return Err(e);
        },
    };
    let id_index = match id_field(fields) {
        Ok(i) => i,
        Err(e) => {
            return Err(e);
        },
    };
    let rels = match relations(fields) {
        Ok(rs) => rs,
        Err(e) => {
            return Err(e);
        },
    };
    Ok(ModelDef { collection, id_index, relations: rels, async_surface })
}

/// What deriving the blocking surface decides for a definition.
pub fn blocking_model(input: &DeriveInput) -> (r: Result<ModelDef, DefinitionError>)
    requires
        input.ident@.len() > 0,
        (input.ident@[0] as int) < 128,
    ensures
        match r {
            Ok(md) => spec_model_def(*input, false) == Ok::<ModelDefView, DefinitionError>(md@),
            Err(e) => spec_model_def(*input, false) == Err::<ModelDefView, DefinitionError>(e),
        },
{
    model_def(input, false)
}

/// What deriving both surfaces decides for a definition: the same wiring,
/// with the non-blocking surface generated as well.
pub fn model(input: &DeriveInput) -> (r: Result<ModelDef, DefinitionError>)
    requires
        input.ident@.len() > 0,
        (input.ident@[0] as int) < 128,
    ensures
        match r {
            Ok(md) => spec_model_def(*input, true) == Ok::<ModelDefView, DefinitionError>(md@),
            Err(e) => spec_model_def(*input, true) == Err::<ModelDefView, DefinitionError>(e),
        },
{
    model_def(input, true)
}

} // verus!
