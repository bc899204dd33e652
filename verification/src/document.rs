//! The document model: a record as stored in a collection. A document has
//! exactly one identity (`_id` in the stored form) and a list of named
//! fields. Filters and patches are the query and partial-update shapes the
//! operations accept.

use vstd::pervasive::VecAdditionalExecFns;
use vstd::prelude::*;

verus! {

/// A plain value that a document field can hold. References to other model
/// types are carried as identities (`Id`) or ordered identity lists
/// (`IdList`).
#[derive(Debug, PartialEq, Eq)]
pub enum Value {
    Null,
    Bool(bool),
    Int(i64),
    Text(String),
    Id(u64),
    IdList(Vec<u64>),
}

/// The mathematical value of a [`Value`].
#[verifier::ext_equal]
pub ghost enum ValueView {
    Null,
    Bool(bool),
    Int(i64),
    Text(Seq<char>),
    Id(u64),
    IdList(Seq<u64>),
}

impl View for Value {
    type V = ValueView;

    open spec fn view(&self) -> ValueView {
        match self {
            Value::Null => ValueView::Null,
            Value::Bool(b) => ValueView::Bool(*b),
            Value::Int(i) => ValueView::Int(*i),
            Value::Text(s) => ValueView::Text(s@),
            Value::Id(i) => ValueView::Id(*i),
            Value::IdList(v) => ValueView::IdList(v@),
        }
    }
}

/// Copies an identity list element by element.
fn clone_id_list(v: &Vec<u64>) -> (r: Vec<u64>)
    ensures
        r@ == v@,
{
    let mut r: Vec<u64> = Vec::new();
    let mut i: usize = 0;
    while i < v.len()
        invariant
            i <= v.len(),
            r@ == v@.take(i as int),
        decreases v.len() - i,
    {
        r.push(v[i]);
        proof {
            assert(v@.take(i as int + 1) =~= v@.take(i as int).push(v@[i as int]));
        }
        i = i + 1;
    }
    proof {
        assert(v@.take(v@.len() as int) =~= v@);
    }
    r
}

impl Clone for Value {
    fn clone(&self) -> (res: Self)
        ensures
            res@ == self@,
    {
        match self {
            Value::Null => Value::Null,
            Value::Bool(b) => Value::Bool(*b),
            Value::Int(i) => Value::Int(*i),
            Value::Text(s) => Value::Text(s.clone()),
            Value::Id(i) => Value::Id(*i),
            Value::IdList(v) => Value::IdList(clone_id_list(v)),
        }
    }
}

/// One named field of a document.
#[derive(Debug, PartialEq, Eq)]
pub struct Field {
    pub name: String,
    pub value: Value,
}

/// The mathematical value of a [`Field`].
#[verifier::ext_equal]
pub ghost struct FieldView {
    pub name: Seq<char>,
    pub value: ValueView,
}

impl View for Field {
    type V = FieldView;

    open spec fn view(&self) -> FieldView {
        FieldView { name: self.name@, value: self.value@ }
    }
}

impl Clone for Field {
    fn clone(&self) -> (res: Self)
        ensures
            res@ == self@,
    {
        Field { name: self.name.clone(), value: self.value.clone() }
    }
}

impl Field {
    pub fn new(name: String, value: Value) -> (r: Field)
        ensures
            r@ == (FieldView { name: name@, value: value@ }),
    {
        Field { name, value }
    }
}

/// A record as persisted in a collection: its identity and its named fields.
#[derive(Debug, PartialEq, Eq)]
pub struct Document {
    pub id: u64,
    pub fields: Vec<Field>,
}

/// The mathematical value of a [`Document`].
#[verifier::ext_equal]
pub ghost struct DocView {
    pub id: u64,
    pub fields: Seq<FieldView>,
}

/// The mathematical value of a field list.
pub open spec fn spec_fields_view(fields: Seq<Field>) -> Seq<FieldView> {
    Seq::new(fields.len(), |i: int| fields[i]@)
}

impl View for Document {
    type V = DocView;

    open spec fn view(&self) -> DocView {
        DocView { id: self.id, fields: spec_fields_view(self.fields@) }
    }
}

impl Clone for Document {
    fn clone(&self) -> (res: Self)
        ensures
            res@ == self@,
    {
        let mut fields: Vec<Field> = Vec::new();
        let mut i: usize = 0;
        while i < self.fields.len()
            invariant
                i <= self.fields.len(),
                fields@.len() == i,
                forall|j: int| 0 <= j < i ==> fields@[j]@ == #[trigger] self.fields@[j]@,
            decreases self.fields.len() - i,
        {
            fields.push(self.fields[i].clone());
            i = i + 1;
        }
        let res = Document { id: self.id, fields };
        proof {
            assert(res@.fields =~= self@.fields);
        }
        res
    }
}

/// The identity-equality filter over a document's identity.
pub open spec fn spec_id_query(id: u64) -> Filter {
    Filter::IdEq(id)
}

impl Document {
    pub fn new(id: u64, fields: Vec<Field>) -> (r: Document)
        ensures
            r@.id == id,
            r@.fields == spec_fields_view(fields@),
    {
        Document { id, fields }
    }

    /// The identity of this record.
    pub fn id(&self) -> (r: u64)
        ensures
            r == self@.id,
    {
        self.id
    }

    /// The canonical identity-equality filter used by `save`, `remove` and
    /// `find_by_id`.
    pub fn id_query(&self) -> (r: Filter)
        ensures
            r == spec_id_query(self@.id),
    {
        Filter::IdEq(self.id)
    }

    /// The value of the first field with the given name, if any.
    pub fn get(&self, name: &String) -> (r: Option<&Value>)
        ensures
            match r {
                Some(v) => spec_get_field(self@.fields, name@) == Some(v@),
                None => spec_get_field(self@.fields, name@) is None,
            },
    {
        let ghost fields = self@.fields;
        let mut i: usize = 0;
        while i < self.fields.len()
            invariant
                i <= fields.len(),
                fields == self@.fields,
                fields.len() == self.fields@.len(),
                forall|j: int| 0 <= j < i ==> (#[trigger] fields[j]).name != name@,
            decreases self.fields.len() - i,
        {
            if self.fields[i].name == *name {
                proof {
                    lemma_field_index_found(fields, name@, i as int);
                }
                return Some(&self.fields[i].value);
            }
            i = i + 1;
        }
        proof {
            lemma_field_index_missing(fields, name@);
        }
        None
    }

    /// Sets the first field with the given name to the given value, or
    /// appends a new field if none exists. The identity is never affected.
    pub fn set_field(&mut self, name: &String, value: &Value)
        ensures
            final(self)@.id == old(self)@.id,
            final(self)@.fields == spec_set_field(old(self)@.fields, name@, value@),
    {
        let ghost fields = old(self)@.fields;
        let mut i: usize = 0;
        while i < self.fields.len()
            invariant
                i <= fields.len(),
                fields == old(self)@.fields,
                fields == self@.fields,
                fields.len() == self.fields@.len(),
                self@.id == old(self)@.id,
                forall|j: int| 0 <= j < i ==> (#[trigger] fields[j]).name != name@,
            decreases self.fields.len() - i,
        {
            if self.fields[i].name == *name {
                proof {
                    lemma_field_index_found(fields, name@, i as int);
                }
                self.fields.set(i, Field { name: name.clone(), value: value.clone() });
                proof {
                    assert(self@.fields =~= fields.update(
                        i as int,
                        FieldView { name: name@, value: value@ },
                    ));
                }
                return ;
            }
            i = i + 1;
        }
        proof {
            lemma_field_index_missing(fields, name@);
        }
        self.fields.push(Field { name: name.clone(), value: value.clone() });
        proof {
            assert(self@.fields =~= fields.push(FieldView { name: name@, value: value@ }));
        }
    }

    /// Applies a partial update: each entry of the patch is set in order;
    /// fields the patch does not name are left unchanged.
    pub fn apply_patch(&mut self, patch: &Patch)
        ensures
            final(self)@ == spec_apply_patch(old(self)@, patch@),
    {
        let ghost orig = self@;
        let mut i: usize = 0;
        while i < patch.sets.len()
            invariant
                i <= patch.sets@.len(),
                self@ == spec_apply_sets(orig, patch@.take(i as int)),
                patch@.len() == patch.sets@.len(),
                forall|j: int|
                    0 <= j < patch@.len() ==> #[trigger] patch@[j] == patch.sets@[j]@,
            decreases patch.sets.len() - i,
        {
            proof {
                assert(patch@.take(i as int + 1).drop_last() =~= patch@.take(i as int));
                assert(patch@.take(i as int + 1).last() == patch@[i as int]);
            }
            let set = &patch.sets[i];
            self.set_field(&set.name, &set.value);
            i = i + 1;
        }
        proof {
            assert(patch@.take(patch@.len() as int) =~= patch@);
        }
    }
}

/// The position of the first field with the given name, or `-1` if none.
pub open spec fn spec_field_index(fields: Seq<FieldView>, name: Seq<char>) -> int
    decreases fields.len(),
{
    if fields.len() == 0 {
        -1
    } else if fields[0].name == name {
        0
    } else {
        let r = spec_field_index(fields.skip(1), name);
        if r == -1 {
            -1
        } else {
            r + 1
        }
    }
}

/// The value of the first field with the given name, if any.
pub open spec fn spec_get_field(fields: Seq<FieldView>, name: Seq<char>) -> Option<ValueView> {
    let i = spec_field_index(fields, name);
    if i == -1 {
        None
    } else {
        Some(fields[i].value)
    }
}

/// The field list after setting the named field: replaced in place if
/// present, appended otherwise.
pub open spec fn spec_set_field(fields: Seq<FieldView>, name: Seq<char>, value: ValueView)
    -> Seq<FieldView> {
    let i = spec_field_index(fields, name);
    if i == -1 {
        fields.push(FieldView { name, value })
    } else {
        fields.update(i, FieldView { name, value })
    }
}

/// The document after applying every entry of a patch in order.
pub open spec fn spec_apply_sets(doc: DocView, sets: Seq<FieldView>) -> DocView
    decreases sets.len(),
{
    if sets.len() == 0 {
        doc
    } else {
        let prev = spec_apply_sets(doc, sets.drop_last());
        DocView {
            id: doc.id,
            fields: spec_set_field(prev.fields, sets.last().name, sets.last().value),
        }
    }
}

/// The document after a partial update.
pub open spec fn spec_apply_patch(doc: DocView, patch: Seq<FieldView>) -> DocView {
    spec_apply_sets(doc, patch)
}

/// If every field before position `i` has another name and the field at `i`
/// has this name, then `i` is the first position with this name.
proof fn lemma_field_index_found(fields: Seq<FieldView>, name: Seq<char>, i: int)
    requires
        0 <= i < fields.len(),
        fields[i].name == name,
        forall|j: int| 0 <= j < i ==> (#[trigger] fields[j]).name != name,
    ensures
        spec_field_index(fields, name) == i,
    decreases fields.len(),
{
    if i > 0 {
        assert(fields[0].name != name);
        lemma_field_index_found(fields.skip(1), name, i - 1);
    }
}

/// If no field has this name, the first position with this name is `-1`.
proof fn lemma_field_index_missing(fields: Seq<FieldView>, name: Seq<char>)
    requires
        forall|j: int| 0 <= j < fields.len() ==> (#[trigger] fields[j]).name != name,
    ensures
        spec_field_index(fields, name) == -1,
    decreases fields.len(),
{
    if fields.len() > 0 {
        lemma_field_index_missing(fields.skip(1), name);
    }
}

/// A query shape: either match every document, or match by identity.
/// The library's own operations only ever build identity queries; `All` is
/// what an omitted filter means.
#[derive(Clone, Copy, Debug, PartialEq, Eq, Structural)]
pub enum Filter {
    All,
    IdEq(u64),
}

/// Whether a document matches a filter.
pub open spec fn spec_matches(doc: DocView, filter: Filter) -> bool {
    match filter {
        Filter::All => true,
        Filter::IdEq(id) => doc.id == id,
    }
}

impl Filter {
    /// Whether the given document matches this filter.
    pub fn matches(&self, doc: &Document) -> (r: bool)
        ensures
            r == spec_matches(doc@, *self),
    {
        match self {
            Filter::All => true,
            Filter::IdEq(id) => doc.id() == *id,
        }
    }
}

/// A partial update: the named fields are set to the given values, in order;
/// every other field of a matched document is left unchanged.
#[derive(Debug, PartialEq, Eq)]
pub struct Patch {
    pub sets: Vec<Field>,
}

impl View for Patch {
    type V = Seq<FieldView>;

    open spec fn view(&self) -> Seq<FieldView> {
        spec_fields_view(self.sets@)
    }
}

impl Patch {
    pub fn new(sets: Vec<Field>) -> (r: Patch)
        ensures
            r@ == spec_fields_view(sets@),
    {
        Patch { sets }
    }
}

} // verus!
