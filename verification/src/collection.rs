//! The collection model: a named container of documents with unique
//! identities, and the CRUD operation set that every model type runs
//! against its own collection handle. `save` is an upsert keyed by
//! identity; `find` returns matches in stored order.

use vstd::pervasive::VecAdditionalExecFns;
use vstd::prelude::*;

use crate::document::{spec_apply_patch, spec_matches, DocView, Document, Filter, Patch};
use crate::error::Error;

verus! {

/// The mathematical value of a document list.
pub open spec fn spec_docs_view(docs: Seq<Document>) -> Seq<DocView> {
    Seq::new(docs.len(), |i: int| docs[i]@)
}

/// No two documents share an identity.
pub open spec fn spec_unique_ids(s: Seq<DocView>) -> bool {
    forall|i: int, j: int| 0 <= i < j < s.len() ==> s[i].id != s[j].id
}

/// Whether some document carries the given identity.
pub open spec fn spec_contains_id(s: Seq<DocView>, id: u64) -> bool {
    exists|i: int| 0 <= i < s.len() && s[i].id == id
}

/// The position of the first document with the given identity, or `-1`.
pub open spec fn spec_index_of(s: Seq<DocView>, id: u64) -> int
    decreases s.len(),
{
    if s.len() == 0 {
        -1
    } else if s[0].id == id {
        0
    } else {
        let r = spec_index_of(s.skip(1), id);
        if r == -1 {
            -1
        } else {
            r + 1
        }
    }
}

/// How many documents match the filter.
pub open spec fn spec_count(s: Seq<DocView>, f: Filter) -> nat
    decreases s.len(),
{
    if s.len() == 0 {
        0
    } else {
        spec_count(s.drop_last(), f) + if spec_matches(s.last(), f) {
            1nat
        } else {
            0nat
        }
    }
}

/// The matching documents, in stored order.
pub open spec fn spec_find(s: Seq<DocView>, f: Filter) -> Seq<DocView>
    decreases s.len(),
{
    if s.len() == 0 {
        Seq::empty()
    } else if spec_matches(s.last(), f) {
        spec_find(s.drop_last(), f).push(s.last())
    } else {
        spec_find(s.drop_last(), f)
    }
}

/// The first matching document, if any.
pub open spec fn spec_find_one(s: Seq<DocView>, f: Filter) -> Option<DocView>
    decreases s.len(),
{
    if s.len() == 0 {
        None
    } else if spec_matches(s[0], f) {
        Some(s[0])
    } else {
        spec_find_one(s.skip(1), f)
    }
}

/// The first document with the given identity, if any.
pub open spec fn spec_lookup(s: Seq<DocView>, id: u64) -> Option<DocView> {
    spec_find_one(s, Filter::IdEq(id))
}

/// The documents that do not match the filter, in stored order.
pub open spec fn spec_reject(s: Seq<DocView>, f: Filter) -> Seq<DocView>
    decreases s.len(),
{
    if s.len() == 0 {
        Seq::empty()
    } else if spec_matches(s.last(), f) {
        spec_reject(s.drop_last(), f)
    } else {
        spec_reject(s.drop_last(), f).push(s.last())
    }
}

/// Every matching document after a partial update; the rest unchanged.
pub open spec fn spec_update_docs(s: Seq<DocView>, f: Filter, patch: Seq<crate::document::FieldView>)
    -> Seq<DocView> {
    Seq::new(
        s.len(),
        |i: int|
            if spec_matches(s[i], f) {
                spec_apply_patch(s[i], patch)
            } else {
                s[i]
            },
    )
}

/// The collection after an upsert keyed by the document's identity:
/// replaced in place if the identity is present, appended otherwise.
pub open spec fn spec_save(s: Seq<DocView>, d: DocView) -> Seq<DocView> {
    let i = spec_index_of(s, d.id);
    if i == -1 {
        s.push(d)
    } else {
        s.update(i, d)
    }
}

/// Whether the document at position `k` of a bulk insert of `ds` into `s`
/// meets an identity already taken, by the stored documents or by an
/// earlier document of the batch.
pub open spec fn spec_dup_at(s: Seq<DocView>, ds: Seq<DocView>, k: int) -> bool {
    spec_contains_id(s + ds.take(k), ds[k].id)
}

/// Whether a bulk insert of `ds` into `s` meets a duplicate identity.
pub open spec fn spec_has_dup(s: Seq<DocView>, ds: Seq<DocView>) -> bool {
    exists|k: int| 0 <= k < ds.len() && spec_dup_at(s, ds, k)
}

/// Characterizes `spec_index_of`: it is either `-1` with no document
/// carrying the identity, or the first position carrying it.
pub proof fn lemma_index_of_spec(s: Seq<DocView>, id: u64)
    ensures
        spec_index_of(s, id) == -1 ==> !spec_contains_id(s, id),
        spec_index_of(s, id) != -1 ==> {
            let i = spec_index_of(s, id);
            &&& 0 <= i < s.len()
            &&& s[i].id == id
            &&& forall|j: int| 0 <= j < i ==> (#[trigger] s[j]).id != id
        },
    decreases s.len(),
{
    if s.len() > 0 && s[0].id != id {
        lemma_index_of_spec(s.skip(1), id);
        let r = spec_index_of(s.skip(1), id);
        if r == -1 {
            assert forall|i: int| 0 <= i < s.len() implies (#[trigger] s[i]).id != id by {
                if i > 0 {
                    assert(s.skip(1)[i - 1] == s[i]);
                    assert(!spec_contains_id(s.skip(1), id));
                }
            }
        } else {
            assert(s.skip(1)[r] == s[r + 1]);
            assert forall|j: int| 0 <= j < r + 1 implies (#[trigger] s[j]).id != id by {
                if j > 0 {
                    assert(s.skip(1)[j - 1] == s[j]);
                }
            }
        }
    }
}

/// If every document before position `i` carries another identity and the
/// one at `i` carries this identity, `i` is the first such position.
pub proof fn lemma_index_of_found(s: Seq<DocView>, id: u64, i: int)
    requires
        0 <= i < s.len(),
        s[i].id == id,
        forall|j: int| 0 <= j < i ==> (#[trigger] s[j]).id != id,
    ensures
        spec_index_of(s, id) == i,
    decreases s.len(),
{
    if i > 0 {
        lemma_index_of_found(s.skip(1), id, i - 1);
    }
}

/// If no document matches before position `i` and the one at `i` matches,
/// the first match is the document at `i`.
pub proof fn lemma_find_one_found(s: Seq<DocView>, f: Filter, i: int)
    requires
        0 <= i < s.len(),
        spec_matches(s[i], f),
        forall|j: int| 0 <= j < i ==> !spec_matches(#[trigger] s[j], f),
    ensures
        spec_find_one(s, f) == Some(s[i]),
    decreases s.len(),
{
    if i > 0 {
        lemma_find_one_found(s.skip(1), f, i - 1);
    }
}

/// If no document matches, there is no first match.
pub proof fn lemma_find_one_missing(s: Seq<DocView>, f: Filter)
    requires
        forall|j: int| 0 <= j < s.len() ==> !spec_matches(#[trigger] s[j], f),
    ensures
        spec_find_one(s, f) is None,
    decreases s.len(),
{
    if s.len() > 0 {
        lemma_find_one_missing(s.skip(1), f);
    }
}

/// An identity among the non-matching documents is an identity of the
/// whole list.
proof fn lemma_reject_contains_id(s: Seq<DocView>, f: Filter, id: u64)
    requires
        spec_contains_id(spec_reject(s, f), id),
    ensures
        spec_contains_id(s, id),
    decreases s.len(),
{
    let r = spec_reject(s, f);
    let i = choose|i: int| 0 <= i < r.len() && r[i].id == id;
    if spec_matches(s.last(), f) {
        lemma_reject_contains_id(s.drop_last(), f, id);
        let k = choose|k: int| 0 <= k < s.drop_last().len() && s.drop_last()[k].id == id;
        assert(s[k].id == id);
    } else {
        if i == r.len() - 1 {
            assert(s[s.len() - 1].id == id);
        } else {
            let r0 = spec_reject(s.drop_last(), f);
            assert(r0[i].id == id);
            assert(spec_contains_id(r0, id));
            lemma_reject_contains_id(s.drop_last(), f, id);
            let k = choose|k: int| 0 <= k < s.drop_last().len() && s.drop_last()[k].id == id;
            assert(s[k].id == id);
        }
    }
}

/// Rejection keeps identities unique.
proof fn lemma_reject_ids(s: Seq<DocView>, f: Filter)
    requires
        spec_unique_ids(s),
    ensures
        spec_unique_ids(spec_reject(s, f)),
    decreases s.len(),
{
    if s.len() > 0 {
        assert(spec_unique_ids(s.drop_last())) by {
            assert(forall|i: int|
                0 <= i < s.drop_last().len() ==> #[trigger] s.drop_last()[i] == s[i]);
        }
        lemma_reject_ids(s.drop_last(), f);
        if !spec_matches(s.last(), f) {
            let r0 = spec_reject(s.drop_last(), f);
            let r = spec_reject(s, f);
            assert forall|a: int, b: int| 0 <= a < b < r.len() implies r[a].id != r[b].id by {
                if b == r.len() - 1 {
                    assert(r[a] == r0[a]);
                    assert(r[b] == s.last());
                    if r0[a].id == s.last().id {
                        assert(spec_contains_id(r0, s.last().id));
                        lemma_reject_contains_id(s.drop_last(), f, s.last().id);
                        let k = choose|k: int|
                            0 <= k < s.drop_last().len() && s.drop_last()[k].id == s.last().id;
                        assert(s[k].id == s[s.len() - 1].id);
                        assert(false);
                    }
                }
            }
        }
    }
}

/// Saving keeps identities unique.
proof fn lemma_save_wf(s: Seq<DocView>, d: DocView)
    requires
        spec_unique_ids(s),
    ensures
        spec_unique_ids(spec_save(s, d)),
{
    lemma_index_of_spec(s, d.id);
    let i = spec_index_of(s, d.id);
    if i == -1 {
        assert forall|a: int, b: int|
            0 <= a < b < spec_save(s, d).len() implies spec_save(s, d)[a].id
            != spec_save(s, d)[b].id by {
            if b == s.len() {
                assert(spec_save(s, d)[a] == s[a]);
                assert(!spec_contains_id(s, d.id));
            }
        }
    } else {
        assert forall|a: int, b: int|
            0 <= a < b < spec_save(s, d).len() implies spec_save(s, d)[a].id
            != spec_save(s, d)[b].id by {
            if a == i {
                assert(s[a].id == d.id);
            } else if b == i {
                assert(s[b].id == d.id);
            }
        }
    }
}

/// The outcome that `save` reports.
#[derive(Clone, Copy, Debug, PartialEq, Eq)]
pub struct UpdateSummary {
    /// How many stored documents the query matched.
    pub matched_count: usize,
    /// How many documents were rewritten. A matched replacement counts as
    /// modified even when the replacement is identical.
    pub modified_count: usize,
    /// The identity inserted by an upsert that matched nothing.
    pub upserted_id: Option<u64>,
}

/// The outcome that `insert_many` reports.
#[derive(Clone, Copy, Debug, PartialEq, Eq)]
pub struct InsertSummary {
    /// How many documents were inserted.
    pub inserted_count: usize,
}

/// The outcome that `delete_many` and `remove` report.
#[derive(Clone, Copy, Debug, PartialEq, Eq)]
pub struct DeleteSummary {
    /// How many documents were deleted.
    pub deleted_count: usize,
}

/// A named container of documents, each with a distinct identity.
#[derive(Debug)]
pub struct Collection {
    /// The name of the logical container this handle stands for.
    pub name: String,
    pub docs: Vec<Document>,
}

impl View for Collection {
    type V = Seq<DocView>;

    open spec fn view(&self) -> Seq<DocView> {
        spec_docs_view(self.docs@)
    }
}

impl Collection {
    /// Identities are unique within the collection; every operation
    /// preserves this.
    pub open spec fn wf(&self) -> bool {
        spec_unique_ids(self@)
    }

    /// An empty collection for the container with the given name.
    pub fn new(name: String) -> (r: Collection)
        ensures
            r@ == Seq::<DocView>::empty(),
            r.name@ == name@,
            r.wf(),
    {
        let r = Collection { name, docs: Vec::new() };
        proof {
            assert(r@ =~= Seq::<DocView>::empty());
        }
        r
    }

    /// The engine-reported approximate count; exact in this model.
    pub fn estimated_document_count(&self) -> (r: usize)
        ensures
            r == self@.len(),
    {
        self.docs.len()
    }

    /// How many stored documents match the filter.
    pub fn count_documents(&self, filter: &Filter) -> (r: usize)
        ensures
            r == spec_count(self@, *filter),
    {
        let ghost s = self@;
        let mut n: usize = 0;
        let mut i: usize = 0;
        while i < self.docs.len()
            invariant
                i <= self.docs@.len(),
                s == self@,
                s.len() == self.docs@.len(),
                n <= i,
                n == spec_count(s.take(i as int), *filter),
            decreases self.docs.len() - i,
        {
            proof {
                assert(s.take(i as int + 1).drop_last() =~= s.take(i as int));
                assert(s.take(i as int + 1).last() == s[i as int]);
            }
            if filter.matches(&self.docs[i]) {
                n = n + 1;
            }
            i = i + 1;
        }
        proof {
            assert(s.take(s.len() as int) =~= s);
        }
        n
    }

    /// Every matching document, in stored order.
    pub fn find(&self, filter: &Filter) -> (r: Vec<Document>)
        ensures
            spec_docs_view(r@) == spec_find(self@, *filter),
    {
        let ghost s = self@;
        let mut r: Vec<Document> = Vec::new();
        let mut i: usize = 0;
        while i < self.docs.len()
            invariant
                i <= self.docs@.len(),
                s == self@,
                s.len() == self.docs@.len(),
                spec_docs_view(r@) == spec_find(s.take(i as int), *filter),
            decreases self.docs.len() - i,
        {
            proof {
                assert(s.take(i as int + 1).drop_last() =~= s.take(i as int));
                assert(s.take(i as int + 1).last() == s[i as int]);
            }
            if filter.matches(&self.docs[i]) {
                r.push(self.docs[i].clone());
                proof {
                    assert(spec_docs_view(r@) =~= spec_find(s.take(i as int), *filter).push(
                        s[i as int],
                    ));
                }
            }
            i = i + 1;
        }
        proof {
            assert(s.take(s.len() as int) =~= s);
        }
        r
    }

    /// The first matching document, or an explicit "not found" value.
    pub fn find_one(&self, filter: &Filter) -> (r: Option<Document>)
        ensures
            match r {
                Some(d) => spec_find_one(self@, *filter) == Some(d@),
                None => spec_find_one(self@, *filter) is None,
            },
    {
        let ghost s = self@;
        let mut i: usize = 0;
        while i < self.docs.len()
            invariant
                i <= self.docs@.len(),
                s == self@,
                s.len() == self.docs@.len(),
                forall|j: int| 0 <= j < i ==> !spec_matches(#[trigger] s[j], *filter),
            decreases self.docs.len() - i,
        {
            if filter.matches(&self.docs[i]) {
                proof {
                    lemma_find_one_found(s, *filter, i as int);
                }
                return Some(self.docs[i].clone());
            }
            i = i + 1;
        }
        proof {
            lemma_find_one_missing(s, *filter);
        }
        None
    }

    /// The document with the given identity, if stored: shorthand for
    /// `find_one` with the identity-equality filter.
    pub fn find_by_id(&self, id: u64) -> (r: Option<Document>)
        ensures
            match r {
                Some(d) => spec_lookup(self@, id) == Some(d@),
                None => spec_lookup(self@, id) is None,
            },
    {
        self.find_one(&Filter::IdEq(id))
    }

    /// Whether some stored document carries the given identity.
    pub fn contains_id(&self, id: u64) -> (r: bool)
        ensures
            r == spec_contains_id(self@, id),
    {
        let ghost s = self@;
        let mut i: usize = 0;
        while i < self.docs.len()
            invariant
                i <= self.docs@.len(),
                s == self@,
                s.len() == self.docs@.len(),
                forall|j: int| 0 <= j < i ==> (#[trigger] s[j]).id != id,
            decreases self.docs.len() - i,
        {
            if self.docs[i].id() == id {
                proof {
                    assert(s[i as int].id == id);
                }
                return true;
            }
            i = i + 1;
        }
        false
    }

    /// Bulk insert in order. Stops at the first document whose identity is
    /// already taken: the documents before it stay inserted, the engine
    /// reports a duplicate-key failure, and nothing further is attempted.
    pub fn insert_many(&mut self, docs: &Vec<Document>) -> (r: Result<
        InsertSummary,
        Error,
    >)
        requires
            old(self).wf(),
        ensures
            final(self).wf(),
            final(self).name@ == old(self).name@,
            ({
                let s = old(self)@;
                let ds = spec_docs_view(docs@);
                match r {
                    Ok(summary) => !spec_has_dup(s, ds) && final(self)@ == s + ds
                        && summary.inserted_count == ds.len(),
                    Err(e) => e == Error::DatabaseError && exists|k: int|
                        0 <= k < ds.len() && #[trigger] spec_dup_at(s, ds, k) && final(self)@ == s
                            + ds.take(k) && forall|j: int| 0 <= j < k ==> !spec_dup_at(s, ds, j),
                }
            }),
    {
        let ghost s = old(self)@;
        let ghost ds = spec_docs_view(docs@);
        proof {
            assert(s + ds.take(0) =~= s);
        }
        let mut k: usize = 0;
        while k < docs.len()
            invariant
                k <= docs@.len(),
                s == old(self)@,
                ds == spec_docs_view(docs@),
                ds.len() == docs@.len(),
                self@ == s + ds.take(k as int),
                self.wf(),
                self.name@ == old(self).name@,
                forall|j: int| 0 <= j < k ==> !#[trigger] spec_dup_at(s, ds, j),
            decreases docs.len() - k,
        {
            if self.contains_id(docs[k].id()) {
                proof {
                    assert(spec_dup_at(s, ds, k as int));
                }
                return Err(Error::DatabaseError);
            }
            proof {
                assert(!spec_dup_at(s, ds, k as int));
            }
            let ghost pre = self@;
            self.docs.push(docs[k].clone());
            proof {
                assert(self@.len() == pre.len() + 1);
                assert(pre.len() == s.len() + k);
                assert(self@.len() == s.len() + k + 1);
                assert forall|j: int|
                    0 <= j < self@.len() implies #[trigger] self@[j] == (s + ds.take(
                    k as int + 1,
                ))[j] by {
                    if j < s.len() + k as int {
                        assert(self@[j] == pre[j]);
                        assert((s + ds.take(k as int))[j] == (s + ds.take(k as int + 1))[j]);
                    } else {
                        assert(self@[j] == docs@[k as int]@);
                        assert((s + ds.take(k as int + 1))[j] == ds[k as int]);
                    }
                }
                assert(self@ =~= s + ds.take(k as int + 1));
                assert(spec_unique_ids(self@)) by {
                    assert(forall|j: int|
                        0 <= j < s.len() + k ==> (s + ds.take(k as int))[j]
                            == #[trigger] self@[j]);
                    assert(self@[s.len() + k as int] == ds[k as int]);
                    assert(!spec_contains_id(s + ds.take(k as int), ds[k as int].id));
                }
            }
            k = k + 1;
        }
        proof {
            assert(ds.take(ds.len() as int) =~= ds);
        }
        Ok(InsertSummary { inserted_count: docs.len() })
    }

    /// Applies the patch to every matching document; reports how many
    /// matched, each of which counts as modified.
    pub fn update_many(&mut self, query: &Filter, patch: &Patch) -> (r: UpdateSummary)
        requires
            old(self).wf(),
        ensures
            final(self).wf(),
            final(self).name@ == old(self).name@,
            final(self)@ == spec_update_docs(old(self)@, *query, patch@),
            r.matched_count == spec_count(old(self)@, *query),
            r.modified_count == r.matched_count,
            r.upserted_id is None,
    {
        let ghost s = old(self)@;
        let mut n: usize = 0;
        let mut i: usize = 0;
        while i < self.docs.len()
            invariant
                i <= self.docs@.len(),
                s == old(self)@,
                s.len() == self.docs@.len(),
                self.name@ == old(self).name@,
                n <= i,
                n == spec_count(s.take(i as int), *query),
                forall|j: int| i <= j < s.len() ==> (#[trigger] self.docs@[j])@ == s[j],
                forall|j: int|
                    0 <= j < i ==> (#[trigger] self.docs@[j])@ == (if spec_matches(s[j], *query) {
                        spec_apply_patch(s[j], patch@)
                    } else {
                        s[j]
                    }),
            decreases self.docs.len() - i,
        {
            proof {
                assert(s.take(i as int + 1).drop_last() =~= s.take(i as int));
                assert(s.take(i as int + 1).last() == s[i as int]);
            }
            if query.matches(&self.docs[i]) {
                let mut d = self.docs[i].clone();
                d.apply_patch(patch);
                self.docs.set(i, d);
                n = n + 1;
            }
            i = i + 1;
        }
        proof {
            assert(s.take(s.len() as int) =~= s);
            assert(self@ =~= spec_update_docs(s, *query, patch@));
            assert(spec_unique_ids(self@)) by {
                assert(forall|j: int|
                    0 <= j < s.len() ==> (#[trigger] self@[j]).id == s[j].id);
            }
        }
        UpdateSummary { matched_count: n, modified_count: n, upserted_id: None }
    }

    /// Deletes every matching document; reports how many were deleted.
    pub fn delete_many(&mut self, query: &Filter) -> (r: DeleteSummary)
        requires
            old(self).wf(),
        ensures
            final(self).wf(),
            final(self).name@ == old(self).name@,
            final(self)@ == spec_reject(old(self)@, *query),
            r.deleted_count == spec_count(old(self)@, *query),
    {
        let ghost s = old(self)@;
        let mut kept: Vec<Document> = Vec::new();
        let mut n: usize = 0;
        let mut i: usize = 0;
        while i < self.docs.len()
            invariant
                i <= self.docs@.len(),
                s == self@,
                s.len() == self.docs@.len(),
                n <= i,
                n == spec_count(s.take(i as int), *query),
                spec_docs_view(kept@) == spec_reject(s.take(i as int), *query),
            decreases self.docs.len() - i,
        {
            proof {
                assert(s.take(i as int + 1).drop_last() =~= s.take(i as int));
                assert(s.take(i as int + 1).last() == s[i as int]);
            }
            if query.matches(&self.docs[i]) {
                n = n + 1;
            } else {
                kept.push(self.docs[i].clone());
                proof {
                    assert(spec_docs_view(kept@) =~= spec_reject(s.take(i as int), *query).push(
                        s[i as int],
                    ));
                }
            }
            i = i + 1;
        }
        proof {
            assert(s.take(s.len() as int) =~= s);
            lemma_reject_ids(s, *query);
        }
        self.docs = kept;
        DeleteSummary { deleted_count: n }
    }

    /// Upsert by identity: replaces the stored document carrying this
    /// document's identity, or inserts it if absent. Saving the same
    /// record again leaves the collection unchanged.
    pub fn save(&mut self, doc: &Document) -> (r: UpdateSummary)
        requires
            old(self).wf(),
        ensures
            final(self).wf(),
            final(self).name@ == old(self).name@,
            final(self)@ == spec_save(old(self)@, doc@),
            spec_contains_id(old(self)@, doc@.id) ==> r == (UpdateSummary {
                matched_count: 1,
                modified_count: 1,
                upserted_id: None,
            }),
            !spec_contains_id(old(self)@, doc@.id) ==> r == (UpdateSummary {
                matched_count: 0,
                modified_count: 0,
                upserted_id: Some(doc@.id),
            }),
    {
        let ghost s = old(self)@;
        proof {
            lemma_save_wf(s, doc@);
            lemma_index_of_spec(s, doc@.id);
        }
        let mut i: usize = 0;
        while i < self.docs.len()
            invariant
                i <= self.docs@.len(),
                s == old(self)@,
                s == self@,
                s.len() == self.docs@.len(),
                spec_unique_ids(s),
                self.name@ == old(self).name@,
                forall|j: int| 0 <= j < i ==> (#[trigger] s[j]).id != doc@.id,
            decreases self.docs.len() - i,
        {
            if self.docs[i].id() == doc.id() {
                proof {
                    assert(s[i as int].id == doc@.id);
                    assert(spec_contains_id(s, doc@.id));
                    lemma_index_of_found(s, doc@.id, i as int);
                    lemma_save_wf(s, doc@);
                }
                self.docs.set(i, doc.clone());
                proof {
                    assert(self@ =~= s.update(i as int, doc@));
                }
                return UpdateSummary { matched_count: 1, modified_count: 1, upserted_id: None };
            }
            i = i + 1;
        }
        proof {
            lemma_index_of_spec(s, doc@.id);
            assert(spec_index_of(s, doc@.id) == -1) by {
                if spec_index_of(s, doc@.id) != -1 {
                    assert(s[spec_index_of(s, doc@.id)].id == doc@.id);
                }
            }
        }
        self.docs.push(doc.clone());
        proof {
            assert(self@ =~= s.push(doc@));
        }
        UpdateSummary { matched_count: 0, modified_count: 0, upserted_id: Some(doc.id()) }
    }

    /// Deletes the record carrying this document's own identity.
    pub fn remove(&mut self, doc: &Document) -> (r: DeleteSummary)
        requires
            old(self).wf(),
        ensures
            final(self).wf(),
            final(self).name@ == old(self).name@,
            final(self)@ == spec_reject(old(self)@, Filter::IdEq(doc@.id)),
            r.deleted_count == spec_count(old(self)@, Filter::IdEq(doc@.id)),
    {
        let q = doc.id_query();
        self.delete_many(&q)
    }
}

/// The count of matching documents is positive exactly when some document
/// matches.
pub proof fn lemma_count_positive(s: Seq<DocView>, f: Filter)
    ensures
        (spec_count(s, f) > 0) == exists|k: int| 0 <= k < s.len() && spec_matches(#[trigger] s[k], f),
    decreases s.len(),
{
    if s.len() > 0 {
        lemma_count_positive(s.drop_last(), f);
        if spec_count(s, f) > 0 {
            if spec_matches(s.last(), f) {
                assert(spec_matches(s[s.len() - 1], f));
            } else {
                let k = choose|k: int|
                    0 <= k < s.drop_last().len() && spec_matches(#[trigger] s.drop_last()[k], f);
                assert(spec_matches(s[k], f));
            }
        }
        if exists|k: int| 0 <= k < s.len() && spec_matches(#[trigger] s[k], f) {
            let k = choose|k: int| 0 <= k < s.len() && spec_matches(#[trigger] s[k], f);
            if k < s.len() - 1 {
                assert(spec_matches(s.drop_last()[k], f));
            }
        }
    }
}

/// There is a first matching document exactly when some document matches.
pub proof fn lemma_find_one_some(s: Seq<DocView>, f: Filter)
    ensures
        (spec_find_one(s, f) is Some) == exists|k: int|
            0 <= k < s.len() && spec_matches(#[trigger] s[k], f),
    decreases s.len(),
{
    if s.len() > 0 && !spec_matches(s[0], f) {
        lemma_find_one_some(s.skip(1), f);
        if spec_find_one(s, f) is Some {
            let k = choose|k: int|
                0 <= k < s.skip(1).len() && spec_matches(#[trigger] s.skip(1)[k], f);
            assert(spec_matches(s[k + 1], f));
        }
        if exists|k: int| 0 <= k < s.len() && spec_matches(#[trigger] s[k], f) {
            let k = choose|k: int| 0 <= k < s.len() && spec_matches(#[trigger] s[k], f);
            assert(spec_matches(s.skip(1)[k - 1], f));
        }
    }
}

/// A record is found by identity exactly when the identity-equality count
/// is positive: the existence check and the getter agree.
pub proof fn lemma_lookup_count(s: Seq<DocView>, id: u64)
    ensures
        (spec_lookup(s, id) is Some) == (spec_count(s, Filter::IdEq(id)) > 0),
{
    lemma_count_positive(s, Filter::IdEq(id));
    lemma_find_one_some(s, Filter::IdEq(id));
}

/// Saving a record twice without change leaves the same state as saving it
/// once: the upsert is idempotent.
pub proof fn lemma_save_idempotent(s: Seq<DocView>, d: DocView)
    ensures
        spec_save(spec_save(s, d), d) == spec_save(s, d),
{
    lemma_index_of_spec(s, d.id);
    let i = spec_index_of(s, d.id);
    let s1 = spec_save(s, d);
    if i == -1 {
        assert forall|j: int| 0 <= j < s.len() implies (#[trigger] s1[j]).id != d.id by {
            assert(s1[j] == s[j]);
            assert(!spec_contains_id(s, d.id));
        }
        lemma_index_of_found(s1, d.id, s.len() as int);
        assert(spec_save(s1, d) =~= s1);
    } else {
        lemma_index_of_found(s1, d.id, i);
        assert(spec_save(s1, d) =~= s1);
    }
}

/// After saving a record, looking its identity up finds exactly that
/// record.
pub proof fn lemma_find_by_id_after_save(s: Seq<DocView>, d: DocView)
    ensures
        spec_lookup(spec_save(s, d), d.id) == Some(d),
{
    lemma_index_of_spec(s, d.id);
    let i = spec_index_of(s, d.id);
    let s1 = spec_save(s, d);
    if i == -1 {
        assert forall|j: int| 0 <= j < s.len() implies !spec_matches(
            #[trigger] s1[j],
            Filter::IdEq(d.id),
        ) by {
            assert(s1[j] == s[j]);
            assert(!spec_contains_id(s, d.id));
        }
        lemma_find_one_found(s1, Filter::IdEq(d.id), s.len() as int);
    } else {
        lemma_find_one_found(s1, Filter::IdEq(d.id), i);
    }
}

/// Every operation's outcome is a function of the stored state and the
/// call's inputs alone. The blocking surface and the dispatched surface
/// run the same state transformation, so on equal inputs and equal stored
/// state they produce equal results and equal errors.
pub proof fn lemma_surfaces_agree(
    s1: Seq<DocView>,
    s2: Seq<DocView>,
    d1: DocView,
    d2: DocView,
    f1: Filter,
    f2: Filter,
)
    requires
        s1 == s2,
        d1 == d2,
        f1 == f2,
    ensures
        spec_save(s1, d1) == spec_save(s2, d2),
        spec_lookup(s1, d1.id) == spec_lookup(s2, d2.id),
        spec_find(s1, f1) == spec_find(s2, f2),
        spec_find_one(s1, f1) == spec_find_one(s2, f2),
        spec_count(s1, f1) == spec_count(s2, f2),
        spec_reject(s1, f1) == spec_reject(s2, f2),
{
}

} // verus!

