//! The per-model-type persistence wiring: a lazily initialized, set-once
//! collection slot resolved through the connection registry, and the
//! blocking CRUD surface that the code generator binds to a model type.
//! Every operation fails with `NotConnected` when neither a cached handle
//! nor a connection is available, and the slot stays unset so a later call
//! can retry once connected.

use vstd::prelude::*;

use crate::collection::{
    spec_count, spec_docs_view, spec_find, spec_find_one, spec_has_dup, spec_lookup, spec_reject,
    spec_save, spec_update_docs, spec_contains_id, spec_dup_at, Collection, DeleteSummary,
    InsertSummary, UpdateSummary,
};
use crate::document::{DocView, Document, Filter, Patch};
use crate::error::Error;
use crate::registry::Registry;

verus! {

/// The runtime wiring of one model type: the name of its container and its
/// set-once collection slot. The code generator describes one of these per
/// annotated type; an application holds one per model type.
#[derive(Debug)]
pub struct BlockingModel {
    /// The resolved container name for this model type.
    pub collection_name: String,
    /// The cached collection handle: unset until first use, then fixed.
    pub slot: Option<Collection>,
}

impl BlockingModel {
    /// The cached handle, once set, carries this type's container name and
    /// keeps identities unique.
    pub open spec fn wf(&self) -> bool {
        match self.slot {
            Some(c) => c.wf() && c.name@ == self.collection_name@,
            None => true,
        }
    }

    /// The stored documents this model type sees: none until the slot is
    /// initialized, which starts empty.
    pub open spec fn spec_state(&self) -> Seq<DocView> {
        match self.slot {
            Some(c) => c@,
            None => Seq::empty(),
        }
    }

    /// Whether an operation can proceed: the handle is already cached, or
    /// the registry is connected so it can be initialized now.
    pub open spec fn spec_ready(&self, registry: Registry) -> bool {
        self.slot is Some || registry.is_connected()
    }

    /// Fresh wiring for a model type persisted in the named container.
    pub fn new(collection_name: String) -> (r: BlockingModel)
        ensures
            r.wf(),
            r.slot is None,
            r.collection_name@ == collection_name@,
    {
        BlockingModel { collection_name, slot: None }
    }

    /// Resolves the collection slot: returns at once when cached; otherwise
    /// asks the registry and installs an empty collection, set-once. When
    /// the registry is unconnected the slot stays unset for a later retry.
    fn ensure_collection(&mut self, registry: &Registry) -> (r: Result<(), Error>)
        requires
            old(self).wf(),
        ensures
            final(self).wf(),
            final(self).collection_name@ == old(self).collection_name@,
            old(self).slot is Some ==> final(self).slot is Some,
            final(self).spec_state() == old(self).spec_state(),
            old(self).slot is Some ==> *final(self) == *old(self),
            match r {
                Ok(()) => old(self).spec_ready(*registry) && final(self).slot is Some,
                Err(e) => {
                    &&& e == Error::NotConnected
                    &&& !old(self).spec_ready(*registry)
                    &&& *final(self) == *old(self)
                },
            },
    {
        match &self.slot {
            Some(_) => Ok(()),
            None => {
                match registry.database() {
                    Ok(_) => {
                        let c = Collection::new(self.collection_name.clone());
                        proof {
                            assert(c@ =~= old(self).spec_state());
                        }
                        self.slot = Some(c);
                        Ok(())
                    },
                    Err(e) => Err(e),
                }
            },
        }
    }

    /// The cached collection handle, initializing it on first use.
    pub fn collection(&mut self, registry: &Registry) -> (r: Result<&Collection, Error>)
        requires
            old(self).wf(),
        ensures
            final(self).wf(),
            final(self).collection_name@ == old(self).collection_name@,
            old(self).slot is Some ==> final(self).slot is Some,
            final(self).spec_state() == old(self).spec_state(),
            old(self).slot is Some ==> *final(self) == *old(self),
            match r {
                Ok(c) => old(self).spec_ready(*registry) && final(self).slot == Some(*c),
                Err(e) => {
                    &&& e == Error::NotConnected
                    &&& !old(self).spec_ready(*registry)
                    &&& *final(self) == *old(self)
                },
            },
    {
        if let Err(e) = self.ensure_collection(registry) {
            return Err(e);
        }
        match &self.slot {
            Some(c) => Ok(c),
            None => Err(Error::NotConnected),
        }
    }

    /// The engine-reported count of this type's records.
    pub fn estimated_document_count_sync(&mut self, registry: &Registry) -> (r: Result<
        usize,
        Error,
    >)
        requires
            old(self).wf(),
        ensures
            final(self).wf(),
            final(self).collection_name@ == old(self).collection_name@,
            old(self).slot is Some ==> final(self).slot is Some,
            final(self).spec_state() == old(self).spec_state(),
            match r {
                Ok(n) => old(self).spec_ready(*registry) && n == old(self).spec_state().len(),
                Err(e) => {
                    &&& e == Error::NotConnected
                    &&& !old(self).spec_ready(*registry)
                    &&& *final(self) == *old(self)
                },
            },
    {
        if let Err(e) = self.ensure_collection(registry) {
            return Err(e);
        }
        match &self.slot {
            Some(c) => Ok(c.estimated_document_count()),
            None => Err(Error::NotConnected),
        }
    }

    /// The exact count of records matching the filter.
    pub fn count_documents_sync(&mut self, registry: &Registry, filter: &Filter) -> (r: Result<
        usize,
        Error,
    >)
        requires
            old(self).wf(),
        ensures
            final(self).wf(),
            final(self).collection_name@ == old(self).collection_name@,
            old(self).slot is Some ==> final(self).slot is Some,
            final(self).spec_state() == old(self).spec_state(),
            match r {
                Ok(n) => old(self).spec_ready(*registry) && n == spec_count(
                    old(self).spec_state(),
                    *filter,
                ),
                Err(e) => {
                    &&& e == Error::NotConnected
                    &&& !old(self).spec_ready(*registry)
                    &&& *final(self) == *old(self)
                },
            },
    {
        if let Err(e) = self.ensure_collection(registry) {
            return Err(e);
        }
        match &self.slot {
            Some(c) => Ok(c.count_documents(filter)),
            None => Err(Error::NotConnected),
        }
    }

    /// Every matching record, in stored order.
    pub fn find_sync(&mut self, registry: &Registry, filter: &Filter) -> (r: Result<
        Vec<Document>,
        Error,
    >)
        requires
            old(self).wf(),
        ensures
            final(self).wf(),
            final(self).collection_name@ == old(self).collection_name@,
            old(self).slot is Some ==> final(self).slot is Some,
            final(self).spec_state() == old(self).spec_state(),
            match r {
                Ok(found) => old(self).spec_ready(*registry) && spec_docs_view(found@)
                    == spec_find(old(self).spec_state(), *filter),
                Err(e) => {
                    &&& e == Error::NotConnected
                    &&& !old(self).spec_ready(*registry)
                    &&& *final(self) == *old(self)
                },
            },
    {
        if let Err(e) = self.ensure_collection(registry) {
            return Err(e);
        }
        match &self.slot {
            Some(c) => Ok(c.find(filter)),
            None => Err(Error::NotConnected),
        }
    }

    /// The first matching record, or an explicit "not found" value.
    pub fn find_one_sync(&mut self, registry: &Registry, filter: &Filter) -> (r: Result<
        Option<Document>,
        Error,
    >)
        requires
            old(self).wf(),
        ensures
            final(self).wf(),
            final(self).collection_name@ == old(self).collection_name@,
            old(self).slot is Some ==> final(self).slot is Some,
            final(self).spec_state() == old(self).spec_state(),
            match r {
                Ok(found) => old(self).spec_ready(*registry) && (match found {
                    Some(d) => spec_find_one(old(self).spec_state(), *filter) == Some(d@),
                    None => spec_find_one(old(self).spec_state(), *filter) is None,
                }),
                Err(e) => {
                    &&& e == Error::NotConnected
                    &&& !old(self).spec_ready(*registry)
                    &&& *final(self) == *old(self)
                },
            },
    {
        if let Err(e) = self.ensure_collection(registry) {
            return Err(e);
        }
        match &self.slot {
            Some(c) => Ok(c.find_one(filter)),
            None => Err(Error::NotConnected),
        }
    }

    /// The record with the given identity, if stored: shorthand for
    /// `find_one_sync` with the identity-equality filter.
    pub fn find_by_id_sync(&mut self, registry: &Registry, id: u64) -> (r: Result<
        Option<Document>,
        Error,
    >)
        requires
            old(self).wf(),
        ensures
            final(self).wf(),
            final(self).collection_name@ == old(self).collection_name@,
            old(self).slot is Some ==> final(self).slot is Some,
            final(self).spec_state() == old(self).spec_state(),
            match r {
                Ok(found) => old(self).spec_ready(*registry) && (match found {
                    Some(d) => spec_lookup(old(self).spec_state(), id) == Some(d@),
                    None => spec_lookup(old(self).spec_state(), id) is None,
                }),
                Err(e) => {
                    &&& e == Error::NotConnected
                    &&& !old(self).spec_ready(*registry)
                    &&& *final(self) == *old(self)
                },
            },
    {
        self.find_one_sync(registry, &Filter::IdEq(id))
    }

    /// Bulk insert in order, stopping at the first duplicate identity.
    pub fn insert_many_sync(&mut self, registry: &Registry, docs: &Vec<Document>) -> (r: Result<
        InsertSummary,
        Error,
    >)
        requires
            old(self).wf(),
        ensures
            final(self).wf(),
            final(self).collection_name@ == old(self).collection_name@,
            old(self).slot is Some ==> final(self).slot is Some,
            ({
                let s = old(self).spec_state();
                let ds = spec_docs_view(docs@);
                match r {
                    Ok(summary) => {
                        &&& old(self).spec_ready(*registry)
                        &&& !spec_has_dup(s, ds)
                        &&& final(self).spec_state() == s + ds
                        &&& summary.inserted_count == ds.len()
                    },
                    Err(e) => {
                        ||| {
                            &&& e == Error::NotConnected
                            &&& !old(self).spec_ready(*registry)
                            &&& *final(self) == *old(self)
                        }
                        ||| {
                            &&& e == Error::DatabaseError
                            &&& old(self).spec_ready(*registry)
                            &&& exists|k: int|
                                {
                                    &&& 0 <= k < ds.len()
                                    &&& #[trigger] spec_dup_at(s, ds, k)
                                    &&& final(self).spec_state() == s + ds.take(k)
                                    &&& forall|j: int| 0 <= j < k ==> !spec_dup_at(s, ds, j)
                                }
                        }
                    },
                }
            }),
    {
        if let Err(e) = self.ensure_collection(registry) {
            return Err(e);
        }
        match &mut self.slot {
            Some(c) => c.insert_many(docs),
            None => Err(Error::NotConnected),
        }
    }

    /// Applies a partial update to every matching record.
    pub fn update_many_sync(&mut self, registry: &Registry, query: &Filter, patch: &Patch) -> (r:
        Result<UpdateSummary, Error>)
        requires
            old(self).wf(),
        ensures
            final(self).wf(),
            final(self).collection_name@ == old(self).collection_name@,
            old(self).slot is Some ==> final(self).slot is Some,
            match r {
                Ok(u) => {
                    &&& old(self).spec_ready(*registry)
                    &&& final(self).spec_state() == spec_update_docs(
                        old(self).spec_state(),
                        *query,
                        patch@,
                    )
                    &&& u.matched_count == spec_count(old(self).spec_state(), *query)
                    &&& u.modified_count == u.matched_count
                    &&& u.upserted_id is None
                },
                Err(e) => {
                    &&& e == Error::NotConnected
                    &&& !old(self).spec_ready(*registry)
                    &&& *final(self) == *old(self)
                },
            },
    {
        if let Err(e) = self.ensure_collection(registry) {
            return Err(e);
        }
        match &mut self.slot {
            Some(c) => Ok(c.update_many(query, patch)),
            None => Err(Error::NotConnected),
        }
    }

    /// Deletes every matching record.
    pub fn delete_many_sync(&mut self, registry: &Registry, query: &Filter) -> (r: Result<
        DeleteSummary,
        Error,
    >)
        requires
            old(self).wf(),
        ensures
            final(self).wf(),
            final(self).collection_name@ == old(self).collection_name@,
            old(self).slot is Some ==> final(self).slot is Some,
            match r {
                Ok(d) => {
                    &&& old(self).spec_ready(*registry)
                    &&& final(self).spec_state() == spec_reject(old(self).spec_state(), *query)
                    &&& d.deleted_count == spec_count(old(self).spec_state(), *query)
                },
                Err(e) => {
                    &&& e == Error::NotConnected
                    &&& !old(self).spec_ready(*registry)
                    &&& *final(self) == *old(self)
                },
            },
    {
        if let Err(e) = self.ensure_collection(registry) {
            return Err(e);
        }
        match &mut self.slot {
            Some(c) => Ok(c.delete_many(query)),
            None => Err(Error::NotConnected),
        }
    }

    /// Upsert by identity: replaces the stored record carrying the given
    /// record's identity, or inserts it if absent.
    pub fn save_sync(&mut self, registry: &Registry, doc: &Document) -> (r: Result<
        UpdateSummary,
        Error,
    >)
        requires
            old(self).wf(),
        ensures
            final(self).wf(),
            final(self).collection_name@ == old(self).collection_name@,
            old(self).slot is Some ==> final(self).slot is Some,
            match r {
                Ok(u) => {
                    &&& old(self).spec_ready(*registry)
                    &&& final(self).spec_state() == spec_save(old(self).spec_state(), doc@)
                    &&& (spec_contains_id(old(self).spec_state(), doc@.id) ==> u
                        == (UpdateSummary {
                        matched_count: 1,
                        modified_count: 1,
                        upserted_id: None,
                    }))
                    &&& (!spec_contains_id(old(self).spec_state(), doc@.id) ==> u
                        == (UpdateSummary {
                        matched_count: 0,
                        modified_count: 0,
                        upserted_id: Some(doc@.id),
                    }))
                },
                Err(e) => {
                    &&& e == Error::NotConnected
                    &&& !old(self).spec_ready(*registry)
                    &&& *final(self) == *old(self)
                },
            },
    {
        if let Err(e) = self.ensure_collection(registry) {
            return Err(e);
        }
        match &mut self.slot {
            Some(c) => Ok(c.save(doc)),
            None => Err(Error::NotConnected),
        }
    }

    /// Deletes the record carrying the given record's own identity.
    pub fn remove_sync(&mut self, registry: &Registry, doc: &Document) -> (r: Result<
        DeleteSummary,
        Error,
    >)
        requires
            old(self).wf(),
        ensures
            final(self).wf(),
            final(self).collection_name@ == old(self).collection_name@,
            old(self).slot is Some ==> final(self).slot is Some,
            match r {
                Ok(d) => {
                    &&& old(self).spec_ready(*registry)
                    &&& final(self).spec_state() == spec_reject(
                        old(self).spec_state(),
                        Filter::IdEq(doc@.id),
                    )
                    &&& d.deleted_count == spec_count(
                        old(self).spec_state(),
                        Filter::IdEq(doc@.id),
                    )
                },
                Err(e) => {
                    &&& e == Error::NotConnected
                    &&& !old(self).spec_ready(*registry)
                    &&& *final(self) == *old(self)
                },
            },
    {
        if let Err(e) = self.ensure_collection(registry) {
            return Err(e);
        }
        match &mut self.slot {
            Some(c) => Ok(c.remove(doc)),
            None => Err(Error::NotConnected),
        }
    }
}

/// Resolves a dispatched blocking operation for the non-blocking surface:
/// the worker's own outcome when its task was joined, and the distinct
/// dispatch failure when the task could not be joined.
pub fn dispatch_outcome<T>(joined: Option<Result<T, Error>>) -> (r: Result<T, Error>)
    ensures
        match joined {
            Some(out) => r == out,
            None => r == Err::<T, Error>(Error::DispatchError),
        },
{
    match joined {
        Some(out) => out,
        None => Err(Error::DispatchError),
    }
}

} // verus!
