//! The relation subsystem: fetching and validating declared references
//! from one model type to another. A reference is a stored identity
//! (`has_one`) or an ordered identity list (`has_many`); it is validated
//! lazily, on demand, never enforced by the storage engine. Getters fetch
//! referenced records in stored order and fail fast on the first missing
//! reference; checks verify existence only.

use vstd::prelude::*;

use crate::collection::{lemma_lookup_count, spec_lookup};
use crate::document::{DocView, Document, Filter};
use crate::error::Error;
use crate::model::BlockingModel;
use crate::registry::Registry;

verus! {

/// The declared reference a record's field holds: one foreign identity, or
/// an ordered list of them.
#[derive(Debug, PartialEq, Eq)]
pub enum RelationValue {
    One(u64),
    Many(Vec<u64>),
}

/// The first identity in the list that resolves to no stored record, if
/// any.
pub open spec fn spec_first_missing_id(s: Seq<DocView>, ids: Seq<u64>) -> Option<u64>
    decreases ids.len(),
{
    if ids.len() == 0 {
        None
    } else if spec_lookup(s, ids[0]) is None {
        Some(ids[0])
    } else {
        spec_first_missing_id(s, ids.skip(1))
    }
}

/// The first identity of a relation value that resolves to no stored
/// record, if any.
pub open spec fn spec_value_first_missing(s: Seq<DocView>, v: RelationValue) -> Option<u64> {
    match v {
        RelationValue::One(id) => if spec_lookup(s, id) is None {
            Some(id)
        } else {
            None
        },
        RelationValue::Many(ids) => spec_first_missing_id(s, ids@),
    }
}

/// Whether every identity of a relation value resolves to a stored record.
pub open spec fn spec_relation_ok(s: Seq<DocView>, v: RelationValue) -> bool {
    spec_value_first_missing(s, v) is None
}

/// If the identities before position `k` all resolve and the one at `k`
/// does not, the identity at `k` is the first missing one.
proof fn lemma_first_missing_found(s: Seq<DocView>, ids: Seq<u64>, k: int)
    requires
        0 <= k < ids.len(),
        spec_lookup(s, ids[k]) is None,
        forall|j: int| 0 <= j < k ==> spec_lookup(s, #[trigger] ids[j]) is Some,
    ensures
        spec_first_missing_id(s, ids) == Some(ids[k]),
    decreases ids.len(),
{
    if k > 0 {
        lemma_first_missing_found(s, ids.skip(1), k - 1);
    }
}

/// If every identity resolves, none is missing.
proof fn lemma_first_missing_none(s: Seq<DocView>, ids: Seq<u64>)
    requires
        forall|j: int| 0 <= j < ids.len() ==> spec_lookup(s, #[trigger] ids[j]) is Some,
    ensures
        spec_first_missing_id(s, ids) is None,
    decreases ids.len(),
{
    if ids.len() > 0 {
        lemma_first_missing_none(s, ids.skip(1));
    }
}

/// Fetches the record a `has_one` field references. A missing reference
/// fails with a relation error naming the missing identity.
pub fn get_one_sync(target: &mut BlockingModel, registry: &Registry, id: u64) -> (r: Result<
    Document,
    Error,
>)
    requires
        old(target).wf(),
    ensures
        final(target).wf(),
        final(target).collection_name@ == old(target).collection_name@,
        old(target).slot is Some ==> final(target).slot is Some,
        final(target).spec_state() == old(target).spec_state(),
        match r {
            Ok(d) => old(target).spec_ready(*registry) && spec_lookup(
                old(target).spec_state(),
                id,
            ) == Some(d@),
            Err(e) => {
                ||| {
                    &&& e == Error::NotConnected
                    &&& !old(target).spec_ready(*registry)
                }
                ||| {
                    &&& e == Error::RelationError(id)
                    &&& old(target).spec_ready(*registry)
                    &&& spec_lookup(old(target).spec_state(), id) is None
                }
            },
        },
{
    match target.find_by_id_sync(registry, id) {
        Ok(Some(d)) => Ok(d),
        Ok(None) => Err(Error::RelationError(id)),
        Err(e) => Err(e),
    }
}

/// Fetches every record a `has_many` field references, in the order of the
/// stored identity list. The first missing reference fails the whole call
/// with a relation error naming it; no partial list is returned and no
/// later identity is fetched.
pub fn get_many_sync(target: &mut BlockingModel, registry: &Registry, ids: &Vec<u64>) -> (r: Result<
    Vec<Document>,
    Error,
>)
    requires
        old(target).wf(),
    ensures
        final(target).wf(),
        final(target).collection_name@ == old(target).collection_name@,
        old(target).slot is Some ==> final(target).slot is Some,
        final(target).spec_state() == old(target).spec_state(),
        match r {
            Ok(found) => {
                &&& ids@.len() > 0 ==> old(target).spec_ready(*registry)
                &&& spec_first_missing_id(old(target).spec_state(), ids@) is None
                &&& found@.len() == ids@.len()
                &&& forall|k: int|
                    0 <= k < ids@.len() ==> spec_lookup(old(target).spec_state(), ids@[k]) == Some(
                        (#[trigger] found@[k])@,
                    )
            },
            Err(e) => {
                ||| {
                    &&& e == Error::NotConnected
                    &&& !old(target).spec_ready(*registry)
                }
                ||| {
                    &&& spec_first_missing_id(old(target).spec_state(), ids@) matches Some(m)
                        && e == Error::RelationError(m)
                    &&& old(target).spec_ready(*registry)
                }
            },
        },
{
    let ghost s = old(target).spec_state();
    let mut found: Vec<Document> = Vec::new();
    let mut k: usize = 0;
    while k < ids.len()
        invariant
            k <= ids@.len(),
            target.wf(),
            target.collection_name@ == old(target).collection_name@,
            target.spec_state() == s,
            s == old(target).spec_state(),
            old(target).spec_ready(*registry) ==> target.spec_ready(*registry),
            old(target).slot is Some ==> target.slot is Some,
            k == 0 ==> *target == *old(target),
            k > 0 ==> old(target).spec_ready(*registry),
            found@.len() == k,
            forall|j: int|
                0 <= j < k ==> spec_lookup(s, ids@[j]) == Some((#[trigger] found@[j])@),
            forall|j: int| 0 <= j < k ==> spec_lookup(s, #[trigger] ids@[j]) is Some,
        decreases ids.len() - k,
    {
        match target.find_by_id_sync(registry, ids[k]) {
            Ok(Some(d)) => {
                found.push(d);
            },
            Ok(None) => {
                proof {
                    lemma_first_missing_found(s, ids@, k as int);
                }
                return Err(Error::RelationError(ids[k]));
            },
            Err(e) => {
                return Err(e);
            },
        }
        k = k + 1;
    }
    proof {
        lemma_first_missing_none(s, ids@);
    }
    Ok(found)
}

/// Verifies that the record a `has_one` field references exists, without
/// materializing it: its identity-equality count must be at least one.
pub fn check_one_sync(target: &mut BlockingModel, registry: &Registry, id: u64) -> (r: Result<
    (),
    Error,
>)
    requires
        old(target).wf(),
    ensures
        final(target).wf(),
        final(target).collection_name@ == old(target).collection_name@,
        old(target).slot is Some ==> final(target).slot is Some,
        final(target).spec_state() == old(target).spec_state(),
        match r {
            Ok(()) => old(target).spec_ready(*registry) && spec_lookup(
                old(target).spec_state(),
                id,
            ) is Some,
            Err(e) => {
                ||| {
                    &&& e == Error::NotConnected
                    &&& !old(target).spec_ready(*registry)
                }
                ||| {
                    &&& e == Error::RelationError(id)
                    &&& old(target).spec_ready(*registry)
                    &&& spec_lookup(old(target).spec_state(), id) is None
                }
            },
        },
{
    proof {
        lemma_lookup_count(old(target).spec_state(), id);
    }
    match target.count_documents_sync(registry, &Filter::IdEq(id)) {
        Ok(n) => {
            if n < 1 {
                Err(Error::RelationError(id))
            } else {
                Ok(())
            }
        },
        Err(e) => Err(e),
    }
}

/// Verifies that every record a `has_many` field references exists. Each
/// identity must independently pass the existence check; the first failing
/// identity aborts the check with a relation error naming it.
pub fn check_many_sync(target: &mut BlockingModel, registry: &Registry, ids: &Vec<u64>) -> (r:
    Result<(), Error>)
    requires
        old(target).wf(),
    ensures
        final(target).wf(),
        final(target).collection_name@ == old(target).collection_name@,
        old(target).slot is Some ==> final(target).slot is Some,
        final(target).spec_state() == old(target).spec_state(),
        match r {
            Ok(()) => {
                &&& spec_first_missing_id(old(target).spec_state(), ids@) is None
                &&& ids@.len() > 0 ==> old(target).spec_ready(*registry)
            },
            Err(e) => {
                ||| {
                    &&& e == Error::NotConnected
                    &&& !old(target).spec_ready(*registry)
                }
                ||| {
                    &&& spec_first_missing_id(old(target).spec_state(), ids@) matches Some(m)
                        && e == Error::RelationError(m)
                    &&& old(target).spec_ready(*registry)
                }
            },
        },
{
    let ghost s = old(target).spec_state();
    let mut k: usize = 0;
    while k < ids.len()
        invariant
            k <= ids@.len(),
            target.wf(),
            target.collection_name@ == old(target).collection_name@,
            target.spec_state() == s,
            s == old(target).spec_state(),
            old(target).spec_ready(*registry) ==> target.spec_ready(*registry),
            old(target).slot is Some ==> target.slot is Some,
            k == 0 ==> *target == *old(target),
            k > 0 ==> old(target).spec_ready(*registry),
            forall|j: int| 0 <= j < k ==> spec_lookup(s, #[trigger] ids@[j]) is Some,
        decreases ids.len() - k,
    {
        match check_one_sync(target, registry, ids[k]) {
            Ok(()) => {},
            Err(e) => {
                proof {
                    if e != Error::NotConnected {
                        lemma_first_missing_found(s, ids@, k as int);
                    }
                }
                return Err(e);
            },
        }
        k = k + 1;
    }
    proof {
        lemma_first_missing_none(s, ids@);
    }
    Ok(())
}

/// Runs the existence check of every declared relation value of a record,
/// in declaration order, stopping at the first violation. All values
/// reference the same model type's collection; an application with
/// relations into several types runs one such check per type.
pub fn check_relations_sync(
    target: &mut BlockingModel,
    registry: &Registry,
    values: &Vec<RelationValue>,
) -> (r: Result<(), Error>)
    requires
        old(target).wf(),
    ensures
        final(target).wf(),
        final(target).collection_name@ == old(target).collection_name@,
        old(target).slot is Some ==> final(target).slot is Some,
        final(target).spec_state() == old(target).spec_state(),
        match r {
            Ok(()) => forall|k: int|
                0 <= k < values@.len() ==> spec_relation_ok(
                    old(target).spec_state(),
                    #[trigger] values@[k],
                ),
            Err(e) => {
                ||| {
                    &&& e == Error::NotConnected
                    &&& !old(target).spec_ready(*registry)
                }
                ||| exists|k: int|
                    {
                        &&& 0 <= k < values@.len()
                        &&& spec_value_first_missing(
                            old(target).spec_state(),
                            #[trigger] values@[k],
                        ) matches Some(m) && e == Error::RelationError(m)
                        &&& forall|j: int|
                            0 <= j < k ==> spec_relation_ok(old(target).spec_state(), values@[j])
                    }
            },
        },
{
    let ghost s = old(target).spec_state();
    let mut k: usize = 0;
    while k < values.len()
        invariant
            k <= values@.len(),
            target.wf(),
            target.collection_name@ == old(target).collection_name@,
            target.spec_state() == s,
            s == old(target).spec_state(),
            old(target).spec_ready(*registry) ==> target.spec_ready(*registry),
            old(target).slot is Some ==> target.slot is Some,
            k == 0 ==> *target == *old(target),
            forall|j: int| 0 <= j < k ==> spec_relation_ok(s, #[trigger] values@[j]),
        decreases values.len() - k,
    {
        let outcome = match &values[k] {
            RelationValue::One(id) => check_one_sync(target, registry, *id),
            RelationValue::Many(ids) => check_many_sync(target, registry, ids),
        };
        match outcome {
            Ok(()) => {},
            Err(e) => {
                return Err(e);
            },
        }
        k = k + 1;
    }
    Ok(())
}

} // verus!
