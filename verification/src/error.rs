//! The error taxonomy: every runtime failure of the library is returned to
//! the caller as one of these kinds, none is swallowed and none aborts the
//! process. Definition-time failures of the code generator are a separate
//! type, `crate::generator::DefinitionError`.

use vstd::prelude::*;

verus! {

/// A runtime failure of a persistence operation.
#[derive(Clone, Copy, Debug, PartialEq, Eq)]
pub enum Error {
    /// Any failure surfaced by the storage engine (connectivity, server-side
    /// rejection, duplicate key on insert).
    DatabaseError,
    /// A record could not be encoded into its document representation.
    EncodingError,
    /// A stored document could not be decoded back into a record.
    DecodingError,
    /// An operation was attempted before `connect`.
    NotConnected,
    /// A second `connect` was attempted; the first connection stays intact.
    AlreadyConnected,
    /// The worker task running a dispatched blocking operation could not be
    /// joined; distinct from the operation's own failure.
    DispatchError,
    /// A declared reference does not resolve to an existing record; carries
    /// the identity that was missing.
    RelationError(u64),
}

} // verus!
