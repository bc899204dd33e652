//! The connection registry: an explicit context holding the one shared
//! connection. `connect` succeeds exactly once; a later attempt fails with
//! `AlreadyConnected` and leaves the first connection intact, and the
//! accessors fail with `NotConnected` until `connect` has succeeded.

use vstd::prelude::*;

use crate::error::Error;

verus! {

/// The shared handle to a database instance: where it points and which
/// logical database it serves. Created exactly once; read-only afterward.
#[derive(Debug)]
pub struct Connection {
    /// The connection target, as handed to `connect`.
    pub uri: String,
    /// The name of the logical database this connection serves.
    pub database_name: String,
}

/// The process context that owns the connection. An application creates
/// one registry, connects it once, and passes it to every operation.
#[derive(Debug)]
pub struct Registry {
    /// The connection, present exactly after the one successful `connect`.
    pub conn: Option<Connection>,
}

impl Registry {
    /// Whether `connect` has succeeded.
    pub open spec fn is_connected(&self) -> bool {
        self.conn is Some
    }

    /// A registry on which no `connect` has happened yet.
    pub fn new() -> (r: Registry)
        ensures
            !r.is_connected(),
    {
        Registry { conn: None }
    }

    /// Performs the one-time initialization. Fails with `AlreadyConnected`
    /// on a second attempt, leaving the first connection untouched.
    pub fn connect(&mut self, uri: &str, database: &str) -> (r: Result<(), Error>)
        ensures
            match r {
                Ok(()) => {
                    &&& !old(self).is_connected()
                    &&& final(self).conn matches Some(c) && c.uri@ == uri@ && c.database_name@
                        == database@
                },
                Err(e) => {
                    &&& e == Error::AlreadyConnected
                    &&& old(self).is_connected()
                    &&& *final(self) == *old(self)
                },
            },
    {
        match &self.conn {
            Some(_) => Err(Error::AlreadyConnected),
            None => {
                self.conn = Some(
                    Connection { uri: uri.to_owned(), database_name: database.to_owned() },
                );
                Ok(())
            },
        }
    }

    /// The cached connection handle, or `NotConnected` before `connect`.
    pub fn client(&self) -> (r: Result<&Connection, Error>)
        ensures
            match r {
                Ok(c) => self.conn == Some(*c),
                Err(e) => e == Error::NotConnected && !self.is_connected(),
            },
    {
        match &self.conn {
            Some(c) => Ok(c),
            None => Err(Error::NotConnected),
        }
    }

    /// The name of the connected database, or `NotConnected` before
    /// `connect`.
    pub fn database(&self) -> (r: Result<&String, Error>)
        ensures
            match r {
                Ok(name) => self.conn matches Some(c) && c.database_name == *name,
                Err(e) => e == Error::NotConnected && !self.is_connected(),
            },
    {
        match &self.conn {
            Some(c) => Ok(&c.database_name),
            None => Err(Error::NotConnected),
        }
    }
}

} // verus!
