//! Authorization and resource broker core for a multi-tenant backend server.
//!
//! The crate models the decision-making heart of such a server: a session
//! store that issues and expires bearer tokens, a capability guard that
//! evaluates a user's grants against a requested resource, a connection-pool
//! cache keyed by base name, the textual machinery of the query broker
//! (CSV row encoding and SQL script parameter substitution) and the argument
//! assembly of the sandboxed command broker.  Everything here is pure logic
//! over plain values; the surrounding process (HTTP framing, file system and
//! database I/O) supplies inputs and consumes the decisions.

use vstd::prelude::*;

pub mod auth;
pub mod base;
pub mod comm;
pub mod files;
pub mod guard;
pub mod lists;
pub mod persist;
pub mod pooling;
pub mod precept;
pub mod session;
pub mod setup;
pub mod texts;
pub mod utils;

verus! {

/// Options handed in by the embedding program to override the values of the
/// setup file, field by field.  `None` leaves the corresponding setting alone.
pub struct QinServer {
    pub verbose: Option<bool>,
    pub archive: Option<bool>,
    pub server_name: Option<String>,
    pub server_host: Option<String>,
    pub server_port: Option<u64>,
    pub serves_pubs: Option<bool>,
    pub serves_apps: Option<bool>,
    pub serves_dirs: Option<bool>,
    pub serves_cmds: Option<bool>,
    pub serves_regs: Option<bool>,
    pub serves_sqls: Option<bool>,
    pub serves_lizs: Option<bool>,
    pub redirects: Option<Vec<(String, String)>>,
}

/// The failure taxonomy of the broker.  A denied authorization is always
/// reported the same way, whatever grant was missing; a bad request names
/// the offending resource; a server fault carries the backend's message.
#[derive(Debug)]
pub enum SrvError {
    Forbidden(String),
    BadRequest(String),
    Server(String),
}

impl SrvError {
    /// The human-readable text carried by the error.
    pub fn message(&self) -> (r: &String)
        ensures
            r@ == match self {
                SrvError::Forbidden(m) => m@,
                SrvError::BadRequest(m) => m@,
                SrvError::Server(m) => m@,
            },
    {
        match self {
            SrvError::Forbidden(m) => m,
            SrvError::BadRequest(m) => m,
            SrvError::Server(m) => m,
        }
    }
}

} // verus!
