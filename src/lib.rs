//! A remote protocol engine: clients send requests over per-session channels, and a
//! dispatcher answers them against a world of entities, components and assets.

pub mod brp;
pub mod data;
pub mod http;
pub mod names;
pub mod query;
pub mod session;
pub mod world;

use vstd::prelude::*;

pub use session::{RemoteSession, RemoteSessions};

verus! {

/// The text format in which a session exchanges component and asset values.
#[derive(Debug, Clone, Copy, PartialEq, Eq, Structural)]
pub enum RemoteSerializationFormat {
    Json,
    Json5,
    Ron,
}

/// The label of the stage, run once per tick before the rest of the tick's work,
/// in which the remote sessions are processed.
#[derive(Debug, Hash, PartialEq, Eq, Clone, Copy, Structural)]
pub struct Remote;

/// Sets up remote access: creates the session registry that transports open their
/// sessions in and that the dispatcher drains once per tick.
pub struct RemotePlugin;

impl RemotePlugin {
    /// Creates the empty session registry.
    pub fn build(&self) -> (r: RemoteSessions)
        ensures
            r.wf(),
            r.sessions@.len() == 0,
    {
        RemoteSessions::new()
    }
}

} // verus!
