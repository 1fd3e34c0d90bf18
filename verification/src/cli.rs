//! The command line: which of the three programs to run, and with what.
use vstd::prelude::*;

verus! {

/// The port a registry listens on unless told otherwise.
pub const DEFAULT_REGISTRY_PORT: u16 = 3000;

/// The program to run.
pub enum Commands {
    /// Start a registry server for service discovery.
    Registry { port: u16 },
    /// Start a key-value node with identifier `id` on `port`, registering with
    /// the registry at `registry`.
    Node { id: String, port: u16, registry: String },
    /// Run the interactive client against the registry at `registry`.
    Client { registry: String },
}

/// The parsed command line.
pub struct Cli {
    pub command: Commands,
}

/// The registry address that nodes and clients use unless told otherwise.
pub fn default_registry_address() -> (r: String)
    ensures
        r@ == "127.0.0.1:3000"@,
{
    String::from_str("127.0.0.1:3000")
}

} // verus!
