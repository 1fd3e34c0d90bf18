//! A distributed key-value store: clients, storage nodes and a central
//! registry that exchange length-prefixed RPC frames.
pub mod cli;
pub mod client;
pub mod command;
pub mod frame;
pub mod model;
pub mod node;
pub mod registry;
pub mod store;
pub mod text;
