//! Browser Bridge: a hub between a browser extension and the clients that send it
//! commands, the client's side of the connection, and recipes for sites.
//!
//! Nothing here reads, writes or waits. The hub, a session, a connection and a
//! recipe are each a state and a step: they are told what has happened and say
//! what is to be done next. Every step is stated exactly, over the mathematical
//! form of the state, and what holds over many steps is proved as a law.
use vstd::prelude::*;

pub mod text;
pub mod names;
pub mod number;
pub mod encode;
pub mod json;
pub mod wire;
pub mod hub;
pub mod routing;
pub mod session;
pub mod settings;
pub mod transport;
pub mod target;
pub mod params;
pub mod cli;
pub mod mcp;
pub mod recipes;

verus! {

} // verus!
