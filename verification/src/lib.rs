//! Verified core of the code-relation graph viewer: filtering rules, project
//! configuration, language-server profiles, symbol-name normalisation, graph
//! state and canvas geometry.
use vstd::prelude::*;

pub mod text;
pub mod keys;
pub mod messages;
pub mod input;
pub mod mouse;
pub mod startup;
pub mod frames;
pub mod rpc;
pub mod events;
pub mod normalize;
pub mod remote;
pub mod index;
pub mod export;
pub mod status;
pub mod app;
pub mod loads;
pub mod uri;
pub mod search;
pub mod layout;
pub mod canvas;
pub mod connections;
pub mod filter;
pub mod config;
pub mod profile;
pub mod symbol_names;
pub mod state;
pub mod graph;
pub mod store;
pub mod relation;
pub mod protocol;
pub mod analysis;
pub mod progress;
pub mod sources;

verus! {

} // verus!
