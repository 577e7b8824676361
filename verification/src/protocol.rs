//! Messages exchanged with editors over the local socket, and the plain
//! values that describe one hierarchy fetch.
use vstd::prelude::*;

use crate::state::{HierarchyDirection, HierarchyKind, SourceLocation, SymbolIdentity};

verus! {

/// The version every envelope carries.
pub const PROTOCOL_VERSION: u16 = 1;

/// A versioned message, independent of how the socket frames it.
#[derive(Clone, Debug, PartialEq, Eq)]
pub struct Envelope<T> {
    pub version: u16,
    pub request_id: Option<u64>,
    pub payload: T,
}

impl<T> Envelope<T> {
    /// A message of the current protocol version.
    pub fn new(request_id: Option<u64>, payload: T) -> (r: Self)
        ensures
            r.version == PROTOCOL_VERSION,
            r.request_id == request_id,
            r.payload == payload,
    {
        Envelope { version: PROTOCOL_VERSION, request_id, payload }
    }
}

/// What an editor asks of the viewer.
#[derive(Clone, Debug, PartialEq, Eq)]
pub enum IpcRequest {
    FocusSymbol { hierarchy: HierarchyKind, symbol: String, location: Option<SourceLocation> },
}

/// How the viewer answers a request.
#[derive(Clone, Debug, PartialEq, Eq)]
pub enum IpcResponse {
    Accepted,
    Error { message: String },
}

/// What the viewer tells an editor on its own.
#[derive(Clone, Debug, PartialEq, Eq)]
pub enum IpcEvent {
    /// Opens a source position. Line and UTF-16 character are zero-based;
    /// editors convert them to their own coordinates.
    OpenLocation { uri: String, line: u32, character: u32 },
}

/// Which backend answered a hierarchy query.
#[derive(Clone, Copy, Debug, PartialEq, Eq, Structural)]
pub enum FetchSource {
    Lsp,
    TreeSitter,
}

/// Whether a hierarchy query may be answered from the cache.
#[derive(Clone, Copy, Debug, PartialEq, Eq, Structural)]
pub enum CachePolicy {
    UseCache,
    Refresh,
}

impl Default for CachePolicy {
    fn default() -> (r: Self)
        ensures
            r == CachePolicy::UseCache,
    {
        CachePolicy::UseCache
    }
}

/// One lazy expansion of a hierarchy, whatever backend answers it.
#[derive(Clone, Debug, PartialEq, Eq)]
pub struct HierarchyQuery {
    pub symbol: SymbolIdentity,
    pub direction: HierarchyDirection,
}

/// The neighbours one level away, as either backend reports them.
#[derive(Clone, Debug, PartialEq, Eq)]
pub struct HierarchyResponse {
    pub query: HierarchyQuery,
    pub children: Vec<SymbolIdentity>,
    pub source: FetchSource,
}

} // verus!
