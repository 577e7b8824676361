//! Plain values shared by the graph, the fetchers and the user interface:
//! node ids, source locations, symbol identities and the viewport.
use vstd::prelude::*;

use crate::text::str_eq;

verus! {

/// One occurrence of a symbol on the canvas.
///
/// A symbol may appear several times on the canvas; every occurrence gets an
/// id of its own, so this is no semantic identity.
#[derive(Clone, Copy, Debug, PartialEq, Eq, Hash, Structural)]
pub struct NodeId(pub u64);

/// Where a symbol is defined: a document URI and an optional zero-based
/// line and character.
#[derive(Clone, Debug, PartialEq, Eq, Hash)]
pub struct SourceLocation {
    pub uri: String,
    pub line: Option<u32>,
    pub character: Option<u32>,
}

/// A source location with its URI taken as text.
pub struct LocationView {
    pub uri: Seq<char>,
    pub line: Option<u32>,
    pub character: Option<u32>,
}

impl View for SourceLocation {
    type V = LocationView;

    open spec fn view(&self) -> LocationView {
        LocationView { uri: self.uri@, line: self.line, character: self.character }
    }
}

/// The view of an optional location.
pub open spec fn location_view(l: Option<SourceLocation>) -> Option<LocationView> {
    match l {
        Some(x) => Some(x@),
        None => None,
    }
}

/// A copy of a location.
pub fn copy_location(l: &SourceLocation) -> (r: SourceLocation)
    ensures
        r@ == l@,
{
    SourceLocation { uri: l.uri.clone(), line: l.line, character: l.character }
}

/// A copy of an optional location.
pub fn copy_optional_location(l: &Option<SourceLocation>) -> (r: Option<SourceLocation>)
    ensures
        location_view(r) == location_view(*l),
{
    match l {
        Some(x) => Some(copy_location(x)),
        None => None,
    }
}

/// Whether two locations are the same place.
pub fn same_location(a: &SourceLocation, b: &SourceLocation) -> (r: bool)
    ensures
        r == (a@ == b@),
{
    str_eq(a.uri.as_str(), b.uri.as_str()) && a.line == b.line && a.character == b.character
}

/// Which relation a hierarchy follows.
#[derive(Clone, Copy, Debug, PartialEq, Eq, Hash, Structural)]
pub enum HierarchyKind {
    Call,
    Type,
}

/// Stable semantic identity shared by cache entries and by the occurrences of
/// one symbol on the canvas.
#[derive(Clone, Debug, PartialEq, Eq, Hash)]
pub struct SymbolIdentity {
    pub symbol: String,
    pub kind: HierarchyKind,
    pub location: Option<SourceLocation>,
}

/// A symbol identity with its text taken as characters.
pub struct IdentityView {
    pub symbol: Seq<char>,
    pub kind: HierarchyKind,
    pub location: Option<LocationView>,
}

impl View for SymbolIdentity {
    type V = IdentityView;

    open spec fn view(&self) -> IdentityView {
        IdentityView {
            symbol: self.symbol@,
            kind: self.kind,
            location: location_view(self.location),
        }
    }
}

/// A copy of an identity.
pub fn copy_identity(identity: &SymbolIdentity) -> (r: SymbolIdentity)
    ensures
        r@ == identity@,
{
    SymbolIdentity {
        symbol: identity.symbol.clone(),
        kind: identity.kind,
        location: copy_optional_location(&identity.location),
    }
}

/// The side of a node that a hierarchy branch grows from.
#[derive(Clone, Copy, Debug, PartialEq, Eq, Hash, Structural)]
pub enum HierarchyDirection {
    Incoming,
    Outgoing,
}

/// The offset from unbounded canvas coordinates to terminal coordinates.
///
/// It holds no terminal geometry: layout is a view concern, and the state
/// stays usable without a terminal.
#[derive(Clone, Copy, Debug, PartialEq, Eq, Structural)]
pub struct Viewport {
    pub offset_x: i32,
    pub offset_y: i32,
}

impl Default for Viewport {
    fn default() -> (r: Self)
        ensures
            r.offset_x == 0 && r.offset_y == 0,
    {
        Viewport { offset_x: 0, offset_y: 0 }
    }
}

/// How far the neighbours of a branch have been fetched.
#[derive(Clone, Copy, Debug, PartialEq, Eq, Structural)]
pub enum LoadState {
    NotLoaded,
    Loading,
    Loaded,
    Failed,
}

impl Default for LoadState {
    fn default() -> (r: Self)
        ensures
            r == LoadState::NotLoaded,
    {
        LoadState::NotLoaded
    }
}

} // verus!
