//! The syntax index of a workspace: the definitions the parser found, the
//! calls and type relations between them bound to definitions by name, and
//! the hierarchy queries it answers.
use vstd::prelude::*;

use crate::normalize::{first_occurrences, opt_text, Position, Range, WorkspaceSymbolMatch};
use crate::protocol::{FetchSource, HierarchyQuery, HierarchyResponse};
use crate::sources::{display_location, location_text, terminal_name, terminal_name_spec};
use crate::state::{copy_identity, location_view, HierarchyDirection, HierarchyKind, IdentityView, LocationView, SourceLocation, SymbolIdentity};
use crate::text::{append_text, chars_of, debug_text, str_debug, str_eq, string_of};
use crate::uri::{file_path_of_uri, uri_file_path};

verus! {

/// A definition the parser found: its identity, its bare name, the type or
/// module it belongs to, its symbol kind, its file and the bytes of its
/// scope.
#[derive(Clone, Debug)]
pub struct IndexedSymbol {
    pub identity: SymbolIdentity,
    pub simple_name: String,
    pub container_name: Option<String>,
    pub symbol_kind: u32,
    pub path: String,
    pub scope_start: usize,
    pub scope_end: usize,
}

/// `p` holds at `i` in `0..n` and nowhere else there.
pub open spec fn only_at(n: int, p: spec_fn(int) -> bool, i: int) -> bool {
    0 <= i < n && p(i) && forall|j: int| 0 <= j < n && #[trigger] p(j) ==> j == i
}

/// The only index in `0..n` where `p` holds, if there is exactly one.
pub open spec fn sole(n: int, p: spec_fn(int) -> bool) -> Option<int> {
    if exists|i: int| #[trigger] only_at(n, p, i) {
        Some(choose|i: int| #[trigger] only_at(n, p, i))
    } else {
        None
    }
}

/// Symbol `i` is a definition of that kind and bare name.
pub open spec fn named_like(symbols: Seq<IndexedSymbol>, kind: HierarchyKind, name: Seq<char>) -> spec_fn(int) -> bool {
    |i: int| symbols[i].identity.kind == kind && symbols[i].simple_name@ == name
}

/// Symbol `i` is such a definition in the container `c`.
pub open spec fn in_container(symbols: Seq<IndexedSymbol>, kind: HierarchyKind, name: Seq<char>, c: Option<Seq<char>>) -> spec_fn(int) -> bool {
    |i: int| symbols[i].identity.kind == kind && symbols[i].simple_name@ == name && c is Some && opt_text(symbols[i].container_name) == c
}

/// Symbol `i` is such a definition in the file `path`.
pub open spec fn in_file(symbols: Seq<IndexedSymbol>, kind: HierarchyKind, name: Seq<char>, path: Seq<char>) -> spec_fn(int) -> bool {
    |i: int| symbols[i].identity.kind == kind && symbols[i].simple_name@ == name && symbols[i].path@ == path
}

/// The definition a name refers to: the only one in the preferred
/// container, else the only one in the same file, else the only one at all;
/// `None` when the name stays ambiguous or unknown.
pub open spec fn resolved_in(
    symbols: Seq<IndexedSymbol>,
    name: Seq<char>,
    kind: HierarchyKind,
    path: Seq<char>,
    container: Option<Seq<char>>,
) -> Option<int> {
    let n = symbols.len() as int;
    let by_container = if container is Some {
        sole(n, in_container(symbols, kind, name, container))
    } else {
        None
    };
    match by_container {
        Some(i) => Some(i),
        None => match sole(n, in_file(symbols, kind, name, path)) {
            Some(i) => Some(i),
            None => sole(n, named_like(symbols, kind, name)),
        },
    }
}

/// Where `p` holds: the first index and whether there is a second.
fn find_sole(symbols: &Vec<IndexedSymbol>, Ghost(p): Ghost<spec_fn(int) -> bool>, marks: &Vec<bool>) -> (r: Option<usize>)
    requires
        marks@.len() == symbols@.len(),
        forall|i: int| 0 <= i < marks@.len() ==> marks@[i] == #[trigger] p(i),
    ensures
        match r {
            Some(i) => sole(symbols@.len() as int, p) == Some(i as int),
            None => sole(symbols@.len() as int, p) is None,
        },
{
    let n = marks.len();
    let mut found: Option<usize> = None;
    let mut i: usize = 0;
    while i < n
        invariant
            i <= n == marks@.len() == symbols@.len(),
            forall|k: int| 0 <= k < marks@.len() ==> marks@[k] == #[trigger] p(k),
            match found {
                None => forall|k: int| 0 <= k < i ==> !#[trigger] p(k),
                Some(f) => f < i && p(f as int) && forall|k: int| 0 <= k < i && #[trigger] p(k) ==> k == f,
            },
        decreases n - i,
    {
        if marks[i] {
            match found {
                Some(f) => {
                    proof {
                        if exists|x: int| #[trigger] only_at(n as int, p, x) {
                            let x = choose|x: int| #[trigger] only_at(n as int, p, x);
                            assert(p(f as int) && p(i as int));
                            assert(f as int == x && i as int == x);
                        }
                    }
                    return None;
                },
                None => {
                    found = Some(i);
                },
            }
        }
        i = i + 1;
    }
    match found {
        None => {
            assert(!exists|x: int| #[trigger] only_at(n as int, p, x));
            None
        },
        Some(f) => {
            proof {
                assert(only_at(n as int, p, f as int));
                let x = choose|x: int| #[trigger] only_at(n as int, p, x);
                assert(p(x));
                assert(x == f);
            }
            Some(f)
        },
    }
}

/// The definition a name refers to (see `resolved_in`).
pub fn resolve_symbol(
    symbols: &Vec<IndexedSymbol>,
    simple_name: &str,
    kind: HierarchyKind,
    source_path: &str,
    preferred_container: Option<&str>,
) -> (r: Option<usize>)
    ensures
        match r {
            Some(i) => resolved_in(
                symbols@,
                simple_name@,
                kind,
                source_path@,
                match preferred_container {
                    Some(c) => Some(c@),
                    None => None,
                },
            ) == Some(i as int),
            None => resolved_in(
                symbols@,
                simple_name@,
                kind,
                source_path@,
                match preferred_container {
                    Some(c) => Some(c@),
                    None => None,
                },
            ) is None,
        },
{
    let ghost s = symbols@;
    let ghost c = match preferred_container {
        Some(c) => Some(c@),
        None => None,
    };
    let mut candidates: Vec<bool> = Vec::new();
    let mut in_container_marks: Vec<bool> = Vec::new();
    let mut in_file_marks: Vec<bool> = Vec::new();
    let mut i: usize = 0;
    while i < symbols.len()
        invariant
            i <= s.len(),
            s == symbols@,
            c == match preferred_container {
                Some(c) => Some(c@),
                None => None::<Seq<char>>,
            },
            candidates@.len() == i && in_container_marks@.len() == i && in_file_marks@.len() == i,
            forall|k: int| 0 <= k < i ==> candidates@[k] == #[trigger] named_like(s, kind, simple_name@)(k),
            forall|k: int| 0 <= k < i ==> in_container_marks@[k] == #[trigger] in_container(s, kind, simple_name@, c)(k),
            forall|k: int| 0 <= k < i ==> in_file_marks@[k] == #[trigger] in_file(s, kind, simple_name@, source_path@)(k),
        decreases s.len() - i,
    {
        let sym = &symbols[i];
        let is_candidate = sym.identity.kind == kind && str_eq(sym.simple_name.as_str(), simple_name);
        let same_container = match (&sym.container_name, preferred_container) {
            (Some(a), Some(b)) => str_eq(a.as_str(), b),
            _ => false,
        };
        candidates.push(is_candidate);
        in_container_marks.push(is_candidate && same_container);
        in_file_marks.push(is_candidate && str_eq(sym.path.as_str(), source_path));
        i = i + 1;
    }
    if preferred_container.is_some() {
        match find_sole(symbols, Ghost(in_container(s, kind, simple_name@, c)), &in_container_marks) {
            Some(k) => {
                return Some(k);
            },
            None => {},
        }
    }
    match find_sole(symbols, Ghost(in_file(s, kind, simple_name@, source_path@)), &in_file_marks) {
        Some(k) => {
            return Some(k);
        },
        None => {},
    }
    find_sole(symbols, Ghost(named_like(s, kind, simple_name@)), &candidates)
}

/// A call found in a definition's scope: the definition that makes it, the
/// bare name it calls, its file and the owner's container.
#[derive(Clone, Debug)]
pub struct PendingCall {
    pub owner: SymbolIdentity,
    pub target_name: String,
    pub path: String,
    pub preferred_container: Option<String>,
}

/// A type relation found in a file: the bare names of the parent and the
/// child type.
#[derive(Clone, Debug)]
pub struct PendingTypeRelation {
    pub parent_name: String,
    pub child_name: String,
    pub path: String,
}

/// A relation as the identities of its ends.
pub type EdgeView = (IdentityView, IdentityView);

/// The relations of the first `k` calls that resolve, in order.
pub open spec fn call_edges(symbols: Seq<IndexedSymbol>, calls: Seq<PendingCall>, k: int) -> Seq<EdgeView>
    decreases k,
{
    if k <= 0 {
        Seq::empty()
    } else {
        let c = calls[k - 1];
        let prev = call_edges(symbols, calls, k - 1);
        match resolved_in(symbols, c.target_name@, HierarchyKind::Call, c.path@, opt_text(c.preferred_container)) {
            Some(i) => prev.push((c.owner@, symbols[i].identity@)),
            None => prev,
        }
    }
}

/// The relations of the first `k` type relations whose both ends resolve,
/// from parent to child, in order.
pub open spec fn type_edges(symbols: Seq<IndexedSymbol>, relations: Seq<PendingTypeRelation>, k: int) -> Seq<EdgeView>
    decreases k,
{
    if k <= 0 {
        Seq::empty()
    } else {
        let t = relations[k - 1];
        let prev = type_edges(symbols, relations, k - 1);
        match (
            resolved_in(symbols, t.parent_name@, HierarchyKind::Type, t.path@, None),
            resolved_in(symbols, t.child_name@, HierarchyKind::Type, t.path@, None),
        ) {
            (Some(p), Some(c)) => prev.push((symbols[p].identity@, symbols[c].identity@)),
            _ => prev,
        }
    }
}

/// The index of a workspace: its definitions and the relations found
/// between them, each from caller to callee or from parent to child type.
pub struct ProjectIndex {
    pub symbols: Vec<IndexedSymbol>,
    pub edges: Vec<(SymbolIdentity, SymbolIdentity)>,
}

/// The relations as identities.
pub open spec fn edge_views(edges: Seq<(SymbolIdentity, SymbolIdentity)>) -> Seq<EdgeView> {
    edges.map_values(|e: (SymbolIdentity, SymbolIdentity)| (e.0@, e.1@))
}

impl ProjectIndex {
    /// Binds the calls and type relations to definitions by name (see
    /// `resolved_in`), calls first; those that do not resolve are left out.
    pub fn link(symbols: Vec<IndexedSymbol>, calls: &Vec<PendingCall>, relations: &Vec<PendingTypeRelation>) -> (r: Self)
        ensures
            r.symbols@ == symbols@,
            edge_views(r.edges@) == call_edges(symbols@, calls@, calls@.len() as int) + type_edges(
                symbols@,
                relations@,
                relations@.len() as int,
            ),
    {
        let mut edges: Vec<(SymbolIdentity, SymbolIdentity)> = Vec::new();
        let mut k: usize = 0;
        while k < calls.len()
            invariant
                k <= calls@.len(),
                edge_views(edges@) == call_edges(symbols@, calls@, k as int),
            decreases calls@.len() - k,
        {
            let c = &calls[k];
            let container: Option<&str> = match &c.preferred_container {
                Some(x) => Some(x.as_str()),
                None => None,
            };
            match resolve_symbol(&symbols, c.target_name.as_str(), HierarchyKind::Call, c.path.as_str(), container) {
                Some(i) => {
                    let e = (copy_identity(&c.owner), copy_identity(&symbols[i].identity));
                    let ghost before = edges@;
                    edges.push(e);
                    assert(edge_views(edges@) =~= edge_views(before).push((e.0@, e.1@)));
                },
                None => {},
            }
            k = k + 1;
        }
        let ghost calls_done = edge_views(edges@);
        let mut k: usize = 0;
        while k < relations.len()
            invariant
                k <= relations@.len(),
                calls_done == call_edges(symbols@, calls@, calls@.len() as int),
                edge_views(edges@) == calls_done + type_edges(symbols@, relations@, k as int),
            decreases relations@.len() - k,
        {
            let t = &relations[k];
            let p = resolve_symbol(&symbols, t.parent_name.as_str(), HierarchyKind::Type, t.path.as_str(), None);
            let c = resolve_symbol(&symbols, t.child_name.as_str(), HierarchyKind::Type, t.path.as_str(), None);
            match (p, c) {
                (Some(p), Some(c)) => {
                    let e = (copy_identity(&symbols[p].identity), copy_identity(&symbols[c].identity));
                    let ghost before = edges@;
                    edges.push(e);
                    assert(edge_views(edges@) =~= edge_views(before).push((e.0@, e.1@)));
                },
                _ => {},
            }
            k = k + 1;
        }
        ProjectIndex { symbols, edges }
    }
}

/// The other ends of the relations at `s` on one side, in order, with
/// repeats: callees or subtypes going out, callers or supertypes coming in.
pub open spec fn ends(edges: Seq<EdgeView>, s: IdentityView, direction: HierarchyDirection) -> Seq<IdentityView>
    decreases edges.len(),
{
    if edges.len() == 0 {
        Seq::empty()
    } else {
        let e = edges.last();
        let prev = ends(edges.drop_last(), s, direction);
        match direction {
            HierarchyDirection::Outgoing => if e.0 == s {
                prev.push(e.1)
            } else {
                prev
            },
            HierarchyDirection::Incoming => if e.1 == s {
                prev.push(e.0)
            } else {
                prev
            },
        }
    }
}

/// The neighbours of `s` on one side, each once where it first occurs.
pub open spec fn neighbours(edges: Seq<EdgeView>, s: IdentityView, direction: HierarchyDirection) -> Seq<IdentityView> {
    first_occurrences(ends(edges, s, direction))
}

/// Whether two identities are the same.
fn same_identity(a: &SymbolIdentity, b: &SymbolIdentity) -> (r: bool)
    ensures
        r == (a@ == b@),
{
    if !str_eq(a.symbol.as_str(), b.symbol.as_str()) || a.kind != b.kind {
        return false;
    }
    match (&a.location, &b.location) {
        (Some(x), Some(y)) => str_eq(x.uri.as_str(), y.uri.as_str()) && x.line == y.line && x.character == y.character,
        (None, None) => true,
        _ => false,
    }
}

/// The identities of a list.
pub open spec fn identity_views(v: Seq<SymbolIdentity>) -> Seq<IdentityView> {
    v.map_values(|i: SymbolIdentity| i@)
}

impl ProjectIndex {
    /// The neighbours of a symbol on one side, each once.
    pub fn neighbours_of(&self, symbol: &SymbolIdentity, direction: HierarchyDirection) -> (r: Vec<SymbolIdentity>)
        ensures
            identity_views(r@) == neighbours(edge_views(self.edges@), symbol@, direction),
    {
        let ghost all = edge_views(self.edges@);
        let mut out: Vec<SymbolIdentity> = Vec::new();
        let mut k: usize = 0;
        while k < self.edges.len()
            invariant
                k <= self.edges@.len(),
                all == edge_views(self.edges@),
                identity_views(out@) == first_occurrences(ends(all.take(k as int), symbol@, direction)),
            decreases self.edges@.len() - k,
        {
            let (a, b) = (&self.edges[k].0, &self.edges[k].1);
            proof {
                assert(all.take(k + 1).drop_last() =~= all.take(k as int));
                assert(all.take(k + 1).last() == (a@, b@));
            }
            let end = match direction {
                HierarchyDirection::Outgoing => if same_identity(a, symbol) {
                    Some(b)
                } else {
                    None
                },
                HierarchyDirection::Incoming => if same_identity(b, symbol) {
                    Some(a)
                } else {
                    None
                },
            };
            match end {
                Some(x) => {
                    let mut seen = false;
                    let mut j: usize = 0;
                    while j < out.len()
                        invariant
                            j <= out@.len(),
                            seen == exists|q: int| 0 <= q < j && out@[q]@ == x@,
                        decreases out@.len() - j,
                    {
                        if same_identity(&out[j], x) {
                            seen = true;
                        }
                        j = j + 1;
                    }
                    proof {
                        let before = ends(all.take(k as int), symbol@, direction);
                        assert(ends(all.take(k + 1), symbol@, direction) == before.push(x@));
                        assert(before.push(x@).drop_last() =~= before);
                        if seen {
                            let q = choose|q: int| 0 <= q < out@.len() && out@[q]@ == x@;
                            assert(identity_views(out@)[q] == x@);
                        } else {
                            assert forall|q: int| 0 <= q < out@.len() implies identity_views(out@)[q] != x@ by {
                                assert(identity_views(out@)[q] == out@[q]@);
                            }
                        }
                    }
                    if !seen {
                        let c = copy_identity(x);
                        let ghost before_out = out@;
                        out.push(c);
                        assert(identity_views(out@) =~= identity_views(before_out).push(c@));
                    }
                },
                None => {
                    assert(ends(all.take(k + 1), symbol@, direction) == ends(all.take(k as int), symbol@, direction));
                },
            }
            k = k + 1;
        }
        assert(all.take(all.len() as int) =~= all);
        out
    }
}

/// The first index in `0..n` where `p` holds.
pub open spec fn first_where(n: int, p: spec_fn(int) -> bool) -> Option<int>
    decreases n,
{
    if n <= 0 {
        None
    } else {
        match first_where(n - 1, p) {
            Some(i) => Some(i),
            None => if p(n - 1) {
                Some(n - 1)
            } else {
                None
            },
        }
    }
}

/// Symbol `i` is of that kind, at exactly that location.
pub open spec fn at_location(symbols: Seq<IndexedSymbol>, kind: HierarchyKind, l: LocationView) -> spec_fn(int) -> bool {
    |i: int| symbols[i].identity.kind == kind && symbols[i].identity@.location == Some(l)
}

/// Symbol `i` answers a query without a location: of its kind, with its
/// name or its bare name.
pub open spec fn answers(symbols: Seq<IndexedSymbol>, q: IdentityView) -> spec_fn(int) -> bool {
    |i: int|
        symbols[i].identity.kind == q.kind && (symbols[i].identity.symbol@ == q.symbol || symbols[i].simple_name@
            == terminal_name_spec(q.symbol))
}

/// The definition a hierarchy query is about: the first at its location,
/// or, without one, the only one of its name; else why there is none.
pub open spec fn query_resolution(symbols: Seq<IndexedSymbol>, q: IdentityView) -> Result<IdentityView, Seq<char>> {
    let n = symbols.len() as int;
    match q.location {
        Some(l) => match first_where(n, at_location(symbols, q.kind, l)) {
            Some(i) => Ok(symbols[i].identity@),
            None => Err("Tree-sitter index has no symbol at "@ + location_text(l)),
        },
        None => match sole(n, answers(symbols, q)) {
            Some(i) => Ok(symbols[i].identity@),
            None => if exists|i: int| 0 <= i < n && #[trigger] answers(symbols, q)(i) {
                Err("symbol "@ + str_debug(q.symbol) + " is ambiguous; add it through ac/at to select an exact location"@)
            } else {
                Err("could not resolve "@ + str_debug(q.symbol) + " in the Tree-sitter project index"@)
            },
        },
    }
}

/// Whether two locations are the same.
fn same_location(a: &SourceLocation, b: &SourceLocation) -> (r: bool)
    ensures
        r == (a@ == b@),
{
    str_eq(a.uri.as_str(), b.uri.as_str()) && a.line == b.line && a.character == b.character
}

/// The first index where the marks hold.
fn first_marked(marks: &Vec<bool>, Ghost(p): Ghost<spec_fn(int) -> bool>) -> (r: Option<usize>)
    requires
        forall|i: int| 0 <= i < marks@.len() ==> marks@[i] == #[trigger] p(i),
    ensures
        match r {
            Some(i) => first_where(marks@.len() as int, p) == Some(i as int) && i < marks@.len(),
            None => first_where(marks@.len() as int, p) is None,
        },
{
    let mut i: usize = 0;
    while i < marks.len()
        invariant
            i <= marks@.len(),
            forall|k: int| 0 <= k < marks@.len() ==> marks@[k] == #[trigger] p(k),
            first_where(i as int, p) is None,
        decreases marks@.len() - i,
    {
        if marks[i] {
            proof {
                lemma_first_where_extends(p, i as int + 1, i as int, marks@.len() as int);
            }
            return Some(i);
        }
        i = i + 1;
    }
    None
}

/// A first index found below `m` stays first below any `n >= m`.
proof fn lemma_first_where_extends(p: spec_fn(int) -> bool, m: int, i: int, n: int)
    requires
        0 <= m <= n,
        first_where(m, p) == Some(i),
    ensures
        first_where(n, p) == Some(i),
    decreases n - m,
{
    if m < n {
        lemma_first_where_extends(p, m, i, n - 1);
    }
}

impl ProjectIndex {
    /// The definition a hierarchy query is about (see `query_resolution`).
    pub fn resolve_query_symbol(&self, query: &SymbolIdentity) -> (r: Result<SymbolIdentity, String>)
        ensures
            match r {
                Ok(s) => query_resolution(self.symbols@, query@) == Ok::<IdentityView, Seq<char>>(s@),
                Err(e) => query_resolution(self.symbols@, query@) == Err::<IdentityView, Seq<char>>(e@),
            },
    {
        let ghost s = self.symbols@;
        match &query.location {
            Some(location) => {
                let mut marks: Vec<bool> = Vec::new();
                let mut i: usize = 0;
                while i < self.symbols.len()
                    invariant
                        i <= s.len(),
                        s == self.symbols@,
                        query.location == Some(*location),
                        marks@.len() == i,
                        forall|k: int| 0 <= k < i ==> marks@[k] == #[trigger] at_location(s, query.kind, location@)(k),
                    decreases s.len() - i,
                {
                    let sym = &self.symbols[i].identity;
                    let m = sym.kind == query.kind && match &sym.location {
                        Some(l) => same_location(l, location),
                        None => false,
                    };
                    marks.push(m);
                    i = i + 1;
                }
                match first_marked(&marks, Ghost(at_location(s, query.kind, location@))) {
                    Some(k) => Ok(copy_identity(&self.symbols[k].identity)),
                    None => {
                        let shown = display_location(location);
                        Err(append_text(String::from_str("Tree-sitter index has no symbol at "), shown.as_str()))
                    },
                }
            },
            None => {
                let simple = terminal_name(query.symbol.as_str());
                let mut marks: Vec<bool> = Vec::new();
                let mut any = false;
                let mut i: usize = 0;
                while i < self.symbols.len()
                    invariant
                        i <= s.len(),
                        s == self.symbols@,
                        simple@ == terminal_name_spec(query.symbol@),
                        query.location is None,
                        marks@.len() == i,
                        forall|k: int| 0 <= k < i ==> marks@[k] == #[trigger] answers(s, query@)(k),
                        any == exists|k: int| 0 <= k < i && #[trigger] answers(s, query@)(k),
                    decreases s.len() - i,
                {
                    let sym = &self.symbols[i];
                    let m = sym.identity.kind == query.kind && (str_eq(sym.identity.symbol.as_str(), query.symbol.as_str())
                        || str_eq(sym.simple_name.as_str(), simple.as_str()));
                    marks.push(m);
                    proof {
                        assert(marks@[i as int] == m);
                        if m {
                            assert(answers(s, query@)(i as int));
                        } else if exists|k: int| 0 <= k < i + 1 && #[trigger] answers(s, query@)(k) {
                            let k = choose|k: int| 0 <= k < i + 1 && #[trigger] answers(s, query@)(k);
                            assert(k < i);
                        }
                    }
                    if m {
                        any = true;
                    }
                    i = i + 1;
                }
                match find_sole(&self.symbols, Ghost(answers(s, query@)), &marks) {
                    Some(k) => Ok(copy_identity(&self.symbols[k].identity)),
                    None => {
                        let shown = debug_text(query.symbol.as_str());
                        if any {
                            let t = append_text(String::from_str("symbol "), shown.as_str());
                            Err(append_text(t, " is ambiguous; add it through ac/at to select an exact location"))
                        } else {
                            let t = append_text(String::from_str("could not resolve "), shown.as_str());
                            Err(append_text(t, " in the Tree-sitter project index"))
                        }
                    },
                }
            },
        }
    }

    /// Answers a hierarchy query: the definition it is about, with its
    /// neighbours on the side asked for, each once.
    pub fn hierarchy(&self, query: HierarchyQuery) -> (r: Result<HierarchyResponse, String>)
        ensures
            match query_resolution(self.symbols@, query.symbol@) {
                Ok(s) => r matches Ok(resp) && resp.query.symbol@ == s && resp.query.direction == query.direction
                    && identity_views(resp.children@) == neighbours(edge_views(self.edges@), s, query.direction)
                    && resp.source == FetchSource::TreeSitter,
                Err(e) => r matches Err(m) && m@ == e,
            },
    {
        match self.resolve_query_symbol(&query.symbol) {
            Ok(symbol) => {
                let children = self.neighbours_of(&symbol, query.direction);
                Ok(
                    HierarchyResponse {
                        query: HierarchyQuery { symbol, direction: query.direction },
                        children,
                        source: FetchSource::TreeSitter,
                    },
                )
            },
            Err(e) => Err(e),
        }
    }
}

/// The workspace symbol a definition is listed as, if its location is a
/// URL with an exact position: a range empty at that position.
pub open spec fn listed_as(sym: IndexedSymbol) -> Option<(Seq<char>, u32, Option<Seq<char>>, Seq<char>, Option<Range>)> {
    match sym.identity.location {
        Some(l) => match (uri_file_path(l.uri@), l.line, l.character) {
            (Some(_), Some(line), Some(character)) => {
                let p = Position { line, character };
                Some((sym.identity.symbol@, sym.symbol_kind, opt_text(sym.container_name), l.uri@, Some(Range { start: p, end: p })))
            },
            _ => None,
        },
        None => None,
    }
}

/// The workspace symbols of the first `k` definitions, in order.
pub open spec fn listed_symbols(symbols: Seq<IndexedSymbol>, k: int) -> Seq<(Seq<char>, u32, Option<Seq<char>>, Seq<char>, Option<Range>)>
    decreases k,
{
    if k <= 0 {
        Seq::empty()
    } else {
        let prev = listed_symbols(symbols, k - 1);
        match listed_as(symbols[k - 1]) {
            Some(m) => prev.push(m),
            None => prev,
        }
    }
}

/// A copy of a text.
fn copy_text(s: &String) -> (r: String)
    ensures
        r@ == s@,
{
    let chars = chars_of(s.as_str());
    string_of(chars.as_slice(), 0, chars.len())
}

impl ProjectIndex {
    /// Every definition with a position as a workspace symbol, in order.
    pub fn workspace_symbols(&self) -> (r: Vec<WorkspaceSymbolMatch>)
        ensures
            crate::normalize::match_views(r@) == listed_symbols(self.symbols@, self.symbols@.len() as int),
    {
        let mut out: Vec<WorkspaceSymbolMatch> = Vec::new();
        let mut i: usize = 0;
        while i < self.symbols.len()
            invariant
                i <= self.symbols@.len(),
                crate::normalize::match_views(out@) == listed_symbols(self.symbols@, i as int),
            decreases self.symbols@.len() - i,
        {
            let sym = &self.symbols[i];
            let listed = match &sym.identity.location {
                Some(l) => match (file_path_of_uri(l.uri.as_str()), l.line, l.character) {
                    (Some(_), Some(line), Some(character)) => {
                        let p = Position { line, character };
                        Some(
                            WorkspaceSymbolMatch {
                                name: copy_text(&sym.identity.symbol),
                                kind: sym.symbol_kind,
                                container_name: match &sym.container_name {
                                    Some(c) => Some(copy_text(c)),
                                    None => None,
                                },
                                uri: copy_text(&l.uri),
                                range: Some(Range { start: p, end: p }),
                            },
                        )
                    },
                    _ => None,
                },
                None => None,
            };
            match listed {
                Some(m) => {
                    let ghost before = out@;
                    out.push(m);
                    assert(crate::normalize::match_views(out@) =~= crate::normalize::match_views(before).push(
                        crate::normalize::match_view(m),
                    ));
                },
                None => {},
            }
            i = i + 1;
        }
        out
    }
}

/// Definition `i` is a function whose scope holds the bytes `start..end`.
pub open spec fn encloses(symbols: Seq<IndexedSymbol>, i: int, start: int, end: int) -> bool {
    &&& 0 <= i < symbols.len()
    &&& symbols[i].identity.kind == HierarchyKind::Call
    &&& symbols[i].scope_start <= start
    &&& symbols[i].scope_end >= end
}

/// The length of a definition's scope.
pub open spec fn scope_len(s: IndexedSymbol) -> int {
    if s.scope_end >= s.scope_start {
        s.scope_end - s.scope_start
    } else {
        0
    }
}

/// Definition `i` is the first of the narrowest functions holding the bytes.
pub open spec fn owns(symbols: Seq<IndexedSymbol>, i: int, start: int, end: int) -> bool {
    &&& encloses(symbols, i, start, end)
    &&& forall|j: int| #[trigger] encloses(symbols, j, start, end) ==> scope_len(symbols[i]) <= scope_len(symbols[j])
    &&& forall|j: int| 0 <= j < i && #[trigger] encloses(symbols, j, start, end) ==> scope_len(symbols[i]) < scope_len(symbols[j])
}

/// The function a call at the bytes `start..end` is made from: the
/// narrowest function of the file whose scope holds it, the first of equal
/// ones.
pub fn call_owner(file_symbols: &Vec<IndexedSymbol>, start: usize, end: usize) -> (r: Option<usize>)
    ensures
        match r {
            Some(i) => owns(file_symbols@, i as int, start as int, end as int),
            None => forall|i: int| !#[trigger] encloses(file_symbols@, i, start as int, end as int),
        },
{
    let ghost s = file_symbols@;
    let mut best: Option<usize> = None;
    let mut i: usize = 0;
    while i < file_symbols.len()
        invariant
            i <= s.len(),
            s == file_symbols@,
            match best {
                None => forall|j: int| 0 <= j < i ==> !#[trigger] encloses(s, j, start as int, end as int),
                Some(b) => {
                    &&& b < i
                    &&& encloses(s, b as int, start as int, end as int)
                    &&& forall|j: int| 0 <= j < i && #[trigger] encloses(s, j, start as int, end as int) ==> scope_len(s[b as int]) <= scope_len(s[j])
                    &&& forall|j: int| 0 <= j < b && #[trigger] encloses(s, j, start as int, end as int) ==> scope_len(s[b as int]) < scope_len(s[j])
                },
            },
        decreases s.len() - i,
    {
        let sym = &file_symbols[i];
        if sym.identity.kind == HierarchyKind::Call && sym.scope_start <= start && sym.scope_end >= end {
            let len = sym.scope_end.saturating_sub(sym.scope_start);
            match best {
                None => {
                    best = Some(i);
                },
                Some(b) => {
                    let blen = file_symbols[b].scope_end.saturating_sub(file_symbols[b].scope_start);
                    if len < blen {
                        best = Some(i);
                    }
                },
            }
        }
        i = i + 1;
    }
    best
}

/// The hierarchy and symbol kinds of a definition capture.
pub open spec fn capture_kind(capture: Seq<char>) -> Option<(HierarchyKind, u32)> {
    if capture == "definition.function"@ {
        Some((HierarchyKind::Call, crate::symbol_names::SYMBOL_KIND_FUNCTION))
    } else if capture == "definition.method"@ {
        Some((HierarchyKind::Call, crate::symbol_names::SYMBOL_KIND_METHOD))
    } else if capture == "definition.class"@ {
        Some((HierarchyKind::Type, crate::symbol_names::SYMBOL_KIND_CLASS))
    } else if capture == "definition.interface"@ {
        Some((HierarchyKind::Type, crate::symbol_names::SYMBOL_KIND_INTERFACE))
    } else if capture == "definition.type"@ {
        Some((HierarchyKind::Type, crate::symbol_names::SYMBOL_KIND_STRUCT))
    } else {
        None
    }
}

/// The hierarchy and symbol kinds of a definition capture.
pub fn definition_kind(capture_name: &str) -> (r: Option<(HierarchyKind, u32)>)
    ensures
        r == capture_kind(capture_name@),
{
    if str_eq(capture_name, "definition.function") {
        Some((HierarchyKind::Call, crate::symbol_names::SYMBOL_KIND_FUNCTION))
    } else if str_eq(capture_name, "definition.method") {
        Some((HierarchyKind::Call, crate::symbol_names::SYMBOL_KIND_METHOD))
    } else if str_eq(capture_name, "definition.class") {
        Some((HierarchyKind::Type, crate::symbol_names::SYMBOL_KIND_CLASS))
    } else if str_eq(capture_name, "definition.interface") {
        Some((HierarchyKind::Type, crate::symbol_names::SYMBOL_KIND_INTERFACE))
    } else if str_eq(capture_name, "definition.type") {
        Some((HierarchyKind::Type, crate::symbol_names::SYMBOL_KIND_STRUCT))
    } else {
        None
    }
}

/// The name a definition is indexed under: its container and bare name
/// joined by `.` in Python and by `::` elsewhere.
pub open spec fn indexed_name(container: Option<Seq<char>>, simple: Seq<char>, python: bool) -> Seq<char> {
    match container {
        Some(c) => if python {
            c + "."@ + simple
        } else {
            c + "::"@ + simple
        },
        None => simple,
    }
}

/// The name a definition is indexed under.
pub fn definition_name(container: Option<&str>, simple_name: &str, python: bool) -> (r: String)
    ensures
        r@ == indexed_name(
            match container {
                Some(c) => Some(c@),
                None => None,
            },
            simple_name@,
            python,
        ),
{
    match container {
        Some(c) => {
            let t = append_text(String::from_str(c), if python {
                "."
            } else {
                "::"
            });
            append_text(t, simple_name)
        },
        None => String::from_str(simple_name),
    }
}

/// A value is in a list with one more at the end when it is in the list
/// or is that one.
proof fn lemma_push_contains<T>(s: Seq<T>, y: T, x: T)
    ensures
        s.push(y).contains(x) == (s.contains(x) || y == x),
{
    if s.contains(x) {
        let i = choose|i: int| 0 <= i < s.len() && s[i] == x;
        assert(s.push(y)[i] == x);
    }
    if y == x {
        assert(s.push(y)[s.len() as int] == x);
    }
    if s.push(y).contains(x) {
        let i = choose|i: int| 0 <= i < s.len() + 1 && s.push(y)[i] == x;
        if i < s.len() {
            assert(s[i] == x);
        }
    }
}

/// Dropping repeats keeps exactly the values there were.
pub proof fn lemma_first_occurrences_contains<T>(s: Seq<T>, x: T)
    ensures
        first_occurrences(s).contains(x) == s.contains(x),
    decreases s.len(),
{
    if s.len() > 0 {
        let init = s.drop_last();
        lemma_first_occurrences_contains(init, x);
        assert(s =~= init.push(s.last()));
        lemma_push_contains(init, s.last(), x);
        let d = first_occurrences(init);
        lemma_push_contains(d, s.last(), x);
        lemma_first_occurrences_contains(init, s.last());
    }
}

/// A neighbour on one side is at the other end of a relation.
proof fn lemma_ends_contains(edges: Seq<EdgeView>, a: IdentityView, b: IdentityView)
    ensures
        ends(edges, a, HierarchyDirection::Outgoing).contains(b) == edges.contains((a, b)),
        ends(edges, b, HierarchyDirection::Incoming).contains(a) == edges.contains((a, b)),
    decreases edges.len(),
{
    if edges.len() > 0 {
        let init = edges.drop_last();
        let e = edges.last();
        lemma_ends_contains(init, a, b);
        assert(edges =~= init.push(e));
        lemma_push_contains(init, e, (a, b));
        lemma_push_contains(ends(init, a, HierarchyDirection::Outgoing), e.1, b);
        lemma_push_contains(ends(init, b, HierarchyDirection::Incoming), e.0, a);
    }
}

/// Every relation is seen from both ends: `b` is among the neighbours of
/// `a` going out exactly when `a` is among those of `b` coming in.
pub proof fn lemma_relations_seen_from_both_ends(edges: Seq<EdgeView>, a: IdentityView, b: IdentityView)
    ensures
        neighbours(edges, a, HierarchyDirection::Outgoing).contains(b) == neighbours(
            edges,
            b,
            HierarchyDirection::Incoming,
        ).contains(a),
{
    lemma_ends_contains(edges, a, b);
    lemma_first_occurrences_contains(ends(edges, a, HierarchyDirection::Outgoing), b);
    lemma_first_occurrences_contains(ends(edges, b, HierarchyDirection::Incoming), a);
}


/// The captures the definition queries put on definitions.
pub open spec fn definition_captures() -> Seq<Seq<char>> {
    seq!["definition.function"@, "definition.method"@, "definition.class"@, "definition.interface"@, "definition.type"@]
}

/// Every definition capture is indexed, as a call when its symbol kind is
/// one a server reports for callables and as a type when it is a type kind;
/// different captures keep different symbol kinds; a free function is a call
/// that is neither a method nor a constructor; any other capture is not a
/// definition.
pub proof fn lemma_definition_captures_are_indexed(capture: Seq<char>)
    ensures
        definition_captures().contains(capture) ==> (capture_kind(capture) matches Some((h, k)) && (h
            == HierarchyKind::Call <==> crate::normalize::is_callable_kind(k)) && (h == HierarchyKind::Type
            <==> crate::normalize::is_type_kind(k))),
        !definition_captures().contains(capture) ==> capture_kind(capture) is None,
        forall|i: int, j: int|
            0 <= i < j < 5 ==> capture_kind(#[trigger] definition_captures()[i]).unwrap().1 != capture_kind(
                #[trigger] definition_captures()[j],
            ).unwrap().1,
        capture_kind("definition.function"@) matches Some((h, k)) && h == HierarchyKind::Call
            && crate::normalize::is_callable_kind(k) && k != crate::symbol_names::SYMBOL_KIND_METHOD && k
            != crate::symbol_names::SYMBOL_KIND_CONSTRUCTOR,
{
    reveal_strlit("definition.function");
    reveal_strlit("definition.method");
    reveal_strlit("definition.class");
    reveal_strlit("definition.interface");
    reveal_strlit("definition.type");
    let d = definition_captures();
    assert(d[0][11] == 'f' && d[1][11] == 'm' && d[2][11] == 'c' && d[3][11] == 'i' && d[4][11] == 't');
    assert(d[0] != d[1] && d[0] != d[2] && d[0] != d[3] && d[0] != d[4]);
    assert(d[1] != d[2] && d[1] != d[3] && d[1] != d[4]);
    assert(d[2] != d[3] && d[2] != d[4]);
    assert(d[3] != d[4]);
    assert(capture_kind(d[0]).unwrap().1 == crate::symbol_names::SYMBOL_KIND_FUNCTION);
    assert(capture_kind(d[1]).unwrap().1 == crate::symbol_names::SYMBOL_KIND_METHOD);
    assert(capture_kind(d[2]).unwrap().1 == crate::symbol_names::SYMBOL_KIND_CLASS);
    assert(capture_kind(d[3]).unwrap().1 == crate::symbol_names::SYMBOL_KIND_INTERFACE);
    assert(capture_kind(d[4]).unwrap().1 == crate::symbol_names::SYMBOL_KIND_STRUCT);
    assert forall|i: int, j: int| 0 <= i < j < 5 implies capture_kind(#[trigger] d[i]).unwrap().1 != capture_kind(
        #[trigger] d[j],
    ).unwrap().1 by {
        assert(i == 0 || i == 1 || i == 2 || i == 3);
        assert(j == 1 || j == 2 || j == 3 || j == 4);
    }
    if d.contains(capture) {
        let i = choose|i: int| 0 <= i < d.len() && d[i] == capture;
        assert(i == 0 || i == 1 || i == 2 || i == 3 || i == 4);
    } else {
        assert(capture != d[0] && capture != d[1] && capture != d[2] && capture != d[3] && capture != d[4]);
    }
}

} // verus!
