//! What the language server's answers become: workspace symbols without
//! repeats, the identities of hierarchy items, the container of a document
//! symbol, and the rows of the search.
use vstd::prelude::*;

use crate::input::SearchKind;
use crate::search::SearchItem;
use crate::state::{copy_identity, location_view, HierarchyKind, IdentityView, LocationView, SourceLocation, SymbolIdentity};
use crate::symbol_names::{
    hierarchy_item_name, workspace_symbol_name, SymbolNameAdapter, SYMBOL_KIND_CLASS, SYMBOL_KIND_CONSTRUCTOR,
    SYMBOL_KIND_ENUM, SYMBOL_KIND_FUNCTION, SYMBOL_KIND_INTERFACE, SYMBOL_KIND_METHOD, SYMBOL_KIND_STRUCT,
    SYMBOL_KIND_TYPE_PARAMETER,
};
use crate::text::{append_text, chars_of, str_eq, string_of};
use crate::uri::{file_path_of_uri, uri_file_path};

verus! {

/// A position in a document: a line and a UTF-16 column, both from zero.
#[derive(Clone, Copy, Debug, PartialEq, Eq, Structural)]
pub struct Position {
    pub line: u32,
    pub character: u32,
}

/// A range of a document.
#[derive(Clone, Copy, Debug, PartialEq, Eq, Structural)]
pub struct Range {
    pub start: Position,
    pub end: Position,
}

/// A workspace symbol as the server reports it, under the name the viewer
/// shows.
#[derive(Clone, Debug, PartialEq, Eq)]
pub struct WorkspaceSymbolMatch {
    pub name: String,
    pub kind: u32,
    pub container_name: Option<String>,
    pub uri: String,
    pub range: Option<Range>,
}

/// The text of an optional string.
pub open spec fn opt_text(t: Option<String>) -> Option<Seq<char>> {
    match t {
        Some(s) => Some(s@),
        None => None,
    }
}

/// A workspace symbol with its texts taken as characters.
pub open spec fn match_view(m: WorkspaceSymbolMatch) -> (Seq<char>, u32, Option<Seq<char>>, Seq<char>, Option<Range>) {
    (m.name@, m.kind, opt_text(m.container_name), m.uri@, m.range)
}

/// The views of a list of workspace symbols.
pub open spec fn match_views(v: Seq<WorkspaceSymbolMatch>) -> Seq<(Seq<char>, u32, Option<Seq<char>>, Seq<char>, Option<Range>)> {
    v.map_values(|m: WorkspaceSymbolMatch| match_view(m))
}

/// The last part of a qualified name: after the last `::`, then after the
/// last `.`.
pub open spec fn leaf_of(s: Seq<char>) -> Seq<char> {
    let a = last_after(s, seq![':', ':']);
    last_after(a, seq!['.'])
}

/// The text after the last occurrence of `sep`, or the whole text.
pub open spec fn last_after(s: Seq<char>, sep: Seq<char>) -> Seq<char> {
    if exists|i: int| 0 <= i <= s.len() - sep.len() && #[trigger] s.subrange(i, i + sep.len()) == sep {
        let i = choose|i: int|
            0 <= i <= s.len() - sep.len() && #[trigger] s.subrange(i, i + sep.len()) == sep && forall|j: int|
                i < j <= s.len() - sep.len() ==> #[trigger] s.subrange(j, j + sep.len()) != sep;
        s.subrange(i + sep.len(), s.len() as int)
    } else {
        s
    }
}

/// Where `sep` last occurs in `s`, if it does.
fn find_last_sep(s: &Vec<char>, sep: &Vec<char>) -> (r: Option<usize>)
    requires
        sep@.len() > 0,
    ensures
        match r {
            Some(i) => {
                &&& i + sep@.len() <= s@.len()
                &&& s@.subrange(i as int, i + sep@.len()) == sep@
                &&& forall|j: int| i < j <= s@.len() - sep@.len() ==> #[trigger] s@.subrange(j, j + sep@.len()) != sep@
            },
            None => forall|j: int| 0 <= j <= s@.len() - sep@.len() ==> #[trigger] s@.subrange(j, j + sep@.len()) != sep@,
        },
{
    if s.len() < sep.len() {
        return None;
    }
    let mut i: usize = s.len() - sep.len() + 1;
    while i > 0
        invariant
            i <= s@.len() - sep@.len() + 1,
            sep@.len() <= s@.len(),
            forall|j: int| i <= j <= s@.len() - sep@.len() ==> #[trigger] s@.subrange(j, j + sep@.len()) != sep@,
        decreases i,
    {
        let at = i - 1;
        let mut k: usize = 0;
        while k < sep.len() && s[at + k] == sep[k]
            invariant
                k <= sep@.len(),
                at + sep@.len() <= s@.len(),
                s@.len() == s.len(),
                forall|q: int| 0 <= q < k ==> s@[at + q] == sep@[q],
            decreases sep@.len() - k,
        {
            k = k + 1;
        }
        if k == sep.len() {
            assert(s@.subrange(at as int, at + sep@.len()) =~= sep@);
            return Some(at);
        }
        assert(s@.subrange(at as int, at + sep@.len())[k as int] != sep@[k as int]);
        i = at;
    }
    None
}

/// The text after the last `sep`, or the whole text.
fn after_last(s: Vec<char>, sep: &Vec<char>) -> (r: Vec<char>)
    requires
        sep@.len() > 0,
    ensures
        r@ == last_after(s@, sep@),
{
    match find_last_sep(&s, sep) {
        Some(i) => {
            proof {
                let w = choose|j: int|
                    0 <= j <= s@.len() - sep@.len() && #[trigger] s@.subrange(j, j + sep@.len()) == sep@ && forall|q: int|
                        j < q <= s@.len() - sep@.len() ==> #[trigger] s@.subrange(q, q + sep@.len()) != sep@;
                assert(s@.subrange(i as int, i + sep@.len()) == sep@);
                if w < i {
                    assert(s@.subrange(i as int, i + sep@.len()) != sep@);
                } else if w > i {
                    assert(s@.subrange(w, w + sep@.len()) != sep@);
                }
            }
            let mut out: Vec<char> = Vec::new();
            let n = s.len();
            let mut k = i + sep.len();
            while k < s.len()
                invariant
                    i + sep@.len() <= k <= s@.len(),
                    out@ == s@.subrange(i + sep@.len(), k as int),
                decreases s@.len() - k,
            {
                out.push(s[k]);
                k = k + 1;
                assert(out@ =~= s@.subrange(i + sep@.len(), k as int));
            }
            out
        },
        None => s,
    }
}

/// The last part of a qualified name: after the last `::`, then after the
/// last `.`.
pub fn symbol_leaf_name(symbol: &str) -> (r: String)
    ensures
        r@ == leaf_of(symbol@),
{
    let chars = chars_of(symbol);
    let colons = vec![':', ':'];
    let dot = vec!['.'];
    assert(colons@ =~= seq![':', ':']);
    assert(dot@ =~= seq!['.']);
    let a = after_last(chars, &colons);
    let b = after_last(a, &dot);
    string_of(b.as_slice(), 0, b.len())
}

/// Whether a path starts with another, as `Path::starts_with` compares
/// them: by whole components.
pub uninterp spec fn path_has_prefix(path: Seq<char>, base: Seq<char>) -> bool;

/// Calls `Path::starts_with`; the answer is named `path_has_prefix`.
#[verifier::external_body]
fn path_starts_with(path: &str, base: &str) -> (r: bool)
    ensures
        r == path_has_prefix(path@, base@),
{
    std::path::Path::new(path).starts_with(base)
}

/// A URI names a local file under the workspace root.
pub open spec fn in_workspace(uri: Seq<char>, root: Seq<char>) -> bool {
    match uri_file_path(uri) {
        Some(Some(path)) => path_has_prefix(path, root),
        _ => false,
    }
}

/// Whether a URI names a local file under the workspace root.
pub fn uri_belongs_to_workspace(uri: &str, workspace_root: &str) -> (r: bool)
    ensures
        r == in_workspace(uri@, workspace_root@),
{
    match file_path_of_uri(uri) {
        Some(Some(path)) => path_starts_with(path.as_str(), workspace_root),
        _ => false,
    }
}

/// Whether a workspace symbol lies under the workspace root.
pub fn symbol_belongs_to_workspace(symbol: &WorkspaceSymbolMatch, workspace_root: &str) -> (r: bool)
    ensures
        r == in_workspace(symbol.uri@, workspace_root@),
{
    uri_belongs_to_workspace(symbol.uri.as_str(), workspace_root)
}

/// Whether a workspace symbol is shown: always, unless only the
/// workspace's symbols are, and then when it lies under the root.
pub fn workspace_symbol_is_visible(symbol: &WorkspaceSymbolMatch, workspace_root: &str, workspace_only: bool) -> (r: bool)
    ensures
        r == (!workspace_only || in_workspace(symbol.uri@, workspace_root@)),
{
    !workspace_only || symbol_belongs_to_workspace(symbol, workspace_root)
}

/// A list without repeats: each value where it first occurs.
pub open spec fn first_occurrences<T>(s: Seq<T>) -> Seq<T>
    decreases s.len(),
{
    if s.len() == 0 {
        Seq::empty()
    } else {
        let d = first_occurrences(s.drop_last());
        if d.contains(s.last()) {
            d
        } else {
            d.push(s.last())
        }
    }
}

/// Whether two optional texts are equal.
fn same_opt_text(a: &Option<String>, b: &Option<String>) -> (r: bool)
    ensures
        r == (opt_text(*a) == opt_text(*b)),
{
    match (a, b) {
        (Some(x), Some(y)) => str_eq(x.as_str(), y.as_str()),
        (None, None) => true,
        _ => false,
    }
}

/// Whether two workspace symbols are the same: name, kind, URI, range and
/// container.
fn same_match(a: &WorkspaceSymbolMatch, b: &WorkspaceSymbolMatch) -> (r: bool)
    ensures
        r == (match_view(*a) == match_view(*b)),
{
    let same_range = match (a.range, b.range) {
        (Some(x), Some(y)) => x == y,
        (None, None) => true,
        _ => false,
    };
    str_eq(a.name.as_str(), b.name.as_str()) && a.kind == b.kind && str_eq(a.uri.as_str(), b.uri.as_str()) && same_range
        && same_opt_text(&a.container_name, &b.container_name)
}

/// A copy of a workspace symbol.
fn copy_match(m: &WorkspaceSymbolMatch) -> (r: WorkspaceSymbolMatch)
    ensures
        match_view(r) == match_view(*m),
{
    WorkspaceSymbolMatch {
        name: string_of(chars_of(m.name.as_str()).as_slice(), 0, m.name.as_str().unicode_len()),
        kind: m.kind,
        container_name: match &m.container_name {
            Some(c) => Some(string_of(chars_of(c.as_str()).as_slice(), 0, c.as_str().unicode_len())),
            None => None,
        },
        uri: string_of(chars_of(m.uri.as_str()).as_slice(), 0, m.uri.as_str().unicode_len()),
        range: m.range,
    }
}

/// The workspace symbols without repeats, each where it first occurs.
pub fn deduplicate_symbols(symbols: &Vec<WorkspaceSymbolMatch>) -> (r: Vec<WorkspaceSymbolMatch>)
    ensures
        match_views(r@) == first_occurrences(match_views(symbols@)),
{
    let mut unique: Vec<WorkspaceSymbolMatch> = Vec::new();
    let mut i: usize = 0;
    while i < symbols.len()
        invariant
            i <= symbols@.len(),
            match_views(unique@) == first_occurrences(match_views(symbols@.take(i as int))),
        decreases symbols@.len() - i,
    {
        let symbol = &symbols[i];
        let mut duplicate = false;
        let mut j: usize = 0;
        while j < unique.len()
            invariant
                j <= unique@.len(),
                duplicate == exists|q: int| 0 <= q < j && match_view(unique@[q]) == match_view(*symbol),
            decreases unique@.len() - j,
        {
            if same_match(&unique[j], symbol) {
                duplicate = true;
            }
            j = j + 1;
        }
        proof {
            let t = symbols@.take(i + 1);
            assert(match_views(t).drop_last() =~= match_views(symbols@.take(i as int)));
            assert(match_views(t).last() == match_view(*symbol));
            if duplicate {
                let q = choose|q: int| 0 <= q < unique@.len() && match_view(unique@[q]) == match_view(*symbol);
                assert(match_views(unique@)[q] == match_view(*symbol));
            } else {
                assert forall|q: int| 0 <= q < unique@.len() implies match_views(unique@)[q] != match_view(*symbol) by {
                    assert(match_views(unique@)[q] == match_view(unique@[q]));
                }
            }
        }
        if !duplicate {
            let c = copy_match(symbol);
            let ghost before = unique@;
            unique.push(c);
            assert(match_views(unique@) =~= match_views(before).push(match_view(c)));
        }
        i = i + 1;
    }
    assert(symbols@.take(symbols@.len() as int) =~= symbols@);
    unique
}

/// A position of a document as a location.
pub fn document_position(uri: String, position: Position) -> (r: SourceLocation)
    ensures
        r@ == (LocationView { uri: uri@, line: Some(position.line), character: Some(position.character) }),
{
    SourceLocation { uri, line: Some(position.line), character: Some(position.character) }
}

/// The symbol kinds that have call hierarchies: functions, methods and
/// constructors.
pub open spec fn is_callable_kind(k: u32) -> bool {
    k == SYMBOL_KIND_FUNCTION || k == SYMBOL_KIND_METHOD || k == SYMBOL_KIND_CONSTRUCTOR
}

/// The symbol kinds that have type hierarchies: classes, interfaces,
/// structs, enums and type parameters.
pub open spec fn is_type_kind(k: u32) -> bool {
    k == SYMBOL_KIND_CLASS || k == SYMBOL_KIND_INTERFACE || k == SYMBOL_KIND_STRUCT || k == SYMBOL_KIND_ENUM || k
        == SYMBOL_KIND_TYPE_PARAMETER
}

/// Whether a symbol kind has hierarchies of the kind asked for.
pub fn symbol_kind_matches_hierarchy(kind: HierarchyKind, symbol_kind: u32) -> (r: bool)
    ensures
        r == match kind {
            HierarchyKind::Call => is_callable_kind(symbol_kind),
            HierarchyKind::Type => is_type_kind(symbol_kind),
        },
{
    match kind {
        HierarchyKind::Call => symbol_kind == SYMBOL_KIND_FUNCTION || symbol_kind == SYMBOL_KIND_METHOD || symbol_kind
            == SYMBOL_KIND_CONSTRUCTOR,
        HierarchyKind::Type => symbol_kind == SYMBOL_KIND_CLASS || symbol_kind == SYMBOL_KIND_INTERFACE || symbol_kind
            == SYMBOL_KIND_STRUCT || symbol_kind == SYMBOL_KIND_ENUM || symbol_kind == SYMBOL_KIND_TYPE_PARAMETER,
    }
}

/// Whether a search for calls or types lists a symbol of this kind.
pub fn symbol_matches_search(search_kind: SearchKind, symbol_kind: u32) -> (r: bool)
    ensures
        r == match search_kind {
            SearchKind::Call => is_callable_kind(symbol_kind),
            SearchKind::Type => is_type_kind(symbol_kind),
        },
{
    match search_kind {
        SearchKind::Call => symbol_kind_matches_hierarchy(HierarchyKind::Call, symbol_kind),
        SearchKind::Type => symbol_kind_matches_hierarchy(HierarchyKind::Type, symbol_kind),
    }
}

/// An item of a call hierarchy as the server reports it.
#[derive(Clone, Debug, PartialEq, Eq)]
pub struct CallItem {
    pub name: String,
    pub kind: u32,
    pub detail: Option<String>,
    pub uri: String,
    pub selection_range: Range,
}

/// An item of a type hierarchy as the server reports it.
#[derive(Clone, Debug, PartialEq, Eq)]
pub struct TypeItem {
    pub name: String,
    pub kind: u32,
    pub uri: String,
    pub selection_range: Range,
}

/// The identity of a call-hierarchy item: its name as the server's adapter
/// qualifies it (with the container found among the document's symbols),
/// at the start of its selection.
pub fn call_item_identity(item: CallItem, symbol_names: SymbolNameAdapter, document_container: Option<&str>) -> (r:
    SymbolIdentity)
    ensures
        r@ == (IdentityView {
            symbol: hierarchy_item_name(
                symbol_names,
                item.name@,
                item.kind,
                opt_text(item.detail),
                match document_container {
                    Some(c) => Some(c@),
                    None => None,
                },
            ),
            kind: HierarchyKind::Call,
            location: Some(
                LocationView {
                    uri: item.uri@,
                    line: Some(item.selection_range.start.line),
                    character: Some(item.selection_range.start.character),
                },
            ),
        }),
{
    let detail: Option<&str> = match &item.detail {
        Some(d) => Some(d.as_str()),
        None => None,
    };
    let symbol = symbol_names.call_hierarchy_item(item.name.as_str(), item.kind, detail, document_container);
    SymbolIdentity {
        symbol,
        kind: HierarchyKind::Call,
        location: Some(
            SourceLocation {
                uri: item.uri,
                line: Some(item.selection_range.start.line),
                character: Some(item.selection_range.start.character),
            },
        ),
    }
}

/// The identity of a type-hierarchy item: its name at the start of its
/// selection.
pub fn type_item_identity(item: TypeItem) -> (r: SymbolIdentity)
    ensures
        r@ == (IdentityView {
            symbol: item.name@,
            kind: HierarchyKind::Type,
            location: Some(
                LocationView {
                    uri: item.uri@,
                    line: Some(item.selection_range.start.line),
                    character: Some(item.selection_range.start.character),
                },
            ),
        }),
{
    SymbolIdentity {
        symbol: item.name,
        kind: HierarchyKind::Type,
        location: Some(
            SourceLocation {
                uri: item.uri,
                line: Some(item.selection_range.start.line),
                character: Some(item.selection_range.start.character),
            },
        ),
    }
}

/// The views of a list of identities.
pub open spec fn identity_list(v: Seq<SymbolIdentity>) -> Seq<IdentityView> {
    v.map_values(|i: SymbolIdentity| i@)
}

/// Whether two identities are the same.
fn same_identity(a: &SymbolIdentity, b: &SymbolIdentity) -> (r: bool)
    ensures
        r == (a@ == b@),
{
    if !str_eq(a.symbol.as_str(), b.symbol.as_str()) || a.kind != b.kind {
        return false;
    }
    match (&a.location, &b.location) {
        (Some(x), Some(y)) => str_eq(x.uri.as_str(), y.uri.as_str()) && x.line == y.line && x.character == y.character,
        (None, None) => true,
        _ => false,
    }
}

/// The identities without repeats, each where it first occurs.
pub fn deduplicate_identities(identities: &Vec<SymbolIdentity>) -> (r: Vec<SymbolIdentity>)
    ensures
        identity_list(r@) == first_occurrences(identity_list(identities@)),
{
    let mut unique: Vec<SymbolIdentity> = Vec::new();
    let mut i: usize = 0;
    while i < identities.len()
        invariant
            i <= identities@.len(),
            identity_list(unique@) == first_occurrences(identity_list(identities@.take(i as int))),
        decreases identities@.len() - i,
    {
        let identity = &identities[i];
        let mut duplicate = false;
        let mut j: usize = 0;
        while j < unique.len()
            invariant
                j <= unique@.len(),
                duplicate == exists|q: int| 0 <= q < j && unique@[q]@ == identity@,
            decreases unique@.len() - j,
        {
            if same_identity(&unique[j], identity) {
                duplicate = true;
            }
            j = j + 1;
        }
        proof {
            let t = identities@.take(i + 1);
            assert(identity_list(t).drop_last() =~= identity_list(identities@.take(i as int)));
            assert(identity_list(t).last() == identity@);
            if duplicate {
                let q = choose|q: int| 0 <= q < unique@.len() && unique@[q]@ == identity@;
                assert(identity_list(unique@)[q] == identity@);
            } else {
                assert forall|q: int| 0 <= q < unique@.len() implies identity_list(unique@)[q] != identity@ by {
                    assert(identity_list(unique@)[q] == unique@[q]@);
                }
            }
        }
        if !duplicate {
            let c = copy_identity(identity);
            let ghost before = unique@;
            unique.push(c);
            assert(identity_list(unique@) =~= identity_list(before).push(c@));
        }
        i = i + 1;
    }
    assert(identities@.take(identities@.len() as int) =~= identities@);
    unique
}

/// A document symbol with the name of the symbol it is nested in.
#[derive(Clone, Debug, PartialEq, Eq)]
pub struct DocumentSymbolOwner {
    pub name: String,
    pub kind: u32,
    pub range: Range,
    pub container_name: Option<String>,
}

/// A document symbol as a server reports it in the nested form, with the
/// symbols declared inside it.
#[derive(Debug)]
pub struct NestedDocumentSymbol {
    pub name: String,
    pub kind: u32,
    pub range: Range,
    pub children: Option<Vec<NestedDocumentSymbol>>,
}

/// The document symbols of a file, in the flat or the nested form.
#[derive(Debug)]
pub enum ReportedDocumentSymbols {
    Flat(Vec<DocumentSymbolOwner>),
    Nested(Vec<NestedDocumentSymbol>),
}

/// A document symbol with its container, by value.
pub open spec fn owner_view(o: DocumentSymbolOwner) -> (Seq<char>, u32, Range, Option<Seq<char>>) {
    (o.name@, o.kind, o.range, opt_text(o.container_name))
}

/// Document symbols with their containers, by value.
pub open spec fn owners_view(s: Seq<DocumentSymbolOwner>) -> Seq<(Seq<char>, u32, Range, Option<Seq<char>>)> {
    s.map_values(|o: DocumentSymbolOwner| owner_view(o))
}

/// A nested symbol and everything inside it, parents before their
/// children, each with the name of the symbol it is nested in.
pub open spec fn flattened_symbol(n: NestedDocumentSymbol, container: Option<Seq<char>>) -> Seq<
    (Seq<char>, u32, Range, Option<Seq<char>>),
>
    decreases n, 1int,
{
    seq![(n.name@, n.kind, n.range, container)] + match n.children {
        Some(ch) => flattened_symbols(ch@, Some(n.name@)),
        None => Seq::empty(),
    }
}

/// Nested symbols flattened one after the other.
pub open spec fn flattened_symbols(s: Seq<NestedDocumentSymbol>, container: Option<Seq<char>>) -> Seq<
    (Seq<char>, u32, Range, Option<Seq<char>>),
>
    decreases s, 0int,
{
    if s.len() == 0 {
        Seq::empty()
    } else {
        flattened_symbols(s.drop_last(), container) + flattened_symbol(s.last(), container)
    }
}

/// What the document symbols become: the flat ones as they are, the nested
/// ones flattened.
pub open spec fn normalized_document_symbols(response: ReportedDocumentSymbols) -> Seq<
    (Seq<char>, u32, Range, Option<Seq<char>>),
> {
    match response {
        ReportedDocumentSymbols::Flat(v) => owners_view(v@),
        ReportedDocumentSymbols::Nested(v) => flattened_symbols(v@, None),
    }
}

fn push_nested_symbols(symbols: &Vec<NestedDocumentSymbol>, container: &Option<String>, out: &mut Vec<DocumentSymbolOwner>)
    ensures
        owners_view(final(out)@) == owners_view(old(out)@) + flattened_symbols(symbols@, opt_text(*container)),
    decreases symbols@, 0int,
{
    let mut i: usize = 0;
    while i < symbols.len()
        invariant
            i <= symbols@.len(),
            owners_view(out@) == owners_view(old(out)@) + flattened_symbols(symbols@.take(i as int), opt_text(*container)),
        decreases symbols@.len() - i,
    {
        let ghost before = out@;
        let symbol = &symbols[i];
        out.push(DocumentSymbolOwner {
            name: symbol.name.clone(),
            kind: symbol.kind,
            range: symbol.range,
            container_name: container.clone(),
        });
        let ghost mid = out@;
        let ghost head = (symbol.name@, symbol.kind, symbol.range, opt_text(*container));
        assert(owner_view(mid.last()) == head);
        assert(owners_view(mid) =~= owners_view(before).push(head));
        match &symbol.children {
            Some(children) => {
                proof {
                    assert(decreases_to!(symbols@ => symbols@[i as int]));
                    assert(decreases_to!(symbols@[i as int] => symbols@[i as int].children));
                }
                let name = symbol.name.clone();
                let inner = Some(name);
                assert(opt_text(inner) == Some(symbol.name@));
                push_nested_symbols(children, &inner, out);
            },
            None => {},
        }
        proof {
            let c = opt_text(*container);
            assert(symbols@.take(i + 1).drop_last() =~= symbols@.take(i as int));
            assert(symbols@.take(i + 1).last() == symbols@[i as int]);
            assert(flattened_symbols(symbols@.take(i + 1), c) == flattened_symbols(symbols@.take(i as int), c)
                + flattened_symbol(symbols@[i as int], c));
            assert(flattened_symbol(symbols@[i as int], c) == seq![head] + match symbol.children {
                Some(ch) => flattened_symbols(ch@, Some(symbol.name@)),
                None => Seq::empty(),
            });
            assert(owners_view(out@) =~= owners_view(old(out)@) + flattened_symbols(symbols@.take(i + 1), c));
        }
        i = i + 1;
    }
    assert(symbols@.take(symbols@.len() as int) =~= symbols@);
}

/// The document symbols of a file, each with the name of the symbol it is
/// nested in (see `normalized_document_symbols`).
pub fn normalize_document_symbols(response: ReportedDocumentSymbols) -> (r: Vec<DocumentSymbolOwner>)
    ensures
        owners_view(r@) == normalized_document_symbols(response),
{
    match response {
        ReportedDocumentSymbols::Flat(v) => v,
        ReportedDocumentSymbols::Nested(v) => {
            let mut out: Vec<DocumentSymbolOwner> = Vec::new();
            push_nested_symbols(&v, &None, &mut out);
            assert(owners_view(out@) =~= flattened_symbols(v@, None));
            out
        },
    }
}

/// `a` is at or after `b`.
pub open spec fn at_or_after(a: Position, b: Position) -> bool {
    a.line > b.line || (a.line == b.line && a.character >= b.character)
}

/// A range holds a position.
pub open spec fn holds(r: Range, p: Position) -> bool {
    at_or_after(p, r.start) && at_or_after(r.end, p)
}

/// `a - b`, or 0 below.
pub open spec fn sub0(a: u32, b: u32) -> int {
    if a >= b {
        a - b
    } else {
        0
    }
}

/// A range spans less than another: fewer lines, then fewer columns.
pub open spec fn narrower(a: Range, b: Range) -> bool {
    sub0(a.end.line, a.start.line) < sub0(b.end.line, b.start.line) || (sub0(a.end.line, a.start.line) == sub0(
        b.end.line,
        b.start.line,
    ) && sub0(a.end.character, a.start.character) < sub0(b.end.character, b.start.character))
}

/// Symbol `i` could be the definition of a call item: a function, method or
/// constructor of that name whose range holds the item's selection.
pub open spec fn defines(symbols: Seq<DocumentSymbolOwner>, i: int, name: Seq<char>, at: Position) -> bool {
    &&& 0 <= i < symbols.len()
    &&& symbols[i].name@ == name
    &&& is_callable_kind(symbols[i].kind)
    &&& holds(symbols[i].range, at)
}

/// Symbol `i` is the first of the narrowest definitions.
pub open spec fn innermost(symbols: Seq<DocumentSymbolOwner>, i: int, name: Seq<char>, at: Position) -> bool {
    &&& defines(symbols, i, name, at)
    &&& forall|j: int| #[trigger] defines(symbols, j, name, at) ==> !narrower(symbols[j].range, symbols[i].range)
    &&& forall|j: int| 0 <= j < i && #[trigger] defines(symbols, j, name, at) ==> narrower(symbols[i].range, symbols[j].range)
}

/// The container of the narrowest symbol defining a call item, if any.
pub open spec fn container_of(symbols: Seq<DocumentSymbolOwner>, name: Seq<char>, at: Position) -> Option<Seq<char>> {
    if exists|i: int| innermost(symbols, i, name, at) {
        opt_text(symbols[choose|i: int| innermost(symbols, i, name, at)].container_name)
    } else {
        None
    }
}

fn holds_position(r: Range, p: Position) -> (b: bool)
    ensures
        b == holds(r, p),
{
    (p.line > r.start.line || (p.line == r.start.line && p.character >= r.start.character)) && (r.end.line > p.line || (
    r.end.line == p.line && r.end.character >= p.character))
}

fn narrower_range(a: Range, b: Range) -> (r: bool)
    ensures
        r == narrower(a, b),
{
    let al = a.end.line.saturating_sub(a.start.line);
    let bl = b.end.line.saturating_sub(b.start.line);
    let ac = a.end.character.saturating_sub(a.start.character);
    let bc = b.end.character.saturating_sub(b.start.character);
    al < bl || (al == bl && ac < bc)
}

/// The container of the narrowest function, method or constructor of the
/// call item's name whose range holds the item's selection; the first of
/// equally narrow ones.
pub fn find_document_symbol_container(symbols: &Vec<DocumentSymbolOwner>, item: &CallItem) -> (r: Option<String>)
    ensures
        opt_text(r) == container_of(symbols@, item.name@, item.selection_range.start),
{
    let ghost name = item.name@;
    let at = item.selection_range.start;
    let mut best: Option<usize> = None;
    let mut i: usize = 0;
    while i < symbols.len()
        invariant
            i <= symbols@.len(),
            name == item.name@,
            at == item.selection_range.start,
            match best {
                None => forall|j: int| 0 <= j < i ==> !#[trigger] defines(symbols@, j, name, at),
                Some(b) => {
                    &&& b < i
                    &&& defines(symbols@, b as int, name, at)
                    &&& forall|j: int| 0 <= j < i && #[trigger] defines(symbols@, j, name, at) ==> !narrower(symbols@[j].range, symbols@[b as int].range)
                    &&& forall|j: int| 0 <= j < b && #[trigger] defines(symbols@, j, name, at) ==> narrower(symbols@[b as int].range, symbols@[j].range)
                },
            },
        decreases symbols@.len() - i,
    {
        let s = &symbols[i];
        let candidate = str_eq(s.name.as_str(), item.name.as_str()) && (s.kind == SYMBOL_KIND_FUNCTION || s.kind
            == SYMBOL_KIND_METHOD || s.kind == SYMBOL_KIND_CONSTRUCTOR) && holds_position(s.range, at);
        assert(candidate == defines(symbols@, i as int, name, at));
        if candidate {
            match best {
                None => {
                    best = Some(i);
                },
                Some(b) => {
                    if narrower_range(s.range, symbols[b].range) {
                        best = Some(i);
                    }
                },
            }
        }
        i = i + 1;
    }
    match best {
        None => {
            assert(!exists|k: int| innermost(symbols@, k, name, at));
            None
        },
        Some(b) => {
            assert(innermost(symbols@, b as int, name, at));
            proof {
                let k = choose|k: int| innermost(symbols@, k, name, at);
                if k < b {
                    assert(narrower(symbols@[b as int].range, symbols@[k].range));
                } else if k > b {
                    assert(narrower(symbols@[k].range, symbols@[b as int].range));
                }
            }
            match &symbols[b].container_name {
                Some(c) => Some(string_of(chars_of(c.as_str()).as_slice(), 0, c.as_str().unicode_len())),
                None => None,
            }
        },
    }
}

/// A symbol as the server lists it: flat, with a range, or with only a
/// URI.
#[derive(Clone, Debug, PartialEq, Eq)]
pub struct ReportedSymbol {
    pub name: String,
    pub kind: u32,
    pub container_name: Option<String>,
    pub uri: String,
    pub range: Option<Range>,
}

/// The workspace symbol a reported symbol becomes: named as the server's
/// adapter qualifies it.
pub open spec fn normalized(s: ReportedSymbol, adapter: SymbolNameAdapter) -> (Seq<char>, u32, Option<Seq<char>>, Seq<char>, Option<Range>) {
    (workspace_symbol_name(adapter, s.name@, s.kind, opt_text(s.container_name)), s.kind, opt_text(s.container_name), s.uri@, s.range)
}

/// The workspace symbols the reported ones become, in order.
pub fn normalize_symbols(symbols: Vec<ReportedSymbol>, symbol_names: SymbolNameAdapter) -> (r: Vec<WorkspaceSymbolMatch>)
    ensures
        r@.len() == symbols@.len(),
        forall|i: int| 0 <= i < symbols@.len() ==> match_view(#[trigger] r@[i]) == normalized(symbols@[i], symbol_names),
{
    let mut out: Vec<WorkspaceSymbolMatch> = Vec::new();
    let mut i: usize = 0;
    while i < symbols.len()
        invariant
            i <= symbols@.len(),
            out@.len() == i,
            forall|q: int| 0 <= q < i ==> match_view(#[trigger] out@[q]) == normalized(symbols@[q], symbol_names),
        decreases symbols@.len() - i,
    {
        let s = &symbols[i];
        let container: Option<&str> = match &s.container_name {
            Some(c) => Some(c.as_str()),
            None => None,
        };
        let name = symbol_names.workspace_symbol(s.name.as_str(), s.kind, container);
        let m = WorkspaceSymbolMatch {
            name,
            kind: s.kind,
            container_name: match &s.container_name {
                Some(c) => Some(string_of(chars_of(c.as_str()).as_slice(), 0, c.as_str().unicode_len())),
                None => None,
            },
            uri: string_of(chars_of(s.uri.as_str()).as_slice(), 0, s.uri.as_str().unicode_len()),
            range: s.range,
        };
        out.push(m);
        i = i + 1;
    }
    out
}

/// Where the search shows a symbol: its local path (else its URI), with
/// the line counted from one when there is a range.
pub open spec fn shown_location(uri: Seq<char>, range: Option<Range>) -> Seq<char> {
    let path = match uri_file_path(uri) {
        Some(Some(p)) => p,
        _ => uri,
    };
    match range {
        Some(r) => path + ":"@ + crate::export::decimal((r.start.line + 1) as nat),
        None => path,
    }
}

/// The row of the search for a workspace symbol: its name and container,
/// where it is shown to be, and the location it opens.
pub fn search_item(symbol: WorkspaceSymbolMatch) -> (r: SearchItem)
    requires
        symbol.range matches Some(range) ==> range.start.line < u32::MAX,
    ensures
        r.name@ == symbol.name@,
        opt_text(r.container_name) == opt_text(symbol.container_name),
        r.location@ == shown_location(symbol.uri@, symbol.range),
        r.source matches Some(l) && l@ == (LocationView {
            uri: symbol.uri@,
            line: match symbol.range {
                Some(range) => Some(range.start.line),
                None => None,
            },
            character: match symbol.range {
                Some(range) => Some(range.start.character),
                None => None,
            },
        }),
{
    let path = match file_path_of_uri(symbol.uri.as_str()) {
        Some(Some(p)) => p,
        _ => string_of(chars_of(symbol.uri.as_str()).as_slice(), 0, symbol.uri.as_str().unicode_len()),
    };
    let (location, line, character) = match symbol.range {
        Some(range) => {
            let mut t = append_text(path, ":");
            crate::export::push_decimal(&mut t, (range.start.line + 1) as u64);
            (t, Some(range.start.line), Some(range.start.character))
        },
        None => (path, None, None),
    };
    SearchItem {
        name: symbol.name,
        container_name: symbol.container_name,
        location,
        source: Some(SourceLocation { uri: symbol.uri, line, character }),
    }
}

} // verus!
