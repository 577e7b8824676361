//! The text export of the graph: every known node and relation, numbered in
//! an order that depends on the nodes alone, one record per line, so that
//! exporting the same graph twice gives the same text.
use vstd::prelude::*;

use crate::graph::{GraphNode, NodeView, VisibleEdge};
use crate::relation::{lemma_live_node_id, lemma_live_resolves, live, node_of, node_shown, visible_ok, RelationGraph, RelationModel};
use crate::search::{compare_text, lemma_text_below_total, lemma_text_below_transitive, opt_below, text_below};
use crate::state::{HierarchyKind, LocationView, NodeId, SourceLocation};
use crate::text::{append_text, chars_of, push_char};

verus! {

/// The decimal digit for `d`.
pub open spec fn digit(d: int) -> char {
    if d == 0 {
        '0'
    } else if d == 1 {
        '1'
    } else if d == 2 {
        '2'
    } else if d == 3 {
        '3'
    } else if d == 4 {
        '4'
    } else if d == 5 {
        '5'
    } else if d == 6 {
        '6'
    } else if d == 7 {
        '7'
    } else if d == 8 {
        '8'
    } else {
        '9'
    }
}

/// The decimal numeral of `n`.
pub open spec fn decimal(n: nat) -> Seq<char>
    decreases n,
{
    if n < 10 {
        seq![digit(n as int)]
    } else {
        decimal(n / 10) + seq![digit((n % 10) as int)]
    }
}

fn digit_char(d: u64) -> (c: char)
    requires
        d < 10,
    ensures
        c == digit(d as int),
{
    if d == 0 {
        '0'
    } else if d == 1 {
        '1'
    } else if d == 2 {
        '2'
    } else if d == 3 {
        '3'
    } else if d == 4 {
        '4'
    } else if d == 5 {
        '5'
    } else if d == 6 {
        '6'
    } else if d == 7 {
        '7'
    } else if d == 8 {
        '8'
    } else {
        '9'
    }
}

/// Appends the decimal numeral of `n`.
pub(crate) fn push_decimal(out: &mut String, n: u64)
    ensures
        final(out)@ == old(out)@ + decimal(n as nat),
    decreases n,
{
    if n >= 10 {
        push_decimal(out, n / 10);
    }
    push_char(out, digit_char(n % 10));
    assert(final(out)@ =~= old(out)@ + decimal(n as nat));
}

/// A character as the export writes it: backslashes and line breaks and
/// tabs escaped.
pub open spec fn escaped_char(c: char) -> Seq<char> {
    if c == '\\' {
        seq!['\\', '\\']
    } else if c == '\n' {
        seq!['\\', 'n']
    } else if c == '\r' {
        seq!['\\', 'r']
    } else if c == '\t' {
        seq!['\\', 't']
    } else {
        seq![c]
    }
}

/// A text with every character escaped.
pub open spec fn escaped(s: Seq<char>) -> Seq<char>
    decreases s.len(),
{
    if s.len() == 0 {
        Seq::empty()
    } else {
        escaped(s.drop_last()) + escaped_char(s.last())
    }
}

/// A text on one line: escaped, and `<unnamed>` for an empty one.
pub open spec fn inline(s: Seq<char>) -> Seq<char> {
    if s.len() == 0 {
        "<unnamed>"@
    } else {
        escaped(s)
    }
}

/// Appends a text on one line.
fn push_inline(out: String, value: &str) -> (r: String)
    ensures
        r@ == out@ + inline(value@),
{
    let chars = chars_of(value);
    if chars.len() == 0 {
        return append_text(out, "<unnamed>");
    }
    let mut out = out;
    let ghost start = out@;
    let mut i: usize = 0;
    while i < chars.len()
        invariant
            i <= chars@.len(),
            chars@ == value@,
            out@ == start + escaped(chars@.take(i as int)),
        decreases chars@.len() - i,
    {
        let c = chars[i];
        if c == '\\' {
            push_char(&mut out, '\\');
            push_char(&mut out, '\\');
        } else if c == '\n' {
            push_char(&mut out, '\\');
            push_char(&mut out, 'n');
        } else if c == '\r' {
            push_char(&mut out, '\\');
            push_char(&mut out, 'r');
        } else if c == '\t' {
            push_char(&mut out, '\\');
            push_char(&mut out, 't');
        } else {
            push_char(&mut out, c);
        }
        proof {
            assert(chars@.take(i + 1).drop_last() =~= chars@.take(i as int));
            assert(out@ =~= start + escaped(chars@.take(i + 1)));
        }
        i = i + 1;
    }
    assert(chars@.take(chars@.len() as int) =~= chars@);
    out
}

/// One more than `x`, stopping at the largest `u32`.
pub open spec fn next32(x: u32) -> nat {
    if x == u32::MAX {
        x as nat
    } else {
        (x + 1) as nat
    }
}

/// A location as the export writes it: the URI, then the line and column
/// counted from one; "location unknown" without one.
pub open spec fn location_text(l: Option<LocationView>) -> Seq<char> {
    match l {
        None => "location unknown"@,
        Some(l) => inline(l.uri) + match l.line {
            Some(line) => ":"@ + decimal(next32(line)) + match l.character {
                Some(c) => ":"@ + decimal(next32(c)),
                None => Seq::empty(),
            },
            None => match l.character {
                Some(c) => " · character "@ + decimal(next32(c)),
                None => Seq::empty(),
            },
        },
    }
}

/// Appends a location.
fn push_location(out: String, location: &Option<SourceLocation>) -> (r: String)
    ensures
        r@ == out@ + location_text(crate::state::location_view(*location)),
{
    match location {
        None => append_text(out, "location unknown"),
        Some(l) => {
            let out = push_inline(out, l.uri.as_str());
            match l.line {
                Some(line) => {
                    let mut out = append_text(out, ":");
                    push_decimal(&mut out, line.saturating_add(1) as u64);
                    match l.character {
                        Some(c) => {
                            let mut out = append_text(out, ":");
                            push_decimal(&mut out, c.saturating_add(1) as u64);
                            out
                        },
                        None => out,
                    }
                },
                None => match l.character {
                    Some(c) => {
                        let mut out = append_text(out, " · character ");
                        push_decimal(&mut out, c.saturating_add(1) as u64);
                        out
                    },
                    None => out,
                },
            }
        },
    }
}

/// Calls first, then types.
pub open spec fn kind_rank(k: HierarchyKind) -> int {
    match k {
        HierarchyKind::Call => 0,
        HierarchyKind::Type => 1,
    }
}

/// `a` comes before `b`, no text first.
pub open spec fn opt_text_below(a: Option<Seq<char>>, b: Option<Seq<char>>) -> bool {
    match (a, b) {
        (None, Some(_)) => true,
        (Some(x), Some(y)) => text_below(x, y),
        _ => false,
    }
}

/// The URI of a node's location.
pub open spec fn uri_of(n: NodeView) -> Option<Seq<char>> {
    match n.location {
        Some(l) => Some(l.uri),
        None => None,
    }
}

/// The line of a node's location.
pub open spec fn line_of(n: NodeView) -> Option<u32> {
    match n.location {
        Some(l) => l.line,
        None => None,
    }
}

/// The column of a node's location.
pub open spec fn column_of(n: NodeView) -> Option<u32> {
    match n.location {
        Some(l) => l.character,
        None => None,
    }
}

/// Node `a` is listed before node `b`: calls before types, then by URI,
/// line and column (none first), then by name, then by id.
pub open spec fn listed_first(a: NodeView, b: NodeView) -> bool {
    kind_rank(a.kind) < kind_rank(b.kind) || (a.kind == b.kind && (opt_text_below(uri_of(a), uri_of(b)) || (uri_of(a)
        == uri_of(b) && (opt_below(line_of(a), line_of(b)) || (line_of(a) == line_of(b) && (opt_below(
        column_of(a),
        column_of(b),
    ) || (column_of(a) == column_of(b) && (text_below(a.symbol, b.symbol) || (a.symbol == b.symbol && a.id.0
        < b.id.0)))))))))
}

/// Listing nodes is a strict total order on nodes of different ids.
proof fn lemma_listing_order(a: NodeView, b: NodeView, c: NodeView)
    ensures
        !listed_first(a, a),
        listed_first(a, b) && listed_first(b, c) ==> listed_first(a, c),
        a.id != b.id ==> listed_first(a, b) || listed_first(b, a),
{
    lemma_text_below_total(a.symbol, b.symbol);
    lemma_text_below_total(b.symbol, c.symbol);
    lemma_text_below_total(a.symbol, c.symbol);
    lemma_text_below_total(a.symbol, a.symbol);
    if text_below(a.symbol, b.symbol) && text_below(b.symbol, c.symbol) {
        lemma_text_below_transitive(a.symbol, b.symbol, c.symbol);
    }
    match (uri_of(a), uri_of(b), uri_of(c)) {
        (Some(x), Some(y), Some(z)) => {
            lemma_text_below_total(x, y);
            lemma_text_below_total(y, z);
            lemma_text_below_total(x, z);
            lemma_text_below_total(x, x);
            if text_below(x, y) && text_below(y, z) {
                lemma_text_below_transitive(x, y, z);
            }
        },
        _ => {},
    }
    match (uri_of(a), uri_of(b)) {
        (Some(x), Some(y)) => {
            lemma_text_below_total(x, y);
            lemma_text_below_total(x, x);
        },
        _ => {},
    }
    match uri_of(a) {
        Some(x) => lemma_text_below_total(x, x),
        None => {},
    }
}

/// Node `a` is listed before node `b`, by id.
pub open spec fn id_first(m: RelationModel, a: NodeId, b: NodeId) -> bool {
    listed_first(node_of(m, a.0), node_of(m, b.0))
}

/// Whether `a` is below `b`.
fn below32(a: Option<u32>, b: Option<u32>) -> (r: bool)
    ensures
        r == opt_below(a, b),
{
    match (a, b) {
        (None, Some(_)) => true,
        (Some(x), Some(y)) => x < y,
        _ => false,
    }
}

/// Whether node `a` is listed before node `b`.
fn node_first(a: &GraphNode, b: &GraphNode) -> (r: bool)
    ensures
        r == listed_first(a@, b@),
{
    let ka: u8 = match a.kind {
        HierarchyKind::Call => 0,
        HierarchyKind::Type => 1,
    };
    let kb: u8 = match b.kind {
        HierarchyKind::Call => 0,
        HierarchyKind::Type => 1,
    };
    if ka != kb {
        return ka < kb;
    }
    let ua: Option<Vec<char>> = match &a.location {
        Some(l) => Some(chars_of(l.uri.as_str())),
        None => None,
    };
    let ub: Option<Vec<char>> = match &b.location {
        Some(l) => Some(chars_of(l.uri.as_str())),
        None => None,
    };
    assert(match ua {
        Some(v) => uri_of(a@) == Some(v@),
        None => uri_of(a@) is None,
    });
    assert(match ub {
        Some(v) => uri_of(b@) == Some(v@),
        None => uri_of(b@) is None,
    });
    match (&ua, &ub) {
        (None, Some(_)) => {
            return true;
        },
        (Some(_), None) => {
            return false;
        },
        (Some(x), Some(y)) => {
            let (lt, eq) = compare_text(x.as_slice(), y.as_slice());
            if !eq {
                return lt;
            }
        },
        (None, None) => {},
    }
    let la = match &a.location {
        Some(l) => l.line,
        None => None,
    };
    let lb = match &b.location {
        Some(l) => l.line,
        None => None,
    };
    assert(la == line_of(a@) && lb == line_of(b@));
    assert(uri_of(a@) == uri_of(b@));
    proof {
        match uri_of(a@) {
            Some(x) => lemma_text_below_total(x, x),
            None => {},
        }
        lemma_text_below_total(a@.symbol, a@.symbol);
    }
    assert(a.kind == b.kind);
    if la != lb {
        return below32(la, lb);
    }
    let ca = match &a.location {
        Some(l) => l.character,
        None => None,
    };
    let cb = match &b.location {
        Some(l) => l.character,
        None => None,
    };
    assert(ca == column_of(a@) && cb == column_of(b@));
    if ca != cb {
        return below32(ca, cb);
    }
    let sa = chars_of(a.symbol.as_str());
    let sb = chars_of(b.symbol.as_str());
    let (lt, eq) = compare_text(sa.as_slice(), sb.as_slice());
    if !eq {
        return lt;
    }
    a.id.0 < b.id.0
}

/// Whether node `a` is listed before node `b`.
fn id_before(graph: &RelationGraph, a: NodeId, b: NodeId) -> (r: bool)
    requires
        graph.well_formed(),
        live(graph@, a.0),
        live(graph@, b.0),
    ensures
        r == id_first(graph@, a, b),
{
    proof {
        lemma_live_resolves(graph, a.0);
        lemma_live_resolves(graph, b.0);
    }
    match (graph.node(a), graph.node(b)) {
        (Some(x), Some(y)) => node_first(x, y),
        _ => false,
    }
}

/// The nodes in listing order.
pub open spec fn sorted_by_listing(m: RelationModel, ns: Seq<NodeId>) -> bool {
    forall|i: int, j: int| 0 <= i < j < ns.len() ==> id_first(m, #[trigger] ns[i], #[trigger] ns[j])
}

/// `ns` lists the nodes of `nodes` in listing order.
pub open spec fn listing(m: RelationModel, nodes: Seq<NodeId>, ns: Seq<NodeId>) -> bool {
    &&& ns.len() == nodes.len()
    &&& forall|v: NodeId| ns.contains(v) <==> nodes.contains(v)
    &&& sorted_by_listing(m, ns)
}

/// Puts distinct live nodes in listing order.
fn sort_nodes(graph: &RelationGraph, ids: &Vec<NodeId>) -> (r: Vec<NodeId>)
    requires
        graph.well_formed(),
        ids@.no_duplicates(),
        forall|i: int| 0 <= i < ids@.len() ==> live(graph@, (#[trigger] ids@[i]).0),
    ensures
        listing(graph@, ids@, r@),
{
    let ghost m = graph@;
    let mut out: Vec<NodeId> = Vec::new();
    let mut k: usize = 0;
    while k < ids.len()
        invariant
            k <= ids@.len(),
            m == graph@,
            graph.well_formed(),
            ids@.no_duplicates(),
            forall|i: int| 0 <= i < ids@.len() ==> live(m, (#[trigger] ids@[i]).0),
            out@.len() == k,
            forall|v: NodeId| out@.contains(v) <==> ids@.take(k as int).contains(v),
            sorted_by_listing(m, out@),
        decreases ids@.len() - k,
    {
        let x = ids[k];
        assert(live(m, x.0));
        assert(!out@.contains(x)) by {
            if out@.contains(x) {
                let j = choose|j: int| 0 <= j < k && ids@.take(k as int)[j] == x;
                assert(ids@[j] == ids@[k as int]);
            }
        }
        assert forall|w: int| 0 <= w < out@.len() implies live(m, (#[trigger] out@[w]).0) by {
            assert(out@.contains(out@[w]));
            let j = choose|j: int| 0 <= j < k && ids@.take(k as int)[j] == out@[w];
            assert(ids@[j] == out@[w]);
        }
        let mut p: usize = 0;
        while p < out.len() && id_before(graph, out[p], x)
            invariant
                p <= out@.len(),
                m == graph@,
                graph.well_formed(),
                live(m, x.0),
                forall|w: int| 0 <= w < out@.len() ==> live(m, (#[trigger] out@[w]).0),
                forall|w: int| 0 <= w < p ==> id_first(m, #[trigger] out@[w], x),
            decreases out@.len() - p,
        {
            p = p + 1;
        }
        if p < out.len() {
            proof {
                lemma_live_node_id(graph, x.0);
                lemma_live_node_id(graph, out@[p as int].0);
                assert(out@[p as int] != x) by {
                    assert(out@.contains(out@[p as int]));
                }
                lemma_listing_order(node_of(m, out@[p as int].0), node_of(m, x.0), node_of(m, x.0));
            }
        }
        let ghost before = out@;
        out.insert(p, x);
        proof {
            assert forall|a: int, b: int| 0 <= a < b < out@.len() implies id_first(m, #[trigger] out@[a], #[trigger] out@[b]) by {
                if a < p && b < p {
                    assert(out@[a] == before[a] && out@[b] == before[b]);
                } else if a < p && b == p {
                    assert(out@[a] == before[a]);
                } else if a < p {
                    assert(out@[a] == before[a] && out@[b] == before[b - 1]);
                } else if a == p {
                    assert(out@[b] == before[b - 1]);
                    if b - 1 > p {
                        assert(id_first(m, before[p as int], before[b - 1]));
                        lemma_listing_order(node_of(m, x.0), node_of(m, before[p as int].0), node_of(m, before[b - 1].0));
                    }
                } else {
                    assert(out@[a] == before[a - 1] && out@[b] == before[b - 1]);
                }
            }
            assert(ids@.take(k + 1) =~= ids@.take(k as int).push(x));
            assert forall|v: NodeId| out@.contains(v) <==> ids@.take(k + 1).contains(v) by {
                if out@.contains(v) {
                    let j = choose|j: int| 0 <= j < out@.len() && out@[j] == v;
                    if j == p {
                        assert(ids@.take(k + 1)[k as int] == v);
                    } else {
                        if j < p {
                            assert(before[j] == v);
                        } else {
                            assert(before[j - 1] == v);
                        }
                        assert(before.contains(v));
                        assert(ids@.take(k as int).contains(v));
                        let i = choose|i: int| 0 <= i < k && ids@.take(k as int)[i] == v;
                        assert(ids@.take(k + 1)[i] == v);
                    }
                }
                if ids@.take(k + 1).contains(v) {
                    if v == x {
                        assert(out@[p as int] == x);
                    } else {
                        assert(ids@.take(k as int).contains(v));
                        assert(before.contains(v));
                        let j = choose|j: int| 0 <= j < before.len() && before[j] == v;
                        if j < p {
                            assert(out@[j] == v);
                        } else {
                            assert(out@[j + 1] == v);
                        }
                    }
                }
            }
        }
        k = k + 1;
    }
    assert(ids@.take(ids@.len() as int) =~= ids@);
    out
}

/// Where a node is in a listing.
pub open spec fn local(ns: Seq<NodeId>, v: NodeId) -> int {
    choose|i: int| 0 <= i < ns.len() && ns[i] == v
}

/// Relation `a` is listed before relation `b`: by the number of its source,
/// then of its target.
pub open spec fn edge_first(ns: Seq<NodeId>, a: VisibleEdge, b: VisibleEdge) -> bool {
    local(ns, a.source) < local(ns, b.source) || (local(ns, a.source) == local(ns, b.source) && local(ns, a.target)
        < local(ns, b.target))
}

/// `es` lists the relations of `edges` by the numbers of their ends in `ns`.
pub open spec fn edge_listing(ns: Seq<NodeId>, edges: Seq<VisibleEdge>, es: Seq<VisibleEdge>) -> bool {
    &&& es.len() == edges.len()
    &&& forall|e: VisibleEdge| es.contains(e) <==> edges.contains(e)
    &&& forall|i: int, j: int| 0 <= i < j < es.len() ==> edge_first(ns, #[trigger] es[i], #[trigger] es[j])
}

/// Where a node is in a listing without repeats.
fn local_of(ns: &Vec<NodeId>, v: NodeId) -> (r: usize)
    requires
        ns@.no_duplicates(),
        ns@.contains(v),
    ensures
        r == local(ns@, v),
        r < ns@.len(),
        ns@[r as int] == v,
{
    let mut i: usize = 0;
    while i < ns.len() && ns[i] != v
        invariant
            i <= ns@.len(),
            ns@.contains(v),
            forall|j: int| 0 <= j < i ==> ns@[j] != v,
        decreases ns@.len() - i,
    {
        i = i + 1;
    }
    if i == ns.len() {
        proof {
            let j = choose|j: int| 0 <= j < ns@.len() && ns@[j] == v;
            assert(false);
        }
        return 0;
    }
    proof {
        let j = local(ns@, v);
        assert(0 <= j < ns@.len() && ns@[j] == v);
        assert(j == i);
    }
    i
}

/// Whether relation `a` is listed before relation `b`.
fn edge_before(ns: &Vec<NodeId>, a: VisibleEdge, b: VisibleEdge) -> (r: bool)
    requires
        ns@.no_duplicates(),
        ns@.contains(a.source),
        ns@.contains(a.target),
        ns@.contains(b.source),
        ns@.contains(b.target),
    ensures
        r == edge_first(ns@, a, b),
{
    let sa = local_of(ns, a.source);
    let sb = local_of(ns, b.source);
    if sa != sb {
        return sa < sb;
    }
    local_of(ns, a.target) < local_of(ns, b.target)
}

/// Distinct relations of listed ends are listed one before the other.
proof fn lemma_edge_order(ns: Seq<NodeId>, a: VisibleEdge, b: VisibleEdge, c: VisibleEdge)
    requires
        ns.no_duplicates(),
        ns.contains(a.source),
        ns.contains(a.target),
        ns.contains(b.source),
        ns.contains(b.target),
    ensures
        !edge_first(ns, a, a),
        edge_first(ns, a, b) && edge_first(ns, b, c) ==> edge_first(ns, a, c),
        a != b ==> edge_first(ns, a, b) || edge_first(ns, b, a),
{
    let (i, j, k, l) = (local(ns, a.source), local(ns, b.source), local(ns, a.target), local(ns, b.target));
    assert(ns[i] == a.source && ns[j] == b.source && ns[k] == a.target && ns[l] == b.target);
}

/// Puts the relations in order of the numbers of their ends.
fn sort_edges(ns: &Vec<NodeId>, edges: &Vec<VisibleEdge>) -> (r: Vec<VisibleEdge>)
    requires
        ns@.no_duplicates(),
        edges@.no_duplicates(),
        forall|i: int| 0 <= i < edges@.len() ==> ns@.contains((#[trigger] edges@[i]).source) && ns@.contains(
            edges@[i].target,
        ),
    ensures
        edge_listing(ns@, edges@, r@),
{
    let mut out: Vec<VisibleEdge> = Vec::new();
    let mut k: usize = 0;
    while k < edges.len()
        invariant
            k <= edges@.len(),
            ns@.no_duplicates(),
            edges@.no_duplicates(),
            forall|i: int| 0 <= i < edges@.len() ==> ns@.contains((#[trigger] edges@[i]).source) && ns@.contains(
                edges@[i].target,
            ),
            out@.len() == k,
            forall|e: VisibleEdge| out@.contains(e) <==> edges@.take(k as int).contains(e),
            forall|i: int, j: int| 0 <= i < j < out@.len() ==> edge_first(ns@, #[trigger] out@[i], #[trigger] out@[j]),
        decreases edges@.len() - k,
    {
        let x = edges[k];
        assert(ns@.contains(edges@[k as int].source));
        assert(!out@.contains(x)) by {
            if out@.contains(x) {
                let j = choose|j: int| 0 <= j < k && edges@.take(k as int)[j] == x;
                assert(edges@[j] == edges@[k as int]);
            }
        }
        assert forall|w: int| 0 <= w < out@.len() implies ns@.contains((#[trigger] out@[w]).source) && ns@.contains(
            out@[w].target,
        ) by {
            assert(out@.contains(out@[w]));
            let j = choose|j: int| 0 <= j < k && edges@.take(k as int)[j] == out@[w];
            assert(edges@[j] == out@[w]);
        }
        let mut p: usize = 0;
        while p < out.len() && edge_before(ns, out[p], x)
            invariant
                p <= out@.len(),
                ns@.no_duplicates(),
                ns@.contains(x.source),
                ns@.contains(x.target),
                forall|w: int| 0 <= w < out@.len() ==> ns@.contains((#[trigger] out@[w]).source) && ns@.contains(
                    out@[w].target,
                ),
                forall|w: int| 0 <= w < p ==> edge_first(ns@, #[trigger] out@[w], x),
            decreases out@.len() - p,
        {
            p = p + 1;
        }
        if p < out.len() {
            proof {
                assert(out@[p as int] != x) by {
                    assert(out@.contains(out@[p as int]));
                }
                lemma_edge_order(ns@, out@[p as int], x, x);
            }
        }
        let ghost before = out@;
        out.insert(p, x);
        proof {
            assert forall|a: int, b: int| 0 <= a < b < out@.len() implies edge_first(ns@, #[trigger] out@[a], #[trigger] out@[b]) by {
                if a < p && b < p {
                    assert(out@[a] == before[a] && out@[b] == before[b]);
                } else if a < p && b == p {
                    assert(out@[a] == before[a]);
                } else if a < p {
                    assert(out@[a] == before[a] && out@[b] == before[b - 1]);
                } else if a == p {
                    assert(out@[b] == before[b - 1]);
                    if b - 1 > p {
                        assert(edge_first(ns@, before[p as int], before[b - 1]));
                        lemma_edge_order(ns@, x, before[p as int], before[b - 1]);
                    }
                } else {
                    assert(out@[a] == before[a - 1] && out@[b] == before[b - 1]);
                }
            }
            assert forall|e: VisibleEdge| out@.contains(e) <==> edges@.take(k + 1).contains(e) by {
                if out@.contains(e) {
                    let j = choose|j: int| 0 <= j < out@.len() && out@[j] == e;
                    if j == p {
                        assert(edges@.take(k + 1)[k as int] == e);
                    } else {
                        if j < p {
                            assert(before[j] == e);
                        } else {
                            assert(before[j - 1] == e);
                        }
                        assert(before.contains(e));
                        let i = choose|i: int| 0 <= i < k && edges@.take(k as int)[i] == e;
                        assert(edges@.take(k + 1)[i] == e);
                    }
                }
                if edges@.take(k + 1).contains(e) {
                    let t = edges@.take(k + 1);
                    let i = choose|i: int| 0 <= i < t.len() && t[i] == e;
                    if i == k {
                        assert(out@[p as int] == e);
                    } else {
                        assert(edges@.take(k as int)[i] == e);
                        assert(before.contains(e));
                        let j = choose|j: int| 0 <= j < before.len() && before[j] == e;
                        if j < p {
                            assert(out@[j] == e);
                        } else {
                            assert(out@[j + 1] == e);
                        }
                    }
                }
            }
        }
        k = k + 1;
    }
    assert(edges@.take(edges@.len() as int) =~= edges@);
    out
}

/// The word for a kind of node.
pub open spec fn kind_word(k: HierarchyKind) -> Seq<char> {
    match k {
        HierarchyKind::Call => "call"@,
        HierarchyKind::Type => "type"@,
    }
}

/// The two lines of the `i`th listed node: its number, kind, name and
/// whether it is an anchor, then its location.
pub open spec fn node_lines(m: RelationModel, ns: Seq<NodeId>, i: int) -> Seq<char> {
    let n = node_of(m, ns[i].0);
    "  ["@ + decimal((i + 1) as nat) + "] "@ + kind_word(n.kind) + "  "@ + inline(n.symbol) + (if m.anchors.contains(
        ns[i],
    ) {
        "  [anchor]"@
    } else {
        Seq::empty()
    }) + "\n      "@ + location_text(n.location) + "\n"@
}

/// The lines of the first `k` listed nodes.
pub open spec fn nodes_text(m: RelationModel, ns: Seq<NodeId>, k: int) -> Seq<char>
    decreases k,
{
    if k <= 0 {
        Seq::empty()
    } else {
        nodes_text(m, ns, k - 1) + node_lines(m, ns, k - 1)
    }
}

/// The line of a relation: the numbers and names of its ends.
pub open spec fn relation_line(m: RelationModel, ns: Seq<NodeId>, e: VisibleEdge) -> Seq<char> {
    "  ["@ + decimal((local(ns, e.source) + 1) as nat) + "] "@ + inline(node_of(m, e.source.0).symbol) + "  →  ["@
        + decimal((local(ns, e.target) + 1) as nat) + "] "@ + inline(node_of(m, e.target.0).symbol) + "\n"@
}

/// The lines of the first `k` listed relations.
pub open spec fn relations_text(m: RelationModel, ns: Seq<NodeId>, es: Seq<VisibleEdge>, k: int) -> Seq<char>
    decreases k,
{
    if k <= 0 {
        Seq::empty()
    } else {
        relations_text(m, ns, es, k - 1) + relation_line(m, ns, es[k - 1])
    }
}

/// The export: a header, the listed nodes and the listed relations.
pub open spec fn report(m: RelationModel, ns: Seq<NodeId>, es: Seq<VisibleEdge>) -> Seq<char> {
    "cgraph graph · text v1\n\n"@ + "Nodes ("@ + decimal(ns.len()) + ")\n"@ + nodes_text(m, ns, ns.len() as int)
        + "\nRelations ("@ + decimal(es.len()) + ")\n"@ + relations_text(m, ns, es, es.len() as int)
}

/// The nodes and relations a walk from the anchors finds, through every
/// branch that was fetched.
pub open spec fn known_walk(m: RelationModel, nodes: Seq<NodeId>, edges: Seq<VisibleEdge>) -> bool {
    &&& visible_ok(m, nodes, edges)
    &&& forall|i: int| 0 <= i < m.anchors.len() ==> nodes.contains(#[trigger] m.anchors[i])
    &&& forall|i: int| 0 <= i < nodes.len() ==> #[trigger] node_shown(m, nodes, edges, nodes[i], true)
    &&& crate::relation::walked(m, nodes, edges, true)
}

/// Writes every node and relation reachable from the anchors as text:
/// nodes numbered in listing order (calls before types, then by location,
/// name and id), so that the numbers do not depend on when nodes were made,
/// and relations by the numbers of their ends.
pub fn render_text(graph: &RelationGraph) -> (r: String)
    requires
        graph.well_formed(),
    ensures
        exists|nodes: Seq<NodeId>, edges: Seq<VisibleEdge>, ns: Seq<NodeId>, es: Seq<VisibleEdge>|
            #![trigger known_walk(graph@, nodes, edges), listing(graph@, nodes, ns), edge_listing(ns, edges, es)]
            {
                &&& known_walk(graph@, nodes, edges)
                &&& listing(graph@, nodes, ns)
                &&& edge_listing(ns, edges, es)
                &&& r@ == report(graph@, ns, es)
            },
{
    let ghost m = graph@;
    let known = graph.known_graph();
    assert(known_walk(m, known.nodes@, known.edges@));
    let ns = sort_nodes(graph, &known.nodes);
    assert(ns@.no_duplicates()) by {
        assert forall|i: int, j: int| 0 <= i < j < ns@.len() implies ns@[i] != ns@[j] by {
            assert(id_first(m, ns@[i], ns@[j]));
            lemma_listing_order(node_of(m, ns@[i].0), node_of(m, ns@[j].0), node_of(m, ns@[j].0));
        }
    }
    assert forall|i: int| 0 <= i < known.edges@.len() implies ns@.contains((#[trigger] known.edges@[i]).source)
        && ns@.contains(known.edges@[i].target) by {
        assert(known.nodes@.contains(known.edges@[i].source));
    }
    let es = sort_edges(&ns, &known.edges);
    let mut out = String::from_str("cgraph graph · text v1\n\n");
    out = append_text(out, "Nodes (");
    push_decimal(&mut out, ns.len() as u64);
    out = append_text(out, ")\n");
    let ghost head = out@;
    let mut i: usize = 0;
    while i < ns.len()
        invariant
            i <= ns@.len(),
            m == graph@,
            graph.well_formed(),
            forall|v: NodeId| ns@.contains(v) ==> known.nodes@.contains(v),
            forall|q: int| 0 <= q < known.nodes@.len() ==> live(m, (#[trigger] known.nodes@[q]).0),
            out@ == head + nodes_text(m, ns@, i as int),
        decreases ns@.len() - i,
    {
        let id = ns[i];
        assert(ns@.contains(id));
        assert(live(m, id.0));
        proof {
            lemma_live_resolves(graph, id.0);
        }
        let node = match graph.node(id) {
            Some(n) => n,
            None => {
                return String::new();
            },
        };
        let ghost before = out@;
        let mut line = append_text(String::new(), "  [");
        push_decimal(&mut line, i as u64 + 1);
        line = append_text(line, "] ");
        line = match node.kind {
            HierarchyKind::Call => append_text(line, "call"),
            HierarchyKind::Type => append_text(line, "type"),
        };
        line = append_text(line, "  ");
        line = push_inline(line, node.symbol.as_str());
        if graph.is_anchor(id) {
            line = append_text(line, "  [anchor]");
        }
        line = append_text(line, "\n      ");
        line = push_location(line, &node.location);
        line = append_text(line, "\n");
        proof {
            assert(line@ =~= node_lines(m, ns@, i as int));
        }
        out = append_text(out, line.as_str());
        i = i + 1;
    }
    out = append_text(out, "\nRelations (");
    push_decimal(&mut out, es.len() as u64);
    out = append_text(out, ")\n");
    let ghost head2 = out@;
    let mut k: usize = 0;
    while k < es.len()
        invariant
            k <= es@.len(),
            m == graph@,
            graph.well_formed(),
            ns@.no_duplicates(),
            forall|v: NodeId| ns@.contains(v) ==> known.nodes@.contains(v),
            forall|q: int| 0 <= q < known.nodes@.len() ==> live(m, (#[trigger] known.nodes@[q]).0),
            forall|e: VisibleEdge| es@.contains(e) <==> known.edges@.contains(e),
            forall|q: int| 0 <= q < known.edges@.len() ==> ns@.contains((#[trigger] known.edges@[q]).source) && ns@.contains(
                known.edges@[q].target,
            ),
            out@ == head2 + relations_text(m, ns@, es@, k as int),
        decreases es@.len() - k,
    {
        let e = es[k];
        assert(es@.contains(e));
        let ghost ke = known.edges@;
        let ghost qi = choose|q: int| 0 <= q < ke.len() && ke[q] == e;
        assert(ns@.contains(ke[qi].source));
        let s = local_of(&ns, e.source);
        let t = local_of(&ns, e.target);
        assert(known.nodes@.contains(e.source) && known.nodes@.contains(e.target));
        proof {
            lemma_live_resolves(graph, e.source.0);
            lemma_live_resolves(graph, e.target.0);
        }
        let (source, target) = match (graph.node(e.source), graph.node(e.target)) {
            (Some(a), Some(b)) => (a, b),
            _ => {
                return String::new();
            },
        };
        let mut line = append_text(String::new(), "  [");
        let count = ns.len();
        push_decimal(&mut line, (s + 1) as u64);
        line = append_text(line, "] ");
        line = push_inline(line, source.symbol.as_str());
        line = append_text(line, "  →  [");
        push_decimal(&mut line, (t + 1) as u64);
        line = append_text(line, "] ");
        line = push_inline(line, target.symbol.as_str());
        line = append_text(line, "\n");
        proof {
            assert(line@ =~= relation_line(m, ns@, e));
        }
        out = append_text(out, line.as_str());
        k = k + 1;
    }
    proof {
        assert(out@ =~= report(m, ns@, es@));
        assert(listing(m, known.nodes@, ns@));
        assert(edge_listing(ns@, known.edges@, es@));
    }
    out
}

/// The listing of a set of nodes is unique: the numbers the export gives
/// depend on the nodes alone, not on the order in which they were found.
pub proof fn lemma_listing_unique(m: RelationModel, a: Seq<NodeId>, b: Seq<NodeId>)
    requires
        sorted_by_listing(m, a),
        sorted_by_listing(m, b),
        a.len() == b.len(),
        forall|v: NodeId| a.contains(v) <==> b.contains(v),
    ensures
        a == b,
    decreases a.len(),
{
    if a.len() == 0 {
        assert(a =~= b);
    } else {
        if a[0] != b[0] {
            assert(b.contains(a[0]));
            assert(a.contains(b[0]));
            let k = choose|k: int| 0 <= k < b.len() && b[k] == a[0];
            let j = choose|j: int| 0 <= j < a.len() && a[j] == b[0];
            assert(id_first(m, a[0], a[j]));
            assert(id_first(m, b[0], b[k]));
            lemma_listing_order(node_of(m, a[0].0), node_of(m, b[0].0), node_of(m, a[0].0));
        }
        let (a1, b1) = (a.drop_first(), b.drop_first());
        assert forall|v: NodeId| a1.contains(v) <==> b1.contains(v) by {
            if a1.contains(v) {
                let j = choose|j: int| 0 <= j < a1.len() && a1[j] == v;
                assert(a[j + 1] == v);
                assert(id_first(m, a[0], a[j + 1]));
                lemma_listing_order(node_of(m, v.0), node_of(m, v.0), node_of(m, v.0));
                assert(b.contains(v));
                let k = choose|k: int| 0 <= k < b.len() && b[k] == v;
                assert(k != 0);
                assert(b1[k - 1] == v);
            }
            if b1.contains(v) {
                let j = choose|j: int| 0 <= j < b1.len() && b1[j] == v;
                assert(b[j + 1] == v);
                assert(id_first(m, b[0], b[j + 1]));
                lemma_listing_order(node_of(m, v.0), node_of(m, v.0), node_of(m, v.0));
                assert(a.contains(v));
                let k = choose|k: int| 0 <= k < a.len() && a[k] == v;
                assert(k != 0);
                assert(a1[k - 1] == v);
            }
        }
        assert forall|i: int, j: int| 0 <= i < j < a1.len() implies id_first(m, #[trigger] a1[i], #[trigger] a1[j]) by {
            assert(a1[i] == a[i + 1] && a1[j] == a[j + 1]);
        }
        assert forall|i: int, j: int| 0 <= i < j < b1.len() implies id_first(m, #[trigger] b1[i], #[trigger] b1[j]) by {
            assert(b1[i] == b[i + 1] && b1[j] == b[j + 1]);
        }
        lemma_listing_unique(m, a1, b1);
        assert(a =~= seq![a[0]] + a1);
        assert(b =~= seq![b[0]] + b1);
    }
}

/// Why the export cannot be written to `path`: an empty path is refused.
pub fn destination_error(path: &str) -> (r: Option<String>)
    ensures
        (r is Some) == (path@.len() == 0),
        r matches Some(e) ==> e@ == "destination path is empty"@,
{
    if path.unicode_len() == 0 {
        Some(String::from_str("destination path is empty"))
    } else {
        None
    }
}

} // verus!
