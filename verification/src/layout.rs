//! The world layout of the visible graph: a column for each rank of the
//! strongly connected components, the selected node at the origin, and how
//! each relation is drawn.
use vstd::prelude::*;

use crate::graph::VisibleEdge;
use crate::relation::{node_of, resolve, RelationGraph};
use crate::state::NodeId;

verus! {

/// The least width of a node's slot.
pub const ROOT_NODE_WIDTH: u16 = 28;
/// The height of a node's slot.
pub const ROOT_NODE_HEIGHT: u16 = 3;
/// The gap between two columns.
pub const ROOT_COLUMN_GAP: u16 = 4;
/// The gap between two rows.
pub const ROOT_ROW_GAP: u16 = 1;
/// The width a slot needs beside its text: border, padding and buttons.
pub const NODE_CHROME_WIDTH: u16 = 8;

/// A rectangle in unbounded canvas coordinates.
#[derive(Clone, Copy, Debug, PartialEq, Eq, Structural)]
pub struct WorldRect {
    pub x: i32,
    pub y: i32,
    pub width: u16,
    pub height: u16,
}

/// Where one node sits on the canvas.
#[derive(Clone, Copy, Debug, PartialEq, Eq, Structural)]
pub struct WorldNodePlacement {
    pub node_id: NodeId,
    pub slot: WorldRect,
}

/// How a relation is drawn: forward to a later column, back or within a
/// cycle, or from a node to itself.
#[derive(Clone, Copy, Debug, PartialEq, Eq, Structural)]
pub enum EdgeVisualKind {
    Forward,
    BackOrCycle,
    SelfLoop,
}

impl EdgeVisualKind {
    /// Whether the relation is drawn in the special style.
    pub fn is_special(self) -> (r: bool)
        ensures
            r == (self != EdgeVisualKind::Forward),
    {
        match self {
            EdgeVisualKind::Forward => false,
            _ => true,
        }
    }
}

/// A relation between two placed nodes.
#[derive(Clone, Copy, Debug, PartialEq, Eq, Structural)]
pub struct LayoutEdge {
    pub source_id: NodeId,
    pub target_id: NodeId,
    pub visual_kind: EdgeVisualKind,
}

/// The placed nodes and the relations between them.
#[derive(Clone, Debug, PartialEq, Eq)]
pub struct WorldLayoutSnapshot {
    pub nodes: Vec<WorldNodePlacement>,
    pub edges: Vec<LayoutEdge>,
}

/// `x` held to the range of `i32`.
pub open spec fn clamp32(x: int) -> int {
    if x > i32::MAX {
        i32::MAX as int
    } else if x < i32::MIN {
        i32::MIN as int
    } else {
        x
    }
}

/// `a + b` held to the range of `i32`.
fn sat_add(a: i32, b: i32) -> (r: i32)
    ensures
        r == clamp32(a + b),
{
    let s: i64 = a as i64 + b as i64;
    if s > i32::MAX as i64 {
        i32::MAX
    } else if s < i32::MIN as i64 {
        i32::MIN
    } else {
        s as i32
    }
}

/// `a - b` held to the range of `i32`.
fn sat_sub(a: i32, b: i32) -> (r: i32)
    ensures
        r == clamp32(a - b),
{
    let s: i64 = a as i64 - b as i64;
    if s > i32::MAX as i64 {
        i32::MAX
    } else if s < i32::MIN as i64 {
        i32::MIN
    } else {
        s as i32
    }
}

/// The row of the `index`-th node of the selected column: the selection in
/// the middle, then alternately below and above it.
pub open spec fn alternating(index: int) -> int {
    if index == 0 {
        0
    } else if index % 2 == 1 {
        (index + 1) / 2
    } else {
        -(index / 2)
    }
}

/// The row of the `index`-th node of the selected column.
pub fn alternating_row(index: usize) -> (r: i32)
    requires
        index <= i32::MAX,
    ensures
        r == alternating(index as int),
{
    if index == 0 {
        0
    } else if index % 2 == 1 {
        ((index + 1) / 2) as i32
    } else {
        -((index / 2) as i32)
    }
}

/// Whether two rectangles share a cell, with their far edges held to the
/// range of `i32`.
pub open spec fn rects_overlap(left: WorldRect, right: WorldRect) -> bool {
    &&& left.x < clamp32(right.x + right.width)
    &&& right.x < clamp32(left.x + left.width)
    &&& left.y < clamp32(right.y + right.height)
    &&& right.y < clamp32(left.y + left.height)
}

/// Whether two rectangles share a cell.
pub fn world_rects_overlap(left: WorldRect, right: WorldRect) -> (r: bool)
    ensures
        r == rects_overlap(left, right),
{
    left.x < sat_add(right.x, right.width as i32) && right.x < sat_add(left.x, left.width as i32) && left.y
        < sat_add(right.y, right.height as i32) && right.y < sat_add(left.y, left.height as i32)
}

/// The left edges of the columns right of the origin: each starts a gap
/// after the right edge of the one before.
pub open spec fn right_columns(widths: Seq<u16>, previous_right: int) -> Seq<int>
    decreases widths.len(),
{
    if widths.len() == 0 {
        seq![]
    } else {
        let x = clamp32(previous_right + ROOT_COLUMN_GAP);
        seq![x] + right_columns(widths.drop_first(), clamp32(x + widths[0]))
    }
}

/// The left edges of the columns left of the origin, nearest first: each
/// ends a gap before the left edge of the one after it.
pub open spec fn left_columns(widths: Seq<u16>, next_left: int) -> Seq<int>
    decreases widths.len(),
{
    if widths.len() == 0 {
        seq![]
    } else {
        let x = clamp32(clamp32(next_left - ROOT_COLUMN_GAP) - widths[0]);
        seq![x] + left_columns(widths.drop_first(), x)
    }
}

/// The ranks are strictly increasing.
pub open spec fn increasing(ranks: Seq<i32>) -> bool {
    forall|i: int, j: int| 0 <= i < j < ranks.len() ==> ranks[i] < ranks[j]
}

/// Where the columns of the given ranks start: the origin column centred on
/// zero, the others packed outwards from it with a gap between columns.
pub open spec fn column_x(ranks: Seq<i32>, widths: Seq<u16>, k: int) -> int {
    let z = zero_index(ranks);
    let zero_width: int = if z < ranks.len() && ranks[z] == 0 {
        widths[z] as int
    } else {
        ROOT_NODE_WIDTH as int
    };
    let first_right = if z < ranks.len() && ranks[z] == 0 {
        z + 1
    } else {
        z
    };
    if ranks[k] == 0 {
        -(zero_width / 2)
    } else if ranks[k] > 0 {
        right_columns(widths.subrange(first_right, widths.len() as int), zero_width - zero_width / 2)[k - first_right]
    } else {
        left_columns(widths.subrange(0, z).reverse(), -(zero_width / 2))[z - 1 - k]
    }
}

/// The position of the first rank that is not negative.
pub open spec fn zero_index(ranks: Seq<i32>) -> int
    decreases ranks.len(),
{
    if ranks.len() == 0 || ranks[0] >= 0 {
        0
    } else {
        1 + zero_index(ranks.drop_first())
    }
}

/// The ranks before the first one that is not negative are negative, the
/// others are not.
proof fn lemma_zero_index(ranks: Seq<i32>)
    requires
        increasing(ranks),
    ensures
        0 <= zero_index(ranks) <= ranks.len(),
        forall|i: int| 0 <= i < zero_index(ranks) ==> ranks[i] < 0,
        forall|i: int| zero_index(ranks) <= i < ranks.len() ==> ranks[i] >= 0,
    decreases ranks.len(),
{
    if ranks.len() > 0 && ranks[0] < 0 {
        let rest = ranks.drop_first();
        assert(increasing(rest)) by {
            assert forall|i: int, j: int| 0 <= i < j < rest.len() implies rest[i] < rest[j] by {
                assert(rest[i] == ranks[i + 1] && rest[j] == ranks[j + 1]);
            }
        }
        lemma_zero_index(rest);
        assert forall|i: int| 0 <= i < zero_index(ranks) implies ranks[i] < 0 by {
            if i > 0 {
                assert(ranks[i] == rest[i - 1]);
            }
        }
        assert forall|i: int| zero_index(ranks) <= i < ranks.len() implies ranks[i] >= 0 by {
            assert(ranks[i] == rest[i - 1]);
        }
    } else if ranks.len() > 0 {
        assert forall|i: int| 0 <= i < ranks.len() implies ranks[i] >= 0 by {
            if i > 0 {
                assert(ranks[0] < ranks[i]);
            }
        }
    }
}

proof fn lemma_right_columns_len(widths: Seq<u16>, previous_right: int)
    ensures
        right_columns(widths, previous_right).len() == widths.len(),
    decreases widths.len(),
{
    if widths.len() > 0 {
        lemma_right_columns_len(widths.drop_first(), clamp32(clamp32(previous_right + ROOT_COLUMN_GAP) + widths[0]));
    }
}

proof fn lemma_left_columns_len(widths: Seq<u16>, next_left: int)
    ensures
        left_columns(widths, next_left).len() == widths.len(),
    decreases widths.len(),
{
    if widths.len() > 0 {
        lemma_left_columns_len(widths.drop_first(), clamp32(clamp32(next_left - ROOT_COLUMN_GAP) - widths[0]));
    }
}

/// The left edge of each column, for strictly increasing ranks with the
/// width of each column.
pub fn column_positions(ranks: &[i32], widths: &[u16]) -> (r: Vec<i32>)
    requires
        ranks@.len() == widths@.len(),
        increasing(ranks@),
    ensures
        r@.len() == ranks@.len(),
        forall|k: int| 0 <= k < ranks@.len() ==> #[trigger] r@[k] == column_x(ranks@, widths@, k),
{
    let n = ranks.len();
    proof {
        lemma_zero_index(ranks@);
    }
    let ghost zi = zero_index(ranks@);
    let mut z: usize = 0;
    while z < n && ranks[z] < 0
        invariant
            z <= n,
            n == ranks@.len(),
            z <= zi,
            0 <= zi <= n,
            forall|i: int| 0 <= i < zi ==> ranks@[i] < 0,
            forall|i: int| zi <= i < n ==> ranks@[i] >= 0,
        decreases n - z,
    {
        z = z + 1;
    }
    assert(z == zi);
    let has_zero = z < n && ranks[z] == 0;
    let zero_width: i32 = if has_zero {
        widths[z] as i32
    } else {
        ROOT_NODE_WIDTH as i32
    };
    let first_right = if has_zero {
        z + 1
    } else {
        z
    };
    let mut out: Vec<i32> = Vec::new();
    let mut i: usize = 0;
    while i < n
        invariant
            i <= n,
            out@.len() == i,
            forall|q: int| 0 <= q < i ==> out@[q] == 0,
        decreases n - i,
    {
        out.push(0);
        i = i + 1;
    }
    if has_zero {
        out.set(z, -(zero_width / 2));
    }
    let ghost wz = zero_width as int;
    let ghost rights = widths@.subrange(first_right as int, n as int);
    let ghost lefts = widths@.subrange(0, z as int).reverse();
    proof {
        lemma_right_columns_len(rights, wz - wz / 2);
        lemma_left_columns_len(lefts, -(wz / 2));
    }
    let mut previous_right: i32 = zero_width - zero_width / 2;
    let mut k: usize = first_right;
    while k < n
        invariant
            first_right <= k <= n,
            n == ranks@.len() && n == widths@.len(),
            out@.len() == n,
            rights == widths@.subrange(first_right as int, n as int),
            right_columns(rights, wz - wz / 2).len() == rights.len(),
            right_columns(rights, wz - wz / 2).subrange(k - first_right, rights.len() as int) == right_columns(
                widths@.subrange(k as int, n as int),
                previous_right as int,
            ),
            forall|q: int| first_right <= q < k ==> #[trigger] out@[q] == right_columns(rights, wz - wz / 2)[q - first_right],
            forall|q: int| 0 <= q < first_right ==> #[trigger] out@[q] == (if has_zero && q == z {
                -(wz / 2)
            } else {
                0
            }),
        decreases n - k,
    {
        let ghost tail = widths@.subrange(k as int, n as int);
        let x = sat_add(previous_right, ROOT_COLUMN_GAP as i32);
        proof {
            assert(right_columns(tail, previous_right as int)[0] == x);
            assert(right_columns(rights, wz - wz / 2)[k - first_right] == right_columns(
                rights,
                wz - wz / 2,
            ).subrange(k - first_right, rights.len() as int)[0]);
            assert(tail.drop_first() =~= widths@.subrange(k + 1, n as int));
            assert(tail[0] == widths@[k as int]);
            let next_right = clamp32(x + widths@[k as int]);
            lemma_right_columns_len(tail, previous_right as int);
            assert(right_columns(tail, previous_right as int) =~= seq![x as int] + right_columns(tail.drop_first(), next_right));
            assert(right_columns(rights, wz - wz / 2).subrange(k + 1 - first_right, rights.len() as int) =~= right_columns(
                rights,
                wz - wz / 2,
            ).subrange(k - first_right, rights.len() as int).drop_first());
        }
        out.set(k, x);
        previous_right = sat_add(x, widths[k] as i32);
        k = k + 1;
    }
    let mut next_left: i32 = -(zero_width / 2);
    let mut j: usize = z;
    proof {
        assert(lefts.subrange(0, lefts.len() as int) =~= lefts);
    }
    while j > 0
        invariant
            j <= z,
            z <= n,
            n == ranks@.len() && n == widths@.len(),
            out@.len() == n,
            lefts == widths@.subrange(0, z as int).reverse(),
            left_columns(lefts, -(wz / 2)).len() == lefts.len(),
            left_columns(lefts, -(wz / 2)).subrange(z - j, lefts.len() as int) == left_columns(
                lefts.subrange(z - j, lefts.len() as int),
                next_left as int,
            ),
            forall|q: int| j <= q < z ==> #[trigger] out@[q] == left_columns(lefts, -(wz / 2))[z - 1 - q],
            forall|q: int| first_right <= q < n ==> #[trigger] out@[q] == right_columns(rights, wz - wz / 2)[q - first_right],
            has_zero ==> z < n && out@[z as int] == -(wz / 2),
            first_right == (if has_zero { z + 1 } else { z as int }),
        decreases j,
    {
        let ghost tail = lefts.subrange(z - j, lefts.len() as int);
        let x = sat_sub(sat_sub(next_left, ROOT_COLUMN_GAP as i32), widths[j - 1] as i32);
        proof {
            assert(tail[0] == lefts[z - j]);
            assert(lefts[z - j] == widths@[j - 1]);
            assert(left_columns(tail, next_left as int)[0] == x);
            assert(left_columns(lefts, -(wz / 2))[z - j] == left_columns(lefts, -(wz / 2)).subrange(z - j, lefts.len() as int)[0]);
            lemma_left_columns_len(tail, next_left as int);
            assert(left_columns(tail, next_left as int) =~= seq![x as int] + left_columns(tail.drop_first(), x as int));
            assert(tail.drop_first() =~= lefts.subrange(z - j + 1, lefts.len() as int));
            assert(left_columns(lefts, -(wz / 2)).subrange(z - j + 1, lefts.len() as int) =~= left_columns(
                lefts,
                -(wz / 2),
            ).subrange(z - j, lefts.len() as int).drop_first());
        }
        out.set(j - 1, x);
        next_left = x;
        j = j - 1;
    }
    proof {
        assert forall|k: int| 0 <= k < ranks@.len() implies #[trigger] out@[k] == column_x(ranks@, widths@, k) by {
            if k < z {
                assert(ranks@[k] < 0);
            } else if has_zero && k == z {
                assert(ranks@[k] == 0);
            } else {
                assert(ranks@[k] >= 0);
                assert(ranks@[k] != 0 || !has_zero);
                if ranks@[k] == 0 {
                    assert(k == z);
                }
            }
        }
    }
    out
}

/// The number of terminal columns `unicode-width` gives a text.
pub uninterp spec fn text_width(s: Seq<char>) -> usize;

/// Measures a text with `UnicodeWidthStr::width`; the width is named
/// `text_width`.
#[verifier::external_body]
pub fn display_width(s: &str) -> (r: usize)
    ensures
        r == text_width(s@),
{
    unicode_width::UnicodeWidthStr::width(s)
}

/// The width of the slot for a node named `symbol`: its text and chrome,
/// at least the root width, at most what a `u16` holds.
pub open spec fn slot_width(symbol: Seq<char>) -> u16 {
    let content = if text_width(symbol) > u16::MAX - NODE_CHROME_WIDTH {
        (u16::MAX - NODE_CHROME_WIDTH) as int
    } else {
        text_width(symbol) as int
    };
    if content + NODE_CHROME_WIDTH > ROOT_NODE_WIDTH {
        (content + NODE_CHROME_WIDTH) as u16
    } else {
        ROOT_NODE_WIDTH
    }
}

/// The width of the slot for the node an id stands for; the root width for
/// an id that stands for none.
pub fn node_slot_width(graph: &RelationGraph, node_id: NodeId) -> (r: u16)
    requires
        graph.well_formed(),
    ensures
        r == match resolve(graph@, node_id) {
            Some(x) => slot_width(node_of(graph@, x.0).symbol),
            None => ROOT_NODE_WIDTH,
        },
{
    let content: usize = match graph.node(node_id) {
        Some(node) => display_width(node.symbol.as_str()),
        None => 0,
    };
    let capped: u16 = if content > (u16::MAX - NODE_CHROME_WIDTH) as usize {
        u16::MAX - NODE_CHROME_WIDTH
    } else {
        content as u16
    };
    let total = capped + NODE_CHROME_WIDTH;
    if total > ROOT_NODE_WIDTH {
        total
    } else {
        ROOT_NODE_WIDTH
    }
}

/// The strongly connected components that `petgraph::algo::kosaraju_scc`
/// finds in the graph with nodes `0..node_count` and the given edges, each
/// as the list of its nodes, in the order the algorithm emits them.
pub uninterp spec fn components_of(node_count: nat, edges: Seq<(usize, usize)>) -> Seq<Seq<usize>>;

/// The lists as sequences.
pub open spec fn lists_view(v: Seq<Vec<usize>>) -> Seq<Seq<usize>> {
    Seq::new(v.len(), |i: int| v[i]@)
}

/// Builds a `petgraph` directed graph with nodes `0..node_count` and the
/// given edges and runs `kosaraju_scc` on it; the components are named
/// `components_of`. Node indices are `usize`, so adding the nodes cannot
/// run out of indices.
#[verifier::external_body]
fn strongly_connected_components(node_count: usize, edges: &Vec<(usize, usize)>) -> (r: Vec<Vec<usize>>)
    requires
        node_count < usize::MAX,
        forall|k: int| 0 <= k < edges@.len() ==> (#[trigger] edges@[k]).0 < node_count && edges@[k].1 < node_count,
    ensures
        lists_view(r@) == components_of(node_count as nat, edges@),
{
    let mut graph = petgraph::graph::DiGraph::<(), (), usize>::with_capacity(node_count, edges.len());
    for _ in 0..node_count {
        graph.add_node(());
    }
    graph.extend_with_edges(edges.iter().copied());
    petgraph::algo::kosaraju_scc(&graph).into_iter().map(|c| c.into_iter().map(|i| i.index()).collect()).collect()
}

/// The last component that lists node `i`, if any.
pub open spec fn scc_index(sccs: Seq<Seq<usize>>, i: int) -> Option<int>
    decreases sccs.len(),
{
    if sccs.len() == 0 {
        None
    } else if sccs.last().contains(i as usize) && 0 <= i {
        Some(sccs.len() - 1)
    } else {
        scc_index(sccs.drop_last(), i)
    }
}

/// Two nodes are in one component: the same node, or listed last by the
/// same component.
pub open spec fn same_component(sccs: Seq<Seq<usize>>, i: int, j: int) -> bool {
    i == j || (scc_index(sccs, i) is Some && scc_index(sccs, i) == scc_index(sccs, j))
}

/// A component that lists a node is one of the components.
proof fn lemma_scc_index_range(sccs: Seq<Seq<usize>>, i: int)
    ensures
        scc_index(sccs, i) matches Some(x) ==> 0 <= x < sccs.len(),
    decreases sccs.len(),
{
    if sccs.len() > 0 {
        lemma_scc_index_range(sccs.drop_last(), i);
    }
}

/// The first of the first `p` nodes listed by component `x`, if any.
fn first_with(raw: &Vec<Option<usize>>, p: usize, x: usize) -> (r: Option<usize>)
    requires
        p <= raw@.len(),
    ensures
        match r {
            Some(w) => w < p && raw@[w as int] == Some(x),
            None => forall|q: int| 0 <= q < p ==> raw@[q] != Some(x),
        },
{
    let mut w: usize = 0;
    while w < p
        invariant
            w <= p,
            p <= raw@.len(),
            forall|q: int| 0 <= q < w ==> raw@[q] != Some(x),
        decreases p - w,
    {
        if raw[w] == Some(x) {
            return Some(w);
        }
        w = w + 1;
    }
    None
}

/// Numbers the components of nodes `0..n` in the order their first node
/// appears; a node that no component lists is one of its own.
fn assign_components(n: usize, sccs: &Vec<Vec<usize>>) -> (r: Vec<usize>)
    ensures
        r@.len() == n,
        forall|i: int| 0 <= i < n ==> #[trigger] r@[i] <= i,
        forall|i: int, j: int| 0 <= i < n && 0 <= j < n ==> (r@[i] == r@[j] <==> same_component(lists_view(sccs@), i, j)),
{
    let ghost all = lists_view(sccs@);
    let sccs_len = sccs.len();
    let mut raw: Vec<Option<usize>> = Vec::new();
    let mut i: usize = 0;
    while i < n
        invariant
            i <= n,
            raw@.len() == i,
            forall|q: int| 0 <= q < i ==> raw@[q] is None,
        decreases n - i,
    {
        raw.push(None);
        i = i + 1;
    }
    let mut c: usize = 0;
    assert(all.subrange(0, 0) =~= Seq::<Seq<usize>>::empty());
    while c < sccs.len()
        invariant
            c <= sccs@.len(),
            all == lists_view(sccs@),
            raw@.len() == n,
            forall|q: int| 0 <= q < n ==> #[trigger] raw@[q] == match scc_index(all.subrange(0, c as int), q) {
                Some(x) => Some(x as usize),
                None => None::<usize>,
            },
        decreases sccs@.len() - c,
    {
        let members = &sccs[c];
        let mut k: usize = 0;
        let ghost before = raw@;
        while k < members.len()
            invariant
                k <= members@.len(),
                members@ == all[c as int],
                raw@.len() == n,
                c < sccs@.len(),
                forall|q: int| 0 <= q < n ==> #[trigger] raw@[q] == if members@.subrange(0, k as int).contains(q as usize) {
                    Some(c)
                } else {
                    before[q]
                },
            decreases members@.len() - k,
        {
            let m = members[k];
            if m < n {
                raw.set(m, Some(c));
            }
            proof {
                assert forall|q: int| 0 <= q < n implies #[trigger] raw@[q] == if members@.subrange(0, k + 1).contains(q as usize) {
                    Some(c)
                } else {
                    before[q]
                } by {
                    assert(members@.subrange(0, k + 1) =~= members@.subrange(0, k as int).push(m));
                    if q as usize == m {
                        assert(members@.subrange(0, k + 1)[k as int] == m);
                    }
                }
            }
            k = k + 1;
        }
        proof {
            assert(members@.subrange(0, members@.len() as int) =~= members@);
            assert forall|q: int| 0 <= q < n implies #[trigger] raw@[q] == match scc_index(all.subrange(0, c + 1), q) {
                Some(x) => Some(x as usize),
                None => None::<usize>,
            } by {
                let pre = all.subrange(0, c + 1);
                assert(pre.last() == all[c as int]);
                assert(pre.drop_last() =~= all.subrange(0, c as int));
            }
        }
        c = c + 1;
    }
    assert(all.subrange(0, sccs@.len() as int) =~= all);
    let mut ids: Vec<usize> = Vec::new();
    let mut next: usize = 0;
    let mut p: usize = 0;
    while p < n
        invariant
            p <= n,
            raw@.len() == n,
            ids@.len() == p,
            next <= p,
            all.len() == sccs_len,
            forall|q: int| 0 <= q < n ==> #[trigger] raw@[q] == match scc_index(all, q) {
                Some(x) => Some(x as usize),
                None => None::<usize>,
            },
            forall|q: int| 0 <= q < p ==> #[trigger] ids@[q] < next && ids@[q] <= q,
            forall|q: int, w: int| 0 <= q < p && 0 <= w < p ==> (ids@[q] == ids@[w] <==> same_component(all, q, w)),
        decreases n - p,
    {
        let found = match raw[p] {
            Some(x) => first_with(&raw, p, x),
            None => None,
        };
        let ghost old_next = next;
        let id = match found {
            Some(w) => ids[w],
            None => {
                let f = next;
                next = next + 1;
                f
            },
        };
        proof {
            lemma_scc_index_range(all, p as int);
            assert forall|q: int| 0 <= q < p implies (ids@[q] == id <==> same_component(all, q, p as int)) by {
                lemma_scc_index_range(all, q);
                match found {
                    Some(w) => {
                        lemma_scc_index_range(all, w as int);
                        assert(raw@[w as int] == raw@[p as int]);
                        let a = scc_index(all, w as int).unwrap();
                        let b = scc_index(all, p as int).unwrap();
                        assert(a as usize == b as usize);
                        assert(a == b);
                        assert(scc_index(all, w as int) == scc_index(all, p as int));
                        assert(same_component(all, q, w as int) == (ids@[q] == ids@[w as int]));
                    },
                    None => {
                        assert(ids@[q] < old_next);
                        if scc_index(all, q) is Some && scc_index(all, q) == scc_index(all, p as int) {
                            assert(raw@[q] == raw@[p as int]);
                        }
                    },
                }
            }
        }
        let ghost before = ids@;
        ids.push(id);
        proof {
            assert forall|q: int, w: int| 0 <= q < p + 1 && 0 <= w < p + 1 implies (ids@[q] == ids@[w] <==> same_component(all, q, w)) by {
                if q < p && w < p {
                    assert(ids@[q] == before[q] && ids@[w] == before[w]);
                }
            }
        }
        p = p + 1;
    }
    ids
}

/// A list of distinct indices below `n` has at most `n` entries.
proof fn lemma_distinct_below(s: Seq<usize>, n: usize)
    requires
        s.no_duplicates(),
        forall|k: int| 0 <= k < s.len() ==> #[trigger] s[k] < n,
    ensures
        s.len() <= n,
{
    let t = s.map_values(|x: usize| x as int);
    assert(t.no_duplicates()) by {
        assert forall|i: int, j: int| 0 <= i < j < t.len() implies t[i] != t[j] by {
            assert(s[i] != s[j]);
        }
    }
    t.unique_seq_to_set();
    vstd::set_lib::lemma_int_range(0, n as int);
    assert(t.to_set().subset_of(vstd::set_lib::set_int_range(0, n as int))) by {
        assert forall|x: int| t.to_set().contains(x) implies vstd::set_lib::set_int_range(0, n as int).contains(x) by {
            let k = choose|k: int| 0 <= k < t.len() && t[k] == x;
            assert(s[k] < n);
        }
    }
    vstd::set_lib::lemma_len_subset(t.to_set(), vstd::set_lib::set_int_range(0, n as int));
}

/// Whether `x` is in the list.
fn listed(list: &Vec<usize>, x: usize) -> (r: bool)
    ensures
        r == list@.contains(x),
{
    let mut i: usize = 0;
    while i < list.len()
        invariant
            i <= list@.len(),
            forall|j: int| 0 <= j < i ==> list@[j] != x,
        decreases list@.len() - i,
    {
        if list[i] == x {
            assert(list@[i as int] == x);
            return true;
        }
        i = i + 1;
    }
    false
}

/// The column rank of each of `count` components: components that no other
/// component leads to start at zero, and walking the components from those,
/// each component a relation leads to is placed at least one column after
/// the component it comes from.
fn component_ranks(count: usize, comp: &Vec<usize>, edges: &Vec<(usize, usize)>) -> (r: Vec<i32>)
    requires
        forall|i: int| 0 <= i < comp@.len() ==> #[trigger] comp@[i] < count,
        forall|k: int| 0 <= k < edges@.len() ==> (#[trigger] edges@[k]).0 < comp@.len() && edges@[k].1 < comp@.len(),
    ensures
        r@.len() == count,
        forall|c: int| 0 <= c < count ==> 0 <= #[trigger] r@[c],
{
    let mut succ: Vec<Vec<usize>> = Vec::new();
    let mut indegree: Vec<usize> = Vec::new();
    let mut rank: Vec<i32> = Vec::new();
    let mut queued: Vec<bool> = Vec::new();
    let mut c: usize = 0;
    while c < count
        invariant
            c <= count,
            succ@.len() == c && indegree@.len() == c && rank@.len() == c && queued@.len() == c,
            forall|q: int| 0 <= q < c ==> (#[trigger] succ@[q])@.len() == 0,
            forall|q: int| 0 <= q < c ==> #[trigger] rank@[q] == 0,
            forall|q: int| 0 <= q < c ==> !#[trigger] queued@[q],
        decreases count - c,
    {
        succ.push(Vec::new());
        indegree.push(0);
        rank.push(0);
        queued.push(false);
        c = c + 1;
    }
    let mut k: usize = 0;
    while k < edges.len()
        invariant
            k <= edges@.len(),
            succ@.len() == count && indegree@.len() == count && rank@.len() == count && queued@.len() == count,
            forall|q: int| 0 <= q < count ==> forall|w: int| 0 <= w < (#[trigger] succ@[q])@.len() ==> succ@[q]@[w] < count,
            forall|q: int| 0 <= q < count ==> #[trigger] rank@[q] == 0,
            forall|q: int| 0 <= q < count ==> !#[trigger] queued@[q],
            forall|i: int| 0 <= i < comp@.len() ==> #[trigger] comp@[i] < count,
            forall|k: int| 0 <= k < edges@.len() ==> (#[trigger] edges@[k]).0 < comp@.len() && edges@[k].1 < comp@.len(),
        decreases edges@.len() - k,
    {
        let (a, b) = edges[k];
        assert(edges@[k as int].0 == a && edges@[k as int].1 == b);
        let source = comp[a];
        let target = comp[b];
        if source != target && !listed(&succ[source], target) {
            let ghost before = succ@;
            let mut list = Vec::new();
            std::mem::swap(&mut list, &mut succ[source]);
            list.push(target);
            succ.set(source, list);
            proof {
                assert forall|q: int| 0 <= q < count implies forall|w: int| 0 <= w < (#[trigger] succ@[q])@.len() ==> succ@[q]@[w] < count by {
                    if q != source {
                        assert(succ@[q] == before[q]);
                    }
                }
            }
            if indegree[target] < usize::MAX {
                indegree.set(target, indegree[target] + 1);
            }
        }
        k = k + 1;
    }
    let mut queue: Vec<usize> = Vec::new();
    let mut q: usize = 0;
    while q < count
        invariant
            q <= count,
            queued@.len() == count && succ@.len() == count && indegree@.len() == count && rank@.len() == count,
            forall|x: int| q <= x < count ==> !#[trigger] queued@[x],
            forall|x: int| 0 <= x < count ==> forall|w: int| 0 <= w < (#[trigger] succ@[x])@.len() ==> succ@[x]@[w] < count,
            forall|x: int| 0 <= x < count ==> #[trigger] rank@[x] == 0,
            queue@.no_duplicates(),
            forall|w: int| 0 <= w < queue@.len() ==> #[trigger] queue@[w] < q,
            forall|x: int| 0 <= x < count ==> (#[trigger] queued@[x] <==> queue@.contains(x as usize)),
        decreases count - q,
    {
        if indegree[q] == 0 {
            let ghost before = queue@;
            queue.push(q);
            queued.set(q, true);
            proof {
                assert forall|a: int, b: int| 0 <= a < b < queue@.len() implies queue@[a] != queue@[b] by {
                    if b == queue@.len() - 1 {
                        assert(queue@[a] == before[a]);
                    }
                }
                assert forall|x: int| 0 <= x < count implies (#[trigger] queued@[x] <==> queue@.contains(x as usize)) by {
                    if x == q {
                        assert(queue@[queue@.len() - 1] == q);
                    } else if queue@.contains(x as usize) {
                        let w = choose|w: int| 0 <= w < queue@.len() && queue@[w] == x as usize;
                        assert(w < before.len());
                        assert(before[w] == x as usize);
                    } else if before.contains(x as usize) {
                        let w = choose|w: int| 0 <= w < before.len() && before[w] == x as usize;
                        assert(queue@[w] == x as usize);
                    }
                }
            }
        }
        q = q + 1;
    }
    let mut head: usize = 0;
    proof {
        lemma_distinct_below(queue@, count);
    }
    while head < queue.len()
        invariant
            head <= queue@.len(),
            queue@.len() <= count,
            queue@.no_duplicates(),
            forall|w: int| 0 <= w < queue@.len() ==> #[trigger] queue@[w] < count,
            queued@.len() == count && succ@.len() == count && indegree@.len() == count && rank@.len() == count,
            forall|x: int| 0 <= x < count ==> (#[trigger] queued@[x] <==> queue@.contains(x as usize)),
            forall|x: int| 0 <= x < count ==> forall|w: int| 0 <= w < (#[trigger] succ@[x])@.len() ==> succ@[x]@[w] < count,
            forall|x: int| 0 <= x < count ==> 0 <= #[trigger] rank@[x],
        decreases count - head,
    {
        let c = queue[head];
        head = head + 1;
        let next: i32 = if rank[c] < i32::MAX {
            rank[c] + 1
        } else {
            i32::MAX
        };
        let mut w: usize = 0;
        let targets_len = succ[c].len();
        while w < targets_len
            invariant
                w <= targets_len,
                c < count,
                targets_len == succ@[c as int]@.len(),
                head <= queue@.len(),
                queue@.len() <= count,
                queue@.no_duplicates(),
                forall|v: int| 0 <= v < queue@.len() ==> #[trigger] queue@[v] < count,
                queued@.len() == count && succ@.len() == count && indegree@.len() == count && rank@.len() == count,
                forall|x: int| 0 <= x < count ==> (#[trigger] queued@[x] <==> queue@.contains(x as usize)),
                forall|x: int| 0 <= x < count ==> forall|v: int| 0 <= v < (#[trigger] succ@[x])@.len() ==> succ@[x]@[v] < count,
                forall|x: int| 0 <= x < count ==> 0 <= #[trigger] rank@[x],
                next >= 1,
            decreases targets_len - w,
        {
            let t = succ[c][w];
            assert(t < count);
            if rank[t] < next {
                rank.set(t, next);
            }
            if indegree[t] > 0 {
                indegree.set(t, indegree[t] - 1);
                if indegree[t] == 0 && !queued[t] {
                    let ghost before = queue@;
                    queue.push(t);
                    queued.set(t, true);
                    proof {
                        assert(!before.contains(t));
                        assert forall|a: int, b: int| 0 <= a < b < queue@.len() implies queue@[a] != queue@[b] by {
                            if b == queue@.len() - 1 {
                                assert(queue@[a] == before[a]);
                            }
                        }
                        assert forall|x: int| 0 <= x < count implies (#[trigger] queued@[x] <==> queue@.contains(x as usize)) by {
                            if x == t {
                                assert(queue@[queue@.len() - 1] == t);
                            } else if queue@.contains(x as usize) {
                                let v = choose|v: int| 0 <= v < queue@.len() && queue@[v] == x as usize;
                                assert(v < before.len());
                                assert(before[v] == x as usize);
                            } else if before.contains(x as usize) {
                                let v = choose|v: int| 0 <= v < before.len() && before[v] == x as usize;
                                assert(queue@[v] == x as usize);
                            }
                        }
                        lemma_distinct_below(queue@, count);
                    }
                }
            }
            w = w + 1;
        }
    }
    rank
}

/// Where a node is in the list.
fn position_of(nodes: &Vec<NodeId>, id: NodeId) -> (r: Option<usize>)
    ensures
        match r {
            Some(i) => i < nodes@.len() && nodes@[i as int] == id,
            None => !nodes@.contains(id),
        },
{
    let mut i: usize = 0;
    while i < nodes.len()
        invariant
            i <= nodes@.len(),
            forall|j: int| 0 <= j < i ==> nodes@[j] != id,
        decreases nodes@.len() - i,
    {
        if nodes[i] == id {
            return Some(i);
        }
        i = i + 1;
    }
    None
}

/// The node the layout centres: the selected node when it is shown, else
/// the first node shown.
pub open spec fn centred(m: crate::relation::RelationModel, nodes: Seq<NodeId>, selected: Option<NodeId>) -> NodeId {
    match selected {
        Some(id) => match resolve(m, id) {
            Some(x) => if nodes.contains(x) {
                x
            } else {
                nodes[0]
            },
            None => nodes[0],
        },
        None => nodes[0],
    }
}

/// How the relations are drawn, given a component and a column rank for
/// every node: a relation of a node to itself loops, one to a later column
/// of another component goes forward, any other goes back.
pub open spec fn drawn_as(
    nodes: Seq<NodeId>,
    edges: Seq<VisibleEdge>,
    positions: Seq<(usize, usize)>,
    comp: Seq<usize>,
    rank: Seq<i32>,
    r: Seq<LayoutEdge>,
) -> bool {
    &&& positions.len() == edges.len()
    &&& forall|k: int| 0 <= k < edges.len() ==> {
        let (a, b) = #[trigger] positions[k];
        &&& a < nodes.len() && b < nodes.len()
        &&& nodes[a as int] == edges[k].source && nodes[b as int] == edges[k].target
        &&& r[k].visual_kind == if edges[k].source == edges[k].target {
            EdgeVisualKind::SelfLoop
        } else if comp[a as int] == comp[b as int] || rank[comp[b as int] as int] <= rank[comp[a as int] as int] {
            EdgeVisualKind::BackOrCycle
        } else {
            EdgeVisualKind::Forward
        }
    }
}

/// What the layout promises of the nodes and relations shown.
pub open spec fn laid_out(
    m: crate::relation::RelationModel,
    nodes: Seq<NodeId>,
    edges: Seq<VisibleEdge>,
    selected: Option<NodeId>,
    r: WorldLayoutSnapshot,
) -> bool {
    if nodes.len() == 0 {
        r.nodes@.len() == 0 && r.edges@.len() == 0
    } else {
        &&& forall|v: NodeId| #[trigger] nodes.contains(v) ==> exists|i: int| 0 <= i < r.nodes@.len() && r.nodes@[i].node_id == v
        &&& distinct_nodes(r.nodes@)
        &&& forall|i: int| 0 <= i < r.nodes@.len() ==> {
            let p = #[trigger] r.nodes@[i];
            &&& nodes.contains(p.node_id)
            &&& p.slot.width == slot_width(node_of(m, p.node_id.0).symbol)
            &&& p.slot.height == ROOT_NODE_HEIGHT
        }
        &&& exists|i: int|
            0 <= i < r.nodes@.len() && r.nodes@[i].node_id == centred(m, nodes, selected) && r.nodes@[i].slot.y == -1
                && r.nodes@[i].slot.x + r.nodes@[i].slot.width / 2 == 0
        &&& r.edges@.len() == edges.len()
        &&& forall|k: int| 0 <= k < edges.len() ==> (#[trigger] r.edges@[k]).source_id == edges[k].source && r.edges@[k].target_id == edges[k].target
        &&& exists|positions: Seq<(usize, usize)>, comp: Seq<usize>, rank: Seq<i32>|
            #![trigger drawn_as(nodes, edges, positions, comp, rank, r.edges@)]
            {
                &&& drawn_as(nodes, edges, positions, comp, rank, r.edges@)
                &&& comp.len() == nodes.len()
                &&& forall|i: int| 0 <= i < nodes.len() ==> #[trigger] comp[i] < nodes.len()
                &&& rank.len() == nodes.len()
                &&& forall|i: int, j: int| 0 <= i < nodes.len() && 0 <= j < nodes.len() ==> (comp[i] == comp[j] <==> same_component(components_of(nodes.len() as nat, positions), i, j))
            }
    }
}

/// `row * 4` held to the range of `i32`.
fn row_offset(row: i32) -> (r: i32)
    ensures
        r == clamp32(row * (ROOT_NODE_HEIGHT + ROOT_ROW_GAP)),
{
    let v: i64 = row as i64 * 4;
    if v > i32::MAX as i64 {
        i32::MAX
    } else if v < i32::MIN as i64 {
        i32::MIN
    } else {
        v as i32
    }
}

/// `x` moved left by `by`, held to the range of `i32`.
fn shifted_x(x: i32, by: i64) -> (r: i32)
    requires
        i32::MIN <= by <= i32::MAX + u16::MAX,
    ensures
        r == clamp32(x - by),
{
    let v: i64 = x as i64 - by;
    if v > i32::MAX as i64 {
        i32::MAX
    } else if v < i32::MIN as i64 {
        i32::MIN
    } else {
        v as i32
    }
}

/// A list of distinct nodes of the graph is no longer than the graph.
proof fn lemma_shown_count(g: &RelationGraph, nodes: Seq<NodeId>)
    requires
        g.well_formed(),
        nodes.no_duplicates(),
        forall|i: int| 0 <= i < nodes.len() ==> #[trigger] crate::relation::live(g@, nodes[i].0),
    ensures
        nodes.len() <= g@.index_of.dom().len(),
{
    crate::relation::lemma_live_finite(g);
    let ids = nodes.map_values(|n: NodeId| n.0);
    assert(ids.no_duplicates()) by {
        assert forall|i: int, j: int| 0 <= i < j < ids.len() implies ids[i] != ids[j] by {
            assert(nodes[i] != nodes[j]);
        }
    }
    ids.unique_seq_to_set();
    assert(ids.to_set().subset_of(g@.index_of.dom())) by {
        assert forall|x: u64| ids.to_set().contains(x) implies g@.index_of.dom().contains(x) by {
            let k = choose|k: int| 0 <= k < ids.len() && ids[k] == x;
            assert(crate::relation::live(g@, nodes[k].0));
        }
    }
    vstd::set_lib::lemma_len_subset(ids.to_set(), g@.index_of.dom());
}

/// Node `v` is the node of a member of one of the first `g` groups.
pub open spec fn in_groups(vn: Seq<NodeId>, groups: Seq<Vec<usize>>, g: int, v: NodeId) -> bool {
    exists|a: int, x: int| 0 <= a < g && 0 <= x < groups[a]@.len() && #[trigger] vn[groups[a]@[x] as int] == v
}

/// Node `v` is the node of one of the first `j` members.
pub open spec fn in_members(vn: Seq<NodeId>, members: Seq<usize>, j: int, v: NodeId) -> bool {
    exists|x: int| 0 <= x < j && #[trigger] vn[members[x] as int] == v
}

/// No two placements are for the same node.
pub open spec fn distinct_nodes(ps: Seq<WorldNodePlacement>) -> bool {
    forall|i: int, j: int| 0 <= i < j < ps.len() ==> #[trigger] ps[i].node_id != #[trigger] ps[j].node_id
}

/// Some placement is for node `v`.
pub open spec fn placed(ps: Seq<WorldNodePlacement>, v: NodeId) -> bool {
    exists|i: int| 0 <= i < ps.len() && ps[i].node_id == v
}

/// Some placement puts node `v` in the middle row.
pub open spec fn placed_mid(ps: Seq<WorldNodePlacement>, v: NodeId) -> bool {
    exists|i: int| 0 <= i < ps.len() && ps[i].node_id == v && ps[i].slot.y == -1
}

/// Placing more keeps what was placed.
proof fn lemma_placed_grows(ps: Seq<WorldNodePlacement>, ps2: Seq<WorldNodePlacement>, v: NodeId)
    requires
        ps.len() <= ps2.len(),
        forall|i: int| 0 <= i < ps.len() ==> #[trigger] ps2[i] == ps[i],
    ensures
        placed(ps, v) ==> placed(ps2, v),
        placed_mid(ps, v) ==> placed_mid(ps2, v),
{
    if placed(ps, v) {
        let i = choose|i: int| 0 <= i < ps.len() && ps[i].node_id == v;
        assert(ps2[i] == ps[i]);
    }
    if placed_mid(ps, v) {
        let i = choose|i: int| 0 <= i < ps.len() && ps[i].node_id == v && ps[i].slot.y == -1;
        assert(ps2[i] == ps[i]);
    }
}

/// `r` lays out the graph's visible nodes and relations, as a walk from
/// the anchors through the expanded branches finds them.
pub open spec fn world_layout_of(m: crate::relation::RelationModel, selected: Option<NodeId>, r: WorldLayoutSnapshot) -> bool {
    exists|nodes: Seq<NodeId>, edges: Seq<VisibleEdge>|
        #![trigger laid_out(m, nodes, edges, selected, r)]
        {
            &&& crate::relation::visible_ok(m, nodes, edges)
            &&& forall|i: int| 0 <= i < m.anchors.len() ==> nodes.contains(#[trigger] m.anchors[i])
            &&& forall|i: int| 0 <= i < nodes.len() ==> #[trigger] crate::relation::node_shown(m, nodes, edges, nodes[i], false)
            &&& crate::relation::walked(m, nodes, edges, false)
            &&& laid_out(m, nodes, edges, selected, r)
        }
}

/// Lays out the visible graph: every strongly connected component gets a
/// column rank, nodes are grouped into columns by rank and stacked in rows,
/// and each relation is drawn forward, back or as a loop. The columns and
/// rows do not depend on the selection: the whole layout is moved so that
/// the centred node's slot is centred on the origin.
#[verifier::rlimit(80)]
#[verifier::spinoff_prover]
pub fn world_canvas_layout(graph: &RelationGraph, selected: Option<NodeId>) -> (r: WorldLayoutSnapshot)
    requires
        graph.well_formed(),
        graph@.index_of.dom().len() <= i32::MAX,
    ensures
        world_layout_of(graph@, selected, r),
{
    let visible = graph.visible_graph();
    let ghost vn = visible.nodes@;
    let ghost ve = visible.edges@;
    let n = visible.nodes.len();
    if n == 0 {
        let r = WorldLayoutSnapshot { nodes: Vec::new(), edges: Vec::new() };
        assert(laid_out(graph@, vn, ve, selected, r));
        return r;
    }
    proof {
        lemma_shown_count(graph, vn);
    }
    let mut positions: Vec<(usize, usize)> = Vec::new();
    let mut k: usize = 0;
    while k < visible.edges.len()
        invariant
            k <= ve.len(),
            vn == visible.nodes@,
            ve == visible.edges@,
            crate::relation::visible_ok(graph@, vn, ve),
            positions@.len() == k,
            forall|q: int| 0 <= q < k ==> {
                let (a, b) = #[trigger] positions@[q];
                a < vn.len() && b < vn.len() && vn[a as int] == ve[q].source && vn[b as int] == ve[q].target
            },
        decreases ve.len() - k,
    {
        let e = visible.edges[k];
        assert(0 <= k < ve.len());
        assert(vn.contains(ve[k as int].source));
        assert(vn.contains(ve[k as int].target));
        let a = match position_of(&visible.nodes, e.source) {
            Some(i) => i,
            None => 0,
        };
        let b = match position_of(&visible.nodes, e.target) {
            Some(i) => i,
            None => 0,
        };
        positions.push((a, b));
        k = k + 1;
    }
    let sccs = strongly_connected_components(n, &positions);
    let comp = assign_components(n, &sccs);
    let rank = component_ranks(n, &comp, &positions);
    let chosen: usize = match selected {
        Some(id) => match graph.resolve_id(id) {
            Some(x) => match position_of(&visible.nodes, x) {
                Some(i) => i,
                None => 0,
            },
            None => 0,
        },
        None => 0,
    };
    // The columns and rows are laid out from the first node shown, so that
    // they do not depend on the selection; the centred node is moved to
    // the origin at the end.
    let centre: usize = 0;
    let base = rank[comp[centre]];
    let mut node_rank: Vec<i32> = Vec::new();
    let mut i: usize = 0;
    while i < n
        invariant
            i <= n,
            n == comp@.len(),
            rank@.len() == n,
            node_rank@.len() == i,
            forall|q: int| 0 <= q < n ==> #[trigger] comp@[q] <= q,
            forall|c: int| 0 <= c < n ==> 0 <= #[trigger] rank@[c],
            0 <= base,
            forall|q: int| 0 <= q < i ==> #[trigger] node_rank@[q] == rank@[comp@[q] as int] - base,
        decreases n - i,
    {
        node_rank.push(rank[comp[i]] - base);
        i = i + 1;
    }
    // the distinct ranks, increasing
    let mut ranks: Vec<i32> = Vec::new();
    let mut i: usize = 0;
    while i < n
        invariant
            i <= n,
            node_rank@.len() == n,
            increasing(ranks@),
            ranks@.len() <= i,
            forall|q: int| 0 <= q < i ==> ranks@.contains(#[trigger] node_rank@[q]),
            forall|w: int| 0 <= w < ranks@.len() ==> exists|q: int| 0 <= q < n && node_rank@[q] == #[trigger] ranks@[w],
        decreases n - i,
    {
        let value = node_rank[i];
        let mut p: usize = 0;
        while p < ranks.len() && ranks[p] < value
            invariant
                p <= ranks@.len(),
                forall|w: int| 0 <= w < p ==> #[trigger] ranks@[w] < value,
            decreases ranks@.len() - p,
        {
            p = p + 1;
        }
        if p == ranks.len() || ranks[p] != value {
            let ghost before = ranks@;
            ranks.insert(p, value);
            proof {
                assert forall|a: int, b: int| 0 <= a < b < ranks@.len() implies ranks@[a] < ranks@[b] by {
                    if a < p && b < p {
                        assert(ranks@[a] == before[a] && ranks@[b] == before[b]);
                    } else if a < p && b == p {
                        assert(ranks@[a] == before[a]);
                    } else if a < p {
                        assert(ranks@[a] == before[a] && ranks@[b] == before[b - 1]);
                        assert(before[a] < before[p as int]);
                        assert(before[p as int] <= before[b - 1]);
                    } else if a == p {
                        assert(ranks@[b] == before[b - 1]);
                        assert(value < before[p as int] || value == before[p as int]);
                        if b - 1 > p {
                            assert(before[p as int] < before[b - 1]);
                        }
                    } else {
                        assert(ranks@[a] == before[a - 1] && ranks@[b] == before[b - 1]);
                    }
                }
                assert forall|q: int| 0 <= q < i + 1 implies ranks@.contains(#[trigger] node_rank@[q]) by {
                    if q < i {
                        let w = choose|w: int| 0 <= w < before.len() && before[w] == node_rank@[q];
                        if w < p {
                            assert(ranks@[w] == before[w]);
                        } else {
                            assert(ranks@[w + 1] == before[w]);
                        }
                    } else {
                        assert(ranks@[p as int] == value);
                    }
                }
                assert forall|w: int| 0 <= w < ranks@.len() implies exists|q: int| 0 <= q < n && node_rank@[q] == #[trigger] ranks@[w] by {
                    if w < p {
                        assert(ranks@[w] == before[w]);
                    } else if w == p {
                        assert(node_rank@[i as int] == ranks@[w]);
                    } else {
                        assert(ranks@[w] == before[w - 1]);
                    }
                }
            }
        } else {
            proof {
                assert(ranks@[p as int] == value);
            }
        }
        i = i + 1;
    }
    proof {
        assert(node_rank@[centre as int] == 0);
    }
    // the columns: the nodes of each rank in order, the first node shown
    // first in the origin column
    let mut groups: Vec<Vec<usize>> = Vec::new();
    let mut widths: Vec<u16> = Vec::new();
    let mut g: usize = 0;
    while g < ranks.len()
        invariant
            g <= ranks@.len(),
            n == vn.len(),
            vn == visible.nodes@,
            centre < n,
            node_rank@.len() == n,
            node_rank@[centre as int] == 0,
            n <= i32::MAX,
            graph.well_formed(),
            forall|i: int| 0 <= i < n ==> #[trigger] crate::relation::live(graph@, vn[i].0),
            forall|w: int| 0 <= w < ranks@.len() ==> exists|q: int| 0 <= q < n && node_rank@[q] == #[trigger] ranks@[w],
            forall|q: int| 0 <= q < n ==> ranks@.contains(#[trigger] node_rank@[q]),
            groups@.len() == g,
            widths@.len() == g,
            forall|a: int| 0 <= a < g ==> (#[trigger] groups@[a])@.no_duplicates(),
            forall|a: int| 0 <= a < g ==> {
                let members = (#[trigger] groups@[a])@;
                &&& 0 < members.len() <= n
                &&& forall|j: int| 0 <= j < members.len() ==> members[j] < n && node_rank@[members[j] as int] == ranks@[a]
                &&& forall|q: int| 0 <= q < n && node_rank@[q] == ranks@[a] ==> members.contains(q as usize)
                &&& ranks@[a] == 0 ==> members[0] == centre
            },
        decreases ranks@.len() - g,
    {
        let value = ranks[g];
        let mut members: Vec<usize> = Vec::new();
        let mut q: usize = 0;
        while q < n
            invariant
                q <= n,
                node_rank@.len() == n,
                members@.len() <= q,
                forall|j: int| 0 <= j < members@.len() ==> #[trigger] members@[j] < q && node_rank@[members@[j] as int] == value,
                forall|x: int| 0 <= x < q && node_rank@[x] == value ==> members@.contains(x as usize),
                forall|x: int, y: int| 0 <= x < y < members@.len() ==> members@[x] < members@[y],
            decreases n - q,
        {
            if node_rank[q] == value {
                let ghost before = members@;
                members.push(q);
                proof {
                    assert forall|x: int| 0 <= x < q + 1 && node_rank@[x] == value implies members@.contains(x as usize) by {
                        if x < q {
                            let j = choose|j: int| 0 <= j < before.len() && before[j] == x as usize;
                            assert(members@[j] == x as usize);
                        } else {
                            assert(members@[members@.len() - 1] == x as usize);
                        }
                    }
                }
            }
            q = q + 1;
        }
        proof {
            let w = choose|q: int| 0 <= q < n && node_rank@[q] == ranks@[g as int];
            assert(members@.contains(w as usize));
            assert(members@.no_duplicates());
        }
        if value == 0 {
            assert(members@.contains(centre));
            let mut p: usize = 0;
            while p < members.len() && members[p] != centre
                invariant
                    p <= members@.len(),
                    members@.contains(centre),
                    forall|j: int| 0 <= j < p ==> members@[j] != centre,
                decreases members@.len() - p,
            {
                p = p + 1;
            }
            if p == members.len() {
                proof {
                    let j = choose|j: int| 0 <= j < members@.len() && members@[j] == centre;
                    assert(false);
                }
            }
            let ghost before = members@;
            let first = members[0];
            members.set(p, first);
            members.set(0, centre);
            proof {
                assert forall|x: int| 0 <= x < n && node_rank@[x] == value implies members@.contains(x as usize) by {
                    let j = choose|j: int| 0 <= j < before.len() && before[j] == x as usize;
                    if j == 0 {
                        assert(members@[p as int] == x as usize);
                    } else if j == p {
                        assert(members@[0] == x as usize);
                    } else {
                        assert(members@[j] == x as usize);
                    }
                }
                assert forall|j: int| 0 <= j < members@.len() implies #[trigger] members@[j] < n && node_rank@[members@[j] as int] == value by {
                    if j != 0 && j != p {
                        assert(members@[j] == before[j]);
                    }
                }
                assert(members@.no_duplicates()) by {
                    assert forall|x: int, y: int| 0 <= x < y < members@.len() implies members@[x] != members@[y] by {
                        let bx = if x == 0 { p as int } else if x == p { 0 } else { x };
                        let by_ = if y == 0 { p as int } else if y == p { 0 } else { y };
                        assert(members@[x] == before[bx]);
                        assert(members@[y] == before[by_]);
                        assert(bx != by_);
                    }
                }
            }
        }
        let mut width: u16 = 0;
        let mut j: usize = 0;
        while j < members.len()
            invariant
                j <= members@.len(),
                forall|x: int| 0 <= x < members@.len() ==> #[trigger] members@[x] < n,
                n == vn.len(),
                vn == visible.nodes@,
                graph.well_formed(),
            decreases members@.len() - j,
        {
            let w = node_slot_width(graph, visible.nodes[members[j]]);
            if w > width {
                width = w;
            }
            j = j + 1;
        }
        groups.push(members);
        widths.push(width);
        proof {
            assert forall|a: int| 0 <= a < g + 1 implies {
                let members = (#[trigger] groups@[a])@;
                &&& 0 < members.len() <= n
                &&& forall|j: int| 0 <= j < members.len() ==> members[j] < n && node_rank@[members[j] as int] == ranks@[a]
                &&& forall|q: int| 0 <= q < n && node_rank@[q] == ranks@[a] ==> members.contains(q as usize)
                &&& ranks@[a] == 0 ==> members[0] == centre
            } by {
            }
        }
        g = g + 1;
    }
    let xs = column_positions(ranks.as_slice(), widths.as_slice());
    let mut placements: Vec<WorldNodePlacement> = Vec::new();
    let mut g: usize = 0;
    while g < groups.len()
        invariant
            g <= groups@.len(),
            groups@.len() == ranks@.len(),
            xs@.len() == ranks@.len(),
            n == vn.len(),
            vn == visible.nodes@,
            centre < n,
            n <= i32::MAX,
            graph.well_formed(),
            forall|i: int| 0 <= i < n ==> #[trigger] crate::relation::live(graph@, vn[i].0),
            forall|a: int| 0 <= a < groups@.len() ==> {
                let members = (#[trigger] groups@[a])@;
                &&& 0 < members.len() <= n
                &&& forall|j: int| 0 <= j < members.len() ==> members[j] < n
                &&& forall|q: int| 0 <= q < n && node_rank@[q] == ranks@[a] ==> members.contains(q as usize)
                &&& ranks@[a] == 0 ==> members[0] == centre
            },
            node_rank@.len() == n,
            forall|q: int| 0 <= q < n ==> ranks@.contains(#[trigger] node_rank@[q]),
            forall|a: int, j: int| 0 <= a < g && 0 <= j < groups@[a]@.len() ==> placed(placements@, vn[#[trigger] groups@[a]@[j] as int]),
            forall|i: int| 0 <= i < placements@.len() ==> {
                let p = #[trigger] placements@[i];
                &&& vn.contains(p.node_id)
                &&& p.slot.width == slot_width(node_of(graph@, p.node_id.0).symbol)
                &&& p.slot.height == ROOT_NODE_HEIGHT
                &&& p.slot.y < i32::MAX
            },
            forall|a: int| 0 <= a < g && #[trigger] ranks@[a] == 0 ==> placed_mid(placements@, vn[centre as int]),
            increasing(ranks@),
            vn.no_duplicates(),
            forall|a: int| 0 <= a < groups@.len() ==> (#[trigger] groups@[a])@.no_duplicates(),
            forall|a: int, j: int|
                0 <= a < groups@.len() && 0 <= j < groups@[a]@.len() ==> node_rank@[(#[trigger] groups@[a]@[j]) as int]
                    == ranks@[a],
            distinct_nodes(placements@),
            forall|i: int| 0 <= i < placements@.len() ==> in_groups(vn, groups@, g as int, (#[trigger] placements@[i]).node_id),
        decreases groups@.len() - g,
    {
        let members = &groups[g];
        let count = members.len();
        let mut j: usize = 0;
        let ghost start = placements@;
        while j < count
            invariant
                j <= count,
                count == members@.len(),
                members@ == groups@[g as int]@,
                0 < count <= n,
                n <= i32::MAX,
                g < ranks@.len(),
                g < xs@.len(),
                n == vn.len(),
                vn == visible.nodes@,
                graph.well_formed(),
                forall|i: int| 0 <= i < n ==> #[trigger] crate::relation::live(graph@, vn[i].0),
                forall|x: int| 0 <= x < count ==> #[trigger] members@[x] < n,
                ranks@[g as int] == 0 ==> members@[0] == centre,
                placements@.len() >= start.len(),
                forall|i: int| 0 <= i < start.len() ==> #[trigger] placements@[i] == start[i],
                forall|x: int| 0 <= x < j ==> placed(placements@, vn[#[trigger] members@[x] as int]),
                forall|i: int| 0 <= i < placements@.len() ==> {
                    let p = #[trigger] placements@[i];
                    &&& vn.contains(p.node_id)
                    &&& p.slot.width == slot_width(node_of(graph@, p.node_id.0).symbol)
                    &&& p.slot.height == ROOT_NODE_HEIGHT
                    &&& p.slot.y < i32::MAX
                },
                ranks@[g as int] == 0 && j > 0 ==> placed_mid(placements@, vn[centre as int]),
                increasing(ranks@),
                vn.no_duplicates(),
                node_rank@.len() == n,
                groups@.len() == ranks@.len(),
                members@.no_duplicates(),
                forall|a: int, x: int|
                    0 <= a < groups@.len() && 0 <= x < groups@[a]@.len() ==> node_rank@[(#[trigger] groups@[a]@[x]) as int]
                        == ranks@[a],
                forall|a: int, x: int| 0 <= a < groups@.len() && 0 <= x < groups@[a]@.len() ==> (#[trigger] groups@[a]@[x]) < n,
                distinct_nodes(placements@),
                forall|i: int|
                    0 <= i < placements@.len() ==> in_groups(vn, groups@, g as int, (#[trigger] placements@[i]).node_id)
                        || in_members(vn, members@, j as int, placements@[i].node_id),
            decreases count - j,
        {
            let m = members[j];
            let node_id = visible.nodes[m];
            let row: i32 = if ranks[g] == 0 {
                alternating_row(j)
            } else {
                (j as i32) - ((count - 1) as i32) / 2
            };
            let y = sat_sub(row_offset(row), 1);
            proof {
                crate::relation::lemma_live_resolves(graph, node_id.0);
                assert(vn.contains(node_id));
            }
            let width = node_slot_width(graph, node_id);
            let ghost before = placements@;
            placements.push(WorldNodePlacement { node_id, slot: WorldRect { x: xs[g], y, width, height: ROOT_NODE_HEIGHT } });
            proof {
                assert(placements@[before.len() as int].node_id == vn[members@[j as int] as int]);
                assert forall|i: int| 0 <= i < before.len() implies before[i].node_id != node_id by {
                    if in_groups(vn, groups@, g as int, before[i].node_id) {
                        let (a, x) = choose|a: int, x: int|
                            0 <= a < g && 0 <= x < groups@[a]@.len() && #[trigger] vn[groups@[a]@[x] as int] == before[i].node_id;
                        if before[i].node_id == node_id {
                            assert(groups@[a]@[x] < n);
                            assert(groups@[a]@[x] == members@[j as int]);
                            assert(node_rank@[members@[j as int] as int] == ranks@[g as int]);
                            assert(node_rank@[groups@[a]@[x] as int] == ranks@[a]);
                        }
                    } else {
                        let x = choose|x: int| 0 <= x < j && #[trigger] vn[members@[x] as int] == before[i].node_id;
                        if before[i].node_id == node_id {
                            assert(members@[x] == members@[j as int]);
                        }
                    }
                }
                assert(distinct_nodes(placements@)) by {
                    assert forall|a: int, b: int| 0 <= a < b < placements@.len() implies #[trigger] placements@[a].node_id
                        != #[trigger] placements@[b].node_id by {
                        assert(placements@[a] == before[a]);
                        if b < before.len() {
                            assert(placements@[b] == before[b]);
                        }
                    }
                }
                assert forall|i: int| 0 <= i < placements@.len() implies in_groups(vn, groups@, g as int, (#[trigger] placements@[i]).node_id)
                    || in_members(vn, members@, j + 1, placements@[i].node_id) by {
                    if i < before.len() {
                        assert(placements@[i] == before[i]);
                        if in_members(vn, members@, j as int, before[i].node_id) {
                            let x = choose|x: int| 0 <= x < j && #[trigger] vn[members@[x] as int] == before[i].node_id;
                            assert(vn[members@[x] as int] == placements@[i].node_id);
                        }
                    } else {
                        assert(vn[members@[j as int] as int] == placements@[i].node_id);
                    }
                }
                assert forall|x: int| 0 <= x < j + 1 implies placed(placements@, vn[#[trigger] members@[x] as int]) by {
                    lemma_placed_grows(before, placements@, vn[members@[x] as int]);
                    if x == j {
                        assert(placements@[before.len() as int].node_id == vn[members@[x] as int]);
                    }
                }
                lemma_placed_grows(before, placements@, vn[centre as int]);
                if ranks@[g as int] == 0 && j == 0 {
                    assert(placements@[before.len() as int].slot.y == -1);
                    assert(placements@[before.len() as int].node_id == vn[centre as int]);
                }
                assert forall|i: int| 0 <= i < start.len() implies #[trigger] placements@[i] == start[i] by {
                    assert(placements@[i] == before[i]);
                }
            }
            j = j + 1;
        }
        proof {
            assert forall|i: int| 0 <= i < placements@.len() implies in_groups(vn, groups@, g + 1, (#[trigger] placements@[i]).node_id) by {
                if in_groups(vn, groups@, g as int, placements@[i].node_id) {
                    let (a, x) = choose|a: int, x: int|
                        0 <= a < g && 0 <= x < groups@[a]@.len() && #[trigger] vn[groups@[a]@[x] as int] == placements@[i].node_id;
                    assert(vn[groups@[a]@[x] as int] == placements@[i].node_id);
                } else {
                    let x = choose|x: int| 0 <= x < count && #[trigger] vn[members@[x] as int] == placements@[i].node_id;
                    assert(vn[groups@[g as int]@[x] as int] == placements@[i].node_id);
                }
            }
            assert forall|a: int, x: int| 0 <= a < g + 1 && 0 <= x < groups@[a]@.len() implies placed(placements@, vn[#[trigger] groups@[a]@[x] as int]) by {
                lemma_placed_grows(start, placements@, vn[groups@[a]@[x] as int]);
            }
            assert forall|a: int| 0 <= a < g + 1 && #[trigger] ranks@[a] == 0 implies placed_mid(placements@, vn[centre as int]) by {
                lemma_placed_grows(start, placements@, vn[centre as int]);
            }
        }
        g = g + 1;
    }
    proof {
        assert forall|q: int| 0 <= q < n implies placed(placements@, #[trigger] vn[q]) by {
            assert(ranks@.contains(node_rank@[q]));
            let a = choose|a: int| 0 <= a < ranks@.len() && ranks@[a] == node_rank@[q];
            assert(groups@[a]@.contains(q as usize));
            let x = choose|x: int| 0 <= x < groups@[a]@.len() && groups@[a]@[x] == q as usize;
            assert(vn[groups@[a]@[x] as int] == vn[q]);
        }
        assert(placed(placements@, vn[chosen as int]));
    }
    let target = visible.nodes[chosen];
    let mut t: usize = 0;
    while t < placements.len() && placements[t].node_id != target
        invariant
            t <= placements@.len(),
            placed(placements@, target),
            forall|i: int| 0 <= i < t ==> placements@[i].node_id != target,
        decreases placements@.len() - t,
    {
        t = t + 1;
    }
    if t == placements.len() {
        proof {
            let i = choose|i: int| 0 <= i < placements@.len() && placements@[i].node_id == target;
            assert(false);
        }
        return WorldLayoutSnapshot { nodes: Vec::new(), edges: Vec::new() };
    }
    let anchor = placements[t].slot;
    let centre_x: i64 = anchor.x as i64 + (anchor.width / 2) as i64;
    let dy = sat_sub(-1, anchor.y);
    let ghost unmoved = placements@;
    let mut moved: Vec<WorldNodePlacement> = Vec::new();
    let mut u: usize = 0;
    while u < placements.len()
        invariant
            u <= unmoved.len(),
            placements@ == unmoved,
            i32::MIN <= centre_x <= i32::MAX + u16::MAX,
            moved@.len() == u,
            forall|i: int| 0 <= i < u ==> {
                let p = #[trigger] moved@[i];
                &&& p.node_id == unmoved[i].node_id
                &&& p.slot.width == unmoved[i].slot.width
                &&& p.slot.height == unmoved[i].slot.height
                &&& p.slot.y == clamp32(unmoved[i].slot.y + dy)
                &&& p.slot.x == clamp32(unmoved[i].slot.x - centre_x)
            },
        decreases unmoved.len() - u,
    {
        let p = placements[u];
        moved.push(
            WorldNodePlacement {
                node_id: p.node_id,
                slot: WorldRect { x: shifted_x(p.slot.x, centre_x), y: sat_add(p.slot.y, dy), width: p.slot.width, height: p.slot.height },
            },
        );
        u = u + 1;
    }
    let placements = moved;
    proof {
        assert(placements@[t as int].node_id == target);
        assert(placements@[t as int].slot.y == -1);
        assert(placements@[t as int].slot.x + placements@[t as int].slot.width / 2 == 0);
        assert(placed_mid(placements@, vn[chosen as int]));
        assert forall|i: int| 0 <= i < placements@.len() implies {
            let p = #[trigger] placements@[i];
            &&& vn.contains(p.node_id)
            &&& p.slot.width == slot_width(node_of(graph@, p.node_id.0).symbol)
            &&& p.slot.height == ROOT_NODE_HEIGHT
        } by {
            assert(placements@[i].node_id == unmoved[i].node_id);
        }
        assert(distinct_nodes(placements@)) by {
            assert forall|a: int, b: int| 0 <= a < b < placements@.len() implies #[trigger] placements@[a].node_id
                != #[trigger] placements@[b].node_id by {
                assert(placements@[a].node_id == unmoved[a].node_id);
                assert(placements@[b].node_id == unmoved[b].node_id);
            }
        }
        assert forall|q: int| 0 <= q < n implies placed(placements@, #[trigger] vn[q]) by {
            assert(placed(unmoved, vn[q]));
            let i = choose|i: int| 0 <= i < unmoved.len() && unmoved[i].node_id == vn[q];
            assert(placements@[i].node_id == vn[q]);
        }
    }
    let mut edges: Vec<LayoutEdge> = Vec::new();
    let mut k: usize = 0;
    while k < positions.len()
        invariant
            k <= positions@.len(),
            positions@.len() == ve.len(),
            ve == visible.edges@,
            n == vn.len(),
            comp@.len() == n,
            rank@.len() == n,
            forall|q: int| 0 <= q < n ==> #[trigger] comp@[q] < n,
            forall|q: int| 0 <= q < positions@.len() ==> {
                let (a, b) = #[trigger] positions@[q];
                a < vn.len() && b < vn.len() && vn[a as int] == ve[q].source && vn[b as int] == ve[q].target
            },
            edges@.len() == k,
            forall|q: int| 0 <= q < k ==> (#[trigger] edges@[q]).source_id == ve[q].source && edges@[q].target_id == ve[q].target
                && edges@[q].visual_kind == if ve[q].source == ve[q].target {
                EdgeVisualKind::SelfLoop
            } else if comp@[positions@[q].0 as int] == comp@[positions@[q].1 as int] || rank@[comp@[positions@[q].1 as int] as int]
                <= rank@[comp@[positions@[q].0 as int] as int] {
                EdgeVisualKind::BackOrCycle
            } else {
                EdgeVisualKind::Forward
            },
        decreases positions@.len() - k,
    {
        let (a, b) = positions[k];
        let e = visible.edges[k];
        let kind = if e.source == e.target {
            EdgeVisualKind::SelfLoop
        } else if comp[a] == comp[b] || rank[comp[b]] <= rank[comp[a]] {
            EdgeVisualKind::BackOrCycle
        } else {
            EdgeVisualKind::Forward
        };
        edges.push(LayoutEdge { source_id: e.source, target_id: e.target, visual_kind: kind });
        k = k + 1;
    }
    let ghost placed_all = placements@;
    let r = WorldLayoutSnapshot { nodes: placements, edges };
    proof {
        assert(r.nodes@ == placed_all);
        let centred_node = centred(graph@, vn, selected);
        assert(centred_node == vn[chosen as int]);
        assert forall|v: NodeId| #[trigger] vn.contains(v) implies exists|i: int| 0 <= i < r.nodes@.len() && r.nodes@[i].node_id == v by {
            let q = choose|q: int| 0 <= q < vn.len() && vn[q] == v;
            assert(placed(r.nodes@, vn[q]));
        }
        assert(placed_mid(placed_all, vn[chosen as int]));
        assert(drawn_as(vn, ve, positions@, comp@, rank@, r.edges@));
        assert(laid_out(graph@, vn, ve, selected, r));
    }
    r
}


} // verus!
