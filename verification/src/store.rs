//! The directed graph of petgraph that holds the relation graph's nodes and
//! edges, seen through the node and edge maps it holds.
use vstd::prelude::*;

use petgraph::graph::{EdgeIndex, NodeIndex};
use petgraph::stable_graph::StableGraph;
use petgraph::Directed;

use crate::graph::{GraphNode, RelationEdge};

verus! {

#[verifier::external_type_specification]
#[verifier::external_body]
#[verifier::reject_recursive_types(N)]
#[verifier::reject_recursive_types(E)]
#[verifier::reject_recursive_types(Ty)]
#[verifier::reject_recursive_types(Ix)]
pub struct ExStableGraph<N, E, Ty, Ix>(StableGraph<N, E, Ty, Ix>);

#[verifier::external_type_specification]
#[verifier::external_body]
pub struct ExDirected(Directed);

#[verifier::external_type_specification]
#[verifier::external_body]
#[verifier::reject_recursive_types(Ix)]
pub struct ExNodeIndex<Ix>(NodeIndex<Ix>);

#[verifier::external_type_specification]
#[verifier::external_body]
#[verifier::reject_recursive_types(Ix)]
pub struct ExEdgeIndex<Ix>(EdgeIndex<Ix>);

/// The petgraph graph that holds the relation graph.
pub type RelationStore = StableGraph<GraphNode, RelationEdge, Directed, u32>;

/// The node weights of the graph by node index.
pub uninterp spec fn store_nodes(g: RelationStore) -> Map<u32, GraphNode>;

/// The edges of the graph by edge index: source index, target index, weight.
pub uninterp spec fn store_edges(g: RelationStore) -> Map<u32, (u32, u32, RelationEdge)>;

/// How many node slots the graph has used, vacant ones included.
pub uninterp spec fn store_node_slots(g: RelationStore) -> nat;

/// How many edge slots the graph has used, vacant ones included.
pub uninterp spec fn store_edge_slots(g: RelationStore) -> nat;

/// The edges whose endpoints are both other than node `i`.
pub open spec fn edges_without_node(edges: Map<u32, (u32, u32, RelationEdge)>, i: u32) -> Map<u32, (u32, u32, RelationEdge)> {
    edges.restrict(edges.dom().filter(|e: u32| edges[e].0 != i && edges[e].1 != i))
}

/// Mapping the values of a map after an insert is inserting the mapped value.
pub broadcast proof fn lemma_map_values_insert<K, V, W>(m: Map<K, V>, k: K, v: V, f: spec_fn(V) -> W)
    ensures
        #[trigger] m.insert(k, v).map_values(f) == m.map_values(f).insert(k, f(v)),
{
    assert(m.insert(k, v).map_values(f) =~= m.map_values(f).insert(k, f(v)));
}

/// Mapping the values of a map after a removal is removing from the mapped map.
pub broadcast proof fn lemma_map_values_remove<K, V, W>(m: Map<K, V>, k: K, f: spec_fn(V) -> W)
    ensures
        #[trigger] m.remove(k).map_values(f) == m.map_values(f).remove(k),
{
    assert(m.remove(k).map_values(f) =~= m.map_values(f).remove(k));
}

/// No nodes.
pub open spec fn no_nodes() -> Map<u32, GraphNode> {
    Map::empty()
}

/// No edges.
pub open spec fn no_edges() -> Map<u32, (u32, u32, RelationEdge)> {
    Map::empty()
}

/// `StableGraph::default`: an empty graph.
#[verifier::external_body]
pub(crate) fn store_new() -> (r: RelationStore)
    ensures
        store_nodes(r) == no_nodes(),
        store_edges(r) == no_edges(),
        store_node_slots(r) == 0,
        store_edge_slots(r) == 0,
{
    StableGraph::default()
}

/// `StableGraph::add_node`: the node goes under an index that held none,
/// either a vacant slot or a new one; the call panics once `u32::MAX` slots
/// are used, which `requires` leaves out.
#[verifier::external_body]
pub(crate) fn store_add_node(g: &mut RelationStore, node: GraphNode) -> (r: u32)
    requires
        store_node_slots(*old(g)) < u32::MAX,
    ensures
        !store_nodes(*old(g)).contains_key(r),
        store_nodes(*final(g)) == store_nodes(*old(g)).insert(r, node),
        store_edges(*final(g)) == store_edges(*old(g)),
        store_node_slots(*final(g)) <= store_node_slots(*old(g)) + 1,
        store_edge_slots(*final(g)) == store_edge_slots(*old(g)),
{
    g.add_node(node).index() as u32
}

/// `StableGraph::remove_node`: the node and every edge that touches it go;
/// `None`, with nothing changed, when there is no node at the index.
#[verifier::external_body]
pub(crate) fn store_remove_node(g: &mut RelationStore, i: u32) -> (r: Option<GraphNode>)
    ensures
        match r {
            Some(n) => store_nodes(*old(g)).contains_key(i) && n == store_nodes(*old(g))[i],
            None => !store_nodes(*old(g)).contains_key(i),
        },
        store_nodes(*final(g)) == store_nodes(*old(g)).remove(i),
        store_edges(*final(g)) == edges_without_node(store_edges(*old(g)), i),
        store_node_slots(*final(g)) == store_node_slots(*old(g)),
        store_edge_slots(*final(g)) == store_edge_slots(*old(g)),
{
    g.remove_node(NodeIndex::new(i as usize))
}

/// `StableGraph::node_weight`: the node at an index, if any.
#[verifier::external_body]
pub(crate) fn store_node(g: &RelationStore, i: u32) -> (r: Option<&GraphNode>)
    ensures
        match r {
            Some(n) => store_nodes(*g).contains_key(i) && *n == store_nodes(*g)[i],
            None => !store_nodes(*g).contains_key(i),
        },
{
    g.node_weight(NodeIndex::new(i as usize))
}

/// `StableGraph::node_weight_mut`: the node at an index for change; what is
/// written through the reference becomes the node at that index.
#[verifier::external_body]
pub(crate) fn store_node_mut(g: &mut RelationStore, i: u32) -> (r: Option<&mut GraphNode>)
    ensures
        match r {
            Some(n) => store_nodes(*old(g)).contains_key(i) && *n == store_nodes(*old(g))[i]
                && store_nodes(*final(g)) == store_nodes(*old(g)).insert(i, *final(n)),
            None => !store_nodes(*old(g)).contains_key(i) && store_nodes(*final(g)) == store_nodes(
                *old(g),
            ),
        },
        store_edges(*final(g)) == store_edges(*old(g)),
        store_node_slots(*final(g)) == store_node_slots(*old(g)),
        store_edge_slots(*final(g)) == store_edge_slots(*old(g)),
{
    g.node_weight_mut(NodeIndex::new(i as usize))
}

/// `StableGraph::add_edge`: a new edge from `a` to `b` under an index that
/// held none; the call panics when either node is missing or once
/// `u32::MAX` edge slots are used, which `requires` leaves out.
#[verifier::external_body]
pub(crate) fn store_add_edge(g: &mut RelationStore, a: u32, b: u32, weight: RelationEdge) -> (r: u32)
    requires
        store_nodes(*old(g)).contains_key(a),
        store_nodes(*old(g)).contains_key(b),
        store_edge_slots(*old(g)) < u32::MAX,
    ensures
        !store_edges(*old(g)).contains_key(r),
        store_edges(*final(g)) == store_edges(*old(g)).insert(r, (a, b, weight)),
        store_nodes(*final(g)) == store_nodes(*old(g)),
        store_node_slots(*final(g)) == store_node_slots(*old(g)),
        store_edge_slots(*final(g)) <= store_edge_slots(*old(g)) + 1,
{
    g.add_edge(NodeIndex::new(a as usize), NodeIndex::new(b as usize), weight).index() as u32
}

/// `StableGraph::find_edge`: an edge from `a` to `b`, if there is one.
#[verifier::external_body]
pub(crate) fn store_find_edge(g: &RelationStore, a: u32, b: u32) -> (r: Option<u32>)
    ensures
        match r {
            Some(e) => store_edges(*g).contains_key(e) && store_edges(*g)[e].0 == a
                && store_edges(*g)[e].1 == b,
            None => forall|e: u32| #[trigger]
                store_edges(*g).contains_key(e) ==> !(store_edges(*g)[e].0 == a
                    && store_edges(*g)[e].1 == b),
        },
{
    match g.find_edge(NodeIndex::new(a as usize), NodeIndex::new(b as usize)) {
        Some(e) => Some(e.index() as u32),
        None => None,
    }
}

/// `StableGraph::edge_weight_mut`: the weight of an edge for change; what is
/// written through the reference becomes the weight of that edge.
#[verifier::external_body]
pub(crate) fn store_edge_mut(g: &mut RelationStore, e: u32) -> (r: Option<&mut RelationEdge>)
    ensures
        match r {
            Some(w) => store_edges(*old(g)).contains_key(e) && *w == store_edges(*old(g))[e].2
                && store_edges(*final(g)) == store_edges(*old(g)).insert(
                e,
                (store_edges(*old(g))[e].0, store_edges(*old(g))[e].1, *final(w)),
            ),
            None => !store_edges(*old(g)).contains_key(e) && store_edges(*final(g)) == store_edges(
                *old(g),
            ),
        },
        store_nodes(*final(g)) == store_nodes(*old(g)),
        store_node_slots(*final(g)) == store_node_slots(*old(g)),
        store_edge_slots(*final(g)) == store_edge_slots(*old(g)),
{
    g.edge_weight_mut(EdgeIndex::new(e as usize))
}

/// `StableGraph::edge_endpoints`: an edge's source and target, if the edge
/// exists.
#[verifier::external_body]
pub(crate) fn store_edge_endpoints(g: &RelationStore, e: u32) -> (r: Option<(u32, u32)>)
    ensures
        match r {
            Some((a, b)) => store_edges(*g).contains_key(e) && store_edges(*g)[e].0 == a
                && store_edges(*g)[e].1 == b,
            None => !store_edges(*g).contains_key(e),
        },
{
    match g.edge_endpoints(EdgeIndex::new(e as usize)) {
        Some((a, b)) => Some((a.index() as u32, b.index() as u32)),
        None => None,
    }
}

/// `StableGraph::edge_weight`: the weight of an edge, if the edge exists.
#[verifier::external_body]
pub(crate) fn store_edge(g: &RelationStore, e: u32) -> (r: Option<&RelationEdge>)
    ensures
        match r {
            Some(w) => store_edges(*g).contains_key(e) && *w == store_edges(*g)[e].2,
            None => !store_edges(*g).contains_key(e),
        },
{
    g.edge_weight(EdgeIndex::new(e as usize))
}

/// `StableGraph::remove_edge`: the edge goes; `None`, with nothing changed,
/// when there is no edge at the index.
#[verifier::external_body]
pub(crate) fn store_remove_edge(g: &mut RelationStore, e: u32) -> (r: Option<RelationEdge>)
    ensures
        match r {
            Some(w) => store_edges(*old(g)).contains_key(e) && w == store_edges(*old(g))[e].2,
            None => !store_edges(*old(g)).contains_key(e),
        },
        store_edges(*final(g)) == store_edges(*old(g)).remove(e),
        store_nodes(*final(g)) == store_nodes(*old(g)),
        store_node_slots(*final(g)) == store_node_slots(*old(g)),
        store_edge_slots(*final(g)) == store_edge_slots(*old(g)),
{
    g.remove_edge(EdgeIndex::new(e as usize))
}

/// `StableGraph::node_indices`: every node index once, in increasing order.
#[verifier::external_body]
pub(crate) fn store_node_indices(g: &RelationStore) -> (r: Vec<u32>)
    ensures
        r@.no_duplicates(),
        forall|i: u32| #[trigger] r@.contains(i) <==> store_nodes(*g).contains_key(i),
{
    g.node_indices().map(|i| i.index() as u32).collect()
}

/// `StableGraph::edge_indices`: every edge index once, in increasing order.
#[verifier::external_body]
pub(crate) fn store_edge_indices(g: &RelationStore) -> (r: Vec<u32>)
    ensures
        r@.no_duplicates(),
        forall|e: u32| #[trigger] r@.contains(e) <==> store_edges(*g).contains_key(e),
{
    g.edge_indices().map(|e| e.index() as u32).collect()
}

/// `StableGraph::edge_count`: the number of edges.
#[verifier::external_body]
pub(crate) fn store_edge_count(g: &RelationStore) -> (r: usize)
    ensures
        r == store_edges(*g).len(),
{
    g.edge_count()
}

/// `StableGraph::node_count`: the number of nodes.
#[verifier::external_body]
pub(crate) fn store_node_count(g: &RelationStore) -> (r: usize)
    ensures
        r == store_nodes(*g).len(),
{
    g.node_count()
}

} // verus!
