//! Directed, globally deduplicated hierarchy state.
//!
//! `RelationGraph` owns the semantic nodes, the canonical edges with the
//! branches that observed them, the anchors, and the projection of what is
//! currently visible. It holds no terminal geometry and no protocol types.
use vstd::prelude::*;

use std::collections::{HashMap, HashSet};

use crate::graph::{
    GraphBranch, canonical_edge, replace_neighbor, merge_branch, merged_branch, dedup, replaced, edge_of, empty_branch, fresh_node, identity_key, node_branch,
    node_identity, BranchKey, GraphNode, NodeView, RelationEdge, ResolvedKeyView,
    ResolvedSymbolKey, VisibleEdge, VisibleGraph,
};
use crate::state::{copy_identity, same_location, HierarchyDirection, NodeId, SymbolIdentity};
use crate::store::{
    store_add_edge, store_add_node, store_edge, store_edge_count, store_edge_mut, store_edges,
    store_find_edge, store_new, store_node, store_node_count, store_node_mut, store_node_slots,
    store_edge_slots, store_nodes, store_remove_edge, store_remove_node, store_node_indices,
    store_edge_indices, store_edge_endpoints, RelationStore,
};

verus! {

broadcast use {
    vstd::std_specs::hash::group_hash_axioms,
    crate::store::lemma_map_values_insert,
    crate::store::lemma_map_values_remove,
};

/// What a relation graph holds, as a reader of its contracts sees it.
///
/// Nodes and edges are kept under the indices of the underlying graph;
/// `index_of` says where the node with a given id is.
pub struct RelationModel {
    pub index_of: Map<u64, u32>,
    pub nodes: Map<u32, NodeView>,
    pub edges: Map<u32, (u32, u32, Seq<BranchKey>)>,
    pub redirects: Map<u64, u64>,
    pub anchors: Seq<NodeId>,
    pub keys: Seq<(ResolvedKeyView, NodeId)>,
}

/// Directed, globally deduplicated hierarchy state.
pub struct RelationGraph {
    graph: RelationStore,
    by_id: HashMap<u64, u32>,
    by_identity: Vec<(ResolvedSymbolKey, NodeId)>,
    redirects: HashMap<u64, u64>,
    anchors: Vec<NodeId>,
    next_id: u64,
    edges_added: u64,
    depth: Ghost<(Map<u64, int>, int)>,
}

impl View for RelationGraph {
    type V = RelationModel;

    closed spec fn view(&self) -> RelationModel {
        RelationModel {
            index_of: self.by_id@,
            nodes: store_nodes(self.graph).map_values(|n: GraphNode| n@),
            edges: store_edges(self.graph).map_values(
                |e: (u32, u32, RelationEdge)| (e.0, e.1, e.2.observed_by@),
            ),
            redirects: self.redirects@,
            anchors: self.anchors@,
            keys: self.by_identity@.map_values(|p: (ResolvedSymbolKey, NodeId)| (p.0@, p.1)),
        }
    }
}

/// Whether a node with this id is in the graph.
pub open spec fn live(m: RelationModel, id: u64) -> bool {
    m.index_of.contains_key(id)
}

/// The node with this id.
pub open spec fn node_of(m: RelationModel, id: u64) -> NodeView {
    m.nodes[m.index_of[id]]
}

/// Where the redirects lead from `id`, in at most `fuel` steps, if they end
/// at a node of the graph.
pub open spec fn follow(redirects: Map<u64, u64>, live: Set<u64>, id: u64, fuel: nat) -> Option<u64>
    decreases fuel,
{
    if redirects.contains_key(id) {
        if fuel == 0 {
            None
        } else {
            follow(redirects, live, redirects[id], (fuel - 1) as nat)
        }
    } else if live.contains(id) {
        Some(id)
    } else {
        None
    }
}

/// The node that an id stands for now: the id itself, or where the merges
/// that removed it lead.
pub open spec fn resolve(m: RelationModel, id: NodeId) -> Option<NodeId> {
    match follow(m.redirects, m.index_of.dom(), id.0, m.redirects.dom().len()) {
        Some(x) => Some(NodeId(x)),
        None => None,
    }
}

/// Entry `i` holds key `k`.
pub open spec fn key_at(m: RelationModel, i: int, k: ResolvedKeyView) -> bool {
    0 <= i < m.keys.len() && m.keys[i].0 == k
}

/// The node that owns a key, if one does.
pub open spec fn key_owner(m: RelationModel, key: Option<ResolvedKeyView>) -> Option<NodeId> {
    match key {
        Some(k) => if exists|i: int| #[trigger] key_at(m, i, k) {
            Some(m.keys[choose|i: int| #[trigger] key_at(m, i, k)].1)
        } else {
            None
        },
        None => None,
    }
}

/// Whether an edge from node `a` to node `b` is in the graph.
pub open spec fn has_relation(m: RelationModel, a: u64, b: u64) -> bool {
    exists|e: u32|
        #![trigger m.edges[e]]
        m.edges.contains_key(e) && m.edges[e].0 == m.index_of[a] && m.edges[e].1 == m.index_of[b]
}

/// The model after a node with a fresh id went under a fresh index.
pub open spec fn node_added(old: RelationModel, new: RelationModel, id: NodeId, identity: crate::state::IdentityView) -> bool {
    &&& !old.index_of.contains_key(id.0)
    &&& !old.redirects.contains_key(id.0)
    &&& new.index_of.contains_key(id.0)
    &&& !old.nodes.contains_key(new.index_of[id.0])
    &&& new.index_of == old.index_of.insert(id.0, new.index_of[id.0])
    &&& new.nodes == old.nodes.insert(new.index_of[id.0], fresh_node(id, identity))
    &&& new.edges == old.edges
    &&& new.redirects == old.redirects
    &&& new.anchors == old.anchors
    &&& new.keys == match identity_key(identity) {
        Some(k) => old.keys.push((k, id)),
        None => old.keys,
    }
}


/// Ids and indices correspond one to one, and every id is below `next_id`.
pub closed spec fn ids_ok(m: RelationModel, next_id: u64) -> bool {
    &&& forall|id: u64| #[trigger]
        m.index_of.contains_key(id) ==> m.nodes.contains_key(m.index_of[id])
            && m.nodes[m.index_of[id]].id.0 == id && id < next_id
    &&& forall|i: u32| #[trigger]
        m.nodes.contains_key(i) ==> m.index_of.contains_key(m.nodes[i].id.0)
            && m.index_of[m.nodes[i].id.0] == i
}

/// An observer of an edge is the outgoing branch of its source or the
/// incoming branch of its target.
pub open spec fn observer_fits(m: RelationModel, edge: (u32, u32, Seq<BranchKey>), o: BranchKey) -> bool {
    (o.direction == HierarchyDirection::Outgoing && o.node_id == m.nodes[edge.0].id) || (o.direction
        == HierarchyDirection::Incoming && o.node_id == m.nodes[edge.1].id)
}

/// Edges join nodes of the graph, are observed by some branch each, and are
/// unique per pair of endpoints.
pub closed spec fn edges_ok(m: RelationModel) -> bool {
    &&& forall|e: u32, k: int|
        m.edges.contains_key(e) && 0 <= k < m.edges[e].2.len() ==> #[trigger] observer_fits(
            m,
            m.edges[e],
            m.edges[e].2[k],
        )
    &&& forall|e: u32| #[trigger]
        m.edges.contains_key(e) ==> m.nodes.contains_key(m.edges[e].0) && m.nodes.contains_key(
            m.edges[e].1,
        ) && m.edges[e].2.len() > 0 && m.edges[e].2.no_duplicates()
    &&& forall|e: u32, f: u32|
        #![trigger m.edges[e], m.edges[f]]
        m.edges.contains_key(e) && m.edges.contains_key(f) && m.edges[e].0 == m.edges[f].0
            && m.edges[e].1 == m.edges[f].1 ==> e == f
}

/// Redirects leave from removed ids only and, ranked by `depth.0`, form no
/// cycle; every rank is at least `depth.1`.
pub closed spec fn redirects_ok(m: RelationModel, next_id: u64, depth: (Map<u64, int>, int)) -> bool {
    forall|k: u64| #[trigger]
        m.redirects.contains_key(k) ==> !m.index_of.contains_key(k) && k < next_id
            && m.redirects[k] < next_id && depth.0.contains_key(k) && depth.0[k] >= depth.1 && (
        m.redirects.contains_key(m.redirects[k]) ==> depth.0[m.redirects[k]] < depth.0[k])
}

/// Anchors are distinct nodes of the graph.
pub closed spec fn anchors_ok(m: RelationModel) -> bool {
    &&& m.anchors.no_duplicates()
    &&& forall|i: int| 0 <= i < m.anchors.len() ==> #[trigger] m.index_of.contains_key(m.anchors[i].0)
}

/// Every key entry names a node with that key, no key has two entries, and
/// every node with a location has its entry.
pub closed spec fn keys_ok(m: RelationModel) -> bool {
    &&& key_entries_ok(m)
    &&& keys_unique(m)
    &&& keys_complete(m)
}

/// The key of the node with this id, if it has a location.
pub open spec fn key_of(m: RelationModel, id: u64) -> Option<ResolvedKeyView> {
    identity_key(node_identity(node_of(m, id)))
}

/// Entry `i` names a node of the graph that has the entry's key.
pub open spec fn entry_ok(m: RelationModel, i: int) -> bool {
    m.index_of.contains_key(m.keys[i].1.0) && key_of(m, m.keys[i].1.0) == Some(m.keys[i].0)
}

/// Entry `i` is the entry of node `id`.
pub open spec fn entry_is(m: RelationModel, i: int, id: u64) -> bool {
    0 <= i < m.keys.len() && m.keys[i].1 == NodeId(id) && Some(m.keys[i].0) == key_of(m, id)
}

/// Entries `i` and `j` hold the same key.
pub open spec fn same_key(m: RelationModel, i: int, j: int) -> bool {
    m.keys[i].0 == m.keys[j].0
}

/// Every key entry names a node of the graph that has that key.
pub closed spec fn key_entries_ok(m: RelationModel) -> bool {
    forall|i: int| 0 <= i < m.keys.len() ==> #[trigger] entry_ok(m, i)
}

/// No key has two entries.
pub closed spec fn keys_unique(m: RelationModel) -> bool {
    forall|i: int, j: int|
        0 <= i < m.keys.len() && 0 <= j < m.keys.len() && #[trigger] same_key(m, i, j) ==> i == j
}

/// Every node with a location has the entry of its key.
pub closed spec fn keys_complete(m: RelationModel) -> bool {
    forall|id: u64|
        m.index_of.contains_key(id) && (#[trigger] key_of(m, id)) is Some ==> exists|i: int|
            #[trigger] entry_is(m, i, id)
}

/// The invariant of the model.
pub closed spec fn model_ok(m: RelationModel, next_id: u64, depth: (Map<u64, int>, int)) -> bool {
    &&& ids_ok(m, next_id)
    &&& edges_ok(m)
    &&& redirects_ok(m, next_id, depth)
    &&& anchors_ok(m)
    &&& keys_ok(m)
}


/// Edge `e` goes from index `ia` to index `ib`.
pub open spec fn links(edges: Map<u32, (u32, u32, Seq<BranchKey>)>, e: u32, ia: u32, ib: u32) -> bool {
    edges.contains_key(e) && edges[e].0 == ia && edges[e].1 == ib
}

/// The edge from index `ia` to index `ib`, if there is one.
pub open spec fn edge_between(edges: Map<u32, (u32, u32, Seq<BranchKey>)>, ia: u32, ib: u32) -> Option<u32> {
    if exists|e: u32| #[trigger] links(edges, e, ia, ib) {
        Some(choose|e: u32| #[trigger] links(edges, e, ia, ib))
    } else {
        None
    }
}

/// The observers with `owner` added at the end unless present.
pub open spec fn with_owner(s: Seq<BranchKey>, owner: BranchKey) -> Seq<BranchKey> {
    if s.contains(owner) {
        s
    } else {
        s.push(owner)
    }
}

/// The observers without `owner`.
pub open spec fn without_owner(s: Seq<BranchKey>, owner: BranchKey) -> Seq<BranchKey>
    decreases s.len(),
{
    if s.len() == 0 {
        s
    } else {
        let d = without_owner(s.drop_last(), owner);
        if s.last() == owner {
            d
        } else {
            d.push(s.last())
        }
    }
}

/// The edges after `owner` observed the edge from `ia` to `ib`: added to the
/// edge's observers, or a new edge observed by `owner` alone.
pub open spec fn observed(
    edges: Map<u32, (u32, u32, Seq<BranchKey>)>,
    edges2: Map<u32, (u32, u32, Seq<BranchKey>)>,
    ia: u32,
    ib: u32,
    owner: BranchKey,
) -> bool {
    match edge_between(edges, ia, ib) {
        Some(e) => edges2 == edges.insert(e, (ia, ib, with_owner(edges[e].2, owner))),
        None => exists|e: u32|
            !edges.contains_key(e) && #[trigger] edges.insert(e, (ia, ib, seq![owner])) == edges2,
    }
}

/// The edges after `owner` stopped observing the edge from `ia` to `ib`:
/// the edge goes once nobody observes it.
pub open spec fn unobserved(
    edges: Map<u32, (u32, u32, Seq<BranchKey>)>,
    ia: u32,
    ib: u32,
    owner: BranchKey,
) -> Map<u32, (u32, u32, Seq<BranchKey>)> {
    match edge_between(edges, ia, ib) {
        Some(e) => if without_owner(edges[e].2, owner).len() == 0 {
            edges.remove(e)
        } else {
            edges.insert(e, (ia, ib, without_owner(edges[e].2, owner)))
        },
        None => edges,
    }
}

/// `without_owner` keeps every other observer, drops `owner`, and keeps the
/// observers distinct.
pub proof fn lemma_without_owner(s: Seq<BranchKey>, owner: BranchKey)
    ensures
        forall|x: BranchKey| #[trigger] without_owner(s, owner).contains(x) <==> (s.contains(x) && x != owner),
        s.no_duplicates() ==> without_owner(s, owner).no_duplicates(),
        without_owner(s, owner).len() <= s.len(),
    decreases s.len(),
{
    if s.len() > 0 {
        let t = s.drop_last();
        lemma_without_owner(t, owner);
        let d = without_owner(t, owner);
        assert forall|x: BranchKey| #[trigger] without_owner(s, owner).contains(x) <==> (s.contains(x) && x != owner) by {
            if d.contains(x) {
                let j = choose|j: int| 0 <= j < d.len() && d[j] == x;
                assert(d.push(s.last())[j] == x);
            }
            if s.last() != owner {
                assert(d.push(s.last())[d.len() as int] == s.last());
                if d.push(s.last()).contains(x) && x != s.last() {
                    let j = choose|j: int| 0 <= j < d.len() + 1 && d.push(s.last())[j] == x;
                    assert(d[j] == x);
                }
            }
            assert(s[s.len() - 1] == s.last());
            if s.contains(x) && x != s.last() {
                let j = choose|j: int| 0 <= j < s.len() && s[j] == x;
                assert(t[j] == x);
            }
            if t.contains(x) {
                let j = choose|j: int| 0 <= j < t.len() && t[j] == x;
                assert(s[j] == x);
            }
        }
        if s.no_duplicates() {
            assert(t.no_duplicates()) by {
                assert forall|i: int, j: int| 0 <= i < j < t.len() implies t[i] != t[j] by {
                    assert(s[i] == t[i] && s[j] == t[j]);
                }
            }
            if s.last() != owner {
                assert(!t.contains(s.last())) by {
                    if t.contains(s.last()) {
                        let j = choose|j: int| 0 <= j < t.len() && t[j] == s.last();
                        assert(s[j] == s[s.len() - 1]);
                    }
                }
                assert(!d.contains(s.last()));
                assert forall|i: int, j: int| 0 <= i < j < d.push(s.last()).len() implies d.push(s.last())[i]
                    != d.push(s.last())[j] by {
                    if j == d.len() {
                        assert(d.push(s.last())[i] == d[i]);
                    }
                }
            }
        }
    }
}

/// Changing the edges to a set that is still well formed keeps the model
/// invariant.
pub proof fn lemma_edges_changed(m: RelationModel, next_id: u64, depth: (Map<u64, int>, int), edges: Map<u32, (u32, u32, Seq<BranchKey>)>)
    requires
        model_ok(m, next_id, depth),
        edges_ok(RelationModel { edges, ..m }),
    ensures
        model_ok(RelationModel { edges, ..m }, next_id, depth),
{
    let m2 = RelationModel { edges, ..m };
    assert(ids_ok(m2, next_id));
    assert(redirects_ok(m2, next_id, depth));
    assert(anchors_ok(m2));
    assert(keys_ok(m2)) by {
        assert forall|i: int| 0 <= i < m2.keys.len() implies #[trigger] entry_ok(m2, i) by {
            assert(entry_ok(m, i));
        }
        assert forall|i: int, j: int|
            0 <= i < m2.keys.len() && 0 <= j < m2.keys.len() && #[trigger] same_key(m2, i, j) implies i == j by {
            assert(same_key(m, i, j));
        }
        assert forall|id: u64|
            m2.index_of.contains_key(id) && (#[trigger] key_of(m2, id)) is Some implies exists|j: int|
            #[trigger] entry_is(m2, j, id) by {
            assert(m.index_of.contains_key(id) && key_of(m, id) is Some);
            let j = choose|j: int| #[trigger] entry_is(m, j, id);
            assert(entry_is(m2, j, id));
        }
    }
}

/// The edges stay well formed when their endpoints keep their nodes' ids.
pub proof fn lemma_edges_ok_same_edges(m: RelationModel, m2: RelationModel)
    requires
        edges_ok(m),
        m2.edges == m.edges,
        forall|i: u32| #[trigger] m.nodes.contains_key(i) ==> m2.nodes.contains_key(i) && m2.nodes[i].id == m.nodes[i].id,
    ensures
        edges_ok(m2),
{
    assert forall|e: u32, k: int|
        m2.edges.contains_key(e) && 0 <= k < m2.edges[e].2.len() implies #[trigger] observer_fits(
        m2,
        m2.edges[e],
        m2.edges[e].2[k],
    ) by {
        assert(observer_fits(m, m.edges[e], m.edges[e].2[k]));
        assert(m.nodes.contains_key(m.edges[e].0));
        assert(m.nodes.contains_key(m.edges[e].1));
    }
    assert forall|e: u32| #[trigger] m2.edges.contains_key(e) implies m2.nodes.contains_key(
        m2.edges[e].0,
    ) && m2.nodes.contains_key(m2.edges[e].1) && m2.edges[e].2.len() > 0
        && m2.edges[e].2.no_duplicates() by {
        assert(m.edges.contains_key(e));
    }
}

/// Changing the anchors to distinct nodes of the graph keeps the model
/// invariant.
pub proof fn lemma_anchors_changed(m: RelationModel, next_id: u64, depth: (Map<u64, int>, int), anchors: Seq<NodeId>)
    requires
        model_ok(m, next_id, depth),
        anchors.no_duplicates(),
        forall|i: int| 0 <= i < anchors.len() ==> #[trigger] m.index_of.contains_key(anchors[i].0),
    ensures
        model_ok(RelationModel { anchors, ..m }, next_id, depth),
{
    let m2 = RelationModel { anchors, ..m };
    assert(ids_ok(m2, next_id));
    lemma_edges_ok_same_edges(m, m2);
    assert(redirects_ok(m2, next_id, depth));
    assert(keys_ok(m2)) by {
        assert forall|i: int| 0 <= i < m2.keys.len() implies #[trigger] entry_ok(m2, i) by {
            assert(entry_ok(m, i));
        }
        assert forall|i: int, j: int|
            0 <= i < m2.keys.len() && 0 <= j < m2.keys.len() && #[trigger] same_key(m2, i, j) implies i == j by {
            assert(same_key(m, i, j));
        }
        assert forall|id: u64|
            m2.index_of.contains_key(id) && (#[trigger] key_of(m2, id)) is Some implies exists|j: int|
            #[trigger] entry_is(m2, j, id) by {
            assert(m.index_of.contains_key(id) && key_of(m, id) is Some);
            let j = choose|j: int| #[trigger] entry_is(m, j, id);
            assert(entry_is(m2, j, id));
        }
    }
}

/// Replacing a node by one with the same id and key keeps the model
/// invariant.
pub proof fn lemma_node_replaced(m: RelationModel, next_id: u64, depth: (Map<u64, int>, int), i: u32, n: NodeView)
    requires
        model_ok(m, next_id, depth),
        m.nodes.contains_key(i),
    ensures
        (m.nodes[i].id == n.id && identity_key(node_identity(m.nodes[i])) == identity_key(
            node_identity(n),
        )) ==> model_ok(RelationModel { nodes: m.nodes.insert(i, n), ..m }, next_id, depth),
{
    if m.nodes[i].id == n.id && identity_key(node_identity(m.nodes[i])) == identity_key(node_identity(n)) {
        let m2 = RelationModel { nodes: m.nodes.insert(i, n), ..m };
        assert(ids_ok(m2, next_id));
        lemma_edges_ok_same_edges(m, m2);
        assert forall|id: u64| #[trigger] m2.index_of.contains_key(id) implies key_of(m2, id) == key_of(m, id) by {}
        assert forall|i: int| 0 <= i < m2.keys.len() implies #[trigger] entry_ok(m2, i) by {
            assert(entry_ok(m, i));
        }
        assert forall|i: int, j: int|
            0 <= i < m2.keys.len() && 0 <= j < m2.keys.len() && #[trigger] same_key(m2, i, j) implies i == j by {
            assert(same_key(m, i, j));
        }
        assert forall|id: u64|
            m2.index_of.contains_key(id) && (#[trigger] key_of(m2, id)) is Some implies exists|j: int|
            #[trigger] entry_is(m2, j, id) by {
            assert(m.index_of.contains_key(id) && key_of(m, id) is Some);
            let j = choose|j: int| #[trigger] entry_is(m, j, id);
            assert(entry_is(m2, j, id));
        }
        assert(keys_ok(m2));
    }
}

/// Adding a fresh node under a free index, with its key entry when it has a
/// location, keeps the model invariant.
pub proof fn lemma_node_added(m: RelationModel, m2: RelationModel, next_id: u64, depth: (Map<u64, int>, int), index: u32, n: NodeView)
    requires
        model_ok(m, next_id, depth),
        !m.nodes.contains_key(index),
        n.id.0 == next_id,
        next_id < u64::MAX,
        identity_key(node_identity(n)) matches Some(k) ==> forall|i: int| !#[trigger] key_at(m, i, k),
        m2 == (RelationModel {
            index_of: m.index_of.insert(n.id.0, index),
            nodes: m.nodes.insert(index, n),
            keys: match identity_key(node_identity(n)) {
                Some(k) => m.keys.push((k, n.id)),
                None => m.keys,
            },
            ..m
        }),
    ensures
        model_ok(m2, (next_id + 1) as u64, depth),
{
    let next2 = (next_id + 1) as u64;
    assert forall|id: u64| #[trigger] m.index_of.contains_key(id) implies node_of(m2, id) == node_of(m, id)
        && m2.index_of.contains_key(id) by {
        assert(id < next_id);
        assert(m.nodes.contains_key(m.index_of[id]));
    }
    assert(ids_ok(m2, next2)) by {
        assert forall|i: u32| #[trigger] m2.nodes.contains_key(i) implies m2.index_of.contains_key(
            m2.nodes[i].id.0,
        ) && m2.index_of[m2.nodes[i].id.0] == i by {
            if i != index {
                assert(m.nodes.contains_key(i));
                assert(m.index_of.contains_key(m.nodes[i].id.0));
                assert(m.nodes[i].id.0 < next_id);
            }
        }
        assert forall|id: u64| #[trigger] m2.index_of.contains_key(id) implies m2.nodes.contains_key(
            m2.index_of[id],
        ) && m2.nodes[m2.index_of[id]].id.0 == id && id < next2 by {
            if id != n.id.0 {
                assert(m.index_of.contains_key(id));
            }
        }
    }
    lemma_edges_ok_same_edges(m, m2);
    assert(redirects_ok(m2, next2, depth)) by {
        assert forall|k: u64| #[trigger] m2.redirects.contains_key(k) implies !m2.index_of.contains_key(k)
            && k < next2 && m2.redirects[k] < next2 && depth.0.contains_key(k) && depth.0[k] >= depth.1 && (
        m2.redirects.contains_key(m2.redirects[k]) ==> depth.0[m2.redirects[k]] < depth.0[k]) by {
            assert(m.redirects.contains_key(k));
        }
    }
    assert(anchors_ok(m2)) by {
        assert forall|i: int| 0 <= i < m2.anchors.len() implies #[trigger] m2.index_of.contains_key(
            m2.anchors[i].0,
        ) by {
            assert(m.index_of.contains_key(m.anchors[i].0));
        }
    }
    assert forall|id: u64| #[trigger] m.index_of.contains_key(id) implies key_of(m2, id) == key_of(m, id) by {
        assert(node_of(m2, id) == node_of(m, id));
    }
    assert(key_of(m2, n.id.0) == identity_key(node_identity(n)));
    assert forall|i: int| 0 <= i < m2.keys.len() implies #[trigger] entry_ok(m2, i) by {
        if i < m.keys.len() {
            assert(entry_ok(m, i));
            assert(m2.keys[i] == m.keys[i]);
        }
    }
    assert forall|i: int, j: int|
        0 <= i < m2.keys.len() && 0 <= j < m2.keys.len() && #[trigger] same_key(m2, i, j) implies i == j by {
        if i < m.keys.len() && j < m.keys.len() {
            assert(same_key(m, i, j));
        } else if i < m.keys.len() {
            assert(m2.keys[i] == m.keys[i]);
            assert(!key_at(m, i, m2.keys[j].0));
        } else if j < m.keys.len() {
            assert(m2.keys[j] == m.keys[j]);
            assert(!key_at(m, j, m2.keys[i].0));
        }
    }
    assert forall|id: u64|
        m2.index_of.contains_key(id) && (#[trigger] key_of(m2, id)) is Some implies exists|i: int|
        #[trigger] entry_is(m2, i, id) by {
        if id == n.id.0 {
            assert(entry_is(m2, m2.keys.len() - 1, id));
        } else {
            assert(m.index_of.contains_key(id) && key_of(m, id) is Some);
            let i = choose|i: int| #[trigger] entry_is(m, i, id);
            assert(m2.keys[i] == m.keys[i]);
            assert(entry_is(m2, i, id));
        }
    }
    assert(keys_ok(m2));
}

impl RelationGraph {
    /// The invariant of the graph: ids and indices correspond one to one,
    /// edges join nodes of the graph and are unique per pair, the merges form
    /// no cycle, anchors are distinct nodes of the graph, and each node with a
    /// location is found by exactly one key.
    pub closed spec fn well_formed(&self) -> bool {
        &&& model_ok(self@, self.next_id, self.depth@)
        &&& store_node_slots(self.graph) < self.next_id
        &&& store_edge_slots(self.graph) <= self.edges_added
        &&& 1 <= self.next_id
    }

    /// Whether `nodes` more nodes and `edges` more edges can still be added
    /// before the indices of the underlying graph run out.
    pub open spec fn room(&self, nodes: int, edges: int) -> bool {
        self.nodes_used() + nodes < u32::MAX && self.edges_used() + edges < u32::MAX
    }

    /// How many node ids have been handed out, counting the first as one.
    pub closed spec fn nodes_used(&self) -> int {
        self.next_id as int
    }

    /// How many edges have been made.
    pub closed spec fn edges_used(&self) -> int {
        self.edges_added as int
    }

    /// Whether `nodes` more nodes and `edges` more edges can still be added.
    pub fn has_room(&self, nodes: u64, edges: u64) -> (r: bool)
        ensures
            r == self.room(nodes as int, edges as int),
    {
        nodes < u32::MAX as u64 && edges < u32::MAX as u64 && self.next_id < u32::MAX as u64 - nodes
            && self.edges_added < u32::MAX as u64 - edges
    }

    /// An empty graph.
    pub fn new() -> (r: Self)
        ensures
            r.well_formed(),
            r.room(u32::MAX - 2, u32::MAX - 1),
            r@.index_of == Map::<u64, u32>::empty(),
            r@.edges.len() == 0,
            r@.redirects == Map::<u64, u64>::empty(),
            r@.anchors.len() == 0,
            r@.keys.len() == 0,
            r@.nodes == Map::<u32, NodeView>::empty(),
            r.nodes_used() == 1,
            r.edges_used() == 0,
    {
        let r = RelationGraph {
            graph: store_new(),
            by_id: HashMap::new(),
            by_identity: Vec::new(),
            redirects: HashMap::new(),
            anchors: Vec::new(),
            next_id: 1,
            edges_added: 0,
            depth: Ghost((Map::empty(), 0)),
        };
        assert(r@.nodes =~= Map::empty());
        assert(r@.edges =~= Map::empty());
        r
    }
}

impl Default for RelationGraph {
    fn default() -> (r: Self)
        ensures
            r.well_formed(),
            r.room(u32::MAX - 2, u32::MAX - 1),
            r@.index_of == Map::<u64, u32>::empty(),
            r@.edges.len() == 0,
            r@.redirects == Map::<u64, u64>::empty(),
            r@.anchors.len() == 0,
            r@.keys.len() == 0,
            r@.nodes == Map::<u32, NodeView>::empty(),
            r.nodes_used() == 1,
            r.edges_used() == 0,
    {
        RelationGraph::new()
    }
}

/// Following redirects ends, if at all, at a node of the graph.
pub proof fn lemma_follow_live(redirects: Map<u64, u64>, live: Set<u64>, id: u64, fuel: nat)
    ensures
        follow(redirects, live, id, fuel) matches Some(x) ==> live.contains(x) && !redirects.contains_key(x),
    decreases fuel,
{
    if redirects.contains_key(id) && fuel > 0 {
        lemma_follow_live(redirects, live, redirects[id], (fuel - 1) as nat);
    }
}

impl RelationGraph {
    /// The node that an id stands for now, following the merges that
    /// removed it; `None` when it leads to no node of the graph.
    pub fn resolve_id(&self, node_id: NodeId) -> (r: Option<NodeId>)
        requires
            self.well_formed(),
        ensures
            r == resolve(self@, node_id),
    {
        let ghost m = self@;
        let ghost rd = m.redirects;
        let ghost live = m.index_of.dom();
        let ghost n = rd.dom().len();
        let mut visited: HashSet<u64> = HashSet::new();
        let mut cur: u64 = node_id.0;
        proof {
            assert(rd.dom().finite());
        }
        loop
            invariant
                self.well_formed(),
                m == self@,
                rd == m.redirects,
                live == m.index_of.dom(),
                n == rd.dom().len(),
                rd.dom().finite(),
                visited@.subset_of(rd.dom()),
                visited@.finite(),
                visited@.len() <= n,
                follow(rd, live, node_id.0, n) == follow(rd, live, cur, (n - visited@.len()) as nat),
                rd.contains_key(cur) ==> forall|v: u64| #[trigger]
                    visited@.contains(v) ==> self.depth@.0[v] > self.depth@.0[cur],
            ensures
                follow(rd, live, node_id.0, n) == follow(rd, live, cur, (n - visited@.len()) as nat),
                !rd.contains_key(cur),
            decreases n - visited@.len(),
        {
            match self.redirects.get(&cur) {
                Some(next) => {
                    let next = *next;
                    assert(rd.contains_key(cur));
                    assert(!visited@.contains(cur));
                    proof {
                        vstd::set_lib::lemma_len_subset(visited@.insert(cur), rd.dom());
                    }
                    let fresh = visited.insert(cur);
                    if !fresh {
                        return None;
                    }
                    assert(rd[cur] == next);
                    cur = next;
                },
                None => {
                    break;
                },
            }
        }
        if self.by_id.contains_key(&cur) {
            Some(NodeId(cur))
        } else {
            None
        }
    }

    /// Whether an id stands for a node of the graph.
    pub fn contains(&self, node_id: NodeId) -> (r: bool)
        requires
            self.well_formed(),
        ensures
            r == resolve(self@, node_id) is Some,
    {
        self.resolve_id(node_id).is_some()
    }

    /// The node an id stands for.
    pub fn node(&self, node_id: NodeId) -> (r: Option<&GraphNode>)
        requires
            self.well_formed(),
        ensures
            match resolve(self@, node_id) {
                Some(x) => r matches Some(n) && n@ == node_of(self@, x.0),
                None => r is None,
            },
    {
        let id = match self.resolve_id(node_id) {
            Some(x) => x,
            None => {
                return None;
            },
        };
        proof {
            lemma_follow_live(self@.redirects, self@.index_of.dom(), node_id.0, self@.redirects.dom().len());
        }
        let index = match self.by_id.get(&id.0) {
            Some(i) => *i,
            None => {
                return None;
            },
        };
        store_node(&self.graph, index)
    }

    /// The node an id stands for, for change. The graph stays well formed as
    /// long as the node keeps its id, kind and location.
    pub fn node_mut(&mut self, node_id: NodeId) -> (r: Option<&mut GraphNode>)
        requires
            old(self).well_formed(),
        ensures
            resolve(old(self)@, node_id) is None ==> r is None && final(self)@ == old(self)@,
            resolve(old(self)@, node_id) matches Some(x) ==> r is Some && r.unwrap()@ == node_of(old(self)@, x.0),
            resolve(old(self)@, node_id) matches Some(x) ==> final(self)@ == (RelationModel {
                nodes: old(self)@.nodes.insert(old(self)@.index_of[x.0], final(r.unwrap())@),
                ..old(self)@
            }),
            r is Some ==> (final(r.unwrap()).id == r.unwrap().id && identity_key(
                node_identity(final(r.unwrap())@),
            ) == identity_key(node_identity(r.unwrap()@)) ==> final(self).well_formed()),
            r is None ==> final(self).well_formed(),
            final(self).nodes_used() == old(self).nodes_used(),
            final(self).edges_used() == old(self).edges_used(),
    {
        let id = match self.resolve_id(node_id) {
            Some(x) => x,
            None => {
                return None;
            },
        };
        proof {
            lemma_follow_live(self@.redirects, self@.index_of.dom(), node_id.0, self@.redirects.dom().len());
        }
        let index = match self.by_id.get(&id.0) {
            Some(i) => *i,
            None => {
                return None;
            },
        };
        let ghost m = self@;
        let ghost next_id = self.next_id;
        let ghost depth = self.depth@;
        proof {
            assert(m.nodes.contains_key(index));
        }
        let r = store_node_mut(&mut self.graph, index);
        proof {
            if r is Some {
                lemma_node_replaced(m, next_id, depth, index, final(r.unwrap())@);
            }
        }
        r
    }
}

/// The anchors after pinning the node `x`: added at the end unless present.
pub open spec fn pinned(anchors: Seq<NodeId>, x: NodeId) -> Seq<NodeId> {
    if anchors.contains(x) {
        anchors
    } else {
        anchors.push(x)
    }
}

/// The anchors after unpinning the node `x`.
pub open spec fn unpinned(anchors: Seq<NodeId>, x: NodeId) -> Seq<NodeId> {
    if anchors.contains(x) {
        anchors.remove(anchors.index_of(x))
    } else {
        anchors
    }
}

impl RelationGraph {
    /// The anchors, in the order they were pinned.
    pub fn anchors(&self) -> (r: &[NodeId])
        ensures
            r@ == self@.anchors,
    {
        self.anchors.as_slice()
    }

    /// Whether an id stands for a node that is pinned.
    pub fn is_anchor(&self, node_id: NodeId) -> (r: bool)
        requires
            self.well_formed(),
        ensures
            r == (resolve(self@, node_id) matches Some(x) && self@.anchors.contains(x)),
    {
        match self.resolve_id(node_id) {
            Some(x) => contains_node_id(&self.anchors, x),
            None => false,
        }
    }

    /// Pins the node an id stands for; `false`, with nothing changed, when it
    /// stands for none.
    pub fn pin(&mut self, node_id: NodeId) -> (r: bool)
        requires
            old(self).well_formed(),
        ensures
            final(self).well_formed(),
            final(self).nodes_used() == old(self).nodes_used(),
            final(self).edges_used() == old(self).edges_used(),
            r == resolve(old(self)@, node_id) is Some,
            final(self)@ == (match resolve(old(self)@, node_id) {
                Some(x) => RelationModel { anchors: pinned(old(self)@.anchors, x), ..old(self)@ },
                None => old(self)@,
            }),
    {
        let id = match self.resolve_id(node_id) {
            Some(x) => x,
            None => {
                return false;
            },
        };
        proof {
            lemma_follow_live(self@.redirects, self@.index_of.dom(), node_id.0, self@.redirects.dom().len());
        }
        if !contains_node_id(&self.anchors, id) {
            let ghost m = self@;
            self.anchors.push(id);
            proof {
                assert forall|i: int| 0 <= i < self@.anchors.len() implies #[trigger] self@.index_of.contains_key(
                    self@.anchors[i].0,
                ) by {
                    if i < self@.anchors.len() - 1 {
                        assert(self@.anchors[i] == m.anchors[i]);
                        assert(anchors_ok(m));
                    }
                }
                assert(anchors_ok(m));
                assert forall|i: int, j: int| 0 <= i < j < self@.anchors.len() implies self@.anchors[i]
                    != self@.anchors[j] by {
                    if j == self@.anchors.len() - 1 {
                        assert(self@.anchors[i] == m.anchors[i]);
                    }
                }
                lemma_anchors_changed(m, self.next_id, self.depth@, self@.anchors);
            }
        }
        true
    }

    /// Unpins the node an id stands for; `false`, with nothing changed, when
    /// it stands for no pinned node.
    pub fn unpin(&mut self, node_id: NodeId) -> (r: bool)
        requires
            old(self).well_formed(),
        ensures
            final(self).well_formed(),
            final(self).nodes_used() == old(self).nodes_used(),
            final(self).edges_used() == old(self).edges_used(),
            r == (resolve(old(self)@, node_id) matches Some(x) && old(self)@.anchors.contains(x)),
            final(self)@ == (match resolve(old(self)@, node_id) {
                Some(x) => RelationModel { anchors: unpinned(old(self)@.anchors, x), ..old(self)@ },
                None => old(self)@,
            }),
    {
        let id = match self.resolve_id(node_id) {
            Some(x) => x,
            None => {
                return false;
            },
        };
        let index = match position_of(&self.anchors, id) {
            Some(i) => i,
            None => {
                return false;
            },
        };
        let ghost before = self@.anchors;
        proof {
            assert(before[index as int] == id);
            assert(before.contains(id));
            let j = before.index_of(id);
            assert(0 <= j < before.len() && before[j] == id);
            assert(j == index as int);
        }
        let ghost m = self@;
        self.anchors.remove(index);
        proof {
            assert(anchors_ok(m));
            assert(self@.anchors =~= before.remove(index as int));
            assert forall|i: int| 0 <= i < self@.anchors.len() implies #[trigger] self@.index_of.contains_key(
                self@.anchors[i].0,
            ) by {
                if i < index {
                    assert(self@.anchors[i] == before[i]);
                } else {
                    assert(self@.anchors[i] == before[i + 1]);
                }
            }
            assert forall|i: int, j: int| 0 <= i < j < self@.anchors.len() implies self@.anchors[i]
                != self@.anchors[j] by {
                let bi = if i < index { i } else { i + 1 };
                let bj = if j < index { j } else { j + 1 };
                assert(self@.anchors[i] == before[bi]);
                assert(self@.anchors[j] == before[bj]);
            }
            lemma_anchors_changed(m, self.next_id, self.depth@, self@.anchors);
        }
        true
    }

    /// The number of nodes.
    pub fn node_count(&self) -> (r: usize)
        ensures
            r == self@.nodes.len(),
    {
        proof {
            assert(self@.nodes.dom() =~= store_nodes(self.graph).dom());
        }
        store_node_count(&self.graph)
    }

    /// The number of edges.
    pub fn edge_count(&self) -> (r: usize)
        ensures
            r == self@.edges.len(),
    {
        proof {
            assert(self@.edges.dom() =~= store_edges(self.graph).dom());
        }
        store_edge_count(&self.graph)
    }

    /// The node that owns a key, found by its entry.
    fn find_key(&self, key: &ResolvedSymbolKey) -> (r: Option<NodeId>)
        ensures
            match r {
                Some(id) => exists|i: int| #[trigger] key_at(self@, i, key@) && self@.keys[i].1 == id,
                None => forall|i: int| !#[trigger] key_at(self@, i, key@),
            },
    {
        let mut i: usize = 0;
        while i < self.by_identity.len()
            invariant
                i <= self.by_identity@.len(),
                forall|j: int| j < i ==> !#[trigger] key_at(self@, j, key@),
            decreases self.by_identity@.len() - i,
        {
            let entry = &self.by_identity[i];
            if entry.0.kind == key.kind && same_location(&entry.0.location, &key.location) {
                assert(key_at(self@, i as int, key@));
                return Some(entry.1);
            }
            assert(!key_at(self@, i as int, key@));
            i = i + 1;
        }
        None
    }

    /// The node for an identity: the node that already has its kind and
    /// location, else a new node under a fresh id.
    pub fn insert_symbol(&mut self, identity: SymbolIdentity) -> (r: NodeId)
        requires
            old(self).well_formed(),
            old(self).room(1, 0),
        ensures
            final(self).well_formed(),
            final(self).nodes_used() <= old(self).nodes_used() + 1,
            final(self).edges_used() == old(self).edges_used(),
            live(final(self)@, r.0),
            match key_owner(old(self)@, identity_key(identity@)) {
                Some(existing) => r == existing && final(self)@ == old(self)@ && final(self).nodes_used()
                    == old(self).nodes_used(),
                None => node_added(old(self)@, final(self)@, r, identity@) && r.0 == old(self).nodes_used()
                    && final(self).nodes_used() == old(self).nodes_used() + 1,
            },
    {
        let key = ResolvedSymbolKey::from_identity(&identity);
        match &key {
            Some(k) => {
                match self.find_key(k) {
                    Some(existing) => {
                        proof {
                            let m = self@;
                            let i = choose|i: int| #[trigger] key_at(m, i, k@) && m.keys[i].1 == existing;
                            let j = choose|j: int| #[trigger] key_at(m, j, k@);
                            assert(entry_ok(m, i));
                            assert(same_key(m, i, j));
                        }
                        return existing;
                    },
                    None => {},
                }
            },
            None => {},
        }
        let ghost old_model = self@;
        let ghost old_next = self.next_id;
        let node_id = NodeId(self.next_id);
        self.next_id = self.next_id + 1;
        let node = GraphNode::new(identity, node_id);
        let index = store_add_node(&mut self.graph, node);
        self.by_id.insert(node_id.0, index);
        match key {
            Some(k) => {
                self.by_identity.push((k, node_id));
            },
            None => {},
        }
        proof {
            let m = self@;
            assert(m.index_of =~= old_model.index_of.insert(node_id.0, index));
            assert(m.nodes =~= old_model.nodes.insert(index, fresh_node(node_id, identity@)));
            assert(m.keys =~= match identity_key(identity@) {
                Some(kk) => old_model.keys.push((kk, node_id)),
                None => old_model.keys,
            });
            lemma_node_added(old_model, m, old_next, self.depth@, index, fresh_node(node_id, identity@));
        }
        node_id
    }

    /// The node for an identity, pinned as an anchor.
    pub fn pin_symbol(&mut self, identity: SymbolIdentity) -> (r: NodeId)
        requires
            old(self).well_formed(),
            old(self).room(1, 0),
        ensures
            final(self).well_formed(),
            final(self).nodes_used() <= old(self).nodes_used() + 1,
            final(self).edges_used() == old(self).edges_used(),
            live(final(self)@, r.0),
            final(self)@.anchors == pinned(old(self)@.anchors, r),
            match key_owner(old(self)@, identity_key(identity@)) {
                Some(existing) => r == existing && final(self)@ == (RelationModel {
                    anchors: final(self)@.anchors,
                    ..old(self)@
                }),
                None => node_added(old(self)@, RelationModel { anchors: old(self)@.anchors, ..final(self)@ }, r, identity@)
                    && r.0 == old(self).nodes_used(),
            },
    {
        let ghost id = identity@;
        let node_id = self.insert_symbol(identity);
        let ghost mid = self@;
        proof {
            assert(self@.redirects.contains_key(node_id.0) == false);
            assert(follow(self@.redirects, self@.index_of.dom(), node_id.0, self@.redirects.dom().len()) == Some(node_id.0));
        }
        self.pin(node_id);
        node_id
    }
}

/// Whether `id` is in the list.
fn contains_node_id(list: &Vec<NodeId>, id: NodeId) -> (r: bool)
    ensures
        r == list@.contains(id),
{
    let mut i: usize = 0;
    while i < list.len()
        invariant
            i <= list@.len(),
            forall|j: int| 0 <= j < i ==> list@[j] != id,
        decreases list@.len() - i,
    {
        if list[i] == id {
            assert(list@[i as int] == id);
            return true;
        }
        i = i + 1;
    }
    false
}

/// Where `id` first occurs in the list.
fn position_of(list: &Vec<NodeId>, id: NodeId) -> (r: Option<usize>)
    ensures
        match r {
            Some(i) => i < list@.len() && list@[i as int] == id && forall|j: int| 0 <= j < i ==> list@[j] != id,
            None => !list@.contains(id),
        },
{
    let mut i: usize = 0;
    while i < list.len()
        invariant
            i <= list@.len(),
            forall|j: int| 0 <= j < i ==> list@[j] != id,
        decreases list@.len() - i,
    {
        if list[i] == id {
            return Some(i);
        }
        i = i + 1;
    }
    None
}

impl RelationGraph {
    /// The index of a node of the graph.
    fn index_of_node(&self, id: NodeId) -> (r: u32)
        requires
            self.well_formed(),
            live(self@, id.0),
        ensures
            r == self@.index_of[id.0],
            self@.nodes.contains_key(r),
    {
        match self.by_id.get(&id.0) {
            Some(i) => *i,
            None => 0,
        }
    }

    /// Whether an edge joins the nodes two ids stand for.
    fn has_edge(&self, source: NodeId, target: NodeId) -> (r: bool)
        requires
            self.well_formed(),
        ensures
            r == match (resolve(self@, source), resolve(self@, target)) {
                (Some(a), Some(b)) => edge_between(
                    self@.edges,
                    self@.index_of[a.0],
                    self@.index_of[b.0],
                ) is Some,
                _ => false,
            },
    {
        let a = match self.resolve_id(source) {
            Some(x) => x,
            None => {
                return false;
            },
        };
        let b = match self.resolve_id(target) {
            Some(x) => x,
            None => {
                return false;
            },
        };
        proof {
            lemma_follow_live(self@.redirects, self@.index_of.dom(), source.0, self@.redirects.dom().len());
            lemma_follow_live(self@.redirects, self@.index_of.dom(), target.0, self@.redirects.dom().len());
        }
        let ia = self.index_of_node(a);
        let ib = self.index_of_node(b);
        match store_find_edge(&self.graph, ia, ib) {
            Some(e) => {
                assert(links(self@.edges, e, ia, ib));
                true
            },
            None => {
                assert(!exists|e: u32| #[trigger] links(self@.edges, e, ia, ib));
                false
            },
        }
    }

    /// Records that `owner` observed the relation between a node and one of
    /// its neighbours: the owner joins the edge's observers, or a new edge
    /// is made. Nothing changes when either end stands for no node.
    fn observe_relation(&mut self, node_id: NodeId, neighbor: NodeId, owner: BranchKey)
        requires
            old(self).well_formed(),
            old(self).room(0, 1),
            live(old(self)@, node_id.0),
            owner.node_id == node_id,
        ensures
            final(self).well_formed(),
            final(self).nodes_used() == old(self).nodes_used(),
            final(self).edges_used() <= old(self).edges_used() + 1,
            final(self)@ == (RelationModel { edges: final(self)@.edges, ..old(self)@ }),
            match (
                resolve(old(self)@, edge_of(node_id, neighbor, owner.direction).source),
                resolve(old(self)@, edge_of(node_id, neighbor, owner.direction).target),
            ) {
                (Some(a), Some(b)) => edge_between(
                    old(self)@.edges,
                    old(self)@.index_of[a.0],
                    old(self)@.index_of[b.0],
                ) is Some ==> final(self).edges_used() == old(self).edges_used(),
                _ => true,
            },
            match (
                resolve(old(self)@, edge_of(node_id, neighbor, owner.direction).source),
                resolve(old(self)@, edge_of(node_id, neighbor, owner.direction).target),
            ) {
                (Some(a), Some(b)) => observed(
                    old(self)@.edges,
                    final(self)@.edges,
                    old(self)@.index_of[a.0],
                    old(self)@.index_of[b.0],
                    owner,
                ),
                _ => final(self)@.edges == old(self)@.edges,
            },
    {
        let edge = canonical_edge(node_id, neighbor, owner.direction);
        let a = match self.resolve_id(edge.source) {
            Some(x) => x,
            None => {
                return;
            },
        };
        let b = match self.resolve_id(edge.target) {
            Some(x) => x,
            None => {
                return;
            },
        };
        proof {
            lemma_follow_live(self@.redirects, self@.index_of.dom(), edge.source.0, self@.redirects.dom().len());
            lemma_follow_live(self@.redirects, self@.index_of.dom(), edge.target.0, self@.redirects.dom().len());
        }
        let ia = self.index_of_node(a);
        let ib = self.index_of_node(b);
        let ghost m = self@;
        let ghost next_id = self.next_id;
        let ghost depth = self.depth@;
        match store_find_edge(&self.graph, ia, ib) {
            Some(e) => {
                assert(links(m.edges, e, ia, ib));
                assert(edge_between(m.edges, ia, ib) == Some(e)) by {
                    let f = choose|f: u32| #[trigger] links(m.edges, f, ia, ib);
                    assert(edges_ok(m));
                    assert(m.edges[e].0 == m.edges[f].0 && m.edges[e].1 == m.edges[f].1);
                }
                let w = store_edge_mut(&mut self.graph, e);
                match w {
                    Some(w) => {
                        if !contains_branch_key(&w.observed_by, owner) {
                            w.observed_by.push(owner);
                        }
                    },
                    None => {},
                }
                proof {
                    let obs = m.edges[e].2;
                    assert(self@.edges =~= m.edges.insert(e, (ia, ib, with_owner(obs, owner))));
                    assert(edges_ok(m));
                    let m2 = RelationModel { edges: self@.edges, ..m };
                    assert(with_owner(obs, owner).no_duplicates()) by {
                        if !obs.contains(owner) {
                            assert forall|i: int, j: int| 0 <= i < j < obs.push(owner).len() implies obs.push(owner)[i]
                                != obs.push(owner)[j] by {
                                if j == obs.len() {
                                    assert(obs.push(owner)[i] == obs[i]);
                                }
                            }
                        }
                    }
                    assert(edges_ok(m2)) by {
                        assert forall|f: u32, g: u32|
                            #![trigger m2.edges[f], m2.edges[g]]
                            m2.edges.contains_key(f) && m2.edges.contains_key(g) && m2.edges[f].0 == m2.edges[g].0
                                && m2.edges[f].1 == m2.edges[g].1 implies f == g by {
                            assert(m.edges[f].0 == m2.edges[f].0 && m.edges[f].1 == m2.edges[f].1);
                            assert(m.edges[g].0 == m2.edges[g].0 && m.edges[g].1 == m2.edges[g].1);
                        }
                        assert forall|f: u32, k: int|
                            m2.edges.contains_key(f) && 0 <= k < m2.edges[f].2.len() implies #[trigger] observer_fits(
                            m2,
                            m2.edges[f],
                            m2.edges[f].2[k],
                        ) by {
                            if f != e {
                                assert(observer_fits(m, m.edges[f], m.edges[f].2[k]));
                            } else if k < obs.len() {
                                assert(m2.edges[f].2[k] == obs[k]);
                                assert(observer_fits(m, m.edges[e], obs[k]));
                            } else {
                                assert(m2.edges[f].2[k] == owner);
                            }
                        }
                    }
                    lemma_edges_changed(m, next_id, depth, self@.edges);
                }
            },
            None => {
                assert(!exists|f: u32| #[trigger] links(m.edges, f, ia, ib));
                let mut observers: Vec<BranchKey> = Vec::new();
                observers.push(owner);
                let e = store_add_edge(&mut self.graph, ia, ib, RelationEdge { observed_by: observers });
                self.edges_added = self.edges_added + 1;
                proof {
                    assert(self@.edges =~= m.edges.insert(e, (ia, ib, seq![owner])));
                    assert(edges_ok(m));
                    let m2 = RelationModel { edges: self@.edges, ..m };
                    assert(edges_ok(m2)) by {
                        assert forall|f: u32, g: u32|
                            #![trigger m2.edges[f], m2.edges[g]]
                            m2.edges.contains_key(f) && m2.edges.contains_key(g) && m2.edges[f].0 == m2.edges[g].0
                                && m2.edges[f].1 == m2.edges[g].1 implies f == g by {
                            if f != e && g == e {
                                assert(links(m.edges, f, ia, ib));
                            }
                            if g != e && f == e {
                                assert(links(m.edges, g, ia, ib));
                            }
                        }
                        assert forall|f: u32, k: int|
                            m2.edges.contains_key(f) && 0 <= k < m2.edges[f].2.len() implies #[trigger] observer_fits(
                            m2,
                            m2.edges[f],
                            m2.edges[f].2[k],
                        ) by {
                            if f != e {
                                assert(observer_fits(m, m.edges[f], m.edges[f].2[k]));
                            } else {
                                assert(m2.edges[f].2[k] == owner);
                            }
                        }
                    }
                    lemma_edges_changed(m, next_id, depth, self@.edges);
                    assert(self@.edges == m.edges.insert(e, (ia, ib, seq![owner])));
                }
            },
        }
    }
}

/// Whether `key` is in the list.
fn contains_branch_key(list: &Vec<BranchKey>, key: BranchKey) -> (r: bool)
    ensures
        r == list@.contains(key),
{
    let mut i: usize = 0;
    while i < list.len()
        invariant
            i <= list@.len(),
            forall|j: int| 0 <= j < i ==> list@[j] != key,
        decreases list@.len() - i,
    {
        if list[i] == key {
            assert(list@[i as int] == key);
            return true;
        }
        i = i + 1;
    }
    false
}

impl RelationGraph {
    /// Records that `owner` no longer observes the relation between a node
    /// and one of its neighbours; the edge goes once nobody observes it.
    fn remove_observation(&mut self, node_id: NodeId, neighbor: NodeId, owner: BranchKey)
        requires
            old(self).well_formed(),
        ensures
            final(self).well_formed(),
            final(self).nodes_used() == old(self).nodes_used(),
            final(self).edges_used() == old(self).edges_used(),
            final(self)@ == (RelationModel { edges: final(self)@.edges, ..old(self)@ }),
            final(self)@.edges == match (
                resolve(old(self)@, edge_of(node_id, neighbor, owner.direction).source),
                resolve(old(self)@, edge_of(node_id, neighbor, owner.direction).target),
            ) {
                (Some(a), Some(b)) => unobserved(
                    old(self)@.edges,
                    old(self)@.index_of[a.0],
                    old(self)@.index_of[b.0],
                    owner,
                ),
                _ => old(self)@.edges,
            },
    {
        let edge = canonical_edge(node_id, neighbor, owner.direction);
        let a = match self.resolve_id(edge.source) {
            Some(x) => x,
            None => {
                return;
            },
        };
        let b = match self.resolve_id(edge.target) {
            Some(x) => x,
            None => {
                return;
            },
        };
        proof {
            lemma_follow_live(self@.redirects, self@.index_of.dom(), edge.source.0, self@.redirects.dom().len());
            lemma_follow_live(self@.redirects, self@.index_of.dom(), edge.target.0, self@.redirects.dom().len());
        }
        let ia = self.index_of_node(a);
        let ib = self.index_of_node(b);
        let ghost m = self@;
        let ghost next_id = self.next_id;
        let ghost depth = self.depth@;
        let e = match store_find_edge(&self.graph, ia, ib) {
            Some(e) => e,
            None => {
                assert(!exists|f: u32| #[trigger] links(m.edges, f, ia, ib));
                return;
            },
        };
        assert(links(m.edges, e, ia, ib));
        assert(edge_between(m.edges, ia, ib) == Some(e)) by {
            let f = choose|f: u32| #[trigger] links(m.edges, f, ia, ib);
            assert(edges_ok(m));
            assert(m.edges[e].0 == m.edges[f].0 && m.edges[e].1 == m.edges[f].1);
        }
        let ghost obs = m.edges[e].2;
        let mut empty = false;
        let w = store_edge_mut(&mut self.graph, e);
        match w {
            Some(w) => {
                let kept = without_key(&w.observed_by, owner);
                empty = kept.len() == 0;
                w.observed_by = kept;
            },
            None => {},
        }
        proof {
            assert(edges_ok(m));
            lemma_without_owner(obs, owner);
            assert(self@.edges =~= m.edges.insert(e, (ia, ib, without_owner(obs, owner))));
        }
        let ghost mid = self@.edges;
        if empty {
            store_remove_edge(&mut self.graph, e);
            proof {
                assert(self@.edges =~= m.edges.remove(e));
            }
        }
        proof {
            let m2 = RelationModel { edges: self@.edges, ..m };
            assert(edges_ok(m2)) by {
                assert forall|f: u32, g: u32|
                    #![trigger m2.edges[f], m2.edges[g]]
                    m2.edges.contains_key(f) && m2.edges.contains_key(g) && m2.edges[f].0 == m2.edges[g].0
                        && m2.edges[f].1 == m2.edges[g].1 implies f == g by {
                    assert(m.edges[f].0 == m2.edges[f].0 && m.edges[f].1 == m2.edges[f].1);
                    assert(m.edges[g].0 == m2.edges[g].0 && m.edges[g].1 == m2.edges[g].1);
                }
                assert forall|f: u32, k: int|
                    m2.edges.contains_key(f) && 0 <= k < m2.edges[f].2.len() implies #[trigger] observer_fits(
                    m2,
                    m2.edges[f],
                    m2.edges[f].2[k],
                ) by {
                    if f != e {
                        assert(observer_fits(m, m.edges[f], m.edges[f].2[k]));
                    } else {
                        let o = m2.edges[f].2[k];
                        assert(without_owner(obs, owner).contains(o));
                        assert(obs.contains(o));
                        let q = choose|q: int| 0 <= q < obs.len() && obs[q] == o;
                        assert(observer_fits(m, m.edges[e], obs[q]));
                    }
                }
            }
            lemma_edges_changed(m, next_id, depth, self@.edges);
        }
    }
}

/// The list without `key`.
fn without_key(list: &Vec<BranchKey>, key: BranchKey) -> (r: Vec<BranchKey>)
    ensures
        r@ == without_owner(list@, key),
{
    let mut out: Vec<BranchKey> = Vec::new();
    let mut i: usize = 0;
    while i < list.len()
        invariant
            i <= list@.len(),
            out@ == without_owner(list@.take(i as int), key),
        decreases list@.len() - i,
    {
        assert(list@.take(i + 1).drop_last() =~= list@.take(i as int));
        if list[i] != key {
            out.push(list[i]);
        }
        i = i + 1;
    }
    assert(list@.take(list@.len() as int) =~= list@);
    out
}

/// Observing a relation keeps every edge that was there, with its endpoints.
pub proof fn lemma_observed_keeps(
    edges: Map<u32, (u32, u32, Seq<BranchKey>)>,
    edges2: Map<u32, (u32, u32, Seq<BranchKey>)>,
    ia: u32,
    ib: u32,
    owner: BranchKey,
)
    requires
        observed(edges, edges2, ia, ib, owner),
    ensures
        forall|e: u32| #[trigger]
            edges.contains_key(e) ==> edges2.contains_key(e) && edges2[e].0 == edges[e].0
                && edges2[e].1 == edges[e].1,
        exists|e: u32| #[trigger] links(edges2, e, ia, ib),
        forall|f: u32| #[trigger]
            edges2.contains_key(f) ==> edges.contains_key(f) || (edges2[f].0 == ia && edges2[f].1 == ib),
{
    match edge_between(edges, ia, ib) {
        Some(e) => {
            assert(links(edges, e, ia, ib));
            assert(links(edges2, e, ia, ib));
        },
        None => {
            let e = choose|e: u32|
                !edges.contains_key(e) && #[trigger] edges.insert(e, (ia, ib, seq![owner])) == edges2;
            assert(links(edges2, e, ia, ib));
        },
    }
}

/// Once a key has an owner, adding nodes or edges does not change it.
pub proof fn lemma_key_owner_kept(m: RelationModel, m2: RelationModel, k: ResolvedKeyView)
    requires
        keys_ok(m2),
        m.keys.len() <= m2.keys.len(),
        forall|i: int| 0 <= i < m.keys.len() ==> #[trigger] m2.keys[i] == m.keys[i],
        exists|i: int| #[trigger] key_at(m, i, k),
    ensures
        key_owner(m2, Some(k)) == key_owner(m, Some(k)),
{
    let i = choose|i: int| #[trigger] key_at(m, i, k);
    assert(key_at(m2, i, k));
    let j = choose|j: int| #[trigger] key_at(m2, j, k);
    assert(same_key(m2, i, j));
    assert(m2.keys[i] == m.keys[i]);
}

/// `n` is a node of the graph, related by an edge to `x` on the side
/// `direction`.
pub open spec fn neighbor_ok(m: RelationModel, x: NodeId, direction: HierarchyDirection, n: NodeId) -> bool {
    live(m, n.0) && edge_between(
        m.edges,
        m.index_of[edge_of(x, n, direction).source.0],
        m.index_of[edge_of(x, n, direction).target.0],
    ) is Some
}

/// The owner of a key is in the list.
pub open spec fn owner_listed(m: RelationModel, key: Option<ResolvedKeyView>, list: Seq<NodeId>) -> bool {
    key_owner(m, key) matches Some(o) && list.contains(o)
}

/// Every id of the graph has its node.
pub proof fn lemma_live_has_node(g: &RelationGraph)
    requires
        g.well_formed(),
    ensures
        forall|y: u64| #[trigger] live(g@, y) ==> g@.nodes.contains_key(g@.index_of[y]),
{
}

/// An id of the graph that no merge removed stands for itself.
pub proof fn lemma_live_resolves(g: &RelationGraph, id: u64)
    requires
        g.well_formed(),
        live(g@, id),
    ensures
        resolve(g@, NodeId(id)) == Some(NodeId(id)),
{
    assert(!g@.redirects.contains_key(id));
}

/// The views of a list of identities.
pub open spec fn identity_views(v: Seq<SymbolIdentity>) -> Seq<crate::state::IdentityView> {
    Seq::new(v.len(), |i: int| v[i]@)
}

/// The model `m2` is `m` with the neighbours of node `x` on one side
/// replaced by `v`: the nodes found for `children`, each once, related to
/// `x`; the other nodes keep their identities, and merges and anchors stay.
pub open spec fn neighbors_replaced(
    m: RelationModel,
    m2: RelationModel,
    x: NodeId,
    direction: HierarchyDirection,
    children: Seq<crate::state::IdentityView>,
    v: Seq<NodeId>,
) -> bool {
    &&& m2.redirects == m.redirects
    &&& m2.anchors == m.anchors
    &&& forall|y: u64| #[trigger]
        live(m, y) ==> live(m2, y) && node_identity(node_of(m2, y)) == node_identity(node_of(m, y))
    &&& v.no_duplicates()
    &&& v.len() <= children.len()
    &&& node_branch(node_of(m2, x.0), direction).neighbors == v
    &&& forall|i: int| 0 <= i < v.len() ==> #[trigger] neighbor_ok(m2, x, direction, v[i])
    &&& forall|j: int|
        0 <= j < children.len() && identity_key(#[trigger] children[j]) is Some ==> owner_listed(
            m2,
            identity_key(children[j]),
            v,
        )
}

impl RelationGraph {
    /// Replaces the neighbours on one side of a node by the nodes found for
    /// `children`, each once, in order, and records the relation to each;
    /// `None`, with nothing changed, when the id stands for no node.
    pub fn replace_branch_neighbors(
        &mut self,
        node_id: NodeId,
        direction: HierarchyDirection,
        children: Vec<SymbolIdentity>,
    ) -> (r: Option<Vec<NodeId>>)
        requires
            old(self).well_formed(),
            old(self).room(children@.len() as int, children@.len() as int),
        ensures
            final(self).well_formed(),
            final(self).nodes_used() <= old(self).nodes_used() + children@.len(),
            final(self).edges_used() <= old(self).edges_used() + children@.len(),
            final(self)@.redirects == old(self)@.redirects,
            final(self)@.anchors == old(self)@.anchors,
            forall|y: u64| #[trigger]
                live(old(self)@, y) ==> live(final(self)@, y) && node_identity(node_of(final(self)@, y))
                    == node_identity(node_of(old(self)@, y)),
            match resolve(old(self)@, node_id) {
                None => r is None && final(self)@ == old(self)@,
                Some(x) => r matches Some(v) && neighbors_replaced(
                    old(self)@,
                    final(self)@,
                    x,
                    direction,
                    identity_views(children@),
                    v@,
                ),
            },
    {
        let x = match self.resolve_id(node_id) {
            Some(x) => x,
            None => {
                return None;
            },
        };
        proof {
            lemma_follow_live(self@.redirects, self@.index_of.dom(), node_id.0, self@.redirects.dom().len());
        }
        let ghost m0 = self@;
        let owner = BranchKey { node_id: x, direction };
        let old_neighbors = match self.node(x) {
            Some(n) => copy_ids(&n.branch(direction).neighbors),
            None => Vec::new(),
        };
        let mut i: usize = 0;
        while i < old_neighbors.len()
            invariant
                self.well_formed(),
                self.nodes_used() == old(self).nodes_used(),
                self.edges_used() == old(self).edges_used(),
                old(self).room(children@.len() as int, children@.len() as int),
                self@ == (RelationModel { edges: self@.edges, ..m0 }),
                live(m0, x.0),
            decreases old_neighbors@.len() - i,
        {
            self.remove_observation(x, old_neighbors[i], owner);
            i = i + 1;
        }
        let ghost m1 = self@;
        let mut neighbors: Vec<NodeId> = Vec::new();
        let mut j: usize = 0;
        while j < children.len()
            invariant
                self.well_formed(),
                j <= children@.len(),
                self.nodes_used() <= old(self).nodes_used() + j,
                self.edges_used() <= old(self).edges_used() + j,
                old(self).room(children@.len() as int, children@.len() as int),
                self@.redirects == m0.redirects,
                self@.anchors == m0.anchors,
                self@.keys.len() >= m0.keys.len(),
                forall|y: u64| #[trigger]
                    live(m0, y) ==> live(self@, y) && node_of(self@, y) == node_of(m1, y)
                        && self@.index_of[y] == m0.index_of[y],
                forall|y: u64| #[trigger]
                    live(m0, y) ==> node_identity(node_of(m1, y)) == node_identity(node_of(m0, y)),
                live(m0, x.0),
                owner == (BranchKey { node_id: x, direction }),
                neighbors@.no_duplicates(),
                neighbors@.len() <= j,
                forall|i: int|
                    0 <= i < neighbors@.len() ==> #[trigger] neighbor_ok(self@, x, direction, neighbors@[i]),
                forall|k: int|
                    0 <= k < j && identity_key(#[trigger] children@[k]@) is Some ==> owner_listed(
                        self@,
                        identity_key(children@[k]@),
                        neighbors@,
                    ),
            decreases children@.len() - j,
        {
            let child = copy_identity(&children[j]);
            let ghost before = self@;
            let ghost child_view = children@[j as int]@;
            proof {
                lemma_live_has_node(self);
            }
            let child_id = self.insert_symbol(child);
            let ghost after_insert = self@;
            proof {
                assert(after_insert.edges == before.edges);
                assert(after_insert.keys.len() >= before.keys.len());
                assert forall|i: int| 0 <= i < before.keys.len() implies #[trigger] after_insert.keys[i]
                    == before.keys[i] by {}
                assert forall|y: u64| #[trigger] live(before, y) implies live(after_insert, y)
                    && node_of(after_insert, y) == node_of(before, y)
                    && after_insert.index_of[y] == before.index_of[y] by {
                    assert(before.nodes.contains_key(before.index_of[y]));
                }
                assert forall|i: int| 0 <= i < neighbors@.len() implies #[trigger] neighbor_ok(
                    after_insert,
                    x,
                    direction,
                    neighbors@[i],
                ) by {
                    assert(neighbor_ok(before, x, direction, neighbors@[i]));
                    assert(live(before, neighbors@[i].0));
                    assert(live(before, x.0));
                    assert(after_insert.index_of[neighbors@[i].0] == before.index_of[neighbors@[i].0]);
                    assert(after_insert.index_of[x.0] == before.index_of[x.0]);
                }
                assert forall|k: int|
                    0 <= k < j && identity_key(#[trigger] children@[k]@) is Some implies owner_listed(
                    after_insert,
                    identity_key(children@[k]@),
                    neighbors@,
                ) by {
                    let kk = identity_key(children@[k]@).unwrap();
                    assert(owner_listed(before, identity_key(children@[k]@), neighbors@));
                    assert(key_owner(before, Some(kk)) is Some);
                    lemma_key_owner_kept(before, after_insert, kk);
                }
                if identity_key(child_view) is Some {
                    let kk = identity_key(child_view).unwrap();
                    if key_owner(before, Some(kk)) is None {
                        assert(key_at(after_insert, after_insert.keys.len() - 1, kk));
                        let c = choose|c: int| #[trigger] key_at(after_insert, c, kk);
                        assert(same_key(after_insert, c, after_insert.keys.len() - 1));
                    }
                    assert(key_owner(after_insert, Some(kk)) == Some(child_id));
                }
            }
            if contains_node_id(&neighbors, child_id) {
                proof {
                    if identity_key(child_view) is Some {
                        assert(owner_listed(after_insert, identity_key(child_view), neighbors@));
                    }
                    assert forall|k: int|
                        0 <= k < j + 1 && identity_key(#[trigger] children@[k]@) is Some implies owner_listed(
                        self@,
                        identity_key(children@[k]@),
                        neighbors@,
                    ) by {
                        if k < j {
                            assert(owner_listed(after_insert, identity_key(children@[k]@), neighbors@));
                        }
                    }
                }
                j = j + 1;
                continue;
            }
            let ghost before_obs = self@;
            let ghost list_before = neighbors@;
            proof {
                lemma_live_resolves(self, x.0);
                lemma_live_resolves(self, child_id.0);
                assert(owner.direction == direction);
                let src = edge_of(x, child_id, direction).source;
                let tgt = edge_of(x, child_id, direction).target;
                assert(resolve(before_obs, src) == Some(src));
                assert(resolve(before_obs, tgt) == Some(tgt));
            }
            self.observe_relation(x, child_id, owner);
            neighbors.push(child_id);
            proof {
                let src = edge_of(x, child_id, direction).source;
                let tgt = edge_of(x, child_id, direction).target;
                lemma_observed_keeps(
                    before_obs.edges,
                    self@.edges,
                    before_obs.index_of[src.0],
                    before_obs.index_of[tgt.0],
                    owner,
                );
                assert(self@.keys == before_obs.keys);
                assert(self@.index_of == before_obs.index_of);
                assert forall|k: int|
                    0 <= k < j + 1 && identity_key(#[trigger] children@[k]@) is Some implies owner_listed(
                    self@,
                    identity_key(children@[k]@),
                    neighbors@,
                ) by {
                    if k < j {
                        assert(owner_listed(after_insert, identity_key(children@[k]@), list_before));
                        lemma_key_owner_kept(before_obs, self@, identity_key(children@[k]@).unwrap());
                        let o = key_owner(before_obs, identity_key(children@[k]@)).unwrap();
                        let p = choose|p: int| 0 <= p < list_before.len() && list_before[p] == o;
                        assert(neighbors@[p] == o);
                    } else {
                        assert(neighbors@[list_before.len() as int] == child_id);
                        lemma_key_owner_kept(before_obs, self@, identity_key(child_view).unwrap());
                    }
                }
                assert forall|i: int| 0 <= i < neighbors@.len() implies #[trigger] neighbor_ok(
                    self@,
                    x,
                    direction,
                    neighbors@[i],
                ) by {
                    let n = neighbors@[i];
                    let src = edge_of(x, n, direction).source.0;
                    let tgt = edge_of(x, n, direction).target.0;
                    if i < list_before.len() {
                        assert(n == list_before[i]);
                        assert(neighbor_ok(after_insert, x, direction, list_before[i]));
                        assert(edge_between(
                            before_obs.edges,
                            before_obs.index_of[src],
                            before_obs.index_of[tgt],
                        ) is Some);
                        let e = choose|e: u32| #[trigger] links(
                            before_obs.edges,
                            e,
                            before_obs.index_of[src],
                            before_obs.index_of[tgt],
                        );
                        assert(links(self@.edges, e, self@.index_of[src], self@.index_of[tgt]));
                    } else {
                        assert(n == child_id);
                    }
                }
                assert forall|a: int, b: int| 0 <= a < b < neighbors@.len() implies neighbors@[a]
                    != neighbors@[b] by {
                    assert(neighbors@[a] == list_before[a]);
                    if b < list_before.len() {
                        assert(neighbors@[b] == list_before[b]);
                    }
                }
            }
            j = j + 1;
        }
        let result = copy_ids(&neighbors);
        let ghost before_mut = self@;
        let ghost list = neighbors@;
        proof {
            lemma_live_resolves(self, x.0);
            lemma_live_has_node(self);
        }
        match self.node_mut(x) {
            Some(n) => {
                n.branch_mut(direction).neighbors = neighbors;
            },
            None => {},
        }
        proof {
            let m = self@;
            let ix = before_mut.index_of[x.0];
            assert(m.index_of == before_mut.index_of);
            assert(m.edges == before_mut.edges);
            assert(m.keys == before_mut.keys);
            assert(node_identity(m.nodes[ix]) == node_identity(before_mut.nodes[ix]));
            assert(node_branch(m.nodes[ix], direction).neighbors == list);
            assert forall|y: u64| #[trigger] live(old(self)@, y) implies live(m, y) && node_identity(
                node_of(m, y),
            ) == node_identity(node_of(old(self)@, y)) by {
                assert(live(m0, y));
                assert(node_of(before_mut, y) == node_of(m1, y));
                if before_mut.index_of[y] != ix {
                    assert(node_of(m, y) == node_of(before_mut, y));
                }
            }
            assert forall|i: int| 0 <= i < list.len() implies #[trigger] neighbor_ok(m, x, direction, list[i]) by {
                assert(neighbor_ok(before_mut, x, direction, list[i]));
            }
            assert forall|j: int|
                0 <= j < children@.len() && identity_key(#[trigger] children@[j]@) is Some implies owner_listed(
                m,
                identity_key(children@[j]@),
                list,
            ) by {
                assert(owner_listed(before_mut, identity_key(children@[j]@), list));
                lemma_key_owner_kept(before_mut, m, identity_key(children@[j]@).unwrap());
            }
        }
        Some(result)
    }
}

/// A copy of a list of ids.
fn copy_ids(list: &Vec<NodeId>) -> (r: Vec<NodeId>)
    ensures
        r@ == list@,
{
    let mut out: Vec<NodeId> = Vec::new();
    let mut i: usize = 0;
    while i < list.len()
        invariant
            i <= list@.len(),
            out@ == list@.take(i as int),
        decreases list@.len() - i,
    {
        out.push(list[i]);
        i = i + 1;
    }
    assert(out@ =~= list@);
    out
}

/// The edges after `owner` stopped observing the relation to each of
/// `neighbors` in turn.
pub open spec fn cleared_edges(
    m: RelationModel,
    edges: Map<u32, (u32, u32, Seq<BranchKey>)>,
    owner: BranchKey,
    neighbors: Seq<NodeId>,
) -> Map<u32, (u32, u32, Seq<BranchKey>)>
    decreases neighbors.len(),
{
    if neighbors.len() == 0 {
        edges
    } else {
        let prev = cleared_edges(m, edges, owner, neighbors.drop_last());
        let e = edge_of(owner.node_id, neighbors.last(), owner.direction);
        match (resolve(m, e.source), resolve(m, e.target)) {
            (Some(a), Some(b)) => unobserved(prev, m.index_of[a.0], m.index_of[b.0], owner),
            _ => prev,
        }
    }
}

/// The model `m2` is `m` with the branch of node `x` on one side back to
/// its never-fetched state, and with that branch no longer observing its
/// relations.
pub open spec fn branch_cleared(m: RelationModel, m2: RelationModel, x: NodeId, direction: HierarchyDirection) -> bool {
    &&& m2.index_of == m.index_of
    &&& m2.redirects == m.redirects
    &&& m2.anchors == m.anchors
    &&& m2.keys == m.keys
    &&& m2.nodes == m.nodes.insert(m.index_of[x.0], crate::graph::with_branch(node_of(m, x.0), direction, empty_branch()))
    &&& m2.edges == cleared_edges(m, m.edges, BranchKey { node_id: x, direction }, node_branch(node_of(m, x.0), direction).neighbors)
}

/// An edge that another branch still observes stays when one branch stops
/// observing it.
pub proof fn lemma_edge_stays_while_observed(
    edges: Map<u32, (u32, u32, Seq<BranchKey>)>,
    ia: u32,
    ib: u32,
    owner: BranchKey,
    other: BranchKey,
    e: u32,
)
    requires
        links(edges, e, ia, ib),
        forall|f: u32| #[trigger] links(edges, f, ia, ib) ==> f == e,
        edges[e].2.contains(other),
        other != owner,
    ensures
        unobserved(edges, ia, ib, owner).contains_key(e),
        unobserved(edges, ia, ib, owner)[e].2.contains(other),
        !unobserved(edges, ia, ib, owner)[e].2.contains(owner),
{
    let f = choose|f: u32| #[trigger] links(edges, f, ia, ib);
    assert(f == e);
    lemma_without_owner(edges[e].2, owner);
    assert(without_owner(edges[e].2, owner).contains(other));
}

impl RelationGraph {
    /// Forgets the neighbours on one side of a node: the branch returns to
    /// its never-fetched state and stops observing its relations, which go
    /// once no branch observes them; `false`, with nothing changed, when
    /// the id stands for no node.
    pub fn clear_branch(&mut self, node_id: NodeId, direction: HierarchyDirection) -> (r: bool)
        requires
            old(self).well_formed(),
        ensures
            final(self).well_formed(),
            final(self).nodes_used() == old(self).nodes_used(),
            final(self).edges_used() == old(self).edges_used(),
            r == resolve(old(self)@, node_id) is Some,
            match resolve(old(self)@, node_id) {
                None => final(self)@ == old(self)@,
                Some(x) => branch_cleared(old(self)@, final(self)@, x, direction),
            },
    {
        let x = match self.resolve_id(node_id) {
            Some(x) => x,
            None => {
                return false;
            },
        };
        proof {
            lemma_follow_live(self@.redirects, self@.index_of.dom(), node_id.0, self@.redirects.dom().len());
            lemma_live_has_node(self);
        }
        let ghost m0 = self@;
        let owner = BranchKey { node_id: x, direction };
        let neighbors = match self.node(x) {
            Some(n) => copy_ids(&n.branch(direction).neighbors),
            None => Vec::new(),
        };
        proof {
            lemma_live_resolves(self, x.0);
        }
        let mut i: usize = 0;
        while i < neighbors.len()
            invariant
                self.well_formed(),
                i <= neighbors@.len(),
                neighbors@ == node_branch(node_of(m0, x.0), direction).neighbors,
                owner == (BranchKey { node_id: x, direction }),
                live(m0, x.0),
                self.nodes_used() == old(self).nodes_used(),
                self.edges_used() == old(self).edges_used(),
                self@ == (RelationModel { edges: self@.edges, ..m0 }),
                self@.edges == cleared_edges(m0, m0.edges, owner, neighbors@.take(i as int)),
            decreases neighbors@.len() - i,
        {
            proof {
                assert(neighbors@.take(i + 1).drop_last() =~= neighbors@.take(i as int));
                assert(neighbors@.take(i + 1).last() == neighbors@[i as int]);
            }
            self.remove_observation(x, neighbors[i], owner);
            i = i + 1;
        }
        proof {
            assert(neighbors@.take(neighbors@.len() as int) =~= neighbors@);
            lemma_live_resolves(self, x.0);
        }
        let ghost before_mut = self@;
        match self.node_mut(x) {
            Some(n) => {
                let b = n.branch_mut(direction);
                *b = GraphBranch::default();
            },
            None => {},
        }
        true
    }
}

/// The ids of the graph that are not in `nodes` yet.
pub open spec fn unseen(m: RelationModel, nodes: Seq<NodeId>) -> Set<u64> {
    m.index_of.dom().filter(|id: u64| !nodes.contains(NodeId(id)))
}

/// A neighbour of `v` is shown: the node it stands for is in `nodes`, and
/// the edge to it is in `edges` when the graph holds that edge.
pub open spec fn neighbor_shown(
    m: RelationModel,
    nodes: Seq<NodeId>,
    edges: Seq<VisibleEdge>,
    v: NodeId,
    direction: HierarchyDirection,
    n: NodeId,
) -> bool {
    match resolve(m, n) {
        Some(y) => nodes.contains(y) && (edge_between(
            m.edges,
            m.index_of[edge_of(v, y, direction).source.0],
            m.index_of[edge_of(v, y, direction).target.0],
        ) is Some ==> edges.contains(edge_of(v, y, direction))),
        None => true,
    }
}

/// When the branch of `v` on one side is expanded, or when `all` branches
/// count, all its neighbours are shown.
pub open spec fn branch_shown(
    m: RelationModel,
    nodes: Seq<NodeId>,
    edges: Seq<VisibleEdge>,
    v: NodeId,
    direction: HierarchyDirection,
    all: bool,
) -> bool {
    let b = node_branch(node_of(m, v.0), direction);
    (all || b.expanded) ==> forall|k: int|
        0 <= k < b.neighbors.len() ==> #[trigger] neighbor_shown(m, nodes, edges, v, direction, b.neighbors[k])
}

/// The expanded branches of `v` on both sides, or all of them, are shown.
pub open spec fn node_shown(m: RelationModel, nodes: Seq<NodeId>, edges: Seq<VisibleEdge>, v: NodeId, all: bool) -> bool {
    branch_shown(m, nodes, edges, v, HierarchyDirection::Incoming, all) && branch_shown(
        m,
        nodes,
        edges,
        v,
        HierarchyDirection::Outgoing,
        all,
    )
}

/// `y` is what a neighbour of `v` on one side resolves to, through a
/// branch that is expanded, or any branch when `all` branches count.
pub open spec fn via_branch(m: RelationModel, v: NodeId, direction: HierarchyDirection, y: NodeId, all: bool) -> bool {
    let b = node_branch(node_of(m, v.0), direction);
    &&& all || b.expanded
    &&& exists|k: int| 0 <= k < b.neighbors.len() && resolve(m, #[trigger] b.neighbors[k]) == Some(y)
}

/// `e` is the edge between `v` and a neighbour it reaches on one side.
pub open spec fn edge_via(m: RelationModel, v: NodeId, direction: HierarchyDirection, e: VisibleEdge, all: bool) -> bool {
    exists|y: NodeId| #[trigger] via_branch(m, v, direction, y, all) && e == edge_of(v, y, direction)
}

/// Node `i` of the list is reached from an earlier node of the list.
pub open spec fn reached(m: RelationModel, nodes: Seq<NodeId>, i: int, all: bool) -> bool {
    exists|j: int, d: HierarchyDirection| 0 <= j < i && #[trigger] via_branch(m, nodes[j], d, nodes[i], all)
}

/// An edge of the walk: between a listed node and a neighbour it reaches.
pub open spec fn edge_walked(m: RelationModel, nodes: Seq<NodeId>, e: VisibleEdge, all: bool) -> bool {
    exists|j: int, d: HierarchyDirection| 0 <= j < nodes.len() && #[trigger] edge_via(m, nodes[j], d, e, all)
}

/// The lists are a walk from the anchors: the anchors come first, and
/// every later node, and every edge, is reached through a branch of an
/// earlier node that is expanded (or any branch, when `all` branches
/// count).
pub open spec fn walked(m: RelationModel, nodes: Seq<NodeId>, edges: Seq<VisibleEdge>, all: bool) -> bool {
    &&& exists|p: int|
        #![trigger nodes.subrange(0, p)]
        {
            &&& 0 <= p <= nodes.len()
            &&& forall|i: int| 0 <= i < p ==> m.anchors.contains(#[trigger] nodes[i])
            &&& forall|i: int| 0 <= i < m.anchors.len() ==> nodes.subrange(0, p).contains(#[trigger] m.anchors[i])
            &&& forall|i: int| p <= i < nodes.len() ==> #[trigger] reached(m, nodes, i, all)
        }
    &&& forall|i: int| 0 <= i < edges.len() ==> #[trigger] edge_walked(m, nodes, edges[i], all)
}

/// Growing the lists at their ends keeps what was reached and walked.
pub proof fn lemma_walk_grows(
    m: RelationModel,
    nodes: Seq<NodeId>,
    edges: Seq<VisibleEdge>,
    nodes2: Seq<NodeId>,
    edges2: Seq<VisibleEdge>,
    all: bool,
)
    requires
        nodes.len() <= nodes2.len(),
        edges.len() <= edges2.len(),
        forall|i: int| 0 <= i < nodes.len() ==> #[trigger] nodes2[i] == nodes[i],
        forall|i: int| 0 <= i < edges.len() ==> #[trigger] edges2[i] == edges[i],
    ensures
        forall|i: int| 0 <= i < nodes.len() && #[trigger] reached(m, nodes, i, all) ==> reached(m, nodes2, i, all),
        forall|i: int| 0 <= i < edges.len() && edge_walked(m, nodes, #[trigger] edges[i], all) ==> edge_walked(m, nodes2, edges2[i], all),
{
    assert forall|i: int| 0 <= i < nodes.len() && #[trigger] reached(m, nodes, i, all) implies reached(m, nodes2, i, all) by {
        let (j, d) = choose|j: int, d: HierarchyDirection| 0 <= j < i && #[trigger] via_branch(m, nodes[j], d, nodes[i], all);
        assert(nodes2[j] == nodes[j] && nodes2[i] == nodes[i]);
        assert(via_branch(m, nodes2[j], d, nodes2[i], all));
    }
    assert forall|i: int| 0 <= i < edges.len() && edge_walked(m, nodes, #[trigger] edges[i], all) implies edge_walked(m, nodes2, edges2[i], all) by {
        let (j, d) = choose|j: int, d: HierarchyDirection| 0 <= j < nodes.len() && #[trigger] edge_via(m, nodes[j], d, edges[i], all);
        assert(nodes2[j] == nodes[j]);
        assert(edge_via(m, nodes2[j], d, edges2[i], all));
    }
}

/// What a visible graph promises: distinct nodes of the graph, distinct
/// edges of the graph between them.
pub open spec fn visible_ok(m: RelationModel, nodes: Seq<NodeId>, edges: Seq<VisibleEdge>) -> bool {
    &&& nodes.no_duplicates()
    &&& edges.no_duplicates()
    &&& forall|i: int| 0 <= i < nodes.len() ==> #[trigger] live(m, nodes[i].0)
    &&& forall|i: int|
        0 <= i < edges.len() ==> nodes.contains(#[trigger] edges[i].source) && nodes.contains(
            edges[i].target,
        ) && edge_between(
            m.edges,
            m.index_of[edges[i].source.0],
            m.index_of[edges[i].target.0],
        ) is Some
}

/// Showing more nodes and edges keeps every neighbour shown that was.
pub proof fn lemma_shown_grows(
    m: RelationModel,
    nodes: Seq<NodeId>,
    edges: Seq<VisibleEdge>,
    nodes2: Seq<NodeId>,
    edges2: Seq<VisibleEdge>,
    v: NodeId,
    direction: HierarchyDirection,
    all: bool,
)
    requires
        nodes.len() <= nodes2.len(),
        edges.len() <= edges2.len(),
        forall|i: int| 0 <= i < nodes.len() ==> #[trigger] nodes2[i] == nodes[i],
        forall|i: int| 0 <= i < edges.len() ==> #[trigger] edges2[i] == edges[i],
        branch_shown(m, nodes, edges, v, direction, all),
    ensures
        branch_shown(m, nodes2, edges2, v, direction, all),
{
    let b = node_branch(node_of(m, v.0), direction);
    if all || b.expanded {
        assert forall|k: int| 0 <= k < b.neighbors.len() implies #[trigger] neighbor_shown(
            m,
            nodes2,
            edges2,
            v,
            direction,
            b.neighbors[k],
        ) by {
            lemma_neighbor_shown_grows(m, nodes, edges, nodes2, edges2, v, direction, b.neighbors[k]);
        }
    }
}

/// What a sequence holds, a sequence that extends it holds too.
pub proof fn lemma_contains_grows<T>(s: Seq<T>, s2: Seq<T>, x: T)
    requires
        s.len() <= s2.len(),
        forall|i: int| 0 <= i < s.len() ==> #[trigger] s2[i] == s[i],
        s.contains(x),
    ensures
        s2.contains(x),
{
    let p = choose|p: int| 0 <= p < s.len() && s[p] == x;
    assert(s2[p] == x);
}

/// Showing more nodes and edges keeps a neighbour shown.
pub proof fn lemma_neighbor_shown_grows(
    m: RelationModel,
    nodes: Seq<NodeId>,
    edges: Seq<VisibleEdge>,
    nodes2: Seq<NodeId>,
    edges2: Seq<VisibleEdge>,
    v: NodeId,
    direction: HierarchyDirection,
    n: NodeId,
)
    requires
        nodes.len() <= nodes2.len(),
        edges.len() <= edges2.len(),
        forall|i: int| 0 <= i < nodes.len() ==> #[trigger] nodes2[i] == nodes[i],
        forall|i: int| 0 <= i < edges.len() ==> #[trigger] edges2[i] == edges[i],
        neighbor_shown(m, nodes, edges, v, direction, n),
    ensures
        neighbor_shown(m, nodes2, edges2, v, direction, n),
{
    match resolve(m, n) {
        Some(y) => {
            lemma_contains_grows(nodes, nodes2, y);
            if edges.contains(edge_of(v, y, direction)) {
                lemma_contains_grows(edges, edges2, edge_of(v, y, direction));
            }
        },
        None => {},
    }
}

/// Adding an id not yet shown takes it out of the unseen ids.
pub proof fn lemma_unseen_push(m: RelationModel, nodes: Seq<NodeId>, y: NodeId)
    requires
        m.index_of.dom().finite(),
        live(m, y.0),
        !nodes.contains(y),
    ensures
        unseen(m, nodes.push(y)) == unseen(m, nodes).remove(y.0),
        unseen(m, nodes).contains(y.0),
        unseen(m, nodes).finite(),
        unseen(m, nodes.push(y)).len() + 1 == unseen(m, nodes).len(),
{
    assert forall|id: u64| #[trigger] nodes.push(y).contains(NodeId(id)) <==> (nodes.contains(NodeId(id)) || id == y.0) by {
        if nodes.contains(NodeId(id)) {
            let p = choose|p: int| 0 <= p < nodes.len() && nodes[p] == NodeId(id);
            assert(nodes.push(y)[p] == NodeId(id));
        }
        if id == y.0 {
            assert(nodes.push(y)[nodes.len() as int] == NodeId(id));
        }
        if nodes.push(y).contains(NodeId(id)) && id != y.0 {
            let p = choose|p: int| 0 <= p < nodes.len() + 1 && nodes.push(y)[p] == NodeId(id);
            assert(nodes[p] == NodeId(id));
        }
    }
    assert(unseen(m, nodes.push(y)) =~= unseen(m, nodes).remove(y.0));
    assert(unseen(m, nodes).subset_of(m.index_of.dom()));
    vstd::set_lib::lemma_len_subset(unseen(m, nodes), m.index_of.dom());
}

impl RelationGraph {
    /// Shows the neighbours on one side of a visible node: each node they
    /// stand for, and the edge to it when the graph holds one.
    fn show_branch(&self, visible: &mut VisibleGraph, v: NodeId, branch: &GraphBranch, direction: HierarchyDirection, all: bool)
        requires
            self.well_formed(),
            live(self@, v.0),
            old(visible).nodes@.contains(v),
            branch@ == node_branch(node_of(self@, v.0), direction),
            visible_ok(self@, old(visible).nodes@, old(visible).edges@),
        ensures
            visible_ok(self@, final(visible).nodes@, final(visible).edges@),
            final(visible).nodes@.len() >= old(visible).nodes@.len(),
            final(visible).edges@.len() >= old(visible).edges@.len(),
            forall|i: int| 0 <= i < old(visible).nodes@.len() ==> #[trigger] final(visible).nodes@[i] == old(visible).nodes@[i],
            forall|i: int| 0 <= i < old(visible).edges@.len() ==> #[trigger] final(visible).edges@[i] == old(visible).edges@[i],
            unseen(self@, final(visible).nodes@).len() + final(visible).nodes@.len() == unseen(
                self@,
                old(visible).nodes@,
            ).len() + old(visible).nodes@.len(),
            branch_shown(self@, final(visible).nodes@, final(visible).edges@, v, direction, all),
            forall|i: int|
                old(visible).nodes@.len() <= i < final(visible).nodes@.len() ==> #[trigger] via_branch(
                    self@,
                    v,
                    direction,
                    final(visible).nodes@[i],
                    all,
                ),
            forall|i: int|
                old(visible).edges@.len() <= i < final(visible).edges@.len() ==> #[trigger] edge_via(
                    self@,
                    v,
                    direction,
                    final(visible).edges@[i],
                    all,
                ),
    {
        proof {
            assert(self.by_id@.dom().finite());
        }
        if !all && !branch.expanded {
            return;
        }
        let ghost nodes0 = visible.nodes@;
        let ghost edges0 = visible.edges@;
        let mut k: usize = 0;
        while k < branch.neighbors.len()
            invariant
                self.well_formed(),
                self@.index_of.dom().finite(),
                live(self@, v.0),
                branch@ == node_branch(node_of(self@, v.0), direction),
                all || branch.expanded,
                nodes0.contains(v),
                k <= branch.neighbors@.len(),
                visible_ok(self@, visible.nodes@, visible.edges@),
                visible.nodes@.len() >= nodes0.len(),
                visible.edges@.len() >= edges0.len(),
                forall|i: int| 0 <= i < nodes0.len() ==> #[trigger] visible.nodes@[i] == nodes0[i],
                forall|i: int| 0 <= i < edges0.len() ==> #[trigger] visible.edges@[i] == edges0[i],
                unseen(self@, visible.nodes@).len() + visible.nodes@.len() == unseen(self@, nodes0).len()
                    + nodes0.len(),
                forall|q: int|
                    0 <= q < k ==> #[trigger] neighbor_shown(
                        self@,
                        visible.nodes@,
                        visible.edges@,
                        v,
                        direction,
                        branch.neighbors@[q],
                    ),
                forall|i: int|
                    nodes0.len() <= i < visible.nodes@.len() ==> #[trigger] via_branch(
                        self@,
                        v,
                        direction,
                        visible.nodes@[i],
                        all,
                    ),
                forall|i: int|
                    edges0.len() <= i < visible.edges@.len() ==> #[trigger] edge_via(self@, v, direction, visible.edges@[i], all),
            decreases branch.neighbors@.len() - k,
        {
            let ghost nodes1 = visible.nodes@;
            let ghost edges1 = visible.edges@;
            let neighbor = match self.resolve_id(branch.neighbors[k]) {
                Some(y) => y,
                None => {
                    k = k + 1;
                    continue;
                },
            };
            proof {
                lemma_follow_live(
                    self@.redirects,
                    self@.index_of.dom(),
                    branch.neighbors@[k as int].0,
                    self@.redirects.dom().len(),
                );
                lemma_live_resolves(self, v.0);
                lemma_live_resolves(self, neighbor.0);
            }
            let edge = canonical_edge(v, neighbor, direction);
            proof {
                assert(branch@.neighbors[k as int] == branch.neighbors@[k as int]);
                assert(via_branch(self@, v, direction, neighbor, all));
            }
            if self.has_edge(edge.source, edge.target) && !contains_edge(&visible.edges, edge) {
                let ghost before_edges = visible.edges@;
                visible.edges.push(edge);
                proof {
                    assert(visible.edges@[before_edges.len() as int] == edge);
                    assert forall|a: int, b: int| 0 <= a < b < visible.edges@.len() implies visible.edges@[a]
                        != visible.edges@[b] by {
                        assert(visible.edges@[a] == before_edges[a]);
                        if b < before_edges.len() {
                            assert(visible.edges@[b] == before_edges[b]);
                        }
                    }
                }
            }
            let ghost edges2 = visible.edges@;
            proof {
                let p = choose|p: int| 0 <= p < nodes0.len() && nodes0[p] == v;
                assert(visible.nodes@[p] == v);
            }
            if !contains_node_id(&visible.nodes, neighbor) {
                proof {
                    lemma_unseen_push(self@, visible.nodes@, neighbor);
                }
                let ghost before_nodes = visible.nodes@;
                visible.nodes.push(neighbor);
                proof {
                    assert(visible.nodes@[before_nodes.len() as int] == neighbor);
                    assert forall|a: int, b: int| 0 <= a < b < visible.nodes@.len() implies visible.nodes@[a]
                        != visible.nodes@[b] by {
                        assert(visible.nodes@[a] == before_nodes[a]);
                        if b < before_nodes.len() {
                            assert(visible.nodes@[b] == before_nodes[b]);
                        }
                    }
                    let p = choose|p: int| 0 <= p < nodes0.len() && nodes0[p] == v;
                    assert(visible.nodes@[p] == v);
                }
            }
            proof {
                let nodes3 = visible.nodes@;
                let edges3 = visible.edges@;
                assert(nodes3.contains(neighbor));
                assert(nodes3.contains(v));
                assert forall|i: int| 0 <= i < nodes1.len() implies #[trigger] nodes3[i] == nodes1[i] by {}
                assert forall|i: int| 0 <= i < edges1.len() implies #[trigger] edges3[i] == edges1[i] by {}
                assert forall|i: int| 0 <= i < nodes3.len() implies #[trigger] live(self@, nodes3[i].0) by {
                    if i < nodes1.len() {
                        assert(nodes3[i] == nodes1[i]);
                    }
                }
                assert forall|i: int|
                    0 <= i < edges3.len() implies nodes3.contains(#[trigger] edges3[i].source) && nodes3.contains(
                    edges3[i].target,
                ) && edge_between(
                    self@.edges,
                    self@.index_of[edges3[i].source.0],
                    self@.index_of[edges3[i].target.0],
                ) is Some by {
                    if i < edges1.len() {
                        assert(edges3[i] == edges1[i]);
                        lemma_contains_grows(nodes1, nodes3, edges1[i].source);
                        lemma_contains_grows(nodes1, nodes3, edges1[i].target);
                    } else {
                        assert(edges3[i] == edge);
                    }
                }
                assert(visible_ok(self@, nodes3, edges3));
                assert forall|q: int|
                    0 <= q < k + 1 implies #[trigger] neighbor_shown(
                    self@,
                    nodes3,
                    edges3,
                    v,
                    direction,
                    branch.neighbors@[q],
                ) by {
                    if q < k {
                        lemma_neighbor_shown_grows(self@, nodes1, edges1, nodes3, edges3, v, direction, branch.neighbors@[q]);
                    } else {
                        if edge_between(
                            self@.edges,
                            self@.index_of[edge_of(v, neighbor, direction).source.0],
                            self@.index_of[edge_of(v, neighbor, direction).target.0],
                        ) is Some {
                            assert(edges2.contains(edge));
                            lemma_contains_grows(edges2, edges3, edge);
                        }
                    }
                }
                assert forall|i: int| 0 <= i < nodes0.len() implies #[trigger] nodes3[i] == nodes0[i] by {
                    assert(nodes1[i] == nodes0[i]);
                }
                assert forall|i: int| 0 <= i < edges0.len() implies #[trigger] edges3[i] == edges0[i] by {
                    assert(edges1[i] == edges0[i]);
                }
                assert forall|i: int| nodes0.len() <= i < nodes3.len() implies #[trigger] via_branch(
                    self@,
                    v,
                    direction,
                    nodes3[i],
                    all,
                ) by {
                    if i < nodes1.len() {
                        assert(nodes3[i] == nodes1[i]);
                    } else {
                        assert(nodes3[i] == neighbor);
                    }
                }
                assert forall|i: int| edges0.len() <= i < edges3.len() implies #[trigger] edge_via(self@, v, direction, edges3[i], all) by {
                    if i < edges1.len() {
                        assert(edges3[i] == edges1[i]);
                    } else {
                        assert(edges3[i] == edge);
                        assert(via_branch(self@, v, direction, neighbor, all));
                    }
                }
            }
            k = k + 1;
        }
    }
}

/// Whether `edge` is in the list.
fn contains_edge(list: &Vec<VisibleEdge>, edge: VisibleEdge) -> (r: bool)
    ensures
        r == list@.contains(edge),
{
    let mut i: usize = 0;
    while i < list.len()
        invariant
            i <= list@.len(),
            forall|j: int| 0 <= j < i ==> list@[j] != edge,
        decreases list@.len() - i,
    {
        if list[i] == edge {
            assert(list@[i as int] == edge);
            return true;
        }
        i = i + 1;
    }
    false
}

impl RelationGraph {
    /// The nodes and edges reachable from the anchors through expanded
    /// branches, or through all branches, in breadth-first order from the
    /// anchors; every node and every edge once, so that cycles are walked
    /// once.
    fn reachable_graph(&self, all: bool) -> (r: VisibleGraph)
        requires
            self.well_formed(),
        ensures
            visible_ok(self@, r.nodes@, r.edges@),
            forall|i: int| 0 <= i < self@.anchors.len() ==> r.nodes@.contains(#[trigger] self@.anchors[i]),
            forall|i: int| 0 <= i < r.nodes@.len() ==> #[trigger] node_shown(self@, r.nodes@, r.edges@, r.nodes@[i], all),
            walked(self@, r.nodes@, r.edges@, all),
    {
        let mut visible = VisibleGraph::default();
        let mut a: usize = 0;
        proof {
            assert(visible.nodes@ =~= Seq::<NodeId>::empty());
            assert(visible.edges@ =~= Seq::<VisibleEdge>::empty());
        }
        while a < self.anchors.len()
            invariant
                self.well_formed(),
                a <= self@.anchors.len(),
                visible_ok(self@, visible.nodes@, visible.edges@),
                visible.edges@.len() == 0,
                forall|i: int| 0 <= i < a ==> visible.nodes@.contains(#[trigger] self@.anchors[i]),
                forall|i: int| 0 <= i < visible.nodes@.len() ==> self@.anchors.contains(#[trigger] visible.nodes@[i]),
            decreases self@.anchors.len() - a,
        {
            let anchor = self.anchors[a];
            proof {
                assert(self@.anchors[a as int] == anchor);
                lemma_live_resolves(self, anchor.0);
            }
            let ghost before = visible.nodes@;
            if self.contains(anchor) && !contains_node_id(&visible.nodes, anchor) {
                visible.nodes.push(anchor);
                proof {
                    assert(visible.nodes@[before.len() as int] == anchor);
                    assert forall|x: int, y: int| 0 <= x < y < visible.nodes@.len() implies visible.nodes@[x]
                        != visible.nodes@[y] by {
                        assert(visible.nodes@[x] == before[x]);
                        if y < before.len() {
                            assert(visible.nodes@[y] == before[y]);
                        }
                    }
                    assert forall|i: int| 0 <= i < visible.nodes@.len() implies #[trigger] live(
                        self@,
                        visible.nodes@[i].0,
                    ) by {
                        if i < before.len() {
                            assert(visible.nodes@[i] == before[i]);
                        }
                    }
                }
            }
            proof {
                assert forall|i: int| 0 <= i < a + 1 implies visible.nodes@.contains(#[trigger] self@.anchors[i]) by {
                    if i < a {
                        lemma_contains_grows(before, visible.nodes@, self@.anchors[i]);
                    }
                }
                assert forall|i: int| 0 <= i < visible.nodes@.len() implies self@.anchors.contains(
                    #[trigger] visible.nodes@[i],
                ) by {
                    if i < before.len() {
                        assert(visible.nodes@[i] == before[i]);
                    } else {
                        assert(self@.anchors[a as int] == anchor);
                    }
                }
            }
            a = a + 1;
        }
        let ghost p = visible.nodes@.len() as int;
        let ghost prefix = visible.nodes@;
        proof {
            assert(visible.nodes@.subrange(0, p) =~= prefix);
        }
        let mut head: usize = 0;
        proof {
            assert(self.by_id@.dom().finite());
        }
        while head < visible.nodes.len()
            invariant
                self.well_formed(),
                self@.index_of.dom().finite(),
                head <= visible.nodes@.len(),
                visible_ok(self@, visible.nodes@, visible.edges@),
                forall|i: int| 0 <= i < self@.anchors.len() ==> visible.nodes@.contains(#[trigger] self@.anchors[i]),
                forall|i: int| 0 <= i < head ==> #[trigger] node_shown(self@, visible.nodes@, visible.edges@, visible.nodes@[i], all),
                0 <= p <= visible.nodes@.len(),
                visible.nodes@.subrange(0, p) == prefix,
                forall|i: int| 0 <= i < p ==> self@.anchors.contains(#[trigger] prefix[i]),
                forall|i: int| 0 <= i < self@.anchors.len() ==> prefix.contains(#[trigger] self@.anchors[i]),
                forall|i: int| p <= i < visible.nodes@.len() ==> #[trigger] reached(self@, visible.nodes@, i, all),
                forall|i: int| 0 <= i < visible.edges@.len() ==> #[trigger] edge_walked(self@, visible.nodes@, visible.edges@[i], all),
            decreases unseen(self@, visible.nodes@).len() + visible.nodes@.len() - head,
        {
            let node_id = visible.nodes[head];
            let ghost nodes0 = visible.nodes@;
            let ghost edges0 = visible.edges@;
            proof {
                assert(nodes0[head as int] == node_id);
                assert(live(self@, node_id.0));
                lemma_live_resolves(self, node_id.0);
                assert(nodes0.contains(node_id));
            }
            let node = match self.node(node_id) {
                Some(n) => n,
                None => {
                    head = head + 1;
                    continue;
                },
            };
            self.show_branch(&mut visible, node_id, node.branch(HierarchyDirection::Incoming), HierarchyDirection::Incoming, all);
            let ghost nodes1 = visible.nodes@;
            let ghost edges1 = visible.edges@;
            proof {
                lemma_contains_grows(nodes0, nodes1, node_id);
            }
            self.show_branch(&mut visible, node_id, node.branch(HierarchyDirection::Outgoing), HierarchyDirection::Outgoing, all);
            proof {
                let nodes2 = visible.nodes@;
                let edges2 = visible.edges@;
                assert forall|i: int| 0 <= i < nodes0.len() implies #[trigger] nodes2[i] == nodes0[i] by {
                    assert(nodes1[i] == nodes0[i]);
                }
                assert forall|i: int| 0 <= i < edges0.len() implies #[trigger] edges2[i] == edges0[i] by {
                    assert(edges1[i] == edges0[i]);
                }
                lemma_shown_grows(self@, nodes1, edges1, nodes2, edges2, node_id, HierarchyDirection::Incoming, all);
                assert forall|i: int| 0 <= i < head + 1 implies #[trigger] node_shown(self@, nodes2, edges2, nodes2[i], all) by {
                    assert(nodes2[i] == nodes0[i]);
                    if i < head {
                        assert(node_shown(self@, nodes0, edges0, nodes0[i], all));
                        lemma_shown_grows(self@, nodes0, edges0, nodes2, edges2, nodes0[i], HierarchyDirection::Incoming, all);
                        lemma_shown_grows(self@, nodes0, edges0, nodes2, edges2, nodes0[i], HierarchyDirection::Outgoing, all);
                    }
                }
                assert forall|i: int| 0 <= i < self@.anchors.len() implies nodes2.contains(#[trigger] self@.anchors[i]) by {
                    lemma_contains_grows(nodes0, nodes2, self@.anchors[i]);
                }
                assert(nodes2.subrange(0, p) =~= prefix) by {
                    assert forall|i: int| 0 <= i < p implies nodes2[i] == prefix[i] by {
                        assert(nodes0.subrange(0, p)[i] == nodes0[i]);
                    }
                }
                lemma_walk_grows(self@, nodes0, edges0, nodes2, edges2, all);
                assert forall|i: int| p <= i < nodes2.len() implies #[trigger] reached(self@, nodes2, i, all) by {
                    if i < nodes0.len() {
                        assert(reached(self@, nodes0, i, all));
                    } else if i < nodes1.len() {
                        assert(nodes2[i] == nodes1[i]);
                        assert(via_branch(self@, node_id, HierarchyDirection::Incoming, nodes1[i], all));
                        assert(nodes2[head as int] == node_id);
                        assert(via_branch(self@, nodes2[head as int], HierarchyDirection::Incoming, nodes2[i], all));
                    } else {
                        assert(via_branch(self@, node_id, HierarchyDirection::Outgoing, nodes2[i], all));
                        assert(nodes2[head as int] == node_id);
                        assert(via_branch(self@, nodes2[head as int], HierarchyDirection::Outgoing, nodes2[i], all));
                    }
                }
                assert forall|i: int| 0 <= i < edges2.len() implies #[trigger] edge_walked(self@, nodes2, edges2[i], all) by {
                    assert(nodes2[head as int] == node_id);
                    if i < edges0.len() {
                        assert(edge_walked(self@, nodes0, edges0[i], all));
                    } else if i < edges1.len() {
                        assert(edges2[i] == edges1[i]);
                        assert(edge_via(self@, node_id, HierarchyDirection::Incoming, edges1[i], all));
                        assert(edge_via(self@, nodes2[head as int], HierarchyDirection::Incoming, edges2[i], all));
                    } else {
                        assert(edge_via(self@, node_id, HierarchyDirection::Outgoing, edges2[i], all));
                        assert(edge_via(self@, nodes2[head as int], HierarchyDirection::Outgoing, edges2[i], all));
                    }
                }
            }
            head = head + 1;
        }
        proof {
            let nodes = visible.nodes@;
            assert(nodes.subrange(0, p) == prefix);
            assert forall|i: int| 0 <= i < p implies self@.anchors.contains(#[trigger] nodes[i]) by {
                assert(nodes.subrange(0, p)[i] == nodes[i]);
                assert(self@.anchors.contains(prefix[i]));
            }
            assert forall|i: int| 0 <= i < self@.anchors.len() implies nodes.subrange(0, p).contains(#[trigger] self@.anchors[i]) by {
                assert(prefix.contains(self@.anchors[i]));
            }
            assert(walked(self@, visible.nodes@, visible.edges@, all));
        }
        visible
    }

    /// The nodes and edges reachable from the anchors through expanded
    /// branches, in breadth-first order from the anchors; every node and
    /// every edge once, so that cycles are walked once.
    pub fn visible_graph(&self) -> (r: VisibleGraph)
        requires
            self.well_formed(),
        ensures
            visible_ok(self@, r.nodes@, r.edges@),
            forall|i: int| 0 <= i < self@.anchors.len() ==> r.nodes@.contains(#[trigger] self@.anchors[i]),
            forall|i: int| 0 <= i < r.nodes@.len() ==> #[trigger] node_shown(self@, r.nodes@, r.edges@, r.nodes@[i], false),
            walked(self@, r.nodes@, r.edges@, false),
    {
        self.reachable_graph(false)
    }

    /// Every node and relation reachable from the anchors, whether its
    /// branch is shown or not, in breadth-first order from the anchors.
    pub fn known_graph(&self) -> (r: VisibleGraph)
        requires
            self.well_formed(),
        ensures
            visible_ok(self@, r.nodes@, r.edges@),
            forall|i: int| 0 <= i < self@.anchors.len() ==> r.nodes@.contains(#[trigger] self@.anchors[i]),
            forall|i: int| 0 <= i < r.nodes@.len() ==> #[trigger] node_shown(self@, r.nodes@, r.edges@, r.nodes@[i], true),
            walked(self@, r.nodes@, r.edges@, true),
    {
        self.reachable_graph(true)
    }
}

/// Edge `e` as the ids of its endpoints and its observers.
pub open spec fn edge_record(m: RelationModel, e: u32) -> (NodeId, NodeId, Seq<BranchKey>) {
    (m.nodes[m.edges[e].0].id, m.nodes[m.edges[e].1].id, m.edges[e].2)
}

/// Edge `e` has node index `i` as an endpoint.
pub open spec fn touches(m: RelationModel, e: u32, i: u32) -> bool {
    m.edges.contains_key(e) && (m.edges[e].0 == i || m.edges[e].1 == i)
}

/// A record of ids and observers as plain values.
pub open spec fn record_view(x: (NodeId, NodeId, Vec<BranchKey>)) -> (NodeId, NodeId, Seq<BranchKey>) {
    (x.0, x.1, x.2@)
}

/// Records as plain values.
pub open spec fn records(s: Seq<(NodeId, NodeId, Vec<BranchKey>)>) -> Seq<(NodeId, NodeId, Seq<BranchKey>)> {
    s.map_values(|x: (NodeId, NodeId, Vec<BranchKey>)| record_view(x))
}

/// The record is that of an edge touching node index `si`.
pub open spec fn from_edge(m: RelationModel, si: u32, rec: (NodeId, NodeId, Seq<BranchKey>)) -> bool {
    exists|e: u32| #[trigger] touches(m, e, si) && edge_record(m, e) == rec
}

/// A copy of a list of observers.
fn copy_keys(list: &Vec<BranchKey>) -> (r: Vec<BranchKey>)
    ensures
        r@ == list@,
{
    let mut out: Vec<BranchKey> = Vec::new();
    let mut i: usize = 0;
    while i < list.len()
        invariant
            i <= list@.len(),
            out@ == list@.take(i as int),
        decreases list@.len() - i,
    {
        out.push(list[i]);
        i = i + 1;
    }
    assert(out@ =~= list@);
    out
}

impl RelationGraph {
    /// The edges that touch node index `si`, as endpoint ids and observers.
    fn incident_edges(&self, si: u32) -> (r: Vec<(NodeId, NodeId, Vec<BranchKey>)>)
        requires
            self.well_formed(),
        ensures
            r@.len() <= self@.edges.len(),
            forall|k: int| 0 <= k < r@.len() ==> #[trigger] from_edge(self@, si, record_view(r@[k])),
            forall|e: u32| #[trigger] touches(self@, e, si) ==> records(r@).contains(edge_record(self@, e)),
    {
        let ids = store_edge_indices(&self.graph);
        let ghost m = self@;
        proof {
            ids@.unique_seq_to_set();
            assert(ids@.to_set() =~= store_edges(self.graph).dom());
            assert(m.edges.dom() =~= store_edges(self.graph).dom());
        }
        let mut out: Vec<(NodeId, NodeId, Vec<BranchKey>)> = Vec::new();
        let mut i: usize = 0;
        while i < ids.len()
            invariant
                self.well_formed(),
                m == self@,
                i <= ids@.len(),
                ids@.no_duplicates(),
                ids@.len() == m.edges.len(),
                forall|e: u32| #[trigger] ids@.contains(e) <==> m.edges.contains_key(e),
                out@.len() <= i,
                forall|k: int| 0 <= k < out@.len() ==> #[trigger] from_edge(m, si, record_view(out@[k])),
                forall|q: int|
                    0 <= q < i && #[trigger] touches(m, ids@[q], si) ==> records(out@).contains(
                        edge_record(m, ids@[q]),
                    ),
            decreases ids@.len() - i,
        {
            let e = ids[i];
            assert(ids@.contains(e)) by {
                assert(ids@[i as int] == e);
            }
            let (a, b) = match store_edge_endpoints(&self.graph, e) {
                Some(p) => p,
                None => {
                    i = i + 1;
                    continue;
                },
            };
            if a == si || b == si {
                let w = match store_edge(&self.graph, e) {
                    Some(w) => w,
                    None => {
                        i = i + 1;
                        continue;
                    },
                };
                proof {
                    assert(m.nodes.contains_key(a) && m.nodes.contains_key(b)) by {
                        assert(edges_ok(m));
                    }
                }
                let na = match store_node(&self.graph, a) {
                    Some(n) => n.id,
                    None => {
                        i = i + 1;
                        continue;
                    },
                };
                let nb = match store_node(&self.graph, b) {
                    Some(n) => n.id,
                    None => {
                        i = i + 1;
                        continue;
                    },
                };
                let ghost before = out@;
                out.push((na, nb, copy_keys(&w.observed_by)));
                proof {
                    assert(records(out@) =~= records(before).push(edge_record(m, e)));
                    assert(touches(m, e, si));
                    assert(from_edge(m, si, edge_record(m, e)));
                    assert forall|k: int| 0 <= k < out@.len() implies #[trigger] from_edge(
                        m,
                        si,
                        record_view(out@[k]),
                    ) by {
                        if k < before.len() {
                            assert(out@[k] == before[k]);
                        }
                    }
                    assert forall|q: int|
                        0 <= q < i + 1 && #[trigger] touches(m, ids@[q], si) implies records(out@).contains(
                        edge_record(m, ids@[q]),
                    ) by {
                        if q < i {
                            lemma_contains_grows(records(before), records(out@), edge_record(m, ids@[q]));
                        } else {
                            assert(records(out@)[before.len() as int] == edge_record(m, ids@[q]));
                        }
                    }
                }
            }
            i = i + 1;
        }
        proof {
            assert forall|e: u32| #[trigger] touches(m, e, si) implies records(out@).contains(
                edge_record(m, e),
            ) by {
                assert(ids@.contains(e));
                let q = choose|q: int| 0 <= q < ids@.len() && ids@[q] == e;
                assert(touches(m, ids@[q], si));
            }
        }
        out
    }
}
/// The model after node `s` was taken out in favour of node `t`: its
/// index, node, edges and key entry go, it redirects to `t`, and the anchors
/// name `t` in its place.
pub open spec fn detached(m: RelationModel, m1: RelationModel, s: NodeId, t: NodeId) -> bool {
    let si = m.index_of[s.0];
    &&& m1.index_of == m.index_of.remove(s.0)
    &&& m1.nodes == m.nodes.remove(si)
    &&& m1.edges == m.edges.restrict(m.edges.dom().filter(|e: u32| !touches(m, e, si)))
    &&& m1.redirects == m.redirects.insert(s.0, t.0)
    &&& m1.anchors == crate::graph::dedup(crate::graph::replaced(m.anchors, s, t))
    &&& forall|i: int| 0 <= i < m1.keys.len() ==> #[trigger] m.keys.contains(m1.keys[i])
    &&& forall|i: int|
        0 <= i < m.keys.len() && m.keys[i].1 != s ==> #[trigger] m1.keys.contains(m.keys[i])
    &&& forall|i: int| 0 <= i < m1.keys.len() ==> (#[trigger] m1.keys[i]).1 != s
}

/// Taking node `s` out in favour of node `t` keeps the model invariant.
pub proof fn lemma_detached(
    m: RelationModel,
    m1: RelationModel,
    next_id: u64,
    depth: (Map<u64, int>, int),
    s: NodeId,
    t: NodeId,
    ki: Option<int>,
)
    requires
        model_ok(m, next_id, depth),
        live(m, s.0),
        live(m, t.0),
        s != t,
        m1.index_of == m.index_of.remove(s.0),
        m1.nodes == m.nodes.remove(m.index_of[s.0]),
        m1.edges == m.edges.restrict(m.edges.dom().filter(|e: u32| !touches(m, e, m.index_of[s.0]))),
        m1.redirects == m.redirects.insert(s.0, t.0),
        m1.anchors == crate::graph::dedup(crate::graph::replaced(m.anchors, s, t)),
        match ki {
            Some(i) => 0 <= i < m.keys.len() && m.keys[i].1 == s && m1.keys == m.keys.remove(i),
            None => (forall|i: int| 0 <= i < m.keys.len() ==> (#[trigger] m.keys[i]).1 != s) && m1.keys == m.keys,
        },
    ensures
        model_ok(
            m1,
            next_id,
            (depth.0.insert(s.0, depth.1 - 1), depth.1 - 1),
        ),
        detached(m, m1, s, t),
{
    let si = m.index_of[s.0];
    let depth1 = (depth.0.insert(s.0, depth.1 - 1), depth.1 - 1);
    assert(m.nodes.contains_key(si));
    assert forall|id: u64| #[trigger] m1.index_of.contains_key(id) implies node_of(m1, id) == node_of(m, id)
        && m.index_of.contains_key(id) && id != s.0 by {
        assert(m.index_of[id] != si);
    }
    assert(ids_ok(m1, next_id)) by {
        assert forall|i: u32| #[trigger] m1.nodes.contains_key(i) implies m1.index_of.contains_key(
            m1.nodes[i].id.0,
        ) && m1.index_of[m1.nodes[i].id.0] == i by {
            assert(m.nodes.contains_key(i));
            assert(m.index_of.contains_key(m.nodes[i].id.0));
        }
    }
    assert(edges_ok(m1)) by {
        assert forall|e: u32| #[trigger] m1.edges.contains_key(e) implies m1.nodes.contains_key(
            m1.edges[e].0,
        ) && m1.nodes.contains_key(m1.edges[e].1) && m1.edges[e].2.len() > 0
            && m1.edges[e].2.no_duplicates() by {
            assert(m.edges.contains_key(e));
            assert(!touches(m, e, si));
        }
        assert forall|e: u32, k: int|
            m1.edges.contains_key(e) && 0 <= k < m1.edges[e].2.len() implies #[trigger] observer_fits(
            m1,
            m1.edges[e],
            m1.edges[e].2[k],
        ) by {
            assert(!touches(m, e, si));
            assert(observer_fits(m, m.edges[e], m.edges[e].2[k]));
        }
        assert forall|e: u32, f: u32|
            #![trigger m1.edges[e], m1.edges[f]]
            m1.edges.contains_key(e) && m1.edges.contains_key(f) && m1.edges[e].0 == m1.edges[f].0
                && m1.edges[e].1 == m1.edges[f].1 implies e == f by {
            assert(m.edges[e] == m1.edges[e] && m.edges[f] == m1.edges[f]);
        }
    }
    assert(redirects_ok(m1, next_id, depth1)) by {
        assert forall|k: u64| #[trigger] m1.redirects.contains_key(k) implies !m1.index_of.contains_key(k)
            && k < next_id && m1.redirects[k] < next_id && depth1.0.contains_key(k) && depth1.0[k]
            >= depth1.1 && (m1.redirects.contains_key(m1.redirects[k]) ==> depth1.0[m1.redirects[k]]
            < depth1.0[k]) by {
            if k == s.0 {
                assert(!m.redirects.contains_key(t.0));
            } else {
                assert(m.redirects.contains_key(k));
            }
        }
    }
    assert(anchors_ok(m1)) by {
        crate::graph::lemma_dedup(crate::graph::replaced(m.anchors, s, t));
        assert forall|i: int| 0 <= i < m1.anchors.len() implies #[trigger] m1.index_of.contains_key(
            m1.anchors[i].0,
        ) by {
            let x = m1.anchors[i];
            assert(m1.anchors.contains(x));
            assert(crate::graph::replaced(m.anchors, s, t).contains(x));
            let j = choose|j: int| 0 <= j < m.anchors.len() && crate::graph::replaced(m.anchors, s, t)[j] == x;
            assert(m.index_of.contains_key(m.anchors[j].0));
        }
    }
    assert forall|id: u64| #[trigger] m1.index_of.contains_key(id) implies key_of(m1, id) == key_of(m, id) by {}
    match ki {
        Some(r) => {
            assert forall|i: int| 0 <= i < m1.keys.len() implies #[trigger] entry_ok(m1, i) by {
                let j = if i < r { i } else { i + 1 };
                assert(m1.keys[i] == m.keys[j]);
                assert(entry_ok(m, j));
                if m.keys[j].1 == s {
                    assert(entry_ok(m, r));
                    assert(same_key(m, j, r));
                }
            }
            assert forall|i: int, j: int|
                0 <= i < m1.keys.len() && 0 <= j < m1.keys.len() && #[trigger] same_key(m1, i, j) implies i == j by {
                let i2 = if i < r { i } else { i + 1 };
                let j2 = if j < r { j } else { j + 1 };
                assert(same_key(m, i2, j2));
            }
            assert forall|id: u64|
                m1.index_of.contains_key(id) && (#[trigger] key_of(m1, id)) is Some implies exists|j: int|
                #[trigger] entry_is(m1, j, id) by {
                assert(m.index_of.contains_key(id) && key_of(m, id) is Some);
                let j = choose|j: int| #[trigger] entry_is(m, j, id);
                assert(j != r);
                let j1 = if j < r { j } else { j - 1 };
                assert(m1.keys[j1] == m.keys[j]);
                assert(entry_is(m1, j1, id));
            }
            assert forall|i: int| 0 <= i < m1.keys.len() implies #[trigger] m.keys.contains(m1.keys[i]) by {
                let j = if i < r { i } else { i + 1 };
                assert(m1.keys[i] == m.keys[j]);
            }
            assert forall|i: int|
                0 <= i < m.keys.len() && m.keys[i].1 != s implies #[trigger] m1.keys.contains(m.keys[i]) by {
                assert(i != r);
                let j = if i < r { i } else { i - 1 };
                assert(m1.keys[j] == m.keys[i]);
            }
            assert forall|i: int| 0 <= i < m1.keys.len() implies (#[trigger] m1.keys[i]).1 != s by {
                let j = if i < r { i } else { i + 1 };
                assert(m1.keys[i] == m.keys[j]);
                assert(entry_ok(m, j));
                if m.keys[j].1 == s {
                    assert(entry_ok(m, r));
                    assert(same_key(m, j, r));
                }
            }
        },
        None => {
            assert forall|i: int| 0 <= i < m1.keys.len() implies #[trigger] entry_ok(m1, i) by {
                assert(entry_ok(m, i));
            }
            assert forall|i: int, j: int|
                0 <= i < m1.keys.len() && 0 <= j < m1.keys.len() && #[trigger] same_key(m1, i, j) implies i == j by {
                assert(same_key(m, i, j));
            }
            assert forall|id: u64|
                m1.index_of.contains_key(id) && (#[trigger] key_of(m1, id)) is Some implies exists|j: int|
                #[trigger] entry_is(m1, j, id) by {
                assert(m.index_of.contains_key(id) && key_of(m, id) is Some);
                let j = choose|j: int| #[trigger] entry_is(m, j, id);
                assert(entry_is(m1, j, id));
            }
            assert forall|i: int| 0 <= i < m1.keys.len() implies #[trigger] m.keys.contains(m1.keys[i]) by {
                assert(m1.keys[i] == m.keys[i]);
            }
            assert forall|i: int|
                0 <= i < m.keys.len() && m.keys[i].1 != s implies #[trigger] m1.keys.contains(m.keys[i]) by {
                assert(m1.keys[i] == m.keys[i]);
            }
        },
    }
    assert(keys_ok(m1));
}

impl RelationGraph {
    /// Where the key entry of a node is, if it has one.
    fn owner_position(&self, id: NodeId) -> (r: Option<usize>)
        ensures
            match r {
                Some(i) => i < self@.keys.len() && self@.keys[i as int].1 == id,
                None => forall|i: int| 0 <= i < self@.keys.len() ==> (#[trigger] self@.keys[i]).1 != id,
            },
    {
        let mut i: usize = 0;
        while i < self.by_identity.len()
            invariant
                i <= self.by_identity@.len(),
                forall|j: int| 0 <= j < i ==> (#[trigger] self@.keys[j]).1 != id,
            decreases self.by_identity@.len() - i,
        {
            if self.by_identity[i].1 == id {
                return Some(i);
            }
            i = i + 1;
        }
        None
    }

    /// Takes node `source` out in favour of `target`: its node (returned),
    /// its edges and its key entry go, its id redirects to `target`, and the
    /// anchors name `target` in its place.
    fn detach(&mut self, source: NodeId, target: NodeId) -> (r: GraphNode)
        requires
            old(self).well_formed(),
            live(old(self)@, source.0),
            live(old(self)@, target.0),
            source != target,
        ensures
            final(self).well_formed(),
            final(self).nodes_used() == old(self).nodes_used(),
            final(self).edges_used() == old(self).edges_used(),
            r@ == node_of(old(self)@, source.0),
            detached(old(self)@, final(self)@, source, target),
    {
        let si = self.index_of_node(source);
        let ghost m = self@;
        let ghost d = self.depth@;
        let ghost next_id = self.next_id;
        let ki = self.owner_position(source);
        let removed = store_remove_node(&mut self.graph, si);
        proof {
            assert(removed is Some);
        }
        let node = removed.unwrap();
        self.by_id.remove(&source.0);
        self.redirects.insert(source.0, target.0);
        self.depth = Ghost((d.0.insert(source.0, d.1 - 1), d.1 - 1));
        match ki {
            Some(i) => {
                self.by_identity.remove(i);
            },
            None => {},
        }
        replace_neighbor(&mut self.anchors, source, target);
        proof {
            let m1 = self@;
            assert(m1.index_of =~= m.index_of.remove(source.0));
            assert(m1.nodes =~= m.nodes.remove(si));
            assert(m1.edges =~= m.edges.restrict(m.edges.dom().filter(|e: u32| !touches(m, e, si))));
            assert(m1.redirects =~= m.redirects.insert(source.0, target.0));
            let kg: Option<int> = match ki {
                Some(i) => Some(i as int),
                None => None,
            };
            match ki {
                Some(i) => {
                    assert(m1.keys =~= m.keys.remove(i as int));
                },
                None => {
                    assert(m1.keys =~= m.keys);
                },
            }
            lemma_detached(m, m1, next_id, d, source, target, kg);
            assert(m.nodes.contains_key(si));
        }
        node
    }
}

/// The node with `s` replaced by `t` in both neighbour lists, each id once.
pub open spec fn redirected_node(n: NodeView, s: NodeId, t: NodeId) -> NodeView {
    NodeView {
        incoming: crate::graph::BranchView { neighbors: dedup(replaced(n.incoming.neighbors, s, t)), ..n.incoming },
        outgoing: crate::graph::BranchView { neighbors: dedup(replaced(n.outgoing.neighbors, s, t)), ..n.outgoing },
        ..n
    }
}

impl RelationGraph {
    /// Replaces `source` by `target` in the neighbour lists of every node.
    fn redirect_neighbors(&mut self, source: NodeId, target: NodeId)
        requires
            old(self).well_formed(),
        ensures
            final(self).well_formed(),
            final(self).nodes_used() == old(self).nodes_used(),
            final(self).edges_used() == old(self).edges_used(),
            final(self)@ == (RelationModel {
                nodes: old(self)@.nodes.map_values(|n: NodeView| redirected_node(n, source, target)),
                ..old(self)@
            }),
    {
        let ids = store_node_indices(&self.graph);
        let ghost m0 = self@;
        proof {
            assert(m0.nodes.dom() =~= store_nodes(self.graph).dom());
        }
        let mut i: usize = 0;
        while i < ids.len()
            invariant
                self.well_formed(),
                self.nodes_used() == old(self).nodes_used(),
                self.edges_used() == old(self).edges_used(),
                m0 == old(self)@,
                i <= ids@.len(),
                ids@.no_duplicates(),
                forall|j: u32| #[trigger] ids@.contains(j) <==> m0.nodes.contains_key(j),
                self@ == (RelationModel { nodes: self@.nodes, ..m0 }),
                self@.nodes.dom() == m0.nodes.dom(),
                forall|j: u32|
                    #[trigger] self@.nodes.contains_key(j) ==> self@.nodes[j] == (if ids@.take(i as int).contains(j) {
                        redirected_node(m0.nodes[j], source, target)
                    } else {
                        m0.nodes[j]
                    }),
            decreases ids@.len() - i,
        {
            let idx = ids[i];
            let ghost before = self@;
            let ghost next_id = self.next_id;
            let ghost depth = self.depth@;
            proof {
                assert(ids@.contains(idx)) by {
                    assert(ids@[i as int] == idx);
                }
                let pre = ids@.take(i as int);
                assert(!pre.contains(idx)) by {
                    if pre.contains(idx) {
                        let q = choose|q: int| 0 <= q < pre.len() && pre[q] == idx;
                        assert(ids@[q] == ids@[i as int]);
                    }
                }
            }
            match store_node_mut(&mut self.graph, idx) {
                Some(n) => {
                    replace_neighbor(&mut n.incoming.neighbors, source, target);
                    replace_neighbor(&mut n.outgoing.neighbors, source, target);
                },
                None => {},
            }
            proof {
                assert(self@.nodes[idx] == redirected_node(before.nodes[idx], source, target));
                lemma_node_replaced(before, next_id, depth, idx, self@.nodes[idx]);
                assert(self@ == RelationModel { nodes: before.nodes.insert(idx, self@.nodes[idx]), ..before });
                assert forall|j: u32|
                    #[trigger] self@.nodes.contains_key(j) implies self@.nodes[j] == (if ids@.take(i + 1).contains(j) {
                        redirected_node(m0.nodes[j], source, target)
                    } else {
                        m0.nodes[j]
                    }) by {
                    let pre = ids@.take(i as int);
                    let pre1 = ids@.take(i + 1);
                    if j == idx {
                        assert(pre1[i as int] == idx);
                    } else {
                        if pre1.contains(j) {
                            let q = choose|q: int| 0 <= q < pre1.len() && pre1[q] == j;
                            assert(q < i);
                            assert(pre[q] == j);
                        }
                        if pre.contains(j) {
                            let q = choose|q: int| 0 <= q < pre.len() && pre[q] == j;
                            assert(pre1[q] == j);
                        }
                    }
                }
            }
            i = i + 1;
        }
        proof {
            assert(ids@.take(ids@.len() as int) =~= ids@);
            assert(self@.nodes =~= m0.nodes.map_values(|n: NodeView| redirected_node(n, source, target)));
        }
    }
}

/// The order of observers: by node id, the incoming branch first.
pub open spec fn observer_rank(o: BranchKey) -> int {
    o.node_id.0 * 2 + match o.direction {
        HierarchyDirection::Incoming => 0int,
        HierarchyDirection::Outgoing => 1int,
    }
}

/// Observers in strictly increasing order.
pub open spec fn observers_sorted(s: Seq<BranchKey>) -> bool {
    forall|i: int, j: int| 0 <= i < j < s.len() ==> observer_rank(#[trigger] s[i]) < observer_rank(#[trigger] s[j])
}

/// Two observers of the same rank are the same.
pub proof fn lemma_rank_injective(a: BranchKey, b: BranchKey)
    ensures
        observer_rank(a) == observer_rank(b) ==> a == b,
{
    if observer_rank(a) == observer_rank(b) {
        assert(a.node_id.0 == b.node_id.0);
        assert(a.direction == b.direction);
    }
}

/// The observers of a list, sorted by node id and direction, each once.
fn sort_observers(list: &Vec<BranchKey>) -> (r: Vec<BranchKey>)
    ensures
        observers_sorted(r@),
        r@.no_duplicates(),
        forall|x: BranchKey| #[trigger] r@.contains(x) <==> list@.contains(x),
{
    let mut out: Vec<BranchKey> = Vec::new();
    let mut i: usize = 0;
    while i < list.len()
        invariant
            i <= list@.len(),
            observers_sorted(out@),
            forall|x: BranchKey| #[trigger] out@.contains(x) <==> list@.take(i as int).contains(x),
        decreases list@.len() - i,
    {
        let x = list[i];
        let xr: u64 = x.node_id.0;
        let mut p: usize = 0;
        while p < out.len() && (out[p].node_id.0 < xr || (out[p].node_id.0 == xr && out[p].direction == HierarchyDirection::Incoming && x.direction == HierarchyDirection::Outgoing))
            invariant
                p <= out@.len(),
                xr == x.node_id.0,
                forall|q: int| 0 <= q < p ==> observer_rank(#[trigger] out@[q]) < observer_rank(x),
            decreases out@.len() - p,
        {
            assert(observer_rank(out@[p as int]) < observer_rank(x));
            p = p + 1;
        }
        let ghost before = out@;
        let ghost pre = list@.take(i as int);
        let ghost pre1 = list@.take(i + 1);
        proof {
            assert(pre1 =~= pre.push(x));
            if p < out@.len() {
                assert(observer_rank(out@[p as int]) >= observer_rank(x));
                assert forall|q: int| p <= q < out@.len() implies observer_rank(#[trigger] out@[q]) >= observer_rank(x) by {
                    if q > p {
                        assert(observer_rank(out@[p as int]) < observer_rank(out@[q]));
                    }
                }
            }
        }
        if p < out.len() && out[p] == x {
            proof {
                assert forall|y: BranchKey| #[trigger] out@.contains(y) <==> pre1.contains(y) by {
                    if pre1.contains(y) {
                        let q = choose|q: int| 0 <= q < pre1.len() && pre1[q] == y;
                        if q < i {
                            assert(pre[q] == y);
                        } else {
                            assert(out@[p as int] == y);
                        }
                    }
                    if pre.contains(y) {
                        let q = choose|q: int| 0 <= q < pre.len() && pre[q] == y;
                        assert(pre1[q] == y);
                    }
                }
            }
        } else {
            out.insert(p, x);
            proof {
                if p < before.len() {
                    lemma_rank_injective(before[p as int], x);
                }
                assert forall|a: int, b: int| 0 <= a < b < out@.len() implies observer_rank(#[trigger] out@[a])
                    < observer_rank(#[trigger] out@[b]) by {
                    if a < p && b < p {
                        assert(out@[a] == before[a] && out@[b] == before[b]);
                    } else if a < p && b == p {
                        assert(out@[a] == before[a]);
                    } else if a < p {
                        assert(out@[a] == before[a] && out@[b] == before[b - 1]);
                    } else if a == p {
                        assert(out@[b] == before[b - 1]);
                        lemma_rank_injective(before[b - 1], x);
                    } else {
                        assert(out@[a] == before[a - 1] && out@[b] == before[b - 1]);
                    }
                }
                assert forall|y: BranchKey| #[trigger] out@.contains(y) <==> pre1.contains(y) by {
                    if out@.contains(y) {
                        let q = choose|q: int| 0 <= q < out@.len() && out@[q] == y;
                        if q < p {
                            assert(before[q] == y);
                        } else if q > p {
                            assert(before[q - 1] == y);
                        }
                        if y != x {
                            assert(before.contains(y));
                            assert(pre.contains(y));
                            let r = choose|r: int| 0 <= r < pre.len() && pre[r] == y;
                            assert(pre1[r] == y);
                        } else {
                            assert(pre1[i as int] == y);
                        }
                    }
                    if pre1.contains(y) {
                        let q = choose|q: int| 0 <= q < pre1.len() && pre1[q] == y;
                        if q < i {
                            assert(pre[q] == y);
                            assert(before.contains(y));
                            let r = choose|r: int| 0 <= r < before.len() && before[r] == y;
                            if r < p {
                                assert(out@[r] == y);
                            } else {
                                assert(out@[r + 1] == y);
                            }
                        } else {
                            assert(out@[p as int] == y);
                        }
                    }
                }
            }
        }
        i = i + 1;
    }
    proof {
        assert(list@.take(list@.len() as int) =~= list@);
        assert forall|a: int, b: int| 0 <= a < b < out@.len() implies out@[a] != out@[b] by {
            assert(observer_rank(out@[a]) < observer_rank(out@[b]));
        }
    }
    out
}

/// The observer with node `s` replaced by `t`.
pub open spec fn renamed_key(o: BranchKey, s: NodeId, t: NodeId) -> BranchKey {
    if o.node_id == s {
        BranchKey { node_id: t, direction: o.direction }
    } else {
        o
    }
}

/// The observers with node `s` replaced by `t`.
fn rename_keys(list: &Vec<BranchKey>, s: NodeId, t: NodeId) -> (r: Vec<BranchKey>)
    ensures
        r@ == list@.map_values(|o: BranchKey| renamed_key(o, s, t)),
{
    let mut out: Vec<BranchKey> = Vec::new();
    let mut i: usize = 0;
    while i < list.len()
        invariant
            i <= list@.len(),
            out@ == list@.take(i as int).map_values(|o: BranchKey| renamed_key(o, s, t)),
        decreases list@.len() - i,
    {
        let o = list[i];
        let n = if o.node_id == s {
            BranchKey { node_id: t, direction: o.direction }
        } else {
            o
        };
        out.push(n);
        proof {
            assert(list@.take(i + 1).map_values(|o: BranchKey| renamed_key(o, s, t)) =~= list@.take(
                i as int,
            ).map_values(|o: BranchKey| renamed_key(o, s, t)).push(n));
        }
        i = i + 1;
    }
    assert(list@.take(list@.len() as int) =~= list@);
    out
}

impl RelationGraph {
    /// Renames observers from `source` to `target` and sorts the observers
    /// of every edge by node id and direction, each once.
    fn tidy_observers(&mut self, source: NodeId, target: NodeId)
        requires
            old(self).well_formed(),
            !live(old(self)@, source.0),
        ensures
            final(self).well_formed(),
            final(self).nodes_used() == old(self).nodes_used(),
            final(self).edges_used() == old(self).edges_used(),
            final(self)@ == (RelationModel { edges: final(self)@.edges, ..old(self)@ }),
            final(self)@.edges.dom() == old(self)@.edges.dom(),
            forall|e: u32| #[trigger]
                final(self)@.edges.contains_key(e) ==> final(self)@.edges[e].0 == old(self)@.edges[e].0
                    && final(self)@.edges[e].1 == old(self)@.edges[e].1 && observers_sorted(
                    final(self)@.edges[e].2,
                ) && (forall|x: BranchKey|
                    final(self)@.edges[e].2.contains(x) <==> old(self)@.edges[e].2.contains(x)),
    {
        let ids = store_edge_indices(&self.graph);
        let ghost m0 = self@;
        proof {
            assert(m0.edges.dom() =~= store_edges(self.graph).dom());
        }
        let mut i: usize = 0;
        while i < ids.len()
            invariant
                self.well_formed(),
                self.nodes_used() == old(self).nodes_used(),
                self.edges_used() == old(self).edges_used(),
                m0 == old(self)@,
                !live(m0, source.0),
                i <= ids@.len(),
                ids@.no_duplicates(),
                forall|e: u32| #[trigger] ids@.contains(e) <==> m0.edges.contains_key(e),
                self@ == (RelationModel { edges: self@.edges, ..m0 }),
                self@.edges.dom() == m0.edges.dom(),
                forall|e: u32| #[trigger]
                    self@.edges.contains_key(e) ==> self@.edges[e].0 == m0.edges[e].0 && self@.edges[e].1
                        == m0.edges[e].1 && (forall|x: BranchKey|
                        self@.edges[e].2.contains(x) <==> m0.edges[e].2.contains(x)) && (
                    ids@.take(i as int).contains(e) ==> observers_sorted(self@.edges[e].2)),
            decreases ids@.len() - i,
        {
            let e = ids[i];
            let ghost before = self@;
            let ghost next_id = self.next_id;
            let ghost depth = self.depth@;
            proof {
                assert(ids@.contains(e)) by {
                    assert(ids@[i as int] == e);
                }
                assert(edges_ok(before));
                assert(ids_ok(before, next_id));
                let obs = before.edges[e].2;
                assert forall|k: int| 0 <= k < obs.len() implies renamed_key(#[trigger] obs[k], source, target) == obs[k] by {
                    assert(observer_fits(before, before.edges[e], obs[k]));
                    assert(before.nodes.contains_key(before.edges[e].0));
                    assert(before.nodes.contains_key(before.edges[e].1));
                }
                assert(obs.map_values(|o: BranchKey| renamed_key(o, source, target)) =~= obs);
            }
            match store_edge_mut(&mut self.graph, e) {
                Some(w) => {
                    let renamed = rename_keys(&w.observed_by, source, target);
                    w.observed_by = sort_observers(&renamed);
                },
                None => {},
            }
            proof {
                let m1 = self@;
                let obs = before.edges[e].2;
                let obs1 = m1.edges[e].2;
                assert(m1.edges =~= before.edges.insert(e, (before.edges[e].0, before.edges[e].1, obs1)));
                assert(obs.len() > 0);
                assert(obs.contains(obs[0]));
                assert(obs1.contains(obs[0]));
                assert(edges_ok(m1)) by {
                    assert forall|f: u32, k: int|
                        m1.edges.contains_key(f) && 0 <= k < m1.edges[f].2.len() implies #[trigger] observer_fits(
                        m1,
                        m1.edges[f],
                        m1.edges[f].2[k],
                    ) by {
                        if f != e {
                            assert(observer_fits(before, before.edges[f], before.edges[f].2[k]));
                        } else {
                            assert(obs1.contains(obs1[k]));
                            let q = choose|q: int| 0 <= q < obs.len() && obs[q] == obs1[k];
                            assert(observer_fits(before, before.edges[e], obs[q]));
                        }
                    }
                    assert forall|f: u32, g: u32|
                        #![trigger m1.edges[f], m1.edges[g]]
                        m1.edges.contains_key(f) && m1.edges.contains_key(g) && m1.edges[f].0 == m1.edges[g].0
                            && m1.edges[f].1 == m1.edges[g].1 implies f == g by {
                        assert(before.edges[f].0 == m1.edges[f].0 && before.edges[f].1 == m1.edges[f].1);
                        assert(before.edges[g].0 == m1.edges[g].0 && before.edges[g].1 == m1.edges[g].1);
                    }
                }
                lemma_edges_changed(before, next_id, depth, m1.edges);
                let pre = ids@.take(i as int);
                let pre1 = ids@.take(i + 1);
                assert forall|f: u32| #[trigger] m1.edges.contains_key(f) implies m1.edges[f].0 == m0.edges[f].0
                    && m1.edges[f].1 == m0.edges[f].1 && (forall|x: BranchKey|
                    m1.edges[f].2.contains(x) <==> m0.edges[f].2.contains(x)) && (pre1.contains(f)
                    ==> observers_sorted(m1.edges[f].2)) by {
                    if f != e {
                        if pre1.contains(f) {
                            let q = choose|q: int| 0 <= q < pre1.len() && pre1[q] == f;
                            assert(q < i);
                            assert(pre[q] == f);
                        }
                    }
                }
            }
            i = i + 1;
        }
        proof {
            assert(ids@.take(ids@.len() as int) =~= ids@);
        }
    }
}

/// The node `t` after absorbing the branches of `s` and taking `identity`.
pub open spec fn absorbed(t: NodeView, s: NodeView, identity: crate::state::IdentityView) -> NodeView {
    NodeView {
        id: t.id,
        symbol: identity.symbol,
        kind: identity.kind,
        location: identity.location,
        incoming: merged_branch(t.incoming, s.incoming),
        outgoing: merged_branch(t.outgoing, s.outgoing),
    }
}

impl RelationGraph {
    /// Merges the branches of a removed node into node `target`, which takes
    /// `identity`.
    fn absorb(&mut self, target: NodeId, source_node: GraphNode, identity: SymbolIdentity)
        requires
            old(self).well_formed(),
            live(old(self)@, target.0),
            identity_key(identity@) == key_of(old(self)@, target.0),
        ensures
            final(self).well_formed(),
            final(self).nodes_used() == old(self).nodes_used(),
            final(self).edges_used() == old(self).edges_used(),
            final(self)@ == (RelationModel {
                nodes: old(self)@.nodes.insert(
                    old(self)@.index_of[target.0],
                    absorbed(node_of(old(self)@, target.0), source_node@, identity@),
                ),
                ..old(self)@
            }),
    {
        let ix = self.index_of_node(target);
        let ghost before = self@;
        let ghost next_id = self.next_id;
        let ghost depth = self.depth@;
        let ghost source_view = source_node@;
        let ghost identity_view = identity@;
        let GraphNode { incoming, outgoing, .. } = source_node;
        match store_node_mut(&mut self.graph, ix) {
            Some(n) => {
                merge_branch(&mut n.incoming, incoming);
                merge_branch(&mut n.outgoing, outgoing);
                n.symbol = identity.symbol;
                n.kind = identity.kind;
                n.location = identity.location;
            },
            None => {},
        }
        proof {
            assert(before.nodes.contains_key(ix));
            assert(self@.nodes[ix] == absorbed(before.nodes[ix], source_view, identity_view));
            lemma_node_replaced(before, next_id, depth, ix, self@.nodes[ix]);
        }
    }
}

/// The id with `s` replaced by `t`.
pub open spec fn ren(id: NodeId, s: NodeId, t: NodeId) -> NodeId {
    if id == s {
        t
    } else {
        id
    }
}

/// Every observer of a record is the outgoing branch of its source or the
/// incoming branch of its target.
pub open spec fn record_fits(rec: (NodeId, NodeId, Seq<BranchKey>)) -> bool {
    forall|k: int|
        0 <= k < rec.2.len() ==> ((#[trigger] rec.2[k]).direction == HierarchyDirection::Outgoing
            && rec.2[k].node_id == rec.0) || (rec.2[k].direction == HierarchyDirection::Incoming
            && rec.2[k].node_id == rec.1)
}

impl RelationGraph {
    /// Records the relations of `records` again, with `source` renamed to
    /// `target`: each observer observes the renamed edge.
    fn reobserve(&mut self, records: &Vec<(NodeId, NodeId, Vec<BranchKey>)>, source: NodeId, target: NodeId)
        requires
            old(self).well_formed(),
            old(self).room(0, records@.len() + 1int),
            forall|k: int|
                0 <= k < records@.len() ==> record_fits(record_view(#[trigger] records@[k])) && live(
                    old(self)@,
                    ren(records@[k].0, source, target).0,
                ) && live(old(self)@, ren(records@[k].1, source, target).0) && records@[k].2@.len() > 0,
        ensures
            final(self).well_formed(),
            final(self).nodes_used() == old(self).nodes_used(),
            final(self).edges_used() <= old(self).edges_used() + records@.len(),
            final(self)@ == (RelationModel { edges: final(self)@.edges, ..old(self)@ }),
            forall|e: u32| #[trigger]
                old(self)@.edges.contains_key(e) ==> final(self)@.edges.contains_key(e)
                    && final(self)@.edges[e].0 == old(self)@.edges[e].0 && final(self)@.edges[e].1
                    == old(self)@.edges[e].1,
            forall|k: int|
                0 <= k < records@.len() ==> edge_between(
                    final(self)@.edges,
                    old(self)@.index_of[ren((#[trigger] records@[k]).0, source, target).0],
                    old(self)@.index_of[ren(records@[k].1, source, target).0],
                ) is Some,
            forall|f: u32| #[trigger]
                final(self)@.edges.contains_key(f) ==> old(self)@.edges.contains_key(f) || renamed_record_ends(
                    old(self)@,
                    records@,
                    records@.len() as int,
                    source,
                    target,
                    final(self)@.edges[f].0,
                    final(self)@.edges[f].1,
                ),
    {
        let ghost m0 = self@;
        let mut k: usize = 0;
        while k < records.len()
            invariant
                self.well_formed(),
                m0 == old(self)@,
                k <= records@.len(),
                old(self).room(0, records@.len() + 1int),
                self.nodes_used() == old(self).nodes_used(),
                self.edges_used() <= old(self).edges_used() + k,
                self@ == (RelationModel { edges: self@.edges, ..m0 }),
                forall|q: int|
                    0 <= q < records@.len() ==> record_fits(record_view(#[trigger] records@[q])) && live(
                        m0,
                        ren(records@[q].0, source, target).0,
                    ) && live(m0, ren(records@[q].1, source, target).0) && records@[q].2@.len() > 0,
                forall|e: u32| #[trigger]
                    m0.edges.contains_key(e) ==> self@.edges.contains_key(e) && self@.edges[e].0
                        == m0.edges[e].0 && self@.edges[e].1 == m0.edges[e].1,
                forall|q: int|
                    0 <= q < k ==> edge_between(
                        self@.edges,
                        m0.index_of[ren((#[trigger] records@[q]).0, source, target).0],
                        m0.index_of[ren(records@[q].1, source, target).0],
                    ) is Some,
                forall|f: u32| #[trigger]
                    self@.edges.contains_key(f) ==> m0.edges.contains_key(f) || renamed_record_ends(
                        m0,
                        records@,
                        k as int,
                        source,
                        target,
                        self@.edges[f].0,
                        self@.edges[f].1,
                    ),
            decreases records@.len() - k,
        {
            let rec = &records[k];
            let a = if rec.0 == source {
                target
            } else {
                rec.0
            };
            let b = if rec.1 == source {
                target
            } else {
                rec.1
            };
            let ghost ia = m0.index_of[a.0];
            let ghost ib = m0.index_of[b.0];
            let ghost start_used = self.edges_used();
            let ghost start_edges = self@.edges;
            proof {
                assert(record_fits(record_view(records@[k as int])));
            }
            let mut j: usize = 0;
            while j < rec.2.len()
                invariant
                    self.well_formed(),
                    m0 == old(self)@,
                    k < records@.len(),
                    *rec == records@[k as int],
                    a == ren(rec.0, source, target),
                    b == ren(rec.1, source, target),
                    live(m0, a.0),
                    live(m0, b.0),
                    ia == m0.index_of[a.0],
                    ib == m0.index_of[b.0],
                    record_fits(record_view(*rec)),
                    j <= rec.2@.len(),
                    old(self).room(0, records@.len() + 1int),
                    start_used <= old(self).edges_used() + k,
                    self.nodes_used() == old(self).nodes_used(),
                    j == 0 ==> self.edges_used() == start_used && self@.edges == start_edges,
                    j > 0 ==> self.edges_used() <= start_used + 1 && edge_between(self@.edges, ia, ib) is Some,
                    self@ == (RelationModel { edges: self@.edges, ..m0 }),
                    forall|e: u32| #[trigger]
                        start_edges.contains_key(e) ==> self@.edges.contains_key(e) && self@.edges[e].0
                            == start_edges[e].0 && self@.edges[e].1 == start_edges[e].1,
                    forall|f: u32| #[trigger]
                        self@.edges.contains_key(f) ==> start_edges.contains_key(f) || (self@.edges[f].0 == ia
                            && self@.edges[f].1 == ib),
                decreases rec.2@.len() - j,
            {
                let o = rec.2[j];
                proof {
                    assert(rec.2@[j as int] == o);
                    assert(record_view(*rec).2[j as int] == o);
                }
                let owner = if o.node_id == source {
                    BranchKey { node_id: target, direction: o.direction }
                } else {
                    o
                };
                let neighbor = if o.direction == HierarchyDirection::Outgoing {
                    b
                } else {
                    a
                };
                let ghost before = self@;
                let ghost before_used = self.edges_used();
                proof {
                    lemma_live_resolves(self, owner.node_id.0);
                    lemma_live_resolves(self, neighbor.0);
                    assert(edge_of(owner.node_id, neighbor, owner.direction) == VisibleEdge { source: a, target: b });
                }
                self.observe_relation(owner.node_id, neighbor, owner);
                proof {
                    lemma_observed_keeps(before.edges, self@.edges, ia, ib, owner);
                    let e = choose|e: u32| #[trigger] links(self@.edges, e, ia, ib);
                    assert(links(self@.edges, e, ia, ib));
                }
                j = j + 1;
            }
            proof {
                assert forall|f: u32| #[trigger] self@.edges.contains_key(f) implies m0.edges.contains_key(f)
                    || renamed_record_ends(m0, records@, k + 1, source, target, self@.edges[f].0, self@.edges[f].1) by {
                    if start_edges.contains_key(f) {
                        if !m0.edges.contains_key(f) {
                            let q = choose|q: int|
                                0 <= q < k && m0.index_of[ren((#[trigger] records@[q]).0, source, target).0]
                                    == start_edges[f].0 && m0.index_of[ren(records@[q].1, source, target).0]
                                    == start_edges[f].1;
                            assert(records@[q] == records@[q]);
                        }
                    } else {
                        assert(records@[k as int] == *rec);
                    }
                }
                let e = choose|e: u32| #[trigger] links(self@.edges, e, ia, ib);
                assert forall|q: int|
                    0 <= q < k + 1 implies edge_between(
                    self@.edges,
                    m0.index_of[ren((#[trigger] records@[q]).0, source, target).0],
                    m0.index_of[ren(records@[q].1, source, target).0],
                ) is Some by {
                    if q < k {
                        let ia2 = m0.index_of[ren(records@[q].0, source, target).0];
                        let ib2 = m0.index_of[ren(records@[q].1, source, target).0];
                        let f = choose|f: u32| #[trigger] links(start_edges, f, ia2, ib2);
                        assert(links(self@.edges, f, ia2, ib2));
                    }
                }
            }
            k = k + 1;
        }
    }
}

/// Indices `ia` and `ib` are the ends, renamed from `s` to `t`, of one of
/// the first `n` records.
pub open spec fn renamed_record_ends(
    m: RelationModel,
    records: Seq<(NodeId, NodeId, Vec<BranchKey>)>,
    n: int,
    s: NodeId,
    t: NodeId,
    ia: u32,
    ib: u32,
) -> bool {
    exists|q: int|
        0 <= q < n && m.index_of[ren((#[trigger] records[q]).0, s, t).0] == ia && m.index_of[ren(records[q].1, s, t).0]
            == ib
}

/// The model after node `s` was merged into node `t`, which took `identity`.
pub open spec fn merged(m: RelationModel, m2: RelationModel, s: NodeId, t: NodeId, identity: crate::state::IdentityView) -> bool {
    &&& m2.index_of == m.index_of.remove(s.0)
    &&& m2.redirects == m.redirects.insert(s.0, t.0)
    &&& m2.anchors == dedup(replaced(m.anchors, s, t))
    &&& node_of(m2, t.0) == absorbed(redirected_node(node_of(m, t.0), s, t), node_of(m, s.0), identity)
    &&& forall|y: u64| #[trigger]
        live(m2, y) && y != t.0 ==> node_of(m2, y) == redirected_node(node_of(m, y), s, t)
    &&& forall|e: u32| #[trigger]
        m.edges.contains_key(e) ==> edge_between(
            m2.edges,
            m2.index_of[ren(edge_record(m, e).0, s, t).0],
            m2.index_of[ren(edge_record(m, e).1, s, t).0],
        ) is Some
    &&& forall|f: u32| #[trigger]
        m2.edges.contains_key(f) ==> renamed_relation(m, m2, s, t, m2.edges[f].0, m2.edges[f].1)
}

/// Indices `ia` and `ib` of the merged graph `m2` are the renamed ends of a
/// relation of `m`.
pub open spec fn renamed_relation(m: RelationModel, m2: RelationModel, s: NodeId, t: NodeId, ia: u32, ib: u32) -> bool {
    exists|e: u32|
        #[trigger] m.edges.contains_key(e) && m2.index_of[ren(edge_record(m, e).0, s, t).0] == ia
            && m2.index_of[ren(edge_record(m, e).1, s, t).0] == ib
}

impl RelationGraph {
    /// Merges node `source` into node `target`, which takes `identity`: the
    /// source's relations, branches and anchors pass to the target and its id
    /// redirects there.
    fn merge_nodes(&mut self, source: NodeId, target: NodeId, identity: SymbolIdentity) -> (r: NodeId)
        requires
            old(self).well_formed(),
            live(old(self)@, source.0),
            live(old(self)@, target.0),
            source != target,
            identity_key(identity@) == key_of(old(self)@, target.0),
            old(self).room(0, old(self)@.edges.len() + 1int),
        ensures
            r == target,
            final(self).well_formed(),
            final(self).nodes_used() == old(self).nodes_used(),
            final(self).edges_used() <= old(self).edges_used() + old(self)@.edges.len(),
            merged(old(self)@, final(self)@, source, target, identity@),
    {
        let ghost m0 = self@;
        let ghost identity_view = identity@;
        let si = self.index_of_node(source);
        proof {
            lemma_live_has_node(self);
        }
        let incident = self.incident_edges(si);
        let source_node = self.detach(source, target);
        let ghost m1 = self@;
        self.redirect_neighbors(source, target);
        let ghost m2 = self@;
        self.tidy_observers(source, target);
        let ghost m3 = self@;
        proof {
            assert(m0.nodes.contains_key(m0.index_of[target.0]));
            assert(m0.index_of[target.0] != si);
            assert(key_of(m3, target.0) == key_of(m0, target.0));
        }
        self.absorb(target, source_node, identity);
        let ghost m4 = self@;
        proof {
            assert(m4.index_of == m0.index_of.remove(source.0));
            assert(edges_ok(m0));
            assert(ids_ok(m0, self.next_id));
            assert forall|k: int|
                0 <= k < incident@.len() implies record_fits(record_view(#[trigger] incident@[k])) && live(
                m4,
                ren(incident@[k].0, source, target).0,
            ) && live(m4, ren(incident@[k].1, source, target).0) && incident@[k].2@.len() > 0 by {
                let rec = record_view(incident@[k]);
                assert(from_edge(m0, si, rec));
                let e = choose|e: u32| #[trigger] touches(m0, e, si) && edge_record(m0, e) == rec;
                assert(m0.edges.contains_key(e));
                let ia = m0.edges[e].0;
                let ib = m0.edges[e].1;
                assert(m0.nodes.contains_key(ia) && m0.nodes.contains_key(ib));
                assert(live(m0, m0.nodes[ia].id.0));
                assert(live(m0, m0.nodes[ib].id.0));
                assert(rec.0 == m0.nodes[ia].id && rec.1 == m0.nodes[ib].id);
                assert(rec.2 == m0.edges[e].2);
                assert forall|q: int| 0 <= q < rec.2.len() implies ((#[trigger] rec.2[q]).direction
                    == HierarchyDirection::Outgoing && rec.2[q].node_id == rec.0) || (rec.2[q].direction
                    == HierarchyDirection::Incoming && rec.2[q].node_id == rec.1) by {
                    assert(observer_fits(m0, m0.edges[e], m0.edges[e].2[q]));
                }
                assert(record_fits(rec));
                assert(incident@[k].0 == rec.0 && incident@[k].1 == rec.1);
                assert(incident@[k].2@ == rec.2);
            }
        }
        self.reobserve(&incident, source, target);
        proof {
            let m5 = self@;
            assert(m5.index_of == m0.index_of.remove(source.0));
            assert forall|y: u64| #[trigger] live(m5, y) && y != target.0 implies node_of(m5, y) == redirected_node(
                node_of(m0, y),
                source,
                target,
            ) by {
                assert(m0.nodes.contains_key(m0.index_of[y]));
                assert(m0.index_of[y] != si);
                assert(m0.index_of[y] != m0.index_of[target.0]);
            }
            assert forall|e: u32| #[trigger] m0.edges.contains_key(e) implies edge_between(
                m5.edges,
                m5.index_of[ren(edge_record(m0, e).0, source, target).0],
                m5.index_of[ren(edge_record(m0, e).1, source, target).0],
            ) is Some by {
                assert(edges_ok(m0));
                assert(m0.nodes.contains_key(m0.edges[e].0) && m0.nodes.contains_key(m0.edges[e].1));
                if touches(m0, e, si) {
                    assert(records(incident@).contains(edge_record(m0, e)));
                    let k = choose|k: int| 0 <= k < records(incident@).len() && records(incident@)[k] == edge_record(m0, e);
                    assert(record_view(incident@[k]) == edge_record(m0, e));
                } else {
                    assert(m1.edges.contains_key(e));
                    assert(m1.edges[e] == m0.edges[e]);
                    assert(m2.edges == m1.edges);
                    assert(m3.edges.contains_key(e));
                    assert(m4.edges == m3.edges);
                    assert(m5.edges.contains_key(e));
                    let ia = m0.edges[e].0;
                    let ib = m0.edges[e].1;
                    assert(m5.edges[e].0 == ia && m5.edges[e].1 == ib);
                    let a = edge_record(m0, e).0;
                    let b = edge_record(m0, e).1;
                    assert(m0.index_of[a.0] == ia);
                    assert(m0.index_of[b.0] == ib);
                    assert(a != source);
                    assert(b != source);
                    assert(m5.index_of[a.0] == ia);
                    assert(m5.index_of[b.0] == ib);
                    assert(links(m5.edges, e, m5.index_of[a.0], m5.index_of[b.0]));
                }
            }
            assert forall|f: u32| #[trigger] m5.edges.contains_key(f) implies renamed_relation(
                m0,
                m5,
                source,
                target,
                m5.edges[f].0,
                m5.edges[f].1,
            ) by {
                assert(edges_ok(m0));
                assert(ids_ok(m0, self.next_id));
                if m4.edges.contains_key(f) {
                    assert(m3.edges.contains_key(f));
                    assert(m1.edges.contains_key(f));
                    assert(m0.edges.contains_key(f) && !touches(m0, f, si));
                    let ia = m0.edges[f].0;
                    let ib = m0.edges[f].1;
                    assert(m0.nodes.contains_key(ia) && m0.nodes.contains_key(ib));
                    let a = edge_record(m0, f).0;
                    let b = edge_record(m0, f).1;
                    assert(m0.index_of[a.0] == ia);
                    assert(m0.index_of[b.0] == ib);
                    assert(a != source);
                    assert(b != source);
                    assert(m5.edges[f].0 == ia && m5.edges[f].1 == ib);
                    assert(m5.index_of[ren(a, source, target).0] == ia);
                    assert(m5.index_of[ren(b, source, target).0] == ib);
                } else {
                    let q = choose|q: int|
                        0 <= q < incident@.len() && m4.index_of[ren((#[trigger] incident@[q]).0, source, target).0]
                            == m5.edges[f].0 && m4.index_of[ren(incident@[q].1, source, target).0] == m5.edges[f].1;
                    let rec = record_view(incident@[q]);
                    assert(from_edge(m0, si, rec));
                    let e = choose|e: u32| #[trigger] touches(m0, e, si) && edge_record(m0, e) == rec;
                    assert(m0.edges.contains_key(e));
                    assert(edge_record(m0, e).0 == incident@[q].0);
                    assert(edge_record(m0, e).1 == incident@[q].1);
                }
            }
        }
        target
    }
}

/// Node `x` with the symbol, kind and location of `identity`.
pub open spec fn renamed_node(n: NodeView, identity: crate::state::IdentityView) -> NodeView {
    NodeView { symbol: identity.symbol, kind: identity.kind, location: identity.location, ..n }
}

/// Giving node `x` a new identity, with its key entry replaced, keeps the
/// model invariant when no other node owns the new key.
pub proof fn lemma_renamed(
    m: RelationModel,
    m2: RelationModel,
    next_id: u64,
    depth: (Map<u64, int>, int),
    x: NodeId,
    n: NodeView,
    pos: Option<int>,
)
    requires
        model_ok(m, next_id, depth),
        live(m, x.0),
        n.id == x,
        identity_key(node_identity(n)) matches Some(k) ==> forall|i: int| #[trigger] key_at(m, i, k) ==> m.keys[i].1 == x,
        match pos {
            Some(i) => 0 <= i < m.keys.len() && m.keys[i].1 == x,
            None => forall|i: int| 0 <= i < m.keys.len() ==> (#[trigger] m.keys[i]).1 != x,
        },
        m2 == (RelationModel {
            nodes: m.nodes.insert(m.index_of[x.0], n),
            keys: {
                let kept = match pos {
                    Some(i) => m.keys.remove(i),
                    None => m.keys,
                };
                match identity_key(node_identity(n)) {
                    Some(k) => kept.push((k, x)),
                    None => kept,
                }
            },
            ..m
        }),
    ensures
        model_ok(m2, next_id, depth),
{
    let ix = m.index_of[x.0];
    assert(m.nodes.contains_key(ix));
    let kept = match pos {
        Some(i) => m.keys.remove(i),
        None => m.keys,
    };
    assert forall|y: u64| #[trigger] m.index_of.contains_key(y) && y != x.0 implies node_of(m2, y) == node_of(m, y) by {
        assert(m.nodes.contains_key(m.index_of[y]));
    }
    assert(key_of(m2, x.0) == identity_key(node_identity(n)));
    assert(ids_ok(m2, next_id));
    lemma_edges_ok_same_edges(m, m2);
    assert(redirects_ok(m2, next_id, depth));
    assert(anchors_ok(m2));
    // every kept entry is an old entry of a node other than x
    assert forall|j: int| 0 <= j < kept.len() implies exists|i: int|
        0 <= i < m.keys.len() && #[trigger] kept[j] == m.keys[i] && m.keys[i].1 != x && (match pos {
            Some(p) => i == (if j < p { j } else { j + 1 }),
            None => i == j,
        }) by {
        match pos {
            Some(p) => {
                let i = if j < p { j } else { j + 1 };
                assert(kept[j] == m.keys[i]);
                assert(entry_ok(m, i) && entry_ok(m, p));
                if m.keys[i].1 == x {
                    assert(same_key(m, i, p));
                }
            },
            None => {
                assert(kept[j] == m.keys[j]);
            },
        }
    }
    assert forall|i: int| 0 <= i < m2.keys.len() implies #[trigger] entry_ok(m2, i) by {
        if i < kept.len() {
            let i0 = choose|i0: int| 0 <= i0 < m.keys.len() && #[trigger] kept[i] == m.keys[i0] && m.keys[i0].1 != x && (match pos {
                Some(p) => i0 == (if i < p { i } else { i + 1 }),
                None => i0 == i,
            });
            assert(m2.keys[i] == m.keys[i0]);
            assert(entry_ok(m, i0));
        }
    }
    assert forall|i: int, j: int|
        0 <= i < m2.keys.len() && 0 <= j < m2.keys.len() && #[trigger] same_key(m2, i, j) implies i == j by {
        if i < kept.len() && j < kept.len() {
            let i0 = choose|i0: int| 0 <= i0 < m.keys.len() && #[trigger] kept[i] == m.keys[i0] && m.keys[i0].1 != x && (match pos {
                Some(p) => i0 == (if i < p { i } else { i + 1 }),
                None => i0 == i,
            });
            let j0 = choose|j0: int| 0 <= j0 < m.keys.len() && #[trigger] kept[j] == m.keys[j0] && m.keys[j0].1 != x && (match pos {
                Some(p) => j0 == (if j < p { j } else { j + 1 }),
                None => j0 == j,
            });
            assert(m2.keys[i] == m.keys[i0] && m2.keys[j] == m.keys[j0]);
            assert(same_key(m, i0, j0));
        } else if i < kept.len() {
            let i0 = choose|i0: int| 0 <= i0 < m.keys.len() && #[trigger] kept[i] == m.keys[i0] && m.keys[i0].1 != x && (match pos {
                Some(p) => i0 == (if i < p { i } else { i + 1 }),
                None => i0 == i,
            });
            assert(m2.keys[i] == m.keys[i0]);
            assert(key_at(m, i0, m2.keys[j].0));
        } else if j < kept.len() {
            let j0 = choose|j0: int| 0 <= j0 < m.keys.len() && #[trigger] kept[j] == m.keys[j0] && m.keys[j0].1 != x && (match pos {
                Some(p) => j0 == (if j < p { j } else { j + 1 }),
                None => j0 == j,
            });
            assert(m2.keys[j] == m.keys[j0]);
            assert(key_at(m, j0, m2.keys[i].0));
        }
    }
    assert forall|id: u64|
        m2.index_of.contains_key(id) && (#[trigger] key_of(m2, id)) is Some implies exists|j: int|
        #[trigger] entry_is(m2, j, id) by {
        if id == x.0 {
            assert(entry_is(m2, kept.len() as int, id));
        } else {
            assert(m.index_of.contains_key(id) && key_of(m, id) is Some);
            let j = choose|j: int| #[trigger] entry_is(m, j, id);
            match pos {
                Some(p) => {
                    assert(j != p);
                    let j1 = if j < p { j } else { j - 1 };
                    assert(kept[j1] == m.keys[j]);
                    assert(m2.keys[j1] == m.keys[j]);
                    assert(entry_is(m2, j1, id));
                },
                None => {
                    assert(m2.keys[j] == m.keys[j]);
                    assert(entry_is(m2, j, id));
                },
            }
        }
    }
    assert(keys_ok(m2));
}

/// With the invariant, a key is owned exactly by the node of the graph
/// that has that kind and location.
pub proof fn lemma_owner_is_node(g: &RelationGraph, k: ResolvedKeyView, y: NodeId)
    requires
        g.well_formed(),
    ensures
        key_owner(g@, Some(k)) == Some(y) <==> (live(g@, y.0) && key_of(g@, y.0) == Some(k)),
{
    let m = g@;
    if key_owner(m, Some(k)) == Some(y) {
        let i = choose|i: int| #[trigger] key_at(m, i, k);
        assert(entry_ok(m, i));
    }
    if live(m, y.0) && key_of(m, y.0) == Some(k) {
        let j = choose|j: int| #[trigger] entry_is(m, j, y.0);
        assert(key_at(m, j, k));
        let i = choose|i: int| #[trigger] key_at(m, i, k);
        assert(same_key(m, i, j));
    }
}

/// No two nodes of the graph share a kind and location: the graph holds
/// each located symbol once.
pub proof fn lemma_globally_deduplicated(g: &RelationGraph, a: u64, b: u64)
    requires
        g.well_formed(),
        live(g@, a),
        live(g@, b),
        key_of(g@, a) is Some,
        key_of(g@, a) == key_of(g@, b),
    ensures
        a == b,
{
    lemma_owner_is_node(g, key_of(g@, a).unwrap(), NodeId(a));
    lemma_owner_is_node(g, key_of(g@, a).unwrap(), NodeId(b));
}

/// The model `m2` is `m` after node `x` was resolved to `identity`, and
/// the node it now is is `y`: merged into the node that already had the
/// identity's key, else renamed in place.
pub open spec fn symbol_resolved(m: RelationModel, m2: RelationModel, x: NodeId, identity: crate::state::IdentityView, y: NodeId) -> bool {
    match key_owner(m, identity_key(identity)) {
        Some(existing) => if existing != x {
            y == existing && merged(m, m2, x, existing, identity)
        } else {
            y == x && m2 == (RelationModel {
                nodes: m.nodes.insert(m.index_of[x.0], renamed_node(node_of(m, x.0), identity)),
                keys: m2.keys,
                ..m
            })
        },
        None => y == x && m2 == (RelationModel {
            nodes: m.nodes.insert(m.index_of[x.0], renamed_node(node_of(m, x.0), identity)),
            keys: m2.keys,
            ..m
        }),
    }
}

impl RelationGraph {
    /// Gives node `x` a new identity and replaces its key entry.
    fn rename_node(&mut self, x: NodeId, identity: SymbolIdentity)
        requires
            old(self).well_formed(),
            live(old(self)@, x.0),
            key_owner(old(self)@, identity_key(identity@)) is None || key_owner(
                old(self)@,
                identity_key(identity@),
            ) == Some(x),
        ensures
            final(self).well_formed(),
            final(self).nodes_used() == old(self).nodes_used(),
            final(self).edges_used() == old(self).edges_used(),
            final(self)@.index_of == old(self)@.index_of,
            final(self)@.edges == old(self)@.edges,
            final(self)@.redirects == old(self)@.redirects,
            final(self)@.anchors == old(self)@.anchors,
            final(self)@.nodes == old(self)@.nodes.insert(
                old(self)@.index_of[x.0],
                renamed_node(node_of(old(self)@, x.0), identity@),
            ),
    {
        let ghost m = self@;
        let ghost next_id = self.next_id;
        let ghost depth = self.depth@;
        let ghost identity_view = identity@;
        let new_key = ResolvedSymbolKey::from_identity(&identity);
        let pos = self.owner_position(x);
        let ix = self.index_of_node(x);
        match pos {
            Some(i) => {
                self.by_identity.remove(i);
            },
            None => {},
        }
        match store_node_mut(&mut self.graph, ix) {
            Some(n) => {
                n.symbol = identity.symbol;
                n.kind = identity.kind;
                n.location = identity.location;
            },
            None => {},
        }
        match new_key {
            Some(k) => {
                self.by_identity.push((k, x));
            },
            None => {},
        }
        proof {
            let n = renamed_node(node_of(m, x.0), identity_view);
            assert(m.nodes.contains_key(ix));
            let pg: Option<int> = match pos {
                Some(i) => Some(i as int),
                None => None,
            };
            let kept = match pg {
                Some(i) => m.keys.remove(i),
                None => m.keys,
            };
            assert(self@.keys =~= match identity_key(node_identity(n)) {
                Some(k) => kept.push((k, x)),
                None => kept,
            });
            assert(self@.nodes =~= m.nodes.insert(ix, n));
            if identity_key(node_identity(n)) is Some {
                let k = identity_key(node_identity(n)).unwrap();
                assert forall|i: int| #[trigger] key_at(m, i, k) implies m.keys[i].1 == x by {
                    let c = choose|c: int| #[trigger] key_at(m, c, k);
                    assert(same_key(m, i, c));
                }
            }
            lemma_renamed(m, self@, next_id, depth, x, n, pg);
        }
    }

    /// Resolves a node to a located identity. When another node already has
    /// that kind and location, this one merges into it and the other node's
    /// id is returned; else the node takes the identity. `None`, with
    /// nothing changed, when the id stands for no node.
    pub fn resolve_symbol(&mut self, node_id: NodeId, identity: SymbolIdentity) -> (r: Option<NodeId>)
        requires
            old(self).well_formed(),
            old(self).room(0, old(self)@.edges.len() + 1int),
        ensures
            final(self).well_formed(),
            final(self).nodes_used() == old(self).nodes_used(),
            final(self).edges_used() <= old(self).edges_used() + old(self)@.edges.len(),
            match resolve(old(self)@, node_id) {
                None => r is None && final(self)@ == old(self)@,
                Some(x) => r matches Some(y) && symbol_resolved(old(self)@, final(self)@, x, identity@, y),
            },
            resolve(old(self)@, node_id) is Some ==> (r matches Some(y) && live(final(self)@, y.0)
                && node_identity(node_of(final(self)@, y.0)) == identity@),
    {
        let x = match self.resolve_id(node_id) {
            Some(x) => x,
            None => {
                return None;
            },
        };
        proof {
            lemma_follow_live(self@.redirects, self@.index_of.dom(), node_id.0, self@.redirects.dom().len());
        }
        let ghost m = self@;
        let new_key = ResolvedSymbolKey::from_identity(&identity);
        let existing = match &new_key {
            Some(k) => self.find_key(k),
            None => None,
        };
        proof {
            match new_key {
                Some(k) => {
                    match existing {
                        Some(e) => {
                            let i = choose|i: int| #[trigger] key_at(m, i, k@) && m.keys[i].1 == e;
                            let j = choose|j: int| #[trigger] key_at(m, j, k@);
                            assert(same_key(m, i, j));
                            assert(key_owner(m, identity_key(identity@)) == Some(e));
                        },
                        None => {
                            assert(key_owner(m, identity_key(identity@)) is None);
                        },
                    }
                },
                None => {},
            }
        }
        match existing {
            Some(e) => {
                if e != x {
                    proof {
                        let k = identity_key(identity@).unwrap();
                        lemma_owner_is_node(self, k, e);
                    }
                    let merged_id = self.merge_nodes(x, e, identity);
                    return Some(merged_id);
                }
            },
            None => {},
        }
        self.rename_node(x, identity);
        Some(x)
    }
}

/// The node has this name and kind.
pub open spec fn named(n: NodeView, symbol: Seq<char>, kind: crate::state::HierarchyKind) -> bool {
    n.symbol == symbol && n.kind == kind
}

impl RelationGraph {
    /// Every node with this name and kind, each once.
    pub fn nodes_named(&self, symbol: &str, kind: crate::state::HierarchyKind) -> (r: Vec<NodeId>)
        requires
            self.well_formed(),
        ensures
            r@.no_duplicates(),
            forall|i: int| 0 <= i < r@.len() ==> live(self@, #[trigger] r@[i].0) && named(node_of(self@, r@[i].0), symbol@, kind),
            forall|y: u64| live(self@, y) && #[trigger] named(node_of(self@, y), symbol@, kind) ==> r@.contains(NodeId(y)),
    {
        let ids = store_node_indices(&self.graph);
        let ghost m = self@;
        proof {
            assert(m.nodes.dom() =~= store_nodes(self.graph).dom());
            assert(ids_ok(m, self.next_id));
        }
        let mut out: Vec<NodeId> = Vec::new();
        let mut i: usize = 0;
        while i < ids.len()
            invariant
                self.well_formed(),
                m == self@,
                ids_ok(m, self.next_id),
                i <= ids@.len(),
                ids@.no_duplicates(),
                forall|x: u32| #[trigger] ids@.contains(x) <==> m.nodes.contains_key(x),
                out@.no_duplicates(),
                forall|k: int| 0 <= k < out@.len() ==> live(m, #[trigger] out@[k].0) && named(node_of(m, out@[k].0), symbol@, kind)
                    && exists|q: int| 0 <= q < i && ids@[q] == m.index_of[out@[k].0],
                forall|q: int| 0 <= q < i && #[trigger] named(m.nodes[ids@[q]], symbol@, kind) ==> out@.contains(m.nodes[ids@[q]].id),
            decreases ids@.len() - i,
        {
            let x = ids[i];
            assert(ids@.contains(x)) by {
                assert(ids@[i as int] == x);
            }
            match store_node(&self.graph, x) {
                Some(n) => {
                    assert(n@ == m.nodes[x]);
                    if n.kind == kind && crate::text::str_eq(n.symbol.as_str(), symbol) {
                        let id = n.id;
                        proof {
                            assert(m.index_of.contains_key(id.0) && m.index_of[id.0] == x);
                            assert(!out@.contains(id)) by {
                                if out@.contains(id) {
                                    let k = choose|k: int| 0 <= k < out@.len() && out@[k] == id;
                                    let q = choose|q: int| 0 <= q < i && ids@[q] == m.index_of[out@[k].0];
                                    assert(ids@[q] == ids@[i as int]);
                                }
                            }
                        }
                        let ghost before = out@;
                        out.push(id);
                        proof {
                            assert forall|a: int, b: int| 0 <= a < b < out@.len() implies out@[a] != out@[b] by {
                                assert(out@[a] == before[a]);
                                if b < before.len() {
                                    assert(out@[b] == before[b]);
                                }
                            }
                            assert forall|k: int| 0 <= k < out@.len() implies live(m, #[trigger] out@[k].0) && named(node_of(m, out@[k].0), symbol@, kind)
                                && exists|q: int| 0 <= q < i + 1 && ids@[q] == m.index_of[out@[k].0] by {
                                if k < before.len() {
                                    assert(out@[k] == before[k]);
                                    let q = choose|q: int| 0 <= q < i && ids@[q] == m.index_of[before[k].0];
                                    assert(0 <= q < i + 1 && ids@[q] == m.index_of[out@[k].0]);
                                } else {
                                    assert(out@[k] == id);
                                    assert(ids@[i as int] == m.index_of[out@[k].0]);
                                }
                            }
                            assert forall|q: int| 0 <= q < i + 1 && #[trigger] named(m.nodes[ids@[q]], symbol@, kind) implies out@.contains(m.nodes[ids@[q]].id) by {
                                if q < i {
                                    assert(before.contains(m.nodes[ids@[q]].id));
                                    let k = choose|k: int| 0 <= k < before.len() && before[k] == m.nodes[ids@[q]].id;
                                    assert(out@[k] == before[k]);
                                } else {
                                    assert(out@[before.len() as int] == id);
                                }
                            }
                        }
                    }
                },
                None => {},
            }
            i = i + 1;
        }
        proof {
            assert forall|y: u64| live(m, y) && #[trigger] named(node_of(m, y), symbol@, kind) implies out@.contains(NodeId(y)) by {
                let x = m.index_of[y];
                assert(m.nodes.contains_key(x));
                assert(ids@.contains(x));
                let q = choose|q: int| 0 <= q < ids@.len() && ids@[q] == x;
                assert(named(m.nodes[ids@[q]], symbol@, kind));
                assert(m.nodes[x].id.0 == y);
            }
        }
        out
    }
}

/// Distinct nodes of the graph sit at distinct indices.
pub proof fn lemma_index_injective(g: &RelationGraph, a: u64, b: u64)
    requires
        g.well_formed(),
        live(g@, a),
        live(g@, b),
        a != b,
    ensures
        g@.index_of[a] != g@.index_of[b],
{
    assert(ids_ok(g@, g.next_id));
}

/// The graph has finitely many nodes.
pub proof fn lemma_live_finite(g: &RelationGraph)
    ensures
        g@.index_of.dom().finite(),
{
    assert(g.by_id@.dom().finite());
}

/// Live ids are below the next id, so there are no more of them than ids
/// were made.
pub proof fn lemma_live_count(g: &RelationGraph)
    requires
        g.well_formed(),
    ensures
        g@.index_of.dom().len() <= g.nodes_used(),
{
    lemma_live_finite(g);
    let dom = g@.index_of.dom();
    let f = |id: u64| id as int;
    let img = dom.map(f);
    assert(vstd::relations::injective_on(f, dom));
    vstd::set_lib::lemma_map_size(dom, img, f);
    assert(ids_ok(g@, g.next_id));
    assert forall|i: int| #[trigger] img.contains(i) implies vstd::set_lib::set_int_range(0, g.next_id as int).contains(i) by {
        let id = choose|id: u64| dom.contains(id) && f(id) == i;
        assert(g@.index_of.contains_key(id));
    }
    vstd::set_lib::lemma_int_range(0, g.next_id as int);
    vstd::set_lib::lemma_len_subset(img, vstd::set_lib::set_int_range(0, g.next_id as int));
}

/// The node of a live id carries that id.
pub proof fn lemma_live_node_id(g: &RelationGraph, id: u64)
    requires
        g.well_formed(),
        live(g@, id),
    ensures
        node_of(g@, id).id == NodeId(id),
{
    assert(ids_ok(g@, g.next_id));
}

} // verus!
