//! Graph nodes and their hierarchy branches, and the rules by which two
//! occurrences of one symbol are merged.
use vstd::prelude::*;

use crate::state::{
    copy_identity, copy_location, copy_optional_location, location_view, HierarchyDirection,
    HierarchyKind, IdentityView, LoadState, LocationView, NodeId, SourceLocation, SymbolIdentity,
};

verus! {

/// The key under which a symbol with a known location is found again.
#[derive(Clone, Debug, PartialEq, Eq, Hash)]
pub struct ResolvedSymbolKey {
    pub kind: HierarchyKind,
    pub location: SourceLocation,
}

/// A resolved key with its location taken as text.
pub struct ResolvedKeyView {
    pub kind: HierarchyKind,
    pub location: LocationView,
}

impl View for ResolvedSymbolKey {
    type V = ResolvedKeyView;

    open spec fn view(&self) -> ResolvedKeyView {
        ResolvedKeyView { kind: self.kind, location: self.location@ }
    }
}

/// The key of an identity: its kind and location, when it has a location.
pub open spec fn identity_key(identity: IdentityView) -> Option<ResolvedKeyView> {
    match identity.location {
        Some(l) => Some(ResolvedKeyView { kind: identity.kind, location: l }),
        None => None,
    }
}

impl ResolvedSymbolKey {
    /// The key of an identity; `None` for an identity without a location.
    pub fn from_identity(identity: &SymbolIdentity) -> (r: Option<Self>)
        ensures
            match r {
                Some(k) => identity_key(identity@) == Some(k@),
                None => identity_key(identity@) is None,
            },
    {
        match &identity.location {
            Some(location) => Some(ResolvedSymbolKey {
                kind: identity.kind,
                location: copy_location(location),
            }),
            None => None,
        }
    }
}

/// One side of a node: whether it is shown, how far it was fetched and the
/// neighbours found there.
#[derive(Clone, Copy, Debug, PartialEq, Eq, Hash, Structural)]
pub struct BranchKey {
    pub node_id: NodeId,
    pub direction: HierarchyDirection,
}

/// The hierarchy state of one side of a node.
#[derive(Clone, Debug, PartialEq, Eq)]
pub struct GraphBranch {
    pub expanded: bool,
    pub load_state: LoadState,
    pub neighbors: Vec<NodeId>,
    pub failure: Option<String>,
    pub active_request_id: Option<u64>,
}

/// A branch with its lists and text taken as sequences.
pub struct BranchView {
    pub expanded: bool,
    pub load_state: LoadState,
    pub neighbors: Seq<NodeId>,
    pub failure: Option<Seq<char>>,
    pub active_request_id: Option<u64>,
}

/// The view of an optional text.
pub open spec fn text_view(t: Option<String>) -> Option<Seq<char>> {
    match t {
        Some(s) => Some(s@),
        None => None,
    }
}

impl View for GraphBranch {
    type V = BranchView;

    open spec fn view(&self) -> BranchView {
        BranchView {
            expanded: self.expanded,
            load_state: self.load_state,
            neighbors: self.neighbors@,
            failure: text_view(self.failure),
            active_request_id: self.active_request_id,
        }
    }
}

/// A branch that was never fetched: collapsed, empty and without failure.
pub open spec fn empty_branch() -> BranchView {
    BranchView {
        expanded: false,
        load_state: LoadState::NotLoaded,
        neighbors: Seq::empty(),
        failure: None,
        active_request_id: None,
    }
}

/// A branch can be shown or hidden only once it has neighbours.
pub open spec fn branch_can_toggle(b: BranchView) -> bool {
    b.neighbors.len() > 0
}

/// The branch with its visibility flipped.
pub open spec fn flipped(b: BranchView) -> BranchView {
    BranchView { expanded: !b.expanded, ..b }
}

/// What `toggle` makes of a branch: flipped when it has neighbours, else unchanged.
pub open spec fn toggled(b: BranchView) -> BranchView {
    if branch_can_toggle(b) {
        flipped(b)
    } else {
        b
    }
}

impl Default for GraphBranch {
    fn default() -> (r: Self)
        ensures
            r@ == empty_branch(),
    {
        GraphBranch {
            expanded: false,
            load_state: LoadState::NotLoaded,
            neighbors: Vec::new(),
            failure: None,
            active_request_id: None,
        }
    }
}

impl GraphBranch {
    /// Whether the branch has neighbours to show or hide.
    pub fn can_toggle(&self) -> (r: bool)
        ensures
            r == branch_can_toggle(self@),
    {
        self.neighbors.len() > 0
    }

    /// Shows or hides the neighbours; `false`, with nothing changed, when
    /// there are none.
    pub fn toggle(&mut self) -> (r: bool)
        ensures
            r == branch_can_toggle(old(self)@),
            final(self)@ == toggled(old(self)@),
    {
        if !self.can_toggle() {
            return false;
        }
        self.expanded = !self.expanded;
        true
    }

    /// The message of the last failed fetch, if any.
    pub fn failure(&self) -> (r: Option<&str>)
        ensures
            match r {
                Some(s) => self.failure matches Some(f) && s@ == f@,
                None => self.failure is None,
            },
    {
        match &self.failure {
            Some(f) => Some(f.as_str()),
            None => None,
        }
    }
}

/// A copy of a branch.
pub fn copy_branch(b: &GraphBranch) -> (r: GraphBranch)
    ensures
        r@ == b@,
{
    let mut neighbors: Vec<NodeId> = Vec::new();
    let mut i: usize = 0;
    while i < b.neighbors.len()
        invariant
            i <= b.neighbors@.len(),
            neighbors@ == b.neighbors@.take(i as int),
        decreases b.neighbors@.len() - i,
    {
        neighbors.push(b.neighbors[i]);
        i = i + 1;
    }
    assert(neighbors@ =~= b.neighbors@);
    let failure = match &b.failure {
        Some(f) => Some(f.clone()),
        None => None,
    };
    GraphBranch {
        expanded: b.expanded,
        load_state: b.load_state,
        neighbors,
        failure,
        active_request_id: b.active_request_id,
    }
}

/// One semantic node of the relation graph with its two branches.
#[derive(Clone, Debug, PartialEq, Eq)]
pub struct GraphNode {
    pub id: NodeId,
    pub symbol: String,
    pub kind: HierarchyKind,
    pub location: Option<SourceLocation>,
    pub incoming: GraphBranch,
    pub outgoing: GraphBranch,
}

/// A node with its text, lists and branches taken as views.
pub struct NodeView {
    pub id: NodeId,
    pub symbol: Seq<char>,
    pub kind: HierarchyKind,
    pub location: Option<LocationView>,
    pub incoming: BranchView,
    pub outgoing: BranchView,
}

impl View for GraphNode {
    type V = NodeView;

    open spec fn view(&self) -> NodeView {
        NodeView {
            id: self.id,
            symbol: self.symbol@,
            kind: self.kind,
            location: location_view(self.location),
            incoming: self.incoming@,
            outgoing: self.outgoing@,
        }
    }
}

/// The identity a node stands for.
pub open spec fn node_identity(n: NodeView) -> IdentityView {
    IdentityView { symbol: n.symbol, kind: n.kind, location: n.location }
}

/// The branch of a node on one side.
pub open spec fn node_branch(n: NodeView, direction: HierarchyDirection) -> BranchView {
    match direction {
        HierarchyDirection::Incoming => n.incoming,
        HierarchyDirection::Outgoing => n.outgoing,
    }
}

/// The node with its branch on one side replaced.
pub open spec fn with_branch(n: NodeView, direction: HierarchyDirection, b: BranchView) -> NodeView {
    match direction {
        HierarchyDirection::Incoming => NodeView { incoming: b, ..n },
        HierarchyDirection::Outgoing => NodeView { outgoing: b, ..n },
    }
}

/// A fresh node for an identity: both branches never fetched.
pub open spec fn fresh_node(id: NodeId, identity: IdentityView) -> NodeView {
    NodeView {
        id,
        symbol: identity.symbol,
        kind: identity.kind,
        location: identity.location,
        incoming: empty_branch(),
        outgoing: empty_branch(),
    }
}

impl GraphNode {
    /// A node for an identity under a fresh id.
    pub fn new(identity: SymbolIdentity, id: NodeId) -> (r: Self)
        ensures
            r@ == fresh_node(id, identity@),
    {
        GraphNode {
            id,
            symbol: identity.symbol,
            kind: identity.kind,
            location: identity.location,
            incoming: GraphBranch::default(),
            outgoing: GraphBranch::default(),
        }
    }

    /// The identity this node stands for.
    pub fn identity(&self) -> (r: SymbolIdentity)
        ensures
            r@ == node_identity(self@),
    {
        SymbolIdentity {
            symbol: self.symbol.clone(),
            kind: self.kind,
            location: copy_optional_location(&self.location),
        }
    }

    /// The branch on one side.
    pub fn branch(&self, direction: HierarchyDirection) -> (r: &GraphBranch)
        ensures
            r@ == node_branch(self@, direction),
    {
        match direction {
            HierarchyDirection::Incoming => &self.incoming,
            HierarchyDirection::Outgoing => &self.outgoing,
        }
    }

    /// The branch on one side, for change; the rest of the node stays.
    pub fn branch_mut(&mut self, direction: HierarchyDirection) -> (r: &mut GraphBranch)
        ensures
            r@ == node_branch(old(self)@, direction),
            final(self)@ == with_branch(old(self)@, direction, final(r)@),
    {
        match direction {
            HierarchyDirection::Incoming => &mut self.incoming,
            HierarchyDirection::Outgoing => &mut self.outgoing,
        }
    }
}

/// A copy of a node.
pub fn copy_node(n: &GraphNode) -> (r: GraphNode)
    ensures
        r@ == n@,
{
    GraphNode {
        id: n.id,
        symbol: n.symbol.clone(),
        kind: n.kind,
        location: copy_optional_location(&n.location),
        incoming: copy_branch(&n.incoming),
        outgoing: copy_branch(&n.outgoing),
    }
}

/// The branches that observed one relation edge.
#[derive(Clone, Debug, PartialEq, Eq)]
pub struct RelationEdge {
    pub observed_by: Vec<BranchKey>,
}

/// A directed edge between two visible nodes.
#[derive(Clone, Copy, Debug, PartialEq, Eq, Hash, Structural)]
pub struct VisibleEdge {
    pub source: NodeId,
    pub target: NodeId,
}

/// The nodes and edges currently reachable from the anchors.
#[derive(Clone, Debug, PartialEq, Eq)]
pub struct VisibleGraph {
    pub nodes: Vec<NodeId>,
    pub edges: Vec<VisibleEdge>,
}

impl Default for VisibleGraph {
    fn default() -> (r: Self)
        ensures
            r.nodes@.len() == 0,
            r.edges@.len() == 0,
    {
        VisibleGraph { nodes: Vec::new(), edges: Vec::new() }
    }
}

/// The edge that a neighbour found on one side of a node stands for: an
/// incoming neighbour is the source, an outgoing one the target.
pub open spec fn edge_of(node_id: NodeId, neighbor: NodeId, direction: HierarchyDirection) -> VisibleEdge {
    match direction {
        HierarchyDirection::Incoming => VisibleEdge { source: neighbor, target: node_id },
        HierarchyDirection::Outgoing => VisibleEdge { source: node_id, target: neighbor },
    }
}

/// The edge that a neighbour found on one side of a node stands for.
pub fn canonical_edge(node_id: NodeId, neighbor: NodeId, direction: HierarchyDirection) -> (r: VisibleEdge)
    ensures
        r == edge_of(node_id, neighbor, direction),
{
    match direction {
        HierarchyDirection::Incoming => VisibleEdge { source: neighbor, target: node_id },
        HierarchyDirection::Outgoing => VisibleEdge { source: node_id, target: neighbor },
    }
}

/// The first occurrence of every id, in order.
pub open spec fn dedup(s: Seq<NodeId>) -> Seq<NodeId>
    decreases s.len(),
{
    if s.len() == 0 {
        s
    } else {
        let d = dedup(s.drop_last());
        if d.contains(s.last()) {
            d
        } else {
            d.push(s.last())
        }
    }
}

/// The ids with `source` replaced by `target`.
pub open spec fn replaced(s: Seq<NodeId>, source: NodeId, target: NodeId) -> Seq<NodeId> {
    s.map_values(|x: NodeId| if x == source { target } else { x })
}

/// Replaces `source` by `target` in a neighbour list and keeps the first
/// occurrence of each id.
pub fn replace_neighbor(neighbors: &mut Vec<NodeId>, source: NodeId, target: NodeId)
    ensures
        final(neighbors)@ == dedup(replaced(old(neighbors)@, source, target)),
{
    let ghost input = replaced(neighbors@, source, target);
    let mut out: Vec<NodeId> = Vec::new();
    let mut i: usize = 0;
    while i < neighbors.len()
        invariant
            i <= neighbors@.len(),
            input == replaced(neighbors@, source, target),
            out@ == dedup(input.take(i as int)),
        decreases neighbors@.len() - i,
    {
        let n = neighbors[i];
        let m = if n == source {
            target
        } else {
            n
        };
        assert(input.take(i + 1).drop_last() =~= input.take(i as int));
        assert(input.take(i + 1).last() == m);
        if !contains_id(&out, m) {
            out.push(m);
        }
        i = i + 1;
    }
    assert(input.take(neighbors@.len() as int) =~= input);
    *neighbors = out;
}

/// Whether `id` is in the list.
pub fn contains_id(list: &Vec<NodeId>, id: NodeId) -> (r: bool)
    ensures
        r == list@.contains(id),
{
    let mut i: usize = 0;
    while i < list.len()
        invariant
            i <= list@.len(),
            forall|j: int| 0 <= j < i ==> list@[j] != id,
        decreases list@.len() - i,
    {
        if list[i] == id {
            assert(list@[i as int] == id);
            return true;
        }
        i = i + 1;
    }
    false
}

/// `acc` followed by the ids of `s` it does not hold yet, each once.
pub open spec fn append_new(acc: Seq<NodeId>, s: Seq<NodeId>) -> Seq<NodeId>
    decreases s.len(),
{
    if s.len() == 0 {
        acc
    } else {
        let next = if acc.contains(s[0]) {
            acc
        } else {
            acc.push(s[0])
        };
        append_new(next, s.drop_first())
    }
}

/// The rank of a load state when two branches are merged: a finished fetch
/// beats one in flight, which beats a failure, which beats no fetch.
pub open spec fn load_rank(state: LoadState) -> int {
    match state {
        LoadState::NotLoaded => 0,
        LoadState::Failed => 1,
        LoadState::Loading => 2,
        LoadState::Loaded => 3,
    }
}

/// The rank of a load state when two branches are merged.
pub fn load_state_priority(state: LoadState) -> (r: u8)
    ensures
        r == load_rank(state),
{
    match state {
        LoadState::NotLoaded => 0,
        LoadState::Failed => 1,
        LoadState::Loading => 2,
        LoadState::Loaded => 3,
    }
}

/// The branch that results from merging `source` into `target`.
pub open spec fn merged_branch(target: BranchView, source: BranchView) -> BranchView {
    let source_wins = load_rank(source.load_state) > load_rank(target.load_state);
    BranchView {
        expanded: target.expanded || source.expanded,
        load_state: if source_wins {
            source.load_state
        } else {
            target.load_state
        },
        neighbors: append_new(target.neighbors, source.neighbors),
        failure: if source_wins || target.failure is None {
            source.failure
        } else {
            target.failure
        },
        active_request_id: if target.active_request_id is None {
            source.active_request_id
        } else {
            target.active_request_id
        },
    }
}

/// Merges the branch of a node that is going away into the branch of the
/// node that stays.
pub fn merge_branch(target: &mut GraphBranch, source: GraphBranch)
    ensures
        final(target)@ == merged_branch(old(target)@, source@),
{
    let ghost t0 = target@;
    target.expanded = target.expanded || source.expanded;
    let mut i: usize = 0;
    assert(source.neighbors@.skip(0) =~= source.neighbors@);
    while i < source.neighbors.len()
        invariant
            i <= source.neighbors@.len(),
            target.expanded == (t0.expanded || source.expanded),
            target.load_state == t0.load_state,
            text_view(target.failure) == t0.failure,
            target.active_request_id == t0.active_request_id,
            append_new(t0.neighbors, source.neighbors@) == append_new(
                target.neighbors@,
                source.neighbors@.skip(i as int),
            ),
        decreases source.neighbors@.len() - i,
    {
        let n = source.neighbors[i];
        assert(source.neighbors@.skip(i as int)[0] == n);
        assert(source.neighbors@.skip(i as int).drop_first() =~= source.neighbors@.skip(i + 1));
        if !contains_id(&target.neighbors, n) {
            target.neighbors.push(n);
        }
        i = i + 1;
    }
    assert(source.neighbors@.skip(i as int) =~= Seq::<NodeId>::empty());
    if load_state_priority(source.load_state) > load_state_priority(target.load_state) {
        target.load_state = source.load_state;
        target.failure = source.failure;
    } else if target.failure.is_none() {
        target.failure = source.failure;
    }
    if target.active_request_id.is_none() {
        target.active_request_id = source.active_request_id;
    }
}

/// Toggling a branch twice gives back the branch it started from.
pub proof fn lemma_toggle_twice(b: BranchView)
    ensures
        toggled(toggled(b)) == b,
{
}

/// A relation observed from both of its endpoints is one edge: the outgoing
/// neighbour `b` of `a` and the incoming neighbour `a` of `b` give the same
/// edge.
pub proof fn lemma_edge_seen_from_both_ends(a: NodeId, b: NodeId)
    ensures
        edge_of(a, b, HierarchyDirection::Outgoing) == edge_of(b, a, HierarchyDirection::Incoming),
{
}

/// The list that `dedup` gives holds every id of its input, nothing else,
/// and each once.
pub proof fn lemma_dedup(s: Seq<NodeId>)
    ensures
        forall|x: NodeId| dedup(s).contains(x) <==> s.contains(x),
        dedup(s).no_duplicates(),
    decreases s.len(),
{
    if s.len() > 0 {
        lemma_dedup(s.drop_last());
        let d = dedup(s.drop_last());
        assert forall|x: NodeId| dedup(s).contains(x) <==> s.contains(x) by {
            if d.contains(x) {
                let j = choose|j: int| 0 <= j < d.len() && d[j] == x;
                assert(d.push(s.last())[j] == x);
            }
            if !d.contains(s.last()) {
                assert(d.push(s.last())[d.len() as int] == s.last());
                if d.push(s.last()).contains(x) && x != s.last() {
                    let j = choose|j: int| 0 <= j < d.len() + 1 && d.push(s.last())[j] == x;
                    assert(d[j] == x);
                }
            }
            assert(s[s.len() - 1] == s.last());
            if s.contains(x) && x != s.last() {
                let j = choose|j: int| 0 <= j < s.len() && s[j] == x;
                assert(s.drop_last()[j] == x);
            }
            if s.drop_last().contains(x) {
                let j = choose|j: int| 0 <= j < s.len() - 1 && s.drop_last()[j] == x;
                assert(s[j] == x);
            }
        }
    }
}

/// After a merge replaced `source` by `target` in a neighbour list, the list
/// holds each id once and no longer names `source`.
pub proof fn lemma_replaced_neighbors(s: Seq<NodeId>, source: NodeId, target: NodeId)
    requires
        source != target,
    ensures
        dedup(replaced(s, source, target)).no_duplicates(),
        !dedup(replaced(s, source, target)).contains(source),
        dedup(replaced(s, source, target)).contains(target) <==> (s.contains(source)
            || s.contains(target)),
{
    let r = replaced(s, source, target);
    lemma_dedup(r);
    if r.contains(source) {
        let j = choose|j: int| 0 <= j < r.len() && r[j] == source;
        assert(false);
    }
    if s.contains(source) {
        let j = choose|j: int| 0 <= j < s.len() && s[j] == source;
        assert(r[j] == target);
    }
    if s.contains(target) {
        let j = choose|j: int| 0 <= j < s.len() && s[j] == target;
        assert(r[j] == target);
    }
    if r.contains(target) {
        let j = choose|j: int| 0 <= j < r.len() && r[j] == target;
        assert(s[j] == source || s[j] == target);
    }
}

/// A merged branch keeps every neighbour of both branches and ranks at least
/// as high as either.
pub proof fn lemma_merge_keeps(target: BranchView, source: BranchView)
    ensures
        forall|x: NodeId| #[trigger]
            merged_branch(target, source).neighbors.contains(x) <==> (target.neighbors.contains(x)
                || source.neighbors.contains(x)),
        load_rank(merged_branch(target, source).load_state) >= load_rank(target.load_state),
        load_rank(merged_branch(target, source).load_state) >= load_rank(source.load_state),
        merged_branch(target, source).neighbors.take(target.neighbors.len() as int)
            == target.neighbors,
{
    lemma_append_new(target.neighbors, source.neighbors);
}

/// `append_new` extends `acc` and holds exactly the ids of both inputs.
pub proof fn lemma_append_new(acc: Seq<NodeId>, s: Seq<NodeId>)
    ensures
        forall|x: NodeId| #[trigger]
            append_new(acc, s).contains(x) <==> (acc.contains(x) || s.contains(x)),
        append_new(acc, s).len() >= acc.len(),
        append_new(acc, s).take(acc.len() as int) == acc,
    decreases s.len(),
{
    if s.len() > 0 {
        let next = if acc.contains(s[0]) {
            acc
        } else {
            acc.push(s[0])
        };
        lemma_append_new(next, s.drop_first());
        assert(next.take(acc.len() as int) =~= acc);
        assert(append_new(acc, s).take(acc.len() as int) =~= next.take(
            next.len() as int,
        ).take(acc.len() as int));
        assert forall|x: NodeId| #[trigger]
            append_new(acc, s).contains(x) <==> (acc.contains(x) || s.contains(x)) by {
            if s.contains(x) && x != s[0] {
                let j = choose|j: int| 0 <= j < s.len() && s[j] == x;
                assert(s.drop_first()[j - 1] == x);
            }
            if s.drop_first().contains(x) {
                let j = choose|j: int| 0 <= j < s.len() - 1 && s.drop_first()[j] == x;
                assert(s[j + 1] == x);
            }
            if next.contains(x) && !acc.contains(x) {
                assert(x == s[0]);
            }
            if acc.contains(x) {
                let j = choose|j: int| 0 <= j < acc.len() && acc[j] == x;
                assert(next[j] == x);
            }
            if x == s[0] && !acc.contains(x) {
                assert(next[acc.len() as int] == x);
            }
        }
    } else {
        assert(acc.take(acc.len() as int) =~= acc);
    }
}

} // verus!
