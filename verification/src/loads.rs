//! Lazy hierarchy loads: which branch a request fills, when its answer is
//! still awaited, and what a late, failed or filtered answer does.
use vstd::prelude::*;

use crate::app::{kept, noticed, quiet, unnoticed, App};
use crate::graph::{copy_branch, node_branch, node_identity, with_branch, BranchView, GraphBranch};
use crate::filter::{ignored_spec, FilterConfig, FilterConfigView};
use crate::protocol::{CachePolicy, FetchSource, HierarchyQuery, HierarchyResponse};
use crate::relation::{identity_views, live, neighbors_replaced, node_of, resolve, symbol_resolved, RelationGraph, RelationModel};
use crate::uri::{file_path_of_uri, uri_file_path};
use crate::state::{copy_identity, HierarchyDirection, IdentityView, LoadState, LocationView, NodeId, SourceLocation, SymbolIdentity};
use crate::text::append_text;

verus! {

/// One hierarchy fetch that the viewer waits for, with what it needs to
/// take the answer or to undo the load when a refresh fails.
#[derive(Clone, Debug, PartialEq, Eq)]
pub struct HierarchyLoadRequest {
    pub request_id: u64,
    pub node_id: NodeId,
    pub query: HierarchyQuery,
    pub cache_policy: CachePolicy,
    pub previous_load_state: LoadState,
}

/// The branch of node `x` on one side.
pub open spec fn branch_of(m: RelationModel, x: NodeId, direction: HierarchyDirection) -> BranchView {
    node_branch(node_of(m, x.0), direction)
}

/// The model with the branch of node `x` on one side replaced.
pub open spec fn branch_set(m: RelationModel, x: NodeId, direction: HierarchyDirection, b: BranchView) -> RelationModel {
    RelationModel { nodes: m.nodes.insert(m.index_of[x.0], with_branch(node_of(m, x.0), direction, b)), ..m }
}

/// A branch while a fetch with id `request_id` is in flight.
pub open spec fn loading(b: BranchView, expand: bool, request_id: u64) -> BranchView {
    BranchView {
        load_state: LoadState::Loading,
        expanded: expand || b.expanded,
        failure: None,
        active_request_id: Some(request_id),
        ..b
    }
}

/// The state a failed refresh goes back to: a load in flight counts as
/// done when the branch has neighbours, else as never started.
pub open spec fn state_before(b: BranchView) -> LoadState {
    match b.load_state {
        LoadState::Loading => if b.neighbors.len() == 0 {
            LoadState::NotLoaded
        } else {
            LoadState::Loaded
        },
        s => s,
    }
}

/// The request id after `n`, wrapping around.
pub open spec fn after(n: u64) -> u64 {
    if n == u64::MAX {
        0
    } else {
        (n + 1) as u64
    }
}

/// The request starts a fetch of the branch of `node_id` on `direction`
/// for `identity`, under id `request_id`.
pub open spec fn requests(
    q: HierarchyLoadRequest,
    request_id: u64,
    node_id: NodeId,
    identity: IdentityView,
    direction: HierarchyDirection,
    cache_policy: CachePolicy,
    previous: LoadState,
) -> bool {
    &&& q.request_id == request_id
    &&& q.node_id == node_id
    &&& q.query.symbol@ == identity
    &&& q.query.direction == direction
    &&& q.cache_policy == cache_policy
    &&& q.previous_load_state == previous
}

/// Replaces the branch of a node of the graph on one side.
fn write_branch(graph: &mut RelationGraph, x: NodeId, direction: HierarchyDirection, b: GraphBranch)
    requires
        old(graph).well_formed(),
        live(old(graph)@, x.0),
    ensures
        final(graph).well_formed(),
        final(graph).nodes_used() == old(graph).nodes_used(),
        final(graph).edges_used() == old(graph).edges_used(),
        final(graph)@ == branch_set(old(graph)@, x, direction, b@),
{
    proof {
        crate::relation::lemma_live_resolves(graph, x.0);
    }
    match graph.node_mut(x) {
        Some(node) => {
            match direction {
                HierarchyDirection::Incoming => {
                    node.incoming = b;
                },
                HierarchyDirection::Outgoing => {
                    node.outgoing = b;
                },
            }
        },
        None => {},
    }
}

/// The branch of a node of the graph on one side, as a copy.
fn read_branch(graph: &RelationGraph, x: NodeId, direction: HierarchyDirection) -> (r: GraphBranch)
    requires
        graph.well_formed(),
        live(graph@, x.0),
    ensures
        r@ == branch_of(graph@, x, direction),
{
    proof {
        crate::relation::lemma_live_resolves(graph, x.0);
    }
    match graph.node(x) {
        Some(node) => copy_branch(node.branch(direction)),
        None => GraphBranch::default(),
    }
}

/// The identity of a node of the graph.
fn read_identity(graph: &RelationGraph, x: NodeId) -> (r: SymbolIdentity)
    requires
        graph.well_formed(),
        live(graph@, x.0),
    ensures
        r@ == node_identity(node_of(graph@, x.0)),
{
    proof {
        crate::relation::lemma_live_resolves(graph, x.0);
    }
    match graph.node(x) {
        Some(node) => node.identity(),
        None => SymbolIdentity { symbol: String::new(), kind: crate::state::HierarchyKind::Call, location: None },
    }
}

impl App {
    /// Starts a fetch of the branch of a node on one side: the branch is
    /// loading under a fresh request id, shown when `expand`, and its last
    /// failure goes. `None` when the id stands for no node; the request id
    /// is used up either way.
    pub fn begin_hierarchy_load(
        &mut self,
        node_id: NodeId,
        identity: SymbolIdentity,
        direction: HierarchyDirection,
        cache_policy: CachePolicy,
        expand: bool,
    ) -> (r: Option<HierarchyLoadRequest>)
        requires
            old(self).well_formed(),
        ensures
            final(self).well_formed(),
            final(self).graph.nodes_used() == old(self).graph.nodes_used(),
            final(self).graph.edges_used() == old(self).graph.edges_used(),
            final(self).next_hierarchy_request_id == after(old(self).next_hierarchy_request_id),
            match resolve(old(self).graph@, node_id) {
                None => r is None && final(self).graph@ == old(self).graph@,
                Some(x) => r matches Some(q) && requests(
                    q,
                    old(self).next_hierarchy_request_id,
                    node_id,
                    identity@,
                    direction,
                    cache_policy,
                    state_before(branch_of(old(self).graph@, x, direction)),
                ) && final(self).graph@ == branch_set(
                    old(self).graph@,
                    x,
                    direction,
                    loading(branch_of(old(self).graph@, x, direction), expand, old(self).next_hierarchy_request_id),
                ),
            },
            final(self).selected == old(self).selected,
            final(self).viewport == old(self).viewport,
            kept(App { next_hierarchy_request_id: final(self).next_hierarchy_request_id, ..*old(self) }, *final(self)),
            quiet(*old(self), *final(self)),
    {
        let request_id = self.next_hierarchy_request_id;
        self.next_hierarchy_request_id = if request_id == u64::MAX {
            0
        } else {
            request_id + 1
        };
        let x = match self.graph.resolve_id(node_id) {
            Some(x) => x,
            None => {
                return None;
            },
        };
        proof {
            crate::relation::lemma_follow_live(
                self.graph@.redirects,
                self.graph@.index_of.dom(),
                node_id.0,
                self.graph@.redirects.dom().len(),
            );
        }
        let mut branch = read_branch(&self.graph, x, direction);
        let previous_load_state = match branch.load_state {
            LoadState::Loading => if branch.neighbors.len() == 0 {
                LoadState::NotLoaded
            } else {
                LoadState::Loaded
            },
            s => s,
        };
        branch.load_state = LoadState::Loading;
        if expand {
            branch.expanded = true;
        }
        branch.failure = None;
        branch.active_request_id = Some(request_id);
        write_branch(&mut self.graph, x, direction, branch);
        Some(HierarchyLoadRequest {
            request_id,
            node_id,
            query: HierarchyQuery { symbol: identity, direction },
            cache_policy,
            previous_load_state,
        })
    }
}

/// A branch that cannot be fetched because no analysis provider runs.
pub open spec fn unavailable(b: BranchView) -> BranchView {
    BranchView {
        load_state: LoadState::Failed,
        expanded: false,
        failure: Some(no_provider_failure()),
        active_request_id: None,
        ..b
    }
}

/// The failure a branch keeps when no analysis provider runs.
pub open spec fn no_provider_failure() -> Seq<char> {
    "Hierarchy requires an available LSP server"@
}

/// What the canvas says when a branch cannot be fetched for `symbol`.
pub open spec fn unavailable_text(symbol: Seq<char>) -> Seq<char> {
    "Hierarchy query unavailable for "@ + symbol + ": no analysis provider"@
}

/// What the canvas says when a refresh is asked for without a provider.
pub open spec fn refresh_unavailable_text() -> Seq<char> {
    "Refresh requires an available LSP server"@
}

/// What toggling the branch of node `x` does, and the request it starts
/// when the branch has to be fetched.
pub open spec fn toggled_branch(
    a: App,
    b: App,
    x: NodeId,
    direction: HierarchyDirection,
    hierarchy_available: bool,
    r: Option<HierarchyLoadRequest>,
) -> bool {
    let branch = branch_of(a.graph@, x, direction);
    if branch.neighbors.len() > 0 || branch.load_state == LoadState::Loading {
        &&& r is None
        &&& b.graph@ == branch_set(a.graph@, x, direction, BranchView { expanded: !branch.expanded, ..branch })
        &&& b.next_hierarchy_request_id == a.next_hierarchy_request_id
        &&& quiet(a, b)
    } else if branch.load_state == LoadState::Loaded {
        &&& r is None
        &&& b.graph@ == a.graph@
        &&& b.next_hierarchy_request_id == a.next_hierarchy_request_id
        &&& quiet(a, b)
    } else if !hierarchy_available {
        &&& r is None
        &&& b.graph@ == branch_set(a.graph@, x, direction, unavailable(branch))
        &&& b.next_hierarchy_request_id == a.next_hierarchy_request_id
        &&& noticed(a, b, unavailable_text(node_of(a.graph@, x.0).symbol), true)
    } else {
        &&& r matches Some(q) && requests(
            q,
            a.next_hierarchy_request_id,
            x,
            node_identity(node_of(a.graph@, x.0)),
            direction,
            CachePolicy::UseCache,
            state_before(branch),
        )
        &&& b.graph@ == branch_set(a.graph@, x, direction, loading(branch, true, a.next_hierarchy_request_id))
        &&& b.next_hierarchy_request_id == after(a.next_hierarchy_request_id)
        &&& quiet(a, b)
    }
}

/// What forgetting a branch of the selected node does.
pub open spec fn branch_deleted(a: App, b: App, direction: HierarchyDirection, r: bool) -> bool {
    &&& b.graph.nodes_used() == a.graph.nodes_used()
    &&& b.graph.edges_used() == a.graph.edges_used()
    &&& b.selected == a.selected
    &&& b.viewport == a.viewport
    &&& kept(a, b)
    &&& match a.selected {
                    None => !r && b.graph@ == a.graph@ && quiet(a, b),
                    Some(s) => match resolve(a.graph@, s) {
                        None => !r && b.graph@ == a.graph@ && quiet(a, b),
                        Some(x) => r && crate::relation::branch_cleared(a.graph@, b.graph@, x, direction)
                            && unnoticed(a, b),
                    },
                }
}

/// What toggling a branch of the selected node does.
pub open spec fn selected_branch_toggled(a: App, b: App, direction: HierarchyDirection, hierarchy_available: bool, r: Option<HierarchyLoadRequest>) -> bool {
    &&& b.graph.nodes_used() == a.graph.nodes_used()
    &&& b.graph.edges_used() == a.graph.edges_used()
    &&& b.viewport == a.viewport
    &&& kept(App { next_hierarchy_request_id: b.next_hierarchy_request_id, ..a }, b)
    &&& match a.selected {
                    None => r is None && b.graph@ == a.graph@ && b.selected
                        == a.selected && b.next_hierarchy_request_id
                        == a.next_hierarchy_request_id && quiet(a, b),
                    Some(s) => match resolve(a.graph@, s) {
                        None => r is None && b.graph@ == a.graph@ && b.selected
                            == a.selected && b.next_hierarchy_request_id
                            == a.next_hierarchy_request_id && quiet(a, b),
                        Some(x) => b.selected == Some(x) && toggled_branch(
                            a,
                            b,
                            x,
                            direction,
                            hierarchy_available,
                            r,
                        ),
                    },
                }
}

/// What refreshing both branches of the selected node does.
pub open spec fn branches_refreshed(a: App, b: App, hierarchy_available: bool, r: Vec<HierarchyLoadRequest>) -> bool {
    &&& b.graph.nodes_used() == a.graph.nodes_used()
    &&& b.graph.edges_used() == a.graph.edges_used()
    &&& b.viewport == a.viewport
    &&& kept(App { next_hierarchy_request_id: b.next_hierarchy_request_id, ..a }, b)
    &&& match a.selected {
                    None => r@.len() == 0 && b.graph@ == a.graph@ && b.selected
                        == a.selected && b.next_hierarchy_request_id
                        == a.next_hierarchy_request_id && quiet(a, b),
                    Some(s) => match resolve(a.graph@, s) {
                        None => r@.len() == 0 && b.graph@ == a.graph@ && b.selected
                            == a.selected && b.next_hierarchy_request_id
                            == a.next_hierarchy_request_id && quiet(a, b),
                        Some(x) => b.selected == Some(x) && if !hierarchy_available {
                            &&& r@.len() == 0
                            &&& b.graph@ == a.graph@
                            &&& b.next_hierarchy_request_id == a.next_hierarchy_request_id
                            &&& noticed(a, b, refresh_unavailable_text(), false)
                        } else {
                            let n0 = a.next_hierarchy_request_id;
                            let m0 = a.graph@;
                            let incoming = branch_of(m0, x, HierarchyDirection::Incoming);
                            let outgoing = branch_of(m0, x, HierarchyDirection::Outgoing);
                            let identity = node_identity(node_of(m0, x.0));
                            &&& r@.len() == 2
                            &&& requests(r@[0], n0, x, identity, HierarchyDirection::Incoming, CachePolicy::Refresh, state_before(incoming))
                            &&& requests(r@[1], after(n0), x, identity, HierarchyDirection::Outgoing, CachePolicy::Refresh, state_before(outgoing))
                            &&& b.graph@ == branch_set(
                                branch_set(m0, x, HierarchyDirection::Incoming, loading(incoming, false, n0)),
                                x,
                                HierarchyDirection::Outgoing,
                                loading(outgoing, false, after(n0)),
                            )
                            &&& b.next_hierarchy_request_id == after(after(n0))
                            &&& unnoticed(a, b)
                        },
                    },
                }
}

/// What toggling a branch of a node does.
pub open spec fn node_branch_toggled(a: App, b: App, node_id: NodeId, direction: HierarchyDirection, hierarchy_available: bool, r: Option<HierarchyLoadRequest>) -> bool {
    &&& b.graph.nodes_used() == a.graph.nodes_used()
    &&& b.graph.edges_used() == a.graph.edges_used()
    &&& b.viewport == a.viewport
    &&& kept(App { next_hierarchy_request_id: b.next_hierarchy_request_id, ..a }, b)
    &&& match resolve(a.graph@, node_id) {
                    None => r is None && b.graph@ == a.graph@ && b.selected
                        == a.selected && b.next_hierarchy_request_id
                        == a.next_hierarchy_request_id && quiet(a, b),
                    Some(x) => b.selected == Some(x) && toggled_branch(
                        a,
                        b,
                        x,
                        direction,
                        hierarchy_available,
                        r,
                    ),
                }
}

impl App {
    /// Toggles the branch of a node on one side and selects the node: a
    /// branch with neighbours, or one still loading, is shown or hidden; a
    /// loaded empty branch stays; any other branch is fetched, or fails at
    /// once when no analysis provider runs. `None` also when the id stands
    /// for no node, and then nothing changes.
    pub fn toggle_node_branch(
        &mut self,
        node_id: NodeId,
        direction: HierarchyDirection,
        hierarchy_available: bool,
    ) -> (r: Option<HierarchyLoadRequest>)
        requires
            old(self).well_formed(),
        ensures
            final(self).well_formed(),
            node_branch_toggled(*old(self), *final(self), node_id, direction, hierarchy_available, r),
    {
        let x = match self.graph.resolve_id(node_id) {
            Some(x) => x,
            None => {
                return None;
            },
        };
        proof {
            crate::relation::lemma_follow_live(
                self.graph@.redirects,
                self.graph@.index_of.dom(),
                node_id.0,
                self.graph@.redirects.dom().len(),
            );
        }
        self.selected = Some(x);
        let identity = read_identity(&self.graph, x);
        let mut branch = read_branch(&self.graph, x, direction);
        if branch.can_toggle() || branch.load_state == LoadState::Loading {
            branch.expanded = !branch.expanded;
            write_branch(&mut self.graph, x, direction, branch);
            return None;
        }
        if branch.load_state == LoadState::Loaded {
            return None;
        }
        if !hierarchy_available {
            let head = append_text("Hierarchy query unavailable for ".to_string(), identity.symbol.as_str());
            let message = append_text(head, ": no analysis provider");
            branch.load_state = LoadState::Failed;
            branch.expanded = false;
            branch.failure = Some("Hierarchy requires an available LSP server".to_string());
            branch.active_request_id = None;
            write_branch(&mut self.graph, x, direction, branch);
            self.set_canvas_error(message);
            return None;
        }
        proof {
            crate::relation::lemma_live_resolves(&self.graph, x.0);
        }
        self.begin_hierarchy_load(x, identity, direction, CachePolicy::UseCache, true)
    }

    /// Toggles the branch of the selected node on one side; `None`, with
    /// nothing changed, when no node is selected.
    pub fn toggle_selected_branch(
        &mut self,
        direction: HierarchyDirection,
        hierarchy_available: bool,
    ) -> (r: Option<HierarchyLoadRequest>)
        requires
            old(self).well_formed(),
        ensures
            final(self).well_formed(),
            selected_branch_toggled(*old(self), *final(self), direction, hierarchy_available, r),
    {
        match self.selected {
            Some(s) => self.toggle_node_branch(s, direction, hierarchy_available),
            None => None,
        }
    }

    /// Forgets the neighbours of the selected node on one side; `false`,
    /// with nothing changed, when no node is selected or it stands for none.
    pub fn delete_selected_branch(&mut self, direction: HierarchyDirection) -> (r: bool)
        requires
            old(self).well_formed(),
        ensures
            final(self).well_formed(),
            branch_deleted(*old(self), *final(self), direction, r),
    {
        let selected = match self.selected {
            Some(s) => s,
            None => {
                return false;
            },
        };
        let cleared = self.graph.clear_branch(selected, direction);
        if cleared {
            self.clear_canvas_notice();
        }
        cleared
    }

    /// Fetches both branches of the selected node again, keeping what they
    /// show until the answers come. Nothing when no node is selected; the
    /// canvas says so when no analysis provider runs.
    pub fn refresh_selected_branches(&mut self, hierarchy_available: bool) -> (r: Vec<HierarchyLoadRequest>)
        requires
            old(self).well_formed(),
        ensures
            final(self).well_formed(),
            branches_refreshed(*old(self), *final(self), hierarchy_available, r),
    {
        let x = match self.selected {
            Some(s) => match self.graph.resolve_id(s) {
                Some(x) => x,
                None => {
                    return Vec::new();
                },
            },
            None => {
                return Vec::new();
            },
        };
        proof {
            let s = old(self).selected.unwrap();
            crate::relation::lemma_follow_live(
                self.graph@.redirects,
                self.graph@.index_of.dom(),
                s.0,
                self.graph@.redirects.dom().len(),
            );
            crate::relation::lemma_live_resolves(&self.graph, x.0);
        }
        self.selected = Some(x);
        if !hierarchy_available {
            self.set_canvas_notice("Refresh requires an available LSP server".to_string());
            return Vec::new();
        }
        self.clear_canvas_notice();
        let identity = read_identity(&self.graph, x);
        let mut requests: Vec<HierarchyLoadRequest> = Vec::new();
        let ghost m0 = self.graph@;
        match self.begin_hierarchy_load(
            x,
            crate::state::copy_identity(&identity),
            HierarchyDirection::Incoming,
            CachePolicy::Refresh,
            false,
        ) {
            Some(q) => requests.push(q),
            None => {},
        }
        proof {
            crate::relation::lemma_live_resolves(&self.graph, x.0);
        }
        match self.begin_hierarchy_load(x, identity, HierarchyDirection::Outgoing, CachePolicy::Refresh, false) {
            Some(q) => requests.push(q),
            None => {},
        }
        requests
    }
}

/// Whether a symbol found at a location passes the filters: by its name
/// alone without a location, by its name and file path when the location
/// is a local file, and by the workspace-only default when it is another
/// URL; a location that is no URL passes.
pub open spec fn visible_candidate(
    symbol: Seq<char>,
    location: Option<LocationView>,
    filters: FilterConfigView,
    workspace: Seq<char>,
) -> bool {
    match location {
        None => !ignored_spec(filters.rules, filters.workspace_only, Some(symbol), None, workspace),
        Some(l) => match uri_file_path(l.uri) {
            None => true,
            Some(None) => !filters.workspace_only,
            Some(Some(p)) => !ignored_spec(filters.rules, filters.workspace_only, Some(symbol), Some(p), workspace),
        },
    }
}

/// Whether a symbol found at a location passes the filters.
pub fn candidate_is_visible(
    symbol: &str,
    location: Option<&SourceLocation>,
    filters: &FilterConfig,
    workspace: &str,
) -> (r: bool)
    ensures
        r == visible_candidate(
            symbol@,
            match location {
                Some(l) => Some(l@),
                None => None,
            },
            filters@,
            workspace@,
        ),
{
    let location = match location {
        Some(l) => l,
        None => {
            return !filters.is_ignored(Some(symbol), None, workspace);
        },
    };
    match file_path_of_uri(location.uri.as_str()) {
        None => true,
        Some(None) => !filters.workspace_only(),
        Some(Some(path)) => filters.is_visible_symbol_path(symbol, path.as_str(), workspace),
    }
}

/// The children that pass the filters, in order.
pub open spec fn kept_children(children: Seq<IdentityView>, filters: FilterConfigView, workspace: Seq<char>) -> Seq<IdentityView>
    decreases children.len(),
{
    if children.len() == 0 {
        seq![]
    } else {
        let prev = kept_children(children.drop_last(), filters, workspace);
        let c = children.last();
        if visible_candidate(c.symbol, c.location, filters, workspace) {
            prev.push(c)
        } else {
            prev
        }
    }
}

/// No more children pass the filters than there are.
proof fn lemma_kept_len(children: Seq<IdentityView>, filters: FilterConfigView, workspace: Seq<char>)
    ensures
        kept_children(children, filters, workspace).len() <= children.len(),
    decreases children.len(),
{
    if children.len() > 0 {
        lemma_kept_len(children.drop_last(), filters, workspace);
    }
}

/// The children that pass the filters.
fn visible_children(children: &Vec<SymbolIdentity>, filters: &FilterConfig, workspace: &str) -> (r: Vec<SymbolIdentity>)
    ensures
        identity_views(r@) == kept_children(identity_views(children@), filters@, workspace@),
        r@.len() <= children@.len(),
{
    let ghost all = identity_views(children@);
    let mut out: Vec<SymbolIdentity> = Vec::new();
    let mut i: usize = 0;
    assert(all.take(0) =~= Seq::<IdentityView>::empty());
    while i < children.len()
        invariant
            i <= children@.len(),
            all == identity_views(children@),
            identity_views(out@) == kept_children(all.take(i as int), filters@, workspace@),
        decreases children@.len() - i,
    {
        let child = &children[i];
        assert(all.take(i + 1).drop_last() =~= all.take(i as int));
        assert(all.take(i + 1).last() == child@);
        let location = match &child.location {
            Some(l) => Some(l),
            None => None,
        };
        if candidate_is_visible(child.symbol.as_str(), location, filters, workspace) {
            let ghost before = out@;
            out.push(copy_identity(child));
            assert(identity_views(out@) =~= identity_views(before).push(child@));
        }
        i = i + 1;
    }
    assert(all.take(children@.len() as int) =~= all);
    proof {
        lemma_kept_len(all, filters@, workspace@);
    }
    out
}

/// A branch once its fetch answered: loaded, without failure or request in
/// flight, and hidden when it has no neighbours.
pub open spec fn done(b: BranchView) -> BranchView {
    BranchView {
        load_state: LoadState::Loaded,
        failure: None,
        active_request_id: None,
        expanded: b.expanded && b.neighbors.len() > 0,
        ..b
    }
}

/// A branch whose fetch failed with `error`: a refresh goes back to the
/// state before it and stays shown, any other fetch fails and hides.
pub open spec fn failed_branch(b: BranchView, q: HierarchyLoadRequest, error: Seq<char>) -> BranchView {
    if q.cache_policy == CachePolicy::Refresh {
        BranchView { load_state: q.previous_load_state, failure: Some(error), active_request_id: None, ..b }
    } else {
        BranchView { load_state: LoadState::Failed, expanded: false, failure: Some(error), active_request_id: None, ..b }
    }
}

/// How a direction is named in a failure.
pub open spec fn direction_text(direction: HierarchyDirection) -> Seq<char> {
    match direction {
        HierarchyDirection::Incoming => "incoming/parent"@,
        HierarchyDirection::Outgoing => "outgoing/child"@,
    }
}

/// What the canvas says when a fetch failed.
pub open spec fn failed_text(symbol: Seq<char>, direction: HierarchyDirection, error: Seq<char>) -> Seq<char> {
    "Hierarchy query failed for "@ + symbol + " ("@ + direction_text(direction) + "): "@ + error
}

/// What the canvas says after Tree-sitter answered.
pub open spec fn tree_sitter_text() -> Seq<char> {
    "Tree-sitter: syntactic relations only; dynamic dispatch may be omitted"@
}

/// The number of children an answer brings.
pub open spec fn answer_size(result: Result<HierarchyResponse, String>) -> int {
    match result {
        Ok(response) => response.children@.len() as int,
        Err(_) => 0,
    }
}

/// What taking the answer to request `q` does: an answer that the branch no
/// longer waits for changes nothing; a failure marks the branch; a success
/// resolves the node to the answered identity and, if its branch still
/// waits, fills it with the children that pass the filters.
pub open spec fn finished(a: App, b: App, q: HierarchyLoadRequest, result: Result<HierarchyResponse, String>, r: bool) -> bool {
    let m = a.graph@;
    let direction = q.query.direction;
    match resolve(m, q.node_id) {
        None => !r && b.graph@ == m && b.selected == a.selected && quiet(a, b),
        Some(x) => if branch_of(m, x, direction).active_request_id != Some(q.request_id) {
            !r && b.graph@ == m && b.selected == a.selected && quiet(a, b)
        } else {
            match result {
                Err(e) => {
                    &&& r
                    &&& b.graph@ == branch_set(m, x, direction, failed_branch(branch_of(m, x, direction), q, e@))
                    &&& b.selected == a.selected
                    &&& noticed(a, b, failed_text(q.query.symbol.symbol@, direction, e@), true)
                },
                Ok(response) => exists|m1: RelationModel, y: NodeId|
                    #![trigger symbol_resolved(m, m1, x, response.query.symbol@, y)]
                    {
                        &&& symbol_resolved(m, m1, x, response.query.symbol@, y)
                        &&& live(m1, y.0)
                        &&& b.selected == (if a.selected == Some(x) {
                            Some(y)
                        } else {
                            a.selected
                        })
                        &&& if branch_of(m1, y, direction).active_request_id == Some(q.request_id) {
                            &&& r
                            &&& exists|m2: RelationModel, v: Seq<NodeId>|
                                #![trigger neighbors_replaced(m1, m2, y, direction, kept_children(identity_views(response.children@), a.filters@, a.workspace@), v)]
                                {
                                    &&& neighbors_replaced(
                                        m1,
                                        m2,
                                        y,
                                        direction,
                                        kept_children(identity_views(response.children@), a.filters@, a.workspace@),
                                        v,
                                    )
                                    &&& b.graph@ == branch_set(m2, y, direction, done(branch_of(m2, y, direction)))
                                }
                            &&& if response.source == FetchSource::TreeSitter {
                                noticed(a, b, tree_sitter_text(), false)
                            } else {
                                quiet(a, b)
                            }
                        } else {
                            !r && b.graph@ == m1 && quiet(a, b)
                        }
                    },
            }
        },
    }
}

/// Whether a branch waits for request `request_id`.
fn awaits(b: &GraphBranch, request_id: u64) -> (r: bool)
    ensures
        r == (b@.active_request_id == Some(request_id)),
{
    match b.active_request_id {
        Some(id) => id == request_id,
        None => false,
    }
}

impl App {
    /// Takes the answer to a hierarchy request; `false` when the answer
    /// came too late to be used.
    pub fn finish_hierarchy(&mut self, request: &HierarchyLoadRequest, result: Result<HierarchyResponse, String>) -> (r: bool)
        requires
            old(self).well_formed(),
            old(self).graph.room(answer_size(result), old(self).graph@.edges.len() + 1 + answer_size(result)),
        ensures
            final(self).well_formed(),
            final(self).viewport == old(self).viewport,
            kept(*old(self), *final(self)),
            finished(*old(self), *final(self), *request, result, r),
            final(self).graph.nodes_used() <= old(self).graph.nodes_used() + answer_size(result),
    {
        let x = match self.graph.resolve_id(request.node_id) {
            Some(x) => x,
            None => {
                return false;
            },
        };
        proof {
            crate::relation::lemma_follow_live(
                self.graph@.redirects,
                self.graph@.index_of.dom(),
                request.node_id.0,
                self.graph@.redirects.dom().len(),
            );
        }
        let direction = request.query.direction;
        let branch = read_branch(&self.graph, x, direction);
        if !awaits(&branch, request.request_id) {
            return false;
        }
        match result {
            Ok(response) => {
                let ghost a = *old(self);
                let ghost m = self.graph@;
                let HierarchyResponse { query, children, source } = response;
                let was_selected = match self.selected {
                    Some(s) => s == x,
                    None => false,
                };
                let ghost answered = query.symbol@;
                let y = match self.graph.resolve_symbol(x, query.symbol) {
                    Some(y) => y,
                    None => {
                        return false;
                    },
                };
                let ghost m1 = self.graph@;
                if was_selected {
                    self.selected = Some(y);
                }
                let waiting = read_branch(&self.graph, y, direction);
                if !awaits(&waiting, request.request_id) {
                    assert(symbol_resolved(m, m1, x, answered, y));
                    return false;
                }
                let kept_list = visible_children(&children, &self.filters, self.workspace.as_str());
                let ghost kept_views = identity_views(kept_list@);
                proof {
                    crate::relation::lemma_live_resolves(&self.graph, y.0);
                }
                let replaced = self.graph.replace_branch_neighbors(y, direction, kept_list);
                let ghost m2 = self.graph@;
                let ghost v = match replaced {
                    Some(v) => v@,
                    None => Seq::<NodeId>::empty(),
                };
                let mut filled = read_branch(&self.graph, y, direction);
                filled.active_request_id = None;
                filled.load_state = LoadState::Loaded;
                filled.failure = None;
                if filled.neighbors.len() == 0 {
                    filled.expanded = false;
                }
                write_branch(&mut self.graph, y, direction, filled);
                if source == FetchSource::TreeSitter {
                    self.set_canvas_notice(
                        "Tree-sitter: syntactic relations only; dynamic dispatch may be omitted".to_string(),
                    );
                }
                proof {
                    assert(neighbors_replaced(m1, m2, y, direction, kept_views, v));
                    assert(symbol_resolved(m, m1, x, answered, y));
                }
            },
            Err(error) => {
                let head = append_text("Hierarchy query failed for ".to_string(), request.query.symbol.symbol.as_str());
                let head = append_text(head, " (");
                let head = match direction {
                    HierarchyDirection::Incoming => append_text(head, "incoming/parent"),
                    HierarchyDirection::Outgoing => append_text(head, "outgoing/child"),
                };
                let head = append_text(head, "): ");
                let message = append_text(head, error.as_str());
                self.set_canvas_error(message);
                let mut failed = read_branch(&self.graph, x, direction);
                failed.active_request_id = None;
                if request.cache_policy == CachePolicy::Refresh {
                    failed.load_state = request.previous_load_state;
                } else {
                    failed.load_state = LoadState::Failed;
                    failed.expanded = false;
                }
                failed.failure = Some(error);
                write_branch(&mut self.graph, x, direction, failed);
            },
        }
        true
    }
}

/// A branch that a reload fetches again: one that was fetched or is being
/// fetched.
pub open spec fn refreshable(b: BranchView) -> bool {
    b.load_state == LoadState::Loaded || b.load_state == LoadState::Loading
}

/// The branches that a reload fetches again, node by node in the order
/// given, the incoming side first.
pub open spec fn targets_of(m: RelationModel, nodes: Seq<NodeId>) -> Seq<(NodeId, HierarchyDirection)>
    decreases nodes.len(),
{
    if nodes.len() == 0 {
        seq![]
    } else {
        let v = nodes.last();
        let a: Seq<(NodeId, HierarchyDirection)> = if refreshable(branch_of(m, v, HierarchyDirection::Incoming)) {
            seq![(v, HierarchyDirection::Incoming)]
        } else {
            seq![]
        };
        let b: Seq<(NodeId, HierarchyDirection)> = if refreshable(branch_of(m, v, HierarchyDirection::Outgoing)) {
            seq![(v, HierarchyDirection::Outgoing)]
        } else {
            seq![]
        };
        targets_of(m, nodes.drop_last()) + a + b
    }
}

/// The request id `k` places after `n`, wrapping around.
pub open spec fn wrapped(n: u64, k: int) -> u64 {
    ((n + k) % 0x1_0000_0000_0000_0000int) as u64
}

/// The nodes of a walk of everything reachable from the anchors.
pub open spec fn known_walk(m: RelationModel, nodes: Seq<NodeId>) -> bool {
    exists|edges: Seq<crate::graph::VisibleEdge>|
        #![trigger crate::relation::visible_ok(m, nodes, edges)]
        {
            &&& crate::relation::visible_ok(m, nodes, edges)
            &&& forall|i: int| 0 <= i < m.anchors.len() ==> nodes.contains(#[trigger] m.anchors[i])
            &&& forall|i: int| 0 <= i < nodes.len() ==> #[trigger] crate::relation::node_shown(m, nodes, edges, nodes[i], true)
            &&& crate::relation::walked(m, nodes, edges, true)
        }
}

/// What the canvas says after a reload without an analysis provider.
pub open spec fn reload_unavailable_text() -> Seq<char> {
    "Project config reloaded; graph refresh requires an analysis provider"@
}

/// What the canvas says after a reload that fetches `count` branches again.
pub open spec fn reload_text(count: nat) -> Seq<char> {
    if count == 0 {
        "Project config reloaded; no loaded graph branches to refresh"@
    } else {
        "Project config reloaded; refreshing "@ + crate::export::decimal(count) + " graph branches"@
    }
}

/// What a reload does with the branches `t` it found: without a provider
/// only the canvas says so; else each is fetched again under consecutive
/// request ids and every other branch stays.
pub open spec fn reloaded(
    a: App,
    b: App,
    t: Seq<(NodeId, HierarchyDirection)>,
    hierarchy_available: bool,
    r: Seq<HierarchyLoadRequest>,
) -> bool {
    let m = a.graph@;
    let n0 = a.next_hierarchy_request_id;
    if !hierarchy_available {
        &&& r.len() == 0
        &&& b.graph@ == m
        &&& b.next_hierarchy_request_id == n0
        &&& noticed(a, b, reload_unavailable_text(), false)
    } else {
        &&& r.len() == t.len()
        &&& forall|k: int|
            0 <= k < t.len() ==> #[trigger] requests(
                r[k],
                wrapped(n0, k),
                t[k].0,
                node_identity(node_of(m, t[k].0.0)),
                t[k].1,
                CachePolicy::Refresh,
                state_before(branch_of(m, t[k].0, t[k].1)),
            )
        &&& forall|k: int|
            0 <= k < t.len() ==> #[trigger] branch_of(b.graph@, t[k].0, t[k].1) == loading(
                branch_of(m, t[k].0, t[k].1),
                false,
                wrapped(n0, k),
            )
        &&& forall|y: u64, d: HierarchyDirection|
            live(m, y) && !t.contains((NodeId(y), d)) ==> #[trigger] branch_of(b.graph@, NodeId(y), d) == branch_of(m, NodeId(y), d)
        &&& only_branches_changed(m, b.graph@)
        &&& b.next_hierarchy_request_id == wrapped(n0, t.len() as int)
        &&& noticed(a, b, reload_text(t.len()), false)
    }
}

/// Only branches differ between the two models.
pub open spec fn only_branches_changed(m: RelationModel, m2: RelationModel) -> bool {
    &&& m2.index_of == m.index_of
    &&& m2.nodes.dom() == m.nodes.dom()
    &&& m2.edges == m.edges
    &&& m2.redirects == m.redirects
    &&& m2.anchors == m.anchors
    &&& m2.keys == m.keys
    &&& forall|y: u64| #[trigger]
        live(m, y) ==> node_of(m2, y) == (crate::graph::NodeView {
            incoming: node_of(m2, y).incoming,
            outgoing: node_of(m2, y).outgoing,
            ..node_of(m, y)
        })
}

/// Every branch that a reload finds belongs to one of the nodes walked, and
/// none is found twice.
proof fn lemma_targets(m: RelationModel, nodes: Seq<NodeId>)
    requires
        nodes.no_duplicates(),
    ensures
        targets_of(m, nodes).no_duplicates(),
        forall|k: int| 0 <= k < targets_of(m, nodes).len() ==> nodes.contains(#[trigger] targets_of(m, nodes)[k].0),
        forall|k: int| 0 <= k < targets_of(m, nodes).len() ==> refreshable(branch_of(m, #[trigger] targets_of(m, nodes)[k].0, targets_of(m, nodes)[k].1)),
    decreases nodes.len(),
{
    if nodes.len() > 0 {
        let init = nodes.drop_last();
        assert(init.no_duplicates()) by {
            assert forall|i: int, j: int| 0 <= i < j < init.len() implies init[i] != init[j] by {
                assert(init[i] == nodes[i] && init[j] == nodes[j]);
            }
        }
        lemma_targets(m, init);
        let prev = targets_of(m, init);
        let t = targets_of(m, nodes);
        let v = nodes.last();
        assert(!init.contains(v)) by {
            if init.contains(v) {
                let i = choose|i: int| 0 <= i < init.len() && init[i] == v;
                assert(nodes[i] == nodes[nodes.len() - 1]);
            }
        }
        assert forall|k: int| 0 <= k < t.len() implies nodes.contains(#[trigger] t[k].0) by {
            if k < prev.len() {
                assert(t[k] == prev[k]);
                let i = choose|i: int| 0 <= i < init.len() && init[i] == prev[k].0;
                assert(nodes[i] == init[i]);
            } else {
                assert(t[k].0 == v);
                assert(nodes[nodes.len() - 1] == v);
            }
        }
        assert forall|k: int| 0 <= k < t.len() implies refreshable(branch_of(m, #[trigger] t[k].0, t[k].1)) by {
            if k < prev.len() {
                assert(t[k] == prev[k]);
            }
        }
        assert forall|i: int, j: int| 0 <= i < j < t.len() implies t[i] != t[j] by {
            if j < prev.len() {
                assert(t[i] == prev[i] && t[j] == prev[j]);
            } else if i < prev.len() {
                assert(t[i] == prev[i]);
                assert(init.contains(prev[i].0));
                assert(t[j].0 == v);
            } else {
                assert(t[i].1 == HierarchyDirection::Incoming);
                assert(t[j].1 == HierarchyDirection::Outgoing);
            }
        }
    }
}

/// The request id after the one `k` places after `n` is `k + 1` places
/// after it.
proof fn lemma_wrapped_next(n: u64, k: int)
    requires
        0 <= k,
    ensures
        after(wrapped(n, k)) == wrapped(n, k + 1),
{
    let w = 0x1_0000_0000_0000_0000int;
    let q = (n + k) / w;
    assert((n + k) == q * w + (n + k) % w);
    assert((n + k + 1) == q * w + ((n + k) % w + 1));
    if (n + k) % w == w - 1 {
        vstd::arithmetic::div_mod::lemma_fundamental_div_mod_converse(n + k + 1, w, q + 1, 0);
    } else {
        vstd::arithmetic::div_mod::lemma_fundamental_div_mod_converse(n + k + 1, w, q, (n + k) % w + 1);
    }
}

/// Replacing one branch leaves every other branch as it was.
proof fn lemma_branch_set(m: RelationModel, x: NodeId, d: HierarchyDirection, b: BranchView, y: NodeId, e: HierarchyDirection)
    requires
        y != x ==> m.index_of[y.0] != m.index_of[x.0],
    ensures
        (y, e) != (x, d) ==> branch_of(branch_set(m, x, d, b), y, e) == branch_of(m, y, e),
        branch_of(branch_set(m, x, d, b), x, d) == b,
{
}

impl App {
    /// Takes new filters and fetches again every branch reachable from the
    /// anchors that was fetched or is being fetched, so that the graph shows
    /// what the new filters let through; the canvas says how many.
    pub fn reload_filters(&mut self, filters: FilterConfig, hierarchy_available: bool) -> (r: Vec<HierarchyLoadRequest>)
        requires
            old(self).well_formed(),
        ensures
            final(self).well_formed(),
            final(self).graph.nodes_used() == old(self).graph.nodes_used(),
            final(self).graph.edges_used() == old(self).graph.edges_used(),
            final(self).filters@ == filters@,
            final(self).selected == old(self).selected,
            final(self).viewport == old(self).viewport,
            kept(
                App {
                    filters: final(self).filters,
                    next_hierarchy_request_id: final(self).next_hierarchy_request_id,
                    ..*old(self)
                },
                *final(self),
            ),
            exists|nodes: Seq<NodeId>|
                #![trigger known_walk(old(self).graph@, nodes)]
                known_walk(old(self).graph@, nodes) && reloaded(
                    *old(self),
                    *final(self),
                    targets_of(old(self).graph@, nodes),
                    hierarchy_available,
                    r@,
                ),
    {
        self.filters = filters;
        let ghost a = *old(self);
        let ghost m0 = self.graph@;
        let ghost n0 = self.next_hierarchy_request_id;
        let known = self.graph.known_graph();
        let ghost nodes = known.nodes@;
        proof {
            assert(crate::relation::visible_ok(m0, nodes, known.edges@));
            assert(known_walk(m0, nodes));
            lemma_targets(m0, nodes);
        }
        let ghost t = targets_of(m0, nodes);
        let mut targets: Vec<(NodeId, SymbolIdentity, HierarchyDirection)> = Vec::new();
        let mut i: usize = 0;
        assert(nodes.take(0) =~= Seq::<NodeId>::empty());
        while i < known.nodes.len()
            invariant
                self.well_formed(),
                self.graph@ == m0,
                nodes == known.nodes@,
                crate::relation::visible_ok(m0, nodes, known.edges@),
                i <= nodes.len(),
                targets@.len() == targets_of(m0, nodes.take(i as int)).len(),
                forall|k: int| 0 <= k < targets@.len() ==> (#[trigger] targets@[k]).0 == targets_of(m0, nodes.take(i as int))[k].0
                    && targets@[k].2 == targets_of(m0, nodes.take(i as int))[k].1
                    && targets@[k].1@ == node_identity(node_of(m0, targets@[k].0.0)),
            decreases nodes.len() - i,
        {
            let v = known.nodes[i];
            assert(live(m0, nodes[i as int].0));
            assert(nodes.take(i + 1).drop_last() =~= nodes.take(i as int));
            assert(nodes.take(i + 1).last() == v);
            let ghost before = targets@;
            let ghost prev = targets_of(m0, nodes.take(i as int));
            let incoming = read_branch(&self.graph, v, HierarchyDirection::Incoming);
            let outgoing = read_branch(&self.graph, v, HierarchyDirection::Outgoing);
            if incoming.load_state == LoadState::Loaded || incoming.load_state == LoadState::Loading {
                targets.push((v, read_identity(&self.graph, v), HierarchyDirection::Incoming));
            }
            if outgoing.load_state == LoadState::Loaded || outgoing.load_state == LoadState::Loading {
                targets.push((v, read_identity(&self.graph, v), HierarchyDirection::Outgoing));
            }
            proof {
                let now = targets_of(m0, nodes.take(i + 1));
                assert forall|k: int| 0 <= k < targets@.len() implies (#[trigger] targets@[k]).0 == now[k].0
                    && targets@[k].2 == now[k].1 && targets@[k].1@ == node_identity(node_of(m0, targets@[k].0.0)) by {
                    if k < before.len() {
                        assert(targets@[k] == before[k]);
                        assert(now[k] == prev[k]);
                    }
                }
            }
            i = i + 1;
        }
        assert(nodes.take(nodes.len() as int) =~= nodes);
        if !hierarchy_available {
            self.set_canvas_notice(
                "Project config reloaded; graph refresh requires an analysis provider".to_string(),
            );
            assert(reloaded(a, *self, t, hierarchy_available, Seq::<HierarchyLoadRequest>::empty()));
            return Vec::new();
        }
        let mut out: Vec<HierarchyLoadRequest> = Vec::new();
        let mut j: usize = 0;
        proof {
            assert(wrapped(n0, 0) == n0) by {
                vstd::arithmetic::div_mod::lemma_small_mod(n0 as nat, 0x1_0000_0000_0000_0000nat);
            }
        }
        while j < targets.len()
            invariant
                self.well_formed(),
                self.graph.nodes_used() == old(self).graph.nodes_used(),
                self.graph.edges_used() == old(self).graph.edges_used(),
                j <= targets@.len(),
                targets@.len() == t.len(),
                t.no_duplicates(),
                forall|k: int| 0 <= k < t.len() ==> nodes.contains(#[trigger] t[k].0),
                forall|k: int| 0 <= k < nodes.len() ==> #[trigger] live(m0, nodes[k].0),
                forall|k: int| 0 <= k < targets@.len() ==> (#[trigger] targets@[k]).0 == t[k].0
                    && targets@[k].2 == t[k].1 && targets@[k].1@ == node_identity(node_of(m0, targets@[k].0.0)),
                self.next_hierarchy_request_id == wrapped(n0, j as int),
                out@.len() == j,
                only_branches_changed(m0, self.graph@),
                forall|k: int| 0 <= k < j ==> #[trigger] requests(
                    out@[k],
                    wrapped(n0, k),
                    t[k].0,
                    node_identity(node_of(m0, t[k].0.0)),
                    t[k].1,
                    CachePolicy::Refresh,
                    state_before(branch_of(m0, t[k].0, t[k].1)),
                ),
                forall|k: int| 0 <= k < j ==> #[trigger] branch_of(self.graph@, t[k].0, t[k].1) == loading(
                    branch_of(m0, t[k].0, t[k].1),
                    false,
                    wrapped(n0, k),
                ),
                forall|y: u64, d: HierarchyDirection|
                    live(m0, y) && !t.take(j as int).contains((NodeId(y), d)) ==> #[trigger] branch_of(self.graph@, NodeId(y), d) == branch_of(m0, NodeId(y), d),
                self.selected == old(self).selected,
                self.viewport == old(self).viewport,
                self.filters@ == filters@,
                kept(App { filters: self.filters, next_hierarchy_request_id: self.next_hierarchy_request_id, ..*old(self) }, *self),
                quiet(*old(self), *self),
            decreases targets@.len() - j,
        {
            let node_id = targets[j].0;
            let direction = targets[j].2;
            let identity = copy_identity(&targets[j].1);
            let ghost g0 = self.graph@;
            let ghost before = out@;
            proof {
                assert(targets@[j as int].0 == t[j as int].0);
                let p = choose|p: int| 0 <= p < nodes.len() && nodes[p] == t[j as int].0;
                assert(live(m0, nodes[p].0));
                assert(live(g0, node_id.0));
                crate::relation::lemma_live_resolves(&self.graph, node_id.0);
                crate::relation::lemma_live_has_node(&self.graph);
                assert(g0.nodes.contains_key(g0.index_of[node_id.0]));
                assert(branch_of(g0, node_id, direction) == branch_of(m0, node_id, direction)) by {
                    if t.take(j as int).contains((node_id, direction)) {
                        let k = choose|k: int| 0 <= k < j && t.take(j as int)[k] == (node_id, direction);
                        assert(t[k] == t[j as int]);
                    }
                }
                lemma_wrapped_next(n0, j as int);
            }
            match self.begin_hierarchy_load(node_id, identity, direction, CachePolicy::Refresh, false) {
                Some(q) => out.push(q),
                None => {},
            }
            proof {
                let g1 = self.graph@;
                assert(resolve(g0, node_id) == Some(node_id));
                assert(g1 == branch_set(g0, node_id, direction, loading(branch_of(g0, node_id, direction), false, wrapped(n0, j as int))));
                assert(out@.len() == j + 1);
                assert forall|k: int| 0 <= k < j + 1 implies #[trigger] requests(
                    out@[k],
                    wrapped(n0, k),
                    t[k].0,
                    node_identity(node_of(m0, t[k].0.0)),
                    t[k].1,
                    CachePolicy::Refresh,
                    state_before(branch_of(m0, t[k].0, t[k].1)),
                ) by {
                    if k < j {
                        assert(out@[k] == before[k]);
                    }
                }
                assert forall|y: u64| #[trigger] live(m0, y) implies node_of(g1, y) == (crate::graph::NodeView {
                    incoming: node_of(g1, y).incoming,
                    outgoing: node_of(g1, y).outgoing,
                    ..node_of(m0, y)
                }) by {
                    if y != node_id.0 {
                        crate::relation::lemma_index_injective(&self.graph, y, node_id.0);
                    }
                }
                assert forall|k: int| 0 <= k < j + 1 implies #[trigger] branch_of(g1, t[k].0, t[k].1) == loading(
                    branch_of(m0, t[k].0, t[k].1),
                    false,
                    wrapped(n0, k),
                ) by {
                    let pk = choose|p: int| 0 <= p < nodes.len() && nodes[p] == t[k].0;
                    assert(live(m0, nodes[pk].0));
                    if t[k].0 != node_id {
                        crate::relation::lemma_index_injective(&self.graph, t[k].0.0, node_id.0);
                    }
                    lemma_branch_set(g0, node_id, direction, loading(branch_of(g0, node_id, direction), false, wrapped(n0, j as int)), t[k].0, t[k].1);
                    if k < j {
                        assert(t[k] != t[j as int]);
                    }
                }
                assert forall|y: u64, d: HierarchyDirection|
                    live(m0, y) && !t.take(j + 1).contains((NodeId(y), d)) implies #[trigger] branch_of(g1, NodeId(y), d) == branch_of(m0, NodeId(y), d) by {
                    assert(t.take(j + 1)[j as int] == t[j as int]);
                    if t.take(j as int).contains((NodeId(y), d)) {
                        let k = choose|k: int| 0 <= k < j && t.take(j as int)[k] == (NodeId(y), d);
                        assert(t.take(j + 1)[k] == (NodeId(y), d));
                    }
                    if y != node_id.0 {
                        crate::relation::lemma_index_injective(&self.graph, y, node_id.0);
                    }
                    lemma_branch_set(g0, node_id, direction, loading(branch_of(g0, node_id, direction), false, wrapped(n0, j as int)), NodeId(y), d);
                }
                assert(g1.nodes.dom() =~= m0.nodes.dom());
            }
            j = j + 1;
        }
        assert(t.take(t.len() as int) =~= t);
        let count = out.len();
        if count == 0 {
            self.set_canvas_notice("Project config reloaded; no loaded graph branches to refresh".to_string());
        } else {
            let number = crate::sources::decimal_text(count as u64);
            let head = append_text("Project config reloaded; refreshing ".to_string(), number.as_str());
            self.set_canvas_notice(append_text(head, " graph branches"));
        }
        assert(reloaded(a, *self, t, hierarchy_available, out@));
        out
    }
}

} // verus!
