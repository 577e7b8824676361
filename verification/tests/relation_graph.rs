use cgraph::graph::VisibleEdge;
use cgraph::relation::RelationGraph;
use cgraph::state::{HierarchyDirection, HierarchyKind, LoadState, SourceLocation, SymbolIdentity};

fn symbol(name: &str, line: u32) -> SymbolIdentity {
    SymbolIdentity {
        symbol: name.to_owned(),
        kind: HierarchyKind::Call,
        location: Some(SourceLocation {
            uri: "file:///workspace/src/lib.rs".to_owned(),
            line: Some(line),
            character: Some(0),
        }),
    }
}

#[test]
fn globally_deduplicates_diamond_nodes_without_losing_edges() {
    let mut graph = RelationGraph::default();
    let root = graph.pin_symbol(symbol("root", 0));
    graph
        .replace_branch_neighbors(root, HierarchyDirection::Outgoing, vec![symbol("left", 1), symbol("right", 2)])
        .unwrap();
    graph.node_mut(root).unwrap().outgoing.expanded = true;
    let left = graph.node(root).unwrap().outgoing.neighbors[0];
    let right = graph.node(root).unwrap().outgoing.neighbors[1];
    let shared_from_left = graph
        .replace_branch_neighbors(left, HierarchyDirection::Outgoing, vec![symbol("shared", 3)])
        .unwrap()[0];
    let shared_from_right = graph
        .replace_branch_neighbors(right, HierarchyDirection::Outgoing, vec![symbol("shared", 3)])
        .unwrap()[0];
    graph.node_mut(left).unwrap().outgoing.expanded = true;
    graph.node_mut(right).unwrap().outgoing.expanded = true;

    assert_eq!(shared_from_left, shared_from_right);
    assert_eq!(graph.node_count(), 4);
    assert_eq!(graph.edge_count(), 4);
    let visible = graph.visible_graph();
    assert_eq!(visible.nodes.len(), 4);
    assert_eq!(visible.edges.len(), 4);
}

#[test]
fn merges_the_same_edge_observed_from_both_directions() {
    let mut graph = RelationGraph::default();
    let caller = graph.pin_symbol(symbol("caller", 0));
    let callee = graph.insert_symbol(symbol("callee", 1));
    graph
        .replace_branch_neighbors(caller, HierarchyDirection::Outgoing, vec![symbol("callee", 1)])
        .unwrap();
    graph
        .replace_branch_neighbors(callee, HierarchyDirection::Incoming, vec![symbol("caller", 0)])
        .unwrap();

    assert_eq!(graph.edge_count(), 1);
}

#[test]
fn traverses_cycles_once_and_preserves_the_closing_edge() {
    let mut graph = RelationGraph::default();
    let first = graph.pin_symbol(symbol("first", 0));
    let second = graph
        .replace_branch_neighbors(first, HierarchyDirection::Outgoing, vec![symbol("second", 1)])
        .unwrap()[0];
    let third = graph
        .replace_branch_neighbors(second, HierarchyDirection::Outgoing, vec![symbol("third", 2)])
        .unwrap()[0];
    graph
        .replace_branch_neighbors(third, HierarchyDirection::Outgoing, vec![symbol("first", 0)])
        .unwrap();
    for node_id in [first, second, third] {
        graph.node_mut(node_id).unwrap().outgoing.expanded = true;
    }

    let visible = graph.visible_graph();
    assert_eq!(visible.nodes.len(), 3);
    assert_eq!(visible.edges.len(), 3);
    assert!(visible.edges.contains(&VisibleEdge { source: third, target: first }));
}

#[test]
fn represents_a_self_loop_without_creating_an_extra_node() {
    let mut graph = RelationGraph::default();
    let node = graph.pin_symbol(symbol("recursive", 0));
    graph
        .replace_branch_neighbors(node, HierarchyDirection::Outgoing, vec![symbol("recursive", 0)])
        .unwrap();
    graph.node_mut(node).unwrap().outgoing.expanded = true;

    assert_eq!(graph.node_count(), 1);
    assert_eq!(graph.edge_count(), 1);
    assert_eq!(graph.visible_graph().edges, [VisibleEdge { source: node, target: node }]);
}

#[test]
fn keeps_same_named_symbols_at_different_locations_separate() {
    let mut graph = RelationGraph::default();
    let first = graph.insert_symbol(symbol("same", 1));
    let second = graph.insert_symbol(symbol("same", 2));

    assert_ne!(first, second);
    assert_eq!(graph.node_count(), 2);
}

#[test]
fn resolves_a_provisional_anchor_into_an_existing_semantic_node() {
    let mut graph = RelationGraph::default();
    let provisional = graph.pin_symbol(SymbolIdentity {
        symbol: "target".to_owned(),
        kind: HierarchyKind::Call,
        location: None,
    });
    let existing = graph.insert_symbol(symbol("Module::target", 4));

    let resolved = graph.resolve_symbol(provisional, symbol("Module::target", 4)).unwrap();

    assert_eq!(resolved, existing);
    assert_eq!(graph.resolve_id(provisional), Some(existing));
    assert_eq!(graph.anchors(), [existing]);
    assert_eq!(graph.node_count(), 1);
}

#[test]
fn clearing_one_branch_keeps_an_edge_observed_by_the_other_endpoint() {
    let mut graph = RelationGraph::default();
    let caller = graph.pin_symbol(symbol("caller", 0));
    let callee = graph.insert_symbol(symbol("callee", 1));
    graph
        .replace_branch_neighbors(caller, HierarchyDirection::Outgoing, vec![symbol("callee", 1)])
        .unwrap();
    graph
        .replace_branch_neighbors(callee, HierarchyDirection::Incoming, vec![symbol("caller", 0)])
        .unwrap();

    assert!(graph.clear_branch(caller, HierarchyDirection::Outgoing));
    assert_eq!(graph.edge_count(), 1);
    assert_eq!(graph.node(caller).unwrap().outgoing.load_state, LoadState::NotLoaded);
    assert!(graph.clear_branch(callee, HierarchyDirection::Incoming));
    assert_eq!(graph.edge_count(), 0);
}

#[test]
fn known_graph_walks_collapsed_branches_too() {
    let mut graph = RelationGraph::default();
    let root = graph.pin_symbol(symbol("root", 0));
    graph
        .replace_branch_neighbors(root, HierarchyDirection::Outgoing, vec![symbol("child", 1)])
        .unwrap();
    assert_eq!(graph.visible_graph().nodes, [root]);
    assert_eq!(graph.known_graph().nodes.len(), 2);
    assert_eq!(graph.known_graph().edges.len(), 1);
}

#[test]
fn finds_every_node_with_a_name_and_kind() {
    let mut graph = RelationGraph::default();
    let first = graph.insert_symbol(symbol("same", 1));
    let second = graph.insert_symbol(symbol("same", 2));
    graph.insert_symbol(symbol("other", 3));
    let mut found = graph.nodes_named("same", HierarchyKind::Call);
    found.sort_by_key(|id| id.0);
    assert_eq!(found, [first, second]);
    assert!(graph.nodes_named("same", HierarchyKind::Type).is_empty());
}

#[test]
fn pinning_twice_keeps_one_anchor_and_unpinning_removes_it() {
    let mut graph = RelationGraph::default();
    let node = graph.insert_symbol(symbol("node", 1));
    assert!(graph.pin(node));
    assert!(graph.pin(node));
    assert_eq!(graph.anchors(), [node]);
    assert!(graph.unpin(node));
    assert!(!graph.unpin(node));
    assert!(graph.anchors().is_empty());
}
