use cgraph::export::{destination_error, render_text};
use cgraph::relation::RelationGraph;
use cgraph::state::{HierarchyDirection, HierarchyKind, SourceLocation, SymbolIdentity};

fn identity(symbol: &str, kind: HierarchyKind, line: u32) -> SymbolIdentity {
    SymbolIdentity {
        symbol: symbol.to_owned(),
        kind,
        location: Some(SourceLocation {
            uri: "file:///workspace/src/main.rs".to_owned(),
            line: Some(line),
            character: Some(0),
        }),
    }
}

#[test]
fn renders_stable_nodes_shared_edges_and_cycles() {
    let mut graph = RelationGraph::new();
    let root = graph.pin_symbol(identity("root", HierarchyKind::Call, 1));
    let left = graph
        .replace_branch_neighbors(
            root,
            HierarchyDirection::Outgoing,
            vec![identity("right", HierarchyKind::Call, 3), identity("left", HierarchyKind::Call, 2)],
        )
        .unwrap();
    let shared = graph
        .replace_branch_neighbors(left[0], HierarchyDirection::Outgoing, vec![identity("shared", HierarchyKind::Call, 4)])
        .unwrap()[0];
    graph.replace_branch_neighbors(left[1], HierarchyDirection::Outgoing, vec![identity("shared", HierarchyKind::Call, 4)]);
    graph.replace_branch_neighbors(shared, HierarchyDirection::Outgoing, vec![identity("root", HierarchyKind::Call, 1)]);
    graph.pin_symbol(identity("TypeA", HierarchyKind::Type, 10));

    let first = render_text(&graph);
    let second = render_text(&graph);
    assert_eq!(first, second);
    assert!(first.starts_with("cgraph graph · text v1\n\nNodes (5)\n"));
    assert_eq!(first.lines().filter(|line| line.contains("shared")).count(), 4);
    assert!(first.contains("] call  root  [anchor]"));
    assert!(first.contains("] type  TypeA  [anchor]"));
    assert!(first.contains("Relations (5)"));
    assert_eq!(first.matches("  →  ").count(), 5);
    assert!(first.contains("file:///workspace/src/main.rs:2:1"));
}

#[test]
fn rejects_empty_destination_paths() {
    assert_eq!(destination_error("").as_deref(), Some("destination path is empty"));
    assert_eq!(destination_error("graph.txt"), None);
}

#[test]
fn numbers_nodes_by_location_and_relations_by_their_ends() {
    let mut graph = RelationGraph::new();
    let root = graph.pin_symbol(identity("root", HierarchyKind::Call, 5));
    graph
        .replace_branch_neighbors(
            root,
            HierarchyDirection::Incoming,
            vec![identity("a\tb", HierarchyKind::Call, 1)],
        )
        .unwrap();
    let text = render_text(&graph);
    assert_eq!(
        text,
        "cgraph graph · text v1\n\nNodes (2)\n  [1] call  a\\tb\n      file:///workspace/src/main.rs:2:1\n  [2] call  root  [anchor]\n      file:///workspace/src/main.rs:6:1\n\nRelations (1)\n  [1] a\\tb  →  [2] root\n"
    );
}

#[test]
fn an_empty_graph_exports_only_the_headers() {
    let graph = RelationGraph::new();
    assert_eq!(render_text(&graph), "cgraph graph · text v1\n\nNodes (0)\n\nRelations (0)\n");
}
