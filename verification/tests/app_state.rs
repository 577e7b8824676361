use cgraph::app::{App, Command, SaveStatus};
use cgraph::filter::FilterConfig;
use cgraph::protocol::{CachePolicy, FetchSource, HierarchyResponse};
use cgraph::state::{HierarchyDirection, HierarchyKind, LoadState, NodeId, SourceLocation, SymbolIdentity, Viewport};
use cgraph::loads::HierarchyLoadRequest;

fn empty_app() -> App {
    App::from_cli(".".to_owned(), None)
}

fn call_app(symbol: &str) -> App {
    App::from_cli(".".to_owned(), Some(Command::Call { symbol: symbol.to_owned() }))
}

fn type_app(symbol: &str) -> App {
    App::from_cli(".".to_owned(), Some(Command::Type { symbol: symbol.to_owned() }))
}

fn identity(symbol: &str, kind: HierarchyKind) -> SymbolIdentity {
    SymbolIdentity {
        symbol: symbol.to_owned(),
        kind,
        location: Some(SourceLocation {
            uri: "file:///workspace/main.rs".to_owned(),
            line: Some(symbol.bytes().map(u32::from).sum()),
            character: Some(0),
        }),
    }
}

fn branch_names(app: &App, node_id: NodeId, direction: HierarchyDirection) -> Vec<String> {
    app.graph
        .node(node_id)
        .unwrap()
        .branch(direction)
        .neighbors
        .iter()
        .map(|neighbor| app.graph.node(*neighbor).unwrap().symbol.clone())
        .collect()
}

fn answer(request: &HierarchyLoadRequest, children: Vec<SymbolIdentity>, source: FetchSource) -> HierarchyResponse {
    HierarchyResponse { query: request.query.clone(), children, source }
}

#[test]
fn external_focus_reuses_semantic_nodes_and_rejects_ambiguous_names() {
    let mut app = empty_app();
    let first = identity("run", HierarchyKind::Call);
    let first_id = app.graph.insert_symbol(first.clone());
    app.viewport.offset_x = 17;

    assert_eq!(app.focus_symbol(first.clone()).unwrap(), first_id);
    assert_eq!(app.graph.node_count(), 1);
    assert_eq!(app.graph.anchors(), [first_id]);
    assert_eq!(app.selected, Some(first_id));
    assert_eq!(app.viewport, Viewport::default());

    let second = SymbolIdentity {
        symbol: "run".to_owned(),
        kind: HierarchyKind::Call,
        location: Some(SourceLocation {
            uri: "file:///workspace/src/other.rs".to_owned(),
            line: Some(3),
            character: Some(1),
        }),
    };
    app.graph.insert_symbol(second);
    let error = app
        .focus_symbol(SymbolIdentity { symbol: "run".to_owned(), kind: HierarchyKind::Call, location: None })
        .unwrap_err();
    assert!(error.contains("ambiguous"));
    assert_eq!(app.graph.node_count(), 2);

    let created = app
        .focus_symbol(SymbolIdentity { symbol: "new_type".to_owned(), kind: HierarchyKind::Type, location: None })
        .unwrap();
    assert_eq!(app.graph.node(created).unwrap().symbol, "new_type");
    assert!(app.graph.is_anchor(created));

    for location in [
        SourceLocation { uri: "file://".to_owned(), line: Some(0), character: Some(0) },
        SourceLocation { uri: "file:///workspace/src/main.py".to_owned(), line: Some(0), character: None },
    ] {
        let error = app
            .focus_symbol(SymbolIdentity {
                symbol: "invalid".to_owned(),
                kind: HierarchyKind::Call,
                location: Some(location),
            })
            .unwrap_err();
        assert!(error.contains("exact zero-based line/character"));
    }
}

#[test]
fn only_deletes_selected_anchors_and_selects_a_remaining_anchor() {
    let mut app = empty_app();
    let first_root = app.graph.pin_symbol(identity("first", HierarchyKind::Call));
    let child_id = app
        .graph
        .replace_branch_neighbors(first_root, HierarchyDirection::Outgoing, vec![identity("child", HierarchyKind::Call)])
        .unwrap()[0];
    let second_root = app.graph.pin_symbol(identity("second", HierarchyKind::Type));
    app.selected = Some(child_id);

    assert!(!app.delete_selected_anchor());
    assert_eq!(app.canvas_notice.as_deref(), Some("Selected node is not an anchor"));
    assert_eq!(app.graph.anchors(), [first_root, second_root]);

    app.selected = Some(first_root);
    assert!(app.delete_selected_anchor());
    assert_eq!(app.graph.anchors(), [second_root]);
    assert_eq!(app.selected, Some(second_root));

    assert!(app.delete_selected_anchor());
    assert!(app.graph.anchors().is_empty());
    assert_eq!(app.selected, None);
}

#[test]
fn deletes_only_the_selected_nodes_requested_branch() {
    let mut app = empty_app();
    let selected = app.graph.pin_symbol(identity("root", HierarchyKind::Call));
    app.graph
        .replace_branch_neighbors(selected, HierarchyDirection::Incoming, vec![identity("caller", HierarchyKind::Call)])
        .unwrap();
    app.graph
        .replace_branch_neighbors(selected, HierarchyDirection::Outgoing, vec![identity("callee", HierarchyKind::Call)])
        .unwrap();
    app.selected = Some(selected);

    assert!(app.delete_selected_branch(HierarchyDirection::Incoming));
    assert!(app.graph.node(selected).unwrap().incoming.neighbors.is_empty());
    assert_eq!(app.graph.node(selected).unwrap().outgoing.neighbors.len(), 1);
}

#[test]
fn selects_nested_nodes_and_toggles_one_requested_branch() {
    let mut app = empty_app();
    let root = app.graph.pin_symbol(identity("root", HierarchyKind::Call));
    let child_id = app
        .graph
        .replace_branch_neighbors(root, HierarchyDirection::Incoming, vec![identity("child", HierarchyKind::Call)])
        .unwrap()[0];
    app.graph
        .replace_branch_neighbors(child_id, HierarchyDirection::Outgoing, vec![identity("grandchild", HierarchyKind::Call)])
        .unwrap();
    app.graph.node_mut(root).unwrap().incoming.expanded = true;

    assert!(app.select_node(child_id));
    assert_eq!(app.selected, Some(child_id));
    assert_eq!(app.toggle_selected_branch(HierarchyDirection::Outgoing, false), None);
    assert!(app.graph.node(child_id).unwrap().outgoing.expanded);
    assert!(!app.select_node(NodeId(u64::MAX)));
    assert_eq!(app.selected, Some(child_id));
}

#[test]
fn lazily_loads_a_branch_once_and_reuses_its_children() {
    let mut app = call_app("root");
    let request = app.toggle_selected_branch(HierarchyDirection::Outgoing, true).unwrap();
    let root = app.selected.unwrap();

    assert_eq!(app.graph.node(root).unwrap().outgoing.load_state, LoadState::Loading);
    assert!(app.graph.node(root).unwrap().outgoing.expanded);
    assert_eq!(app.toggle_selected_branch(HierarchyDirection::Outgoing, true), None);
    assert!(!app.graph.node(root).unwrap().outgoing.expanded);

    assert!(app.finish_hierarchy(
        &request,
        Ok(answer(&request, vec![identity("child", HierarchyKind::Call)], FetchSource::Lsp))
    ));
    assert_eq!(app.graph.node(root).unwrap().outgoing.load_state, LoadState::Loaded);
    assert_eq!(app.graph.node(root).unwrap().outgoing.neighbors.len(), 1);
    assert!(!app.graph.node(root).unwrap().outgoing.expanded);

    assert_eq!(app.toggle_selected_branch(HierarchyDirection::Outgoing, true), None);
    assert!(app.graph.node(root).unwrap().outgoing.expanded);
}

#[test]
fn retries_failed_hierarchy_and_ignores_stale_results() {
    let mut app = type_app("Root");
    let failed = app.toggle_selected_branch(HierarchyDirection::Incoming, true).unwrap();
    let root = app.selected.unwrap();
    assert!(app.finish_hierarchy(&failed, Err("not supported".to_owned())));
    assert_eq!(app.graph.node(root).unwrap().incoming.load_state, LoadState::Failed);
    assert_eq!(app.graph.node(root).unwrap().incoming.failure(), Some("not supported"));
    assert_eq!(
        app.message_history.last().map(String::as_str),
        Some("Hierarchy query failed for Root (incoming/parent): not supported")
    );

    let retry = app.toggle_selected_branch(HierarchyDirection::Incoming, true).unwrap();
    assert_ne!(retry.request_id, failed.request_id);
    assert!(!app.finish_hierarchy(
        &failed,
        Ok(answer(&failed, vec![identity("stale", HierarchyKind::Type)], FetchSource::Lsp))
    ));
    assert!(app.graph.node(root).unwrap().incoming.neighbors.is_empty());
    assert!(app.finish_hierarchy(
        &retry,
        Ok(answer(&retry, vec![identity("Parent", HierarchyKind::Type)], FetchSource::Lsp))
    ));
    assert_eq!(branch_names(&app, root, HierarchyDirection::Incoming), ["Parent"]);
}

#[test]
fn keeps_successful_empty_hierarchy_distinct_from_failure() {
    let mut app = call_app("leaf");
    let request = app.toggle_selected_branch(HierarchyDirection::Outgoing, true).unwrap();
    let root = app.selected.unwrap();

    assert!(app.finish_hierarchy(&request, Ok(answer(&request, Vec::new(), FetchSource::Lsp))));
    assert_eq!(app.graph.node(root).unwrap().outgoing.load_state, LoadState::Loaded);
    assert!(app.graph.node(root).unwrap().outgoing.neighbors.is_empty());
    assert_eq!(app.graph.node(root).unwrap().outgoing.failure(), None);
    assert_eq!(app.toggle_selected_branch(HierarchyDirection::Outgoing, true), None);
    assert_eq!(app.graph.node(root).unwrap().outgoing.load_state, LoadState::Loaded);
}

#[test]
fn tree_sitter_hierarchy_reports_its_syntactic_confidence() {
    let mut app = call_app("root");
    let request = app.toggle_selected_branch(HierarchyDirection::Outgoing, true).unwrap();

    assert!(app.finish_hierarchy(
        &request,
        Ok(answer(&request, vec![identity("child", HierarchyKind::Call)], FetchSource::TreeSitter))
    ));

    assert_eq!(
        app.canvas_notice.as_deref(),
        Some("Tree-sitter: syntactic relations only; dynamic dispatch may be omitted")
    );
}

#[test]
fn deduplicates_children_globally_but_preserves_both_direction_relations() {
    let mut app = call_app("root");
    let incoming = app.toggle_selected_branch(HierarchyDirection::Incoming, true).unwrap();
    let shared = identity("shared", HierarchyKind::Call);
    assert!(app.finish_hierarchy(
        &incoming,
        Ok(answer(
            &incoming,
            vec![shared.clone(), shared.clone(), identity("left-only", HierarchyKind::Call)],
            FetchSource::Lsp,
        ))
    ));

    let outgoing = app.toggle_selected_branch(HierarchyDirection::Outgoing, true).unwrap();
    assert!(app.finish_hierarchy(
        &outgoing,
        Ok(answer(
            &outgoing,
            vec![shared.clone(), shared, identity("right-only", HierarchyKind::Call)],
            FetchSource::Lsp,
        ))
    ));

    let root = app.selected.unwrap();
    assert_eq!(branch_names(&app, root, HierarchyDirection::Incoming), ["shared", "left-only"]);
    assert_eq!(branch_names(&app, root, HierarchyDirection::Outgoing), ["shared", "right-only"]);
    assert_eq!(app.graph.node_count(), 4);
}

#[test]
fn refreshes_both_branches_and_preserves_existing_descendant_state() {
    let mut app = call_app("root");
    let incoming = app.toggle_selected_branch(HierarchyDirection::Incoming, true).unwrap();
    let caller_identity = identity("caller", HierarchyKind::Call);
    assert!(app.finish_hierarchy(
        &incoming,
        Ok(answer(&incoming, vec![caller_identity.clone()], FetchSource::Lsp))
    ));
    let outgoing = app.toggle_selected_branch(HierarchyDirection::Outgoing, true).unwrap();
    assert!(app.finish_hierarchy(
        &outgoing,
        Ok(answer(&outgoing, vec![identity("removed", HierarchyKind::Call)], FetchSource::Lsp))
    ));

    let root = app.selected.unwrap();
    let caller = app.graph.node(root).unwrap().incoming.neighbors[0];
    app.graph
        .replace_branch_neighbors(caller, HierarchyDirection::Outgoing, vec![identity("grandchild", HierarchyKind::Call)])
        .unwrap();
    {
        let caller_branch = &mut app.graph.node_mut(caller).unwrap().outgoing;
        caller_branch.load_state = LoadState::Loaded;
        caller_branch.expanded = true;
    }

    let requests = app.refresh_selected_branches(true);
    assert_eq!(requests.len(), 2);
    assert!(requests.iter().all(|request| request.cache_policy == CachePolicy::Refresh));
    assert_eq!(
        requests.iter().map(|request| request.query.direction).collect::<Vec<_>>(),
        [HierarchyDirection::Incoming, HierarchyDirection::Outgoing]
    );
    assert!(app.graph.node(root).unwrap().incoming.expanded);
    assert!(app.graph.node(root).unwrap().outgoing.expanded);

    for request in &requests {
        let children = match request.query.direction {
            HierarchyDirection::Incoming => {
                vec![caller_identity.clone(), identity("new-caller", HierarchyKind::Call)]
            },
            HierarchyDirection::Outgoing => vec![identity("new-callee", HierarchyKind::Call)],
        };
        assert!(app.finish_hierarchy(request, Ok(answer(request, children, FetchSource::Lsp))));
    }

    assert_eq!(app.graph.node(root).unwrap().incoming.neighbors[0], caller);
    assert!(app.graph.node(caller).unwrap().outgoing.expanded);
    assert_eq!(branch_names(&app, caller, HierarchyDirection::Outgoing), ["grandchild"]);
    assert_eq!(branch_names(&app, root, HierarchyDirection::Incoming), ["caller", "new-caller"]);
    assert_eq!(branch_names(&app, root, HierarchyDirection::Outgoing), ["new-callee"]);
    let new_callee = app.graph.node(root).unwrap().outgoing.neighbors[0];
    assert_eq!(app.graph.node(new_callee).unwrap().outgoing.load_state, LoadState::NotLoaded);
    assert!(app
        .graph
        .visible_graph()
        .nodes
        .iter()
        .all(|node_id| app.graph.node(*node_id).unwrap().symbol != "removed"));
}

#[test]
fn failed_refresh_keeps_cached_neighbors_and_rejects_older_results() {
    let mut app = call_app("root");
    let initial = app.toggle_selected_branch(HierarchyDirection::Outgoing, true).unwrap();
    assert!(app.finish_hierarchy(
        &initial,
        Ok(answer(&initial, vec![identity("cached", HierarchyKind::Call)], FetchSource::Lsp))
    ));
    let root = app.selected.unwrap();

    let older = app.refresh_selected_branches(true);
    let current = app.refresh_selected_branches(true);
    let older_outgoing = older
        .iter()
        .find(|request| request.query.direction == HierarchyDirection::Outgoing)
        .unwrap();
    assert!(!app.finish_hierarchy(
        older_outgoing,
        Ok(answer(older_outgoing, vec![identity("stale", HierarchyKind::Call)], FetchSource::Lsp))
    ));

    for request in &current {
        assert!(app.finish_hierarchy(request, Err("refresh failed".to_owned())));
    }
    assert_eq!(branch_names(&app, root, HierarchyDirection::Outgoing), ["cached"]);
    let outgoing = &app.graph.node(root).unwrap().outgoing;
    assert_eq!(outgoing.load_state, LoadState::Loaded);
    assert!(outgoing.expanded);
    assert_eq!(outgoing.failure(), Some("refresh failed"));
}

fn file_identity(symbol: &str) -> SymbolIdentity {
    SymbolIdentity {
        symbol: symbol.to_owned(),
        kind: HierarchyKind::Call,
        location: Some(SourceLocation {
            uri: format!("file:///workspace/{symbol}.rs"),
            line: Some(0),
            character: Some(0),
        }),
    }
}

#[test]
fn reloads_filters_across_loaded_branches_and_supersedes_old_requests() {
    let mut app = call_app("root");
    for direction in [HierarchyDirection::Incoming, HierarchyDirection::Outgoing] {
        let request = app.toggle_selected_branch(direction, true).unwrap();
        assert!(app.finish_hierarchy(&request, Ok(answer(&request, Vec::new(), FetchSource::Lsp))));
    }
    let stale = app.refresh_selected_branches(true);

    let current = app.reload_filters(FilterConfig::from_rules(&["#noise"], false).unwrap(), true);

    assert_eq!(current.len(), 2);
    assert!(current.iter().all(|request| {
        stale
            .iter()
            .find(|stale| stale.query.direction == request.query.direction)
            .is_some_and(|stale| stale.request_id != request.request_id)
    }));
    assert!(!app.finish_hierarchy(&stale[0], Ok(answer(&stale[0], vec![file_identity("stale")], FetchSource::Lsp))));
    for request in &current {
        assert!(app.finish_hierarchy(
            request,
            Ok(answer(request, vec![file_identity("noise"), file_identity("keep")], FetchSource::Lsp))
        ));
    }
    let root = app.selected.unwrap();
    assert_eq!(branch_names(&app, root, HierarchyDirection::Incoming), ["keep"]);
    assert_eq!(branch_names(&app, root, HierarchyDirection::Outgoing), ["keep"]);
    assert!(app.graph.is_anchor(root));
}

#[test]
fn applies_cross_namespace_rules_once_in_written_order() {
    let mut app = call_app("root");
    app.set_filters(FilterConfig::from_rules(&["#noise", "!**/noise.rs"], false).unwrap());
    let request = app.toggle_selected_branch(HierarchyDirection::Outgoing, true).unwrap();

    assert!(app.finish_hierarchy(&request, Ok(answer(&request, vec![file_identity("noise")], FetchSource::Lsp))));

    assert_eq!(branch_names(&app, app.selected.unwrap(), HierarchyDirection::Outgoing), ["noise"]);
}

#[test]
fn edits_save_state_and_keeps_errors_until_the_next_edit() {
    let mut app = empty_app();
    app.open_save();
    app.push_save_char('图');
    app.push_save_char('.');
    app.push_save_char('t');
    app.pop_save_char();
    assert_eq!(app.save.as_ref().unwrap().input, "图.");

    app.fail_save("target exists".to_owned());
    assert_eq!(app.save.as_ref().unwrap().status, SaveStatus::Error("target exists".to_owned()));
    app.push_save_char('t');
    assert_eq!(app.save.as_ref().unwrap().status, SaveStatus::Editing);
    app.close_save();
    assert!(app.save.is_none());
}

#[test]
fn a_root_from_the_command_line_is_pinned_and_selected() {
    let app = call_app("main");
    let root = app.selected.unwrap();
    assert_eq!(app.graph.anchors(), [root]);
    assert_eq!(app.graph.node(root).unwrap().symbol, "main");
    assert_eq!(app.graph.node(root).unwrap().kind, HierarchyKind::Call);
    assert_eq!(app.analysis_status.message.as_deref(), Some("No analysis backend"));
    assert!(empty_app().selected.is_none());
}

#[test]
fn notices_are_recorded_once_in_a_row() {
    let mut app = empty_app();
    app.set_canvas_notice("first".to_owned());
    app.set_canvas_notice("first".to_owned());
    app.set_canvas_error("second".to_owned());
    assert_eq!(app.message_history, ["first", "second"]);
    assert!(app.canvas_notice_is_error());
    app.clear_canvas_notice();
    assert!(app.canvas_notice.is_none());
    assert!(!app.canvas_notice_is_error());
    assert_eq!(app.message_history.len(), 2);
}

#[test]
fn panning_saturates_at_the_coordinate_limits() {
    let mut app = empty_app();
    app.pan_viewport(12, -4);
    assert_eq!((app.viewport.offset_x, app.viewport.offset_y), (12, -4));
    app.pan_viewport(i32::MAX, i32::MIN);
    assert_eq!((app.viewport.offset_x, app.viewport.offset_y), (i32::MAX, i32::MIN));
}

#[test]
fn toggling_without_a_provider_fails_the_branch_and_says_so() {
    let mut app = call_app("root");
    assert_eq!(app.toggle_selected_branch(HierarchyDirection::Outgoing, false), None);
    let root = app.selected.unwrap();
    let branch = &app.graph.node(root).unwrap().outgoing;
    assert_eq!(branch.load_state, LoadState::Failed);
    assert_eq!(branch.failure(), Some("Hierarchy requires an available LSP server"));
    assert_eq!(
        app.canvas_notice.as_deref(),
        Some("Hierarchy query unavailable for root: no analysis provider")
    );
    assert!(app.refresh_selected_branches(false).is_empty());
    assert_eq!(app.canvas_notice.as_deref(), Some("Refresh requires an available LSP server"));
}

#[test]
fn reload_reports_how_many_branches_it_refreshes() {
    let mut app = call_app("root");
    let none = app.reload_filters(FilterConfig::from_rules(&[], false).unwrap(), true);
    assert!(none.is_empty());
    assert_eq!(
        app.canvas_notice.as_deref(),
        Some("Project config reloaded; no loaded graph branches to refresh")
    );
    let request = app.toggle_selected_branch(HierarchyDirection::Outgoing, true).unwrap();
    assert!(app.finish_hierarchy(&request, Ok(answer(&request, Vec::new(), FetchSource::Lsp))));
    let one = app.reload_filters(FilterConfig::from_rules(&[], false).unwrap(), true);
    assert_eq!(one.len(), 1);
    assert_eq!(one[0].request_id, request.request_id + 1);
    assert_eq!(app.canvas_notice.as_deref(), Some("Project config reloaded; refreshing 1 graph branches"));
    assert!(app.reload_filters(FilterConfig::from_rules(&[], false).unwrap(), false).is_empty());
    assert_eq!(
        app.canvas_notice.as_deref(),
        Some("Project config reloaded; graph refresh requires an analysis provider")
    );
}

#[test]
fn help_and_save_dialogs_clear_a_pending_key() {
    let mut app = empty_app();
    app.pending_key = Some('d');
    app.open_help();
    assert_eq!(app.help.map(|help| help.scroll), Some(0));
    assert!(app.pending_key.is_none());
    app.close_help();
    assert!(app.help.is_none());
    app.complete_save("/tmp/graph.txt");
    assert_eq!(app.canvas_notice.as_deref(), Some("Saved graph to /tmp/graph.txt"));
    app.quit();
    assert!(app.should_quit);
}
