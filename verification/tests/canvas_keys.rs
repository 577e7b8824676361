use cgraph::app::{App, Command};
use cgraph::canvas::{canvas_layout, Rect};
use cgraph::input::{
    canvas_command, canvas_inner_area, handle_canvas_key, move_canvas_selection, navigation_score, next_in_direction,
    rect_center, CanvasCommand, InteractionRequest, NavigationDirection, SearchKind,
};
use cgraph::keys::{KeyCode, KeyEvent, KeyModifiers};
use cgraph::layout::{world_canvas_layout, world_rects_overlap, EdgeVisualKind, WorldLayoutSnapshot};
use cgraph::messages::MessageViewState;
use cgraph::protocol::CachePolicy;
use cgraph::state::{HierarchyDirection, HierarchyKind, LoadState, NodeId, SourceLocation, SymbolIdentity, Viewport};

fn empty_app() -> App {
    App::from_cli(".".to_owned(), None)
}

fn call_app(symbol: &str) -> App {
    App::from_cli(".".to_owned(), Some(Command::Call { symbol: symbol.to_owned() }))
}

fn key(code: KeyCode) -> KeyEvent {
    KeyEvent::new(code, KeyModifiers::none())
}

fn press(app: &mut App, character: char) {
    handle_canvas_key(app, key(KeyCode::Char(character)), false, Rect::new(0, 0, 100, 24));
}

fn navigate(app: &mut App, screen: Rect, key_code: KeyCode) {
    handle_canvas_key(app, key(key_code), false, screen);
}

fn identity(symbol: &str, kind: HierarchyKind) -> SymbolIdentity {
    SymbolIdentity {
        symbol: symbol.to_owned(),
        kind,
        location: Some(SourceLocation {
            uri: "file:///workspace/src/main.rs".to_owned(),
            line: Some(symbol.bytes().map(u32::from).sum()),
            character: Some(0),
        }),
    }
}

fn pin(app: &mut App, symbol: &str, kind: HierarchyKind) -> NodeId {
    app.graph.pin_symbol(identity(symbol, kind))
}

fn connect(app: &mut App, node_id: NodeId, direction: HierarchyDirection, children: &[&str]) -> Vec<NodeId> {
    let kind = app.graph.node(node_id).unwrap().kind;
    app.graph
        .replace_branch_neighbors(node_id, direction, children.iter().map(|symbol| identity(symbol, kind)).collect())
        .unwrap()
}

fn world_delta(layout: &WorldLayoutSnapshot, from: NodeId, to: NodeId) -> (i32, i32) {
    let from = layout.nodes.iter().find(|placement| placement.node_id == from).unwrap().slot;
    let to = layout.nodes.iter().find(|placement| placement.node_id == to).unwrap().slot;
    (to.x - from.x, to.y - from.y)
}

#[test]
fn delete_prefix_requires_a_complete_valid_command() {
    let mut app = call_app("root");
    handle_canvas_key(&mut app, key(KeyCode::Char('d')), false, Rect::new(0, 0, 100, 24));
    assert_eq!(app.pending_key, Some('d'));
    handle_canvas_key(&mut app, key(KeyCode::Char('x')), false, Rect::new(0, 0, 100, 24));
    assert_eq!(app.graph.anchors().len(), 1);

    handle_canvas_key(&mut app, key(KeyCode::Char('d')), false, Rect::new(0, 0, 100, 24));
    handle_canvas_key(&mut app, key(KeyCode::Char('d')), false, Rect::new(0, 0, 100, 24));
    assert!(app.graph.anchors().is_empty());
    assert_eq!(app.selected, None);
}

#[test]
fn ec_requires_the_complete_prefix_command() {
    let mut app = empty_app();
    let screen = Rect::new(0, 0, 100, 24);

    assert!(handle_canvas_key(&mut app, key(KeyCode::Char('e')), true, screen).is_none());
    assert_eq!(app.pending_key, Some('e'));
    assert!(handle_canvas_key(&mut app, key(KeyCode::Char('x')), true, screen).is_none());
    handle_canvas_key(&mut app, key(KeyCode::Char('e')), true, screen);
    assert!(matches!(
        handle_canvas_key(&mut app, key(KeyCode::Char('c')), true, screen),
        Some(InteractionRequest::EditConfig)
    ));
    assert_eq!(app.pending_key, None);
}

#[test]
fn g_less_than_opens_the_message_view_command() {
    let mut app = empty_app();
    let screen = Rect::new(0, 0, 100, 24);

    assert!(handle_canvas_key(&mut app, key(KeyCode::Char('g')), false, screen).is_none());
    assert_eq!(app.pending_key, Some('g'));
    assert!(matches!(
        handle_canvas_key(&mut app, key(KeyCode::Char('<')), false, screen),
        Some(InteractionRequest::OpenMessages)
    ));
    assert_eq!(app.pending_key, None);

    app.set_canvas_notice("first message".to_owned());
    app.set_canvas_notice("second message".to_owned());
    let view = MessageViewState::from_messages(&app.message_history);
    assert!(view.title().contains("Messages"));
    assert!(view.source.contains("first message"));
    assert!(view.source.contains("second message"));
}

#[test]
fn w_opens_an_empty_save_modal_without_quitting() {
    let mut app = call_app("root");
    let request = handle_canvas_key(&mut app, key(KeyCode::Char('w')), false, Rect::new(0, 0, 100, 24));
    assert!(request.is_none());
    assert_eq!(app.save.as_ref().unwrap().input, "");
    assert!(!app.should_quit);
}

#[test]
fn lays_out_multiple_anchors_with_the_selection_at_the_center() {
    let mut app = empty_app();
    pin(&mut app, "first", HierarchyKind::Call);
    let selected = pin(&mut app, "selected", HierarchyKind::Type);
    pin(&mut app, "third", HierarchyKind::Call);
    app.selected = Some(selected);
    let layout = world_canvas_layout(&app.graph, app.selected);
    let selected = layout.nodes.iter().find(|placement| placement.node_id == selected).unwrap();

    assert_eq!(layout.nodes.len(), 3);
    assert_eq!(selected.slot.x + i32::from(selected.slot.width) / 2, 0);
    assert_eq!(selected.slot.y + i32::from(selected.slot.height) / 2, 0);
    assert!(layout.nodes.iter().all(|placement| placement.slot.width > 0 && placement.slot.height > 0));
}

#[test]
fn selection_changes_only_translate_the_stable_world_layout() {
    let mut app = empty_app();
    let first = pin(&mut app, "first", HierarchyKind::Call);
    let second = pin(&mut app, "second", HierarchyKind::Call);
    let third = pin(&mut app, "third", HierarchyKind::Call);

    let first_selected = world_canvas_layout(&app.graph, Some(first));
    let second_selected = world_canvas_layout(&app.graph, Some(second));
    for (left, right) in [(first, second), (first, third), (second, third)] {
        let first_delta = world_delta(&first_selected, left, right);
        let second_delta = world_delta(&second_selected, left, right);
        assert_eq!(first_delta, second_delta);
    }
}

#[test]
fn tl_and_tr_toggle_only_the_requested_side() {
    let mut app = empty_app();
    let root = pin(&mut app, "root", HierarchyKind::Call);
    connect(&mut app, root, HierarchyDirection::Incoming, &["caller"]);
    connect(&mut app, root, HierarchyDirection::Outgoing, &["callee"]);
    app.selected = Some(root);

    press(&mut app, 't');
    assert_eq!(app.pending_key, Some('t'));
    press(&mut app, 'l');
    assert!(app.graph.node(root).unwrap().incoming.expanded);
    assert!(!app.graph.node(root).unwrap().outgoing.expanded);

    press(&mut app, 't');
    press(&mut app, 'r');
    assert!(app.graph.node(root).unwrap().incoming.expanded);
    assert!(app.graph.node(root).unwrap().outgoing.expanded);

    press(&mut app, 't');
    press(&mut app, 'l');
    assert!(!app.graph.node(root).unwrap().incoming.expanded);
    assert!(app.graph.node(root).unwrap().outgoing.expanded);
}

#[test]
fn first_tl_schedules_only_the_left_branch_query() {
    let mut app = call_app("root");
    let screen = Rect::new(0, 0, 100, 24);
    handle_canvas_key(&mut app, key(KeyCode::Char('t')), true, screen);
    let request = handle_canvas_key(&mut app, key(KeyCode::Char('l')), true, screen);

    let Some(InteractionRequest::Hierarchy(requests)) = request else {
        panic!("first tl must schedule a hierarchy request");
    };
    let [request] = requests.as_slice() else {
        panic!("first tl must schedule exactly one hierarchy request");
    };
    let root = app.selected.unwrap();
    assert_eq!(request.query.direction, HierarchyDirection::Incoming);
    assert_eq!(app.graph.node(root).unwrap().incoming.load_state, LoadState::Loading);
    assert_eq!(app.graph.node(root).unwrap().outgoing.load_state, LoadState::NotLoaded);
}

#[test]
fn r_schedules_refreshes_for_both_branches() {
    let mut app = call_app("root");
    let request = handle_canvas_key(&mut app, key(KeyCode::Char('r')), true, Rect::new(0, 0, 100, 24));

    let Some(InteractionRequest::Hierarchy(requests)) = request else {
        panic!("r must schedule hierarchy refresh requests");
    };
    assert_eq!(requests.len(), 2);
    assert!(requests.iter().all(|request| request.cache_policy == CachePolicy::Refresh));
    assert_eq!(
        requests.iter().map(|request| request.query.direction).collect::<Vec<_>>(),
        [HierarchyDirection::Incoming, HierarchyDirection::Outgoing]
    );
    let root = app.selected.unwrap();
    assert_eq!(app.graph.node(root).unwrap().incoming.load_state, LoadState::Loading);
    assert_eq!(app.graph.node(root).unwrap().outgoing.load_state, LoadState::Loading);
}

#[test]
fn canvas_layout_only_contains_children_of_expanded_branches() {
    let mut app = empty_app();
    let root_id = pin(&mut app, "root", HierarchyKind::Call);
    let child_id = connect(&mut app, root_id, HierarchyDirection::Incoming, &["caller"])[0];
    let area = Rect::new(0, 0, 100, 20);

    let collapsed = canvas_layout(area, &app.graph, Some(root_id), Viewport::default());
    assert_eq!(collapsed.nodes.len(), 1);

    app.graph.node_mut(root_id).unwrap().incoming.expanded = true;
    let expanded = canvas_layout(area, &app.graph, Some(root_id), Viewport::default());
    assert_eq!(expanded.nodes.len(), 2);
    assert!(expanded.nodes.iter().any(|placement| placement.node_id == child_id));
}

#[test]
fn expanded_node_rectangles_never_overlap() {
    let mut app = empty_app();
    let root = pin(&mut app, "root", HierarchyKind::Call);
    let mut callers = Vec::new();
    let mut callees = Vec::new();
    for index in 0..8 {
        callers.push(if index % 2 == 0 {
            format!("VeryLongCallerClass{index}::call_root")
        } else {
            format!("caller-{index}")
        });
        callees.push(format!("callee-{index}"));
    }
    let callers = callers.iter().map(String::as_str).collect::<Vec<_>>();
    let callees = callees.iter().map(String::as_str).collect::<Vec<_>>();
    connect(&mut app, root, HierarchyDirection::Incoming, &callers);
    connect(&mut app, root, HierarchyDirection::Outgoing, &callees);
    app.graph.node_mut(root).unwrap().incoming.expanded = true;
    app.graph.node_mut(root).unwrap().outgoing.expanded = true;
    let layout = world_canvas_layout(&app.graph, None);

    assert!(layout.nodes.len() > 3, "test needs several visible hierarchy nodes");
    for (index, placement) in layout.nodes.iter().enumerate() {
        for other in layout.nodes.iter().skip(index + 1) {
            assert!(
                !world_rects_overlap(placement.slot, other.slot),
                "placements overlap: {placement:?} and {other:?}"
            );
        }
    }
}

#[test]
fn keyboard_navigation_uses_visible_node_geometry() {
    let mut app = empty_app();
    let root_id = pin(&mut app, "root", HierarchyKind::Call);
    let incoming_id = connect(&mut app, root_id, HierarchyDirection::Incoming, &["caller"])[0];
    let outgoing_id = connect(&mut app, root_id, HierarchyDirection::Outgoing, &["callee"])[0];
    app.graph.node_mut(root_id).unwrap().incoming.expanded = true;
    app.graph.node_mut(root_id).unwrap().outgoing.expanded = true;
    app.selected = Some(root_id);
    let screen = Rect::new(0, 0, 100, 24);

    let before_navigation = canvas_layout(canvas_inner_area(screen), &app.graph, app.selected, app.viewport);
    let outgoing_before_selection =
        before_navigation.nodes.iter().find(|placement| placement.node_id == outgoing_id).unwrap().area;
    navigate(&mut app, screen, KeyCode::Right);
    assert_eq!(app.selected, Some(outgoing_id));
    let outgoing_after_selection = canvas_layout(canvas_inner_area(screen), &app.graph, app.selected, app.viewport)
        .nodes
        .into_iter()
        .find(|placement| placement.node_id == outgoing_id)
        .unwrap()
        .area;
    assert_eq!(outgoing_after_selection, outgoing_before_selection);
    navigate(&mut app, screen, KeyCode::Char('h'));
    assert_eq!(app.selected, Some(root_id));
    navigate(&mut app, screen, KeyCode::Left);
    assert_eq!(app.selected, Some(incoming_id));
    navigate(&mut app, screen, KeyCode::Char('l'));
    assert_eq!(app.selected, Some(root_id));

    pin(&mut app, "other-before", HierarchyKind::Call);
    for index in 0..3 {
        pin(&mut app, &format!("other-{index}"), HierarchyKind::Call);
    }
    let before = canvas_layout(canvas_inner_area(screen), &app.graph, app.selected, app.viewport);
    let before_center = rect_center(before.nodes.iter().find(|placement| placement.node_id == root_id).unwrap().area);
    assert!(move_canvas_selection(&mut app, NavigationDirection::Up, screen));
    let selected = app.selected.unwrap();
    let after = canvas_layout(canvas_inner_area(screen), &app.graph, app.selected, app.viewport);
    let selected_center =
        rect_center(after.nodes.iter().find(|placement| placement.node_id == selected).unwrap().area);
    assert!(selected_center.1 <= before_center.1);
    assert!(move_canvas_selection(&mut app, NavigationDirection::Down, screen));
}

#[test]
fn diamond_layout_uses_one_shared_node_and_keeps_all_edges() {
    let mut app = empty_app();
    let root = pin(&mut app, "root", HierarchyKind::Call);
    let branches = connect(&mut app, root, HierarchyDirection::Outgoing, &["left", "right"]);
    app.graph.node_mut(root).unwrap().outgoing.expanded = true;
    let shared_from_left = connect(&mut app, branches[0], HierarchyDirection::Outgoing, &["shared"])[0];
    let shared_from_right = connect(&mut app, branches[1], HierarchyDirection::Outgoing, &["shared"])[0];
    app.graph.node_mut(branches[0]).unwrap().outgoing.expanded = true;
    app.graph.node_mut(branches[1]).unwrap().outgoing.expanded = true;

    let layout = world_canvas_layout(&app.graph, Some(root));
    assert_eq!(shared_from_left, shared_from_right);
    assert_eq!(layout.nodes.len(), 4);
    assert_eq!(layout.edges.len(), 4);
    assert_eq!(layout.nodes.iter().filter(|placement| placement.node_id == shared_from_left).count(), 1);
}

#[test]
fn cycle_edges_use_the_special_double_line_style() {
    let mut app = empty_app();
    let first = pin(&mut app, "first", HierarchyKind::Call);
    let second = connect(&mut app, first, HierarchyDirection::Outgoing, &["second"])[0];
    let third = connect(&mut app, second, HierarchyDirection::Outgoing, &["third"])[0];
    connect(&mut app, third, HierarchyDirection::Outgoing, &["first"]);
    for node_id in [first, second, third] {
        app.graph.node_mut(node_id).unwrap().outgoing.expanded = true;
    }

    let world = world_canvas_layout(&app.graph, Some(first));
    assert_eq!(world.nodes.len(), 3);
    assert!(world.edges.iter().all(|edge| edge.visual_kind == EdgeVisualKind::BackOrCycle));
    let canvas = canvas_layout(Rect::new(0, 0, 120, 30), &app.graph, Some(first), Viewport::default());
    assert!(canvas
        .edges
        .iter()
        .flat_map(|edge| &edge.cells)
        .any(|cell| matches!(cell.symbol, '═' | '║' | '╬' | '◀')));
}

#[test]
fn self_loop_is_rendered_as_a_special_loop() {
    let mut app = empty_app();
    let recursive = pin(&mut app, "recursive", HierarchyKind::Call);
    connect(&mut app, recursive, HierarchyDirection::Outgoing, &["recursive"]);
    app.graph.node_mut(recursive).unwrap().outgoing.expanded = true;

    let layout = canvas_layout(Rect::new(0, 0, 100, 24), &app.graph, Some(recursive), Viewport::default());
    assert_eq!(layout.edges.len(), 1);
    assert_eq!(layout.edges[0].visual_kind, EdgeVisualKind::SelfLoop);
    assert!(layout.edges[0].cells.iter().any(|cell| cell.symbol == '↺'));
}

#[test]
fn two_key_commands_and_single_keys_map_to_commands() {
    let none = KeyModifiers::none();
    assert_eq!(canvas_command(Some('a'), KeyEvent::new(KeyCode::Char('c'), none)), CanvasCommand::Search(SearchKind::Call));
    assert_eq!(canvas_command(Some('a'), KeyEvent::new(KeyCode::Char('t'), none)), CanvasCommand::Search(SearchKind::Type));
    assert_eq!(
        canvas_command(Some('d'), KeyEvent::new(KeyCode::Char('p'), none)),
        CanvasCommand::DeleteBranch(HierarchyDirection::Incoming)
    );
    assert_eq!(canvas_command(Some('a'), KeyEvent::new(KeyCode::Char('c'), KeyModifiers::control())), CanvasCommand::Nothing);
    assert_eq!(canvas_command(None, KeyEvent::new(KeyCode::Char('?'), KeyModifiers::shift())), CanvasCommand::OpenHelp);
    assert_eq!(canvas_command(None, KeyEvent::new(KeyCode::Esc, KeyModifiers::control())), CanvasCommand::Quit);
    assert_eq!(canvas_command(None, KeyEvent::new(KeyCode::Char('a'), KeyModifiers::shift())), CanvasCommand::Nothing);
    assert_eq!(canvas_command(None, KeyEvent::new(KeyCode::Char('j'), none)), CanvasCommand::Move(NavigationDirection::Down));
}

#[test]
fn q_quits_and_the_canvas_area_leaves_two_rows() {
    let mut app = empty_app();
    press(&mut app, 'q');
    assert!(app.should_quit);
    assert_eq!(canvas_inner_area(Rect::new(0, 0, 100, 24)), Rect::new(0, 0, 100, 22));
    assert_eq!(canvas_inner_area(Rect::new(3, 4, 10, 1)), Rect::new(3, 4, 10, 0));
}

#[test]
fn navigation_prefers_the_nearest_node_in_the_direction() {
    assert_eq!(navigation_score((10, 10), (20, 13), NavigationDirection::Right), Some((109, 3, 10)));
    assert_eq!(navigation_score((10, 10), (20, 13), NavigationDirection::Left), None);
    assert_eq!(navigation_score((10, 10), (7, 2), NavigationDirection::Up), Some((73, 3, 8)));
    let mut app = empty_app();
    let a = pin(&mut app, "a", HierarchyKind::Call);
    let b = pin(&mut app, "b", HierarchyKind::Call);
    let layout = canvas_layout(Rect::new(0, 0, 100, 40), &app.graph, Some(a), Viewport::default());
    let current = *layout.nodes.iter().find(|placement| placement.node_id == a).unwrap();
    let below = rect_center(layout.nodes.iter().find(|placement| placement.node_id == b).unwrap().area).1
        > rect_center(current.area).1;
    let expected = if below { (Some(b), None) } else { (None, Some(b)) };
    assert_eq!(next_in_direction(&layout.nodes, current, NavigationDirection::Down), expected.0);
    assert_eq!(next_in_direction(&layout.nodes, current, NavigationDirection::Up), expected.1);
}

#[test]
fn hierarchy_completion_keeps_the_queried_node_center_stable() {
    let mut app = call_app("temporary");
    let screen = Rect::new(0, 0, 100, 24);
    let request = app.toggle_selected_branch(HierarchyDirection::Outgoing, true).unwrap();
    let before = canvas_layout(canvas_inner_area(screen), &app.graph, app.selected, app.viewport).nodes[0].area;
    let mut resolved_query = request.query.clone();
    resolved_query.symbol = SymbolIdentity {
        symbol: "VeryLongResolvedType::very_long_resolved_method".to_owned(),
        kind: HierarchyKind::Call,
        location: Some(SourceLocation {
            uri: "file:///workspace/src/main.rs".to_owned(),
            line: Some(12),
            character: Some(4),
        }),
    };
    assert!(cgraph::input::finish_hierarchy_stably(
        &mut app,
        &request,
        Ok(cgraph::protocol::HierarchyResponse {
            query: resolved_query,
            children: Vec::new(),
            source: cgraph::protocol::FetchSource::Lsp,
        }),
    ));
    let after = canvas_layout(canvas_inner_area(screen), &app.graph, app.selected, app.viewport).nodes[0].area;
    assert_eq!(after.x + after.width / 2, before.x + before.width / 2);
    assert_eq!(after.y + after.height / 2, before.y + before.height / 2);
    assert!(after.width > before.width);
}
