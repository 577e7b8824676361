use cgraph::app::{App, Command};
use cgraph::canvas::{canvas_layout, CanvasNodePlacement, Rect};
use cgraph::input::{canvas_inner_area, InteractionRequest};
use cgraph::layout::world_canvas_layout;
use cgraph::mouse::{
    handle_canvas_mouse, rect_contains, CanvasDragState, MouseButton, MouseEvent, MouseEventKind,
    DOUBLE_CLICK_TIMEOUT_MS,
};
use cgraph::remote::report_open_location;
use cgraph::state::{HierarchyDirection, HierarchyKind, LoadState, NodeId, SourceLocation, SymbolIdentity, Viewport};

fn empty_app() -> App {
    App::from_cli(".".to_owned(), None)
}

fn identity(symbol: &str, kind: HierarchyKind) -> SymbolIdentity {
    SymbolIdentity {
        symbol: symbol.to_owned(),
        kind,
        location: Some(SourceLocation {
            uri: "file:///workspace/src/main.rs".to_owned(),
            line: Some(symbol.bytes().map(u32::from).sum()),
            character: Some(0),
        }),
    }
}

fn pin(app: &mut App, symbol: &str, kind: HierarchyKind) -> NodeId {
    app.graph.pin_symbol(identity(symbol, kind))
}

fn connect(app: &mut App, node_id: NodeId, direction: HierarchyDirection, children: &[&str]) -> Vec<NodeId> {
    let kind = app.graph.node(node_id).unwrap().kind;
    app.graph
        .replace_branch_neighbors(node_id, direction, children.iter().map(|symbol| identity(symbol, kind)).collect())
        .unwrap()
}

fn mouse_event(kind: MouseEventKind, column: u16, row: u16) -> MouseEvent {
    MouseEvent { kind, column, row }
}

fn placement_of(app: &App, screen: Rect, node_id: NodeId) -> CanvasNodePlacement {
    let layout = canvas_layout(canvas_inner_area(screen), &app.graph, app.selected, app.viewport);
    *layout.nodes.iter().find(|placement| placement.node_id == node_id).unwrap()
}

fn click(app: &mut App, screen: Rect, column: u16, row: u16) {
    let mut drag = CanvasDragState::default();
    handle_canvas_mouse(app, mouse_event(MouseEventKind::Down(MouseButton::Left), column, row), false, screen, &mut drag, 0);
}

fn complete_click(
    app: &mut App,
    screen: Rect,
    pointer: &mut CanvasDragState,
    column: u16,
    row: u16,
    now_ms: u64,
) -> Option<InteractionRequest> {
    handle_canvas_mouse(app, mouse_event(MouseEventKind::Down(MouseButton::Left), column, row), false, screen, pointer, now_ms);
    handle_canvas_mouse(app, mouse_event(MouseEventKind::Up(MouseButton::Left), column, row), false, screen, pointer, now_ms)
}

#[test]
fn canvas_mouse_selects_nodes_and_toggles_side_buttons_independently() {
    let mut app = empty_app();
    let first_id = pin(&mut app, "first", HierarchyKind::Call);
    let second_id = pin(&mut app, "second", HierarchyKind::Call);
    connect(&mut app, second_id, HierarchyDirection::Incoming, &["caller"]);
    connect(&mut app, second_id, HierarchyDirection::Outgoing, &["callee"]);
    app.selected = Some(first_id);
    let screen = Rect::new(0, 0, 100, 24);
    let second_placement = placement_of(&app, screen, second_id);

    click(&mut app, screen, second_placement.area.x + 1, second_placement.area.y + 1);
    assert_eq!(app.selected, Some(second_id));
    let second_after_selection = placement_of(&app, screen, second_id);
    assert_eq!(second_after_selection.area, second_placement.area);

    let first_placement = placement_of(&app, screen, first_id);
    click(&mut app, screen, first_placement.area.x + 1, first_placement.area.y + 1);
    assert_eq!(app.selected, Some(first_id));
    let second_placement = placement_of(&app, screen, second_id);
    click(&mut app, screen, second_placement.incoming_button.x + 1, second_placement.incoming_button.y);
    assert_eq!(app.selected, Some(second_id));
    assert!(app.graph.node(second_id).unwrap().incoming.expanded);
    assert!(!app.graph.node(second_id).unwrap().outgoing.expanded);
    let second_after_incoming_toggle = placement_of(&app, screen, second_id);
    assert_eq!(second_after_incoming_toggle.area, second_placement.area);

    click(
        &mut app,
        screen,
        second_after_incoming_toggle.outgoing_button.x + 1,
        second_after_incoming_toggle.outgoing_button.y,
    );
    assert!(app.graph.node(second_id).unwrap().incoming.expanded);
    assert!(app.graph.node(second_id).unwrap().outgoing.expanded);
    assert_eq!(placement_of(&app, screen, second_id).area, second_after_incoming_toggle.area);
}

#[test]
fn first_mouse_side_button_schedules_its_branch_query() {
    let mut app = App::from_cli(".".to_owned(), Some(Command::Type { symbol: "Root".to_owned() }));
    let screen = Rect::new(0, 0, 100, 24);
    let placement = canvas_layout(canvas_inner_area(screen), &app.graph, app.selected, app.viewport).nodes[0];
    let mut drag = CanvasDragState::default();
    let request = handle_canvas_mouse(
        &mut app,
        mouse_event(MouseEventKind::Down(MouseButton::Left), placement.outgoing_button.x + 1, placement.outgoing_button.y),
        true,
        screen,
        &mut drag,
        0,
    );

    let Some(InteractionRequest::Hierarchy(requests)) = request else {
        panic!("first side-button click must schedule hierarchy loading");
    };
    let [request] = requests.as_slice() else {
        panic!("first side-button click must schedule exactly one hierarchy request");
    };
    let root = app.selected.unwrap();
    assert_eq!(request.query.direction, HierarchyDirection::Outgoing);
    assert_eq!(app.graph.node(root).unwrap().outgoing.load_state, LoadState::Loading);
    assert_eq!(app.graph.node(root).unwrap().incoming.load_state, LoadState::NotLoaded);
    assert_eq!(drag.previous, None);
}

#[test]
fn double_clicking_a_node_opens_only_an_exact_source_location() {
    let mut app = empty_app();
    let node_id = pin(&mut app, "main", HierarchyKind::Call);
    app.selected = Some(node_id);
    let expected = app.graph.node(node_id).unwrap().location.clone().unwrap();
    let screen = Rect::new(0, 0, 100, 24);
    let placement = canvas_layout(canvas_inner_area(screen), &app.graph, app.selected, app.viewport).nodes[0];
    let column = placement.area.x + 1;
    let row = placement.area.y + 1;
    let mut pointer = CanvasDragState::default();

    assert!(complete_click(&mut app, screen, &mut pointer, column, row, 1_000).is_none());
    let second = complete_click(&mut app, screen, &mut pointer, column, row, 1_100);
    let Some(InteractionRequest::OpenLocation(location)) = second else {
        panic!("double-click must emit the node's exact source location");
    };
    assert_eq!(location, expected);
    report_open_location(&mut app, None);
    assert_eq!(app.canvas_notice.as_deref(), Some("IPC is not enabled; start cgraph with --ipc-socket <PATH>"));

    let mut provisional = App::from_cli(".".to_owned(), Some(Command::Call { symbol: "unresolved".to_owned() }));
    let placement =
        canvas_layout(canvas_inner_area(screen), &provisional.graph, provisional.selected, provisional.viewport).nodes[0];
    let mut pointer = CanvasDragState::default();
    let column = placement.area.x + 1;
    let row = placement.area.y + 1;
    assert!(complete_click(&mut provisional, screen, &mut pointer, column, row, 0).is_none());
    assert!(complete_click(&mut provisional, screen, &mut pointer, column, row, 10).is_none());
    assert_eq!(provisional.canvas_notice.as_deref(), Some("Selected node has no exact source location"));
}

#[test]
fn clicks_too_far_apart_do_not_make_a_double_click() {
    let mut app = empty_app();
    let node_id = pin(&mut app, "main", HierarchyKind::Call);
    app.selected = Some(node_id);
    let screen = Rect::new(0, 0, 100, 24);
    let placement = placement_of(&app, screen, node_id);
    let (column, row) = (placement.area.x + 1, placement.area.y + 1);
    let mut pointer = CanvasDragState::default();

    assert!(complete_click(&mut app, screen, &mut pointer, column, row, 0).is_none());
    assert!(complete_click(&mut app, screen, &mut pointer, column, row, DOUBLE_CLICK_TIMEOUT_MS + 1).is_none());
    assert_eq!(pointer.last_click.map(|click| click.at_ms), Some(DOUBLE_CLICK_TIMEOUT_MS + 1));
    assert!(matches!(
        complete_click(&mut app, screen, &mut pointer, column, row, 2 * DOUBLE_CLICK_TIMEOUT_MS + 1),
        Some(InteractionRequest::OpenLocation(_))
    ));
    assert!(pointer.last_click.is_none());
}

#[test]
fn dragging_a_node_or_the_background_pans_the_viewport_only() {
    let mut app = empty_app();
    let root_id = pin(&mut app, "root", HierarchyKind::Call);
    let child_id = connect(&mut app, root_id, HierarchyDirection::Outgoing, &["child"])[0];
    app.graph.node_mut(root_id).unwrap().outgoing.expanded = true;
    app.selected = Some(root_id);
    let screen = Rect::new(0, 0, 60, 16);
    let canvas = canvas_inner_area(screen);
    let world_before = world_canvas_layout(&app.graph, app.selected);
    let root_placement = placement_of(&app, screen, root_id);

    let mut node_drag = CanvasDragState::default();
    let node_start = root_placement.area.right() - 2;
    let row = root_placement.area.y + 1;
    handle_canvas_mouse(&mut app, mouse_event(MouseEventKind::Down(MouseButton::Left), node_start, row), false, screen, &mut node_drag, 0);
    handle_canvas_mouse(
        &mut app,
        mouse_event(MouseEventKind::Drag(MouseButton::Left), node_start - 20, row),
        false,
        screen,
        &mut node_drag,
        0,
    );
    assert_eq!(app.viewport.offset_x, -20);
    assert_eq!(app.viewport.offset_y, 0);
    assert_eq!(world_canvas_layout(&app.graph, app.selected), world_before);
    assert!(canvas_layout(canvas, &app.graph, app.selected, app.viewport)
        .nodes
        .iter()
        .any(|placement| placement.node_id == child_id));
    let released = handle_canvas_mouse(
        &mut app,
        mouse_event(MouseEventKind::Up(MouseButton::Left), node_start - 20, row),
        false,
        screen,
        &mut node_drag,
        0,
    );
    assert!(released.is_none());
    assert!(node_drag.last_click.is_none());

    app.viewport = Viewport { offset_x: 0, offset_y: 0 };
    let mut background_drag = CanvasDragState::default();
    let background_start = canvas.right() - 2;
    handle_canvas_mouse(
        &mut app,
        mouse_event(MouseEventKind::Down(MouseButton::Left), background_start, canvas.y),
        false,
        screen,
        &mut background_drag,
        0,
    );
    handle_canvas_mouse(
        &mut app,
        mouse_event(MouseEventKind::Drag(MouseButton::Left), background_start - 20, canvas.y),
        false,
        screen,
        &mut background_drag,
        0,
    );
    assert_eq!(app.viewport.offset_x, -20);
    assert_eq!(world_canvas_layout(&app.graph, app.selected), world_before);
    assert_eq!(app.graph.node(root_id).unwrap().outgoing.neighbors[0], child_id);
}

#[test]
fn presses_outside_the_canvas_forget_the_pointer() {
    let mut app = empty_app();
    pin(&mut app, "main", HierarchyKind::Call);
    let screen = Rect::new(0, 0, 100, 24);
    let before = app.selected;
    let mut drag = CanvasDragState::default();
    assert!(handle_canvas_mouse(&mut app, mouse_event(MouseEventKind::Down(MouseButton::Left), 3, 23), false, screen, &mut drag, 0).is_none());
    assert_eq!(drag.previous, None);
    assert_eq!(app.selected, before);
    assert!(!rect_contains(canvas_inner_area(screen), 3, 22));
    assert!(rect_contains(canvas_inner_area(screen), 3, 21));
    assert!(rect_contains(Rect::new(2, 3, 4, 5), 5, 7));
    assert!(!rect_contains(Rect::new(2, 3, 4, 5), 6, 7));
}
