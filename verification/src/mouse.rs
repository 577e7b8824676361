//! What the mouse does on the canvas: pressing a node selects it without
//! moving it, its side buttons toggle its branches, dragging pans the
//! viewport, and a double click asks the editors to open the node's exact
//! location.
use vstd::prelude::*;

use crate::app::{kept, noticed, quiet, saturated, App};
use crate::canvas::{bottom_of, canvas_layout, projected_nodes, right_of, CanvasNodePlacement, Rect};
use crate::input::{
    canvas_area_of, canvas_inner_area, hierarchy_request, kept_in_place, layable, node_selected, node_world_anchor,
    InteractionRequest,
};
use crate::layout::{world_layout_of, WorldLayoutSnapshot};
use crate::loads::{node_branch_toggled, HierarchyLoadRequest};
use crate::relation::{lemma_live_count, node_of, resolve};
use crate::state::{copy_location, location_view, HierarchyDirection, LocationView, NodeId, SourceLocation};

verus! {

/// A button of the mouse.
#[derive(Clone, Copy, Debug, PartialEq, Eq, Structural)]
pub enum MouseButton {
    Left,
    Right,
    Middle,
}

/// What the mouse did.
#[derive(Clone, Copy, Debug, PartialEq, Eq, Structural)]
pub enum MouseEventKind {
    Down(MouseButton),
    Up(MouseButton),
    Drag(MouseButton),
    Moved,
    ScrollDown,
    ScrollUp,
    ScrollLeft,
    ScrollRight,
}

/// What the mouse did, and at which cell.
#[derive(Clone, Copy, Debug, PartialEq, Eq, Structural)]
pub struct MouseEvent {
    pub kind: MouseEventKind,
    pub column: u16,
    pub row: u16,
}

/// A click on a node, and when it came, in milliseconds of a clock that
/// only goes forward.
#[derive(Clone, Copy, Debug, PartialEq, Eq, Structural)]
pub struct CanvasClick {
    pub node_id: NodeId,
    pub at_ms: u64,
}

/// What the mouse is in the middle of: where a drag was last, which node
/// was pressed, whether it moved since, and the last click.
#[derive(Clone, Copy, Debug)]
pub struct CanvasDragState {
    pub previous: Option<(u16, u16)>,
    pub pressed_node: Option<NodeId>,
    pub dragged: bool,
    pub last_click: Option<CanvasClick>,
}

/// No drag, no pressed node, no click.
pub open spec fn idle() -> CanvasDragState {
    CanvasDragState { previous: None, pressed_node: None, dragged: false, last_click: None }
}

impl Default for CanvasDragState {
    fn default() -> (r: Self)
        ensures
            r == idle(),
    {
        CanvasDragState { previous: None, pressed_node: None, dragged: false, last_click: None }
    }
}

/// How long a second click may follow the first to make a double click.
pub const DOUBLE_CLICK_TIMEOUT_MS: u64 = 500;

/// A rectangle holds a cell.
pub open spec fn contains_point(r: Rect, x: u16, y: u16) -> bool {
    x >= r.x && x < right_of(r) && y >= r.y && y < bottom_of(r)
}

/// Whether a rectangle holds a cell.
pub fn rect_contains(r: Rect, x: u16, y: u16) -> (b: bool)
    ensures
        b == contains_point(r, x, y),
{
    x >= r.x && x < r.right() && y >= r.y && y < r.bottom()
}

/// Which part of a node's placement is hit.
#[derive(Clone, Copy, Debug, PartialEq, Eq, Structural)]
pub enum Part {
    IncomingButton,
    OutgoingButton,
    Box,
}

/// The rectangle of a part of a placement.
pub open spec fn part_rect(p: CanvasNodePlacement, part: Part) -> Rect {
    match part {
        Part::IncomingButton => p.incoming_button,
        Part::OutgoingButton => p.outgoing_button,
        Part::Box => p.area,
    }
}

/// The first placement whose part holds the cell.
pub open spec fn first_hit(ps: Seq<CanvasNodePlacement>, part: Part, x: u16, y: u16) -> Option<int>
    decreases ps.len(),
{
    if ps.len() == 0 {
        None
    } else {
        match first_hit(ps.drop_last(), part, x, y) {
            Some(i) => Some(i),
            None => if contains_point(part_rect(ps.last(), part), x, y) {
                Some(ps.len() - 1)
            } else {
                None
            },
        }
    }
}

/// A first hit found in a prefix is the first hit of the whole.
proof fn lemma_first_hit_extends(ps: Seq<CanvasNodePlacement>, part: Part, x: u16, y: u16, n: int, i: int)
    requires
        0 <= n <= ps.len(),
        first_hit(ps.take(n), part, x, y) == Some(i),
    ensures
        first_hit(ps, part, x, y) == Some(i),
    decreases ps.len() - n,
{
    if n == ps.len() {
        assert(ps.take(n) =~= ps);
    } else {
        assert(ps.take(n + 1).drop_last() =~= ps.take(n));
        lemma_first_hit_extends(ps, part, x, y, n + 1, i);
    }
}

/// The first placement whose part holds the cell.
fn find_hit(ps: &Vec<CanvasNodePlacement>, part: Part, x: u16, y: u16) -> (r: Option<usize>)
    ensures
        match r {
            Some(i) => i < ps@.len() && first_hit(ps@, part, x, y) == Some(i as int),
            None => first_hit(ps@, part, x, y) is None,
        },
{
    let mut i: usize = 0;
    while i < ps.len()
        invariant
            i <= ps@.len(),
            first_hit(ps@.take(i as int), part, x, y) is None,
        decreases ps@.len() - i,
    {
        proof {
            assert(ps@.take(i + 1).drop_last() =~= ps@.take(i as int));
        }
        let p = ps[i];
        let r = match part {
            Part::IncomingButton => p.incoming_button,
            Part::OutgoingButton => p.outgoing_button,
            Part::Box => p.area,
        };
        if rect_contains(r, x, y) {
            proof {
                lemma_first_hit_extends(ps@, part, x, y, i + 1, i as int);
            }
            return Some(i);
        }
        i = i + 1;
    }
    assert(ps@.take(ps@.len() as int) =~= ps@);
    None
}

/// Toggles a branch of a node, moving the viewport so that the node keeps
/// its place on screen.
pub fn toggle_node_branch_stably(app: &mut App, node_id: NodeId, direction: HierarchyDirection, hierarchy_available: bool) -> (r:
    Option<HierarchyLoadRequest>)
    requires
        old(app).well_formed(),
        layable(old(app).graph),
    ensures
        final(app).well_formed(),
        layable(final(app).graph),
        exists|mid: App|
            node_branch_toggled(*old(app), mid, node_id, direction, hierarchy_available, r) && kept_in_place(
                *old(app),
                mid,
                *final(app),
                node_id,
            ),
{
    let before = node_world_anchor(&app.graph, app.selected, node_id);
    let ghost wb = choose|w: WorldLayoutSnapshot|
        world_layout_of(old(app).graph@, old(app).selected, w) && before == crate::input::anchor_of(w, old(app).graph@, node_id);
    let r = app.toggle_node_branch(node_id, direction, hierarchy_available);
    let ghost mid = *app;
    let after = node_world_anchor(&app.graph, app.selected, node_id);
    let ghost wa = choose|w: WorldLayoutSnapshot|
        world_layout_of(mid.graph@, mid.selected, w) && after == crate::input::anchor_of(w, mid.graph@, node_id);
    crate::input::pan_back(app, before, after);
    assert(node_branch_toggled(*old(app), mid, node_id, direction, hierarchy_available, r));
    assert(crate::input::panned(mid, *app, crate::input::anchor_of(wb, old(app).graph@, node_id), crate::input::anchor_of(wa, mid.graph@, node_id)));
    assert(kept_in_place(*old(app), mid, *app, node_id));
    r
}

/// The exact location of the node an id stands for: a URI with a line and
/// a column.
pub open spec fn exact_location(a: App, node_id: NodeId) -> Option<LocationView> {
    match resolve(a.graph@, node_id) {
        Some(x) => match node_of(a.graph@, x.0).location {
            Some(l) => if l.uri.len() > 0 && l.line is Some && l.character is Some {
                Some(l)
            } else {
                None
            },
            None => None,
        },
        None => None,
    }
}

/// A click on `node` at `now` follows one on the same node soon enough.
pub open spec fn is_double(last: Option<CanvasClick>, node: NodeId, now_ms: u64) -> bool {
    match last {
        Some(c) => c.node_id == node && (if now_ms >= c.at_ms {
            now_ms - c.at_ms
        } else {
            0
        }) <= DOUBLE_CLICK_TIMEOUT_MS,
        None => false,
    }
}

/// The canvas notice for a double click on a node without an exact
/// location.
pub open spec fn no_location_text() -> Seq<char> {
    "Selected node has no exact source location"@
}

/// What releasing the button does: a release on the node that was pressed,
/// without dragging, is a click; a second click on it soon enough opens
/// its exact location (the canvas says when it has none). Gives the click
/// to remember.
pub open spec fn released(
    a: App,
    b: App,
    d0: CanvasDragState,
    x: u16,
    y: u16,
    canvas: Rect,
    now_ms: u64,
    r: Option<InteractionRequest>,
    last: Option<CanvasClick>,
) -> bool {
    if d0.dragged || d0.pressed_node is None {
        r is None && b == a && last == d0.last_click
    } else if !contains_point(canvas, x, y) {
        r is None && b == a && last is None
    } else {
        let node = d0.pressed_node.unwrap();
        exists|w: WorldLayoutSnapshot|
            #![trigger world_layout_of(a.graph@, a.selected, w)]
            world_layout_of(a.graph@, a.selected, w) && {
                let ps = projected_nodes(w.nodes@, canvas, a.viewport);
                if !exists|i: int| 0 <= i < ps.len() && ps[i].node_id == node && contains_point(ps[i].area, x, y) {
                    r is None && b == a && last is None
                } else if !is_double(d0.last_click, node, now_ms) {
                    r is None && b == a && last == Some(CanvasClick { node_id: node, at_ms: now_ms })
                } else {
                    &&& last is None
                    &&& match exact_location(a, node) {
                        Some(l) => b == a && (r matches Some(InteractionRequest::OpenLocation(o)) && o@ == l),
                        None => {
                            &&& r is None
                            &&& noticed(a, b, no_location_text(), false)
                            &&& b.graph == a.graph
                            &&& b.selected == a.selected
                            &&& b.viewport == a.viewport
                            &&& kept(a, b)
                        },
                    }
                }
            }
    }
}

/// A side button of a node was pressed: that branch of the node is
/// toggled with the node kept in place, and a fetch it starts is handed
/// on.
pub open spec fn branch_pressed(
    a: App,
    b: App,
    node_id: NodeId,
    direction: HierarchyDirection,
    hierarchy_available: bool,
    r: Option<InteractionRequest>,
) -> bool {
    exists|mid: App, q: Option<HierarchyLoadRequest>|
        node_branch_toggled(a, mid, node_id, direction, hierarchy_available, q) && kept_in_place(a, mid, b, node_id)
            && hierarchy_request(q, r)
}

/// What pressing the left button does on the canvas: a side button toggles
/// that branch of its node, a node's box selects it (both keep the node in
/// place); the press is remembered for a drag or a click.
pub open spec fn pressed(
    a: App,
    b: App,
    d0: CanvasDragState,
    d1: CanvasDragState,
    x: u16,
    y: u16,
    canvas: Rect,
    hierarchy_available: bool,
    r: Option<InteractionRequest>,
) -> bool {
    if !contains_point(canvas, x, y) {
        r is None && b == a && d1 == idle()
    } else {
        exists|w: WorldLayoutSnapshot|
            #![trigger world_layout_of(a.graph@, a.selected, w)]
            world_layout_of(a.graph@, a.selected, w) && {
                let ps = projected_nodes(w.nodes@, canvas, a.viewport);
                match first_hit(ps, Part::IncomingButton, x, y) {
                    Some(i) => {
                        &&& d1 == idle()
                        &&& branch_pressed(a, b, ps[i].node_id, HierarchyDirection::Incoming, hierarchy_available, r)
                    },
                    None => match first_hit(ps, Part::OutgoingButton, x, y) {
                        Some(i) => {
                            &&& d1 == idle()
                            &&& branch_pressed(a, b, ps[i].node_id, HierarchyDirection::Outgoing, hierarchy_available, r)
                        },
                        None => match first_hit(ps, Part::Box, x, y) {
                            Some(i) => {
                                &&& r is None
                                &&& exists|mid: App, s: bool| node_selected(a, mid, ps[i].node_id, s) && kept_in_place(a, mid, b, ps[i].node_id)
                                &&& d1 == CanvasDragState {
                                    previous: Some((x, y)),
                                    pressed_node: Some(ps[i].node_id),
                                    dragged: false,
                                    last_click: d0.last_click,
                                }
                            },
                            None => {
                                &&& r is None
                                &&& b == a
                                &&& d1 == CanvasDragState { previous: Some((x, y)), pressed_node: None, dragged: false, last_click: None }
                            },
                        },
                    },
                }
            }
    }
}

/// What the mouse does on the canvas (see `pressed` and `released`);
/// dragging with the left button pans the viewport by the distance moved;
/// anything else does nothing.
pub open spec fn mouse_done(
    a: App,
    b: App,
    d0: CanvasDragState,
    d1: CanvasDragState,
    mouse: MouseEvent,
    hierarchy_available: bool,
    canvas: Rect,
    now_ms: u64,
    r: Option<InteractionRequest>,
) -> bool {
    let (x, y) = (mouse.column, mouse.row);
    match mouse.kind {
        MouseEventKind::Drag(MouseButton::Left) => match d0.previous {
            None => r is None && b == a && d1 == d0,
            Some((px, py)) => {
                &&& r is None
                &&& d1 == CanvasDragState { previous: Some((x, y)), dragged: true, last_click: None, ..d0 }
                &&& b.viewport.offset_x == saturated(a.viewport.offset_x + (x - px))
                &&& b.viewport.offset_y == saturated(a.viewport.offset_y + (y - py))
                &&& b.graph == a.graph
                &&& b.selected == a.selected
                &&& kept(a, b)
                &&& quiet(a, b)
            },
        },
        MouseEventKind::Up(MouseButton::Left) => exists|last: Option<CanvasClick>|
            released(a, b, d0, x, y, canvas, now_ms, r, last) && d1 == CanvasDragState {
                previous: None,
                pressed_node: None,
                dragged: false,
                last_click: last,
            },
        MouseEventKind::Down(MouseButton::Left) => pressed(a, b, d0, d1, x, y, canvas, hierarchy_available, r),
        _ => r is None && b == a && d1 == d0,
    }
}

/// Finishes a click when the button is released (see `released`).
fn finish_canvas_click(app: &mut App, mouse: MouseEvent, screen: Rect, drag: &mut CanvasDragState, now_ms: u64) -> (r:
    Option<InteractionRequest>)
    requires
        old(app).well_formed(),
        layable(old(app).graph),
    ensures
        final(app).well_formed(),
        layable(final(app).graph),
        released(*old(app), *final(app), *old(drag), mouse.column, mouse.row, canvas_area_of(screen), now_ms, r, final(drag).last_click),
        final(drag).previous == old(drag).previous,
        final(drag).pressed_node == old(drag).pressed_node,
        final(drag).dragged == old(drag).dragged,
{
    if drag.dragged {
        return None;
    }
    let node_id = match drag.pressed_node {
        None => {
            return None;
        },
        Some(n) => n,
    };
    let (x, y) = (mouse.column, mouse.row);
    let canvas = canvas_inner_area(screen);
    if !rect_contains(canvas, x, y) {
        drag.last_click = None;
        return None;
    }
    proof {
        lemma_live_count(&app.graph);
    }
    let layout = canvas_layout(canvas, &app.graph, app.selected, app.viewport);
    let ghost w = choose|w: WorldLayoutSnapshot|
        world_layout_of(app.graph@, app.selected, w) && layout.nodes@ == projected_nodes(w.nodes@, canvas, app.viewport);
    assert(world_layout_of(old(app).graph@, old(app).selected, w));
    let ghost ps = layout.nodes@;
    let mut on_node = false;
    let mut i: usize = 0;
    while i < layout.nodes.len()
        invariant
            i <= ps.len(),
            ps == layout.nodes@,
            on_node == exists|k: int| 0 <= k < i && ps[k].node_id == node_id && contains_point(ps[k].area, x, y),
        decreases ps.len() - i,
    {
        let p = layout.nodes[i];
        if p.node_id == node_id && rect_contains(p.area, x, y) {
            on_node = true;
        }
        i = i + 1;
    }
    if !on_node {
        drag.last_click = None;
        return None;
    }
    let double = match drag.last_click {
        Some(c) => c.node_id == node_id && now_ms.saturating_sub(c.at_ms) <= DOUBLE_CLICK_TIMEOUT_MS,
        None => false,
    };
    if !double {
        drag.last_click = Some(CanvasClick { node_id, at_ms: now_ms });
        return None;
    }
    drag.last_click = None;
    let location: Option<SourceLocation> = match app.graph.node(node_id) {
        Some(node) => match &node.location {
            Some(l) => if l.uri.as_str().unicode_len() > 0 && l.line.is_some() && l.character.is_some() {
                Some(copy_location(l))
            } else {
                None
            },
            None => None,
        },
        None => None,
    };
    match location {
        Some(l) => Some(InteractionRequest::OpenLocation(l)),
        None => {
            app.set_canvas_notice(String::from_str("Selected node has no exact source location"));
            proof {
                reveal_strlit("Selected node has no exact source location");
            }
            None
        },
    }
}

/// Handles the mouse on the canvas (see `mouse_done`); `now_ms` is when it
/// happened, by a clock that only goes forward.
pub fn handle_canvas_mouse(
    app: &mut App,
    mouse: MouseEvent,
    hierarchy_available: bool,
    screen: Rect,
    drag: &mut CanvasDragState,
    now_ms: u64,
) -> (r: Option<InteractionRequest>)
    requires
        old(app).well_formed(),
        layable(old(app).graph),
    ensures
        final(app).well_formed(),
        layable(final(app).graph),
        mouse_done(*old(app), *final(app), *old(drag), *final(drag), mouse, hierarchy_available, canvas_area_of(screen), now_ms, r),
{
    let (x, y) = (mouse.column, mouse.row);
    match mouse.kind {
        MouseEventKind::Drag(MouseButton::Left) => {
            let (px, py) = match drag.previous {
                None => {
                    return None;
                },
                Some(p) => p,
            };
            drag.dragged = true;
            drag.last_click = None;
            app.pan_viewport(x as i32 - px as i32, y as i32 - py as i32);
            drag.previous = Some((x, y));
            return None;
        },
        MouseEventKind::Up(MouseButton::Left) => {
            let request = finish_canvas_click(app, mouse, screen, drag, now_ms);
            drag.previous = None;
            drag.pressed_node = None;
            drag.dragged = false;
            return request;
        },
        MouseEventKind::Down(MouseButton::Left) => {},
        _ => {
            return None;
        },
    }
    let canvas = canvas_inner_area(screen);
    if !rect_contains(canvas, x, y) {
        *drag = CanvasDragState::default();
        return None;
    }
    proof {
        lemma_live_count(&app.graph);
    }
    let layout = canvas_layout(canvas, &app.graph, app.selected, app.viewport);
    let ghost w = choose|w: WorldLayoutSnapshot|
        world_layout_of(app.graph@, app.selected, w) && layout.nodes@ == projected_nodes(w.nodes@, canvas, app.viewport);
    assert(world_layout_of(old(app).graph@, old(app).selected, w));
    match find_hit(&layout.nodes, Part::IncomingButton, x, y) {
        Some(i) => {
            *drag = CanvasDragState::default();
            let node_id = layout.nodes[i].node_id;
            let q = toggle_node_branch_stably(app, node_id, HierarchyDirection::Incoming, hierarchy_available);
            let res = match q {
                None => None,
                Some(req) => {
                    let mut v: Vec<HierarchyLoadRequest> = Vec::new();
                    v.push(req);
                    assert(v@ =~= seq![req]);
                    Some(InteractionRequest::Hierarchy(v))
                },
            };
            proof {
                let ps = projected_nodes(w.nodes@, canvas, old(app).viewport);
                assert(ps[i as int].node_id == node_id);
                let mid = choose|mid: App|
                    node_branch_toggled(*old(app), mid, node_id, HierarchyDirection::Incoming, hierarchy_available, q)
                        && kept_in_place(*old(app), mid, *app, node_id);
                assert(hierarchy_request(q, res));
                assert(node_branch_toggled(*old(app), mid, node_id, HierarchyDirection::Incoming, hierarchy_available, q)
                    && kept_in_place(*old(app), mid, *app, node_id) && hierarchy_request(q, res));
                assert(branch_pressed(*old(app), *app, node_id, HierarchyDirection::Incoming, hierarchy_available, res));
            }
            return res;
        },
        None => {},
    }
    match find_hit(&layout.nodes, Part::OutgoingButton, x, y) {
        Some(i) => {
            *drag = CanvasDragState::default();
            let node_id = layout.nodes[i].node_id;
            let q = toggle_node_branch_stably(app, node_id, HierarchyDirection::Outgoing, hierarchy_available);
            let res = match q {
                None => None,
                Some(req) => {
                    let mut v: Vec<HierarchyLoadRequest> = Vec::new();
                    v.push(req);
                    assert(v@ =~= seq![req]);
                    Some(InteractionRequest::Hierarchy(v))
                },
            };
            proof {
                let ps = projected_nodes(w.nodes@, canvas, old(app).viewport);
                assert(ps[i as int].node_id == node_id);
                let mid = choose|mid: App|
                    node_branch_toggled(*old(app), mid, node_id, HierarchyDirection::Outgoing, hierarchy_available, q)
                        && kept_in_place(*old(app), mid, *app, node_id);
                assert(hierarchy_request(q, res));
                assert(node_branch_toggled(*old(app), mid, node_id, HierarchyDirection::Outgoing, hierarchy_available, q)
                    && kept_in_place(*old(app), mid, *app, node_id) && hierarchy_request(q, res));
                assert(branch_pressed(*old(app), *app, node_id, HierarchyDirection::Outgoing, hierarchy_available, res));
            }
            return res;
        },
        None => {},
    }
    match find_hit(&layout.nodes, Part::Box, x, y) {
        Some(i) => {
            let node_id = layout.nodes[i].node_id;
            crate::input::select_stably(app, node_id);
            drag.pressed_node = Some(node_id);
        },
        None => {
            drag.pressed_node = None;
            drag.last_click = None;
        },
    }
    drag.dragged = false;
    drag.previous = Some((x, y));
    None
}

} // verus!
