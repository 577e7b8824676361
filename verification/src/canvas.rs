//! The canvas on screen: which node slots of the world layout fall inside
//! the terminal area, where their buttons are, and the cells of the lines
//! that connect them.
use vstd::prelude::*;

use crate::layout::{world_canvas_layout, world_layout_of, EdgeVisualKind, LayoutEdge, WorldLayoutSnapshot, WorldNodePlacement, WorldRect};
use crate::relation::RelationGraph;
use crate::state::{NodeId, Viewport};

verus! {

/// A rectangle of terminal cells.
#[derive(Clone, Copy, Debug, PartialEq, Eq, Structural)]
pub struct Rect {
    pub x: u16,
    pub y: u16,
    pub width: u16,
    pub height: u16,
}

/// `x` held to the range of `u16`.
pub open spec fn clamp16(x: int) -> int {
    if x > u16::MAX {
        u16::MAX as int
    } else if x < 0 {
        0
    } else {
        x
    }
}

/// A rectangle whose width and height are cut so that its right and bottom
/// edges stay within `u16`.
pub open spec fn rect(x: u16, y: u16, width: u16, height: u16) -> Rect {
    Rect {
        x,
        y,
        width: if width > u16::MAX - x {
            (u16::MAX - x) as u16
        } else {
            width
        },
        height: if height > u16::MAX - y {
            (u16::MAX - y) as u16
        } else {
            height
        },
    }
}

/// The column just right of a rectangle.
pub open spec fn right_of(r: Rect) -> int {
    clamp16(r.x + r.width)
}

/// The row just below a rectangle.
pub open spec fn bottom_of(r: Rect) -> int {
    clamp16(r.y + r.height)
}

impl Rect {
    /// A rectangle whose width and height are cut so that its right and
    /// bottom edges stay within `u16`.
    pub fn new(x: u16, y: u16, width: u16, height: u16) -> (r: Rect)
        ensures
            r == rect(x, y, width, height),
    {
        let max_width = u16::MAX - x;
        let max_height = u16::MAX - y;
        Rect {
            x,
            y,
            width: if width > max_width {
                max_width
            } else {
                width
            },
            height: if height > max_height {
                max_height
            } else {
                height
            },
        }
    }

    /// The column just right of the rectangle.
    pub fn right(&self) -> (r: u16)
        ensures
            r == right_of(*self),
    {
        if self.x as u32 + self.width as u32 > u16::MAX as u32 {
            u16::MAX
        } else {
            self.x + self.width
        }
    }

    /// The row just below the rectangle.
    pub fn bottom(&self) -> (r: u16)
        ensures
            r == bottom_of(*self),
    {
        if self.y as u32 + self.height as u32 > u16::MAX as u32 {
            u16::MAX
        } else {
            self.y + self.height
        }
    }
}

/// Where a node sits on screen: its box and the two buttons that toggle its
/// branches.
#[derive(Clone, Copy, Debug, PartialEq, Eq, Structural)]
pub struct CanvasNodePlacement {
    pub node_id: NodeId,
    pub area: Rect,
    pub incoming_button: Rect,
    pub outgoing_button: Rect,
}

/// Where a slot of the world falls on screen, the area's centre being the
/// world's origin moved by the viewport; `None` unless the whole slot is
/// inside the area.
pub open spec fn projected(area: Rect, slot: WorldRect, viewport: Viewport) -> Option<Rect> {
    let anchor_x = area.x + area.width / 2;
    let anchor_y = area.y + area.height / 2;
    let screen_x = anchor_x + slot.x + viewport.offset_x;
    let screen_y = anchor_y + slot.y + viewport.offset_y;
    if slot.width > area.width || slot.height > area.height {
        None
    } else if screen_x < area.x || screen_y < area.y || screen_x + slot.width > right_of(area) || screen_y
        + slot.height > bottom_of(area) {
        None
    } else {
        Some(rect(screen_x as u16, screen_y as u16, slot.width, slot.height))
    }
}

/// Where a slot of the world falls on screen.
pub fn project_world_slot(area: Rect, slot: WorldRect, viewport: Viewport) -> (r: Option<Rect>)
    ensures
        r == projected(area, slot, viewport),
{
    if slot.width > area.width || slot.height > area.height {
        return None;
    }
    let anchor_x: i64 = area.x as i64 + (area.width / 2) as i64;
    let anchor_y: i64 = area.y as i64 + (area.height / 2) as i64;
    let screen_x: i64 = anchor_x + slot.x as i64 + viewport.offset_x as i64;
    let screen_y: i64 = anchor_y + slot.y as i64 + viewport.offset_y as i64;
    let right = screen_x + slot.width as i64;
    let bottom = screen_y + slot.height as i64;
    if screen_x < area.x as i64 || screen_y < area.y as i64 || right > area.right() as i64 || bottom
        > area.bottom() as i64 {
        return None;
    }
    Some(Rect::new(screen_x as u16, screen_y as u16, slot.width, slot.height))
}

/// The width of each button: three cells, or a third of a narrow slot.
pub open spec fn button_width(slot: Rect) -> u16 {
    if slot.width / 3 < 3 {
        (slot.width / 3) as u16
    } else {
        3
    }
}

/// A node's box between its two buttons, which sit on the middle row of
/// the slot.
pub open spec fn placement_of(node_id: NodeId, slot: Rect) -> CanvasNodePlacement {
    let b = button_width(slot);
    let area = rect(clamp16(slot.x + b) as u16, slot.y, clamp16(slot.width - 2 * b) as u16, slot.height);
    let middle = clamp16(slot.y + slot.height / 2) as u16;
    CanvasNodePlacement {
        node_id,
        area,
        incoming_button: rect(slot.x, middle, b, 1),
        outgoing_button: rect(right_of(area) as u16, middle, b, 1),
    }
}

/// A node's box and buttons in its slot.
pub fn node_placement(node_id: NodeId, slot: Rect) -> (r: CanvasNodePlacement)
    ensures
        r == placement_of(node_id, slot),
{
    let b: u16 = if slot.width / 3 < 3 {
        slot.width / 3
    } else {
        3
    };
    let area_x: u16 = if slot.x as u32 + b as u32 > u16::MAX as u32 {
        u16::MAX
    } else {
        slot.x + b
    };
    let area_width: u16 = slot.width - 2 * b;
    let area = Rect::new(area_x, slot.y, area_width, slot.height);
    let middle: u16 = if slot.y as u32 + (slot.height / 2) as u32 > u16::MAX as u32 {
        u16::MAX
    } else {
        slot.y + slot.height / 2
    };
    CanvasNodePlacement {
        node_id,
        area,
        incoming_button: Rect::new(slot.x, middle, b, 1),
        outgoing_button: Rect::new(area.right(), middle, b, 1),
    }
}

/// The box of a placement together with its buttons.
pub open spec fn bounds_of(p: CanvasNodePlacement) -> Rect {
    let x = if p.incoming_button.x < p.area.x {
        p.incoming_button.x
    } else {
        p.area.x
    };
    let right = if right_of(p.outgoing_button) > right_of(p.area) {
        right_of(p.outgoing_button)
    } else {
        right_of(p.area)
    };
    rect(x, p.area.y, clamp16(right - x) as u16, p.area.height)
}

/// The box of a placement together with its buttons.
pub fn placement_bounds(placement: CanvasNodePlacement) -> (r: Rect)
    ensures
        r == bounds_of(placement),
{
    let x = if placement.incoming_button.x < placement.area.x {
        placement.incoming_button.x
    } else {
        placement.area.x
    };
    let outgoing_right = placement.outgoing_button.right();
    let area_right = placement.area.right();
    let right = if outgoing_right > area_right {
        outgoing_right
    } else {
        area_right
    };
    let width: u16 = if right >= x {
        right - x
    } else {
        0
    };
    Rect::new(x, placement.area.y, width, placement.area.height)
}

/// One cell of a connection line.
#[derive(Clone, Copy, Debug, PartialEq, Eq, Structural)]
pub struct CanvasLineCell {
    pub x: u16,
    pub y: u16,
    pub symbol: char,
    pub visual_kind: EdgeVisualKind,
}

/// The cells of one relation on screen.
#[derive(Clone, Debug, PartialEq, Eq)]
pub struct CanvasEdge {
    pub source_id: NodeId,
    pub target_id: NodeId,
    pub visual_kind: EdgeVisualKind,
    pub cells: Vec<CanvasLineCell>,
}

/// An arrow or loop marker.
pub open spec fn is_marker(c: char) -> bool {
    c == '◀' || c == '▶' || c == '▲' || c == '▼' || c == '↺'
}

/// A single or double line.
pub open spec fn is_line(c: char) -> bool {
    c == '─' || c == '│' || c == '═' || c == '║'
}

/// What a cell shows when a line symbol is drawn over what it showed: the
/// same line stays, single and double lines cross as a double crossing,
/// markers win, and anything else crosses.
pub open spec fn merged_symbol(existing: Seq<char>, incoming: char) -> char {
    if existing.len() == 0 || existing == seq![' '] {
        incoming
    } else if existing.len() == 1 && existing[0] == incoming && is_line(incoming) {
        incoming
    } else if existing == seq!['┼'] && (incoming == '─' || incoming == '│') {
        '┼'
    } else if existing == seq!['╬'] || incoming == '╬' {
        '╬'
    } else if existing.len() == 1 && (existing[0] == '═' || existing[0] == '║') && is_line(incoming) {
        '╬'
    } else if existing.len() == 1 && (existing[0] == '─' || existing[0] == '│') && (incoming == '═' || incoming == '║') {
        '╬'
    } else if is_marker(incoming) {
        incoming
    } else if existing.len() == 1 && is_marker(existing[0]) {
        existing[0]
    } else {
        '┼'
    }
}

/// What a cell shows when a symbol is drawn over what it showed.
pub fn merge_connection_symbol(existing: &str, incoming: char) -> (r: char)
    ensures
        r == merged_symbol(existing@, incoming),
{
    let chars = crate::text::chars_of(existing);
    merge_symbol_chars(chars.as_slice(), incoming)
}

/// What a cell showing `existing` shows when `incoming` is drawn over it.
fn merge_symbol_chars(existing: &[char], incoming: char) -> (r: char)
    ensures
        r == merged_symbol(existing@, incoming),
{
    let n = existing.len();
    let single: Option<char> = if n == 1 {
        Some(existing[0])
    } else {
        None
    };
    let line = incoming == '─' || incoming == '│' || incoming == '═' || incoming == '║';
    let marker = incoming == '◀' || incoming == '▶' || incoming == '▲' || incoming == '▼' || incoming == '↺';
    if n == 0 || single == Some(' ') {
        proof {
            if n == 1 {
                assert(existing@ =~= seq![' ']);
            }
        }
        return incoming;
    }
    proof {
        if n == 1 {
            assert(existing@ != seq![' ']) by {
                if existing@ == seq![' '] {
                    assert(existing@[0] == ' ');
                }
            }
        } else {
            assert(existing@ != seq![' ']) by {
                if existing@ == seq![' '] {
                    assert(existing@.len() == 1);
                }
            }
            assert(existing@ != seq!['┼']) by {
                if existing@ == seq!['┼'] {
                    assert(existing@.len() == 1);
                }
            }
            assert(existing@ != seq!['╬']) by {
                if existing@ == seq!['╬'] {
                    assert(existing@.len() == 1);
                }
            }
        }
    }
    match single {
        Some(c) => {
            proof {
                assert(existing@ == seq![c]) by {
                    assert(existing@ =~= seq![c]);
                }
            }
            if c == incoming && line {
                incoming
            } else if c == '┼' && (incoming == '─' || incoming == '│') {
                '┼'
            } else if c == '╬' || incoming == '╬' {
                '╬'
            } else if (c == '═' || c == '║') && line {
                '╬'
            } else if (c == '─' || c == '│') && (incoming == '═' || incoming == '║') {
                '╬'
            } else if marker {
                incoming
            } else if c == '◀' || c == '▶' || c == '▲' || c == '▼' || c == '↺' {
                c
            } else {
                '┼'
            }
        },
        None => {
            if incoming == '╬' {
                '╬'
            } else if marker {
                incoming
            } else {
                '┼'
            }
        },
    }
}

/// The first cell at column `x` and row `y`, if any.
pub open spec fn cell_at(cells: Seq<CanvasLineCell>, x: u16, y: u16) -> Option<int>
    decreases cells.len(),
{
    if cells.len() == 0 {
        None
    } else {
        match cell_at(cells.drop_last(), x, y) {
            Some(i) => Some(i),
            None => if cells.last().x == x && cells.last().y == y {
                Some(cells.len() - 1)
            } else {
                None
            },
        }
    }
}

/// The cells after drawing `symbol` at a position: the first cell there
/// merges the symbol and takes a special style, or a new cell is added.
pub open spec fn pushed(cells: Seq<CanvasLineCell>, x: u16, y: u16, symbol: char, kind: EdgeVisualKind) -> Seq<CanvasLineCell> {
    match cell_at(cells, x, y) {
        Some(i) => cells.update(
            i,
            CanvasLineCell {
                symbol: merged_symbol(seq![cells[i].symbol], symbol),
                visual_kind: if kind != EdgeVisualKind::Forward {
                    kind
                } else {
                    cells[i].visual_kind
                },
                ..cells[i]
            },
        ),
        None => cells.push(CanvasLineCell { x, y, symbol, visual_kind: kind }),
    }
}

proof fn lemma_cell_at(cells: Seq<CanvasLineCell>, x: u16, y: u16)
    ensures
        match cell_at(cells, x, y) {
            Some(i) => 0 <= i < cells.len() && cells[i].x == x && cells[i].y == y && forall|j: int|
                0 <= j < i ==> !(cells[j].x == x && cells[j].y == y),
            None => forall|j: int| 0 <= j < cells.len() ==> !(cells[j].x == x && cells[j].y == y),
        },
    decreases cells.len(),
{
    if cells.len() > 0 {
        let init = cells.drop_last();
        lemma_cell_at(init, x, y);
        assert forall|j: int| 0 <= j < init.len() implies init[j] == cells[j] by {}
    }
}

/// Draws `symbol` at a position.
pub fn push_connection_cell(cells: &mut Vec<CanvasLineCell>, x: u16, y: u16, symbol: char, visual_kind: EdgeVisualKind)
    ensures
        final(cells)@ == pushed(old(cells)@, x, y, symbol, visual_kind),
{
    proof {
        lemma_cell_at(cells@, x, y);
    }
    let mut i: usize = 0;
    while i < cells.len()
        invariant
            i <= cells@.len(),
            cells@ == old(cells)@,
            forall|j: int| 0 <= j < i ==> !(cells@[j].x == x && cells@[j].y == y),
            match cell_at(cells@, x, y) {
                Some(k) => 0 <= k < cells@.len() && cells@[k].x == x && cells@[k].y == y && forall|j: int|
                    0 <= j < k ==> !(cells@[j].x == x && cells@[j].y == y),
                None => forall|j: int| 0 <= j < cells@.len() ==> !(cells@[j].x == x && cells@[j].y == y),
            },
        decreases cells@.len() - i,
    {
        if cells[i].x == x && cells[i].y == y {
            let existing = cells[i];
            let merged = merge_symbol_chars(&[existing.symbol], symbol);
            let kind = if visual_kind.is_special() {
                visual_kind
            } else {
                existing.visual_kind
            };
            proof {
                assert(cell_at(cells@, x, y) == Some(i as int));
                assert([existing.symbol]@ =~= seq![existing.symbol]);
            }
            cells.set(i, CanvasLineCell { symbol: merged, visual_kind: kind, ..existing });
            return;
        }
        i = i + 1;
    }
    cells.push(CanvasLineCell { x, y, symbol, visual_kind });
}

/// The symbol of a horizontal or vertical line in a style.
pub open spec fn line_symbol(kind: EdgeVisualKind, horizontal: bool) -> char {
    if horizontal {
        if kind != EdgeVisualKind::Forward {
            '═'
        } else {
            '─'
        }
    } else {
        if kind != EdgeVisualKind::Forward {
            '║'
        } else {
            '│'
        }
    }
}

/// The cells after drawing a run of `symbol` along a row or a column, from
/// `from` to `to`.
pub open spec fn run(cells: Seq<CanvasLineCell>, from: int, to: int, fixed: u16, horizontal: bool, symbol: char, kind: EdgeVisualKind) -> Seq<CanvasLineCell>
    decreases to - from + 1,
{
    if from > to || from < 0 || from > u16::MAX {
        cells
    } else {
        let next = if horizontal {
            pushed(cells, from as u16, fixed, symbol, kind)
        } else {
            pushed(cells, fixed, from as u16, symbol, kind)
        };
        run(next, from + 1, to, fixed, horizontal, symbol, kind)
    }
}

/// The cells after drawing the straight segment between two points: along
/// the row when they share one, else along the column of the first.
pub open spec fn segment(cells: Seq<CanvasLineCell>, from: (u16, u16), to: (u16, u16), kind: EdgeVisualKind) -> Seq<CanvasLineCell> {
    if from.1 == to.1 {
        let lo: int = if from.0 < to.0 {
            from.0 as int
        } else {
            to.0 as int
        };
        let hi: int = if from.0 < to.0 {
            to.0 as int
        } else {
            from.0 as int
        };
        run(cells, lo, hi, from.1, true, line_symbol(kind, true), kind)
    } else {
        let lo: int = if from.1 < to.1 {
            from.1 as int
        } else {
            to.1 as int
        };
        let hi: int = if from.1 < to.1 {
            to.1 as int
        } else {
            from.1 as int
        };
        run(cells, lo, hi, from.0, false, line_symbol(kind, false), kind)
    }
}

/// The cells of a line through the points, segment by segment.
pub open spec fn polyline(points: Seq<(u16, u16)>, kind: EdgeVisualKind) -> Seq<CanvasLineCell>
    decreases points.len(),
{
    if points.len() < 2 {
        seq![]
    } else {
        segment(polyline(points.drop_last(), kind), points[points.len() - 2], points[points.len() - 1], kind)
    }
}

/// Draws a run of `symbol` along a row or a column.
fn draw_run(cells: &mut Vec<CanvasLineCell>, from: u16, to: u16, fixed: u16, horizontal: bool, symbol: char, kind: EdgeVisualKind)
    requires
        from <= to,
    ensures
        final(cells)@ == run(old(cells)@, from as int, to as int, fixed, horizontal, symbol, kind),
{
    let mut v: u32 = from as u32;
    while v <= to as u32
        invariant
            from <= v <= to as u32 + 1,
            run(old(cells)@, from as int, to as int, fixed, horizontal, symbol, kind) == run(
                cells@,
                v as int,
                to as int,
                fixed,
                horizontal,
                symbol,
                kind,
            ),
        decreases to as u32 + 1 - v,
    {
        if horizontal {
            push_connection_cell(cells, v as u16, fixed, symbol, kind);
        } else {
            push_connection_cell(cells, fixed, v as u16, symbol, kind);
        }
        v = v + 1;
    }
}

/// The cells of a line through the points.
pub fn polyline_connection(points: &[(u16, u16)], visual_kind: EdgeVisualKind) -> (r: Vec<CanvasLineCell>)
    ensures
        r@ == polyline(points@, visual_kind),
{
    let mut cells: Vec<CanvasLineCell> = Vec::new();
    if points.len() < 2 {
        return cells;
    }
    let mut k: usize = 1;
    assert(polyline(points@.take(1), visual_kind) == Seq::<CanvasLineCell>::empty());
    while k < points.len()
        invariant
            1 <= k <= points@.len(),
            cells@ == polyline(points@.take(k as int), visual_kind),
        decreases points@.len() - k,
    {
        let from = points[k - 1];
        let to = points[k];
        proof {
            let t = points@.take(k + 1);
            assert(t.drop_last() =~= points@.take(k as int));
            assert(t[t.len() - 2] == from && t[t.len() - 1] == to);
        }
        let special = visual_kind.is_special();
        if from.1 == to.1 {
            let symbol = if special {
                '═'
            } else {
                '─'
            };
            let (lo, hi) = if from.0 < to.0 {
                (from.0, to.0)
            } else {
                (to.0, from.0)
            };
            draw_run(&mut cells, lo, hi, from.1, true, symbol, visual_kind);
        } else {
            let symbol = if special {
                '║'
            } else {
                '│'
            };
            let (lo, hi) = if from.1 < to.1 {
                (from.1, to.1)
            } else {
                (to.1, from.1)
            };
            draw_run(&mut cells, lo, hi, from.0, false, symbol, visual_kind);
        }
        k = k + 1;
    }
    assert(points@.take(points@.len() as int) =~= points@);
    cells
}

/// `(a + b) / 2`, rounded down.
pub open spec fn midpoint(a: u16, b: u16) -> u16 {
    ((a + b) / 2) as u16
}

/// The cells of a forward relation: right along the source row to the
/// middle column, along it to the target row, then right to the target.
pub open spec fn orthogonal(from: (u16, u16), to: (u16, u16), kind: EdgeVisualKind) -> Seq<CanvasLineCell> {
    let bend = midpoint(from.0, to.0);
    polyline(seq![from, (bend, from.1), (bend, to.1), to], kind)
}

/// The cells of a line that bends once in the middle column.
pub fn orthogonal_connection(from: (u16, u16), to: (u16, u16), visual_kind: EdgeVisualKind) -> (r: Vec<CanvasLineCell>)
    ensures
        r@ == orthogonal(from, to, visual_kind),
{
    let bend: u16 = ((from.0 as u32 + to.0 as u32) / 2) as u16;
    let points = [from, (bend, from.1), (bend, to.1), to];
    proof {
        assert(points@ =~= seq![from, (bend, from.1), (bend, to.1), to]);
    }
    polyline_connection(&points, visual_kind)
}

/// `a - b`, but not below zero.
pub open spec fn down(a: u16, b: u16) -> u16 {
    if a >= b {
        (a - b) as u16
    } else {
        0
    }
}

/// The cells of a relation drawn back: left out of the source's incoming
/// button to a channel left of both nodes, along it, and right into the
/// target's outgoing button, which gets a left arrow.
pub open spec fn back(source: CanvasNodePlacement, target: CanvasNodePlacement) -> Seq<CanvasLineCell> {
    let from = (source.incoming_button.x, source.incoming_button.y);
    let to = (down(right_of(target.outgoing_button) as u16, 1), target.outgoing_button.y);
    let channel = down(if from.0 < to.0 {
        from.0
    } else {
        to.0
    }, 2);
    pushed(
        polyline(seq![from, (channel, from.1), (channel, to.1), to], EdgeVisualKind::BackOrCycle),
        right_of(target.outgoing_button) as u16,
        target.outgoing_button.y,
        '◀',
        EdgeVisualKind::BackOrCycle,
    )
}

/// The cells of a relation drawn back.
pub fn back_connection(source: &CanvasNodePlacement, target: &CanvasNodePlacement) -> (r: Vec<CanvasLineCell>)
    ensures
        r@ == back(*source, *target),
{
    let from = (source.incoming_button.x, source.incoming_button.y);
    let target_right = target.outgoing_button.right();
    let to_x: u16 = if target_right >= 1 {
        target_right - 1
    } else {
        0
    };
    let to = (to_x, target.outgoing_button.y);
    let nearer = if from.0 < to.0 {
        from.0
    } else {
        to.0
    };
    let channel: u16 = if nearer >= 2 {
        nearer - 2
    } else {
        0
    };
    let points = [from, (channel, from.1), (channel, to.1), to];
    proof {
        assert(points@ =~= seq![from, (channel, from.1), (channel, to.1), to]);
    }
    let mut cells = polyline_connection(&points, EdgeVisualKind::BackOrCycle);
    push_connection_cell(&mut cells, target_right, target.outgoing_button.y, '◀', EdgeVisualKind::BackOrCycle);
    cells
}

/// `a + b`, but not above `u16::MAX`.
pub open spec fn up(a: u16, b: u16) -> u16 {
    clamp16(a + b) as u16
}

/// The cells of a relation of a node to itself: right out of the outgoing
/// button to a channel, down below the box and back left, with a loop
/// marker above the button.
pub open spec fn self_loop(source: CanvasNodePlacement) -> Seq<CanvasLineCell> {
    let right = right_of(source.outgoing_button) as u16;
    let from = (down(right, 1), source.outgoing_button.y);
    let channel = up(right, 2);
    let lower = bottom_of(source.area) as u16;
    pushed(
        polyline(seq![from, (channel, from.1), (channel, lower), (right, lower)], EdgeVisualKind::SelfLoop),
        right,
        down(source.outgoing_button.y, 1),
        '↺',
        EdgeVisualKind::SelfLoop,
    )
}

/// The cells of a relation of a node to itself.
pub fn self_loop_connection(source: &CanvasNodePlacement) -> (r: Vec<CanvasLineCell>)
    ensures
        r@ == self_loop(*source),
{
    let right = source.outgoing_button.right();
    let from_x: u16 = if right >= 1 {
        right - 1
    } else {
        0
    };
    let from = (from_x, source.outgoing_button.y);
    let channel: u16 = if right as u32 + 2 > u16::MAX as u32 {
        u16::MAX
    } else {
        right + 2
    };
    let lower = source.area.bottom();
    let points = [from, (channel, from.1), (channel, lower), (right, lower)];
    proof {
        assert(points@ =~= seq![from, (channel, from.1), (channel, lower), (right, lower)]);
    }
    let mut cells = polyline_connection(&points, EdgeVisualKind::SelfLoop);
    let marker_y: u16 = if source.outgoing_button.y >= 1 {
        source.outgoing_button.y - 1
    } else {
        0
    };
    push_connection_cell(&mut cells, right, marker_y, '↺', EdgeVisualKind::SelfLoop);
    cells
}

/// The first placement of a node, if any.
pub open spec fn first_placed(ps: Seq<CanvasNodePlacement>, id: NodeId) -> Option<int>
    decreases ps.len(),
{
    if ps.len() == 0 {
        None
    } else {
        match first_placed(ps.drop_last(), id) {
            Some(i) => Some(i),
            None => if ps.last().node_id == id {
                Some(ps.len() - 1)
            } else {
                None
            },
        }
    }
}

proof fn lemma_first_placed(ps: Seq<CanvasNodePlacement>, id: NodeId)
    ensures
        match first_placed(ps, id) {
            Some(i) => 0 <= i < ps.len() && ps[i].node_id == id && forall|j: int| 0 <= j < i ==> ps[j].node_id != id,
            None => forall|j: int| 0 <= j < ps.len() ==> ps[j].node_id != id,
        },
    decreases ps.len(),
{
    if ps.len() > 0 {
        let init = ps.drop_last();
        lemma_first_placed(init, id);
        assert forall|j: int| 0 <= j < init.len() implies init[j] == ps[j] by {}
    }
}

/// Where a node is placed.
pub(crate) fn find_placement(placements: &[CanvasNodePlacement], id: NodeId) -> (r: Option<usize>)
    ensures
        match r {
            Some(i) => i < placements@.len() && first_placed(placements@, id) == Some(i as int),
            None => first_placed(placements@, id) is None,
        },
{
    proof {
        lemma_first_placed(placements@, id);
    }
    let mut i: usize = 0;
    while i < placements.len()
        invariant
            i <= placements@.len(),
            forall|j: int| 0 <= j < i ==> placements@[j].node_id != id,
            match first_placed(placements@, id) {
                Some(k) => 0 <= k < placements@.len() && placements@[k].node_id == id && forall|j: int|
                    0 <= j < k ==> placements@[j].node_id != id,
                None => forall|j: int| 0 <= j < placements@.len() ==> placements@[j].node_id != id,
            },
        decreases placements@.len() - i,
    {
        if placements[i].node_id == id {
            return Some(i);
        }
        i = i + 1;
    }
    None
}

/// The cells of a relation between two placed nodes, by how it is drawn.
pub open spec fn route_cells(kind: EdgeVisualKind, source: CanvasNodePlacement, target: CanvasNodePlacement) -> Seq<CanvasLineCell> {
    match kind {
        EdgeVisualKind::Forward => orthogonal(
            (down(right_of(source.outgoing_button) as u16, 1), source.outgoing_button.y),
            (target.incoming_button.x, target.incoming_button.y),
            kind,
        ),
        EdgeVisualKind::BackOrCycle => back(source, target),
        EdgeVisualKind::SelfLoop => self_loop(source),
    }
}

/// A relation on screen with its cells as a sequence.
pub struct EdgeView {
    pub source_id: NodeId,
    pub target_id: NodeId,
    pub visual_kind: EdgeVisualKind,
    pub cells: Seq<CanvasLineCell>,
}

impl View for CanvasEdge {
    type V = EdgeView;

    open spec fn view(&self) -> EdgeView {
        EdgeView { source_id: self.source_id, target_id: self.target_id, visual_kind: self.visual_kind, cells: self.cells@ }
    }
}

/// A relation on screen: `None` unless both its nodes are placed.
pub open spec fn routed(edge: LayoutEdge, ps: Seq<CanvasNodePlacement>) -> Option<EdgeView> {
    match (first_placed(ps, edge.source_id), first_placed(ps, edge.target_id)) {
        (Some(a), Some(b)) => Some(
            EdgeView {
                source_id: edge.source_id,
                target_id: edge.target_id,
                visual_kind: edge.visual_kind,
                cells: route_cells(edge.visual_kind, ps[a], ps[b]),
            },
        ),
        _ => None,
    }
}

/// Routes a relation between the placed nodes.
pub fn route_edge(edge: LayoutEdge, placements: &[CanvasNodePlacement]) -> (r: Option<CanvasEdge>)
    ensures
        match r {
            Some(e) => routed(edge, placements@) == Some(e@),
            None => routed(edge, placements@) is None,
        },
{
    let source = match find_placement(placements, edge.source_id) {
        Some(i) => placements[i],
        None => {
            return None;
        },
    };
    let target = match find_placement(placements, edge.target_id) {
        Some(i) => placements[i],
        None => {
            return None;
        },
    };
    let cells = match edge.visual_kind {
        EdgeVisualKind::Forward => {
            let right = source.outgoing_button.right();
            let from_x: u16 = if right >= 1 {
                right - 1
            } else {
                0
            };
            orthogonal_connection(
                (from_x, source.outgoing_button.y),
                (target.incoming_button.x, target.incoming_button.y),
                edge.visual_kind,
            )
        },
        EdgeVisualKind::BackOrCycle => back_connection(&source, &target),
        EdgeVisualKind::SelfLoop => self_loop_connection(&source),
    };
    Some(CanvasEdge { source_id: edge.source_id, target_id: edge.target_id, visual_kind: edge.visual_kind, cells })
}

/// The placements on screen of the world's nodes whose slots fit in the
/// area, in order.
pub open spec fn projected_nodes(ps: Seq<WorldNodePlacement>, area: Rect, viewport: Viewport) -> Seq<CanvasNodePlacement>
    decreases ps.len(),
{
    if ps.len() == 0 {
        seq![]
    } else {
        let prev = projected_nodes(ps.drop_last(), area, viewport);
        match projected(area, ps.last().slot, viewport) {
            Some(slot) => prev.push(placement_of(ps.last().node_id, slot)),
            None => prev,
        }
    }
}

/// The relations on screen, in order, of those whose nodes are both placed.
pub open spec fn routed_edges(es: Seq<LayoutEdge>, ps: Seq<CanvasNodePlacement>) -> Seq<EdgeView>
    decreases es.len(),
{
    if es.len() == 0 {
        seq![]
    } else {
        let prev = routed_edges(es.drop_last(), ps);
        match routed(es.last(), ps) {
            Some(e) => prev.push(e),
            None => prev,
        }
    }
}

/// The relations drawn in the special style, or the others, in order.
pub open spec fn of_style(es: Seq<EdgeView>, special: bool) -> Seq<EdgeView>
    decreases es.len(),
{
    if es.len() == 0 {
        seq![]
    } else {
        let prev = of_style(es.drop_last(), special);
        if (es.last().visual_kind != EdgeVisualKind::Forward) == special {
            prev.push(es.last())
        } else {
            prev
        }
    }
}

/// What the canvas shows, node boxes and relation cells.
#[derive(Clone, Debug, PartialEq, Eq)]
pub struct CanvasLayoutSnapshot {
    pub nodes: Vec<CanvasNodePlacement>,
    pub edges: Vec<CanvasEdge>,
}

/// The views of a list of relations.
pub open spec fn edge_views(v: Seq<CanvasEdge>) -> Seq<EdgeView> {
    Seq::new(v.len(), |i: int| v[i]@)
}

/// The canvas for a terminal area: the world layout moved by the viewport,
/// the nodes whose slots fit the area, and the relations between them, the
/// special ones last so that they are drawn on top.
pub fn canvas_layout(area: Rect, graph: &RelationGraph, selected: Option<NodeId>, viewport: Viewport) -> (r: CanvasLayoutSnapshot)
    requires
        graph.well_formed(),
        graph@.index_of.dom().len() <= i32::MAX,
    ensures
        exists|w: WorldLayoutSnapshot|
            #![trigger world_layout_of(graph@, selected, w)]
            {
                &&& world_layout_of(graph@, selected, w)
                &&& r.nodes@ == projected_nodes(w.nodes@, area, viewport)
                &&& edge_views(r.edges@) == of_style(routed_edges(w.edges@, r.nodes@), false) + of_style(
                    routed_edges(w.edges@, r.nodes@),
                    true,
                )
            },
{
    let world = world_canvas_layout(graph, selected);
    let mut nodes: Vec<CanvasNodePlacement> = Vec::new();
    let mut i: usize = 0;
    assert(world.nodes@.take(0) =~= Seq::<WorldNodePlacement>::empty());
    while i < world.nodes.len()
        invariant
            i <= world.nodes@.len(),
            nodes@ == projected_nodes(world.nodes@.take(i as int), area, viewport),
        decreases world.nodes@.len() - i,
    {
        let p = world.nodes[i];
        proof {
            let t = world.nodes@.take(i + 1);
            assert(t.drop_last() =~= world.nodes@.take(i as int));
            assert(t.last() == p);
        }
        match project_world_slot(area, p.slot, viewport) {
            Some(slot) => nodes.push(node_placement(p.node_id, slot)),
            None => {},
        }
        i = i + 1;
    }
    assert(world.nodes@.take(world.nodes@.len() as int) =~= world.nodes@);
    let mut plain: Vec<CanvasEdge> = Vec::new();
    let mut special: Vec<CanvasEdge> = Vec::new();
    let mut k: usize = 0;
    assert(world.edges@.take(0) =~= Seq::<LayoutEdge>::empty());
    while k < world.edges.len()
        invariant
            k <= world.edges@.len(),
            edge_views(plain@) == of_style(routed_edges(world.edges@.take(k as int), nodes@), false),
            edge_views(special@) == of_style(routed_edges(world.edges@.take(k as int), nodes@), true),
        decreases world.edges@.len() - k,
    {
        let e = world.edges[k];
        let ghost before = routed_edges(world.edges@.take(k as int), nodes@);
        proof {
            let t = world.edges@.take(k + 1);
            assert(t.drop_last() =~= world.edges@.take(k as int));
            assert(t.last() == e);
        }
        match route_edge(e, nodes.as_slice()) {
            Some(routed_edge) => {
                let ghost now = before.push(routed_edge@);
                assert(now.drop_last() =~= before);
                if routed_edge.visual_kind.is_special() {
                    let ghost old_view = edge_views(special@);
                    special.push(routed_edge);
                    assert(edge_views(special@) =~= old_view.push(routed_edge@));
                } else {
                    let ghost old_view = edge_views(plain@);
                    plain.push(routed_edge);
                    assert(edge_views(plain@) =~= old_view.push(routed_edge@));
                }
            },
            None => {},
        }
        k = k + 1;
    }
    assert(world.edges@.take(world.edges@.len() as int) =~= world.edges@);
    let ghost first = edge_views(plain@);
    let ghost second = edge_views(special@);
    plain.append(&mut special);
    assert(edge_views(plain@) =~= first + second);
    CanvasLayoutSnapshot { nodes, edges: plain }
}

} // verus!
