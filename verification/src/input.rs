//! What the keyboard does on the canvas: the two-key commands, moving the
//! selection to the nearest node in a direction, and toggling a branch
//! without moving its node on screen.
use vstd::prelude::*;

use crate::app::{anchor_deleted, kept, quiet, same_but_dialogs, save_view, saturated, saturating_add_i32, unnoticed, App, HelpState};
use crate::canvas::{canvas_layout, find_placement, first_placed, projected_nodes, CanvasNodePlacement, Rect};
use crate::keys::{KeyCode, KeyEvent};
use crate::layout::{clamp32, world_canvas_layout, world_layout_of, WorldLayoutSnapshot, WorldNodePlacement};
use crate::loads::{branch_deleted, branches_refreshed, selected_branch_toggled, HierarchyLoadRequest};
use crate::relation::{lemma_live_count, resolve, RelationGraph, RelationModel};
use crate::protocol::HierarchyResponse;
use crate::state::{HierarchyDirection, NodeId, SourceLocation};

verus! {

/// Which workspace symbols a search looks for.
#[derive(Clone, Copy, Debug, PartialEq, Eq, Structural)]
pub enum SearchKind {
    Call,
    Type,
}

/// A direction of the keyboard navigation.
#[derive(Clone, Copy, Debug, PartialEq, Eq, Structural)]
pub enum NavigationDirection {
    Left,
    Right,
    Up,
    Down,
}

/// Work that a key or click asks of the viewer around the library.
#[derive(Clone, Debug)]
pub enum InteractionRequest {
    /// Open the workspace-symbol search for calls or types.
    Search(SearchKind),
    /// Fetch these hierarchy branches.
    Hierarchy(Vec<HierarchyLoadRequest>),
    /// Open a source location in the editor.
    OpenLocation(SourceLocation),
    /// Edit the project configuration.
    EditConfig,
    /// Open the message pager.
    OpenMessages,
    /// Put a text on the clipboard.
    CopyMessages(String),
    /// Write the graph to this path, as the save dialog asks.
    SaveGraph(String),
}

/// What a key means on the canvas, given the first key of a pending
/// two-key command.
#[derive(Clone, Copy, Debug, PartialEq, Eq, Structural)]
pub enum CanvasCommand {
    /// The first key of a two-key command.
    Pending(char),
    Search(SearchKind),
    DeleteAnchor,
    DeleteBranch(HierarchyDirection),
    EditConfig,
    ToggleBranch(HierarchyDirection),
    OpenMessages,
    Move(NavigationDirection),
    Refresh,
    OpenSave,
    OpenHelp,
    Quit,
    Nothing,
}

/// Whether a key is `c` with no modifier.
pub open spec fn bare(key: KeyEvent, c: char) -> bool {
    key.code == KeyCode::Char(c) && key.modifiers.is_none()
}

/// The command a key gives: after `a`, `c`/`t` search calls/types; after
/// `d`, `d` deletes the anchor and `p`/`n` forget the incoming/outgoing
/// branch; `ec` edits the configuration; after `t`, `l`/`r` toggle the
/// incoming/outgoing branch; `g<` opens the messages. Alone, `a`, `d`, `e`,
/// `t` and `g` begin a command, arrows or `hjkl` move the selection, `r`
/// refreshes, `w` saves, `?` helps and `q` or Esc quits.
pub open spec fn canvas_command_of(pending: Option<char>, key: KeyEvent) -> CanvasCommand {
    match pending {
        Some(p) => if p == 'a' {
            if bare(key, 'c') {
                CanvasCommand::Search(SearchKind::Call)
            } else if bare(key, 't') {
                CanvasCommand::Search(SearchKind::Type)
            } else {
                CanvasCommand::Nothing
            }
        } else if p == 'd' {
            if bare(key, 'd') {
                CanvasCommand::DeleteAnchor
            } else if bare(key, 'p') {
                CanvasCommand::DeleteBranch(HierarchyDirection::Incoming)
            } else if bare(key, 'n') {
                CanvasCommand::DeleteBranch(HierarchyDirection::Outgoing)
            } else {
                CanvasCommand::Nothing
            }
        } else if p == 'e' {
            if bare(key, 'c') {
                CanvasCommand::EditConfig
            } else {
                CanvasCommand::Nothing
            }
        } else if p == 't' {
            if bare(key, 'l') {
                CanvasCommand::ToggleBranch(HierarchyDirection::Incoming)
            } else if bare(key, 'r') {
                CanvasCommand::ToggleBranch(HierarchyDirection::Outgoing)
            } else {
                CanvasCommand::Nothing
            }
        } else if p == 'g' {
            if bare(key, '<') {
                CanvasCommand::OpenMessages
            } else {
                CanvasCommand::Nothing
            }
        } else {
            CanvasCommand::Nothing
        },
        None => {
            let none = key.modifiers.is_none();
            if bare(key, 'a') || bare(key, 'd') || bare(key, 'e') || bare(key, 't') || bare(key, 'g') {
                CanvasCommand::Pending(key.code->Char_0)
            } else if (key.code == KeyCode::Left || key.code == KeyCode::Char('h')) && none {
                CanvasCommand::Move(NavigationDirection::Left)
            } else if (key.code == KeyCode::Right || key.code == KeyCode::Char('l')) && none {
                CanvasCommand::Move(NavigationDirection::Right)
            } else if (key.code == KeyCode::Up || key.code == KeyCode::Char('k')) && none {
                CanvasCommand::Move(NavigationDirection::Up)
            } else if (key.code == KeyCode::Down || key.code == KeyCode::Char('j')) && none {
                CanvasCommand::Move(NavigationDirection::Down)
            } else if bare(key, 'r') {
                CanvasCommand::Refresh
            } else if bare(key, 'w') {
                CanvasCommand::OpenSave
            } else if key.code == KeyCode::Char('?') && (none || key.modifiers.is_shift()) {
                CanvasCommand::OpenHelp
            } else if key.code == KeyCode::Char('q') || key.code == KeyCode::Esc {
                CanvasCommand::Quit
            } else {
                CanvasCommand::Nothing
            }
        },
    }
}

/// The command a key gives on the canvas.
pub fn canvas_command(pending: Option<char>, key: KeyEvent) -> (r: CanvasCommand)
    ensures
        r == canvas_command_of(pending, key),
{
    let none = key.modifiers.empty();
    let code = key.code;
    match pending {
        Some(p) => {
            if p == 'a' {
                if code == KeyCode::Char('c') && none {
                    CanvasCommand::Search(SearchKind::Call)
                } else if code == KeyCode::Char('t') && none {
                    CanvasCommand::Search(SearchKind::Type)
                } else {
                    CanvasCommand::Nothing
                }
            } else if p == 'd' {
                if code == KeyCode::Char('d') && none {
                    CanvasCommand::DeleteAnchor
                } else if code == KeyCode::Char('p') && none {
                    CanvasCommand::DeleteBranch(HierarchyDirection::Incoming)
                } else if code == KeyCode::Char('n') && none {
                    CanvasCommand::DeleteBranch(HierarchyDirection::Outgoing)
                } else {
                    CanvasCommand::Nothing
                }
            } else if p == 'e' {
                if code == KeyCode::Char('c') && none {
                    CanvasCommand::EditConfig
                } else {
                    CanvasCommand::Nothing
                }
            } else if p == 't' {
                if code == KeyCode::Char('l') && none {
                    CanvasCommand::ToggleBranch(HierarchyDirection::Incoming)
                } else if code == KeyCode::Char('r') && none {
                    CanvasCommand::ToggleBranch(HierarchyDirection::Outgoing)
                } else {
                    CanvasCommand::Nothing
                }
            } else if p == 'g' {
                if code == KeyCode::Char('<') && none {
                    CanvasCommand::OpenMessages
                } else {
                    CanvasCommand::Nothing
                }
            } else {
                CanvasCommand::Nothing
            }
        },
        None => {
            if none && (code == KeyCode::Char('a') || code == KeyCode::Char('d') || code == KeyCode::Char('e') || code
                == KeyCode::Char('t') || code == KeyCode::Char('g')) {
                match code {
                    KeyCode::Char(c) => CanvasCommand::Pending(c),
                    _ => CanvasCommand::Nothing,
                }
            } else if (code == KeyCode::Left || code == KeyCode::Char('h')) && none {
                CanvasCommand::Move(NavigationDirection::Left)
            } else if (code == KeyCode::Right || code == KeyCode::Char('l')) && none {
                CanvasCommand::Move(NavigationDirection::Right)
            } else if (code == KeyCode::Up || code == KeyCode::Char('k')) && none {
                CanvasCommand::Move(NavigationDirection::Up)
            } else if (code == KeyCode::Down || code == KeyCode::Char('j')) && none {
                CanvasCommand::Move(NavigationDirection::Down)
            } else if code == KeyCode::Char('r') && none {
                CanvasCommand::Refresh
            } else if code == KeyCode::Char('w') && none {
                CanvasCommand::OpenSave
            } else if code == KeyCode::Char('?') && (none || key.modifiers.only_shift()) {
                CanvasCommand::OpenHelp
            } else if code == KeyCode::Char('q') || code == KeyCode::Esc {
                CanvasCommand::Quit
            } else {
                CanvasCommand::Nothing
            }
        },
    }
}

/// The canvas part of the screen: all but the message and footer rows at
/// the bottom.
pub open spec fn canvas_area_of(screen: Rect) -> Rect {
    Rect {
        height: if screen.height >= 2 {
            (screen.height - 2) as u16
        } else {
            0
        },
        ..screen
    }
}

/// The canvas part of the screen: all but the message and footer rows at
/// the bottom.
pub fn canvas_inner_area(screen: Rect) -> (r: Rect)
    ensures
        r == canvas_area_of(screen),
{
    Rect { height: screen.height.saturating_sub(2), ..screen }
}

/// The centre cell of a rectangle.
pub open spec fn center_of(area: Rect) -> (int, int) {
    (area.x + area.width / 2, area.y + area.height / 2)
}

/// The centre cell of a rectangle.
pub fn rect_center(area: Rect) -> (r: (i32, i32))
    ensures
        r.0 == center_of(area).0,
        r.1 == center_of(area).1,
{
    (area.x as i32 + (area.width / 2) as i32, area.y as i32 + (area.height / 2) as i32)
}

/// The absolute value.
pub open spec fn abs(x: int) -> int {
    if x < 0 {
        -x
    } else {
        x
    }
}

/// How far a candidate lies in a direction: the squared distance, the
/// offset across the direction and the offset along it; `None` when it
/// does not lie that way.
pub open spec fn score_of(current: (int, int), candidate: (int, int), direction: NavigationDirection) -> Option<
    (int, int, int),
> {
    let dx = candidate.0 - current.0;
    let dy = candidate.1 - current.1;
    let along = match direction {
        NavigationDirection::Left => -dx,
        NavigationDirection::Right => dx,
        NavigationDirection::Up => -dy,
        NavigationDirection::Down => dy,
    };
    let across = match direction {
        NavigationDirection::Left | NavigationDirection::Right => abs(dy),
        NavigationDirection::Up | NavigationDirection::Down => abs(dx),
    };
    if along > 0 {
        Some((along * along + across * across, across, along))
    } else {
        None
    }
}

/// A coordinate of the screen's centre cells.
pub open spec fn on_screen(p: (i32, i32)) -> bool {
    0 <= p.0 <= 100_000 && 0 <= p.1 <= 100_000
}

/// How far a candidate lies in a direction from the current cell.
pub fn navigation_score(current: (i32, i32), candidate: (i32, i32), direction: NavigationDirection) -> (r: Option<
    (i64, i32, i32),
>)
    requires
        on_screen(current),
        on_screen(candidate),
    ensures
        match score_of((current.0 as int, current.1 as int), (candidate.0 as int, candidate.1 as int), direction) {
            Some(s) => r matches Some(t) && t.0 == s.0 && t.1 == s.1 && t.2 == s.2,
            None => r is None,
        },
{
    let dx = candidate.0 - current.0;
    let dy = candidate.1 - current.1;
    let along: i32 = match direction {
        NavigationDirection::Left => -dx,
        NavigationDirection::Right => dx,
        NavigationDirection::Up => -dy,
        NavigationDirection::Down => dy,
    };
    let d = match direction {
        NavigationDirection::Left | NavigationDirection::Right => dy,
        NavigationDirection::Up | NavigationDirection::Down => dx,
    };
    let across: i32 = if d < 0 {
        -d
    } else {
        d
    };
    if along <= 0 {
        return None;
    }
    let a = along as i64;
    let c = across as i64;
    assert(0 <= a * a <= 10_000_000_000) by (nonlinear_arith)
        requires
            0 <= a <= 100_000,
    ;
    assert(0 <= c * c <= 10_000_000_000) by (nonlinear_arith)
        requires
            0 <= c <= 100_000,
    ;
    Some((a * a + c * c, across, along))
}

/// Whether score `a` of node `ia` comes before score `b` of node `ib`:
/// nearer first, then less off the direction, then less far along it, then
/// the older node.
pub open spec fn key_before(a: (int, int, int), ia: u64, b: (int, int, int), ib: u64) -> bool {
    a.0 < b.0 || (a.0 == b.0 && (a.1 < b.1 || (a.1 == b.1 && (a.2 < b.2 || (a.2 == b.2 && ia < ib)))))
}

/// The score of placement `i` seen from `current`: `None` for the current
/// node itself and for nodes that do not lie in the direction.
pub open spec fn candidate_score(
    ps: Seq<CanvasNodePlacement>,
    i: int,
    current: CanvasNodePlacement,
    direction: NavigationDirection,
) -> Option<(int, int, int)> {
    if ps[i].node_id != current.node_id {
        score_of(center_of(current.area), center_of(ps[i].area), direction)
    } else {
        None
    }
}

/// Placement `i` is a candidate that no other comes before.
pub open spec fn is_nearest(
    ps: Seq<CanvasNodePlacement>,
    i: int,
    current: CanvasNodePlacement,
    direction: NavigationDirection,
) -> bool {
    &&& 0 <= i < ps.len()
    &&& candidate_score(ps, i, current, direction) is Some
    &&& forall|j: int|
        0 <= j < ps.len() && (#[trigger] candidate_score(ps, j, current, direction)) is Some ==> !key_before(
            candidate_score(ps, j, current, direction).unwrap(),
            ps[j].node_id.0,
            candidate_score(ps, i, current, direction).unwrap(),
            ps[i].node_id.0,
        )
}

/// The node the keyboard moves to in a direction, if any lies that way.
pub open spec fn nearest_of(ps: Seq<CanvasNodePlacement>, current: CanvasNodePlacement, direction: NavigationDirection) -> Option<
    NodeId,
> {
    if exists|i: int| is_nearest(ps, i, current, direction) {
        Some(ps[choose|i: int| is_nearest(ps, i, current, direction)].node_id)
    } else {
        None
    }
}

/// Two nearest candidates are the same node.
proof fn lemma_nearest_unique(
    ps: Seq<CanvasNodePlacement>,
    i: int,
    j: int,
    current: CanvasNodePlacement,
    direction: NavigationDirection,
)
    requires
        is_nearest(ps, i, current, direction),
        is_nearest(ps, j, current, direction),
    ensures
        ps[i].node_id == ps[j].node_id,
{
    assert(candidate_score(ps, j, current, direction) is Some);
    assert(candidate_score(ps, i, current, direction) is Some);
}

/// A centre of a rectangle of cells is within the screen's coordinates.
proof fn lemma_centre_on_screen(r: Rect)
    ensures
        center_of(r).0 <= 100_000 && center_of(r).1 <= 100_000,
{
}

/// The node nearest to `current` in a direction, if any lies that way.
pub fn next_in_direction(nodes: &[CanvasNodePlacement], current: CanvasNodePlacement, direction: NavigationDirection) -> (r:
    Option<NodeId>)
    ensures
        r == nearest_of(nodes@, current, direction),
{
    let ghost ps = nodes@;
    let c = rect_center(current.area);
    proof {
        lemma_centre_on_screen(current.area);
    }
    let mut best: Option<(i64, i32, i32, NodeId)> = None;
    let ghost mut bi: int = 0;
    let mut i: usize = 0;
    while i < nodes.len()
        invariant
            i <= ps.len(),
            ps == nodes@,
            c.0 == center_of(current.area).0,
            c.1 == center_of(current.area).1,
            on_screen(c),
            match best {
                None => forall|j: int| 0 <= j < i ==> (#[trigger] candidate_score(ps, j, current, direction)) is None,
                Some(b) => {
                    &&& 0 <= bi < i
                    &&& ps[bi].node_id == b.3
                    &&& candidate_score(ps, bi, current, direction) == Some((b.0 as int, b.1 as int, b.2 as int))
                    &&& forall|j: int|
                        0 <= j < i && (#[trigger] candidate_score(ps, j, current, direction)) is Some ==> !key_before(
                            candidate_score(ps, j, current, direction).unwrap(),
                            ps[j].node_id.0,
                            candidate_score(ps, bi, current, direction).unwrap(),
                            ps[bi].node_id.0,
                        )
                },
            },
        decreases ps.len() - i,
    {
        let candidate = nodes[i];
        if candidate.node_id != current.node_id {
            let cc = rect_center(candidate.area);
            proof {
                lemma_centre_on_screen(candidate.area);
            }
            match navigation_score(c, cc, direction) {
                Some(s) => {
                    let better = match best {
                        None => true,
                        Some(b) => s.0 < b.0 || (s.0 == b.0 && (s.1 < b.1 || (s.1 == b.1 && (s.2 < b.2 || (s.2 == b.2
                            && candidate.node_id.0 < b.3.0))))),
                    };
                    if better {
                        best = Some((s.0, s.1, s.2, candidate.node_id));
                        proof {
                            bi = i as int;
                        }
                    }
                },
                None => {},
            }
        }
        i = i + 1;
    }
    match best {
        None => {
            assert(!exists|k: int| is_nearest(ps, k, current, direction));
            None
        },
        Some(b) => {
            assert(is_nearest(ps, bi, current, direction));
            proof {
                let k = choose|k: int| is_nearest(ps, k, current, direction);
                lemma_nearest_unique(ps, bi, k, current, direction);
            }
            Some(b.3)
        },
    }
}

/// Point `p` lies from `c` in a direction: strictly further that way.
pub open spec fn lies_toward(c: (int, int), p: (int, int), direction: NavigationDirection) -> bool {
    match direction {
        NavigationDirection::Left => p.0 < c.0,
        NavigationDirection::Right => p.0 > c.0,
        NavigationDirection::Up => p.1 < c.1,
        NavigationDirection::Down => p.1 > c.1,
    }
}

/// The squared Euclidean distance between two points.
pub open spec fn squared_distance(c: (int, int), p: (int, int)) -> int {
    (p.0 - c.0) * (p.0 - c.0) + (p.1 - c.1) * (p.1 - c.1)
}

/// A candidate's score is there exactly when it lies in the direction, and
/// then its first part is the squared distance.
proof fn lemma_score_is_distance(c: (int, int), p: (int, int), direction: NavigationDirection)
    ensures
        score_of(c, p, direction) is Some <==> lies_toward(c, p, direction),
        score_of(c, p, direction) matches Some(s) ==> s.0 == squared_distance(c, p),
{
    let dx = p.0 - c.0;
    let dy = p.1 - c.1;
    assert((-dx) * (-dx) == dx * dx) by (nonlinear_arith);
    assert(abs(dy) * abs(dy) == dy * dy) by (nonlinear_arith);
    assert(abs(dx) * abs(dx) == dx * dx) by (nonlinear_arith);
    assert((-dy) * (-dy) == dy * dy) by (nonlinear_arith);
}

/// The keyboard moves to a node other than the current one that lies in
/// the direction, and to none farther from the current node's centre than
/// any other such node; when no other node lies that way, it moves nowhere.
pub proof fn lemma_navigation_moves_to_the_nearest(
    ps: Seq<CanvasNodePlacement>,
    current: CanvasNodePlacement,
    direction: NavigationDirection,
)
    ensures
        nearest_of(ps, current, direction) matches Some(id) ==> exists|i: int|
            #![trigger ps[i]]
            {
                &&& 0 <= i < ps.len()
                &&& ps[i].node_id == id
                &&& id != current.node_id
                &&& lies_toward(center_of(current.area), center_of(ps[i].area), direction)
                &&& forall|j: int|
                    0 <= j < ps.len() && ps[j].node_id != current.node_id && lies_toward(
                        center_of(current.area),
                        center_of(#[trigger] ps[j].area),
                        direction,
                    ) ==> squared_distance(center_of(current.area), center_of(ps[i].area)) <= squared_distance(
                        center_of(current.area),
                        center_of(ps[j].area),
                    )
            },
        (forall|j: int|
            0 <= j < ps.len() && ps[j].node_id != current.node_id ==> !lies_toward(
                center_of(current.area),
                center_of(#[trigger] ps[j].area),
                direction,
            )) ==> nearest_of(ps, current, direction) is None,
{
    let c = center_of(current.area);
    if exists|i: int| is_nearest(ps, i, current, direction) {
        let i = choose|i: int| is_nearest(ps, i, current, direction);
        lemma_score_is_distance(c, center_of(ps[i].area), direction);
        assert forall|j: int|
            0 <= j < ps.len() && ps[j].node_id != current.node_id && lies_toward(c, center_of(#[trigger] ps[j].area), direction)
            implies squared_distance(c, center_of(ps[i].area)) <= squared_distance(c, center_of(ps[j].area)) by {
            lemma_score_is_distance(c, center_of(ps[j].area), direction);
            assert(candidate_score(ps, j, current, direction) is Some);
        }
        assert(ps[i] == ps[i]);
    } else {
        assert forall|i: int| !is_nearest(ps, i, current, direction) by {}
    }
    if forall|j: int|
        0 <= j < ps.len() && ps[j].node_id != current.node_id ==> !lies_toward(c, center_of(#[trigger] ps[j].area), direction) {
        assert forall|i: int| !is_nearest(ps, i, current, direction) by {
            if 0 <= i < ps.len() && ps[i].node_id != current.node_id {
                lemma_score_is_distance(c, center_of(ps[i].area), direction);
            }
        }
    }
}

/// The placement the navigation starts from: the selected node's, else the
/// first.
pub open spec fn current_of(ps: Seq<CanvasNodePlacement>, selected: Option<NodeId>) -> Option<CanvasNodePlacement> {
    let found = match selected {
        Some(s) => first_placed(ps, s),
        None => None,
    };
    match found {
        Some(i) => Some(ps[i]),
        None => if ps.len() > 0 {
            Some(ps[0])
        } else {
            None
        },
    }
}

/// The placement the navigation starts from: the selected node's, else the
/// first.
pub fn current_placement(nodes: &[CanvasNodePlacement], selected: Option<NodeId>) -> (r: Option<CanvasNodePlacement>)
    ensures
        r == current_of(nodes@, selected),
{
    let found = match selected {
        Some(s) => find_placement(nodes, s),
        None => None,
    };
    match found {
        Some(i) => Some(nodes[i]),
        None => if nodes.len() > 0 {
            Some(nodes[0])
        } else {
            None
        },
    }
}

/// Where a node is first placed in the world.
pub open spec fn first_in_world(ps: Seq<WorldNodePlacement>, id: NodeId) -> Option<int>
    decreases ps.len(),
{
    if ps.len() == 0 {
        None
    } else {
        match first_in_world(ps.drop_last(), id) {
            Some(i) => Some(i),
            None => if ps.last().node_id == id {
                Some(ps.len() - 1)
            } else {
                None
            },
        }
    }
}

/// The centre of the slot of the node an id stands for, in a world layout.
pub open spec fn anchor_of(w: WorldLayoutSnapshot, m: RelationModel, node_id: NodeId) -> Option<(i32, i32)> {
    match resolve(m, node_id) {
        None => None,
        Some(x) => match first_in_world(w.nodes@, x) {
            None => None,
            Some(i) => {
                let s = w.nodes@[i].slot;
                Some((clamp32(s.x + s.width / 2) as i32, clamp32(s.y + s.height / 2) as i32))
            },
        },
    }
}

/// Where a node is first placed in the world.
fn find_in_world(ps: &Vec<WorldNodePlacement>, id: NodeId) -> (r: Option<usize>)
    ensures
        match r {
            Some(i) => i < ps@.len() && first_in_world(ps@, id) == Some(i as int),
            None => first_in_world(ps@, id) is None,
        },
{
    let mut i: usize = 0;
    while i < ps.len()
        invariant
            i <= ps@.len(),
            first_in_world(ps@.take(i as int), id) is None,
        decreases ps@.len() - i,
    {
        proof {
            assert(ps@.take(i + 1).drop_last() =~= ps@.take(i as int));
        }
        if ps[i].node_id == id {
            proof {
                lemma_first_in_world_extends(ps@, i + 1, i as int);
            }
            return Some(i);
        }
        i = i + 1;
    }
    assert(ps@.take(ps@.len() as int) =~= ps@);
    None
}

/// A first placement found in a prefix is the first of the whole.
proof fn lemma_first_in_world_extends(ps: Seq<WorldNodePlacement>, n: int, i: int)
    requires
        0 <= n <= ps.len(),
        first_in_world(ps.take(n), ps[i].node_id) == Some(i),
    ensures
        first_in_world(ps, ps[i].node_id) == Some(i),
    decreases ps.len() - n,
{
    if n == ps.len() {
        assert(ps.take(n) =~= ps);
    } else {
        assert(ps.take(n + 1).drop_last() =~= ps.take(n));
        lemma_first_in_world_extends(ps, n + 1, i);
    }
}

/// Graphs whose world layout fits the coordinates.
pub open spec fn layable(g: RelationGraph) -> bool {
    g.well_formed() && g.nodes_used() <= i32::MAX
}

/// The centre of the node an id stands for in the world layout, if placed.
pub fn node_world_anchor(graph: &RelationGraph, selected: Option<NodeId>, node_id: NodeId) -> (r: Option<(i32, i32)>)
    requires
        layable(*graph),
    ensures
        exists|w: WorldLayoutSnapshot|
            #![trigger world_layout_of(graph@, selected, w)]
            world_layout_of(graph@, selected, w) && r == anchor_of(w, graph@, node_id),
{
    proof {
        lemma_live_count(graph);
    }
    let world = world_canvas_layout(graph, selected);
    let x = match graph.resolve_id(node_id) {
        Some(x) => x,
        None => {
            return None;
        },
    };
    match find_in_world(&world.nodes, x) {
        None => None,
        Some(i) => {
            let s = world.nodes[i].slot;
            Some(
                (
                    saturating_add_i32(s.x, (s.width / 2) as i32),
                    saturating_add_i32(s.y, (s.height / 2) as i32),
                ),
            )
        },
    }
}

/// `a - b`, stopping at the ends of `i32`.
fn saturating_sub_i32(a: i32, b: i32) -> (r: i32)
    ensures
        r == saturated(a - b),
{
    let d = a as i64 - b as i64;
    if d > i32::MAX as i64 {
        i32::MAX
    } else if d < i32::MIN as i64 {
        i32::MIN
    } else {
        d as i32
    }
}

/// `b` is `mid` with the viewport moved back by how far a node's centre
/// moved from `before` to `after`, when it was placed both times.
pub open spec fn panned(mid: App, b: App, before: Option<(i32, i32)>, after: Option<(i32, i32)>) -> bool {
    &&& b.graph == mid.graph
    &&& b.selected == mid.selected
    &&& kept(mid, b)
    &&& quiet(mid, b)
    &&& match (before, after) {
        (Some(p), Some(q)) => {
            &&& b.viewport.offset_x == saturated(mid.viewport.offset_x + saturated(p.0 - q.0))
            &&& b.viewport.offset_y == saturated(mid.viewport.offset_y + saturated(p.1 - q.1))
        },
        _ => b.viewport == mid.viewport,
    }
}

/// Moves the viewport back by how far a node's centre moved.
pub(crate) fn pan_back(app: &mut App, before: Option<(i32, i32)>, after: Option<(i32, i32)>)
    ensures
        panned(*old(app), *final(app), before, after),
        final(app).well_formed() == old(app).well_formed(),
{
    match (before, after) {
        (Some(p), Some(q)) => {
            let dx = saturating_sub_i32(p.0, q.0);
            let dy = saturating_sub_i32(p.1, q.1);
            app.pan_viewport(dx, dy);
        },
        _ => {},
    }
}

/// What selecting a node does (see `App::select_node`).
pub open spec fn node_selected(a: App, b: App, node_id: NodeId, r: bool) -> bool {
    &&& r == resolve(a.graph@, node_id) is Some
    &&& b.selected == match resolve(a.graph@, node_id) {
        Some(x) => Some(x),
        None => a.selected,
    }
    &&& b.graph == a.graph
    &&& b.viewport == a.viewport
    &&& kept(a, b)
    &&& quiet(a, b)
}

/// `b` is `a` after a change `changed` to `mid`, with the viewport moved so
/// that the node `node_id` keeps its place on screen.
pub open spec fn kept_in_place(a: App, mid: App, b: App, node_id: NodeId) -> bool {
    exists|wb: WorldLayoutSnapshot, wa: WorldLayoutSnapshot|
        #![trigger world_layout_of(a.graph@, a.selected, wb), world_layout_of(mid.graph@, mid.selected, wa)]
        {
            &&& world_layout_of(a.graph@, a.selected, wb)
            &&& world_layout_of(mid.graph@, mid.selected, wa)
            &&& panned(mid, b, anchor_of(wb, a.graph@, node_id), anchor_of(wa, mid.graph@, node_id))
        }
}

/// Selects a node, moving the viewport so that it keeps its place on
/// screen.
pub fn select_stably(app: &mut App, node_id: NodeId) -> (r: bool)
    requires
        old(app).well_formed(),
        layable(old(app).graph),
    ensures
        final(app).well_formed(),
        final(app).graph == old(app).graph,
        exists|mid: App| node_selected(*old(app), mid, node_id, r) && kept_in_place(*old(app), mid, *final(app), node_id),
{
    let before = node_world_anchor(&app.graph, app.selected, node_id);
    let r = app.select_node(node_id);
    let ghost mid = *app;
    let after = node_world_anchor(&app.graph, app.selected, node_id);
    pan_back(app, before, after);
    assert(node_selected(*old(app), mid, node_id, r));
    r
}

/// What toggling the selected node's branch in place does.
pub open spec fn toggled_stably(
    a: App,
    b: App,
    direction: HierarchyDirection,
    hierarchy_available: bool,
    r: Option<HierarchyLoadRequest>,
) -> bool {
    match a.selected {
        None => r is None && b == a,
        Some(s) => exists|mid: App|
            selected_branch_toggled(a, mid, direction, hierarchy_available, r) && kept_in_place(a, mid, b, s),
    }
}

/// Toggles a branch of the selected node, moving the viewport so that the
/// node keeps its place on screen.
pub fn toggle_selected_branch_stably(app: &mut App, direction: HierarchyDirection, hierarchy_available: bool) -> (r:
    Option<HierarchyLoadRequest>)
    requires
        old(app).well_formed(),
        layable(old(app).graph),
    ensures
        final(app).well_formed(),
        final(app).graph.nodes_used() == old(app).graph.nodes_used(),
        toggled_stably(*old(app), *final(app), direction, hierarchy_available, r),
{
    let selected = match app.selected {
        Some(s) => s,
        None => {
            return None;
        },
    };
    let before = node_world_anchor(&app.graph, app.selected, selected);
    let ghost wb = choose|w: WorldLayoutSnapshot|
        world_layout_of(old(app).graph@, old(app).selected, w) && before == anchor_of(w, old(app).graph@, selected);
    let r = app.toggle_selected_branch(direction, hierarchy_available);
    let ghost mid = *app;
    let after = node_world_anchor(&app.graph, app.selected, selected);
    let ghost wa = choose|w: WorldLayoutSnapshot|
        world_layout_of(mid.graph@, mid.selected, w) && after == anchor_of(w, mid.graph@, selected);
    pan_back(app, before, after);
    assert(selected_branch_toggled(*old(app), mid, direction, hierarchy_available, r));
    assert(panned(mid, *app, anchor_of(wb, old(app).graph@, selected), anchor_of(wa, mid.graph@, selected)));
    assert(kept_in_place(*old(app), mid, *app, selected));
    r
}

/// What taking a hierarchy answer in place does: the answer is taken as
/// `App::finish_hierarchy` takes it, and the viewport moves so that the
/// queried node keeps its place on screen.
pub open spec fn finished_stably(
    a: App,
    b: App,
    request: HierarchyLoadRequest,
    result: Result<HierarchyResponse, String>,
    r: bool,
) -> bool {
    exists|mid: App|
        crate::loads::finished(a, mid, request, result, r) && kept(a, mid) && mid.viewport == a.viewport
            && kept_in_place(a, mid, b, request.node_id)
}

/// Takes the answer to a hierarchy request, moving the viewport so that the
/// queried node keeps its place on screen.
pub fn finish_hierarchy_stably(app: &mut App, request: &HierarchyLoadRequest, result: Result<HierarchyResponse, String>) -> (r:
    bool)
    requires
        old(app).well_formed(),
        layable(old(app).graph),
        old(app).graph.nodes_used() + crate::loads::answer_size(result) <= i32::MAX,
        old(app).graph.room(
            crate::loads::answer_size(result),
            old(app).graph@.edges.len() + 1 + crate::loads::answer_size(result),
        ),
    ensures
        final(app).well_formed(),
        layable(final(app).graph),
        finished_stably(*old(app), *final(app), *request, result, r),
{
    let node_id = request.node_id;
    let before = node_world_anchor(&app.graph, app.selected, node_id);
    let ghost wb = choose|w: WorldLayoutSnapshot|
        world_layout_of(old(app).graph@, old(app).selected, w) && before == anchor_of(w, old(app).graph@, node_id);
    let r = app.finish_hierarchy(request, result);
    let ghost mid = *app;
    let after = node_world_anchor(&app.graph, app.selected, node_id);
    let ghost wa = choose|w: WorldLayoutSnapshot|
        world_layout_of(mid.graph@, mid.selected, w) && after == anchor_of(w, mid.graph@, node_id);
    pan_back(app, before, after);
    assert(panned(mid, *app, anchor_of(wb, old(app).graph@, node_id), anchor_of(wa, mid.graph@, node_id)));
    assert(kept_in_place(*old(app), mid, *app, node_id));
    r
}

/// What a step of the keyboard navigation does: from the selected node's
/// placement on screen (else the first), the nearest node that lies in the
/// direction is selected and keeps its place; with none, nothing changes.
pub open spec fn moved(a: App, b: App, direction: NavigationDirection, canvas: Rect, r: bool) -> bool {
    exists|w: WorldLayoutSnapshot|
        #![trigger world_layout_of(a.graph@, a.selected, w)]
        world_layout_of(a.graph@, a.selected, w) && {
            let ps = projected_nodes(w.nodes@, canvas, a.viewport);
            match current_of(ps, a.selected) {
                None => !r && b == a,
                Some(c) => match nearest_of(ps, c, direction) {
                    None => !r && b == a,
                    Some(id) => exists|mid: App| node_selected(a, mid, id, r) && kept_in_place(a, mid, b, id),
                },
            }
        }
}

/// Moves the selection to the nearest node on screen in a direction.
pub fn move_canvas_selection(app: &mut App, direction: NavigationDirection, screen: Rect) -> (r: bool)
    requires
        old(app).well_formed(),
        layable(old(app).graph),
    ensures
        final(app).well_formed(),
        final(app).graph == old(app).graph,
        moved(*old(app), *final(app), direction, canvas_area_of(screen), r),
{
    proof {
        lemma_live_count(&app.graph);
    }
    let canvas = canvas_inner_area(screen);
    let layout = canvas_layout(canvas, &app.graph, app.selected, app.viewport);
    let ghost w = choose|w: WorldLayoutSnapshot|
        world_layout_of(app.graph@, app.selected, w) && layout.nodes@ == projected_nodes(w.nodes@, canvas, app.viewport);
    assert(world_layout_of(old(app).graph@, old(app).selected, w));
    let current = match current_placement(&layout.nodes, app.selected) {
        None => {
            return false;
        },
        Some(c) => c,
    };
    let next = match next_in_direction(&layout.nodes, current, direction) {
        None => {
            return false;
        },
        Some(id) => id,
    };
    select_stably(app, next)
}

/// The app with no key pending.
pub open spec fn cleared(a: App) -> App {
    App { pending_key: None, ..a }
}

/// The request for a branch fetch, if there is one.
pub open spec fn hierarchy_request(q: Option<HierarchyLoadRequest>, r: Option<InteractionRequest>) -> bool {
    match q {
        None => r is None,
        Some(req) => r matches Some(InteractionRequest::Hierarchy(v)) && v@ == seq![req],
    }
}

/// What a canvas command does to the app (with no key pending any more)
/// and what it asks of the viewer.
pub open spec fn command_done(
    a: App,
    b: App,
    command: CanvasCommand,
    hierarchy_available: bool,
    canvas: Rect,
    r: Option<InteractionRequest>,
) -> bool {
    match command {
        CanvasCommand::Pending(c) => r is None && b == App { pending_key: Some(c), ..a },
        CanvasCommand::Search(kind) => r matches Some(InteractionRequest::Search(k)) && k == kind && b == a,
        CanvasCommand::EditConfig => r matches Some(InteractionRequest::EditConfig) && b == a,
        CanvasCommand::OpenMessages => r matches Some(InteractionRequest::OpenMessages) && b == a,
        CanvasCommand::Nothing => r is None && b == a,
        CanvasCommand::Quit => {
            &&& r is None
            &&& b.should_quit
            &&& b.graph == a.graph
            &&& b.selected == a.selected
            &&& b.viewport == a.viewport
            &&& kept(App { should_quit: true, ..a }, b)
            &&& quiet(a, b)
        },
        CanvasCommand::OpenSave => {
            &&& r is None
            &&& save_view(b.save) == Some((Seq::<char>::empty(), None::<Seq<char>>))
            &&& b.help == a.help
            &&& b.pending_key is None
            &&& unnoticed(a, b)
            &&& same_but_dialogs(a, b)
        },
        CanvasCommand::OpenHelp => {
            &&& r is None
            &&& b.help == Some(HelpState { scroll: 0 })
            &&& b.save == a.save
            &&& b.pending_key is None
            &&& quiet(a, b)
            &&& same_but_dialogs(a, b)
        },
        CanvasCommand::DeleteAnchor => r is None && exists|d: bool| anchor_deleted(a, b, d),
        CanvasCommand::DeleteBranch(direction) => r is None && exists|d: bool| branch_deleted(a, b, direction, d),
        CanvasCommand::ToggleBranch(direction) => exists|q: Option<HierarchyLoadRequest>|
            toggled_stably(a, b, direction, hierarchy_available, q) && hierarchy_request(q, r),
        CanvasCommand::Refresh => exists|v: Vec<HierarchyLoadRequest>|
            branches_refreshed(a, b, hierarchy_available, v) && if v@.len() > 0 {
                r matches Some(InteractionRequest::Hierarchy(u)) && u@ == v@
            } else {
                r is None
            },
        CanvasCommand::Move(direction) => r is None && exists|m: bool| moved(a, b, direction, canvas, m),
    }
}

/// Handles a key on the canvas: the command it gives (see
/// `canvas_command_of`) is carried out, and the key pending before, if
/// any, is used up.
pub fn handle_canvas_key(app: &mut App, key: KeyEvent, analysis_available: bool, screen: Rect) -> (r: Option<
    InteractionRequest,
>)
    requires
        old(app).well_formed(),
        layable(old(app).graph),
    ensures
        final(app).well_formed(),
        layable(final(app).graph),
        command_done(
            cleared(*old(app)),
            *final(app),
            canvas_command_of(old(app).pending_key, key),
            analysis_available,
            canvas_area_of(screen),
            r,
        ),
{
    let command = canvas_command(app.pending_key, key);
    app.pending_key = None;
    match command {
        CanvasCommand::Pending(c) => {
            app.pending_key = Some(c);
            None
        },
        CanvasCommand::Search(kind) => Some(InteractionRequest::Search(kind)),
        CanvasCommand::EditConfig => Some(InteractionRequest::EditConfig),
        CanvasCommand::OpenMessages => Some(InteractionRequest::OpenMessages),
        CanvasCommand::Nothing => None,
        CanvasCommand::Quit => {
            app.quit();
            None
        },
        CanvasCommand::OpenSave => {
            app.open_save();
            None
        },
        CanvasCommand::OpenHelp => {
            app.open_help();
            None
        },
        CanvasCommand::DeleteAnchor => {
            let d = app.delete_selected_anchor();
            None
        },
        CanvasCommand::DeleteBranch(direction) => {
            let d = app.delete_selected_branch(direction);
            None
        },
        CanvasCommand::ToggleBranch(direction) => {
            let q = toggle_selected_branch_stably(app, direction, analysis_available);
            let r = match q {
                None => None,
                Some(req) => {
                    let mut v: Vec<HierarchyLoadRequest> = Vec::new();
                    v.push(req);
                    assert(v@ =~= seq![req]);
                    Some(InteractionRequest::Hierarchy(v))
                },
            };
            assert(hierarchy_request(q, r));
            r
        },
        CanvasCommand::Refresh => {
            let requests = app.refresh_selected_branches(analysis_available);
            if requests.len() > 0 {
                Some(InteractionRequest::Hierarchy(requests))
            } else {
                None
            }
        },
        CanvasCommand::Move(direction) => {
            let m = move_canvas_selection(app, direction, screen);
            None
        },
    }
}

} // verus!
