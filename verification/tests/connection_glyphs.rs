use cgraph::connections::{
    connection_symbol, different_edges_cross, merged_connection_symbol, ConnectionDirections, DirectedCell,
};
use cgraph::layout::EdgeVisualKind;

fn sides(left: bool, right: bool, up: bool, down: bool) -> ConnectionDirections {
    ConnectionDirections { left, right, up, down }
}

fn cell(edge: usize, visual_kind: EdgeVisualKind, directions: ConnectionDirections) -> DirectedCell {
    let double = visual_kind != EdgeVisualKind::Forward;
    DirectedCell { edge, symbol: connection_symbol(directions, double), visual_kind, directions }
}

#[test]
fn orthogonal_bends_use_corner_glyphs() {
    assert_eq!(connection_symbol(sides(true, false, false, true), false), '╮');
    assert_eq!(connection_symbol(sides(false, true, true, false), false), '╰');
    assert_eq!(connection_symbol(sides(true, true, false, false), false), '─');
    assert_eq!(connection_symbol(sides(false, false, true, true), true), '║');
    let bend = [cell(1, EdgeVisualKind::Forward, sides(true, false, false, true))];
    assert!(!different_edges_cross(&bend));
    assert_eq!(merged_connection_symbol(&bend, false), '╮');
}

#[test]
fn independent_single_line_edges_meet_in_a_crossing() {
    let cells = [
        cell(1, EdgeVisualKind::Forward, sides(true, true, false, false)),
        cell(2, EdgeVisualKind::Forward, sides(false, false, true, true)),
    ];
    assert!(different_edges_cross(&cells));
    assert_eq!(merged_connection_symbol(&cells, true), '┼');
}

#[test]
fn one_edge_turning_is_no_crossing() {
    let cells = [
        cell(1, EdgeVisualKind::Forward, sides(true, true, false, false)),
        cell(1, EdgeVisualKind::Forward, sides(false, false, true, true)),
    ];
    assert!(!different_edges_cross(&cells));
}

#[test]
fn mixed_single_and_double_crossings_keep_each_axis_style() {
    let horizontal_double = [
        cell(1, EdgeVisualKind::BackOrCycle, sides(true, true, false, false)),
        cell(2, EdgeVisualKind::Forward, sides(false, false, true, true)),
    ];
    assert!(different_edges_cross(&horizontal_double));
    assert_eq!(merged_connection_symbol(&horizontal_double, true), '╪');
    let vertical_double = [
        cell(3, EdgeVisualKind::Forward, sides(true, true, false, false)),
        cell(4, EdgeVisualKind::BackOrCycle, sides(false, false, true, true)),
    ];
    assert_eq!(merged_connection_symbol(&vertical_double, true), '╫');
}
