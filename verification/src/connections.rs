//! Glyphs where connection lines meet: which sides of a cell the lines
//! leave through, and the box-drawing character for them.
use vstd::prelude::*;

use crate::layout::EdgeVisualKind;

verus! {

/// The sides of a cell that lines leave through.
#[derive(Clone, Copy, Debug, Default, PartialEq, Eq, Structural)]
pub struct ConnectionDirections {
    pub left: bool,
    pub right: bool,
    pub up: bool,
    pub down: bool,
}

/// The sides as a mask: left 1, right 2, up 4, down 8.
pub open spec fn mask(d: ConnectionDirections) -> int {
    (if d.left { 1int } else { 0 }) + (if d.right { 2int } else { 0 }) + (if d.up { 4int } else { 0 }) + (if d.down {
        8int
    } else {
        0
    })
}

impl ConnectionDirections {
    /// No side.
    pub fn none() -> (r: Self)
        ensures
            mask(r) == 0,
    {
        ConnectionDirections { left: false, right: false, up: false, down: false }
    }

    /// Adds the sides of `direction`.
    pub fn insert(&mut self, direction: Self)
        ensures
            final(self).left == (old(self).left || direction.left),
            final(self).right == (old(self).right || direction.right),
            final(self).up == (old(self).up || direction.up),
            final(self).down == (old(self).down || direction.down),
    {
        self.left = self.left || direction.left;
        self.right = self.right || direction.right;
        self.up = self.up || direction.up;
        self.down = self.down || direction.down;
    }

    /// The sides of either.
    pub fn union(self, other: Self) -> (r: Self)
        ensures
            r.left == (self.left || other.left),
            r.right == (self.right || other.right),
            r.up == (self.up || other.up),
            r.down == (self.down || other.down),
    {
        ConnectionDirections {
            left: self.left || other.left,
            right: self.right || other.right,
            up: self.up || other.up,
            down: self.down || other.down,
        }
    }

    /// Whether the two share a side.
    pub fn intersects(self, other: Self) -> (r: bool)
        ensures
            r == ((self.left && other.left) || (self.right && other.right) || (self.up && other.up) || (self.down
                && other.down)),
    {
        (self.left && other.left) || (self.right && other.right) || (self.up && other.up) || (self.down && other.down)
    }

    /// Whether a line leaves left or right.
    pub fn has_horizontal(self) -> (r: bool)
        ensures
            r == (self.left || self.right),
    {
        self.left || self.right
    }

    /// Whether a line leaves up or down.
    pub fn has_vertical(self) -> (r: bool)
        ensures
            r == (self.up || self.down),
    {
        self.up || self.down
    }

    /// Whether no line leaves the cell.
    pub fn is_empty(self) -> (r: bool)
        ensures
            r == (mask(self) == 0),
    {
        !self.left && !self.right && !self.up && !self.down
    }
}

/// The box-drawing glyph for the sides a line leaves through, single or
/// double: straight lines, rounded or square corners, tees, else a cross.
pub open spec fn glyph(m: int, double: bool) -> char {
    if m == 1 || m == 2 || m == 3 {
        if double {
            '═'
        } else {
            '─'
        }
    } else if m == 4 || m == 8 || m == 12 {
        if double {
            '║'
        } else {
            '│'
        }
    } else if m == 10 {
        if double {
            '╔'
        } else {
            '╭'
        }
    } else if m == 9 {
        if double {
            '╗'
        } else {
            '╮'
        }
    } else if m == 6 {
        if double {
            '╚'
        } else {
            '╰'
        }
    } else if m == 5 {
        if double {
            '╝'
        } else {
            '╯'
        }
    } else if m == 14 {
        if double {
            '╠'
        } else {
            '├'
        }
    } else if m == 13 {
        if double {
            '╣'
        } else {
            '┤'
        }
    } else if m == 11 {
        if double {
            '╦'
        } else {
            '┬'
        }
    } else if m == 7 {
        if double {
            '╩'
        } else {
            '┴'
        }
    } else if double {
        '╬'
    } else {
        '┼'
    }
}

/// The glyph for the sides a line leaves through.
pub fn connection_symbol(directions: ConnectionDirections, double: bool) -> (r: char)
    ensures
        r == glyph(mask(directions), double),
{
    let m: u8 = (if directions.left {
        1u8
    } else {
        0
    }) + (if directions.right {
        2u8
    } else {
        0
    }) + (if directions.up {
        4u8
    } else {
        0
    }) + (if directions.down {
        8u8
    } else {
        0
    });
    if m == 1 || m == 2 || m == 3 {
        if double {
            '═'
        } else {
            '─'
        }
    } else if m == 4 || m == 8 || m == 12 {
        if double {
            '║'
        } else {
            '│'
        }
    } else if m == 10 {
        if double {
            '╔'
        } else {
            '╭'
        }
    } else if m == 9 {
        if double {
            '╗'
        } else {
            '╮'
        }
    } else if m == 6 {
        if double {
            '╚'
        } else {
            '╰'
        }
    } else if m == 5 {
        if double {
            '╝'
        } else {
            '╯'
        }
    } else if m == 14 {
        if double {
            '╠'
        } else {
            '├'
        }
    } else if m == 13 {
        if double {
            '╣'
        } else {
            '┤'
        }
    } else if m == 11 {
        if double {
            '╦'
        } else {
            '┬'
        }
    } else if m == 7 {
        if double {
            '╩'
        } else {
            '┴'
        }
    } else if double {
        '╬'
    } else {
        '┼'
    }
}

/// One relation's share of a screen cell: which relation, its glyph and
/// style, and the sides its line leaves through (none for a marker).
#[derive(Clone, Copy, Debug, PartialEq, Eq, Structural)]
pub struct DirectedCell {
    pub edge: usize,
    pub symbol: char,
    pub visual_kind: EdgeVisualKind,
    pub directions: ConnectionDirections,
}

/// Two different relations cross in a cell: one leaves it sideways and
/// another up or down.
pub open spec fn crossing(cells: Seq<DirectedCell>) -> bool {
    exists|i: int, j: int|
        0 <= i < cells.len() && 0 <= j < cells.len() && (#[trigger] cells[i]).edge != (#[trigger] cells[j]).edge
            && (cells[i].directions.left || cells[i].directions.right) && (cells[j].directions.up
            || cells[j].directions.down)
}

/// Whether two different relations cross in a cell.
pub fn different_edges_cross(cells: &[DirectedCell]) -> (r: bool)
    ensures
        r == crossing(cells@),
{
    let mut i: usize = 0;
    while i < cells.len()
        invariant
            i <= cells@.len(),
            forall|a: int, b: int|
                0 <= a < i && 0 <= b < cells@.len() ==> !((#[trigger] cells@[a]).edge != (#[trigger] cells@[b]).edge
                    && (cells@[a].directions.left || cells@[a].directions.right) && (cells@[b].directions.up
                    || cells@[b].directions.down)),
        decreases cells@.len() - i,
    {
        if cells[i].directions.has_horizontal() {
            let mut j: usize = 0;
            while j < cells.len()
                invariant
                    j <= cells@.len(),
                    i < cells@.len(),
                    cells@[i as int].directions.left || cells@[i as int].directions.right,
                    forall|a: int, b: int|
                        0 <= a < i && 0 <= b < cells@.len() ==> !((#[trigger] cells@[a]).edge != (#[trigger] cells@[b]).edge
                            && (cells@[a].directions.left || cells@[a].directions.right) && (cells@[b].directions.up
                            || cells@[b].directions.down)),
                    forall|b: int|
                        0 <= b < j ==> !(cells@[i as int].edge != (#[trigger] cells@[b]).edge && (cells@[b].directions.up
                            || cells@[b].directions.down)),
                decreases cells@.len() - j,
            {
                if cells[i].edge != cells[j].edge && cells[j].directions.has_vertical() {
                    assert(crossing(cells@)) by {
                        let x = cells@[i as int];
                        let y = cells@[j as int];
                        assert(x.edge != y.edge);
                    }
                    return true;
                }
                j = j + 1;
            }
        }
        i = i + 1;
    }
    false
}

/// The sides of the cells of one style.
pub open spec fn sides_of(cells: Seq<DirectedCell>, special: bool) -> ConnectionDirections
    decreases cells.len(),
{
    if cells.len() == 0 {
        ConnectionDirections { left: false, right: false, up: false, down: false }
    } else {
        let prev = sides_of(cells.drop_last(), special);
        let c = cells.last();
        if (c.visual_kind != EdgeVisualKind::Forward) == special {
            ConnectionDirections {
                left: prev.left || c.directions.left,
                right: prev.right || c.directions.right,
                up: prev.up || c.directions.up,
                down: prev.down || c.directions.down,
            }
        } else {
            prev
        }
    }
}

/// The first marker among the cells, if any.
pub open spec fn first_marker(cells: Seq<DirectedCell>) -> Option<int>
    decreases cells.len(),
{
    if cells.len() == 0 {
        None
    } else {
        match first_marker(cells.drop_last()) {
            Some(i) => Some(i),
            None => if mask(cells.last().directions) == 0 {
                Some(cells.len() - 1)
            } else {
                None
            },
        }
    }
}

/// The glyph of a cell that several relations share: a marker wins; where
/// a double line crosses a single one at right angles the mixed crossing
/// shows; else the glyph for all the sides, double if a special line is
/// there.
pub open spec fn merged_glyph(cells: Seq<DirectedCell>, is_crossing: bool) -> char {
    match first_marker(cells) {
        Some(i) => cells[i].symbol,
        None => {
            let forward = sides_of(cells, false);
            let special = sides_of(cells, true);
            let all = ConnectionDirections {
                left: forward.left || special.left,
                right: forward.right || special.right,
                up: forward.up || special.up,
                down: forward.down || special.down,
            };
            let sh = special.left || special.right;
            let sv = special.up || special.down;
            let fh = forward.left || forward.right;
            let fv = forward.up || forward.down;
            if is_crossing && mask(all) == 15 && sh && !sv && fv && !fh {
                '╪'
            } else if is_crossing && mask(all) == 15 && sv && !sh && fh && !fv {
                '╫'
            } else {
                glyph(mask(all), mask(special) != 0)
            }
        },
    }
}

/// The glyph of a cell that several relations share.
pub fn merged_connection_symbol(cells: &[DirectedCell], is_crossing: bool) -> (r: char)
    ensures
        r == merged_glyph(cells@, is_crossing),
{
    let mut m: usize = 0;
    assert(cells@.take(0) =~= Seq::<DirectedCell>::empty());
    while m < cells.len()
        invariant
            m <= cells@.len(),
            first_marker(cells@.take(m as int)) is None,
        decreases cells@.len() - m,
    {
        proof {
            let t = cells@.take(m + 1);
            assert(t.drop_last() =~= cells@.take(m as int));
        }
        if cells[m].directions.is_empty() {
            proof {
                lemma_first_marker_prefix(cells@, m as int);
            }
            return cells[m].symbol;
        }
        m = m + 1;
    }
    assert(cells@.take(cells@.len() as int) =~= cells@);
    let mut forward = ConnectionDirections::none();
    let mut special = ConnectionDirections::none();
    let mut k: usize = 0;
    while k < cells.len()
        invariant
            k <= cells@.len(),
            forward == sides_of(cells@.take(k as int), false),
            special == sides_of(cells@.take(k as int), true),
        decreases cells@.len() - k,
    {
        proof {
            let t = cells@.take(k + 1);
            assert(t.drop_last() =~= cells@.take(k as int));
            assert(t.last() == cells@[k as int]);
        }
        if cells[k].visual_kind.is_special() {
            special = special.union(cells[k].directions);
        } else {
            forward = forward.union(cells[k].directions);
        }
        k = k + 1;
    }
    let all = forward.union(special);
    if is_crossing && !all.is_empty() && all.left && all.right && all.up && all.down {
        let sh = special.has_horizontal();
        let sv = special.has_vertical();
        let fh = forward.has_horizontal();
        let fv = forward.has_vertical();
        if sh && !sv && fv && !fh {
            return '╪';
        }
        if sv && !sh && fh && !fv {
            return '╫';
        }
    }
    connection_symbol(all, !special.is_empty())
}

/// When the first `m` cells hold no marker and cell `m` is one, it is the
/// first marker.
proof fn lemma_first_marker_prefix(cells: Seq<DirectedCell>, m: int)
    requires
        0 <= m < cells.len(),
        first_marker(cells.take(m)) is None,
        mask(cells[m].directions) == 0,
    ensures
        first_marker(cells) == Some(m),
    decreases cells.len() - m,
{
    let t = cells.take(m + 1);
    assert(t.drop_last() =~= cells.take(m));
    assert(first_marker(t) == Some(m));
    lemma_first_marker_extends(cells, m + 1, m);
}

/// A first marker found in a prefix is the first marker of the whole.
proof fn lemma_first_marker_extends(cells: Seq<DirectedCell>, n: int, i: int)
    requires
        0 <= n <= cells.len(),
        first_marker(cells.take(n)) == Some(i),
    ensures
        first_marker(cells) == Some(i),
    decreases cells.len() - n,
{
    if n == cells.len() {
        assert(cells.take(n) =~= cells);
    } else {
        let t = cells.take(n + 1);
        assert(t.drop_last() =~= cells.take(n));
        lemma_first_marker_extends(cells, n + 1, i);
    }
}

} // verus!
