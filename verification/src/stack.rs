use vstd::prelude::*;

verus! {

use crate::constants::{BOARD_HEIGHT, BOARD_WIDTH};
use crate::piece::{DroppedPiece, PieceType, Position};

/// One permanently placed block: its board cell and the piece type it came from.
#[derive(Clone, Copy, Debug, PartialEq, Eq, Structural)]
pub struct SettledCell {
    pub piece: DroppedPiece,
    pub pos: Position,
}

/// The mathematical view of one settled cell: `(row, col, piece type)`.
pub open spec fn cell_view(c: SettledCell) -> (int, int, PieceType) {
    (c.pos.row as int, c.pos.col as int, c.piece.piece_type)
}

/// The mathematical contents of a sequence of settled cells.
pub open spec fn stack_view(s: Seq<SettledCell>) -> Seq<(int, int, PieceType)> {
    s.map_values(|c: SettledCell| cell_view(c))
}

/// Whether some settled cell of `sv` occupies the cell `(r, c)`.
pub open spec fn occupied(sv: Seq<(int, int, PieceType)>, r: int, c: int) -> bool {
    exists|j: int| 0 <= j < sv.len() && (#[trigger] sv[j]).0 == r && sv[j].1 == c
}

/// A settled cell lies on the board: settled blocks never sit below the floor,
/// beyond a side wall, or above the spawn rows.
pub open spec fn cell_ok(c: (int, int, PieceType)) -> bool {
    0 <= c.0 < BOARD_HEIGHT && 0 <= c.1 < BOARD_WIDTH
}

/// Every settled cell lies on the board.
pub open spec fn stack_ok(sv: Seq<(int, int, PieceType)>) -> bool {
    forall|j: int| 0 <= j < sv.len() ==> cell_ok(#[trigger] sv[j])
}

/// The set of locked cells. Two cells may share a position: a piece that spawns
/// atop the stack can lock overlapping it, and rows are cleared by cell count.
pub struct SettledStack {
    pub cells: Vec<SettledCell>,
}

impl SettledStack {
    /// The mathematical contents: one `(row, col, type)` triple per settled cell,
    /// in insertion order.
    pub open spec fn contents(&self) -> Seq<(int, int, PieceType)> {
        stack_view(self.cells@)
    }

    /// Well-formed: every settled cell lies on the board.
    pub open spec fn wf(&self) -> bool {
        stack_ok(self.contents())
    }

    /// An empty stack.
    pub fn new() -> (s: Self)
        ensures
            s.contents() == Seq::<(int, int, PieceType)>::empty(),
            s.wf(),
    {
        let s = Self { cells: Vec::new() };
        proof {
            assert(s.contents() =~= Seq::<(int, int, PieceType)>::empty());
        }
        s
    }

    /// Number of settled cells.
    pub fn len(&self) -> (n: usize)
        ensures
            n == self.contents().len(),
    {
        self.cells.len()
    }

    /// Append one settled cell.
    pub fn add_cell(&mut self, c: SettledCell)
        ensures
            final(self).cells@ == old(self).cells@.push(c),
            final(self).contents() == old(self).contents().push(cell_view(c)),
    {
        self.cells.push(c);
        proof {
            assert(self.contents() =~= old(self).contents().push(cell_view(c)));
        }
    }

    /// Whether any settled cell occupies the cell `(row, col)`.
    pub fn occupied_at(&self, row: i32, col: i32) -> (b: bool)
        ensures
            b == occupied(self.contents(), row as int, col as int),
    {
        let mut j: usize = 0;
        while j < self.cells.len()
            invariant
                j <= self.cells.len(),
                forall|k: int|
                    0 <= k < j ==> !((#[trigger] self.contents()[k]).0 == row as int
                        && self.contents()[k].1 == col as int),
            decreases self.cells.len() - j,
        {
            let c = self.cells[j];
            if c.pos.row == row && c.pos.col == col {
                proof {
                    let jj = j as int;
                    assert(self.contents()[jj].0 == row as int && self.contents()[jj].1
                        == col as int);
                }
                return true;
            }
            j = j + 1;
        }
        false
    }
}

} // verus!
