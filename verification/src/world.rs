use vstd::prelude::*;

verus! {

use crate::constants::{BOARD_HEIGHT, BOARD_WIDTH};
use crate::piece::{
    lemma_piece_cells_four_distinct, lemma_piece_cells_in_box, piece_cells, Piece, PieceType,
    Position,
};
use crate::stack::SettledStack;

/// A falling piece together with its anchor position.
#[derive(Clone, Copy, Debug, PartialEq, Eq, Structural)]
pub struct ActivePiece {
    pub piece: Piece,
    pub pos: Position,
}

/// A well-placed active piece: a reduced rotation index, an anchor no higher than
/// the spawn row, and all four filled cells on the board's columns at or above the
/// floor. Cells may overlap settled cells (a piece may spawn atop the stack), and
/// only collision-checked moves restore separation.
pub open spec fn active_ok(a: ActivePiece) -> bool {
    &&& a.piece.rotation < 4
    &&& a.pos.row <= BOARD_HEIGHT - 4
    &&& forall|j: int|
        0 <= j < piece_cells(a.piece.piece_type, a.piece.rotation, a.pos).len() ==> 0 <= (
        #[trigger] piece_cells(a.piece.piece_type, a.piece.rotation, a.pos)[j]).0 && 0
            <= piece_cells(a.piece.piece_type, a.piece.rotation, a.pos)[j].1 < BOARD_WIDTH
}

/// The anchor of a well-placed active piece stays within a 4x4 box's reach of the
/// board, which keeps all anchor arithmetic far from the integer limits.
pub proof fn lemma_active_anchor_bounds(a: ActivePiece)
    requires
        active_ok(a),
    ensures
        -3 <= a.pos.row <= BOARD_HEIGHT - 4,
        -3 <= a.pos.col < BOARD_WIDTH,
{
    let t = a.piece.piece_type;
    let rot = a.piece.rotation;
    let arow = a.pos.row as int;
    let acol = a.pos.col as int;
    lemma_piece_cells_four_distinct(t, rot, arow, acol);
    lemma_piece_cells_in_box(t, rot, arow, acol);
    assert(0 <= piece_cells(t, rot, a.pos)[0].0);
}

/// The fixed anchor where new pieces appear: four rows below the top of the board,
/// in column 3.
pub open spec fn spawn_anchor() -> Position {
    Position { row: (BOARD_HEIGHT - 4) as i32, col: 3 }
}

/// The mutable simulation state shared by the input, gravity, line-clear and spawn
/// systems. The two signal fields are append-only counters of zero-payload events;
/// each consumer keeps its own cursor into them, so consumption order between
/// consumers does not matter.
pub struct GameWorld {
    /// The falling pieces. The spawn policy keeps exactly one, but every system
    /// tolerates several, each tested against the same pre-tick stack snapshot.
    pub active: Vec<ActivePiece>,
    /// The settled stack of locked cells.
    pub settled: SettledStack,
    /// How many landing signals have been raised so far.
    pub land_signals: u64,
    /// How many fall-timer reset signals have been raised so far.
    pub reset_signals: u64,
}

impl GameWorld {
    /// Well-formed: every active piece is well-placed and every settled cell lies
    /// on the board.
    pub open spec fn wf(&self) -> bool {
        &&& forall|i: int| 0 <= i < self.active@.len() ==> active_ok(#[trigger] self.active@[i])
        &&& self.settled.wf()
    }

    /// An empty world: no active piece, no settled cells, no signals raised.
    pub fn new() -> (w: Self)
        ensures
            w.active@ == Seq::<ActivePiece>::empty(),
            w.settled.contents() == Seq::<(int, int, PieceType)>::empty(),
            w.land_signals == 0,
            w.reset_signals == 0,
            w.wf(),
    {
        Self { active: Vec::new(), settled: SettledStack::new(), land_signals: 0, reset_signals: 0 }
    }

    /// Place a new piece of the given type and rotation index at the spawn anchor.
    /// No overlap check is made: a piece may spawn atop the stack, and the next
    /// gravity step catches the collision.
    pub fn spawn_piece(&mut self, t: PieceType, rotation: u8)
        requires
            rotation < 4,
        ensures
            final(self).active@ == old(self).active@.push(
                ActivePiece { piece: Piece { piece_type: t, rotation }, pos: spawn_anchor() },
            ),
            final(self).settled == old(self).settled,
            final(self).land_signals == old(self).land_signals,
            final(self).reset_signals == old(self).reset_signals,
            old(self).wf() ==> final(self).wf(),
            active_ok(ActivePiece { piece: Piece { piece_type: t, rotation }, pos: spawn_anchor() }),
    {
        let pos = Position { row: BOARD_HEIGHT - 4, col: 3 };
        let a = ActivePiece { piece: Piece { piece_type: t, rotation }, pos };
        proof {
            lemma_piece_cells_in_box(t, rotation, pos.row as int, pos.col as int);
        }
        self.active.push(a);
    }
}

} // verus!
