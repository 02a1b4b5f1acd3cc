use vstd::prelude::*;

verus! {

use crate::constants::BOARD_WIDTH;
use crate::piece::{piece_cells, piece_cells_at, positions_view, Piece, PieceType, Position};
use crate::stack::{occupied, SettledStack};

/// Whether a piece cell leaves the board: past a side wall or below the floor.
/// There is no ceiling: cells above the visible board are fine.
pub open spec fn cell_out_of_bounds(c: (int, int)) -> bool {
    c.1 < 0 || c.1 >= BOARD_WIDTH || c.0 < 0
}

/// The single collision predicate every mutation goes through: a piece of type `t`
/// at rotation `rot` anchored at `(arow, acol)` collides with the settled cells `sv`
/// iff one of its four filled cells leaves the board or coincides with a settled cell.
pub open spec fn collides_at(
    t: PieceType,
    rot: u8,
    arow: int,
    acol: int,
    sv: Seq<(int, int, PieceType)>,
) -> bool {
    exists|j: int|
        0 <= j < piece_cells_at(t, rot, arow, acol).len() && (cell_out_of_bounds(
            #[trigger] piece_cells_at(t, rot, arow, acol)[j],
        ) || occupied(
            sv,
            piece_cells_at(t, rot, arow, acol)[j].0,
            piece_cells_at(t, rot, arow, acol)[j].1,
        ))
}

/// `collides_at`, anchored at a `Position`.
pub open spec fn collides_spec(
    t: PieceType,
    rot: u8,
    anchor: Position,
    sv: Seq<(int, int, PieceType)>,
) -> bool {
    collides_at(t, rot, anchor.row as int, anchor.col as int, sv)
}

/// Whether the piece, anchored at `pos`, collides with a wall, the floor or a
/// settled cell of `stack`.
pub fn collides(piece: &Piece, pos: &Position, stack: &SettledStack) -> (r: bool)
    requires
        pos.row <= i32::MAX - 3,
        pos.col <= i32::MAX - 3,
    ensures
        r == collides_spec(piece.piece_type, piece.rotation, *pos, stack.contents()),
{
    let cells = piece.get_filled_positions(pos);
    let ghost pc = piece_cells(piece.piece_type, piece.rotation, *pos);
    let mut j: usize = 0;
    while j < cells.len()
        invariant
            j <= cells.len(),
            pc == piece_cells(piece.piece_type, piece.rotation, *pos),
            positions_view(cells@) == pc,
            forall|k: int|
                0 <= k < j ==> !cell_out_of_bounds(#[trigger] pc[k]) && !occupied(
                    stack.contents(),
                    pc[k].0,
                    pc[k].1,
                ),
        decreases cells.len() - j,
    {
        let c = cells[j];
        proof {
            assert(pc[j as int] == (c.row as int, c.col as int));
        }
        if c.col < 0 || c.col >= BOARD_WIDTH || c.row < 0 {
            proof {
                assert(cell_out_of_bounds(pc[j as int]));
            }
            return true;
        }
        if stack.occupied_at(c.row, c.col) {
            proof {
                assert(occupied(stack.contents(), pc[j as int].0, pc[j as int].1));
            }
            return true;
        }
        j = j + 1;
    }
    false
}

/// A piece that does not collide has all four cells on the board's columns, at or
/// above the floor.
pub proof fn lemma_not_colliding_in_bounds(
    t: PieceType,
    rot: u8,
    arow: int,
    acol: int,
    sv: Seq<(int, int, PieceType)>,
)
    requires
        !collides_at(t, rot, arow, acol, sv),
    ensures
        forall|j: int|
            0 <= j < piece_cells_at(t, rot, arow, acol).len() ==> 0 <= (#[trigger] piece_cells_at(
                t,
                rot,
                arow,
                acol,
            )[j]).0 && 0 <= piece_cells_at(t, rot, arow, acol)[j].1 < BOARD_WIDTH,
{
    assert forall|j: int|
        0 <= j < piece_cells_at(t, rot, arow, acol).len() implies 0 <= (#[trigger] piece_cells_at(
        t,
        rot,
        arow,
        acol,
    )[j]).0 && 0 <= piece_cells_at(t, rot, arow, acol)[j].1 < BOARD_WIDTH by {
        assert(!cell_out_of_bounds(piece_cells_at(t, rot, arow, acol)[j]));
    }
}

/// Any filled cell past a wall or below the floor makes the piece collide, whatever
/// the stack holds; with an empty stack and every filled cell on the board, the
/// piece does not collide.
pub proof fn lemma_collides_bounds(
    t: PieceType,
    rot: u8,
    anchor: Position,
    sv: Seq<(int, int, PieceType)>,
)
    ensures
        (exists|j: int|
            0 <= j < piece_cells(t, rot, anchor).len() && cell_out_of_bounds(
                #[trigger] piece_cells(t, rot, anchor)[j],
            )) ==> collides_spec(t, rot, anchor, sv),
        sv.len() == 0 && (forall|j: int|
            0 <= j < piece_cells(t, rot, anchor).len() ==> !cell_out_of_bounds(
                #[trigger] piece_cells(t, rot, anchor)[j],
            )) ==> !collides_spec(t, rot, anchor, sv),
{
    let arow = anchor.row as int;
    let acol = anchor.col as int;
    if sv.len() == 0 && (forall|j: int|
        0 <= j < piece_cells(t, rot, anchor).len() ==> !cell_out_of_bounds(
            #[trigger] piece_cells(t, rot, anchor)[j],
        )) {
        assert forall|j: int| 0 <= j < piece_cells_at(t, rot, arow, acol).len() implies
            !cell_out_of_bounds(#[trigger] piece_cells_at(t, rot, arow, acol)[j]) && !occupied(
            sv,
            piece_cells_at(t, rot, arow, acol)[j].0,
            piece_cells_at(t, rot, arow, acol)[j].1,
        ) by {
            assert(!cell_out_of_bounds(piece_cells(t, rot, anchor)[j]));
        }
    }
}

} // verus!
