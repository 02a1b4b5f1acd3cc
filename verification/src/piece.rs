use vstd::prelude::*;

verus! {

/// A cell position on the board. Row 0 is the floor row and rows increase upward;
/// columns run from 0 at the left edge.
#[derive(Clone, Copy, Debug, PartialEq, Eq, Structural)]
pub struct Position {
    pub row: i32,
    pub col: i32,
}

/// The seven tetromino types.
#[derive(Clone, Copy, Debug, PartialEq, Eq, Structural)]
pub enum PieceType {
    O,
    J,
    L,
    I,
    S,
    Z,
    T,
}

/// A falling piece: its type and its rotation index (`0..4`).
#[derive(Clone, Copy, Debug, PartialEq, Eq, Structural)]
pub struct Piece {
    pub piece_type: PieceType,
    pub rotation: u8,
}

/// The remnant of a locked piece: one settled block carries the type of the piece
/// it came from, for display.
#[derive(Clone, Copy, Debug, PartialEq, Eq, Structural)]
pub struct DroppedPiece {
    pub piece_type: PieceType,
}

impl DroppedPiece {
    /// A settled block stemming from a piece of the given type.
    pub fn new(piece_type: PieceType) -> (d: Self)
        ensures
            d.piece_type == piece_type,
    {
        Self { piece_type }
    }
}

/// The 4x4 occupancy mask of a piece type at a rotation index: bit `row * 4 + col`
/// is set when the cell at `(row, col)` of the 4x4 box is filled.
pub open spec fn spec_shape(t: PieceType, r: int) -> u16
    recommends
        0 <= r < 4,
{
    match t {
        PieceType::O => 0xCC00u16,
        PieceType::J => if r == 0 { 0x44C0u16 } else if r == 1 { 0x8E00u16 } else if r == 2 { 0x6440u16 } else { 0x0E20u16 },
        PieceType::L => if r == 0 { 0x4460u16 } else if r == 1 { 0x0E80u16 } else if r == 2 { 0xC440u16 } else { 0x2E00u16 },
        PieceType::I => if r == 0 { 0x0F00u16 } else if r == 1 { 0x2222u16 } else if r == 2 { 0x00F0u16 } else { 0x4444u16 },
        PieceType::S => if r == 0 { 0x06C0u16 } else if r == 1 { 0x8C40u16 } else if r == 2 { 0x6C00u16 } else { 0x4620u16 },
        PieceType::Z => if r == 0 { 0x0C60u16 } else if r == 1 { 0x4C80u16 } else if r == 2 { 0xC600u16 } else { 0x2640u16 },
        PieceType::T => if r == 0 { 0x0E40u16 } else if r == 1 { 0x4C40u16 } else if r == 2 { 0x4E00u16 } else { 0x4640u16 },
    }
}

/// `2^i`, used to read single bits of a shape mask with division.
pub open spec fn pow2_16(i: int) -> int
    decreases i,
{
    if i <= 0 {
        1
    } else {
        2 * pow2_16(i - 1)
    }
}

/// Whether bit `i` of `mask` is set.
pub open spec fn mask_bit(mask: u16, i: int) -> bool {
    (mask as int) / pow2_16(i) % 2 == 1
}

/// The absolute board cell that bit `i` of a shape mask occupies for a piece
/// anchored at `(arow, acol)`: bit `(r, c)` of the 4x4 box fills the cell
/// `(arow + (3 - r), acol + c)`. The inverted row keeps row 0 at the floor.
pub open spec fn mask_cell(arow: int, acol: int, i: int) -> (int, int) {
    (arow + 3 - i / 4, acol + i % 4)
}

/// The absolute cells of the set bits among the first `n` bit indices of `mask`,
/// in row-major mask order, for a piece anchored at `(arow, acol)`.
pub open spec fn cells_upto(mask: u16, arow: int, acol: int, n: int) -> Seq<(int, int)>
    decreases n,
{
    if n <= 0 {
        Seq::empty()
    } else if mask_bit(mask, n - 1) {
        cells_upto(mask, arow, acol, n - 1).push(mask_cell(arow, acol, n - 1))
    } else {
        cells_upto(mask, arow, acol, n - 1)
    }
}

/// All cells occupied by a piece of type `t` at rotation index `rot`, anchored
/// at `(arow, acol)`.
pub open spec fn piece_cells_at(t: PieceType, rot: u8, arow: int, acol: int) -> Seq<(int, int)> {
    cells_upto(spec_shape(t, (rot as int) % 4), arow, acol, 16)
}

/// All cells occupied by a piece of type `t` at rotation index `rot` anchored at `anchor`.
pub open spec fn piece_cells(t: PieceType, rot: u8, anchor: Position) -> Seq<(int, int)> {
    piece_cells_at(t, rot, anchor.row as int, anchor.col as int)
}

/// The mathematical view of a sequence of positions.
pub open spec fn positions_view(s: Seq<Position>) -> Seq<(int, int)> {
    s.map_values(|p: Position| (p.row as int, p.col as int))
}

/// The rotation index after one clockwise rotation.
pub open spec fn spec_rot_cw(r: u8) -> u8 {
    (((r as int) + 1) % 4) as u8
}

/// The rotation index after one counterclockwise rotation: a true modulo, so
/// rotating back from 0 wraps to 3.
pub open spec fn spec_rot_ccw(r: u8) -> u8 {
    if r == 0 {
        3u8
    } else {
        (((r as int) - 1) % 4) as u8
    }
}

impl PieceType {
    /// The 16-bit occupancy mask for this type at the given rotation index,
    /// taken modulo 4.
    pub fn get_shape(&self, rotation: u8) -> (s: u16)
        ensures
            s == spec_shape(*self, (rotation as int) % 4),
    {
        let r = rotation % 4;
        match *self {
            PieceType::O => 0xCC00,
            PieceType::J => if r == 0 { 0x44C0 } else if r == 1 { 0x8E00 } else if r == 2 { 0x6440 } else { 0x0E20 },
            PieceType::L => if r == 0 { 0x4460 } else if r == 1 { 0x0E80 } else if r == 2 { 0xC440 } else { 0x2E00 },
            PieceType::I => if r == 0 { 0x0F00 } else if r == 1 { 0x2222 } else if r == 2 { 0x00F0 } else { 0x4444 },
            PieceType::S => if r == 0 { 0x06C0 } else if r == 1 { 0x8C40 } else if r == 2 { 0x6C00 } else { 0x4620 },
            PieceType::Z => if r == 0 { 0x0C60 } else if r == 1 { 0x4C80 } else if r == 2 { 0xC600 } else { 0x2640 },
            PieceType::T => if r == 0 { 0x0E40 } else if r == 1 { 0x4C40 } else if r == 2 { 0x4E00 } else { 0x4640 },
        }
    }
}

impl Piece {
    /// A new piece of the given type at rotation index 0.
    pub fn new(piece_type: PieceType) -> (p: Self)
        ensures
            p.piece_type == piece_type,
            p.rotation == 0,
    {
        Self { piece_type, rotation: 0 }
    }

    /// Rotate one step clockwise: the rotation index advances by 1 modulo 4.
    pub fn rotate_cw(&mut self)
        requires
            old(self).rotation < 4,
        ensures
            final(self).rotation == spec_rot_cw(old(self).rotation),
            final(self).piece_type == old(self).piece_type,
    {
        self.rotation = (self.rotation + 1) % 4;
    }

    /// Rotate one step counterclockwise: the rotation index retreats by 1 with a
    /// true modulo, so 0 wraps around to 3.
    pub fn rotate_ccw(&mut self)
        requires
            old(self).rotation < 4,
        ensures
            final(self).rotation == spec_rot_ccw(old(self).rotation),
            final(self).piece_type == old(self).piece_type,
    {
        if self.rotation == 0 {
            self.rotation = 3;
        } else {
            self.rotation = self.rotation - 1;
        }
    }

    /// The absolute positions of the piece's filled cells when anchored at `pos`,
    /// decoded from the shape mask in row-major order.
    pub fn get_filled_positions(&self, pos: &Position) -> (r: Vec<Position>)
        requires
            pos.row <= i32::MAX - 3,
            pos.col <= i32::MAX - 3,
        ensures
            positions_view(r@) == piece_cells(self.piece_type, self.rotation, *pos),
    {
        let mut positions: Vec<Position> = Vec::new();
        let shape = self.piece_type.get_shape(self.rotation);
        let mut i: usize = 0;
        let mut p: u32 = 1;
        while i < 16
            invariant
                i <= 16,
                p == pow2_16(i as int),
                p <= 0x10000,
                pos.row <= i32::MAX - 3,
                pos.col <= i32::MAX - 3,
                shape == spec_shape(self.piece_type, (self.rotation as int) % 4),
                positions_view(positions@) == cells_upto(shape, pos.row as int, pos.col as int, i as int),
            decreases 16 - i,
        {
            proof {
                lemma_pow2_16_bounds(i as int);
            }
            if (shape as u32 / p) % 2 == 1 {
                let row_off = (i / 4) as i32;
                let col_off = (i % 4) as i32;
                positions.push(Position { row: pos.row + (3 - row_off), col: pos.col + col_off });
                proof {
                    assert(positions_view(positions@) =~= cells_upto(
                        shape,
                        pos.row as int,
                        pos.col as int,
                        i as int + 1,
                    ));
                }
            }
            p = p * 2;
            i = i + 1;
        }
        positions
    }
}

/// Number of set bits among the first `n` bit indices of `mask`.
pub open spec fn mask_bit_count(mask: u16, n: int) -> int
    decreases n,
{
    if n <= 0 {
        0
    } else {
        mask_bit_count(mask, n - 1) + if mask_bit(mask, n - 1) { 1int } else { 0int }
    }
}

/// `cells_upto` holds one cell per set bit.
proof fn lemma_cells_upto_len(mask: u16, arow: int, acol: int, n: int)
    ensures
        cells_upto(mask, arow, acol, n).len() == if n <= 0 { 0int } else { mask_bit_count(mask, n) },
    decreases n,
{
    if n > 0 {
        lemma_cells_upto_len(mask, arow, acol, n - 1);
    }
}

/// Every one of the 28 shape masks has exactly 4 set bits.
proof fn lemma_shape_bit_count(t: PieceType, r: int)
    requires
        0 <= r < 4,
    ensures
        mask_bit_count(spec_shape(t, r), 16) == 4,
{
    lemma_pow2_16_values();
    reveal_with_fuel(mask_bit_count, 17);
    match t {
        PieceType::O => {
            assert(mask_bit_count(0xCC00u16, 16) == 4);
        },
        PieceType::J => {
            assert(mask_bit_count(0x44C0u16, 16) == 4);
            assert(mask_bit_count(0x8E00u16, 16) == 4);
            assert(mask_bit_count(0x6440u16, 16) == 4);
            assert(mask_bit_count(0x0E20u16, 16) == 4);
        },
        PieceType::L => {
            assert(mask_bit_count(0x4460u16, 16) == 4);
            assert(mask_bit_count(0x0E80u16, 16) == 4);
            assert(mask_bit_count(0xC440u16, 16) == 4);
            assert(mask_bit_count(0x2E00u16, 16) == 4);
        },
        PieceType::I => {
            assert(mask_bit_count(0x0F00u16, 16) == 4);
            assert(mask_bit_count(0x2222u16, 16) == 4);
            assert(mask_bit_count(0x00F0u16, 16) == 4);
            assert(mask_bit_count(0x4444u16, 16) == 4);
        },
        PieceType::S => {
            assert(mask_bit_count(0x06C0u16, 16) == 4);
            assert(mask_bit_count(0x8C40u16, 16) == 4);
            assert(mask_bit_count(0x6C00u16, 16) == 4);
            assert(mask_bit_count(0x4620u16, 16) == 4);
        },
        PieceType::Z => {
            assert(mask_bit_count(0x0C60u16, 16) == 4);
            assert(mask_bit_count(0x4C80u16, 16) == 4);
            assert(mask_bit_count(0xC600u16, 16) == 4);
            assert(mask_bit_count(0x2640u16, 16) == 4);
        },
        PieceType::T => {
            assert(mask_bit_count(0x0E40u16, 16) == 4);
            assert(mask_bit_count(0x4C40u16, 16) == 4);
            assert(mask_bit_count(0x4E00u16, 16) == 4);
            assert(mask_bit_count(0x4640u16, 16) == 4);
        },
    }
}

/// The value of `2^i` for each bit index of a 16-bit mask.
proof fn lemma_pow2_16_values()
    ensures
        pow2_16(0) == 0x1,
        pow2_16(1) == 0x2,
        pow2_16(2) == 0x4,
        pow2_16(3) == 0x8,
        pow2_16(4) == 0x10,
        pow2_16(5) == 0x20,
        pow2_16(6) == 0x40,
        pow2_16(7) == 0x80,
        pow2_16(8) == 0x100,
        pow2_16(9) == 0x200,
        pow2_16(10) == 0x400,
        pow2_16(11) == 0x800,
        pow2_16(12) == 0x1000,
        pow2_16(13) == 0x2000,
        pow2_16(14) == 0x4000,
        pow2_16(15) == 0x8000,
{
    reveal_with_fuel(pow2_16, 17);
}

/// Distinct bit indices occupy distinct cells of the 4x4 box.
proof fn lemma_mask_cell_injective(arow: int, acol: int, i: int, j: int)
    requires
        0 <= i < 16,
        0 <= j < 16,
        i != j,
    ensures
        mask_cell(arow, acol, i) != mask_cell(arow, acol, j),
{
    assert(i == 4 * (i / 4) + i % 4);
    assert(j == 4 * (j / 4) + j % 4);
}

/// Whether cell `c` is the cell of some set bit below index `n` of `mask`.
spec fn cell_from_bit(mask: u16, arow: int, acol: int, n: int, c: (int, int)) -> bool {
    exists|i: int| 0 <= i < n && mask_bit(mask, i) && c == mask_cell(arow, acol, i)
}

/// Every cell of `cells_upto` comes from a distinct set bit, so the cells are
/// pairwise distinct.
proof fn lemma_cells_upto_distinct(mask: u16, arow: int, acol: int, n: int)
    requires
        0 <= n <= 16,
    ensures
        forall|j: int|
            0 <= j < cells_upto(mask, arow, acol, n).len() ==> cell_from_bit(
                mask,
                arow,
                acol,
                n,
                #[trigger] cells_upto(mask, arow, acol, n)[j],
            ),
        forall|j: int, k: int|
            0 <= j < k < cells_upto(mask, arow, acol, n).len() ==> cells_upto(
                mask,
                arow,
                acol,
                n,
            )[j] != cells_upto(mask, arow, acol, n)[k],
    decreases n,
{
    if n > 0 {
        lemma_cells_upto_distinct(mask, arow, acol, n - 1);
        let prev = cells_upto(mask, arow, acol, n - 1);
        let cur = cells_upto(mask, arow, acol, n);
        assert forall|j: int| 0 <= j < cur.len() implies cell_from_bit(
            mask,
            arow,
            acol,
            n,
            #[trigger] cur[j],
        ) by {
            if j < prev.len() {
                assert(cell_from_bit(mask, arow, acol, n - 1, prev[j]));
                let i = choose|i: int|
                    0 <= i < n - 1 && mask_bit(mask, i) && prev[j] == mask_cell(arow, acol, i);
                assert(cur[j] == mask_cell(arow, acol, i));
            } else {
                assert(cur[j] == mask_cell(arow, acol, n - 1));
            }
        }
        if mask_bit(mask, n - 1) {
            assert forall|j: int, k: int| 0 <= j < k < cur.len() implies cur[j] != cur[k] by {
                if k < prev.len() {
                    assert(cur[j] == prev[j] && cur[k] == prev[k]);
                } else {
                    assert(cur[k] == mask_cell(arow, acol, n - 1));
                    assert(cur[j] == prev[j]);
                    assert(cell_from_bit(mask, arow, acol, n - 1, prev[j]));
                    let i = choose|i: int|
                        0 <= i < n - 1 && mask_bit(mask, i) && prev[j] == mask_cell(arow, acol, i);
                    lemma_mask_cell_injective(arow, acol, i, n - 1);
                }
            }
        }
    }
}

/// Every cell of a piece lies inside the 4x4 box whose bottom-left corner is the
/// anchor.
pub proof fn lemma_piece_cells_in_box(t: PieceType, rot: u8, arow: int, acol: int)
    ensures
        forall|j: int|
            0 <= j < piece_cells_at(t, rot, arow, acol).len() ==> arow <= (#[trigger] piece_cells_at(
                t,
                rot,
                arow,
                acol,
            )[j]).0 <= arow + 3 && acol <= piece_cells_at(t, rot, arow, acol)[j].1 <= acol + 3,
{
    lemma_cells_upto_box(spec_shape(t, (rot as int) % 4), arow, acol, 16);
}

/// Every cell produced from the first 16 bits of a mask lies in the anchor's 4x4 box.
proof fn lemma_cells_upto_box(mask: u16, arow: int, acol: int, n: int)
    requires
        n <= 16,
    ensures
        forall|j: int|
            0 <= j < cells_upto(mask, arow, acol, n).len() ==> arow <= (#[trigger] cells_upto(
                mask,
                arow,
                acol,
                n,
            )[j]).0 <= arow + 3 && acol <= cells_upto(mask, arow, acol, n)[j].1 <= acol + 3,
    decreases n,
{
    if n > 0 {
        lemma_cells_upto_box(mask, arow, acol, n - 1);
        let prev = cells_upto(mask, arow, acol, n - 1);
        let cur = cells_upto(mask, arow, acol, n);
        assert forall|j: int| 0 <= j < cur.len() implies arow <= (#[trigger] cur[j]).0 <= arow + 3
            && acol <= cur[j].1 <= acol + 3 by {
            if j < prev.len() {
                assert(cur[j] == prev[j]);
            } else {
                assert(cur[j] == mask_cell(arow, acol, n - 1));
            }
        }
    }
}

/// A piece occupies exactly 4 pairwise distinct cells, whatever its type, rotation
/// index and anchor.
pub proof fn lemma_piece_cells_four_distinct(t: PieceType, rot: u8, arow: int, acol: int)
    ensures
        piece_cells_at(t, rot, arow, acol).len() == 4,
        forall|j: int, k: int|
            0 <= j < k < 4 ==> piece_cells_at(t, rot, arow, acol)[j] != piece_cells_at(
                t,
                rot,
                arow,
                acol,
            )[k],
{
    let mask = spec_shape(t, (rot as int) % 4);
    lemma_cells_upto_len(mask, arow, acol, 16);
    lemma_shape_bit_count(t, (rot as int) % 4);
    lemma_cells_upto_distinct(mask, arow, acol, 16);
}

/// Four rotations in either direction return a piece to its original rotation
/// index, and with it to its original filled cells.
pub proof fn lemma_rotate_four_times_identity(p: Piece, anchor: Position)
    requires
        p.rotation < 4,
    ensures
        spec_rot_cw(spec_rot_cw(spec_rot_cw(spec_rot_cw(p.rotation)))) == p.rotation,
        spec_rot_ccw(spec_rot_ccw(spec_rot_ccw(spec_rot_ccw(p.rotation)))) == p.rotation,
        piece_cells(
            p.piece_type,
            spec_rot_cw(spec_rot_cw(spec_rot_cw(spec_rot_cw(p.rotation)))),
            anchor,
        ) == piece_cells(p.piece_type, p.rotation, anchor),
        piece_cells(
            p.piece_type,
            spec_rot_ccw(spec_rot_ccw(spec_rot_ccw(spec_rot_ccw(p.rotation)))),
            anchor,
        ) == piece_cells(p.piece_type, p.rotation, anchor),
{
}

/// `2^i` grows with `i` and stays within a 16-bit shape mask's range for `i <= 16`.
proof fn lemma_pow2_16_bounds(i: int)
    requires
        0 <= i <= 16,
    ensures
        1 <= pow2_16(i),
        i < 16 ==> pow2_16(i) <= 0x8000,
        pow2_16(i) <= 0x10000,
{
    lemma_pow2_16_pos(i);
    assert(pow2_16(15) == 0x8000 && pow2_16(16) == 0x10000) by {
        reveal_with_fuel(pow2_16, 17);
    }
    if i < 16 {
        lemma_pow2_16_le(i, 15);
    }
    lemma_pow2_16_le(i, 16);
}

/// `pow2_16` is monotone.
proof fn lemma_pow2_16_le(i: int, j: int)
    requires
        0 <= i <= j,
    ensures
        pow2_16(i) <= pow2_16(j),
    decreases j - i,
{
    if i < j {
        lemma_pow2_16_le(i, j - 1);
        lemma_pow2_16_pos(j - 1);
        assert(pow2_16(j) == 2 * pow2_16(j - 1));
    }
}

/// `pow2_16` is positive.
proof fn lemma_pow2_16_pos(i: int)
    ensures
        pow2_16(i) >= 1,
    decreases i,
{
    if i > 0 {
        lemma_pow2_16_pos(i - 1);
    }
}

} // verus!
