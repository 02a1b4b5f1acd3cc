use vstd::prelude::*;

verus! {

use crate::constants::{BOARD_HEIGHT, BOARD_WIDTH};
use crate::piece::{PieceType, Position};
use crate::stack::{cell_ok, cell_view, stack_ok, stack_view, SettledCell, SettledStack};
use crate::world::GameWorld;

/// Number of settled cells lying in row `r`, among the first `n` cells of `sv`.
pub open spec fn row_count_upto(sv: Seq<(int, int, PieceType)>, r: int, n: int) -> int
    decreases n,
{
    if n <= 0 {
        0
    } else {
        row_count_upto(sv, r, n - 1) + if sv[n - 1].0 == r {
            1int
        } else {
            0int
        }
    }
}

/// Number of settled cells lying in row `r`.
pub open spec fn row_count(sv: Seq<(int, int, PieceType)>, r: int) -> int {
    row_count_upto(sv, r, sv.len() as int)
}

/// A row clears when it holds at least `BOARD_WIDTH` settled cells: a pure cell
/// count, independent of which columns the cells fill.
pub open spec fn is_full_row(sv: Seq<(int, int, PieceType)>, r: int) -> bool {
    row_count(sv, r) >= BOARD_WIDTH
}

/// Number of full rows strictly below row `r`: how far the surviving cells of row
/// `r` descend in one clear pass.
pub open spec fn full_rows_below(sv: Seq<(int, int, PieceType)>, r: int) -> int
    decreases r,
{
    if r <= 0 {
        0
    } else {
        full_rows_below(sv, r - 1) + if is_full_row(sv, r - 1) {
            1int
        } else {
            0int
        }
    }
}

/// A surviving cell after one clear pass: dropped by the number of full rows
/// beneath it, in the same column.
pub open spec fn descended(sv: Seq<(int, int, PieceType)>, c: (int, int, PieceType)) -> (
    int,
    int,
    PieceType,
) {
    (c.0 - full_rows_below(sv, c.0), c.1, c.2)
}

/// One clear pass over the first `n` cells of `sv`: cells of full rows are removed,
/// every other cell descends by the number of full rows below it, keeping order.
pub open spec fn clear_prefix(sv: Seq<(int, int, PieceType)>, n: int) -> Seq<(int, int, PieceType)>
    decreases n,
{
    if n <= 0 {
        Seq::empty()
    } else {
        let front = clear_prefix(sv, n - 1);
        if is_full_row(sv, sv[n - 1].0) {
            front
        } else {
            front.push(descended(sv, sv[n - 1]))
        }
    }
}

/// One full clear pass over a stack's contents.
pub open spec fn clear_pass(sv: Seq<(int, int, PieceType)>) -> Seq<(int, int, PieceType)> {
    clear_prefix(sv, sv.len() as int)
}

/// Number of rows cleared by one pass: the full rows among the board rows. Each
/// fires one clear sound.
pub open spec fn full_rows_total(sv: Seq<(int, int, PieceType)>) -> int {
    full_rows_below(sv, BOARD_HEIGHT as int)
}

/// The stack contents after `n` clear passes, each pass reading the state the
/// previous one left.
pub open spec fn clear_passes(sv: Seq<(int, int, PieceType)>, n: int) -> Seq<(int, int, PieceType)>
    decreases n,
{
    if n <= 0 {
        sv
    } else {
        clear_pass(clear_passes(sv, n - 1))
    }
}

/// Total number of rows cleared over `n` passes.
pub open spec fn cleared_in_passes(sv: Seq<(int, int, PieceType)>, n: int) -> int
    decreases n,
{
    if n <= 0 {
        0
    } else {
        cleared_in_passes(sv, n - 1) + full_rows_total(clear_passes(sv, n - 1))
    }
}

/// There are at most `r` full rows below row `r`.
pub proof fn lemma_full_rows_below_le(sv: Seq<(int, int, PieceType)>, r: int)
    requires
        r >= 0,
    ensures
        0 <= full_rows_below(sv, r) <= r,
    decreases r,
{
    if r > 0 {
        lemma_full_rows_below_le(sv, r - 1);
    }
}

/// Number of cells among the first `n` of `sv` that lie in a full row.
pub open spec fn count_in_full_upto(sv: Seq<(int, int, PieceType)>, n: int) -> int
    decreases n,
{
    if n <= 0 {
        0
    } else {
        count_in_full_upto(sv, n - 1) + if is_full_row(sv, sv[n - 1].0) {
            1int
        } else {
            0int
        }
    }
}

/// Whether `c` is what one clear pass makes of some surviving cell among the first
/// `n` cells of `sv`.
pub open spec fn survivor_image(sv: Seq<(int, int, PieceType)>, n: int, c: (int, int, PieceType)) -> bool {
    exists|k: int| 0 <= k < n && !is_full_row(sv, sv[k].0) && c == descended(sv, sv[k])
}

/// What one clear pass holds: exactly the images of the surviving cells — every
/// cell whose row is not full, descended by the full rows below it. Cells in full
/// rows are gone, and nothing else appears.
pub proof fn lemma_clear_prefix_elements(sv: Seq<(int, int, PieceType)>, n: int)
    requires
        0 <= n <= sv.len(),
    ensures
        0 <= count_in_full_upto(sv, n) <= n,
        clear_prefix(sv, n).len() == n - count_in_full_upto(sv, n),
        forall|j: int|
            0 <= j < clear_prefix(sv, n).len() ==> survivor_image(
                sv,
                n,
                #[trigger] clear_prefix(sv, n)[j],
            ),
        forall|k: int|
            0 <= k < n && !is_full_row(sv, (#[trigger] sv[k]).0) ==> clear_prefix(sv, n).contains(
                descended(sv, sv[k]),
            ),
    decreases n,
{
    if n > 0 {
        lemma_clear_prefix_elements(sv, n - 1);
        let front = clear_prefix(sv, n - 1);
        let cur = clear_prefix(sv, n);
        assert forall|j: int| 0 <= j < cur.len() implies survivor_image(
            sv,
            n,
            #[trigger] cur[j],
        ) by {
            if j < front.len() {
                assert(survivor_image(sv, n - 1, front[j]));
                let k = choose|k: int|
                    0 <= k < n - 1 && !is_full_row(sv, sv[k].0) && front[j] == descended(sv, sv[k]);
                assert(cur[j] == descended(sv, sv[k]));
            } else {
                assert(cur[j] == descended(sv, sv[n - 1]));
            }
        }
        assert forall|k: int|
            0 <= k < n && !is_full_row(sv, (#[trigger] sv[k]).0) implies cur.contains(
            descended(sv, sv[k]),
        ) by {
            if k < n - 1 {
                assert(front.contains(descended(sv, sv[k])));
                let idx = choose|idx: int|
                    0 <= idx < front.len() && front[idx] == descended(sv, sv[k]);
                assert(cur[idx] == descended(sv, sv[k]));
            } else {
                assert(cur[cur.len() - 1] == descended(sv, sv[k]));
            }
        }
    }
}

/// With `sv` on the board, a row off the board is never full.
pub proof fn lemma_off_board_row_not_full(sv: Seq<(int, int, PieceType)>, r: int)
    requires
        stack_ok(sv),
        !(0 <= r < BOARD_HEIGHT),
    ensures
        !is_full_row(sv, r),
{
    lemma_row_count_off_board(sv, r, sv.len() as int);
}

/// A row off the board holds no cells of an on-board stack.
proof fn lemma_row_count_off_board(sv: Seq<(int, int, PieceType)>, r: int, n: int)
    requires
        stack_ok(sv),
        !(0 <= r < BOARD_HEIGHT),
        n <= sv.len(),
    ensures
        row_count_upto(sv, r, n) == 0,
    decreases n,
{
    if n > 0 {
        lemma_row_count_off_board(sv, r, n - 1);
        assert(cell_ok(sv[n - 1]));
    }
}

/// With exactly one full row `r`, a cell descends by 1 above it and stays in place
/// at or below it.
proof fn lemma_full_rows_below_one(sv: Seq<(int, int, PieceType)>, r: int, rr: int)
    requires
        0 <= r,
        rr >= 0,
        is_full_row(sv, r),
        forall|r2: int| r2 != r ==> !(#[trigger] is_full_row(sv, r2)),
    ensures
        full_rows_below(sv, rr) == if rr > r {
            1int
        } else {
            0int
        },
    decreases rr,
{
    if rr > 0 {
        lemma_full_rows_below_one(sv, r, rr - 1);
    }
}

/// With exactly two full rows `r1 < r2`, a cell descends by 2 above `r2`, by 1
/// between them, and stays in place at or below `r1`.
proof fn lemma_full_rows_below_two(sv: Seq<(int, int, PieceType)>, r1: int, r2: int, rr: int)
    requires
        0 <= r1 < r2,
        rr >= 0,
        is_full_row(sv, r1),
        is_full_row(sv, r2),
        forall|r3: int| r3 != r1 && r3 != r2 ==> !(#[trigger] is_full_row(sv, r3)),
    ensures
        full_rows_below(sv, rr) == if rr > r2 {
            2int
        } else if rr > r1 {
            1int
        } else {
            0int
        },
    decreases rr,
{
    if rr > 0 {
        lemma_full_rows_below_two(sv, r1, r2, rr - 1);
    }
}

/// With exactly one full row `r`, the cells lying in full rows are the cells of `r`.
proof fn lemma_count_in_full_one(sv: Seq<(int, int, PieceType)>, r: int, n: int)
    requires
        is_full_row(sv, r),
        forall|r2: int| r2 != r ==> !(#[trigger] is_full_row(sv, r2)),
        0 <= n <= sv.len(),
    ensures
        count_in_full_upto(sv, n) == row_count_upto(sv, r, n),
    decreases n,
{
    if n > 0 {
        lemma_count_in_full_one(sv, r, n - 1);
    }
}

/// With exactly two full rows, the cells lying in full rows are the two rows' cells.
proof fn lemma_count_in_full_two(sv: Seq<(int, int, PieceType)>, r1: int, r2: int, n: int)
    requires
        r1 != r2,
        is_full_row(sv, r1),
        is_full_row(sv, r2),
        forall|r3: int| r3 != r1 && r3 != r2 ==> !(#[trigger] is_full_row(sv, r3)),
        0 <= n <= sv.len(),
    ensures
        count_in_full_upto(sv, n) == row_count_upto(sv, r1, n) + row_count_upto(sv, r2, n),
    decreases n,
{
    if n > 0 {
        lemma_count_in_full_two(sv, r1, r2, n - 1);
    }
}

/// One full row `r` and no other: one clear pass removes exactly the cells of row
/// `r`, keeps every cell below `r` in place, descends every cell above `r` by
/// exactly 1, and adds nothing else.
pub proof fn lemma_clear_one_full_row(sv: Seq<(int, int, PieceType)>, r: int)
    requires
        stack_ok(sv),
        0 <= r < BOARD_HEIGHT,
        is_full_row(sv, r),
        forall|r2: int|
            0 <= r2 < BOARD_HEIGHT && r2 != r ==> !(#[trigger] is_full_row(sv, r2)),
    ensures
        clear_pass(sv).len() == sv.len() - row_count(sv, r),
        forall|k: int|
            0 <= k < sv.len() && (#[trigger] sv[k]).0 != r ==> clear_pass(sv).contains(
                (
                    if sv[k].0 > r {
                        sv[k].0 - 1
                    } else {
                        sv[k].0
                    },
                    sv[k].1,
                    sv[k].2,
                ),
            ),
        forall|j: int|
            0 <= j < clear_pass(sv).len() ==> survivor_image(
                sv,
                sv.len() as int,
                #[trigger] clear_pass(sv)[j],
            ),
{
    let n = sv.len() as int;
    assert forall|r2: int| r2 != r implies !(#[trigger] is_full_row(sv, r2)) by {
        if !(0 <= r2 < BOARD_HEIGHT) {
            lemma_off_board_row_not_full(sv, r2);
        }
    }
    lemma_clear_prefix_elements(sv, n);
    lemma_count_in_full_one(sv, r, n);
    assert forall|k: int|
        0 <= k < sv.len() && (#[trigger] sv[k]).0 != r implies clear_pass(sv).contains(
        (
            if sv[k].0 > r {
                sv[k].0 - 1
            } else {
                sv[k].0
            },
            sv[k].1,
            sv[k].2,
        ),
    ) by {
        assert(cell_ok(sv[k]));
        assert(!is_full_row(sv, sv[k].0));
        lemma_full_rows_below_one(sv, r, sv[k].0);
        assert(descended(sv, sv[k]) == (
            if sv[k].0 > r {
                sv[k].0 - 1
            } else {
                sv[k].0
            },
            sv[k].1,
            sv[k].2,
        ));
    }
}

/// Two full rows `r1 < r2`, not adjacent, and no other: one pass clears both; cells
/// above `r2` descend by 2, cells strictly between descend by 1, cells below `r1`
/// keep their place, and nothing else appears.
pub proof fn lemma_clear_two_full_rows(sv: Seq<(int, int, PieceType)>, r1: int, r2: int)
    requires
        stack_ok(sv),
        0 <= r1,
        r1 + 1 < r2,
        r2 < BOARD_HEIGHT,
        is_full_row(sv, r1),
        is_full_row(sv, r2),
        forall|r3: int|
            0 <= r3 < BOARD_HEIGHT && r3 != r1 && r3 != r2 ==> !(#[trigger] is_full_row(sv, r3)),
    ensures
        clear_pass(sv).len() == sv.len() - row_count(sv, r1) - row_count(sv, r2),
        forall|k: int|
            0 <= k < sv.len() && (#[trigger] sv[k]).0 != r1 && sv[k].0 != r2 ==> clear_pass(
                sv,
            ).contains(
                (
                    if sv[k].0 > r2 {
                        sv[k].0 - 2
                    } else if sv[k].0 > r1 {
                        sv[k].0 - 1
                    } else {
                        sv[k].0
                    },
                    sv[k].1,
                    sv[k].2,
                ),
            ),
        forall|j: int|
            0 <= j < clear_pass(sv).len() ==> survivor_image(
                sv,
                sv.len() as int,
                #[trigger] clear_pass(sv)[j],
            ),
{
    let n = sv.len() as int;
    assert forall|r3: int| r3 != r1 && r3 != r2 implies !(#[trigger] is_full_row(sv, r3)) by {
        if !(0 <= r3 < BOARD_HEIGHT) {
            lemma_off_board_row_not_full(sv, r3);
        }
    }
    lemma_clear_prefix_elements(sv, n);
    lemma_count_in_full_two(sv, r1, r2, n);
    assert forall|k: int|
        0 <= k < sv.len() && (#[trigger] sv[k]).0 != r1 && sv[k].0 != r2 implies clear_pass(
        sv,
    ).contains(
        (
            if sv[k].0 > r2 {
                sv[k].0 - 2
            } else if sv[k].0 > r1 {
                sv[k].0 - 1
            } else {
                sv[k].0
            },
            sv[k].1,
            sv[k].2,
        ),
    ) by {
        assert(cell_ok(sv[k]));
        assert(!is_full_row(sv, sv[k].0));
        lemma_full_rows_below_two(sv, r1, r2, sv[k].0);
        assert(descended(sv, sv[k]) == (
            if sv[k].0 > r2 {
                sv[k].0 - 2
            } else if sv[k].0 > r1 {
                sv[k].0 - 1
            } else {
                sv[k].0
            },
            sv[k].1,
            sv[k].2,
        ));
    }
}

/// Count the settled cells lying in row `r`.
fn count_row(stack: &SettledStack, r: i32) -> (n: usize)
    ensures
        n == row_count(stack.contents(), r as int),
{
    let mut n: usize = 0;
    let mut j: usize = 0;
    while j < stack.cells.len()
        invariant
            j <= stack.cells.len(),
            n <= j,
            n == row_count_upto(stack.contents(), r as int, j as int),
        decreases stack.cells.len() - j,
    {
        let c = stack.cells[j];
        proof {
            assert(stack.contents()[j as int] == cell_view(stack.cells@[j as int]));
        }
        if c.pos.row == r {
            n = n + 1;
        }
        j = j + 1;
    }
    n
}

/// Whether row `r` currently clears.
fn row_full(stack: &SettledStack, r: i32) -> (b: bool)
    ensures
        b == is_full_row(stack.contents(), r as int),
{
    count_row(stack, r) >= BOARD_WIDTH as usize
}

/// Count the full rows strictly below row `r`.
fn count_full_below(stack: &SettledStack, r: i32) -> (n: u32)
    requires
        0 <= r <= BOARD_HEIGHT,
    ensures
        n == full_rows_below(stack.contents(), r as int),
        n <= r,
{
    let mut n: u32 = 0;
    let mut rr: i32 = 0;
    while rr < r
        invariant
            0 <= rr <= r <= BOARD_HEIGHT,
            n <= rr,
            n == full_rows_below(stack.contents(), rr as int),
        decreases r - rr,
    {
        if row_full(stack, rr) {
            n = n + 1;
        }
        rr = rr + 1;
    }
    n
}

/// One line-clear pass: group the settled cells by row, delete every row holding at
/// least `BOARD_WIDTH` cells, and drop every surviving cell by the number of full
/// rows beneath it. Returns how many rows cleared, so the caller can fire one clear
/// sound per row.
pub fn clear_lines_pass(stack: &mut SettledStack) -> (cleared: u32)
    requires
        old(stack).wf(),
    ensures
        final(stack).contents() == clear_pass(old(stack).contents()),
        final(stack).wf(),
        cleared == full_rows_total(old(stack).contents()),
        cleared <= BOARD_HEIGHT,
{
    let cleared = count_full_below(stack, BOARD_HEIGHT);
    let ghost sv = stack.contents();
    let mut out: Vec<SettledCell> = Vec::new();
    let mut i: usize = 0;
    proof {
        assert(stack_view(out@) =~= clear_prefix(sv, 0));
    }
    while i < stack.cells.len()
        invariant
            i <= stack.cells.len(),
            sv == stack.contents(),
            stack.wf(),
            stack_view(out@) == clear_prefix(sv, i as int),
            stack_ok(stack_view(out@)),
        decreases stack.cells.len() - i,
    {
        let c = stack.cells[i];
        let ghost ii = i as int;
        proof {
            assert(sv[ii] == cell_view(stack.cells@[ii]));
            assert(cell_ok(sv[ii]));
        }
        if !row_full(stack, c.pos.row) {
            let below = count_full_below(stack, c.pos.row);
            proof {
                lemma_full_rows_below_le(sv, c.pos.row as int);
            }
            let nc = SettledCell {
                piece: c.piece,
                pos: Position { row: c.pos.row - below as i32, col: c.pos.col },
            };
            let ghost pre = out@;
            out.push(nc);
            proof {
                assert(cell_view(nc) == descended(sv, sv[ii]));
                assert(out@ == pre.push(nc));
                assert(stack_view(out@) =~~= stack_view(pre).push(cell_view(nc)));
                assert(stack_view(out@) == clear_prefix(sv, ii + 1));
                assert(cell_ok(cell_view(nc)));
            }
        }
        i = i + 1;
    }
    proof {
        assert(clear_prefix(sv, stack.cells@.len() as int) == clear_pass(sv));
    }
    stack.cells = out;
    cleared
}

/// Line-clear engine: each drained landing signal triggers one clear pass, reading
/// the state the previous pass left.
pub struct LineClearSystem {
    /// How many landing signals this engine has consumed.
    pub land_cursor: u64,
}

impl LineClearSystem {
    /// A line-clear engine that has consumed no signal yet.
    pub fn new() -> (s: Self)
        ensures
            s.land_cursor == 0,
    {
        Self { land_cursor: 0 }
    }

    /// Drain the pending landing signals and run one clear pass per drained signal.
    /// Returns the total number of rows cleared, one clear sound each.
    pub fn run(&mut self, world: &mut GameWorld) -> (cleared: u64)
        requires
            old(self).land_cursor <= old(world).land_signals,
            old(world).wf(),
            BOARD_HEIGHT * (old(world).land_signals - old(self).land_cursor) <= u64::MAX,
        ensures
            final(self).land_cursor == old(world).land_signals,
            final(world).settled.contents() == clear_passes(
                old(world).settled.contents(),
                old(world).land_signals - old(self).land_cursor,
            ),
            cleared == cleared_in_passes(
                old(world).settled.contents(),
                old(world).land_signals - old(self).land_cursor,
            ),
            final(world).active == old(world).active,
            final(world).land_signals == old(world).land_signals,
            final(world).reset_signals == old(world).reset_signals,
            final(world).wf(),
    {
        let n = world.land_signals - self.land_cursor;
        self.land_cursor = world.land_signals;
        let ghost sv0 = world.settled.contents();
        let mut cleared: u64 = 0;
        let mut k: u64 = 0;
        while k < n
            invariant
                k <= n,
                world.settled.contents() == clear_passes(sv0, k as int),
                cleared == cleared_in_passes(sv0, k as int),
                cleared <= BOARD_HEIGHT * k,
                BOARD_HEIGHT * n <= u64::MAX,
                world.wf(),
                world.active == old(world).active,
                world.land_signals == old(world).land_signals,
                world.reset_signals == old(world).reset_signals,
            decreases n - k,
        {
            let pass_cleared = clear_lines_pass(&mut world.settled);
            cleared = cleared + pass_cleared as u64;
            k = k + 1;
        }
        cleared
    }
}

} // verus!
