use vstd::prelude::*;

verus! {

use crate::collision::{collides, collides_at};
use crate::constants::FALL_TIMER_MS;
use crate::piece::{piece_cells, positions_view, DroppedPiece, PieceType, Position};
use crate::stack::{cell_ok, cell_view, stack_ok, stack_view, SettledCell};
use crate::world::{active_ok, lemma_active_anchor_bounds, ActivePiece, GameWorld};

/// The four cells of an active piece, tagged with its type: what locking it adds
/// to the settled stack.
pub open spec fn piece_cells_tagged(a: ActivePiece) -> Seq<(int, int, PieceType)> {
    piece_cells(a.piece.piece_type, a.piece.rotation, a.pos).map_values(
        |c: (int, int)| (c.0, c.1, a.piece.piece_type),
    )
}

/// Whether an active piece collides one row below its current anchor, against the
/// settled cells `sv`: the lock condition of the gravity step.
pub open spec fn lands(a: ActivePiece, sv: Seq<(int, int, PieceType)>) -> bool {
    collides_at(a.piece.piece_type, a.piece.rotation, a.pos.row - 1, a.pos.col as int, sv)
}

/// The survivors of one gravity step: each piece that does not land moves down one
/// row; each piece that lands is removed. Every piece is tested against the same
/// snapshot `sv` of the settled cells.
pub open spec fn fall_survivors(pieces: Seq<ActivePiece>, sv: Seq<(int, int, PieceType)>) -> Seq<
    ActivePiece,
>
    decreases pieces.len(),
{
    if pieces.len() == 0 {
        Seq::empty()
    } else {
        let front = fall_survivors(pieces.drop_last(), sv);
        let a = pieces.last();
        if lands(a, sv) {
            front
        } else {
            front.push(
                ActivePiece {
                    piece: a.piece,
                    pos: Position { row: (a.pos.row - 1) as i32, col: a.pos.col },
                },
            )
        }
    }
}

/// The cells locked by one gravity step, in piece order: the four cells of each
/// landing piece at its pre-lock position, tagged with its type.
pub open spec fn fall_locked(pieces: Seq<ActivePiece>, sv: Seq<(int, int, PieceType)>) -> Seq<
    (int, int, PieceType),
>
    decreases pieces.len(),
{
    if pieces.len() == 0 {
        Seq::empty()
    } else {
        let front = fall_locked(pieces.drop_last(), sv);
        let a = pieces.last();
        if lands(a, sv) {
            front + piece_cells_tagged(a)
        } else {
            front
        }
    }
}

/// How many pieces one gravity step locks: one landing signal is raised for each.
pub open spec fn fall_locked_count(pieces: Seq<ActivePiece>, sv: Seq<(int, int, PieceType)>) -> int
    decreases pieces.len(),
{
    if pieces.len() == 0 {
        0
    } else {
        fall_locked_count(pieces.drop_last(), sv) + if lands(pieces.last(), sv) {
            1int
        } else {
            0int
        }
    }
}

/// A gravity step locks between none and all of the active pieces.
pub proof fn lemma_fall_counts(pieces: Seq<ActivePiece>, sv: Seq<(int, int, PieceType)>)
    ensures
        0 <= fall_locked_count(pieces, sv) <= pieces.len(),
        fall_survivors(pieces, sv).len() == pieces.len() - fall_locked_count(pieces, sv),
    decreases pieces.len(),
{
    if pieces.len() > 0 {
        lemma_fall_counts(pieces.drop_last(), sv);
    }
}

/// Gravity/lock engine: ticks a fall timer down by elapsed milliseconds and, at
/// expiry, advances every active piece one row or locks it into the settled stack.
pub struct DroppingSystem {
    /// Milliseconds left until the next gravity step.
    pub fall_timer_ms: u32,
    /// The configured fall interval the timer is reset to.
    pub fall_interval_ms: u32,
    /// How many fall-timer reset signals this engine has consumed.
    pub reset_cursor: u64,
}

impl DroppingSystem {
    /// A gravity engine with the default fall interval.
    pub fn new() -> (s: Self)
        ensures
            s.fall_timer_ms == FALL_TIMER_MS,
            s.fall_interval_ms == FALL_TIMER_MS,
            s.reset_cursor == 0,
    {
        Self { fall_timer_ms: FALL_TIMER_MS, fall_interval_ms: FALL_TIMER_MS, reset_cursor: 0 }
    }

    /// A gravity engine with a configured fall interval, in milliseconds.
    pub fn with_interval(interval_ms: u32) -> (s: Self)
        ensures
            s.fall_timer_ms == interval_ms,
            s.fall_interval_ms == interval_ms,
            s.reset_cursor == 0,
    {
        Self { fall_timer_ms: interval_ms, fall_interval_ms: interval_ms, reset_cursor: 0 }
    }

    /// One tick of the gravity engine. Pending reset signals are drained first: any
    /// number of them resets the fall timer once (idempotent, not additive). The
    /// timer then decays by `delta_ms`; at expiry it is reseeded and every active
    /// piece is tested one row down against the same snapshot of the settled stack:
    /// a colliding piece locks (its four cells settle, it leaves play, one landing
    /// signal is raised), any other piece falls one row. Returns how many pieces
    /// locked, so the caller can fire one lock sound per landing.
    pub fn run(&mut self, world: &mut GameWorld, delta_ms: u32) -> (locked: usize)
        requires
            old(self).reset_cursor <= old(world).reset_signals,
            old(world).wf(),
            old(world).land_signals + old(world).active@.len() <= u64::MAX,
        ensures
            final(self).reset_cursor == old(world).reset_signals,
            final(self).fall_interval_ms == old(self).fall_interval_ms,
            final(world).reset_signals == old(world).reset_signals,
            final(world).wf(),
            ({
                let t0 = if old(world).reset_signals > old(self).reset_cursor {
                    old(self).fall_interval_ms
                } else {
                    old(self).fall_timer_ms
                };
                let pieces = old(world).active@;
                let sv = old(world).settled.contents();
                if t0 <= delta_ms {
                    &&& final(self).fall_timer_ms == old(self).fall_interval_ms
                    &&& final(world).active@ == fall_survivors(pieces, sv)
                    &&& final(world).settled.contents() == sv + fall_locked(pieces, sv)
                    &&& final(world).land_signals == old(world).land_signals + fall_locked_count(
                        pieces,
                        sv,
                    )
                    &&& locked == fall_locked_count(pieces, sv)
                } else {
                    &&& final(self).fall_timer_ms == t0 - delta_ms
                    &&& final(world).active@ == pieces
                    &&& final(world).settled.contents() == sv
                    &&& final(world).land_signals == old(world).land_signals
                    &&& locked == 0
                }
            }),
    {
        if world.reset_signals > self.reset_cursor {
            self.fall_timer_ms = self.fall_interval_ms;
        }
        self.reset_cursor = world.reset_signals;
        if self.fall_timer_ms > delta_ms {
            self.fall_timer_ms = self.fall_timer_ms - delta_ms;
            return 0;
        }
        self.fall_timer_ms = self.fall_interval_ms;
        fall_step(world)
    }
}

/// One gravity step over every active piece, against a single snapshot of the
/// settled stack taken on entry: landing pieces lock, the others fall one row.
pub fn fall_step(world: &mut GameWorld) -> (locked: usize)
    requires
        old(world).wf(),
        old(world).land_signals + old(world).active@.len() <= u64::MAX,
    ensures
        final(world).wf(),
        final(world).active@ == fall_survivors(old(world).active@, old(world).settled.contents()),
        final(world).settled.contents() == old(world).settled.contents() + fall_locked(
            old(world).active@,
            old(world).settled.contents(),
        ),
        final(world).land_signals == old(world).land_signals + fall_locked_count(
            old(world).active@,
            old(world).settled.contents(),
        ),
        final(world).reset_signals == old(world).reset_signals,
        locked == fall_locked_count(old(world).active@, old(world).settled.contents()),
{
    let ghost pieces0 = world.active@;
    let ghost sv0 = world.settled.contents();
    let mut survivors: Vec<ActivePiece> = Vec::new();
    let mut locked_cells: Vec<SettledCell> = Vec::new();
    let mut locked_count: usize = 0;
    let mut i: usize = 0;
    while i < world.active.len()
        invariant
            i <= world.active.len(),
            world.active@ == pieces0,
            world.settled.contents() == sv0,
            world.land_signals == old(world).land_signals,
            world.reset_signals == old(world).reset_signals,
            world.wf(),
            survivors@ == fall_survivors(pieces0.subrange(0, i as int), sv0),
            stack_view(locked_cells@) == fall_locked(pieces0.subrange(0, i as int), sv0),
            locked_count == fall_locked_count(pieces0.subrange(0, i as int), sv0),
            locked_count <= i,
            forall|k: int| 0 <= k < survivors@.len() ==> active_ok(#[trigger] survivors@[k]),
            stack_ok(stack_view(locked_cells@)),
        decreases world.active.len() - i,
    {
        let a = world.active[i];
        proof {
            assert(active_ok(a));
            lemma_active_anchor_bounds(a);
        }
        let down = Position { row: a.pos.row - 1, col: a.pos.col };
        let ghost prefix = pieces0.subrange(0, i as int);
        let ghost prefix1 = pieces0.subrange(0, i as int + 1);
        proof {
            assert(prefix1.drop_last() =~= prefix);
            assert(prefix1.last() == a);
        }
        if collides(&a.piece, &down, &world.settled) {
            assert(lands(a, sv0));
            append_piece_cells(&mut locked_cells, &a);
            locked_count = locked_count + 1;
            proof {
                assert(stack_view(locked_cells@) =~= fall_locked(prefix1, sv0));
            }
        } else {
            let moved = ActivePiece { piece: a.piece, pos: down };
            proof {
                assert(!lands(a, sv0));
                assert(active_ok(moved)) by {
                    let t = a.piece.piece_type;
                    let rot = a.piece.rotation;
                    assert forall|k: int|
                        0 <= k < piece_cells(t, rot, down).len() implies 0 <= (
                    #[trigger] piece_cells(t, rot, down)[k]).0 && 0 <= piece_cells(t, rot, down)[k].1
                        < crate::constants::BOARD_WIDTH by {
                        assert(!crate::collision::cell_out_of_bounds(piece_cells(t, rot, down)[k]));
                    }
                }
            }
            survivors.push(moved);
            proof {
                assert(survivors@ =~= fall_survivors(prefix1, sv0));
            }
        }
        i = i + 1;
    }
    proof {
        assert(pieces0.subrange(0, pieces0.len() as int) =~= pieces0);
    }
    world.active = survivors;
    let mut j: usize = 0;
    let ghost all_locked = stack_view(locked_cells@);
    while j < locked_cells.len()
        invariant
            j <= locked_cells.len(),
            all_locked == stack_view(locked_cells@),
            all_locked == fall_locked(pieces0, sv0),
            stack_ok(all_locked),
            stack_ok(sv0),
            world.settled.contents() == sv0 + all_locked.subrange(0, j as int),
            world.active@ == fall_survivors(pieces0, sv0),
            world.land_signals == old(world).land_signals,
            world.reset_signals == old(world).reset_signals,
            forall|k: int| 0 <= k < world.active@.len() ==> active_ok(#[trigger] world.active@[k]),
        decreases locked_cells.len() - j,
    {
        let c = locked_cells[j];
        world.settled.add_cell(c);
        proof {
            let jj = j as int;
            assert(cell_view(c) == all_locked[jj]);
            assert(world.settled.contents() =~= sv0 + all_locked.subrange(0, jj + 1));
        }
        j = j + 1;
    }
    proof {
        assert(all_locked.subrange(0, all_locked.len() as int) =~= all_locked);
        assert(world.settled.wf()) by {
            assert forall|k: int| 0 <= k < world.settled.contents().len() implies cell_ok(
                #[trigger] world.settled.contents()[k],
            ) by {
                if k < sv0.len() {
                    assert(world.settled.contents()[k] == sv0[k]);
                } else {
                    assert(world.settled.contents()[k] == all_locked[k - sv0.len()]);
                }
            }
        }
    }
    world.land_signals = world.land_signals + locked_count as u64;
    locked_count
}

/// Append the four cells of a landing piece, tagged with its type, to the cells
/// collected for settling.
fn append_piece_cells(locked_cells: &mut Vec<SettledCell>, a: &ActivePiece)
    requires
        active_ok(*a),
    ensures
        stack_view(final(locked_cells)@) == stack_view(old(locked_cells)@) + piece_cells_tagged(*a),
        stack_ok(stack_view(old(locked_cells)@)) ==> stack_ok(stack_view(final(locked_cells)@)),
{
    proof {
        lemma_active_anchor_bounds(*a);
        crate::piece::lemma_piece_cells_in_box(
            a.piece.piece_type,
            a.piece.rotation,
            a.pos.row as int,
            a.pos.col as int,
        );
    }
    let ghost base = stack_view(locked_cells@);
    let ghost tagged = piece_cells_tagged(*a);
    let cells = a.piece.get_filled_positions(&a.pos);
    let mut j: usize = 0;
    proof {
        assert(stack_view(locked_cells@) =~= base + tagged.subrange(0, 0));
    }
    while j < cells.len()
        invariant
            j <= cells.len(),
            positions_view(cells@) == piece_cells(a.piece.piece_type, a.piece.rotation, a.pos),
            tagged == piece_cells_tagged(*a),
            active_ok(*a),
            -3 <= a.pos.row <= crate::constants::BOARD_HEIGHT - 4,
            stack_view(locked_cells@) == base + tagged.subrange(0, j as int),
            forall|k: int|
                0 <= k < tagged.len() ==> (#[trigger] tagged[k]).0 <= a.pos.row + 3,
        decreases cells.len() - j,
    {
        let c = cells[j];
        let d = DroppedPiece::new(a.piece.piece_type);
        let sc = SettledCell { piece: d, pos: c };
        let ghost pre = locked_cells@;
        locked_cells.push(sc);
        proof {
            let jj = j as int;
            assert(tagged[jj] == (c.row as int, c.col as int, a.piece.piece_type));
            assert(cell_view(sc) == tagged[jj]);
            assert(locked_cells@ == pre.push(sc));
            assert(stack_view(locked_cells@) =~~= stack_view(pre).push(cell_view(sc)));
            assert(stack_view(pre) == base + tagged.subrange(0, jj));
            assert(stack_view(pre).push(tagged[jj]) =~~= base + tagged.subrange(0, jj + 1));
        }
        j = j + 1;
    }
    proof {
        assert(tagged.subrange(0, tagged.len() as int) =~= tagged);
        if stack_ok(base) {
            assert forall|k: int| 0 <= k < stack_view(locked_cells@).len() implies cell_ok(
                #[trigger] stack_view(locked_cells@)[k],
            ) by {
                if k < base.len() {
                    assert(stack_view(locked_cells@)[k] == base[k]);
                } else {
                    assert(stack_view(locked_cells@)[k] == tagged[k - base.len()]);
                    assert(0 <= tagged[k - base.len()].0 <= a.pos.row + 3);
                }
            }
        }
    }
}

/// Locking a lone landing piece removes it from play, settles exactly its four
/// pre-lock cells, and raises exactly one landing signal.
pub proof fn lemma_lock_single_piece(a: ActivePiece, sv: Seq<(int, int, PieceType)>)
    requires
        lands(a, sv),
    ensures
        fall_survivors(seq![a], sv).len() == 0,
        fall_locked(seq![a], sv) == piece_cells_tagged(a),
        fall_locked(seq![a], sv).len() == 4,
        fall_locked_count(seq![a], sv) == 1,
{
    reveal_with_fuel(fall_survivors, 3);
    reveal_with_fuel(fall_locked, 3);
    reveal_with_fuel(fall_locked_count, 3);
    assert(seq![a].drop_last() =~= Seq::<ActivePiece>::empty());
    assert(seq![a].last() == a);
    assert(fall_locked(seq![a], sv) =~= piece_cells_tagged(a));
    crate::piece::lemma_piece_cells_four_distinct(
        a.piece.piece_type,
        a.piece.rotation,
        a.pos.row as int,
        a.pos.col as int,
    );
}

} // verus!
