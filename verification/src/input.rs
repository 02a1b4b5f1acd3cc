use vstd::prelude::*;

verus! {

use crate::collision::{collides, collides_at, lemma_not_colliding_in_bounds};
use crate::constants::{MOVE_REPEAT_MS, SOFT_DROP_REPEAT_MS};
use crate::piece::{
    lemma_piece_cells_four_distinct, lemma_piece_cells_in_box, piece_cells_at, spec_rot_ccw,
    spec_rot_cw, Piece, PieceType, Position,
};
use crate::stack::SettledStack;
use crate::world::{active_ok, lemma_active_anchor_bounds, ActivePiece, GameWorld};

/// The raw input state for one tick, as read from the input device: whether each
/// named action is held, and the horizontal axis reduced to its sign. An unbound
/// action reads as not held and an unbound axis as 0.
#[derive(Clone, Copy, Debug, PartialEq, Eq, Structural)]
pub struct RawInput {
    pub drop_hard: bool,
    pub rotate_cw: bool,
    pub rotate_ccw: bool,
    pub drop_soft: bool,
    pub move_x: i8,
}

impl RawInput {
    /// The input state with nothing held.
    pub fn released() -> (r: Self)
        ensures
            r == (RawInput {
                drop_hard: false,
                rotate_cw: false,
                rotate_ccw: false,
                drop_soft: false,
                move_x: 0i8,
            }),
    {
        RawInput { drop_hard: false, rotate_cw: false, rotate_ccw: false, drop_soft: false, move_x: 0 }
    }
}

/// What a debounced action does in one tick: it fires only when the input is held
/// now and was not held on the previous tick.
pub open spec fn spec_debounce_fire(held: bool, pressed: bool) -> bool {
    pressed && !held
}

/// A rate limiter's timer after one tick: at zero the raw value passes and, if
/// active, the timer reseeds to its interval; otherwise an inactive input zeroes
/// the timer at once, and an active one decays it by the elapsed time.
pub open spec fn spec_timer_step(timer: u32, interval: u32, delta: u32, active: bool) -> u32 {
    if timer == 0 {
        if active {
            interval
        } else {
            0u32
        }
    } else if !active {
        0u32
    } else if timer <= delta {
        0u32
    } else {
        (timer - delta) as u32
    }
}

/// Whether a rate limiter lets the raw value through this tick.
pub open spec fn spec_timer_pass(timer: u32) -> bool {
    timer == 0
}

/// Row `rr` is the hard-drop destination from anchor row `row0`: every anchor row
/// passed on the way down from `row0` to `rr` is collision-free and one more
/// descent from `rr` would collide.
pub open spec fn is_drop_row(
    t: PieceType,
    rot: u8,
    row0: int,
    col: int,
    sv: Seq<(int, int, PieceType)>,
    rr: int,
) -> bool {
    &&& rr <= row0
    &&& collides_at(t, rot, rr - 1, col, sv)
    &&& forall|q: int| rr <= q < row0 ==> !(#[trigger] collides_at(t, rot, q, col, sv))
}

/// The hard-drop destination row from anchor row `row0`.
pub open spec fn drop_row(
    t: PieceType,
    rot: u8,
    row0: int,
    col: int,
    sv: Seq<(int, int, PieceType)>,
) -> int {
    choose|rr: int| is_drop_row(t, rot, row0, col, sv, rr)
}

/// At most one row is the hard-drop destination.
pub proof fn lemma_drop_row_unique(
    t: PieceType,
    rot: u8,
    row0: int,
    col: int,
    sv: Seq<(int, int, PieceType)>,
    ra: int,
    rb: int,
)
    requires
        is_drop_row(t, rot, row0, col, sv, ra),
        is_drop_row(t, rot, row0, col, sv, rb),
    ensures
        ra == rb,
{
    if ra < rb {
        assert(!collides_at(t, rot, rb - 1, col, sv));
    }
    if rb < ra {
        assert(!collides_at(t, rot, ra - 1, col, sv));
    }
}

/// Hard drop: shift the piece's anchor down one row at a time until the next row
/// would collide, and leave it on the last free row. The commit is direct; the
/// next gravity step detects the landing and locks the piece.
pub fn hard_drop(piece: &Piece, position: &mut Position, stack: &SettledStack)
    requires
        old(position).row <= i32::MAX - 3,
        old(position).col <= i32::MAX - 3,
        old(position).row > i32::MIN,
    ensures
        final(position).col == old(position).col,
        final(position).row <= old(position).row,
        final(position).row >= -3 || final(position).row == old(position).row,
        is_drop_row(
            piece.piece_type,
            piece.rotation,
            old(position).row as int,
            old(position).col as int,
            stack.contents(),
            final(position).row as int,
        ),
        final(position).row as int == drop_row(
            piece.piece_type,
            piece.rotation,
            old(position).row as int,
            old(position).col as int,
            stack.contents(),
        ),
{
    let ghost t = piece.piece_type;
    let ghost rot = piece.rotation;
    let ghost row0 = old(position).row as int;
    let ghost col = old(position).col as int;
    let ghost sv = stack.contents();
    loop
        invariant
            position.col == old(position).col,
            position.row <= old(position).row,
            position.row >= -3 || position.row == old(position).row,
            old(position).row <= i32::MAX - 3,
            old(position).col <= i32::MAX - 3,
            old(position).row > i32::MIN,
            t == piece.piece_type,
            rot == piece.rotation,
            row0 == old(position).row as int,
            col == old(position).col as int,
            sv == stack.contents(),
            forall|q: int|
                position.row <= q < row0 ==> !(#[trigger] collides_at(t, rot, q, col, sv)),
        ensures
            collides_at(t, rot, position.row - 1, col, sv),
            position.col == old(position).col,
            position.row <= old(position).row,
            position.row >= -3 || position.row == old(position).row,
            forall|q: int|
                position.row <= q < row0 ==> !(#[trigger] collides_at(t, rot, q, col, sv)),
        decreases position.row + 3,
    {
        let down = Position { row: position.row - 1, col: position.col };
        if collides(piece, &down, stack) {
            break;
        }
        proof {
            lemma_piece_cells_four_distinct(t, rot, down.row as int, down.col as int);
            lemma_piece_cells_in_box(t, rot, down.row as int, down.col as int);
            assert(!crate::collision::cell_out_of_bounds(
                piece_cells_at(t, rot, down.row as int, down.col as int)[0],
            ));
        }
        position.row = down.row;
    }
    proof {
        assert(is_drop_row(t, rot, row0, col, sv, position.row as int));
        let picked = drop_row(t, rot, row0, col, sv);
        assert(is_drop_row(t, rot, row0, col, sv, picked));
        lemma_drop_row_unique(t, rot, row0, col, sv, position.row as int, picked);
    }
}

/// Input resolver state: one "currently held" marker per no-repeat action and one
/// countdown timer per rate-limited action.
#[derive(Clone, Copy, Debug, PartialEq, Eq, Structural)]
pub struct PieceInputSystem {
    pub held_drop_hard: bool,
    pub held_rotate_cw: bool,
    pub held_rotate_ccw: bool,
    pub move_timer_ms: u32,
    pub soft_drop_timer_ms: u32,
}

impl PieceInputSystem {
    /// A fresh resolver: nothing held, each repeat timer seeded to its interval.
    pub fn new() -> (s: Self)
        ensures
            s == (PieceInputSystem {
                held_drop_hard: false,
                held_rotate_cw: false,
                held_rotate_ccw: false,
                move_timer_ms: MOVE_REPEAT_MS,
                soft_drop_timer_ms: SOFT_DROP_REPEAT_MS,
            }),
    {
        Self {
            held_drop_hard: false,
            held_rotate_cw: false,
            held_rotate_ccw: false,
            move_timer_ms: MOVE_REPEAT_MS,
            soft_drop_timer_ms: SOFT_DROP_REPEAT_MS,
        }
    }

    /// Edge detector for a no-repeat action: fires only on the tick where the raw
    /// input goes from released to held, and re-arms only after a release.
    pub fn action_no_spam(held: &mut bool, pressed: bool) -> (fire: bool)
        ensures
            fire == spec_debounce_fire(*old(held), pressed),
            *final(held) == pressed,
    {
        let was = *held;
        *held = pressed;
        pressed && !was
    }

    /// Rate limiter for a continuous action: while the timer runs the raw value is
    /// suppressed; at zero it passes through once and, if active, reseeds the
    /// timer, giving an initial pass plus periodic repeats.
    pub fn action_with_timer(timer: &mut u32, interval_ms: u32, delta_ms: u32, active: bool) -> (pass:
        bool)
        ensures
            pass == spec_timer_pass(*old(timer)),
            *final(timer) == spec_timer_step(*old(timer), interval_ms, delta_ms, active),
    {
        if *timer == 0 {
            if active {
                *timer = interval_ms;
            }
            true
        } else if !active {
            *timer = 0;
            false
        } else {
            if *timer <= delta_ms {
                *timer = 0;
            } else {
                *timer = *timer - delta_ms;
            }
            false
        }
    }
}

/// What the resolver does to one active piece in one tick, against the settled
/// snapshot `sv`: debounce the hard drop and apply it first; gate the horizontal
/// axis and the soft drop through their repeat timers; debounce the rotations,
/// clockwise taking priority; then build one candidate (rotation plus shift),
/// commit it only if it passes the collision check, and report whether a committed
/// row change asks for a fall-timer reset. Returns the resolver state, the piece,
/// and that reset flag.
pub open spec fn spec_resolve_piece(
    sys: PieceInputSystem,
    a: ActivePiece,
    sv: Seq<(int, int, PieceType)>,
    input: RawInput,
    delta: u32,
) -> (PieceInputSystem, ActivePiece, bool) {
    let fire_hard = spec_debounce_fire(sys.held_drop_hard, input.drop_hard);
    let pos0 = if fire_hard {
        Position {
            row: drop_row(a.piece.piece_type, a.piece.rotation, a.pos.row as int, a.pos.col as int, sv) as i32,
            col: a.pos.col,
        }
    } else {
        a.pos
    };
    let movement: int = if spec_timer_pass(sys.move_timer_ms) {
        input.move_x as int
    } else {
        0
    };
    let soft = spec_timer_pass(sys.soft_drop_timer_ms) && input.drop_soft;
    let fire_cw = spec_debounce_fire(sys.held_rotate_cw, input.rotate_cw);
    let fire_ccw = spec_debounce_fire(sys.held_rotate_ccw, input.rotate_ccw);
    let sys1 = PieceInputSystem {
        held_drop_hard: input.drop_hard,
        held_rotate_cw: input.rotate_cw,
        held_rotate_ccw: input.rotate_ccw,
        move_timer_ms: spec_timer_step(sys.move_timer_ms, MOVE_REPEAT_MS, delta, input.move_x != 0),
        soft_drop_timer_ms: spec_timer_step(
            sys.soft_drop_timer_ms,
            SOFT_DROP_REPEAT_MS,
            delta,
            input.drop_soft,
        ),
    };
    let cand_rot = if fire_cw {
        spec_rot_cw(a.piece.rotation)
    } else if fire_ccw {
        spec_rot_ccw(a.piece.rotation)
    } else {
        a.piece.rotation
    };
    let cand_pos = Position {
        row: (pos0.row - if soft {
            1int
        } else {
            0int
        }) as i32,
        col: (pos0.col - movement) as i32,
    };
    if !(fire_cw || fire_ccw || movement != 0 || soft) {
        (sys1, ActivePiece { piece: a.piece, pos: pos0 }, false)
    } else if collides_at(
        a.piece.piece_type,
        cand_rot,
        cand_pos.row as int,
        cand_pos.col as int,
        sv,
    ) {
        (sys1, ActivePiece { piece: a.piece, pos: pos0 }, false)
    } else {
        (
            sys1,
            ActivePiece { piece: Piece { piece_type: a.piece.piece_type, rotation: cand_rot }, pos: cand_pos },
            pos0.row != cand_pos.row,
        )
    }
}

/// The resolver applied to every active piece in order, threading its state from
/// one piece to the next: the new state, the new pieces, and how many fall-timer
/// resets were asked for.
pub open spec fn spec_resolve_all(
    sys: PieceInputSystem,
    pieces: Seq<ActivePiece>,
    sv: Seq<(int, int, PieceType)>,
    input: RawInput,
    delta: u32,
) -> (PieceInputSystem, Seq<ActivePiece>, int)
    decreases pieces.len(),
{
    if pieces.len() == 0 {
        (sys, Seq::empty(), 0int)
    } else {
        let front = spec_resolve_all(sys, pieces.drop_last(), sv, input, delta);
        let last = spec_resolve_piece(front.0, pieces.last(), sv, input, delta);
        (
            last.0,
            front.1.push(last.1),
            front.2 + if last.2 {
                1int
            } else {
                0int
            },
        )
    }
}

/// The resolver moves and turns pieces but neither adds nor removes one.
pub proof fn lemma_resolve_all_len(
    sys: PieceInputSystem,
    pieces: Seq<ActivePiece>,
    sv: Seq<(int, int, PieceType)>,
    input: RawInput,
    delta: u32,
)
    ensures
        spec_resolve_all(sys, pieces, sv, input, delta).1.len() == pieces.len(),
        0 <= spec_resolve_all(sys, pieces, sv, input, delta).2 <= pieces.len(),
    decreases pieces.len(),
{
    if pieces.len() > 0 {
        lemma_resolve_all_len(
            sys,
            pieces.drop_last(),
            sv,
            input,
            delta,
        );
    }
}

impl PieceInputSystem {
    /// Resolve one tick of input for every active piece, against the settled-stack
    /// snapshot taken on entry: hard drop (debounced), horizontal move and soft
    /// drop (rate-limited), rotation (debounced, clockwise first). Each piece's
    /// candidate commits only if the collision check passes, and a committed row
    /// change raises one fall-timer reset signal.
    #[verifier::rlimit(60)]
    pub fn run(&mut self, world: &mut GameWorld, input: &RawInput, delta_ms: u32)
        requires
            old(world).wf(),
            old(world).reset_signals + old(world).active@.len() <= u64::MAX,
        ensures
            ({
                let r = spec_resolve_all(
                    *old(self),
                    old(world).active@,
                    old(world).settled.contents(),
                    *input,
                    delta_ms,
                );
                &&& *final(self) == r.0
                &&& final(world).active@ == r.1
                &&& final(world).reset_signals == old(world).reset_signals + r.2
            }),
            final(world).settled == old(world).settled,
            final(world).land_signals == old(world).land_signals,
            final(world).wf(),
    {
        let ghost sys0 = *self;
        let ghost pieces0 = world.active@;
        let ghost sv0 = world.settled.contents();
        let mut out: Vec<ActivePiece> = Vec::new();
        let mut resets: u64 = 0;
        let mut i: usize = 0;
        proof {
            assert(pieces0.subrange(0, 0) =~= Seq::<ActivePiece>::empty());
        }
        while i < world.active.len()
            invariant
                i <= world.active.len(),
                world.active@ == pieces0,
                world.settled == old(world).settled,
                sv0 == world.settled.contents(),
                world.land_signals == old(world).land_signals,
                world.wf(),
                old(world).reset_signals + pieces0.len() <= u64::MAX,
                resets <= i,
                world.reset_signals == old(world).reset_signals + resets,
                ({
                    let r = spec_resolve_all(sys0, pieces0.subrange(0, i as int), sv0, *input, delta_ms);
                    &&& *self == r.0
                    &&& out@ == r.1
                    &&& resets == r.2
                }),
                forall|k: int| 0 <= k < out@.len() ==> active_ok(#[trigger] out@[k]),
            decreases world.active.len() - i,
        {
            let a = world.active[i];
            proof {
                assert(active_ok(a));
                lemma_active_anchor_bounds(a);
            }
            let fire_hard = Self::action_no_spam(&mut self.held_drop_hard, input.drop_hard);
            let mut pos0 = a.pos;
            if fire_hard {
                hard_drop(&a.piece, &mut pos0, &world.settled);
            }
            let move_pass = Self::action_with_timer(
                &mut self.move_timer_ms,
                MOVE_REPEAT_MS,
                delta_ms,
                input.move_x != 0,
            );
            let movement: i32 = if move_pass {
                input.move_x as i32
            } else {
                0
            };
            let soft_pass = Self::action_with_timer(
                &mut self.soft_drop_timer_ms,
                SOFT_DROP_REPEAT_MS,
                delta_ms,
                input.drop_soft,
            );
            let soft = soft_pass && input.drop_soft;
            let fire_cw = Self::action_no_spam(&mut self.held_rotate_cw, input.rotate_cw);
            let fire_ccw = Self::action_no_spam(&mut self.held_rotate_ccw, input.rotate_ccw);
            let mut cand = Piece { piece_type: a.piece.piece_type, rotation: a.piece.rotation };
            if fire_cw {
                cand.rotate_cw();
            } else if fire_ccw {
                cand.rotate_ccw();
            }
            let cand_pos = Position {
                row: pos0.row - if soft {
                    1
                } else {
                    0
                },
                col: pos0.col - movement,
            };
            let ghost step = spec_resolve_piece(
                spec_resolve_all(sys0, pieces0.subrange(0, i as int), sv0, *input, delta_ms).0,
                a,
                sv0,
                *input,
                delta_ms,
            );
            proof {
                assert(*self == step.0);
                if pos0.row < a.pos.row {
                    assert(!collides_at(
                        a.piece.piece_type,
                        a.piece.rotation,
                        pos0.row as int,
                        pos0.col as int,
                        sv0,
                    ));
                }
                assert(active_ok(ActivePiece { piece: a.piece, pos: pos0 })) by {
                    if pos0.row < a.pos.row {
                        lemma_not_colliding_in_bounds(
                            a.piece.piece_type,
                            a.piece.rotation,
                            pos0.row as int,
                            pos0.col as int,
                            sv0,
                        );
                    }
                }
            }
            if !(fire_cw || fire_ccw || movement != 0 || soft) {
                out.push(ActivePiece { piece: a.piece, pos: pos0 });
                proof {
                    assert(step.1 == ActivePiece { piece: a.piece, pos: pos0 });
                    assert(!step.2);
                }
            } else if collides(&cand, &cand_pos, &world.settled) {
                out.push(ActivePiece { piece: a.piece, pos: pos0 });
                proof {
                    assert(step.1 == ActivePiece { piece: a.piece, pos: pos0 });
                    assert(!step.2);
                }
            } else {
                if pos0.row != cand_pos.row {
                    world.reset_signals = world.reset_signals + 1;
                    resets = resets + 1;
                }
                out.push(ActivePiece { piece: cand, pos: cand_pos });
                proof {
                    assert(step.1 == ActivePiece { piece: cand, pos: cand_pos });
                    assert(step.2 == (pos0.row != cand_pos.row));
                    assert(active_ok(ActivePiece { piece: cand, pos: cand_pos })) by {
                        lemma_not_colliding_in_bounds(
                            cand.piece_type,
                            cand.rotation,
                            cand_pos.row as int,
                            cand_pos.col as int,
                            sv0,
                        );
                    }
                }
            }
            proof {
                let prefix1 = pieces0.subrange(0, i as int + 1);
                assert(prefix1.drop_last() =~= pieces0.subrange(0, i as int));
                assert(prefix1.last() == a);
            }
            i = i + 1;
        }
        proof {
            assert(pieces0.subrange(0, pieces0.len() as int) =~= pieces0);
        }
        world.active = out;
    }
}

/// The no-spam check admits one rotation per press: holding the clockwise-rotation
/// input over five consecutive ticks turns the piece once, on the tick where the
/// input goes from released to held, and leaves it untouched on the four ticks
/// that follow, however long each tick is.
pub proof fn lemma_no_spam_single_rotation(
    sys: PieceInputSystem,
    a: ActivePiece,
    sv: Seq<(int, int, PieceType)>,
    d1: u32,
    d2: u32,
    d3: u32,
    d4: u32,
    d5: u32,
)
    requires
        !sys.held_rotate_cw,
        a.piece.rotation < 4,
        !collides_at(
            a.piece.piece_type,
            spec_rot_cw(a.piece.rotation),
            a.pos.row as int,
            a.pos.col as int,
            sv,
        ),
    ensures
        ({
            let held = RawInput {
                drop_hard: false,
                rotate_cw: true,
                rotate_ccw: false,
                drop_soft: false,
                move_x: 0i8,
            };
            let s1 = spec_resolve_piece(sys, a, sv, held, d1);
            let s2 = spec_resolve_piece(s1.0, s1.1, sv, held, d2);
            let s3 = spec_resolve_piece(s2.0, s2.1, sv, held, d3);
            let s4 = spec_resolve_piece(s3.0, s3.1, sv, held, d4);
            let s5 = spec_resolve_piece(s4.0, s4.1, sv, held, d5);
            &&& s1.1.piece.rotation == spec_rot_cw(a.piece.rotation)
            &&& s1.1.pos == a.pos
            &&& s2.1 == s1.1
            &&& s3.1 == s1.1
            &&& s4.1 == s1.1
            &&& s5.1 == s1.1
        }),
{
    let held = RawInput {
        drop_hard: false,
        rotate_cw: true,
        rotate_ccw: false,
        drop_soft: false,
        move_x: 0i8,
    };
    let s1 = spec_resolve_piece(sys, a, sv, held, d1);
    assert(s1.1.pos == a.pos);
}

} // verus!
