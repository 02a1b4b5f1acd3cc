use vstd::prelude::*;

verus! {

use crate::clear::{clear_passes, cleared_in_passes, LineClearSystem};
use crate::constants::BOARD_HEIGHT;
use crate::gravity::{
    fall_locked, fall_locked_count, fall_survivors, lemma_fall_counts, DroppingSystem,
};
use crate::input::{lemma_resolve_all_len, spec_resolve_all, PieceInputSystem, RawInput};
use crate::piece::PieceType;
use crate::spawn::PieceSpawnSystem;
use crate::world::{spawn_anchor, GameWorld};

/// One running game: the shared world and the four per-tick systems, with the
/// writer sequencing fixed — input resolver commit, then the gravity lock, line
/// clear and spawn sequence. Each signal consumer holds its own cursor, so the
/// order of the two landing-signal consumers does not matter.
pub struct Game {
    pub world: GameWorld,
    pub resolver: PieceInputSystem,
    pub gravity: DroppingSystem,
    pub clearer: LineClearSystem,
    pub spawner: PieceSpawnSystem,
}

impl Game {
    /// Consistent: the world is well-formed and no consumer's cursor is ahead of
    /// the signal log it reads.
    pub open spec fn wf(&self) -> bool {
        &&& self.world.wf()
        &&& self.gravity.reset_cursor <= self.world.reset_signals
        &&& self.clearer.land_cursor <= self.world.land_signals
        &&& self.spawner.land_cursor <= self.world.land_signals
    }

    /// A new game: an empty board and the starting piece, a vertical I piece on
    /// the spawn anchor.
    pub fn new() -> (g: Self)
        ensures
            g.wf(),
            g.world.active@.len() == 1,
            g.world.active@[0].piece.piece_type == PieceType::I,
            g.world.active@[0].piece.rotation == 3,
            g.world.active@[0].pos == spawn_anchor(),
            g.world.settled.contents() == Seq::<(int, int, PieceType)>::empty(),
            g.world.land_signals == 0,
            g.world.reset_signals == 0,
            g.resolver == (PieceInputSystem {
                held_drop_hard: false,
                held_rotate_cw: false,
                held_rotate_ccw: false,
                move_timer_ms: crate::constants::MOVE_REPEAT_MS,
                soft_drop_timer_ms: crate::constants::SOFT_DROP_REPEAT_MS,
            }),
            g.gravity.reset_cursor == 0,
            g.clearer.land_cursor == 0,
            g.spawner.land_cursor == 0,
    {
        let mut world = GameWorld::new();
        world.spawn_piece(PieceType::I, 3);
        Game {
            world,
            resolver: PieceInputSystem::new(),
            gravity: DroppingSystem::new(),
            clearer: LineClearSystem::new(),
            spawner: PieceSpawnSystem::new(),
        }
    }

    /// One tick: resolve the input against the pre-tick stack snapshot, tick
    /// gravity, run one line-clear pass per drained landing signal, and spawn one
    /// random replacement piece per drained landing signal. Returns how many
    /// pieces locked and how many rows cleared, for the audio collaborator.
    pub fn tick(&mut self, input: &RawInput, delta_ms: u32) -> (r: (usize, u64))
        requires
            old(self).wf(),
            old(self).world.reset_signals + old(self).world.active@.len() <= u64::MAX,
            old(self).world.land_signals + old(self).world.active@.len() <= u64::MAX,
            BOARD_HEIGHT * (old(self).world.land_signals + old(self).world.active@.len() - old(
                self,
            ).clearer.land_cursor) <= u64::MAX,
            old(self).world.active@.len() + (old(self).world.land_signals
                + old(self).world.active@.len() - old(self).spawner.land_cursor) <= usize::MAX,
        ensures
            final(self).wf(),
            ({
                let w0 = old(self).world;
                let sv0 = w0.settled.contents();
                let rin = spec_resolve_all(
                    old(self).resolver,
                    w0.active@,
                    sv0,
                    *input,
                    delta_ms,
                );
                let reset1 = w0.reset_signals + rin.2;
                let t0 = if reset1 > old(self).gravity.reset_cursor {
                    old(self).gravity.fall_interval_ms
                } else {
                    old(self).gravity.fall_timer_ms
                };
                let fires = t0 <= delta_ms;
                let active2 = if fires {
                    fall_survivors(rin.1, sv0)
                } else {
                    rin.1
                };
                let nlocked = if fires {
                    fall_locked_count(rin.1, sv0)
                } else {
                    0int
                };
                let sv2 = if fires {
                    sv0 + fall_locked(rin.1, sv0)
                } else {
                    sv0
                };
                let land2 = w0.land_signals + nlocked;
                let drained = land2 - old(self).clearer.land_cursor;
                &&& final(self).resolver == rin.0
                &&& final(self).gravity.reset_cursor == reset1
                &&& final(self).gravity.fall_interval_ms == old(self).gravity.fall_interval_ms
                &&& final(self).gravity.fall_timer_ms == if fires {
                    old(self).gravity.fall_interval_ms as int
                } else {
                    t0 - delta_ms
                }
                &&& final(self).world.reset_signals == reset1
                &&& final(self).world.land_signals == land2
                &&& final(self).world.settled.contents() == clear_passes(sv2, drained)
                &&& final(self).clearer.land_cursor == land2
                &&& final(self).spawner.land_cursor == land2
                &&& final(self).world.active@.len() == active2.len() + (land2
                    - old(self).spawner.land_cursor)
                &&& final(self).world.active@.subrange(0, active2.len() as int) == active2
                &&& forall|j: int|
                    active2.len() <= j < final(self).world.active@.len() ==> {
                        &&& (#[trigger] final(self).world.active@[j]).piece.rotation == 0
                        &&& final(self).world.active@[j].pos == spawn_anchor()
                    }
                &&& r.0 == nlocked
                &&& r.1 == cleared_in_passes(sv2, drained)
            }),
    {
        proof {
            lemma_resolve_all_len(
                old(self).resolver,
                old(self).world.active@,
                old(self).world.settled.contents(),
                *input,
                delta_ms,
            );
        }
        self.resolver.run(&mut self.world, input, delta_ms);
        proof {
            lemma_fall_counts(self.world.active@, self.world.settled.contents());
        }
        let locked = self.gravity.run(&mut self.world, delta_ms);
        let cleared = self.clearer.run(&mut self.world);
        self.spawner.run(&mut self.world);
        (locked, cleared)
    }
}

} // verus!
