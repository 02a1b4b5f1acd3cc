use vstd::prelude::*;

verus! {

use crate::piece::PieceType;
use crate::world::{active_ok, spawn_anchor, GameWorld};

/// The piece type drawn for an index below 7, in the fixed order used for random
/// draws.
pub open spec fn spec_piece_type_from_index(i: int) -> PieceType {
    if i == 0 {
        PieceType::O
    } else if i == 1 {
        PieceType::J
    } else if i == 2 {
        PieceType::L
    } else if i == 3 {
        PieceType::I
    } else if i == 4 {
        PieceType::S
    } else if i == 5 {
        PieceType::Z
    } else {
        PieceType::T
    }
}

/// The piece type for a drawn index below 7.
pub fn piece_type_from_index(i: u8) -> (t: PieceType)
    requires
        i < 7,
    ensures
        t == spec_piece_type_from_index(i as int),
{
    match i {
        0 => PieceType::O,
        1 => PieceType::J,
        2 => PieceType::L,
        3 => PieceType::I,
        4 => PieceType::S,
        5 => PieceType::Z,
        _ => PieceType::T,
    }
}

/// Relies on rand::random_range: returns a uniformly random value within the given
/// range, here `0..7`, which is nonempty, so the result is below 7.
#[verifier::external_body]
fn random_piece_index() -> (r: u8)
    ensures
        r < 7,
{
    rand::random_range(0..7u8)
}

/// Draw a uniformly random piece type, each of the 7 types equally likely, with no
/// bag constraint.
pub fn random_piece_type() -> (t: PieceType) {
    let i = random_piece_index();
    piece_type_from_index(i)
}

/// Spawner: consumes landing signals; each drained signal spawns one new piece of
/// random type at the fixed spawn anchor, with rotation index 0.
pub struct PieceSpawnSystem {
    /// How many landing signals this spawner has consumed.
    pub land_cursor: u64,
}

impl PieceSpawnSystem {
    /// A spawner that has consumed no signal yet.
    pub fn new() -> (s: Self)
        ensures
            s.land_cursor == 0,
    {
        Self { land_cursor: 0 }
    }

    /// Drain the pending landing signals and spawn one piece per drained signal: a
    /// uniformly random type, rotation index 0, at the spawn anchor. No overlap
    /// check is made against the stack; a blocked spawn is caught by the next
    /// gravity step.
    pub fn run(&mut self, world: &mut GameWorld)
        requires
            old(self).land_cursor <= old(world).land_signals,
            old(world).wf(),
            old(world).active@.len() + (old(world).land_signals - old(self).land_cursor)
                <= usize::MAX,
        ensures
            final(self).land_cursor == old(world).land_signals,
            final(world).active@.len() == old(world).active@.len() + (old(world).land_signals
                - old(self).land_cursor),
            final(world).active@.subrange(0, old(world).active@.len() as int) == old(
                world,
            ).active@,
            forall|j: int|
                old(world).active@.len() <= j < final(world).active@.len() ==> {
                    &&& (#[trigger] final(world).active@[j]).piece.rotation == 0
                    &&& final(world).active@[j].pos == spawn_anchor()
                    &&& active_ok(final(world).active@[j])
                },
            final(world).settled == old(world).settled,
            final(world).land_signals == old(world).land_signals,
            final(world).reset_signals == old(world).reset_signals,
            final(world).wf(),
    {
        let n = world.land_signals - self.land_cursor;
        self.land_cursor = world.land_signals;
        let mut k: u64 = 0;
        while k < n
            invariant
                k <= n,
                old(world).active@.len() + n <= usize::MAX,
                world.active@.len() == old(world).active@.len() + k,
                world.active@.subrange(0, old(world).active@.len() as int) == old(world).active@,
                forall|j: int|
                    old(world).active@.len() <= j < world.active@.len() ==> {
                        &&& (#[trigger] world.active@[j]).piece.rotation == 0
                        &&& world.active@[j].pos == spawn_anchor()
                        &&& active_ok(world.active@[j])
                    },
                world.settled == old(world).settled,
                world.land_signals == old(world).land_signals,
                world.reset_signals == old(world).reset_signals,
                world.wf(),
            decreases n - k,
        {
            let t = random_piece_type();
            world.spawn_piece(t, 0);
            proof {
                assert(world.active@.subrange(0, old(world).active@.len() as int) =~= old(
                    world,
                ).active@);
            }
            k = k + 1;
        }
    }
}

} // verus!
