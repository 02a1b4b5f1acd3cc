use rustris_core::constants::FALL_TIMER_MS;
use rustris_core::gravity::{fall_step, DroppingSystem};
use rustris_core::piece::{DroppedPiece, Piece, PieceType, Position};
use rustris_core::stack::SettledCell;
use rustris_core::world::{ActivePiece, GameWorld};

#[test]
fn piece_falls_one_row_per_expiry() {
    // An I piece spawned at rotation 3 on the spawn anchor, with no input: it
    // moves down exactly one row each time the fall timer crosses its boundary,
    // with no horizontal change.
    let mut world = GameWorld::new();
    world.spawn_piece(PieceType::I, 3);
    let mut gravity = DroppingSystem::new();

    gravity.run(&mut world, FALL_TIMER_MS);
    assert_eq!(world.active.len(), 1);
    assert_eq!(world.active[0].pos, Position { row: 15, col: 3 });

    gravity.run(&mut world, FALL_TIMER_MS);
    assert_eq!(world.active[0].pos, Position { row: 14, col: 3 });

    // Half an interval does not cross a boundary; the next half does.
    gravity.run(&mut world, FALL_TIMER_MS / 2);
    assert_eq!(world.active[0].pos, Position { row: 14, col: 3 });
    gravity.run(&mut world, FALL_TIMER_MS - FALL_TIMER_MS / 2);
    assert_eq!(world.active[0].pos, Position { row: 13, col: 3 });
}

#[test]
fn lock_settles_four_cells_and_raises_one_signal() {
    // An O piece resting on the floor: the next gravity step locks it, removing
    // it from play, settling exactly its four pre-lock cells, and raising exactly
    // one landing signal.
    let mut world = GameWorld::new();
    let piece = Piece::new(PieceType::O);
    let pos = Position { row: 0, col: 3 };
    let cells_before = piece.get_filled_positions(&pos);
    world.active.push(ActivePiece { piece, pos });

    let locked = fall_step(&mut world);

    assert_eq!(locked, 1);
    assert_eq!(world.active.len(), 0);
    assert_eq!(world.land_signals, 1);
    assert_eq!(world.settled.len(), 4);
    for c in &cells_before {
        assert!(world.settled.occupied_at(c.row, c.col));
    }
    for sc in &world.settled.cells {
        assert_eq!(sc.piece.piece_type, PieceType::O);
    }
}

#[test]
fn piece_locks_on_top_of_stack() {
    // A vertical I lands when the cell below one of its cells is settled.
    let mut world = GameWorld::new();
    world.settled.add_cell(SettledCell {
        piece: DroppedPiece::new(PieceType::T),
        pos: Position { row: 0, col: 5 },
    });
    let mut piece = Piece::new(PieceType::I);
    piece.rotation = 3;
    // Vertical I fills column anchor + 2 over rows anchor .. anchor + 3.
    world.active.push(ActivePiece { piece, pos: Position { row: 1, col: 3 } });

    let locked = fall_step(&mut world);

    assert_eq!(locked, 1);
    assert_eq!(world.settled.len(), 5);
    assert_eq!(world.land_signals, 1);
}

#[test]
fn timer_accumulates_across_short_ticks() {
    let mut world = GameWorld::new();
    world.spawn_piece(PieceType::T, 0);
    let mut gravity = DroppingSystem::with_interval(100);
    gravity.run(&mut world, 30);
    gravity.run(&mut world, 30);
    gravity.run(&mut world, 30);
    assert_eq!(world.active[0].pos.row, 16);
    gravity.run(&mut world, 30);
    assert_eq!(world.active[0].pos.row, 15);
}

#[test]
fn reset_signal_reseeds_fall_timer() {
    // After half an interval, a reset signal arrives: the timer starts over, so
    // another half interval does not trigger a fall, and a full one does.
    let mut world = GameWorld::new();
    world.spawn_piece(PieceType::T, 0);
    let mut gravity = DroppingSystem::with_interval(100);

    gravity.run(&mut world, 50);
    assert_eq!(world.active[0].pos.row, 16);

    world.reset_signals += 1;
    gravity.run(&mut world, 50);
    assert_eq!(world.active[0].pos.row, 16);

    gravity.run(&mut world, 50);
    assert_eq!(world.active[0].pos.row, 15);
}

#[test]
fn multiple_resets_in_one_tick_are_idempotent() {
    let mut world = GameWorld::new();
    world.spawn_piece(PieceType::T, 0);
    let mut gravity = DroppingSystem::with_interval(100);
    gravity.run(&mut world, 50);

    world.reset_signals += 3;
    gravity.run(&mut world, 99);
    assert_eq!(world.active[0].pos.row, 16);
    gravity.run(&mut world, 1);
    assert_eq!(world.active[0].pos.row, 15);
}

#[test]
fn several_active_pieces_tick_against_the_same_snapshot() {
    // Two pieces, one resting on the floor and one in the air: the same step
    // locks the first and advances the second, each tested against the pre-tick
    // stack.
    let mut world = GameWorld::new();
    world.active.push(ActivePiece {
        piece: Piece::new(PieceType::O),
        pos: Position { row: 0, col: 0 },
    });
    world.active.push(ActivePiece {
        piece: Piece::new(PieceType::O),
        pos: Position { row: 10, col: 5 },
    });

    let locked = fall_step(&mut world);

    assert_eq!(locked, 1);
    assert_eq!(world.active.len(), 1);
    assert_eq!(world.active[0].pos, Position { row: 9, col: 5 });
    assert_eq!(world.land_signals, 1);
    assert_eq!(world.settled.len(), 4);
}
