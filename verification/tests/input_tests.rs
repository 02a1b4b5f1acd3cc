use rustris_core::input::{hard_drop, PieceInputSystem, RawInput};
use rustris_core::piece::{DroppedPiece, Piece, PieceType, Position};
use rustris_core::stack::{SettledCell, SettledStack};
use rustris_core::world::{ActivePiece, GameWorld};

fn world_with(piece: Piece, pos: Position) -> GameWorld {
    let mut world = GameWorld::new();
    world.active.push(ActivePiece { piece, pos });
    world
}

fn ready_resolver() -> PieceInputSystem {
    // Both repeat timers already expired, nothing held.
    PieceInputSystem {
        held_drop_hard: false,
        held_rotate_cw: false,
        held_rotate_ccw: false,
        move_timer_ms: 0,
        soft_drop_timer_ms: 0,
    }
}

#[test]
fn held_rotation_fires_once_over_five_ticks() {
    // The no-spam check: holding rotate-cw for 5 consecutive ticks yields exactly
    // one accepted rotation, on the transition tick.
    let mut world = world_with(Piece::new(PieceType::T), Position { row: 10, col: 3 });
    let mut resolver = PieceInputSystem::new();
    let input = RawInput { rotate_cw: true, ..RawInput::released() };
    for _ in 0..5 {
        resolver.run(&mut world, &input, 16);
    }
    assert_eq!(world.active[0].piece.rotation, 1);
    assert_eq!(world.active[0].pos, Position { row: 10, col: 3 });
}

#[test]
fn rotation_rearms_after_release() {
    let mut world = world_with(Piece::new(PieceType::T), Position { row: 10, col: 3 });
    let mut resolver = PieceInputSystem::new();
    let held = RawInput { rotate_cw: true, ..RawInput::released() };
    resolver.run(&mut world, &held, 16);
    resolver.run(&mut world, &held, 16);
    assert_eq!(world.active[0].piece.rotation, 1);
    resolver.run(&mut world, &RawInput::released(), 16);
    resolver.run(&mut world, &held, 16);
    assert_eq!(world.active[0].piece.rotation, 2);
}

#[test]
fn rotate_cw_takes_priority_over_ccw() {
    let mut world = world_with(Piece::new(PieceType::T), Position { row: 10, col: 3 });
    let mut resolver = ready_resolver();
    let input = RawInput { rotate_cw: true, rotate_ccw: true, ..RawInput::released() };
    resolver.run(&mut world, &input, 16);
    assert_eq!(world.active[0].piece.rotation, 1);
}

#[test]
fn blocked_rotation_is_rejected() {
    // Vertical I at the floor; a settled cell sits on one of the cells its
    // horizontal form would need, so the rotation does not commit.
    let mut piece = Piece::new(PieceType::I);
    piece.rotation = 3;
    let mut world = world_with(piece, Position { row: 0, col: 3 });
    world.settled.add_cell(SettledCell {
        piece: DroppedPiece::new(PieceType::O),
        pos: Position { row: 1, col: 4 },
    });
    let mut resolver = ready_resolver();
    let input = RawInput { rotate_cw: true, ..RawInput::released() };
    resolver.run(&mut world, &input, 16);
    assert_eq!(world.active[0].piece.rotation, 3);
    assert_eq!(world.active[0].pos, Position { row: 0, col: 3 });
}

#[test]
fn horizontal_move_shifts_against_axis_sign() {
    // The committed column is the anchor column minus the axis value.
    let mut world = world_with(Piece::new(PieceType::T), Position { row: 10, col: 3 });
    let mut resolver = ready_resolver();
    let input = RawInput { move_x: 1, ..RawInput::released() };
    resolver.run(&mut world, &input, 16);
    assert_eq!(world.active[0].pos, Position { row: 10, col: 2 });
}

#[test]
fn move_into_wall_is_rejected() {
    // T at rotation 0 fills columns anchor + 1 .. anchor + 3; at anchor column -1
    // its leftmost cell is column 0, so one more step left would leave the board.
    let mut world = world_with(Piece::new(PieceType::T), Position { row: 10, col: -1 });
    let mut resolver = ready_resolver();
    let input = RawInput { move_x: 1, ..RawInput::released() };
    resolver.run(&mut world, &input, 16);
    assert_eq!(world.active[0].pos, Position { row: 10, col: -1 });
}

#[test]
fn move_repeats_at_its_interval() {
    // A fresh resolver seeds the move timer to its 80 ms interval: the first held
    // tick is suppressed while the timer decays, the next passes through.
    let mut world = world_with(Piece::new(PieceType::T), Position { row: 10, col: 5 });
    let mut resolver = PieceInputSystem::new();
    let input = RawInput { move_x: 1, ..RawInput::released() };
    resolver.run(&mut world, &input, 80);
    assert_eq!(world.active[0].pos.col, 5);
    resolver.run(&mut world, &input, 80);
    assert_eq!(world.active[0].pos.col, 4);
    resolver.run(&mut world, &input, 80);
    assert_eq!(world.active[0].pos.col, 4);
    resolver.run(&mut world, &input, 80);
    assert_eq!(world.active[0].pos.col, 3);
}

#[test]
fn releasing_move_zeroes_its_timer() {
    // An inactive input zeroes the timer at once, so the next press passes
    // through immediately.
    let mut world = world_with(Piece::new(PieceType::T), Position { row: 10, col: 5 });
    let mut resolver = PieceInputSystem::new();
    resolver.run(&mut world, &RawInput::released(), 16);
    let input = RawInput { move_x: 1, ..RawInput::released() };
    resolver.run(&mut world, &input, 16);
    assert_eq!(world.active[0].pos.col, 4);
}

#[test]
fn soft_drop_moves_down_and_raises_reset() {
    let mut world = world_with(Piece::new(PieceType::T), Position { row: 10, col: 3 });
    let mut resolver = ready_resolver();
    let input = RawInput { drop_soft: true, ..RawInput::released() };
    resolver.run(&mut world, &input, 16);
    assert_eq!(world.active[0].pos, Position { row: 9, col: 3 });
    assert_eq!(world.reset_signals, 1);
}

#[test]
fn soft_drop_on_floor_is_rejected() {
    let mut world = world_with(Piece::new(PieceType::O), Position { row: 0, col: 3 });
    let mut resolver = ready_resolver();
    let input = RawInput { drop_soft: true, ..RawInput::released() };
    resolver.run(&mut world, &input, 16);
    assert_eq!(world.active[0].pos, Position { row: 0, col: 3 });
    assert_eq!(world.reset_signals, 0);
}

#[test]
fn hard_drop_reaches_the_floor() {
    let piece = Piece::new(PieceType::O);
    let stack = SettledStack::new();
    // O fills rows anchor .. anchor + 2, so the floor stops it at anchor row 0.
    let mut pos = Position { row: 14, col: 3 };
    hard_drop(&piece, &mut pos, &stack);
    assert_eq!(pos, Position { row: 0, col: 3 });
}

#[test]
fn hard_drop_lands_on_the_stack() {
    let piece = Piece::new(PieceType::O);
    let mut stack = SettledStack::new();
    stack.add_cell(SettledCell {
        piece: DroppedPiece::new(PieceType::I),
        pos: Position { row: 4, col: 2 },
    });
    // O fills (anchor .. anchor+2) x (anchor+2 .. anchor+4): its lowest filled row
    // is the anchor row, so it rests with that row just above the settled cell.
    let mut pos = Position { row: 14, col: 0 };
    hard_drop(&piece, &mut pos, &stack);
    assert_eq!(pos, Position { row: 5, col: 0 });
}

#[test]
fn hard_drop_through_resolver_commits_and_waits_for_gravity() {
    // A debounced hard drop sends the piece to the floor at once, raises no
    // fall-timer reset itself, and leaves locking to the next gravity step.
    let mut world = world_with(Piece::new(PieceType::O), Position { row: 14, col: 3 });
    let mut resolver = PieceInputSystem::new();
    let input = RawInput { drop_hard: true, ..RawInput::released() };
    resolver.run(&mut world, &input, 16);
    assert_eq!(world.active[0].pos, Position { row: 0, col: 3 });
    assert_eq!(world.reset_signals, 0);
    // Held on the next tick, the hard drop stays suppressed.
    world.active[0].pos = Position { row: 10, col: 3 };
    resolver.run(&mut world, &input, 16);
    assert_eq!(world.active[0].pos, Position { row: 10, col: 3 });
}
