use rustris_core::clear::{clear_lines_pass, LineClearSystem};
use rustris_core::piece::{DroppedPiece, PieceType, Position};
use rustris_core::stack::{SettledCell, SettledStack};
use rustris_core::world::GameWorld;

fn cell(row: i32, col: i32, t: PieceType) -> SettledCell {
    SettledCell { piece: DroppedPiece::new(t), pos: Position { row, col } }
}

fn fill_row(stack: &mut SettledStack, row: i32, t: PieceType) {
    for col in 0..10 {
        stack.add_cell(cell(row, col, t));
    }
}

fn holds(stack: &SettledStack, row: i32, col: i32) -> bool {
    stack.occupied_at(row, col)
}

#[test]
fn single_full_row_clears_and_rows_above_descend_one() {
    // Row 0 holds exactly 10 cells; rows 1 and 2 hold one cell each.
    let mut stack = SettledStack::new();
    fill_row(&mut stack, 0, PieceType::I);
    stack.add_cell(cell(1, 4, PieceType::T));
    stack.add_cell(cell(2, 7, PieceType::S));

    let cleared = clear_lines_pass(&mut stack);

    assert_eq!(cleared, 1);
    assert_eq!(stack.len(), 2);
    assert!(holds(&stack, 0, 4));
    assert!(holds(&stack, 1, 7));
    assert!(!holds(&stack, 1, 4));
    assert!(!holds(&stack, 2, 7));
}

#[test]
fn partial_row_does_not_clear() {
    let mut stack = SettledStack::new();
    for col in 0..9 {
        stack.add_cell(cell(0, col, PieceType::J));
    }
    let cleared = clear_lines_pass(&mut stack);
    assert_eq!(cleared, 0);
    assert_eq!(stack.len(), 9);
    assert!(holds(&stack, 0, 0));
}

#[test]
fn clear_counts_cells_not_columns() {
    // Ten cells in one row clear it even when two of them share a column: the
    // condition is a pure cell count.
    let mut stack = SettledStack::new();
    for col in 0..8 {
        stack.add_cell(cell(0, col, PieceType::Z));
    }
    stack.add_cell(cell(0, 3, PieceType::Z));
    stack.add_cell(cell(0, 4, PieceType::Z));
    let cleared = clear_lines_pass(&mut stack);
    assert_eq!(cleared, 1);
    assert_eq!(stack.len(), 0);
}

#[test]
fn two_separated_full_rows_clear_in_one_pass() {
    // Full rows 2 and 5; single cells below, between, and above them.
    let mut stack = SettledStack::new();
    fill_row(&mut stack, 2, PieceType::L);
    fill_row(&mut stack, 5, PieceType::J);
    stack.add_cell(cell(0, 1, PieceType::O));
    stack.add_cell(cell(3, 6, PieceType::T));
    stack.add_cell(cell(7, 9, PieceType::I));

    let cleared = clear_lines_pass(&mut stack);

    assert_eq!(cleared, 2);
    assert_eq!(stack.len(), 3);
    // At or below the lower full row: unaffected.
    assert!(holds(&stack, 0, 1));
    // Strictly between the two: descends by 1.
    assert!(holds(&stack, 2, 6));
    assert!(!holds(&stack, 3, 6));
    // Strictly above the upper: descends by 2.
    assert!(holds(&stack, 5, 9));
    assert!(!holds(&stack, 7, 9));
}

#[test]
fn full_board_row_with_signal_empties_stack() {
    // Row 0 filled across all columns with settled cells of mixed types; one
    // landing signal pending; a single line-clear run leaves the stack empty and
    // no signal unconsumed.
    let mut world = GameWorld::new();
    let types = [
        PieceType::O,
        PieceType::J,
        PieceType::L,
        PieceType::I,
        PieceType::S,
        PieceType::Z,
        PieceType::T,
        PieceType::O,
        PieceType::J,
        PieceType::L,
    ];
    for col in 0..10 {
        world.settled.add_cell(cell(0, col, types[col as usize]));
    }
    world.land_signals = 1;

    let mut clearer = LineClearSystem::new();
    let cleared = clearer.run(&mut world);

    assert_eq!(cleared, 1);
    assert_eq!(world.settled.len(), 0);
    assert_eq!(clearer.land_cursor, world.land_signals);
}

#[test]
fn run_without_pending_signal_does_nothing() {
    let mut world = GameWorld::new();
    fill_row(&mut world.settled, 0, PieceType::T);
    let mut clearer = LineClearSystem::new();
    let cleared = clearer.run(&mut world);
    assert_eq!(cleared, 0);
    assert_eq!(world.settled.len(), 10);
}

#[test]
fn each_signal_runs_one_pass() {
    // Two pending signals: the first pass clears the full row, the second finds
    // nothing left to clear.
    let mut world = GameWorld::new();
    fill_row(&mut world.settled, 0, PieceType::S);
    world.land_signals = 2;
    let mut clearer = LineClearSystem::new();
    let cleared = clearer.run(&mut world);
    assert_eq!(cleared, 1);
    assert_eq!(world.settled.len(), 0);
    assert_eq!(clearer.land_cursor, 2);
}

#[test]
fn descend_preserves_piece_types() {
    let mut stack = SettledStack::new();
    fill_row(&mut stack, 0, PieceType::I);
    stack.add_cell(cell(1, 2, PieceType::Z));
    clear_lines_pass(&mut stack);
    assert_eq!(stack.cells.len(), 1);
    assert_eq!(stack.cells[0].piece.piece_type, PieceType::Z);
    assert_eq!(stack.cells[0].pos, Position { row: 0, col: 2 });
}
