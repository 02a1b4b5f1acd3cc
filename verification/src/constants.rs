use vstd::prelude::*;

verus! {

/// Number of columns on the board; piece cells must satisfy `0 <= col < BOARD_WIDTH`.
pub const BOARD_WIDTH: i32 = 10;

/// Number of rows on the visible board. Row 0 is the floor row and rows increase
/// upward. Pieces spawn 4 rows below the top edge; no ceiling collision is enforced.
pub const BOARD_HEIGHT: i32 = 20;

/// Milliseconds between gravity steps of a falling piece.
pub const FALL_TIMER_MS: u32 = 900;

/// Repeat interval, in milliseconds, for held horizontal movement.
pub const MOVE_REPEAT_MS: u32 = 80;

/// Repeat interval, in milliseconds, for a held soft drop.
pub const SOFT_DROP_REPEAT_MS: u32 = 140;

} // verus!
