use vstd::prelude::*;

verus! {

use crate::constants::{BOARD_HEIGHT, BOARD_WIDTH};

/// The playing field: its dimensions and a row-major grid of cell markers, all
/// empty to begin with.
pub struct Board {
    pub width: u32,
    pub height: u32,
    pub info: Vec<Vec<u32>>,
}

impl Default for Board {
    /// An empty board of the configured dimensions.
    fn default() -> (b: Board)
        ensures
            b.width == BOARD_WIDTH,
            b.height == BOARD_HEIGHT,
            b.info@.len() == BOARD_HEIGHT,
            forall|r: int|
                0 <= r < BOARD_HEIGHT ==> (#[trigger] b.info@[r])@ == Seq::new(
                    BOARD_WIDTH as nat,
                    |c: int| 0u32,
                ),
    {
        let mut info: Vec<Vec<u32>> = Vec::new();
        let mut r: u32 = 0;
        while r < 20
            invariant
                r <= 20,
                info@.len() == r,
                forall|k: int|
                    0 <= k < r ==> (#[trigger] info@[k])@ == Seq::new(
                        BOARD_WIDTH as nat,
                        |c: int| 0u32,
                    ),
            decreases 20 - r,
        {
            let mut row: Vec<u32> = Vec::new();
            let mut c: u32 = 0;
            while c < 10
                invariant
                    c <= 10,
                    row@.len() == c,
                    forall|k: int| 0 <= k < c ==> row@[k] == 0u32,
                decreases 10 - c,
            {
                row.push(0);
                c = c + 1;
            }
            proof {
                assert(row@ =~= Seq::new(BOARD_WIDTH as nat, |cc: int| 0u32));
            }
            info.push(row);
            r = r + 1;
        }
        Board { width: 10, height: 20, info }
    }
}

} // verus!
