//! The player's place and heading on the grid.
use crate::grid::{Direction, Pos};
use vstd::prelude::*;

verus! {

pub struct Player {
    pub pos: Pos,
    pub facing: Direction,
}

impl Player {
    /// A player standing at `pos`, facing east.
    pub fn new(pos: Pos) -> (r: Self)
        ensures
            r.pos == pos,
            r.facing == Direction::East,
    {
        Player { pos, facing: Direction::East }
    }
}

} // verus!
