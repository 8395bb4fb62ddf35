use vstd::prelude::*;

use crate::cell::{toggled, Cell, CellState};
use crate::game::{Game, Status};

verus! {

/// A cursor movement.
#[derive(Clone, Copy, Debug, PartialEq, Eq, Structural)]
pub enum Direction {
    Left,
    Right,
    Up,
    Down,
}

/// Where the cursor `(x, y)` goes on a `width` by `height` board: one step,
/// stopping at the edge.
pub open spec fn moved(cursor: (usize, usize), width: usize, height: usize, dir: Direction) -> (
    usize,
    usize,
) {
    let (x, y) = cursor;
    match dir {
        Direction::Left => (if x > 0 { (x - 1) as usize } else { 0 }, y),
        Direction::Right => (if x + 1 < width { (x + 1) as usize } else { x }, y),
        Direction::Up => (x, if y > 0 { (y - 1) as usize } else { 0 }),
        Direction::Down => (x, if y + 1 < height { (y + 1) as usize } else { y }),
    }
}

impl Game {
    /// Every mine carries a flag.
    pub fn did_win(&self) -> (r: bool)
        ensures
            r == self.all_mines_flagged(),
    {
        let mut i: usize = 0;
        while i < self.cells.len()
            invariant
                i <= self.cells@.len(),
                forall|k: int|
                    0 <= k < i && (#[trigger] self.cells@[k]).mine ==> self.cells@[k].state
                        == CellState::Flagged,
            decreases self.cells@.len() - i,
        {
            let c = self.cells[i];
            if c.mine && c.state != CellState::Flagged {
                return false;
            }
            i = i + 1;
        }
        true
    }

    /// Puts a flag on a covered square or takes it off; an uncovered square is
    /// left alone.
    pub fn toggle_flag(&mut self, x: usize, y: usize)
        requires
            old(self).wf(),
            x < old(self).width,
            y < old(self).height,
        ensures
            final(self).wf(),
            final(self).width == old(self).width,
            final(self).height == old(self).height,
            final(self).cursor == old(self).cursor,
            final(self).difficulty == old(self).difficulty,
            final(self).status == old(self).status,
            final(self).cells@ == old(self).cells@.update(
                old(self).idx(x as int, y as int),
                toggled(old(self).cell_at(x as int, y as int)),
            ),
    {
        let i = self.position_index(x, y);
        let c = self.cells[i];
        let next = match c.state {
            CellState::Hidden => Cell { mine: c.mine, state: CellState::Flagged },
            CellState::Flagged => Cell { mine: c.mine, state: CellState::Hidden },
            CellState::Revealed => c,
        };
        self.cells.set(i, next);
    }

    /// Moves the cursor one step, stopping at the edge of the board.
    pub fn move_cursor(&mut self, dir: Direction)
        requires
            old(self).wf(),
        ensures
            final(self).wf(),
            final(self).cursor == moved(old(self).cursor, old(self).width, old(self).height, dir),
            final(self).cells@ == old(self).cells@,
            final(self).width == old(self).width,
            final(self).height == old(self).height,
            final(self).difficulty == old(self).difficulty,
            final(self).status == old(self).status,
    {
        let (x, y) = self.cursor;
        self.cursor = match dir {
            Direction::Left => (if x > 0 { x - 1 } else { 0 }, y),
            Direction::Right => (if x + 1 < self.width { x + 1 } else { x }, y),
            Direction::Up => (x, if y > 0 { y - 1 } else { 0 }),
            Direction::Down => (x, if y + 1 < self.height { y + 1 } else { y }),
        };
    }
}

} // verus!
