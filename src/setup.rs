use rand::Rng;
use vstd::prelude::*;

use crate::cell::{Cell, CellState};
use crate::game::{Game, Status};

verus! {

/// Draws for a square are taken from `difficulty..MINE_DRAW_END`.
pub const MINE_DRAW_END: u8 = 30;

/// A draw below this puts a mine on the square.
pub const MINE_BELOW: u8 = 3;

/// Relies on rand's `thread_rng` and `Rng::gen_range(low, high)` (rand 0.7),
/// which returns a value in `[low, high)` and panics when `low >= high`.
#[verifier::external_body]
fn draw_in_range(low: u8, high: u8) -> (r: u8)
    requires
        low < high,
    ensures
        low <= r < high,
{
    rand::thread_rng().gen_range(low, high)
}

/// The covered square that a draw gives.
pub fn cell_from_draw(draw: u8) -> (r: Cell)
    ensures
        r == (Cell { mine: draw < MINE_BELOW, state: CellState::Hidden }),
{
    Cell { mine: draw < MINE_BELOW, state: CellState::Hidden }
}

/// Covered squares with the given mines.
pub fn cells_from_mines(mines: &Vec<bool>) -> (r: Vec<Cell>)
    ensures
        r@.len() == mines@.len(),
        forall|i: int|
            0 <= i < r@.len() ==> #[trigger] r@[i] == (Cell {
                mine: mines@[i],
                state: CellState::Hidden,
            }),
{
    let mut r: Vec<Cell> = Vec::with_capacity(mines.len());
    let mut i: usize = 0;
    while i < mines.len()
        invariant
            i <= mines@.len(),
            r@.len() == i,
            forall|k: int|
                0 <= k < i ==> #[trigger] r@[k] == (Cell {
                    mine: mines@[k],
                    state: CellState::Hidden,
                }),
        decreases mines@.len() - i,
    {
        r.push(Cell { mine: mines[i], state: CellState::Hidden });
        i = i + 1;
    }
    r
}

/// A fresh random board of `width * height` covered squares; each square gets
/// a mine when its draw from `difficulty..MINE_DRAW_END` falls below
/// `MINE_BELOW`, so no board of difficulty `MINE_BELOW` or more has a mine.
pub fn gen_board(difficulty: u8, width: usize, height: usize) -> (r: Vec<Cell>)
    requires
        difficulty < MINE_DRAW_END,
        width * height <= usize::MAX,
    ensures
        r@.len() == width * height,
        forall|i: int| 0 <= i < r@.len() ==> (#[trigger] r@[i]).state == CellState::Hidden,
        forall|i: int| 0 <= i < r@.len() && (#[trigger] r@[i]).mine ==> difficulty < MINE_BELOW,
{
    let n = width * height;
    let mut cells: Vec<Cell> = Vec::with_capacity(n);
    let mut i: usize = 0;
    while i < n
        invariant
            i <= n,
            n == width * height,
            cells@.len() == i,
            difficulty < MINE_DRAW_END,
            forall|k: int| 0 <= k < i ==> (#[trigger] cells@[k]).state == CellState::Hidden,
            forall|k: int| 0 <= k < i && (#[trigger] cells@[k]).mine ==> difficulty < MINE_BELOW,
        decreases n - i,
    {
        let draw = draw_in_range(difficulty, MINE_DRAW_END);
        cells.push(cell_from_draw(draw));
        i = i + 1;
    }
    cells
}

impl Game {
    /// The cursor is at the origin, the game is on and every square is covered.
    pub open spec fn fresh(&self) -> bool {
        &&& self.cursor == (0usize, 0usize)
        &&& self.status == Status::Playing
        &&& forall|i: int|
            0 <= i < self.cells@.len() ==> (#[trigger] self.cells@[i]).state == CellState::Hidden
    }

    /// The squares of the board hold exactly the given mines.
    pub open spec fn has_mines(&self, mines: Seq<bool>) -> bool {
        &&& self.cells@.len() == mines.len()
        &&& forall|i: int| 0 <= i < mines.len() ==> (#[trigger] self.cells@[i]).mine == mines[i]
    }

    /// A new game on a random board.
    pub fn new(difficulty: u8, width: usize, height: usize) -> (r: Game)
        requires
            width >= 1,
            height >= 1,
            width * height <= usize::MAX,
            difficulty < MINE_DRAW_END,
        ensures
            r.wf(),
            r.fresh(),
            r.width == width,
            r.height == height,
            r.difficulty == difficulty,
            forall|i: int|
                0 <= i < r.cells@.len() && (#[trigger] r.cells@[i]).mine ==> difficulty
                    < MINE_BELOW,
    {
        Game {
            cells: gen_board(difficulty, width, height),
            width,
            height,
            cursor: (0, 0),
            difficulty,
            status: Status::Playing,
        }
    }

    /// A new game on the board with the given mines, row by row.
    pub fn with_mines(difficulty: u8, width: usize, height: usize, mines: &Vec<bool>) -> (r: Game)
        requires
            width >= 1,
            height >= 1,
            mines@.len() == width * height,
        ensures
            r.wf(),
            r.fresh(),
            r.has_mines(mines@),
            r.width == width,
            r.height == height,
            r.difficulty == difficulty,
    {
        Game {
            cells: cells_from_mines(mines),
            width,
            height,
            cursor: (0, 0),
            difficulty,
            status: Status::Playing,
        }
    }

    /// Starts over on a new random board of the same size and difficulty.
    pub fn restart(&mut self)
        requires
            old(self).wf(),
            old(self).difficulty < MINE_DRAW_END,
        ensures
            final(self).wf(),
            final(self).fresh(),
            final(self).width == old(self).width,
            final(self).height == old(self).height,
            final(self).difficulty == old(self).difficulty,
            forall|i: int|
                0 <= i < final(self).cells@.len() && (#[trigger] final(self).cells@[i]).mine
                    ==> old(self).difficulty < MINE_BELOW,
    {
        // the board's length is a usize, which bounds width * height
        let _len = self.cells.len();
        self.cells = gen_board(self.difficulty, self.width, self.height);
        self.cursor = (0, 0);
        self.status = Status::Playing;
    }

    /// Starts over on the board with the given mines, keeping size and difficulty.
    pub fn restart_with(&mut self, mines: &Vec<bool>)
        requires
            old(self).wf(),
            mines@.len() == old(self).width * old(self).height,
        ensures
            final(self).wf(),
            final(self).fresh(),
            final(self).has_mines(mines@),
            final(self).width == old(self).width,
            final(self).height == old(self).height,
            final(self).difficulty == old(self).difficulty,
    {
        self.cells = cells_from_mines(mines);
        self.cursor = (0, 0);
        self.status = Status::Playing;
    }
}

} // verus!
