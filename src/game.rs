use vstd::prelude::*;

use crate::cell::{Cell, CellState};

verus! {

/// Where a session stands.
#[derive(Clone, Copy, Debug, PartialEq, Eq, Structural)]
pub enum Status {
    Playing,
    Won,
    Lost,
}

/// A game session: the board in row-major order, its size, the cursor and
/// the difficulty that new boards are drawn with.
pub struct Game {
    pub cells: Vec<Cell>,
    pub width: usize,
    pub height: usize,
    pub cursor: (usize, usize),
    pub difficulty: u8,
    pub status: Status,
}

/// `(nx, ny)` is one of the eight squares around `(x, y)`.
pub open spec fn adjacent(x: int, y: int, nx: int, ny: int) -> bool {
    &&& -1 <= nx - x <= 1
    &&& -1 <= ny - y <= 1
    &&& !(nx == x && ny == y)
}

/// The `k`-th square of the 3x3 window centred on `(x, y)`, column by column.
pub open spec fn slot(x: int, y: int, k: int) -> (int, int) {
    (x + k / 3 - 1, y + k % 3 - 1)
}

impl Game {
    /// The board holds `width * height` squares, and the cursor is on one.
    pub open spec fn wf(&self) -> bool {
        &&& self.width >= 1
        &&& self.height >= 1
        &&& self.cells@.len() == self.width * self.height
        &&& self.cursor.0 < self.width
        &&& self.cursor.1 < self.height
    }

    /// `(x, y)` is a square of the board.
    pub open spec fn in_grid(&self, x: int, y: int) -> bool {
        0 <= x < self.width && 0 <= y < self.height
    }

    /// Row-major index of `(x, y)`.
    pub open spec fn idx(&self, x: int, y: int) -> int {
        x + y * self.width
    }

    /// The square at `(x, y)`.
    pub open spec fn cell_at(&self, x: int, y: int) -> Cell {
        self.cells@[self.idx(x, y)]
    }

    /// `(nx, ny)` is a square of the board next to `(x, y)`.
    pub open spec fn is_neighbor(&self, x: int, y: int, nx: int, ny: int) -> bool {
        self.in_grid(nx, ny) && adjacent(x, y, nx, ny)
    }

    /// How many of the first `k` window squares around `(x, y)` are on the board.
    pub open spec fn neighbors_in_window(&self, x: int, y: int, k: nat) -> nat
        decreases k,
    {
        if k == 0 {
            0
        } else {
            let (nx, ny) = slot(x, y, k - 1);
            self.neighbors_in_window(x, y, (k - 1) as nat) + if self.is_neighbor(x, y, nx, ny) {
                1nat
            } else {
                0nat
            }
        }
    }

    /// How many of the first `k` window squares around `(x, y)` are on the board
    /// and hold a mine.
    pub open spec fn mines_in_window(&self, x: int, y: int, k: nat) -> nat
        decreases k,
    {
        if k == 0 {
            0
        } else {
            let (nx, ny) = slot(x, y, k - 1);
            self.mines_in_window(x, y, (k - 1) as nat) + if self.is_neighbor(x, y, nx, ny)
                && self.cell_at(nx, ny).mine {
                1nat
            } else {
                0nat
            }
        }
    }

    /// Number of squares around `(x, y)` that lie on the board.
    pub open spec fn neighbor_total(&self, x: int, y: int) -> nat {
        self.neighbors_in_window(x, y, 9)
    }

    /// Number of mines on the squares around `(x, y)`.
    pub open spec fn mines_around(&self, x: int, y: int) -> nat {
        self.mines_in_window(x, y, 9)
    }

    /// Every mine carries a flag.
    pub open spec fn all_mines_flagged(&self) -> bool {
        forall|i: int| 0 <= i < self.cells@.len() && (#[trigger] self.cells@[i]).mine
            ==> self.cells@[i].state == CellState::Flagged
    }

    /// Row-major index of the square `(x, y)`.
    pub fn position_index(&self, x: usize, y: usize) -> (r: usize)
        requires
            self.wf(),
            x < self.width,
            y < self.height,
        ensures
            r == self.idx(x as int, y as int),
            r < self.cells@.len(),
    {
        // the board's length is a usize, which bounds width * height
        let _len = self.cells.len();
        proof {
            lemma_index_in_bounds(self.width as int, self.height as int, x as int, y as int);
        }
        x + y * self.width
    }

    /// Whether column `x + dx - 1` lies on the board, for `dx` in `0..3`.
    fn column_on_board(&self, x: usize, dx: usize) -> (r: bool)
        requires
            x < self.width,
            dx < 3,
        ensures
            r == (0 <= x + dx - 1 < self.width),
    {
        if dx == 0 {
            x >= 1
        } else if dx == 1 {
            true
        } else {
            x + 1 < self.width
        }
    }

    /// Whether row `y + dy - 1` lies on the board, for `dy` in `0..3`.
    fn row_on_board(&self, y: usize, dy: usize) -> (r: bool)
        requires
            y < self.height,
            dy < 3,
        ensures
            r == (0 <= y + dy - 1 < self.height),
    {
        if dy == 0 {
            y >= 1
        } else if dy == 1 {
            true
        } else {
            y + 1 < self.height
        }
    }

    /// The squares around `(x, y)` that lie on the board, each once.
    pub fn neighbors(&self, x: usize, y: usize) -> (r: Vec<(usize, usize)>)
        requires
            self.wf(),
            x < self.width,
            y < self.height,
        ensures
            r@.no_duplicates(),
            r@.len() == self.neighbor_total(x as int, y as int),
            forall|i: int|
                0 <= i < r@.len() ==> self.is_neighbor(
                    x as int,
                    y as int,
                    (#[trigger] r@[i]).0 as int,
                    r@[i].1 as int,
                ),
            forall|nx: int, ny: int|
                #[trigger] self.is_neighbor(x as int, y as int, nx, ny) ==> r@.contains(
                    (nx as usize, ny as usize),
                ),
    {
        let mut r: Vec<(usize, usize)> = Vec::new();
        let mut k: usize = 0;
        while k < 9
            invariant
                self.wf(),
                x < self.width,
                y < self.height,
                k <= 9,
                r@.no_duplicates(),
                r@.len() == self.neighbors_in_window(x as int, y as int, k as nat),
                forall|i: int|
                    0 <= i < r@.len() ==> self.is_neighbor(
                        x as int,
                        y as int,
                        (#[trigger] r@[i]).0 as int,
                        r@[i].1 as int,
                    ) && window_index(x as int, y as int, r@[i].0 as int, r@[i].1 as int) < k,
                forall|j: int|
                    0 <= j < k && self.is_neighbor(
                        x as int,
                        y as int,
                        #[trigger] slot(x as int, y as int, j).0,
                        slot(x as int, y as int, j).1,
                    ) ==> r@.contains(
                        (slot(x as int, y as int, j).0 as usize, slot(x as int, y as int, j).1 as usize),
                    ),
            decreases 9 - k,
        {
            let dx = k / 3;
            let dy = k % 3;
            proof {
                lemma_slot_window_index(x as int, y as int, k as int);
            }
            let ghost before = r@;
            let on_board = self.column_on_board(x, dx) && self.row_on_board(y, dy);
            if on_board && !(dx == 1 && dy == 1) {
                let p = (x + dx - 1, y + dy - 1);
                proof {
                    assert forall|i: int| 0 <= i < r@.len() implies r@[i] != p by {
                        if r@[i] == p {
                            assert(window_index(x as int, y as int, r@[i].0 as int, r@[i].1 as int)
                                == k);
                        }
                    }
                }
                r.push(p);
                proof {
                    assert(r@.last() == p);
                    assert(r@.contains(p));
                }
            }
            proof {
                let (sx, sy) = slot(x as int, y as int, k as int);
                assert(sx == x + dx - 1 && sy == y + dy - 1);
                if self.is_neighbor(x as int, y as int, sx, sy) {
                    assert(r@[r@.len() - 1] == (sx as usize, sy as usize));
                    assert(r@.contains((sx as usize, sy as usize)));
                }
                assert forall|j: int|
                    0 <= j < k && self.is_neighbor(
                        x as int,
                        y as int,
                        #[trigger] slot(x as int, y as int, j).0,
                        slot(x as int, y as int, j).1,
                    ) implies r@.contains(
                        (slot(x as int, y as int, j).0 as usize, slot(x as int, y as int, j).1 as usize),
                    ) by {
                    let q = (slot(x as int, y as int, j).0 as usize, slot(x as int, y as int, j).1 as usize);
                    let m = choose|m: int| 0 <= m < before.len() && before[m] == q;
                    assert(r@[m] == q);
                }
            }
            k = k + 1;
        }
        proof {
            assert forall|nx: int, ny: int|
                #[trigger] self.is_neighbor(x as int, y as int, nx, ny) implies r@.contains(
                    (nx as usize, ny as usize),
                ) by {
                lemma_window_index_slot(x as int, y as int, nx, ny);
                let j = window_index(x as int, y as int, nx, ny);
                assert(slot(x as int, y as int, j).0 == nx);
            }
        }
        r
    }

    /// Number of mines on the squares around `(x, y)`.
    pub fn mine_count_around(&self, x: usize, y: usize) -> (r: u8)
        requires
            self.wf(),
            x < self.width,
            y < self.height,
        ensures
            r == self.mines_around(x as int, y as int),
            r <= 8,
    {
        let mut count: u8 = 0;
        let mut k: usize = 0;
        while k < 9
            invariant
                self.wf(),
                x < self.width,
                y < self.height,
                k <= 9,
                k <= 4 ==> count <= k,
                k > 4 ==> count < k,
                count == self.mines_in_window(x as int, y as int, k as nat),
            decreases 9 - k,
        {
            let dx = k / 3;
            let dy = k % 3;
            proof {
                lemma_slot_window_index(x as int, y as int, k as int);
            }
            let on_board = self.column_on_board(x, dx) && self.row_on_board(y, dy);
            if on_board && !(dx == 1 && dy == 1) {
                let i = self.position_index(x + dx - 1, y + dy - 1);
                if self.cells[i].mine {
                    count = count + 1;
                }
            }
            k = k + 1;
        }
        count
    }
}

/// Position of `(nx, ny)` in the 3x3 window centred on `(x, y)`.
pub open spec fn window_index(x: int, y: int, nx: int, ny: int) -> int {
    (nx - x + 1) * 3 + (ny - y + 1)
}

pub proof fn lemma_slot_window_index(x: int, y: int, k: int)
    requires
        0 <= k < 9,
    ensures
        window_index(x, y, slot(x, y, k).0, slot(x, y, k).1) == k,
        -1 <= slot(x, y, k).0 - x <= 1,
        -1 <= slot(x, y, k).1 - y <= 1,
        adjacent(x, y, slot(x, y, k).0, slot(x, y, k).1) <==> k != 4,
{
    assert(k == 0 || k == 1 || k == 2 || k == 3 || k == 4 || k == 5 || k == 6 || k == 7 || k == 8);
}

pub proof fn lemma_window_index_slot(x: int, y: int, nx: int, ny: int)
    requires
        -1 <= nx - x <= 1,
        -1 <= ny - y <= 1,
    ensures
        0 <= window_index(x, y, nx, ny) < 9,
        slot(x, y, window_index(x, y, nx, ny)) == (nx, ny),
{
    let k = window_index(x, y, nx, ny);
    assert(k == 0 || k == 1 || k == 2 || k == 3 || k == 4 || k == 5 || k == 6 || k == 7 || k == 8);
}

/// Two squares of the board with the same row-major index are the same square.
pub proof fn lemma_index_injective(w: int, h: int, x1: int, y1: int, x2: int, y2: int)
    requires
        0 <= x1 < w,
        0 <= y1 < h,
        0 <= x2 < w,
        0 <= y2 < h,
        x1 + y1 * w == x2 + y2 * w,
    ensures
        x1 == x2,
        y1 == y2,
{
    if y1 < y2 {
        assert(y1 * w + w <= y2 * w) by (nonlinear_arith)
            requires
                y1 < y2,
                0 <= w,
        ;
    } else if y2 < y1 {
        assert(y2 * w + w <= y1 * w) by (nonlinear_arith)
            requires
                y2 < y1,
                0 <= w,
        ;
    }
}

pub proof fn lemma_index_in_bounds(w: int, h: int, x: int, y: int)
    requires
        0 <= x < w,
        0 <= y < h,
    ensures
        0 <= y * w <= x + y * w < w * h,
{
    assert(0 <= y * w <= x + y * w < w * h) by (nonlinear_arith)
        requires
            0 <= x < w,
            0 <= y < h,
    ;
}

impl Game {
    /// A square with no mine around it has no mine on any of its neighbours.
    pub proof fn lemma_zero_count_no_mine(&self, x: int, y: int, nx: int, ny: int)
        requires
            self.mines_around(x, y) == 0,
            self.is_neighbor(x, y, nx, ny),
        ensures
            !self.cell_at(nx, ny).mine,
    {
        lemma_window_index_slot(x, y, nx, ny);
        self.lemma_window_zero(x, y, 9, window_index(x, y, nx, ny));
    }

    proof fn lemma_window_zero(&self, x: int, y: int, k: nat, j: int)
        requires
            self.mines_in_window(x, y, k) == 0,
            0 <= j < k,
        ensures
            !(self.is_neighbor(x, y, slot(x, y, j).0, slot(x, y, j).1) && self.cell_at(
                slot(x, y, j).0,
                slot(x, y, j).1,
            ).mine),
        decreases k,
    {
        if j < k - 1 {
            self.lemma_window_zero(x, y, (k - 1) as nat, j);
        }
    }

    /// Counts around a square depend on the mines alone, not on what the player did.
    pub proof fn lemma_same_mines(&self, other: &Game, x: int, y: int, k: nat)
        requires
            self.width == other.width,
            self.height == other.height,
            self.cells@.len() == other.cells@.len(),
            forall|i: int|
                0 <= i < self.cells@.len() ==> (#[trigger] self.cells@[i]).mine
                    == other.cells@[i].mine,
            self.cells@.len() == self.width * self.height,
        ensures
            self.mines_in_window(x, y, k) == other.mines_in_window(x, y, k),
        decreases k,
    {
        if k > 0 {
            self.lemma_same_mines(other, x, y, (k - 1) as nat);
            let (nx, ny) = slot(x, y, k - 1);
            if self.is_neighbor(x, y, nx, ny) {
                lemma_index_in_bounds(self.width as int, self.height as int, nx, ny);
                assert(self.cells@[self.idx(nx, ny)].mine == other.cells@[other.idx(nx, ny)].mine);
            }
        }
    }

    pub proof fn lemma_window_at_most(&self, x: int, y: int, k: nat)
        ensures
            self.neighbors_in_window(x, y, k) <= k,
        decreases k,
    {
        if k > 0 {
            self.lemma_window_at_most(x, y, (k - 1) as nat);
        }
    }
}

} // verus!
