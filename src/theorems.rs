use vstd::prelude::*;

use crate::cell::{toggled, Cell, CellState};
use crate::game::{lemma_slot_window_index, lemma_window_index_slot, slot, window_index, Game};
use crate::play::{moved, Direction};

verus! {

/// Where the cursor ends after the moves `dirs`, taken in order.
pub open spec fn moved_all(
    cursor: (usize, usize),
    width: usize,
    height: usize,
    dirs: Seq<Direction>,
) -> (usize, usize)
    decreases dirs.len(),
{
    if dirs.len() == 0 {
        cursor
    } else {
        moved_all(moved(cursor, width, height, dirs[0]), width, height, dirs.drop_first())
    }
}

/// However many moves are made, in whatever directions, the cursor stays on
/// the board.
pub proof fn cursor_stays_on_board(
    cursor: (usize, usize),
    width: usize,
    height: usize,
    dirs: Seq<Direction>,
)
    requires
        cursor.0 < width,
        cursor.1 < height,
    ensures
        moved_all(cursor, width, height, dirs).0 < width,
        moved_all(cursor, width, height, dirs).1 < height,
    decreases dirs.len(),
{
    if dirs.len() > 0 {
        cursor_stays_on_board(moved(cursor, width, height, dirs[0]), width, height, dirs.drop_first());
    }
}

/// Where `n` presses of one arrow key leave the cursor: `n` squares further,
/// but no further than the edge of the board.
pub open spec fn clamped_after(
    cursor: (usize, usize),
    width: usize,
    height: usize,
    dir: Direction,
    n: nat,
) -> (int, int) {
    let (x, y) = (cursor.0 as int, cursor.1 as int);
    match dir {
        Direction::Left => (if x >= n { x - n } else { 0 }, y),
        Direction::Right => (if x + n <= width - 1 { x + n } else { width - 1 }, y),
        Direction::Up => (x, if y >= n { y - n } else { 0 }),
        Direction::Down => (x, if y + n <= height - 1 { y + n } else { height - 1 }),
    }
}

/// Pressing one arrow key `n` times moves the cursor `n` squares that way,
/// stopping at the edge of the board; it never wraps.
pub proof fn repeated_moves_clamp(
    cursor: (usize, usize),
    width: usize,
    height: usize,
    dir: Direction,
    n: nat,
)
    requires
        cursor.0 < width,
        cursor.1 < height,
    ensures
        moved_all(cursor, width, height, Seq::new(n, |_i: int| dir)).0 == clamped_after(
            cursor,
            width,
            height,
            dir,
            n,
        ).0,
        moved_all(cursor, width, height, Seq::new(n, |_i: int| dir)).1 == clamped_after(
            cursor,
            width,
            height,
            dir,
            n,
        ).1,
    decreases n,
{
    if n > 0 {
        let dirs = Seq::new(n, |_i: int| dir);
        let next = moved(cursor, width, height, dir);
        assert(dirs.drop_first() =~= Seq::new((n - 1) as nat, |_i: int| dir));
        repeated_moves_clamp(next, width, height, dir, (n - 1) as nat);
    }
}

/// A corner square has at most three neighbours, a square on an edge at most
/// five, and a square inside the board exactly eight.
pub proof fn neighbor_counts(g: &Game, x: int, y: int)
    requires
        g.wf(),
        g.in_grid(x, y),
    ensures
        (x == 0 || x == g.width - 1) && (y == 0 || y == g.height - 1) ==> g.neighbor_total(x, y)
            <= 3,
        (x == 0 || x == g.width - 1 || y == 0 || y == g.height - 1) ==> g.neighbor_total(x, y)
            <= 5,
        0 < x < g.width - 1 && 0 < y < g.height - 1 ==> g.neighbor_total(x, y) == 8,
{
    reveal_with_fuel(Game::neighbors_in_window, 10);
    assert(slot(x, y, 0) == (x - 1, y - 1));
    assert(slot(x, y, 1) == (x - 1, y));
    assert(slot(x, y, 2) == (x - 1, y + 1));
    assert(slot(x, y, 3) == (x, y - 1));
    assert(slot(x, y, 4) == (x, y));
    assert(slot(x, y, 5) == (x, y + 1));
    assert(slot(x, y, 6) == (x + 1, y - 1));
    assert(slot(x, y, 7) == (x + 1, y));
    assert(slot(x, y, 8) == (x + 1, y + 1));
}

/// The squares next to `(x, y)` that hold a mine.
pub open spec fn mine_neighbors(g: &Game, x: int, y: int) -> Set<(int, int)> {
    Set::new(|p: (int, int)| g.is_neighbor(x, y, p.0, p.1) && g.cell_at(p.0, p.1).mine)
}

/// The mine-bearing squares among the first `k` squares of the window.
spec fn mine_neighbors_in_window(g: &Game, x: int, y: int, k: nat) -> Set<(int, int)>
    decreases k,
{
    if k == 0 {
        Set::empty()
    } else {
        let p = slot(x, y, k - 1);
        let rest = mine_neighbors_in_window(g, x, y, (k - 1) as nat);
        if g.is_neighbor(x, y, p.0, p.1) && g.cell_at(p.0, p.1).mine {
            rest.insert(p)
        } else {
            rest
        }
    }
}

proof fn lemma_window_set(g: &Game, x: int, y: int, k: nat)
    requires
        k <= 9,
    ensures
        mine_neighbors_in_window(g, x, y, k).finite(),
        mine_neighbors_in_window(g, x, y, k).len() == g.mines_in_window(x, y, k),
        forall|p: (int, int)|
            #[trigger] mine_neighbors_in_window(g, x, y, k).contains(p) <==> g.is_neighbor(
                x,
                y,
                p.0,
                p.1,
            ) && g.cell_at(p.0, p.1).mine && window_index(x, y, p.0, p.1) < k,
    decreases k,
{
    if k > 0 {
        lemma_window_set(g, x, y, (k - 1) as nat);
        lemma_slot_window_index(x, y, k - 1);
        let p = slot(x, y, k - 1);
        let rest = mine_neighbors_in_window(g, x, y, (k - 1) as nat);
        assert(!rest.contains(p));
        assert forall|q: (int, int)|
            #[trigger] mine_neighbors_in_window(g, x, y, k).contains(q) <==> g.is_neighbor(
                x,
                y,
                q.0,
                q.1,
            ) && g.cell_at(q.0, q.1).mine && window_index(x, y, q.0, q.1) < k by {
            if g.is_neighbor(x, y, q.0, q.1) && window_index(x, y, q.0, q.1) == k - 1 {
                lemma_window_index_slot(x, y, q.0, q.1);
            }
        }
    }
}

/// The number of mines around a square is the number of squares next to it,
/// on the board, that hold a mine.
pub proof fn mine_count_is_exact(g: &Game, x: int, y: int)
    ensures
        mine_neighbors(g, x, y).finite(),
        g.mines_around(x, y) == mine_neighbors(g, x, y).len(),
{
    lemma_window_set(g, x, y, 9);
    assert forall|p: (int, int)|
        #[trigger] mine_neighbors(g, x, y).contains(p) implies window_index(x, y, p.0, p.1) < 9 by {
        lemma_window_index_slot(x, y, p.0, p.1);
    }
    assert(mine_neighbors(g, x, y) =~= mine_neighbors_in_window(g, x, y, 9));
}

/// Revealing a covered safe square with no mine around it uncovers no mine,
/// uncovers every covered neighbour of it, and every other square it uncovers
/// lies next to an uncovered square with no mine around it.
pub proof fn cascade_region(g0: &Game, g1: &Game, x: int, y: int, order: Seq<(usize, usize)>)
    requires
        g0.wf(),
        g0.in_grid(x, y),
        g0.cell_at(x, y) == (Cell { mine: false, state: CellState::Hidden }),
        g0.mines_around(x, y) == 0,
        g1.width == g0.width,
        g1.height == g0.height,
        g0.reveal_post(g1, x, y, order),
    ensures
        forall|cx: int, cy: int| #[trigger] g0.newly_revealed(g1, cx, cy) ==> !g1.cell_at(cx, cy).mine,
        forall|nx: int, ny: int|
            #[trigger] g0.is_neighbor(x, y, nx, ny) && g0.cell_at(nx, ny).state == CellState::Hidden
                ==> g1.cell_at(nx, ny).state == CellState::Revealed,
        forall|cx: int, cy: int|
            #[trigger] g0.newly_revealed(g1, cx, cy) && !(cx == x && cy == y) ==> exists|
                px: int,
                py: int,
            |
                #![trigger g0.newly_revealed(g1, px, py)]
                g0.newly_revealed(g1, px, py) && g0.mines_around(px, py) == 0 && g0.is_neighbor(
                    px,
                    py,
                    cx,
                    cy,
                ),
{
    assert(g0.newly_revealed(g1, x, y)) by {
        assert(order[0] == (x as usize, y as usize));
        assert(g0.newly_revealed(g1, order[0].0 as int, order[0].1 as int));
    }
    assert forall|cx: int, cy: int| #[trigger] g0.newly_revealed(g1, cx, cy) implies !g1.cell_at(
        cx,
        cy,
    ).mine by {
        crate::game::lemma_index_in_bounds(g0.width as int, g0.height as int, cx, cy);
    }
    assert forall|nx: int, ny: int|
        #[trigger] g0.is_neighbor(x, y, nx, ny) && g0.cell_at(nx, ny).state == CellState::Hidden
            implies g1.cell_at(nx, ny).state == CellState::Revealed by {
        assert(g0.newly_revealed(g1, x, y) && g0.is_neighbor(x, y, nx, ny));
    }
    assert forall|cx: int, cy: int|
        #[trigger] g0.newly_revealed(g1, cx, cy) && !(cx == x && cy == y) implies exists|
            px: int,
            py: int,
        |
            #![trigger g0.newly_revealed(g1, px, py)]
            g0.newly_revealed(g1, px, py) && g0.mines_around(px, py) == 0 && g0.is_neighbor(
                px,
                py,
                cx,
                cy,
            ) by {
        let i = choose|i: int| 0 <= i < order.len() && order[i] == (cx as usize, cy as usize);
        assert(i != 0);
        assert(g0.spread_from_earlier(order, i));
        let j = choose|j: int| 0 <= j < i && #[trigger] g0.spreads_to(order[j], order[i]);
        let (px, py) = (order[j].0 as int, order[j].1 as int);
        assert(g0.newly_revealed(g1, px, py));
    }
}

/// Revealing the same covered safe square a second time changes nothing.
pub proof fn reveal_twice(
    g0: &Game,
    g1: &Game,
    g2: &Game,
    x: int,
    y: int,
    first: Seq<(usize, usize)>,
    second: Seq<(usize, usize)>,
)
    requires
        g0.wf(),
        g0.in_grid(x, y),
        g0.cell_at(x, y) == (Cell { mine: false, state: CellState::Hidden }),
        g1.width == g0.width,
        g1.height == g0.height,
        g0.reveal_post(g1, x, y, first),
        g1.reveal_post(g2, x, y, second),
    ensures
        g2.cells@ == g1.cells@,
        second.len() == 0,
        !g1.steps_on_mine(x, y),
{
    assert(g0.newly_revealed(g1, first[0].0 as int, first[0].1 as int));
}

/// Toggling the flag of a square twice gives back the board it started from.
pub proof fn toggle_twice(g0: &Game, g1: &Game, g2: &Game, x: int, y: int)
    requires
        g0.wf(),
        g0.in_grid(x, y),
        g1.width == g0.width,
        g1.cells@ == g0.cells@.update(g0.idx(x, y), toggled(g0.cell_at(x, y))),
        g2.cells@ == g1.cells@.update(g1.idx(x, y), toggled(g1.cell_at(x, y))),
    ensures
        g2.cells@ == g0.cells@,
        g0.cell_at(x, y).state == CellState::Revealed ==> g1.cells@ == g0.cells@,
{
    crate::game::lemma_index_in_bounds(g0.width as int, g0.height as int, x, y);
    assert(g2.cells@ =~= g0.cells@);
    if g0.cell_at(x, y).state == CellState::Revealed {
        assert(g1.cells@ =~= g0.cells@);
    }
}

/// Putting a flag on a square without a mine, or taking it off, does not
/// change whether every mine is flagged.
pub proof fn flag_on_safe_square_keeps_outcome(g0: &Game, g1: &Game, x: int, y: int)
    requires
        g0.wf(),
        g0.in_grid(x, y),
        !g0.cell_at(x, y).mine,
        g1.cells@ == g0.cells@.update(g0.idx(x, y), toggled(g0.cell_at(x, y))),
    ensures
        g1.all_mines_flagged() == g0.all_mines_flagged(),
{
    crate::game::lemma_index_in_bounds(g0.width as int, g0.height as int, x, y);
    let i = g0.idx(x, y);
    if g0.all_mines_flagged() {
        assert forall|k: int| 0 <= k < g1.cells@.len() && (#[trigger] g1.cells@[k]).mine implies g1.cells@[k].state
            == CellState::Flagged by {
            assert(k != i);
            assert(g0.cells@[k] == g1.cells@[k]);
        }
    }
    if g1.all_mines_flagged() {
        assert forall|k: int| 0 <= k < g0.cells@.len() && (#[trigger] g0.cells@[k]).mine implies g0.cells@[k].state
            == CellState::Flagged by {
            assert(k != i);
            assert(g0.cells@[k] == g1.cells@[k]);
        }
    }
}

} // verus!
