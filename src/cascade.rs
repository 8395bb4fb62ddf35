use vstd::prelude::*;
use vstd::set_lib::{lemma_int_range, lemma_len_subset, set_int_range};

use crate::cell::{Cell, CellState};
use crate::game::{lemma_index_in_bounds, lemma_index_injective, Game, Status};

verus! {

impl Game {
    /// Size, cursor and difficulty are those of `other`.
    pub open spec fn same_setup(&self, other: &Game) -> bool {
        &&& self.width == other.width
        &&& self.height == other.height
        &&& self.cursor == other.cursor
        &&& self.difficulty == other.difficulty
    }

    /// `(x, y)` is on the board, covered here and uncovered in `next`.
    pub open spec fn newly_revealed(&self, next: &Game, x: int, y: int) -> bool {
        &&& self.in_grid(x, y)
        &&& self.cell_at(x, y).state == CellState::Hidden
        &&& next.cell_at(x, y).state == CellState::Revealed
    }

    /// `next` differs from `self` only in covered mine-free cells that it uncovers.
    pub open spec fn only_uncovers(&self, next: &Game) -> bool {
        &&& next.cells@.len() == self.cells@.len()
        &&& forall|i: int|
            0 <= i < self.cells@.len() ==> #[trigger] next.cells@[i] == self.cells@[i] || (
            self.cells@[i] == (Cell { mine: false, state: CellState::Hidden }) && next.cells@[i]
                == (Cell { mine: false, state: CellState::Revealed }))
    }

    /// Every covered neighbour of an uncovered square with no mine around it is
    /// uncovered too.
    pub open spec fn cascade_closed(&self, next: &Game) -> bool {
        forall|cx: int, cy: int, nx: int, ny: int|
            #![trigger self.newly_revealed(next, cx, cy), self.is_neighbor(cx, cy, nx, ny)]
            self.newly_revealed(next, cx, cy) && self.mines_around(cx, cy) == 0
                && self.is_neighbor(cx, cy, nx, ny) && self.cell_at(nx, ny).state
                == CellState::Hidden ==> next.cell_at(nx, ny).state == CellState::Revealed
    }

    /// `order` lists each uncovered square once, starting at `(x, y)`; every later
    /// square lies next to an earlier one that has no mine around it.
    pub open spec fn cascade_order(
        &self,
        next: &Game,
        x: int,
        y: int,
        order: Seq<(usize, usize)>,
    ) -> bool {
        &&& order.len() >= 1
        &&& order[0] == (x as usize, y as usize)
        &&& order.no_duplicates()
        &&& forall|i: int|
            0 <= i < order.len() ==> self.newly_revealed(
                next,
                (#[trigger] order[i]).0 as int,
                order[i].1 as int,
            )
        &&& forall|cx: int, cy: int|
            #[trigger] self.newly_revealed(next, cx, cy) ==> order.contains(
                (cx as usize, cy as usize),
            )
        &&& forall|i: int| 0 < i < order.len() ==> #[trigger] self.spread_from_earlier(order, i)
    }

    /// `order[i]` lies next to an earlier entry that has no mine around it.
    pub open spec fn spread_from_earlier(&self, order: Seq<(usize, usize)>, i: int) -> bool {
        exists|j: int| 0 <= j < i && #[trigger] self.spreads_to(order[j], order[i])
    }

    /// The cascade can pass from `a` to `b`: they are neighbours and `a` has no
    /// mine around it.
    pub open spec fn spreads_to(&self, a: (usize, usize), b: (usize, usize)) -> bool {
        &&& self.is_neighbor(a.0 as int, a.1 as int, b.0 as int, b.1 as int)
        &&& self.mines_around(a.0 as int, a.1 as int) == 0
    }

    /// The square holds a mine that is still covered.
    pub open spec fn steps_on_mine(&self, x: int, y: int) -> bool {
        self.cell_at(x, y).state == CellState::Hidden && self.cell_at(x, y).mine
    }

    /// What revealing `(x, y)` does to the board. An uncovered or flagged square,
    /// or a covered mine: nothing. A covered safe square: it is uncovered, and the
    /// cascade spreads from every uncovered square with no mine around it.
    pub open spec fn reveal_post(
        &self,
        next: &Game,
        x: int,
        y: int,
        order: Seq<(usize, usize)>,
    ) -> bool {
        if self.cell_at(x, y).state != CellState::Hidden || self.cell_at(x, y).mine {
            &&& next.cells@ == self.cells@
            &&& order.len() == 0
        } else {
            &&& self.only_uncovers(next)
            &&& self.cascade_closed(next)
            &&& self.cascade_order(next, x, y, order)
        }
    }
}

impl Game {
    /// Reveals `(x, y)` and lets the cascade spread from every uncovered square
    /// with no mine around it. Returns the uncovered squares in the order they
    /// were uncovered; stepping on a mine loses the game and uncovers nothing.
    pub fn uncover(&mut self, x: usize, y: usize) -> (order: Vec<(usize, usize)>)
        requires
            old(self).wf(),
            x < old(self).width,
            y < old(self).height,
        ensures
            final(self).wf(),
            final(self).same_setup(old(self)),
            old(self).reveal_post(final(self), x as int, y as int, order@),
            final(self).status == if old(self).steps_on_mine(x as int, y as int) {
                Status::Lost
            } else {
                old(self).status
            },
    {
        let i = self.position_index(x, y);
        let c = self.cells[i];
        if c.state != CellState::Hidden {
            return Vec::new();
        }
        if c.mine {
            self.status = Status::Lost;
            return Vec::new();
        }
        let ghost g0: Game = *self;
        let ghost n: int = g0.cells@.len() as int;
        self.cells.set(i, Cell { mine: false, state: CellState::Revealed });
        let mut order: Vec<(usize, usize)> = Vec::new();
        order.push((x, y));
        let ghost mut seen: Set<int> = set![i as int];
        let mut stack: Vec<(usize, usize)> = Vec::new();
        let ghost mut from: Seq<int> = Seq::empty();
        proof {
            self.lemma_uncover_keeps_counts(&g0);
            g0.lemma_cell_unchanged_elsewhere(self, i as int);
            assert(order@[0] == (x, y));
            assert forall|cx: int, cy: int|
                #[trigger] g0.newly_revealed(self, cx, cy) implies order@.contains(
                    (cx as usize, cy as usize),
                ) by {
                lemma_index_injective(g0.width as int, g0.height as int, cx, cy, x as int, y as int);
            }
        }
        let count = self.mine_count_around(x, y);
        if count == 0 {
            stack = self.neighbors(x, y);
            proof {
                from = Seq::new(stack@.len(), |_k: int| 0int);
            }
        }
        proof {
            assert forall|k: int, nx: int, ny: int|
                #![trigger order@[k], g0.is_neighbor(order@[k].0 as int, order@[k].1 as int, nx, ny)]
                0 <= k < order@.len() && g0.mines_around(order@[k].0 as int, order@[k].1 as int)
                    == 0 && g0.is_neighbor(order@[k].0 as int, order@[k].1 as int, nx, ny)
                    && g0.cell_at(nx, ny).state == CellState::Hidden implies self.cell_at(
                    nx,
                    ny,
                ).state == CellState::Revealed || stack@.contains((nx as usize, ny as usize)) by {
                assert(self.mines_in_window(x as int, y as int, 9) == g0.mines_in_window(
                    x as int,
                    y as int,
                    9,
                ));
                assert(self.is_neighbor(x as int, y as int, nx, ny));
            }
        }
        while stack.len() > 0
            invariant
                g0.wf(),
                self.same_setup(&g0),
                self.status == g0.status,
                n == g0.cells@.len(),
                g0.only_uncovers(self),
                order@.len() >= 1,
                order@[0] == (x, y),
                order@.no_duplicates(),
                forall|k: int|
                    0 <= k < order@.len() ==> g0.newly_revealed(
                        self,
                        (#[trigger] order@[k]).0 as int,
                        order@[k].1 as int,
                    ),
                forall|cx: int, cy: int|
                    #[trigger] g0.newly_revealed(self, cx, cy) ==> order@.contains(
                        (cx as usize, cy as usize),
                    ),
                forall|k: int| 0 < k < order@.len() ==> #[trigger] g0.spread_from_earlier(order@, k),
                from.len() == stack@.len(),
                forall|k: int|
                    0 <= k < stack@.len() ==> 0 <= #[trigger] from[k] < order@.len()
                        && g0.spreads_to(order@[from[k]], stack@[k]),
                forall|k: int, nx: int, ny: int|
                    #![trigger order@[k], g0.is_neighbor(order@[k].0 as int, order@[k].1 as int, nx, ny)]
                    0 <= k < order@.len() && g0.mines_around(order@[k].0 as int, order@[k].1 as int)
                        == 0 && g0.is_neighbor(order@[k].0 as int, order@[k].1 as int, nx, ny)
                        && g0.cell_at(nx, ny).state == CellState::Hidden ==> self.cell_at(
                        nx,
                        ny,
                    ).state == CellState::Revealed || stack@.contains((nx as usize, ny as usize)),
                seen.finite(),
                forall|k: int|
                    #[trigger] seen.contains(k) <==> 0 <= k < n && g0.cells@[k].state
                        == CellState::Hidden && self.cells@[k].state == CellState::Revealed,
            decreases (n - seen.len()) * 10 + stack@.len(),
        {
            proof {
                lemma_int_range(0, n);
                lemma_len_subset(seen, set_int_range(0, n));
            }
            let ghost stack0 = stack@;
            let ghost from0 = from;
            let p = match stack.pop() {
                Some(p) => p,
                None => (x, y),
            };
            proof {
                from = from.drop_last();
                assert(stack@ == stack0.drop_last());
                assert(p == stack0.last());
                let last = stack0.len() - 1;
                assert(0 <= from0[last] < order@.len());
                assert(g0.spreads_to(order@[from0[last]], stack0[last]));
            }
            let ghost s0: Game = *self;
            let ghost order_top = order@;
            let ghost mut added: Seq<(usize, usize)> = Seq::empty();
            let j = self.position_index(p.0, p.1);
            if self.cells[j].state == CellState::Hidden {
                let ghost parent = order@[from0.last()];
                let ghost before = *self;
                proof {
                    g0.lemma_zero_count_no_mine(
                        parent.0 as int,
                        parent.1 as int,
                        p.0 as int,
                        p.1 as int,
                    );
                    assert(g0.cells@[j as int] == self.cells@[j as int]);
                    assert(!seen.contains(j as int));
                }
                self.cells.set(j, Cell { mine: false, state: CellState::Revealed });
                let ghost order0 = order@;
                order.push(p);
                proof {
                    seen = seen.insert(j as int);
                    before.lemma_cell_unchanged_elsewhere(self, j as int);
                    assert forall|k: int| 0 <= k < order@.len() implies g0.newly_revealed(
                        self,
                        (#[trigger] order@[k]).0 as int,
                        order@[k].1 as int,
                    ) by {
                        if k < order@.len() - 1 {
                            let q = order0[k];
                            assert(g0.newly_revealed(&before, q.0 as int, q.1 as int));
                            assert(before.in_grid(q.0 as int, q.1 as int));
                        }
                    }
                    self.lemma_uncover_keeps_counts(&g0);
                    assert(g0.spreads_to(order@[from0.last()], order@[order@.len() - 1]));
                    assert(g0.spread_from_earlier(order@, order@.len() - 1));
                    assert forall|k: int| 0 < k < order@.len() implies #[trigger] g0.spread_from_earlier(
                        order@,
                        k,
                    ) by {
                        if k < order@.len() - 1 {
                            assert(g0.spread_from_earlier(order0, k));
                            let w = choose|w: int|
                                0 <= w < k && #[trigger] g0.spreads_to(order0[w], order0[k]);
                            assert(order@[w] == order0[w] && order@[k] == order0[k]);
                            assert(g0.spreads_to(order@[w], order@[k]));
                        }
                    }
                    assert forall|cx: int, cy: int|
                        #[trigger] g0.newly_revealed(self, cx, cy) implies order@.contains(
                            (cx as usize, cy as usize),
                        ) by {
                        if g0.idx(cx, cy) == j {
                            lemma_index_injective(
                                g0.width as int,
                                g0.height as int,
                                cx,
                                cy,
                                p.0 as int,
                                p.1 as int,
                            );
                            assert(order@[order@.len() - 1] == (cx as usize, cy as usize));
                        } else {
                            assert(before.in_grid(cx, cy));
                            assert(g0.newly_revealed(&before, cx, cy));
                            let w = choose|w: int|
                                0 <= w < order0.len() && order0[w] == (cx as usize, cy as usize);
                            assert(order@[w] == order0[w]);
                        }
                    }
                }
                let count = self.mine_count_around(p.0, p.1);
                if count == 0 {
                    let mut nb = self.neighbors(p.0, p.1);
                    let ghost m: int = order@.len() - 1;
                    proof {
                        self.lemma_window_at_most(p.0 as int, p.1 as int, 9);
                        from = from + Seq::new(nb@.len(), |_k: int| m);
                        added = nb@;
                    }
                    stack.append(&mut nb);
                }
            }
            proof {
                lemma_int_range(0, n);
                lemma_len_subset(seen, set_int_range(0, n));
                assert(stack@ == stack0.drop_last() + added);
                s0.lemma_cell_unchanged_elsewhere(self, j as int);
                lemma_index_in_bounds(g0.width as int, g0.height as int, p.0 as int, p.1 as int);
                assert(self.cell_at(p.0 as int, p.1 as int).state == CellState::Revealed
                    || g0.cell_at(p.0 as int, p.1 as int).state != CellState::Hidden);
                assert forall|k: int, nx: int, ny: int|
                    #![trigger order@[k], g0.is_neighbor(order@[k].0 as int, order@[k].1 as int, nx, ny)]
                    0 <= k < order@.len() && g0.mines_around(order@[k].0 as int, order@[k].1 as int)
                        == 0 && g0.is_neighbor(order@[k].0 as int, order@[k].1 as int, nx, ny)
                        && g0.cell_at(nx, ny).state == CellState::Hidden implies self.cell_at(
                        nx,
                        ny,
                    ).state == CellState::Revealed || stack@.contains((nx as usize, ny as usize)) by {
                    let q = (nx as usize, ny as usize);
                    if k < order_top.len() {
                        assert(order_top[k] == order@[k]);
                        assert(s0.cell_at(nx, ny).state == CellState::Revealed || stack0.contains(q));
                        if s0.cell_at(nx, ny).state != CellState::Revealed {
                            let w = choose|w: int| 0 <= w < stack0.len() && stack0[w] == q;
                            if w < stack0.len() - 1 {
                                assert(stack@[w] == q);
                            } else {
                                assert(q == p);
                            }
                        } else if g0.idx(nx, ny) != j {
                            assert(s0.in_grid(nx, ny));
                            assert(self.cell_at(nx, ny) == s0.cell_at(nx, ny));
                        }
                    } else {
                        assert(order@[k] == p);
                        assert(self.mines_in_window(p.0 as int, p.1 as int, 9) == g0.mines_in_window(
                            p.0 as int,
                            p.1 as int,
                            9,
                        ));
                        assert(self.is_neighbor(p.0 as int, p.1 as int, nx, ny));
                        let w = choose|w: int| 0 <= w < added.len() && added[w] == q;
                        assert(stack@[stack0.len() - 1 + w] == q);
                    }
                }
            }
        }
        order
    }

    /// Uncovering leaves every mine where it was, so counts stay the same.
    proof fn lemma_uncover_keeps_counts(&self, g0: &Game)
        requires
            g0.wf(),
            g0.only_uncovers(self),
            self.width == g0.width,
            self.height == g0.height,
        ensures
            forall|x: int, y: int, k: nat|
                #[trigger] self.mines_in_window(x, y, k) == g0.mines_in_window(x, y, k),
    {
        assert forall|x: int, y: int, k: nat|
            #[trigger] self.mines_in_window(x, y, k) == g0.mines_in_window(x, y, k) by {
            assert forall|i: int| 0 <= i < self.cells@.len() implies (#[trigger] self.cells@[i]).mine
                == g0.cells@[i].mine by {
                assert(g0.cells@[i] == self.cells@[i] || !self.cells@[i].mine);
            }
            self.lemma_same_mines(g0, x, y, k);
        }
    }

    /// Changing the cell at index `i` changes no other square of the board.
    proof fn lemma_cell_unchanged_elsewhere(&self, next: &Game, i: int)
        requires
            self.wf(),
            next.width == self.width,
            next.height == self.height,
            next.cells@.len() == self.cells@.len(),
            forall|k: int| 0 <= k < self.cells@.len() && k != i ==> next.cells@[k] == self.cells@[k],
        ensures
            forall|x: int, y: int|
                #[trigger] self.in_grid(x, y) && self.idx(x, y) != i ==> next.cell_at(x, y)
                    == self.cell_at(x, y),
    {
        assert forall|x: int, y: int|
            #[trigger] self.in_grid(x, y) && self.idx(x, y) != i implies next.cell_at(x, y)
                == self.cell_at(x, y) by {
            lemma_index_in_bounds(self.width as int, self.height as int, x, y);
        }
    }
}

} // verus!
