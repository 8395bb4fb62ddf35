use vstd::prelude::*;

use crate::cell::{toggled, CellState};
use crate::game::{Game, Status};
use crate::play::{moved, Direction};
use crate::setup::{MINE_BELOW, MINE_DRAW_END};

verus! {

/// A key the player pressed, as far as the game cares.
#[derive(Clone, Copy, Debug, PartialEq, Eq, Structural)]
pub enum Key {
    Move(Direction),
    Reveal,
    Flag,
    Restart,
    Quit,
    Other,
}

/// What the screen has to show after a key.
#[derive(Debug)]
pub enum Outcome {
    /// Nothing changed.
    Ignored,
    /// Only the cursor moved.
    Moved,
    /// The square under the cursor changed its flag.
    Flagged,
    /// These squares were uncovered, in this order.
    Uncovered(Vec<(usize, usize)>),
    /// A new board: draw everything again.
    Restarted,
    /// Every mine is flagged.
    Won,
    /// A mine was revealed.
    Lost,
    /// The player leaves.
    Quit,
}

impl Game {
    /// `reveal_post` looks at the cells of the next board and at nothing else.
    proof fn lemma_reveal_post_cells_only(
        &self,
        a: &Game,
        b: &Game,
        x: int,
        y: int,
        order: Seq<(usize, usize)>,
    )
        requires
            self.reveal_post(a, x, y, order),
            a.cells@ == b.cells@,
            a.width == b.width,
            a.height == b.height,
        ensures
            self.reveal_post(b, x, y, order),
    {
        assert forall|cx: int, cy: int| #[trigger] self.newly_revealed(b, cx, cy) == self.newly_revealed(a, cx, cy) by {}
        assert forall|nx: int, ny: int| #[trigger] b.cell_at(nx, ny) == a.cell_at(nx, ny) by {}
    }

    /// The status after an action while playing: won once every mine is flagged.
    pub open spec fn settled_status(&self) -> Status {
        if self.all_mines_flagged() {
            Status::Won
        } else {
            Status::Playing
        }
    }

    /// Handles one key. While playing, arrows move the cursor, reveal and flag
    /// act on the square under the cursor, and the win is checked after each of
    /// them and after any other key but quit. Once the game is won or lost only
    /// restart and quit do anything. Restart draws a new board of the same size
    /// and difficulty, puts the cursor at the origin and checks the win too.
    pub fn handle_key(&mut self, key: Key) -> (r: Outcome)
        requires
            old(self).wf(),
            old(self).difficulty < MINE_DRAW_END,
        ensures
            final(self).wf(),
            final(self).width == old(self).width,
            final(self).height == old(self).height,
            final(self).difficulty == old(self).difficulty,
            key == Key::Quit ==> {
                &&& r is Quit
                &&& final(self).cells@ == old(self).cells@
                &&& final(self).cursor == old(self).cursor
                &&& final(self).status == old(self).status
            },
            key == Key::Restart ==> {
                &&& final(self).cursor == (0usize, 0usize)
                &&& forall|i: int|
                    0 <= i < final(self).cells@.len() ==> (#[trigger] final(self).cells@[i]).state
                        == CellState::Hidden
                &&& forall|i: int|
                    0 <= i < final(self).cells@.len() && (#[trigger] final(self).cells@[i]).mine
                        ==> old(self).difficulty < MINE_BELOW
                &&& final(self).status == final(self).settled_status()
                &&& if final(self).status == Status::Won {
                    r is Won
                } else {
                    r is Restarted
                }
            },
            key == Key::Other && old(self).status == Status::Playing ==> {
                &&& final(self).cells@ == old(self).cells@
                &&& final(self).cursor == old(self).cursor
                &&& final(self).status == final(self).settled_status()
                &&& if final(self).status == Status::Won {
                    r is Won
                } else {
                    r is Ignored
                }
            },
            old(self).status != Status::Playing && key != Key::Quit && key != Key::Restart ==> {
                &&& r is Ignored
                &&& final(self).cells@ == old(self).cells@
                &&& final(self).cursor == old(self).cursor
                &&& final(self).status == old(self).status
            },
            old(self).status == Status::Playing ==> match key {
                Key::Move(dir) => {
                    &&& final(self).cursor == moved(
                        old(self).cursor,
                        old(self).width,
                        old(self).height,
                        dir,
                    )
                    &&& final(self).cells@ == old(self).cells@
                    &&& final(self).status == final(self).settled_status()
                    &&& if final(self).status == Status::Won {
                        r is Won
                    } else {
                        r is Moved
                    }
                },
                Key::Flag => {
                    &&& final(self).cursor == old(self).cursor
                    &&& final(self).cells@ == old(self).cells@.update(
                        old(self).idx(old(self).cursor.0 as int, old(self).cursor.1 as int),
                        toggled(old(self).cell_at(old(self).cursor.0 as int, old(self).cursor.1 as int)),
                    )
                    &&& final(self).status == final(self).settled_status()
                    &&& if final(self).status == Status::Won {
                        r is Won
                    } else {
                        r is Flagged
                    }
                },
                Key::Reveal => {
                    &&& final(self).cursor == old(self).cursor
                    &&& if old(self).steps_on_mine(
                        old(self).cursor.0 as int,
                        old(self).cursor.1 as int,
                    ) {
                        &&& final(self).status == Status::Lost
                        &&& final(self).cells@ == old(self).cells@
                        &&& r is Lost
                    } else {
                        &&& final(self).status == final(self).settled_status()
                        &&& match r {
                            Outcome::Uncovered(order) => final(self).status == Status::Playing
                                && old(self).reveal_post(
                                final(self),
                                old(self).cursor.0 as int,
                                old(self).cursor.1 as int,
                                order@,
                            ),
                            Outcome::Won => final(self).status == Status::Won && exists|
                                order: Seq<(usize, usize)>,
                            |
                                old(self).reveal_post(
                                    final(self),
                                    old(self).cursor.0 as int,
                                    old(self).cursor.1 as int,
                                    order,
                                ),
                            _ => false,
                        }
                    }
                },
                _ => true,
            },
    {
        match key {
            Key::Quit => Outcome::Quit,
            Key::Restart => {
                self.restart();
                if self.did_win() {
                    self.status = Status::Won;
                    Outcome::Won
                } else {
                    Outcome::Restarted
                }
            },
            Key::Other => {
                if self.status == Status::Playing && self.did_win() {
                    self.status = Status::Won;
                    Outcome::Won
                } else {
                    Outcome::Ignored
                }
            },
            _ => {
                if self.status != Status::Playing {
                    return Outcome::Ignored;
                }
                let (x, y) = self.cursor;
                let r = match key {
                    Key::Move(dir) => {
                        self.move_cursor(dir);
                        Outcome::Moved
                    },
                    Key::Flag => {
                        self.toggle_flag(x, y);
                        Outcome::Flagged
                    },
                    _ => {
                        let ghost before = *self;
                        let order = self.uncover(x, y);
                        if self.status == Status::Lost {
                            return Outcome::Lost;
                        }
                        if self.did_win() {
                            let ghost mid = *self;
                            self.status = Status::Won;
                            proof {
                                assert(before.reveal_post(&mid, x as int, y as int, order@));
                                before.lemma_reveal_post_cells_only(&mid, self, x as int, y as int, order@);
                            }
                            return Outcome::Won;
                        }
                        Outcome::Uncovered(order)
                    },
                };
                if self.did_win() {
                    self.status = Status::Won;
                    Outcome::Won
                } else {
                    r
                }
            },
        }
    }
}

} // verus!
