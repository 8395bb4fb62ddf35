use vstd::prelude::*;

use crate::cell::{glyph_of, CellState};
use crate::game::Game;

verus! {

pub const CORNER_TL: char = '┌';

pub const CORNER_TR: char = '┐';

pub const CORNER_BL: char = '└';

pub const CORNER_BR: char = '┘';

pub const BORDER_HORIZONTAL: char = '─';

pub const BORDER_VERTICAL: char = '│';

/// `n` copies of `c`.
pub open spec fn repeated(c: char, n: nat) -> Seq<char> {
    Seq::new(n, |_i: int| c)
}

/// A row of a box: `left`, then `inner`, then `right`.
pub open spec fn framed(left: char, inner: Seq<char>, right: char) -> Seq<char> {
    seq![left] + inner + seq![right]
}

/// The digit that shows a count from 1 to 8.
pub open spec fn digit_of(n: nat) -> char {
    ('0' as u32 + n) as char
}

/// Terminal position, 1-based and inside the border, of the square `(x, y)`.
pub fn screen_position(x: usize, y: usize) -> (r: (u16, u16))
    requires
        x + 2 <= u16::MAX,
        y + 2 <= u16::MAX,
    ensures
        r.0 == x + 2,
        r.1 == y + 2,
{
    (x as u16 + 2, y as u16 + 2)
}

impl Game {
    /// What the square `(x, y)` shows: its glyph, or the number of mines around
    /// it once it is uncovered safely and that number is not zero.
    pub open spec fn shown_at(&self, x: int, y: int) -> char {
        let c = self.cell_at(x, y);
        if c.state == CellState::Revealed && !c.mine && self.mines_around(x, y) > 0 {
            digit_of(self.mines_around(x, y))
        } else {
            glyph_of(c)
        }
    }

    /// The row `y` of the board as it is shown, without the border.
    pub open spec fn shown_row(&self, y: int) -> Seq<char> {
        Seq::new(self.width as nat, |x: int| self.shown_at(x, y))
    }

    /// The board as it is shown, border included, row by row.
    pub open spec fn shown_board(&self) -> Seq<Seq<char>> {
        Seq::new(
            (self.height + 2) as nat,
            |r: int|
                if r == 0 {
                    framed(CORNER_TL, repeated(BORDER_HORIZONTAL, self.width as nat), CORNER_TR)
                } else if r == self.height + 1 {
                    framed(CORNER_BL, repeated(BORDER_HORIZONTAL, self.width as nat), CORNER_BR)
                } else {
                    framed(BORDER_VERTICAL, self.shown_row(r - 1), BORDER_VERTICAL)
                },
        )
    }

    /// What the square `(x, y)` shows.
    pub fn glyph_at(&self, x: usize, y: usize) -> (r: char)
        requires
            self.wf(),
            x < self.width,
            y < self.height,
        ensures
            r == self.shown_at(x as int, y as int),
    {
        let i = self.position_index(x, y);
        let c = self.cells[i];
        if c.state == CellState::Revealed && !c.mine {
            let n = self.mine_count_around(x, y);
            if n > 0 {
                return ('0' as u8 + n) as char;
            }
        }
        c.as_char()
    }

    /// The whole board as it is shown, border included, one row of characters
    /// per terminal line.
    pub fn board_rows(&self) -> (r: Vec<Vec<char>>)
        requires
            self.wf(),
        ensures
            r@.len() == self.shown_board().len(),
            forall|i: int| 0 <= i < r@.len() ==> (#[trigger] r@[i])@ == self.shown_board()[i],
    {
        let mut rows: Vec<Vec<char>> = Vec::new();
        rows.push(border_row(CORNER_TL, self.width, CORNER_TR));
        let mut y: usize = 0;
        while y < self.height
            invariant
                self.wf(),
                y <= self.height,
                rows@.len() == y + 1,
                forall|i: int|
                    0 <= i < rows@.len() ==> (#[trigger] rows@[i])@ == self.shown_board()[i],
            decreases self.height - y,
        {
            let mut row: Vec<char> = Vec::new();
            row.push(BORDER_VERTICAL);
            let mut x: usize = 0;
            while x < self.width
                invariant
                    self.wf(),
                    y < self.height,
                    x <= self.width,
                    row@ == seq![BORDER_VERTICAL] + self.shown_row(y as int).take(x as int),
                decreases self.width - x,
            {
                let g = self.glyph_at(x, y);
                row.push(g);
                x = x + 1;
                proof {
                    assert(row@ =~= seq![BORDER_VERTICAL] + self.shown_row(y as int).take(x as int));
                }
            }
            row.push(BORDER_VERTICAL);
            proof {
                assert(self.shown_row(y as int).take(self.width as int) =~= self.shown_row(y as int));
                assert(row@ =~= self.shown_board()[y + 1]);
            }
            rows.push(row);
            y = y + 1;
        }
        rows.push(border_row(CORNER_BL, self.width, CORNER_BR));
        proof {
            assert(rows@[rows@.len() - 1]@ == self.shown_board()[self.height + 1]);
        }
        rows
    }
}

/// Length of the longest of `lines`.
pub open spec fn longest(lines: Seq<Seq<char>>) -> nat
    decreases lines.len(),
{
    if lines.len() == 0 {
        0
    } else {
        let rest = longest(lines.drop_last());
        if lines.last().len() > rest {
            lines.last().len()
        } else {
            rest
        }
    }
}

/// `line` padded with spaces to `width`, centred; an odd space goes to the right.
pub open spec fn centered(line: Seq<char>, width: nat) -> Seq<char> {
    let pad = width - line.len();
    repeated(' ', (pad / 2) as nat) + line + repeated(' ', (pad - pad / 2) as nat)
}

/// A box drawn around `lines`, each line centred, as rows of characters.
pub open spec fn text_box(lines: Seq<Seq<char>>) -> Seq<Seq<char>> {
    let w = longest(lines);
    Seq::new(
        lines.len() + 2,
        |r: int|
            if r == 0 {
                framed(CORNER_TL, repeated(BORDER_HORIZONTAL, w), CORNER_TR)
            } else if r == lines.len() + 1 {
                framed(CORNER_BL, repeated(BORDER_HORIZONTAL, w), CORNER_BR)
            } else {
                framed(BORDER_VERTICAL, centered(lines[r - 1], w), BORDER_VERTICAL)
            },
    )
}

proof fn lemma_longest_bounds(lines: Seq<Seq<char>>, i: int)
    requires
        0 <= i < lines.len(),
    ensures
        lines[i].len() <= longest(lines),
    decreases lines.len(),
{
    if i < lines.len() - 1 {
        lemma_longest_bounds(lines.drop_last(), i);
    }
}

/// Draws a box around the given lines of text, each centred in it.
pub fn textbox(lines: &Vec<Vec<char>>) -> (r: Vec<Vec<char>>)
    requires
        lines@.len() >= 1,
    ensures
        r@.len() == text_box(lines@.map_values(|l: Vec<char>| l@)).len(),
        forall|i: int|
            0 <= i < r@.len() ==> (#[trigger] r@[i])@ == text_box(
                lines@.map_values(|l: Vec<char>| l@),
            )[i],
{
    let ghost text = lines@.map_values(|l: Vec<char>| l@);
    let mut width: usize = 0;
    let mut i: usize = 0;
    while i < lines.len()
        invariant
            i <= lines@.len(),
            text == lines@.map_values(|l: Vec<char>| l@),
            width == longest(text.take(i as int)),
        decreases lines@.len() - i,
    {
        proof {
            assert(text.take(i + 1).drop_last() =~= text.take(i as int));
        }
        if lines[i].len() > width {
            width = lines[i].len();
        }
        i = i + 1;
    }
    proof {
        assert(text.take(lines@.len() as int) =~= text);
    }
    let mut rows: Vec<Vec<char>> = Vec::new();
    rows.push(border_row(CORNER_TL, width, CORNER_TR));
    let mut k: usize = 0;
    while k < lines.len()
        invariant
            k <= lines@.len(),
            text == lines@.map_values(|l: Vec<char>| l@),
            width == longest(text),
            rows@.len() == k + 1,
            forall|j: int| 0 <= j < rows@.len() ==> (#[trigger] rows@[j])@ == text_box(text)[j],
        decreases lines@.len() - k,
    {
        proof {
            lemma_longest_bounds(text, k as int);
        }
        let len = lines[k].len();
        let pad = width - len;
        let mut row: Vec<char> = Vec::new();
        row.push(BORDER_VERTICAL);
        push_repeated(&mut row, ' ', pad / 2);
        let mut c: usize = 0;
        while c < len
            invariant
                c <= len,
                k < lines@.len(),
                len == lines@[k as int]@.len(),
                row@ == seq![BORDER_VERTICAL] + repeated(' ', (pad / 2) as nat)
                    + lines@[k as int]@.take(c as int),
            decreases len - c,
        {
            row.push(lines[k][c]);
            c = c + 1;
            proof {
                assert(row@ =~= seq![BORDER_VERTICAL] + repeated(' ', (pad / 2) as nat)
                    + lines@[k as int]@.take(c as int));
            }
        }
        push_repeated(&mut row, ' ', pad - pad / 2);
        row.push(BORDER_VERTICAL);
        proof {
            assert(lines@[k as int]@.take(len as int) =~= lines@[k as int]@);
            assert(text[k as int] == lines@[k as int]@);
            assert(row@ =~= text_box(text)[k + 1]);
        }
        rows.push(row);
        k = k + 1;
    }
    rows.push(border_row(CORNER_BL, width, CORNER_BR));
    proof {
        assert(rows@[rows@.len() - 1]@ == text_box(text)[lines@.len() as int + 1]);
    }
    rows
}

/// `left`, `width` horizontal lines, `right`.
fn border_row(left: char, width: usize, right: char) -> (r: Vec<char>)
    ensures
        r@ == framed(left, repeated(BORDER_HORIZONTAL, width as nat), right),
{
    let mut r: Vec<char> = Vec::new();
    r.push(left);
    push_repeated(&mut r, BORDER_HORIZONTAL, width);
    r.push(right);
    proof {
        assert(r@ =~= framed(left, repeated(BORDER_HORIZONTAL, width as nat), right));
    }
    r
}

/// Appends `n` copies of `c`.
fn push_repeated(v: &mut Vec<char>, c: char, n: usize)
    ensures
        final(v)@ == old(v)@ + repeated(c, n as nat),
{
    let mut i: usize = 0;
    while i < n
        invariant
            i <= n,
            v@ == old(v)@ + repeated(c, i as nat),
        decreases n - i,
    {
        v.push(c);
        i = i + 1;
        proof {
            assert(v@ =~= old(v)@ + repeated(c, i as nat));
        }
    }
}

} // verus!
