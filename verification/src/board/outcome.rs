//! Win detection: only the lines through the latest stone are looked at.

use vstd::prelude::*;
use core::ops::Neg;
use crate::board::Board;
use crate::position::{Player, lemma_grid_size, lemma_coordinates, lemma_index_of, lemma_five_owned, lemma_short_line};

verus! {

impl<const SIDE_LENGTH: usize> Board<SIDE_LENGTH> {
    /// What the grid holds at `(row, col)`, in terms of the view.
    proof fn lemma_cell_of_view(&self, row: int, col: int)
        requires
            0 <= row < SIDE_LENGTH,
            0 <= col < SIDE_LENGTH,
        ensures
            self@.on_grid(row, col),
            self@.cells[row * SIDE_LENGTH + col] == self.cells@[row]@[col],
    {
        lemma_index_of(row, col, SIDE_LENGTH as int);
    }

    /// Whether the player who moved last has five in a row through
    /// `(row, col)` along the direction `(d_x, d_y)`. The stones are counted
    /// outwards from the cell, first forwards and then backwards, and the
    /// count stops at five.
    fn row_along(&self, d_x: isize, d_y: isize, row: usize, col: usize) -> (five: bool)
        requires
            self@.side <= 19,
            -1 <= d_x <= 1,
            -1 <= d_y <= 1,
            d_x != 0 || d_y != 0,
            self@.owns(self@.mover(), row as int, col as int),
        ensures
            five == self@.five_on_axis(
                self@.mover(),
                row as int,
                col as int,
                d_x as int,
                d_y as int,
            ),
    {
        let ghost p = self@.mover();
        let ghost r = row as int;
        let ghost c = col as int;
        let ghost dr = d_x as int;
        let ghost dc = d_y as int;
        let ghost mut ahead: int = 0;
        let ghost mut behind: int = 0;
        let mut count: u8 = 1;
        let last_piece = self.turn().neg();

        if !(d_x < 0 && row == 0 || d_y < 0 && col == 0 || d_x > 0 && row == SIDE_LENGTH - 1 || d_y
            > 0 && col == SIDE_LENGTH - 1) {
            let mut row_u: isize = row as isize + d_x;
            let mut col_u: isize = col as isize + d_y;
            loop
                invariant_except_break
                    0 <= row_u < SIDE_LENGTH,
                    0 <= col_u < SIDE_LENGTH,
                    row_u == r + crate::position::along(dr, ahead + 1),
                    col_u == c + crate::position::along(dc, ahead + 1),
                invariant
                    SIDE_LENGTH <= 19,
                    -1 <= d_x <= 1,
                    -1 <= d_y <= 1,
                    d_x != 0 || d_y != 0,
                    r == row,
                    c == col,
                    dr == d_x,
                    dc == d_y,
                    p == self@.mover(),
                    last_piece == p,
                    self@.owns(p, r, c),
                    0 <= ahead,
                    count == 1 + ahead,
                    count < 5,
                    forall|s: int| 0 <= s <= ahead ==> self@.owns_along(p, r, c, dr, dc, s),
                ensures
                    !self@.owns_along(p, r, c, dr, dc, ahead + 1),
                decreases 5 - count,
            {
                proof {
                    self.lemma_cell_of_view(row_u as int, col_u as int);
                }
                // count pieces in a direction until we hit a piece of the opposite color or an empty space
                if self.cells[row_u as usize][col_u as usize] != last_piece {
                    break ;
                }
                count += 1;
                proof {
                    ahead = ahead + 1;
                }
                if count == 5 {
                    proof {
                        lemma_five_owned(self@, p, r, c, dr, dc, 0);
                    }
                    return true;
                }
                if d_x < 0 && row_u == 0 || d_y < 0 && col_u == 0 || d_x > 0 && row_u
                    == SIDE_LENGTH as isize - 1 || d_y > 0 && col_u == SIDE_LENGTH as isize - 1 {
                    break ;
                }
                row_u += d_x;
                col_u += d_y;
            }
        }
        if !(d_x > 0 && row == 0 || d_y > 0 && col == 0 || d_x < 0 && row == SIDE_LENGTH - 1 || d_y
            < 0 && col == SIDE_LENGTH - 1) {
            let mut row_d: isize = row as isize - d_x;
            let mut col_d: isize = col as isize - d_y;
            loop
                invariant_except_break
                    0 <= row_d < SIDE_LENGTH,
                    0 <= col_d < SIDE_LENGTH,
                    row_d == r + crate::position::along(dr, -behind - 1),
                    col_d == c + crate::position::along(dc, -behind - 1),
                invariant
                    SIDE_LENGTH <= 19,
                    -1 <= d_x <= 1,
                    -1 <= d_y <= 1,
                    d_x != 0 || d_y != 0,
                    r == row,
                    c == col,
                    dr == d_x,
                    dc == d_y,
                    p == self@.mover(),
                    last_piece == p,
                    0 <= ahead,
                    0 <= behind,
                    count == 1 + ahead + behind,
                    count < 5,
                    forall|s: int| -behind <= s <= ahead ==> self@.owns_along(p, r, c, dr, dc, s),
                    !self@.owns_along(p, r, c, dr, dc, ahead + 1),
                ensures
                    !self@.owns_along(p, r, c, dr, dc, -behind - 1),
                decreases 5 - count,
            {
                proof {
                    self.lemma_cell_of_view(row_d as int, col_d as int);
                }
                // count pieces in -direction until we hit a piece of the opposite color or an empty space
                if self.cells[row_d as usize][col_d as usize] != last_piece {
                    break ;
                }
                count += 1;
                proof {
                    behind = behind + 1;
                }
                if count == 5 {
                    proof {
                        lemma_five_owned(self@, p, r, c, dr, dc, -behind);
                    }
                    return true;
                }
                if d_x > 0 && row_d == 0 || d_y > 0 && col_d == 0 || d_x < 0 && row_d
                    == SIDE_LENGTH as isize - 1 || d_y < 0 && col_d == SIDE_LENGTH as isize - 1 {
                    break ;
                }
                row_d -= d_x;
                col_d -= d_y;
            }
        }
        proof {
            lemma_short_line(self@, p, r, c, dr, dc, behind, ahead);
        }
        false
    }

    /// Returns the outcome of the game, if any.
    ///
    /// `None` means the game is still in progress.
    /// `Some(Player::Empty)` means the game is a draw.
    #[must_use]
    pub fn outcome(&self) -> (result: Option<Player>)
        requires
            self@.wf(),
        ensures
            result == self@.outcome(),
    {
        proof {
            lemma_grid_size(SIDE_LENGTH as int);
        }
        let index: u16 = match self.last_move {
            Some(mv) => mv.index,
            None => {
                return None;
            },
        };
        proof {
            lemma_coordinates(index as int, SIDE_LENGTH as int);
        }
        let row: usize = (index / SIDE_LENGTH as u16) as usize;
        let col: usize = (index % SIDE_LENGTH as u16) as usize;

        if self.row_along(0, 1, row, col) || self.row_along(1, 0, row, col) || self.row_along(
            1,
            1,
            row,
            col,
        ) || self.row_along(1, -1, row, col) {
            return Some(self.turn().neg());
        }
        if self.ply as usize == SIDE_LENGTH * SIDE_LENGTH {
            Some(Player::Empty)
        } else {
            None
        }
    }
}

} // verus!
