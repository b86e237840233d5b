//! The mathematical model of a game state, and the facts about it that the
//! executable board relies on.

use vstd::prelude::*;

verus! {

/// The content of one cell, and the name of a side.
#[derive(Copy, Clone, PartialEq, Eq, Hash, Debug, Structural)]
pub enum Player {
    /// Neither player has a piece on this square.
    Empty,
    /// The first player.
    X,
    /// The second player.
    O,
}

impl core::ops::Neg for Player {
    type Output = Self;

    /// The other player. Neither side is opposed to an empty cell.
    fn neg(self) -> (other: Self) {
        match self {
            Self::X => Self::O,
            Self::O => Self::X,
            Self::Empty => vstd::pervasive::unreached(),
        }
    }
}

impl vstd::std_specs::ops::NegSpecImpl for Player {
    open spec fn obeys_neg_spec() -> bool {
        true
    }

    open spec fn neg_req(self) -> bool {
        self != Player::Empty
    }

    open spec fn neg_spec(self) -> Player {
        match self {
            Player::X => Player::O,
            Player::O => Player::X,
            Player::Empty => Player::Empty,
        }
    }
}

/// The largest supported side length.
pub const MAX_SIDE_LENGTH: usize = 19;

/// The number of occupied cells.
pub open spec fn stones(cells: Seq<Player>) -> nat
    decreases cells.len(),
{
    if cells.len() == 0 {
        0
    } else {
        stones(cells.drop_last()) + if cells.last() != Player::Empty { 1nat } else { 0nat }
    }
}

/// The indices of the empty cells, in ascending order.
pub open spec fn empties(cells: Seq<Player>) -> Seq<int>
    decreases cells.len(),
{
    if cells.len() == 0 {
        Seq::empty()
    } else if cells.last() == Player::Empty {
        empties(cells.drop_last()).push(cells.len() - 1)
    } else {
        empties(cells.drop_last())
    }
}

/// Where `steps` steps lead along one coordinate that moves by `direction`
/// (negative, zero or positive) at each step.
pub open spec fn along(direction: int, steps: int) -> int {
    if direction > 0 {
        steps
    } else if direction < 0 {
        -steps
    } else {
        0
    }
}

/// A game state as plain mathematics: a row-major grid of `side * side`
/// cells, the number of moves made, and the cell of the latest move.
pub struct Position {
    pub side: nat,
    pub cells: Seq<Player>,
    pub last_move: Option<int>,
    pub ply: nat,
}

impl Position {
    /// The empty board of the given side length.
    pub open spec fn empty(side: nat) -> Position {
        Position {
            side,
            cells: Seq::new(side * side, |i: int| Player::Empty),
            last_move: None,
            ply: 0,
        }
    }

    /// The player to move: the first player exactly when `ply` is even.
    pub open spec fn turn(self) -> Player {
        if self.ply % 2 == 0 {
            Player::X
        } else {
            Player::O
        }
    }

    /// The player who made the latest move.
    pub open spec fn mover(self) -> Player {
        if self.ply % 2 == 0 {
            Player::O
        } else {
            Player::X
        }
    }

    /// The grid has the right shape, `ply` counts the stones on it, and the
    /// latest move, if any, points at a stone of the player who made it.
    pub open spec fn wf(self) -> bool {
        &&& self.side <= MAX_SIDE_LENGTH
        &&& self.cells.len() == self.side * self.side
        &&& self.ply == stones(self.cells)
        &&& match self.last_move {
            None => true,
            Some(m) => 0 <= m < self.cells.len() && self.cells[m] == self.mover(),
        }
    }

    /// `index` names an empty cell of the grid.
    pub open spec fn is_legal(self, index: int) -> bool {
        0 <= index < self.cells.len() && self.cells[index] == Player::Empty
    }

    /// The state after the player to move has placed a stone on `index`.
    pub open spec fn play(self, index: int) -> Position {
        Position {
            side: self.side,
            cells: self.cells.update(index, self.turn()),
            last_move: Some(index),
            ply: self.ply + 1,
        }
    }

    /// `(row, col)` lies on the grid.
    pub open spec fn on_grid(self, row: int, col: int) -> bool {
        0 <= row < self.side && 0 <= col < self.side
    }

    /// `(row, col)` lies on the grid and holds a stone of `p`.
    pub open spec fn owns(self, p: Player, row: int, col: int) -> bool {
        self.on_grid(row, col) && self.cells[row * self.side + col] == p
    }

    /// `p` owns the cell `steps` steps from `(row, col)` in direction
    /// `(dr, dc)`; a negative number of steps leads the other way.
    pub open spec fn owns_along(
        self,
        p: Player,
        row: int,
        col: int,
        dr: int,
        dc: int,
        steps: int,
    ) -> bool {
        self.owns(p, row + along(dr, steps), col + along(dc, steps))
    }

    /// `p` owns the five consecutive cells of the line through `(row, col)`
    /// that begin `start` steps from it.
    pub open spec fn five_from(
        self,
        p: Player,
        row: int,
        col: int,
        dr: int,
        dc: int,
        start: int,
    ) -> bool {
        forall|s: int| start <= s < start + 5 ==> #[trigger] self.owns_along(p, row, col, dr, dc, s)
    }

    /// Some five consecutive cells of the line through `(row, col)` in
    /// direction `(dr, dc)`, the cell itself among them, all belong to `p`.
    pub open spec fn five_on_axis(self, p: Player, row: int, col: int, dr: int, dc: int) -> bool {
        exists|start: int| -4 <= start <= 0 && #[trigger] self.five_from(p, row, col, dr, dc, start)
    }

    /// `(dr, dc)` is one of the four directions in which a line can run:
    /// along a row, along a column, or along one of the two diagonals.
    pub open spec fn is_axis(dr: int, dc: int) -> bool {
        ||| (dr == 0 && dc == 1)
        ||| (dr == 1 && dc == 0)
        ||| (dr == 1 && dc == 1)
        ||| (dr == 1 && dc == -1)
    }

    /// `p` has five in a row through `(row, col)`: horizontally, vertically
    /// or along one of the two diagonals.
    pub open spec fn five_through(self, p: Player, row: int, col: int) -> bool {
        ||| self.five_on_axis(p, row, col, 0, 1)
        ||| self.five_on_axis(p, row, col, 1, 0)
        ||| self.five_on_axis(p, row, col, 1, 1)
        ||| self.five_on_axis(p, row, col, 1, -1)
    }

    /// The result of the game as far as the latest move decides it: `None`
    /// while the game goes on, `Some(Player::Empty)` for a draw, and
    /// `Some(p)` when `p` has won.
    pub open spec fn outcome(self) -> Option<Player> {
        match self.last_move {
            None => None,
            Some(m) => if self.five_through(
                self.mover(),
                m / (self.side as int),
                m % (self.side as int),
            ) {
                Some(self.mover())
            } else if self.ply == self.side * self.side {
                Some(Player::Empty)
            } else {
                None
            },
        }
    }

    /// More than 95 cells in 100 are occupied.
    pub open spec fn nearly_full(self) -> bool {
        20 * self.ply > 19 * (self.side * self.side)
    }

    /// The number of values that a random move is drawn from: the number of
    /// legal moves on a nearly full board, and the number of cells otherwise.
    pub open spec fn draw_bound(self) -> nat {
        if self.nearly_full() {
            self.legal_moves().len()
        } else {
            self.side * self.side
        }
    }

    /// The move that the value `draw` selects: on a nearly full board the
    /// legal move of that number, and otherwise the cell of that index if it
    /// is empty.
    pub open spec fn drawn_move(self, draw: int) -> Option<int> {
        if self.nearly_full() {
            Some(self.legal_moves()[draw])
        } else if self.cells[draw] == Player::Empty {
            Some(draw)
        } else {
            None
        }
    }

    /// The state after the value `draw` has been tried: the selected move
    /// has been made, or nothing has changed.
    pub open spec fn after_draw(self, draw: int) -> Position {
        match self.drawn_move(draw) {
            Some(index) => self.play(index),
            None => self,
        }
    }

    /// The legal moves, in ascending order of index.
    pub open spec fn legal_moves(self) -> Seq<int> {
        empties(self.cells)
    }
}

/// A grid of a supported side length has at most 361 cells.
pub proof fn lemma_grid_size(side: int)
    requires
        0 <= side <= MAX_SIDE_LENGTH,
    ensures
        0 <= side * side <= 361,
{
    assert(0 <= side * side <= 361) by (nonlinear_arith)
        requires
            0 <= side <= 19,
    ;
}

/// Row and column of a row-major index: both lie on the grid, and together
/// they give the index back.
pub proof fn lemma_coordinates(index: int, side: int)
    requires
        0 <= side,
        0 <= index < side * side,
    ensures
        0 <= index / side < side,
        0 <= index % side < side,
        index == (index / side) * side + index % side,
{
    assert(side > 0) by (nonlinear_arith)
        requires
            0 <= side,
            0 <= index < side * side,
    ;
    vstd::arithmetic::div_mod::lemma_fundamental_div_mod(index, side);
    vstd::arithmetic::div_mod::lemma_mod_bound(index, side);
    let q = index / side;
    assert(0 <= q < side) by (nonlinear_arith)
        requires
            index == side * q + index % side,
            0 <= index % side < side,
            0 <= index < side * side,
            side > 0,
    ;
    assert(side * q == q * side) by (nonlinear_arith);
}

/// The row-major index of a cell on the grid, and the way back to its row
/// and column.
pub proof fn lemma_index_of(row: int, col: int, side: int)
    requires
        0 <= row < side,
        0 <= col < side,
    ensures
        0 <= row * side + col < side * side,
        (row * side + col) / side == row,
        (row * side + col) % side == col,
{
    vstd::arithmetic::div_mod::lemma_fundamental_div_mod_converse(row * side + col, side, row, col);
    assert(0 <= row * side + col < side * side) by (nonlinear_arith)
        requires
            0 <= row < side,
            0 <= col < side,
    ;
}

/// No more cells are occupied than there are cells.
pub proof fn lemma_stones_bounded(cells: Seq<Player>)
    ensures
        stones(cells) <= cells.len(),
    decreases cells.len(),
{
    if cells.len() > 0 {
        lemma_stones_bounded(cells.drop_last());
    }
}

/// Every cell is either occupied or listed among the empty ones.
pub proof fn lemma_stones_and_empties(cells: Seq<Player>)
    ensures
        stones(cells) + empties(cells).len() == cells.len(),
    decreases cells.len(),
{
    if cells.len() > 0 {
        lemma_stones_and_empties(cells.drop_last());
    }
}

/// A grid without stones is empty everywhere, and conversely.
pub proof fn lemma_stones_zero(cells: Seq<Player>)
    ensures
        stones(cells) == 0 <==> (forall|i: int| 0 <= i < cells.len() ==> cells[i] == Player::Empty),
    decreases cells.len(),
{
    if cells.len() > 0 {
        lemma_stones_zero(cells.drop_last());
        if stones(cells) == 0 {
            assert forall|i: int| 0 <= i < cells.len() implies cells[i] == Player::Empty by {
                if i < cells.len() - 1 {
                    assert(cells.drop_last()[i] == cells[i]);
                }
            }
        } else if cells.last() == Player::Empty {
            let j = choose|j: int|
                0 <= j < cells.drop_last().len() && cells.drop_last()[j] != Player::Empty;
            assert(cells[j] != Player::Empty);
        }
    }
}

/// Placing a stone on an empty cell adds one to the count.
pub proof fn lemma_stones_update(cells: Seq<Player>, index: int, p: Player)
    requires
        0 <= index < cells.len(),
        cells[index] == Player::Empty,
        p != Player::Empty,
    ensures
        stones(cells.update(index, p)) == stones(cells) + 1,
    decreases cells.len(),
{
    let after = cells.update(index, p);
    if index == cells.len() - 1 {
        assert(after.drop_last() =~= cells.drop_last());
    } else {
        lemma_stones_update(cells.drop_last(), index, p);
        assert(after.drop_last() =~= cells.drop_last().update(index, p));
    }
}

/// The list of empty cells holds exactly the indices of empty cells, in
/// strictly ascending order.
pub proof fn lemma_empties_sorted(cells: Seq<Player>)
    ensures
        forall|k: int|
            0 <= k < empties(cells).len() ==> 0 <= #[trigger] empties(cells)[k] < cells.len()
                && cells[empties(cells)[k]] == Player::Empty,
        forall|j: int, k: int|
            0 <= j < k < empties(cells).len() ==> empties(cells)[j] < empties(cells)[k],
        forall|i: int|
            0 <= i < cells.len() && cells[i] == Player::Empty ==> empties(cells).contains(i),
    decreases cells.len(),
{
    if cells.len() > 0 {
        let front = cells.drop_last();
        lemma_empties_sorted(front);
        let e = empties(cells);
        assert forall|k: int| 0 <= k < e.len() implies 0 <= #[trigger] e[k] < cells.len()
            && cells[e[k]] == Player::Empty by {
            if k < empties(front).len() {
                assert(e[k] == empties(front)[k]);
            }
        }
        assert forall|j: int, k: int| 0 <= j < k < e.len() implies e[j] < e[k] by {
            assert(e[j] == empties(front)[j]);
        }
        assert forall|i: int| 0 <= i < cells.len() && cells[i] == Player::Empty implies e.contains(
            i,
        ) by {
            if i < cells.len() - 1 {
                assert(front[i] == cells[i]);
                let k = choose|k: int| 0 <= k < empties(front).len() && empties(front)[k] == i;
                assert(e[k] == i);
            } else {
                assert(e[e.len() - 1] == i);
            }
        }
    }
}

/// The empty cells among the first `n` cells are the first empty cells of
/// the whole grid.
pub proof fn lemma_empties_prefix(cells: Seq<Player>, n: int)
    requires
        0 <= n <= cells.len(),
    ensures
        empties(cells.take(n)).len() <= empties(cells).len(),
        forall|k: int|
            0 <= k < empties(cells.take(n)).len() ==> empties(cells.take(n))[k] == empties(
                cells,
            )[k],
    decreases cells.len() - n,
{
    if n == cells.len() {
        assert(cells.take(n) =~= cells);
    } else {
        lemma_empties_prefix(cells, n + 1);
        assert(cells.take(n + 1).drop_last() =~= cells.take(n));
    }
}

/// How the list of empty cells grows when one more cell is looked at.
pub proof fn lemma_empties_step(cells: Seq<Player>, n: int)
    requires
        0 <= n < cells.len(),
    ensures
        empties(cells.take(n + 1)) == if cells[n] == Player::Empty {
            empties(cells.take(n)).push(n)
        } else {
            empties(cells.take(n))
        },
{
    assert(cells.take(n + 1).drop_last() =~= cells.take(n));
}

/// A legal move keeps a well-formed state well-formed, and leaves room in a
/// 16-bit move counter.
pub proof fn lemma_play_wf(b: Position, index: int)
    requires
        b.wf(),
        b.is_legal(index),
    ensures
        b.play(index).wf(),
        b.ply < b.side * b.side,
        b.side * b.side <= MAX_SIDE_LENGTH * MAX_SIDE_LENGTH,
{
    lemma_stones_update(b.cells, index, b.turn());
    lemma_stones_bounded(b.play(index).cells);
    lemma_grid_size(b.side as int);
}

/// Five consecutive stones of one player on a line are five in a row for
/// every cell among them.
pub proof fn lemma_five_owned(
    b: Position,
    p: Player,
    row: int,
    col: int,
    dr: int,
    dc: int,
    start: int,
)
    requires
        -4 <= start <= 0,
        forall|s: int| start <= s < start + 5 ==> b.owns_along(p, row, col, dr, dc, s),
    ensures
        b.five_on_axis(p, row, col, dr, dc),
{
    assert(b.five_from(p, row, col, dr, dc, start));
}

/// A line of at most four stones, ended on both sides by a cell that the
/// player does not own, is not five in a row.
pub proof fn lemma_short_line(
    b: Position,
    p: Player,
    row: int,
    col: int,
    dr: int,
    dc: int,
    behind: int,
    ahead: int,
)
    requires
        0 <= behind,
        0 <= ahead,
        behind + ahead < 4,
        !b.owns_along(p, row, col, dr, dc, ahead + 1),
        !b.owns_along(p, row, col, dr, dc, -behind - 1),
    ensures
        !b.five_on_axis(p, row, col, dr, dc),
{
    assert forall|start: int| -4 <= start <= 0 implies !#[trigger] b.five_from(
        p,
        row,
        col,
        dr,
        dc,
        start,
    ) by {
        if b.five_from(p, row, col, dr, dc, start) {
            // the five cells reach beyond one end of the line or the other
            if ahead + 1 < start + 5 {
                assert(b.owns_along(p, row, col, dr, dc, ahead + 1));
            } else {
                assert(b.owns_along(p, row, col, dr, dc, -behind - 1));
            }
        }
    }
}

/// A fresh board is well-formed, has no latest move, and the first player
/// is to move on it.
pub proof fn lemma_fresh_board(side: nat)
    ensures
        Position::empty(side).turn() == Player::X,
        Position::empty(side).outcome() is None,
        side <= MAX_SIDE_LENGTH ==> Position::empty(side).wf(),
{
    lemma_stones_zero(Position::empty(side).cells);
}

/// Each move hands the turn to the other player: after one move the player
/// who was to move is the one who moved, and after two moves it is the same
/// player's turn again.
pub proof fn lemma_turn_alternates(b: Position, first: int, second: int)
    ensures
        b.turn() != Player::Empty,
        b.play(first).turn() != b.turn(),
        b.play(first).turn() != Player::Empty,
        b.play(first).mover() == b.turn(),
        b.play(first).play(second).turn() == b.turn(),
{
}

/// On an empty board every cell is a legal move, and the legal moves come
/// in the order of the cells.
pub proof fn lemma_empty_board_moves(side: nat)
    ensures
        Position::empty(side).legal_moves().len() == side * side,
        forall|k: int| 0 <= k < side * side ==> Position::empty(side).legal_moves()[k] == k,
{
    let cells = Position::empty(side).cells;
    lemma_all_empty_moves(cells);
}

/// Where every cell is empty, the list of empty cells counts up from zero.
pub proof fn lemma_all_empty_moves(cells: Seq<Player>)
    requires
        forall|i: int| 0 <= i < cells.len() ==> cells[i] == Player::Empty,
    ensures
        empties(cells).len() == cells.len(),
        forall|k: int| 0 <= k < cells.len() ==> empties(cells)[k] == k,
    decreases cells.len(),
{
    if cells.len() > 0 {
        lemma_all_empty_moves(cells.drop_last());
    }
}

/// On every board the legal moves are exactly the empty cells, each once,
/// in strictly ascending order.
pub proof fn lemma_legal_moves(b: Position)
    ensures
        forall|k: int|
            0 <= k < b.legal_moves().len() ==> b.is_legal(#[trigger] b.legal_moves()[k]),
        forall|j: int, k: int|
            0 <= j < k < b.legal_moves().len() ==> b.legal_moves()[j] < b.legal_moves()[k],
        forall|i: int| b.is_legal(i) ==> b.legal_moves().contains(i),
        b.legal_moves().len() + stones(b.cells) == b.cells.len(),
{
    lemma_empties_sorted(b.cells);
    lemma_stones_and_empties(b.cells);
}

/// Without five in a row through the latest move the game is not won: it is
/// drawn if the board is full and goes on if it is not.
pub proof fn lemma_outcome_without_five(b: Position)
    requires
        b.last_move matches Some(m) && !b.five_through(
            b.mover(),
            m / (b.side as int),
            m % (b.side as int),
        ),
    ensures
        b.outcome() == if b.ply == b.side * b.side {
            Some(Player::Empty)
        } else {
            None
        },
{
}

/// Filling the board without ever making five in a row ends in a draw: the
/// move onto the last empty cell, if it completes no five, gives a draw.
pub proof fn lemma_last_cell_draws(b: Position, index: int)
    requires
        b.wf(),
        b.is_legal(index),
        b.legal_moves().len() == 1,
        !b.play(index).five_through(b.turn(), index / (b.side as int), index % (b.side as int)),
    ensures
        b.play(index).outcome() == Some(Player::Empty),
{
    lemma_play_wf(b, index);
    lemma_stones_and_empties(b.cells);
}

/// The fifth stone wins. If the player to move owns four of five
/// consecutive cells of a line and moves onto the fifth, at `(row, col)`,
/// the game is won by that player. Further stones of the player on the same
/// line change nothing.
pub proof fn lemma_fifth_stone_wins(b: Position, row: int, col: int, dr: int, dc: int, start: int)
    requires
        b.wf(),
        b.on_grid(row, col),
        b.is_legal(row * b.side + col),
        Position::is_axis(dr, dc),
        -4 <= start <= 0,
        forall|s: int|
            start <= s < start + 5 && s != 0 ==> #[trigger] b.owns_along(
                b.turn(),
                row,
                col,
                dr,
                dc,
                s,
            ),
    ensures
        b.play(row * b.side + col).outcome() == Some(b.turn()),
{
    let side = b.side as int;
    let p = b.turn();
    let index = row * side + col;
    let after = b.play(index);
    lemma_index_of(row, col, side);
    assert forall|s: int| start <= s < start + 5 implies #[trigger] after.owns_along(
        p,
        row,
        col,
        dr,
        dc,
        s,
    ) by {
        if s != 0 {
            assert(b.owns_along(p, row, col, dr, dc, s));
            lemma_index_of(row + along(dr, s), col + along(dc, s), side);
        }
    }
    lemma_five_owned(after, p, row, col, dr, dc, start);
}

/// Four are not enough. If on each of the four lines through the latest
/// move, at `(row, col)`, the stones of the player who made it end after at
/// most four cells, the cell itself counted, the game is not won: it is
/// drawn if the board is full and goes on if it is not. `ahead` and
/// `behind` give, for the four lines in the order row, column, falling and
/// rising diagonal, the number of the player's stones beyond which the line
/// ends.
pub proof fn lemma_four_are_not_enough(
    b: Position,
    row: int,
    col: int,
    ahead: Seq<int>,
    behind: Seq<int>,
)
    requires
        b.on_grid(row, col),
        b.last_move == Some(row * b.side + col),
        ahead.len() == 4,
        behind.len() == 4,
        forall|axis: int|
            0 <= axis < 4 ==> 0 <= #[trigger] ahead[axis] && 0 <= behind[axis] && ahead[axis]
                + behind[axis] < 4,
        forall|axis: int|
            0 <= axis < 4 ==> !b.owns_along(
                b.mover(),
                row,
                col,
                #[trigger] axis_row_step(axis),
                axis_col_step(axis),
                ahead[axis] + 1,
            ),
        forall|axis: int|
            0 <= axis < 4 ==> !b.owns_along(
                b.mover(),
                row,
                col,
                #[trigger] axis_row_step(axis),
                axis_col_step(axis),
                -behind[axis] - 1,
            ),
    ensures
        b.outcome() == if b.ply == b.side * b.side {
            Some(Player::Empty)
        } else {
            None
        },
{
    let p = b.mover();
    lemma_index_of(row, col, b.side as int);
    assert(axis_row_step(0) == 0 && axis_row_step(1) == 1 && axis_row_step(2) == 1 && axis_row_step(
        3,
    ) == 1);
    lemma_short_line(b, p, row, col, 0, 1, behind[0], ahead[0]);
    lemma_short_line(b, p, row, col, 1, 0, behind[1], ahead[1]);
    lemma_short_line(b, p, row, col, 1, 1, behind[2], ahead[2]);
    lemma_short_line(b, p, row, col, 1, -1, behind[3], ahead[3]);
}

/// The step from row to row of the line with the given number: 0 for the
/// row, 1 for the column and for both diagonals.
pub open spec fn axis_row_step(axis: int) -> int {
    if axis == 0 {
        0
    } else {
        1
    }
}

/// The step from column to column of the line with the given number: 1 for
/// the row and the falling diagonal, 0 for the column, -1 for the rising
/// diagonal.
pub open spec fn axis_col_step(axis: int) -> int {
    if axis == 0 || axis == 2 {
        1
    } else if axis == 1 {
        0
    } else {
        -1
    }
}

} // verus!
