//! The executable board: a grid of cells, the move counter and the latest move.

use vstd::prelude::*;
pub use crate::position::Player;
use crate::position::{
    stones, Position, MAX_SIDE_LENGTH, empties, lemma_play_wf, lemma_coordinates, lemma_grid_size,
    lemma_empties_prefix, lemma_empties_step,
};

mod equality;
pub mod fen;
pub mod notation;
mod outcome;
pub mod picture;
pub mod random;

verus! {

/// A move: the row-major index of a cell, or the null move.
#[derive(Copy, Clone, PartialEq, Eq, Hash, Debug)]
pub struct Move<const SIDE_LENGTH: usize> {
    pub index: u16,
}

impl<const SIDE_LENGTH: usize> Move<SIDE_LENGTH> {
    /// The move that stands for "no move".
    #[must_use]
    pub fn null() -> (mv: Self)
        ensures
            mv.index == u16::MAX,
    {
        Self { index: u16::MAX }
    }

    /// Whether this is the null move.
    #[must_use]
    pub fn is_null(&self) -> (null: bool)
        ensures
            null == (self.index == u16::MAX),
    {
        self.index == u16::MAX
    }

    /// The index of the cell that the move points at.
    #[must_use]
    pub fn index(&self) -> (index: usize)
        ensures
            index == self.index,
    {
        self.index as usize
    }
}

/// A gomoku board of size `SIDE_LENGTH` by `SIDE_LENGTH`.
#[derive(Clone, Copy, Debug)]
pub struct Board<const SIDE_LENGTH: usize> {
    cells: [[Player; SIDE_LENGTH]; SIDE_LENGTH],
    last_move: Option<Move<SIDE_LENGTH>>,
    ply: u16,
}

impl<const SIDE_LENGTH: usize> View for Board<SIDE_LENGTH> {
    type V = Position;

    closed spec fn view(&self) -> Position {
        Position {
            side: SIDE_LENGTH as nat,
            cells: Seq::new((SIDE_LENGTH * SIDE_LENGTH) as nat, |i: int| self.cell(i)),
            last_move: match self.last_move {
                Some(mv) => Some(mv.index as int),
                None => None,
            },
            ply: self.ply as nat,
        }
    }
}

impl<const SIDE_LENGTH: usize> Board<SIDE_LENGTH> {
    /// The content of the cell with the given row-major index.
    closed spec fn cell(&self, index: int) -> Player {
        self.cells@[index / (SIDE_LENGTH as int)]@[index % (SIDE_LENGTH as int)]
    }

    /// The view of a board has the board's side length and one cell per
    /// square; its counter and its latest move fit in 16 bits.
    pub proof fn lemma_view_shape(&self)
        ensures
            self@.side == SIDE_LENGTH,
            self@.cells.len() == SIDE_LENGTH * SIDE_LENGTH,
            self@.ply <= u16::MAX,
            self@.last_move matches Some(m) ==> 0 <= m <= u16::MAX,
    {
    }

    /// Creates a new board with no pieces on it.
    #[must_use]
    pub fn new() -> (board: Self)
        requires
            SIDE_LENGTH <= MAX_SIDE_LENGTH,
        ensures
            board@ == Position::empty(SIDE_LENGTH as nat),
            board@.wf(),
    {
        proof {
            crate::position::lemma_fresh_board(SIDE_LENGTH as nat);
        }
        let board = Self {
            cells: [[Player::Empty; SIDE_LENGTH]; SIDE_LENGTH],
            last_move: None,
            ply: 0,
        };
        assert forall|i: int| 0 <= i < SIDE_LENGTH * SIDE_LENGTH implies board.cell(i)
            == Player::Empty by {
            lemma_coordinates(i, SIDE_LENGTH as int);
        }
        assert(board@.cells =~= Position::empty(SIDE_LENGTH as nat).cells);
        board
    }

    /// Returns the player whose turn it is.
    #[must_use]
    pub fn turn(&self) -> (player: Player)
        ensures
            player == self@.turn(),
    {
        if self.ply % 2 == 0 {
            Player::X
        } else {
            Player::O
        }
    }

    /// What the cell with the given row-major index holds.
    #[must_use]
    pub fn get(&self, index: usize) -> (player: Player)
        requires
            index < SIDE_LENGTH * SIDE_LENGTH,
        ensures
            player == self@.cells[index as int],
    {
        proof {
            lemma_coordinates(index as int, SIDE_LENGTH as int);
        }
        self.cells[index / SIDE_LENGTH][index % SIDE_LENGTH]
    }

    /// Whether the board is in a state that play can lead to: the move
    /// counter counts the stones, and the latest move, if there is one,
    /// points at a stone of the player who made it. A board that was read
    /// from text may fail this.
    #[must_use]
    pub fn is_well_formed(&self) -> (ok: bool)
        ensures
            ok == self@.wf(),
    {
        if SIDE_LENGTH > MAX_SIDE_LENGTH {
            return false;
        }
        proof {
            lemma_grid_size(SIDE_LENGTH as int);
        }
        let total: usize = SIDE_LENGTH * SIDE_LENGTH;
        let mut count: usize = 0;
        let mut i: usize = 0;
        while i < total
            invariant
                0 <= i <= total,
                total == SIDE_LENGTH * SIDE_LENGTH,
                total == self@.cells.len(),
                count == stones(self@.cells.take(i as int)),
                count <= i,
            decreases total - i,
        {
            proof {
                assert(self@.cells.take(i + 1).drop_last() =~= self@.cells.take(i as int));
            }
            if self.get(i) != Player::Empty {
                count += 1;
            }
            i += 1;
        }
        assert(self@.cells.take(total as int) =~= self@.cells);
        if count != self.ply as usize {
            return false;
        }
        match self.last_move {
            None => true,
            Some(mv) => {
                let mover = if self.ply % 2 == 0 {
                    Player::O
                } else {
                    Player::X
                };
                (mv.index as usize) < total && self.get(mv.index as usize) == mover
            },
        }
    }

    /// The move that points at the cell `index`.
    pub open spec fn move_to(index: int) -> Move<SIDE_LENGTH> {
        Move { index: index as u16 }
    }

    /// `callback` has been handed the first `n` of the moves `legal` without
    /// asking to stop, and then, if any move was left, has been handed the
    /// next one and asked to stop.
    pub open spec fn visited<F: FnMut(Move<SIDE_LENGTH>) -> bool>(
        legal: Seq<int>,
        callback: F,
        n: int,
    ) -> bool {
        &&& 0 <= n <= legal.len()
        &&& forall|k: int|
            0 <= k < n ==> call_ensures(callback, (#[trigger] Self::move_to(legal[k]),), false)
        &&& n < legal.len() ==> call_ensures(callback, (Self::move_to(legal[n]),), true)
    }

    /// Generates all possible moves on the board and calls `callback` with each one,
    /// in ascending order of index.
    /// Iteration short-circuits if `callback` returns `true`.
    pub fn generate_moves<F: FnMut(Move<SIDE_LENGTH>) -> bool>(&self, callback: F)
        requires
            SIDE_LENGTH <= MAX_SIDE_LENGTH,
            forall|i: int| self@.is_legal(i) ==> call_requires(callback, (Self::move_to(i),)),
        ensures
            exists|n: int| Self::visited(self@.legal_moves(), callback, n),
    {
        let ghost legal = self@.legal_moves();
        let mut visit = callback;
        proof {
            lemma_grid_size(SIDE_LENGTH as int);
        }
        let total: usize = SIDE_LENGTH * SIDE_LENGTH;
        let mut i: usize = 0;
        while i < total
            invariant
                0 <= i <= total,
                total == SIDE_LENGTH * SIDE_LENGTH,
                total <= 361,
                visit == callback,
                legal == self@.legal_moves(),
                forall|i: int| self@.is_legal(i) ==> call_requires(callback, (Self::move_to(i),)),
                forall|k: int|
                    0 <= k < empties(self@.cells.take(i as int)).len() ==> call_ensures(
                        callback,
                        (#[trigger] Self::move_to(legal[k]),),
                        false,
                    ),
            decreases total - i,
        {
            proof {
                lemma_coordinates(i as int, SIDE_LENGTH as int);
                lemma_empties_step(self@.cells, i as int);
                lemma_empties_prefix(self@.cells, i as int + 1);
            }
            if self.cells[i / SIDE_LENGTH][i % SIDE_LENGTH] == Player::Empty {
                let ghost n = empties(self@.cells.take(i as int)).len() as int;
                assert(self@.is_legal(i as int));
                if visit(Move { index: i as u16 }) {
                    assert(Self::visited(legal, callback, n));
                    return ;
                }
            }
            i += 1;
        }
        proof {
            assert(self@.cells.take(total as int) =~= self@.cells);
            assert(Self::visited(legal, callback, legal.len() as int));
        }
    }

    /// Iterates over all filled cells on the board and calls `callback` with each one.
    pub fn feature_map<F: FnMut(usize, Player)>(&self, callback: F)
        requires
            SIDE_LENGTH <= MAX_SIDE_LENGTH,
            forall|i: int|
                0 <= i < self@.cells.len() && self@.cells[i] != Player::Empty ==> call_requires(
                    callback,
                    (i as usize, #[trigger] self@.cells[i]),
                ),
        ensures
            forall|i: int|
                0 <= i < self@.cells.len() && self@.cells[i] != Player::Empty ==> call_ensures(
                    callback,
                    (i as usize, #[trigger] self@.cells[i]),
                    (),
                ),
    {
        let mut visit = callback;
        proof {
            lemma_grid_size(SIDE_LENGTH as int);
        }
        let total: usize = SIDE_LENGTH * SIDE_LENGTH;
        let mut i: usize = 0;
        while i < total
            invariant
                0 <= i <= total,
                total == SIDE_LENGTH * SIDE_LENGTH,
                total <= 361,
                visit == callback,
                forall|i: int|
                    0 <= i < self@.cells.len() && self@.cells[i] != Player::Empty ==> call_requires(
                        callback,
                        (i as usize, #[trigger] self@.cells[i]),
                    ),
                forall|k: int|
                    0 <= k < i && self@.cells[k] != Player::Empty ==> call_ensures(
                        callback,
                        (k as usize, #[trigger] self@.cells[k]),
                        (),
                    ),
            decreases total - i,
        {
            proof {
                lemma_coordinates(i as int, SIDE_LENGTH as int);
                assert(self@.cells[i as int] == self.cell(i as int));
            }
            let c = self.cells[i / SIDE_LENGTH][i % SIDE_LENGTH];
            if c != Player::Empty {
                visit(i, c);
            }
            i += 1;
        }
    }

    /// Applies a move to the board.
    pub fn make_move(&mut self, mv: Move<SIDE_LENGTH>)
        requires
            old(self)@.wf(),
            old(self)@.is_legal(mv.index as int),
        ensures
            final(self)@ == old(self)@.play(mv.index as int),
            final(self)@.wf(),
    {
        proof {
            lemma_play_wf(self@, mv.index as int);
            lemma_coordinates(mv.index as int, SIDE_LENGTH as int);
        }
        let i: usize = (mv.index / SIDE_LENGTH as u16) as usize;
        let j: usize = (mv.index % SIDE_LENGTH as u16) as usize;
        let mover = self.turn();
        self.cells[i][j] = mover;
        self.last_move = Some(mv);
        self.ply += 1;
        assert forall|k: int| 0 <= k < SIDE_LENGTH * SIDE_LENGTH implies self.cell(k) == old(
            self,
        )@.play(mv.index as int).cells[k] by {
            lemma_coordinates(k, SIDE_LENGTH as int);
        }
        assert(self@.cells =~= old(self)@.play(mv.index as int).cells);
    }
}

} // verus!
