//! Random moves. The board does not own a source of randomness: the caller
//! supplies the numbers.

use vstd::prelude::*;
use smallvec::SmallVec;
use crate::board::{Board, Move};
use crate::position::{
    Player, empties, lemma_empties_sorted, lemma_empties_step, lemma_grid_size,
    lemma_stones_and_empties,
};

verus! {

/// A buffer of cell indices: a `SmallVec` with room for every cell of the
/// largest board, so that filling it allocates nothing.
#[verifier::external_body]
pub struct MoveBuffer {
    items: SmallVec<[u16; 361]>,
}

/// The items that a buffer of cell indices holds, from the first pushed to
/// the last.
pub uninterp spec fn buffer_items(buffer: MoveBuffer) -> Seq<u16>;

/// `SmallVec::new` returns a buffer that holds nothing.
#[verifier::external_body]
fn buffer_new() -> (buffer: MoveBuffer)
    ensures
        buffer_items(buffer) == Seq::<u16>::empty(),
{
    MoveBuffer { items: SmallVec::new() }
}

/// `SmallVec::push` appends the item to the buffer. While fewer than 361
/// items are held, the buffer has room for it in place.
#[verifier::external_body]
fn buffer_push(buffer: &mut MoveBuffer, item: u16)
    requires
        buffer_items(*old(buffer)).len() < 361,
    ensures
        buffer_items(*final(buffer)) == buffer_items(*old(buffer)).push(item),
{
    buffer.items.push(item)
}

/// `SmallVec::len` returns the number of items held.
#[verifier::external_body]
fn buffer_len(buffer: &MoveBuffer) -> (len: usize)
    ensures
        len == buffer_items(*buffer).len(),
{
    buffer.items.len()
}

/// Indexing a `SmallVec` below its length returns the item at that place.
#[verifier::external_body]
fn buffer_get(buffer: &MoveBuffer, at: usize) -> (item: u16)
    requires
        at < buffer_items(*buffer).len(),
    ensures
        item == buffer_items(*buffer)[at as int],
{
    buffer.items[at]
}

impl<const SIDE_LENGTH: usize> Board<SIDE_LENGTH> {
    /// Whether more than 95 cells in 100 are occupied.
    pub fn is_nearly_full(&self) -> (nearly_full: bool)
        requires
            SIDE_LENGTH <= crate::position::MAX_SIDE_LENGTH,
        ensures
            nearly_full == self@.nearly_full(),
    {
        proof {
            lemma_grid_size(SIDE_LENGTH as int);
        }
        20 * (self.ply as u32) > 19 * ((SIDE_LENGTH * SIDE_LENGTH) as u32)
    }

    /// The legal moves in ascending order, in a buffer that needs no
    /// allocation.
    fn collect_moves(&self) -> (moves: MoveBuffer)
        requires
            SIDE_LENGTH <= crate::position::MAX_SIDE_LENGTH,
        ensures
            buffer_items(moves).len() == self@.legal_moves().len(),
            forall|k: int|
                0 <= k < self@.legal_moves().len() ==> buffer_items(moves)[k]
                    == self@.legal_moves()[k],
    {
        proof {
            lemma_grid_size(SIDE_LENGTH as int);
        }
        let total: usize = SIDE_LENGTH * SIDE_LENGTH;
        let mut moves = buffer_new();
        let mut i: usize = 0;
        while i < total
            invariant
                0 <= i <= total,
                total == SIDE_LENGTH * SIDE_LENGTH,
                total == self@.cells.len(),
                total <= 361,
                buffer_items(moves).len() == empties(self@.cells.take(i as int)).len(),
                buffer_items(moves).len() <= i,
                forall|k: int|
                    0 <= k < buffer_items(moves).len() ==> buffer_items(moves)[k] == empties(
                        self@.cells.take(i as int),
                    )[k],
            decreases total - i,
        {
            proof {
                lemma_empties_step(self@.cells, i as int);
            }
            if self.get(i) == Player::Empty {
                buffer_push(&mut moves, i as u16);
            }
            i += 1;
        }
        assert(self@.cells.take(total as int) =~= self@.cells);
        moves
    }

    /// The number of values that a random move is drawn from.
    pub fn draw_bound(&self) -> (bound: usize)
        requires
            SIDE_LENGTH <= crate::position::MAX_SIDE_LENGTH,
        ensures
            bound == self@.draw_bound(),
    {
        if self.is_nearly_full() {
            let moves = self.collect_moves();
            buffer_len(&moves)
        } else {
            proof {
                lemma_grid_size(SIDE_LENGTH as int);
            }
            SIDE_LENGTH * SIDE_LENGTH
        }
    }

    /// Tries the value `draw`. On a nearly full board the legal moves are
    /// listed and the one with the number `draw` is made. Otherwise `draw`
    /// is the index of a cell: the move is made if the cell is empty, and
    /// nothing happens if it is not. Returns whether a move was made.
    pub fn make_drawn_move(&mut self, draw: usize) -> (placed: bool)
        requires
            old(self)@.wf(),
            draw < old(self)@.draw_bound(),
        ensures
            final(self)@ == old(self)@.after_draw(draw as int),
            placed == old(self)@.drawn_move(draw as int) is Some,
            final(self)@.wf(),
    {
        proof {
            self.lemma_view_shape();
            lemma_grid_size(SIDE_LENGTH as int);
            lemma_empties_sorted(self@.cells);
        }
        // if the board is mostly full, generate moves and then select.
        // otherwise, just guess moves until we find an empty square.
        if self.is_nearly_full() {
            let moves = self.collect_moves();
            let index: u16 = buffer_get(&moves, draw);
            self.make_move(Move { index });
            return true;
        }
        if self.get(draw) == Player::Empty {
            self.make_move(Move { index: draw as u16 });
            true
        } else {
            false
        }
    }

    /// Makes a random move with numbers from `rng`, which hands out a
    /// number from `lo` up to, but not including, `hi`. On a nearly full
    /// board one number selects among the legal moves. On any other board
    /// numbers are asked for until one of them names an empty cell; at least
    /// one cell in twenty is empty there, so a few numbers will do. Returns
    /// whether a move was made: it was not, and nothing has changed, only
    /// if `usize::MAX` numbers in a row have named occupied cells.
    pub fn make_random_move<F: FnMut(usize, usize) -> usize>(&mut self, rng: F) -> (placed: bool)
        requires
            old(self)@.wf(),
            old(self)@.ply < SIDE_LENGTH * SIDE_LENGTH,
            forall|lo: usize, hi: usize| lo < hi ==> call_requires(rng, (lo, hi)),
            forall|lo: usize, hi: usize, drawn: usize|
                call_ensures(rng, (lo, hi), drawn) ==> lo <= drawn < hi,
        ensures
            placed ==> exists|draw: usize|
                {
                    &&& #[trigger] call_ensures(
                        rng,
                        (0usize, old(self)@.draw_bound() as usize),
                        draw,
                    )
                    &&& old(self)@.drawn_move(draw as int) is Some
                    &&& final(self)@ == old(self)@.after_draw(draw as int)
                },
            !placed ==> final(self)@ == old(self)@,
            old(self)@.nearly_full() ==> placed,
            final(self)@.wf(),
    {
        proof {
            self.lemma_view_shape();
            lemma_stones_and_empties(self@.cells);
        }
        let mut sample = rng;
        let bound = self.draw_bound();
        let mut tries: usize = 0;
        // we expect this loop to run only a few times
        while tries < usize::MAX
            invariant
                sample == rng,
                self@ == old(self)@,
                self@.wf(),
                0 < bound == self@.draw_bound(),
                forall|lo: usize, hi: usize| lo < hi ==> call_requires(rng, (lo, hi)),
                forall|lo: usize, hi: usize, drawn: usize|
                    call_ensures(rng, (lo, hi), drawn) ==> lo <= drawn < hi,
                tries > 0 ==> !self@.nearly_full(),
            decreases usize::MAX - tries,
        {
            let draw = sample(0, bound);
            if self.make_drawn_move(draw) {
                return true;
            }
            tries += 1;
        }
        false
    }
}

} // verus!
