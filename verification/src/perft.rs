//! Exhaustive node counting over the game tree.

use vstd::prelude::*;
use crate::board::{Board, Move};
use crate::cache::PerftCache;
use crate::position::{
    Player, Position, empties, stones, lemma_grid_size, lemma_stones_and_empties,
    lemma_stones_update, lemma_stones_zero,
};

verus! {

/// The number of lines of play of exactly `depth` moves that start from `b`.
/// A line of play is not cut short by a win.
pub open spec fn count_nodes(b: Position, depth: nat) -> nat
    decreases depth, b.cells.len() + 1,
{
    if depth == 0 {
        1
    } else {
        count_below(b, depth, b.cells.len())
    }
}

/// The lines of play counted by `count_nodes(b, depth)` whose first move
/// goes to one of the first `n` cells.
pub open spec fn count_below(b: Position, depth: nat, n: nat) -> nat
    decreases depth, n,
{
    if depth == 0 || n == 0 || n > b.cells.len() {
        0
    } else {
        count_below(b, depth, (n - 1) as nat) + if b.cells[n - 1] == Player::Empty {
            count_nodes(b.play(n - 1), (depth - 1) as nat)
        } else {
            0
        }
    }
}

/// The number of ways to pick `depth` different things out of `n`, one after
/// the other.
pub open spec fn falling_factorial(n: nat, depth: nat) -> nat
    decreases depth,
{
    if depth == 0 {
        1
    } else if n == 0 {
        0
    } else {
        n * falling_factorial((n - 1) as nat, (depth - 1) as nat)
    }
}

/// The count over the first `n` cells grows with `n`.
pub proof fn lemma_count_below_monotonic(b: Position, depth: nat, m: nat, n: nat)
    requires
        m <= n <= b.cells.len(),
    ensures
        count_below(b, depth, m) <= count_below(b, depth, n),
    decreases n - m,
{
    if m < n {
        lemma_count_below_monotonic(b, depth, m, (n - 1) as nat);
    }
}

/// A move takes one cell from the list of empty cells.
pub proof fn lemma_play_empties(b: Position, index: int)
    requires
        b.is_legal(index),
    ensures
        empties(b.play(index).cells).len() + 1 == empties(b.cells).len(),
{
    lemma_stones_update(b.cells, index, b.turn());
    lemma_stones_and_empties(b.cells);
    lemma_stones_and_empties(b.play(index).cells);
}

/// The node count depends on the number of empty cells alone: it is the
/// number of ways to fill `depth` of them one after the other.
pub proof fn lemma_count_nodes_closed_form(b: Position, depth: nat)
    ensures
        count_nodes(b, depth) == falling_factorial(empties(b.cells).len(), depth),
    decreases depth, b.cells.len() + 1,
{
    if depth > 0 {
        lemma_count_below_closed_form(b, depth, b.cells.len());
        assert(b.cells.take(b.cells.len() as int) =~= b.cells);
        let e = empties(b.cells).len();
        let each = falling_factorial((e - 1) as nat, (depth - 1) as nat);
        if e == 0 {
            assert(0 * each == 0);
        }
    }
}

/// The first moves onto the first `n` cells all lead to the same count, so
/// their sum is a product.
pub proof fn lemma_count_below_closed_form(b: Position, depth: nat, n: nat)
    requires
        depth > 0,
        n <= b.cells.len(),
    ensures
        count_below(b, depth, n) == empties(b.cells.take(n as int)).len() * falling_factorial(
            (empties(b.cells).len() - 1) as nat,
            (depth - 1) as nat,
        ),
    decreases depth, n,
{
    let each = falling_factorial((empties(b.cells).len() - 1) as nat, (depth - 1) as nat);
    if n > 0 {
        lemma_count_below_closed_form(b, depth, (n - 1) as nat);
        crate::position::lemma_empties_step(b.cells, n - 1);
        let before = empties(b.cells.take(n - 1)).len();
        if b.cells[n - 1] == Player::Empty {
            lemma_count_nodes_closed_form(b.play(n - 1), (depth - 1) as nat);
            lemma_play_empties(b, n - 1);
            assert((before + 1) * each == before * each + each) by (nonlinear_arith);
        }
    }
}

/// The count goes by the stones alone: positions with the same grid have the
/// same count, whatever their move counters and latest moves are.
pub proof fn lemma_count_depends_on_stones(a: Position, b: Position, depth: nat)
    requires
        a.cells == b.cells,
    ensures
        count_nodes(a, depth) == count_nodes(b, depth),
{
    lemma_count_nodes_closed_form(a, depth);
    lemma_count_nodes_closed_form(b, depth);
}

/// From the start there is one position.
pub proof fn lemma_count_at_depth_zero(b: Position)
    ensures
        count_nodes(b, 0) == 1,
{
}

/// One move deep the count is the number of legal moves.
pub proof fn lemma_count_at_depth_one(b: Position)
    ensures
        count_nodes(b, 1) == b.legal_moves().len(),
{
    lemma_count_nodes_closed_form(b, 1);
    reveal_with_fuel(falling_factorial, 2);
    let n = b.legal_moves().len();
    assert(n * 1 == n) by (nonlinear_arith);
}

/// On an empty board of side `side` the first move has `side * side` cells
/// to go to.
pub proof fn lemma_count_empty_board_depth_one(side: nat)
    ensures
        count_nodes(Position::empty(side), 1) == side * side,
{
    let b = Position::empty(side);
    lemma_count_nodes_closed_form(b, 1);
    lemma_empty_board_empties(side);
    reveal_with_fuel(falling_factorial, 2);
    assert((side * side) * 1 == side * side) by (nonlinear_arith);
}

/// On an empty board of side `side` two moves can be made in
/// `side * side * (side * side - 1)` ways.
pub proof fn lemma_count_empty_board_depth_two(side: nat)
    ensures
        count_nodes(Position::empty(side), 2) == side * side * (side * side - 1),
{
    let b = Position::empty(side);
    let n = side * side;
    lemma_count_nodes_closed_form(b, 2);
    lemma_empty_board_empties(side);
    reveal_with_fuel(falling_factorial, 3);
    if n == 0 {
        assert(0 * (0 - 1) == 0);
    } else if n == 1 {
        assert(falling_factorial(0, 1) == 0);
    } else {
        assert((n - 1) * 1 == n - 1) by (nonlinear_arith);
    }
}

/// Every cell of the empty board is empty.
pub proof fn lemma_empty_board_empties(side: nat)
    ensures
        empties(Position::empty(side).cells).len() == side * side,
        stones(Position::empty(side).cells) == 0,
{
    let cells = Position::empty(side).cells;
    lemma_stones_zero(cells);
    lemma_stones_and_empties(cells);
}

/// The count is at most `n` to the power `depth` where `n` cells are empty.
pub proof fn lemma_falling_factorial_bound(n: nat, depth: nat, limit: nat)
    requires
        n <= limit,
    ensures
        falling_factorial(n, depth) <= vstd::arithmetic::power::pow(limit as int, depth),
    decreases depth,
{
    vstd::arithmetic::power::lemma_pow_positive(1, depth);
    reveal(vstd::arithmetic::power::pow);
    if depth > 0 && n > 0 {
        lemma_falling_factorial_bound((n - 1) as nat, (depth - 1) as nat, limit);
        let f = falling_factorial((n - 1) as nat, (depth - 1) as nat);
        let q = vstd::arithmetic::power::pow(limit as int, (depth - 1) as nat);
        assert(n * f <= limit * q) by (nonlinear_arith)
            requires
                0 <= n <= limit,
                0 <= f <= q,
        ;
    } else if depth > 0 {
        if limit > 0 {
            vstd::arithmetic::power::lemma_pow_positive(limit as int, depth);
        } else {
            vstd::arithmetic::power::lemma0_pow(depth);
        }
    }
}

/// On a grid of a supported size, the lines of play of up to seven moves can
/// be counted in 64 bits.
pub proof fn lemma_count_fits(b: Position, depth: nat)
    requires
        b.side <= crate::position::MAX_SIDE_LENGTH,
        b.cells.len() == b.side * b.side,
        depth <= 7,
    ensures
        count_nodes(b, depth) <= u64::MAX,
{
    lemma_count_nodes_closed_form(b, depth);
    lemma_grid_size(b.side as int);
    lemma_stones_and_empties(b.cells);
    let e = empties(b.cells).len();
    lemma_falling_factorial_bound(e, depth, 361);
    vstd::arithmetic::power::lemma_pow_increases(361, depth, 7);
    assert(vstd::arithmetic::power::pow(361, 7) == 799006685782884121) by {
        reveal_with_fuel(vstd::arithmetic::power::pow, 8);
    }
}

/// The number of legal moves on `board`.
fn count_moves<const BOARD_SIZE: usize>(board: &Board<BOARD_SIZE>) -> (count: u64)
    requires
        BOARD_SIZE <= crate::position::MAX_SIDE_LENGTH,
    ensures
        count == board@.legal_moves().len(),
{
    proof {
        board.lemma_view_shape();
        lemma_grid_size(BOARD_SIZE as int);
    }
    let total: usize = BOARD_SIZE * BOARD_SIZE;
    let mut count: u64 = 0;
    let mut i: usize = 0;
    while i < total
        invariant
            0 <= i <= total,
            total == board@.cells.len(),
            total == BOARD_SIZE * BOARD_SIZE,
            count == empties(board@.cells.take(i as int)).len(),
            count <= i,
        decreases total - i,
    {
        proof {
            crate::position::lemma_empties_step(board@.cells, i as int);
        }
        if board.get(i) == Player::Empty {
            count += 1;
        }
        i += 1;
    }
    assert(board@.cells.take(total as int) =~= board@.cells);
    count
}

/// Counts the lines of play of exactly `depth` moves from `board`.
#[must_use]
pub fn perft<const BOARD_SIZE: usize>(board: Board<BOARD_SIZE>, depth: u8) -> (count: u64)
    requires
        board@.wf(),
        count_nodes(board@, depth as nat) <= u64::MAX,
    ensures
        count == count_nodes(board@, depth as nat),
    decreases depth,
{
    if depth == 0 {
        return 1;
    }
    proof {
        board.lemma_view_shape();
        lemma_grid_size(BOARD_SIZE as int);
    }
    let total: usize = BOARD_SIZE * BOARD_SIZE;

    if depth == 1 {
        proof {
            lemma_count_at_depth_one(board@);
        }
        return count_moves(&board);
    }
    let mut count: u64 = 0;
    let mut i: usize = 0;
    while i < total
        invariant
            0 <= i <= total,
            total == board@.cells.len(),
            total == BOARD_SIZE * BOARD_SIZE,
            total <= 361,
            depth > 1,
            board@.wf(),
            count_nodes(board@, depth as nat) <= u64::MAX,
            count == count_below(board@, depth as nat, i as nat),
        decreases total - i,
    {
        proof {
            lemma_count_below_monotonic(board@, depth as nat, (i + 1) as nat, total as nat);
        }
        if board.get(i) == Player::Empty {
            let mut next = board;
            next.make_move(Move { index: i as u16 });
            count += perft(next, depth - 1);
        }
        i += 1;
    }
    count
}

/// The positions for which a cache holds a count after the lines of play of
/// `depth` moves from `b` have been counted with it, where it held counts
/// for `held` before. Depths below two are not kept. A position that is
/// held is not gone into; one that is not is held once the positions below
/// it have been counted.
pub open spec fn held_after(b: Position, depth: nat, held: Set<(Seq<Player>, nat)>) -> Set<
    (Seq<Player>, nat),
>
    decreases depth, b.cells.len() + 1,
{
    if depth < 2 || held.contains((b.cells, depth)) {
        held
    } else {
        held_below(b, depth, b.cells.len(), held).insert((b.cells, depth))
    }
}

/// The positions for which the cache holds a count when the first moves to
/// the first `n` cells have been gone through, in the order of the cells.
pub open spec fn held_below(b: Position, depth: nat, n: nat, held: Set<(Seq<Player>, nat)>) -> Set<
    (Seq<Player>, nat),
>
    decreases depth, n,
{
    if depth == 0 || n == 0 || n > b.cells.len() {
        held
    } else if b.cells[n - 1] == Player::Empty {
        held_after(b.play(n - 1), (depth - 1) as nat, held_below(b, depth, (n - 1) as nat, held))
    } else {
        held_below(b, depth, (n - 1) as nat, held)
    }
}

/// What holds of an entry that counting from `b` at `depth` adds to a cache:
/// it belongs to a position that lies some moves below `b`, and to the depth
/// that is left there, which is two at least.
pub open spec fn added_below(b: Position, depth: nat, key: (Seq<Player>, nat)) -> bool {
    &&& 2 <= key.1 <= depth
    &&& key.0.len() == b.cells.len()
    &&& stones(key.0) == stones(b.cells) + depth - key.1
}

/// Counts the lines of play of exactly `depth` moves from `board`, as
/// `perft` does, and keeps the counts for depths of two and more in `cache`:
/// a count that is held there is taken from it, and one that is not is put
/// there once it has been computed.
#[must_use]
pub fn perft_cached<const BOARD_SIZE: usize>(
    board: Board<BOARD_SIZE>,
    depth: u8,
    cache: &mut PerftCache<BOARD_SIZE>,
) -> (count: u64)
    requires
        board@.wf(),
        old(cache).wf(),
        count_nodes(board@, depth as nat) <= u64::MAX,
    ensures
        count == count_nodes(board@, depth as nat),
        final(cache).wf(),
        final(cache)@ == held_after(board@, depth as nat, old(cache)@),
        old(cache)@.subset_of(final(cache)@),
        depth < 2 || old(cache)@.contains((board@.cells, depth as nat)) ==> final(cache)@ == old(
            cache,
        )@,
        depth >= 2 ==> final(cache)@.contains((board@.cells, depth as nat)),
        forall|key: (Seq<Player>, nat)|
            final(cache)@.contains(key) && !old(cache)@.contains(key) ==> added_below(
                board@,
                depth as nat,
                key,
            ),
    decreases depth,
{
    if depth == 0 {
        return 1;
    }
    proof {
        board.lemma_view_shape();
        lemma_grid_size(BOARD_SIZE as int);
    }
    let total: usize = BOARD_SIZE * BOARD_SIZE;

    if depth == 1 {
        proof {
            lemma_count_at_depth_one(board@);
        }
        return count_moves(&board);
    }
    if let Some(count) = cache.get(&board, depth) {
        return count;
    }
    let mut count: u64 = 0;
    let mut i: usize = 0;
    while i < total
        invariant
            0 <= i <= total,
            total == board@.cells.len(),
            total == BOARD_SIZE * BOARD_SIZE,
            total <= 361,
            depth > 1,
            board@.wf(),
            cache.wf(),
            cache@ == held_below(board@, depth as nat, i as nat, old(cache)@),
            old(cache)@.subset_of(cache@),
            !old(cache)@.contains((board@.cells, depth as nat)),
            count_nodes(board@, depth as nat) <= u64::MAX,
            count == count_below(board@, depth as nat, i as nat),
            forall|key: (Seq<Player>, nat)|
                cache@.contains(key) && !old(cache)@.contains(key) ==> key.1 < depth && added_below(
                    board@,
                    depth as nat,
                    key,
                ),
        decreases total - i,
    {
        proof {
            lemma_count_below_monotonic(board@, depth as nat, (i + 1) as nat, total as nat);
        }
        if board.get(i) == Player::Empty {
            let mut next = board;
            next.make_move(Move { index: i as u16 });
            proof {
                lemma_stones_update(board@.cells, i as int, board@.turn());
            }
            count += perft_cached(next, depth - 1, cache);
        }
        i += 1;
    }
    cache.insert(board, depth, count);

    count
}

} // verus!
