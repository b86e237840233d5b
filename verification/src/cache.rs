//! A table of node counts that have been computed, keyed by the stones on the
//! board and the remaining depth.

use vstd::prelude::*;
use std::collections::HashMap;
use crate::board::Board;
use crate::perft::{count_nodes, lemma_count_depends_on_stones};
use crate::position::{Player, lemma_grid_size};

verus! {

/// The multiplier of the bucket number.
const HASH_FACTOR: u64 = 1099511628211;

/// The number that a cell adds to the bucket number.
spec fn cell_code(player: Player) -> int {
    match player {
        Player::Empty => 0,
        Player::X => 1,
        Player::O => 2,
    }
}

/// The number of the bucket that holds the count for a grid and a depth.
spec fn bucket_of(cells: Seq<Player>, depth: nat) -> int
    decreases cells.len(),
{
    if cells.len() == 0 {
        depth as int % 0x1_0000_0000_0000_0000
    } else {
        (bucket_of(cells.drop_last(), depth) * HASH_FACTOR + cell_code(cells.last()))
            % 0x1_0000_0000_0000_0000
    }
}

/// One computed count with the position it belongs to.
#[derive(Clone, Copy, Debug)]
struct CacheEntry<const SIDE_LENGTH: usize> {
    board: Board<SIDE_LENGTH>,
    depth: u8,
    count: u64,
}

/// Node counts that have been computed, found again by the stones on the
/// board and the remaining depth. How a position was reached plays no part.
pub struct PerftCache<const SIDE_LENGTH: usize> {
    buckets: HashMap<u64, Vec<CacheEntry<SIDE_LENGTH>>>,
}

impl<const SIDE_LENGTH: usize> View for PerftCache<SIDE_LENGTH> {
    type V = Set<(Seq<Player>, nat)>;

    /// The grids and depths for which a count is held.
    closed spec fn view(&self) -> Set<(Seq<Player>, nat)> {
        Set::new(|key: (Seq<Player>, nat)| self.holds(key.0, key.1))
    }
}

impl<const SIDE_LENGTH: usize> PerftCache<SIDE_LENGTH> {
    /// The entries that share the bucket of the given grid and depth.
    closed spec fn bucket(&self, cells: Seq<Player>, depth: nat) -> Seq<CacheEntry<SIDE_LENGTH>> {
        let number = bucket_of(cells, depth) as u64;
        if self.buckets@.contains_key(number) {
            self.buckets@[number]@
        } else {
            Seq::empty()
        }
    }

    /// A count is held for the given grid and depth.
    closed spec fn holds(&self, cells: Seq<Player>, depth: nat) -> bool {
        exists|i: int|
            0 <= i < self.bucket(cells, depth).len() && (#[trigger] self.bucket(
                cells,
                depth,
            )[i]).board@.cells == cells && self.bucket(cells, depth)[i].depth == depth
    }

    /// Every count in the table is the node count of its position.
    pub closed spec fn wf(&self) -> bool {
        forall|number: u64, i: int|
            self.buckets@.contains_key(number) && 0 <= i < self.buckets@[number]@.len() ==> (
            #[trigger] self.buckets@[number]@[i]).count == count_nodes(
                self.buckets@[number]@[i].board@,
                self.buckets@[number]@[i].depth as nat,
            )
    }

    /// An empty table.
    pub fn new() -> (cache: Self)
        ensures
            cache.wf(),
            cache@ == Set::<(Seq<Player>, nat)>::empty(),
    {
        Self { buckets: HashMap::new() }
    }

    /// The number of the bucket for `board` at `depth`.
    fn bucket_number(board: &Board<SIDE_LENGTH>, depth: u8) -> (number: u64)
        requires
            SIDE_LENGTH <= crate::position::MAX_SIDE_LENGTH,
        ensures
            number == bucket_of(board@.cells, depth as nat),
    {
        proof {
            board.lemma_view_shape();
            lemma_grid_size(SIDE_LENGTH as int);
        }
        let total: usize = SIDE_LENGTH * SIDE_LENGTH;
        let mut number: u64 = depth as u64;
        let mut i: usize = 0;
        while i < total
            invariant
                0 <= i <= total,
                total == SIDE_LENGTH * SIDE_LENGTH,
                total == board@.cells.len(),
                number == bucket_of(board@.cells.take(i as int), depth as nat),
            decreases total - i,
        {
            let code: u128 = match board.get(i) {
                Player::Empty => 0,
                Player::X => 1,
                Player::O => 2,
            };
            proof {
                assert(board@.cells.take(i + 1).drop_last() =~= board@.cells.take(i as int));
                assert(number as int * HASH_FACTOR as int <= 0xffff_ffff_ffff_ffff
                    * 1099511628211) by (nonlinear_arith)
                    requires
                        0 <= number as int <= 0xffff_ffff_ffff_ffff,
                        HASH_FACTOR as int == 1099511628211,
                ;
            }
            number = ((number as u128 * HASH_FACTOR as u128 + code) % 0x1_0000_0000_0000_0000u128) as u64;
            i += 1;
        }
        assert(board@.cells.take(total as int) =~= board@.cells);
        number
    }

    /// The count held for the stones of `board` at `depth`, if there is one.
    pub fn get(&self, board: &Board<SIDE_LENGTH>, depth: u8) -> (found: Option<u64>)
        requires
            self.wf(),
            SIDE_LENGTH <= crate::position::MAX_SIDE_LENGTH,
        ensures
            found is Some <==> self@.contains((board@.cells, depth as nat)),
            found matches Some(count) ==> count == count_nodes(board@, depth as nat),
    {
        let number = Self::bucket_number(board, depth);
        let ghost entries = self.bucket(board@.cells, depth as nat);
        match self.buckets.get(&number) {
            None => None,
            Some(bucket) => {
                let mut i: usize = 0;
                while i < bucket.len()
                    invariant
                        0 <= i <= bucket.len(),
                        self.wf(),
                        self.buckets@.contains_key(number),
                        self.buckets@[number]@ == bucket@,
                        entries == self.bucket(board@.cells, depth as nat),
                        bucket@ == entries,
                        forall|k: int|
                            0 <= k < i ==> !((#[trigger] entries[k]).board@.cells == board@.cells
                                && entries[k].depth == depth),
                    decreases bucket.len() - i,
                {
                    let entry = bucket[i];
                    if entry.depth == depth && entry.board == *board {
                        proof {
                            lemma_count_depends_on_stones(entry.board@, board@, depth as nat);
                        }
                        return Some(entry.count);
                    }
                    i += 1;
                }
                None
            },
        }
    }

    /// Puts the node count of `board` at `depth` into the table.
    pub fn insert(&mut self, board: Board<SIDE_LENGTH>, depth: u8, count: u64)
        requires
            old(self).wf(),
            SIDE_LENGTH <= crate::position::MAX_SIDE_LENGTH,
            count == count_nodes(board@, depth as nat),
        ensures
            final(self).wf(),
            final(self)@ == old(self)@.insert((board@.cells, depth as nat)),
    {
        let number = Self::bucket_number(&board, depth);
        let mut bucket = match self.buckets.remove(&number) {
            Some(bucket) => bucket,
            None => Vec::new(),
        };
        let ghost before = bucket@;
        bucket.push(CacheEntry { board, depth, count });
        self.buckets.insert(number, bucket);
        proof {
            assert forall|key: (Seq<Player>, nat)| final(self)@.contains(key) <==> old(
                self,
            )@.insert((board@.cells, depth as nat)).contains(key) by {
                let old_bucket = old(self).bucket(key.0, key.1);
                let new_bucket = self.bucket(key.0, key.1);
                if bucket_of(key.0, key.1) as u64 == number {
                    // the bucket of the key has grown by the new entry
                    assert(new_bucket == before.push(CacheEntry { board, depth, count }));
                    if old(self).holds(key.0, key.1) {
                        let i = choose|i: int|
                            0 <= i < old_bucket.len() && (#[trigger] old_bucket[i]).board@.cells
                                == key.0 && old_bucket[i].depth == key.1;
                        assert(new_bucket[i] == old_bucket[i]);
                    }
                    if key == (board@.cells, depth as nat) {
                        assert(new_bucket[before.len() as int].board@.cells == key.0);
                    }
                }
            }
        }
    }
}

} // verus!
