//! Two boards are equal when the same stones lie on them, however they got
//! there.

use vstd::prelude::*;
use vstd::std_specs::cmp::PartialEqSpecImpl;
use crate::board::Board;
use crate::position::lemma_coordinates;

verus! {

impl<const SIDE_LENGTH: usize> PartialEq for Board<SIDE_LENGTH> {
    fn eq(&self, other: &Self) -> (equal: bool) {
        let mut i: usize = 0;
        while i < SIDE_LENGTH
            invariant
                0 <= i <= SIDE_LENGTH,
                forall|r: int, c: int|
                    0 <= r < i && 0 <= c < SIDE_LENGTH ==> self.cells@[r]@[c] == other.cells@[r]@[c],
            decreases SIDE_LENGTH - i,
        {
            let mut j: usize = 0;
            while j < SIDE_LENGTH
                invariant
                    0 <= i < SIDE_LENGTH,
                    0 <= j <= SIDE_LENGTH,
                    forall|r: int, c: int|
                        0 <= r < i && 0 <= c < SIDE_LENGTH ==> self.cells@[r]@[c]
                            == other.cells@[r]@[c],
                    forall|c: int|
                        0 <= c < j ==> self.cells@[i as int]@[c] == other.cells@[i as int]@[c],
                decreases SIDE_LENGTH - j,
            {
                if self.cells[i][j] != other.cells[i][j] {
                    proof {
                        self.lemma_differs(other, i as int, j as int);
                    }
                    return false;
                }
                j += 1;
            }
            i += 1;
        }
        proof {
            self.lemma_agrees(other);
        }
        true
    }
}

impl<const SIDE_LENGTH: usize> Eq for Board<SIDE_LENGTH> {

}

impl<const SIDE_LENGTH: usize> core::hash::Hash for Board<SIDE_LENGTH> {
    /// Feeds the grid, and nothing else, to the hasher: `Hash::hash` of the
    /// array of cells. Equal boards are hashed alike.
    #[verifier::external_body]
    fn hash<H: core::hash::Hasher>(&self, state: &mut H) {
        self.cells.hash(state);
    }
}

impl<const SIDE_LENGTH: usize> PartialEqSpecImpl for Board<SIDE_LENGTH> {
    open spec fn obeys_eq_spec() -> bool {
        true
    }

    open spec fn eq_spec(&self, other: &Self) -> bool {
        self@.cells == other@.cells
    }
}

impl<const SIDE_LENGTH: usize> Board<SIDE_LENGTH> {
    /// Boards that differ in one cell have different grids.
    proof fn lemma_differs(&self, other: &Self, row: int, col: int)
        requires
            0 <= row < SIDE_LENGTH,
            0 <= col < SIDE_LENGTH,
            self.cells@[row]@[col] != other.cells@[row]@[col],
        ensures
            self@.cells != other@.cells,
    {
        crate::position::lemma_index_of(row, col, SIDE_LENGTH as int);
        let index = row * SIDE_LENGTH + col;
        assert(other@.cells[index] == other.cell(index));
    }

    /// Boards that agree in every cell have the same grid.
    proof fn lemma_agrees(&self, other: &Self)
        requires
            forall|r: int, c: int|
                0 <= r < SIDE_LENGTH && 0 <= c < SIDE_LENGTH ==> self.cells@[r]@[c]
                    == other.cells@[r]@[c],
        ensures
            self@.cells == other@.cells,
    {
        assert forall|i: int| 0 <= i < SIDE_LENGTH * SIDE_LENGTH implies self.cell(i)
            == other.cell(i) by {
            lemma_coordinates(i, SIDE_LENGTH as int);
        }
    }
}

} // verus!
