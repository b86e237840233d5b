//! The one-line notation of a board: the rows of the grid from the first to
//! the last, separated by `/`, then the side to move, then the number of
//! moves made, as in `x.....o/......./......./......./......./......./o.....x x 4`.

use vstd::prelude::*;
use crate::board::Board;
use crate::position::{Player, Position, MAX_SIDE_LENGTH, lemma_coordinates, lemma_index_of};
use crate::text::{
    chars_of, decimal, first_word, is_digit, is_space, lemma_decimal, lemma_parse_decimal,
    lemma_skip_spaces, lemma_word_end, next_word, parse_u16, parse_u16_in, push_decimal,
    skip_spaces_in, word_at, word_end_in,
};

verus! {

/// Why a text is not the notation of a board.
#[derive(Clone, Copy, PartialEq, Eq, Debug, Structural)]
pub enum FenError {
    /// The text holds no word at all.
    MissingBoard,
    /// The text ends after the grid.
    MissingTurn,
    /// The side to move is neither `x` nor `o`.
    InvalidTurn,
    /// The number of moves is missing, or is no number below 65536.
    InvalidPly,
    /// The side to move is not the one that the number of moves gives.
    TurnMismatch,
    /// A row is longer than the board is wide.
    TooManyColumns,
    /// A cell is none of `x`, `o` and `.`.
    InvalidCharacter,
    /// A row is shorter than the board is wide.
    TooFewColumns,
    /// The grid has more or fewer rows than the board.
    RowCount,
}

impl FenError {
    /// The error in words.
    pub open spec fn message_text(self) -> Seq<char> {
        match self {
            FenError::MissingBoard => "No board part found in FEN string"@,
            FenError::MissingTurn => "No turn part found in FEN string"@,
            FenError::InvalidTurn => "Invalid turn part found in FEN string"@,
            FenError::InvalidPly => "No ply part found in FEN string"@,
            FenError::TurnMismatch => "Turn part does not match ply part in FEN string"@,
            FenError::TooManyColumns => "Too many columns in FEN string"@,
            FenError::InvalidCharacter => "Invalid character in FEN string"@,
            FenError::TooFewColumns => "Too few columns in FEN string"@,
            FenError::RowCount => "Wrong number of rows in FEN string"@,
        }
    }

    /// The error in words.
    pub fn message(&self) -> (text: &'static str)
        ensures
            text@ == self.message_text(),
    {
        match self {
            FenError::MissingBoard => "No board part found in FEN string",
            FenError::MissingTurn => "No turn part found in FEN string",
            FenError::InvalidTurn => "Invalid turn part found in FEN string",
            FenError::InvalidPly => "No ply part found in FEN string",
            FenError::TurnMismatch => "Turn part does not match ply part in FEN string",
            FenError::TooManyColumns => "Too many columns in FEN string",
            FenError::InvalidCharacter => "Invalid character in FEN string",
            FenError::TooFewColumns => "Too few columns in FEN string",
            FenError::RowCount => "Wrong number of rows in FEN string",
        }
    }
}

/// The character that stands for the content of a cell, or for a side.
pub open spec fn cell_symbol(player: Player) -> char {
    match player {
        Player::Empty => '.',
        Player::X => 'x',
        Player::O => 'o',
    }
}

/// What a character of the grid stands for.
pub open spec fn symbol_cell(c: char) -> Option<Player> {
    if c == 'x' {
        Some(Player::X)
    } else if c == 'o' {
        Some(Player::O)
    } else if c == '.' {
        Some(Player::Empty)
    } else {
        None
    }
}

/// One row of the grid as text.
pub open spec fn row_text(cells: Seq<Player>, side: nat, row: int) -> Seq<char> {
    Seq::new(side, |col: int| cell_symbol(cells[row * side + col]))
}

/// The first `n` rows of the grid as text, with `/` between them.
pub open spec fn rows_text(cells: Seq<Player>, side: nat, n: nat) -> Seq<char>
    decreases n,
{
    if n == 0 {
        Seq::empty()
    } else if n == 1 {
        row_text(cells, side, 0)
    } else {
        rows_text(cells, side, (n - 1) as nat).push('/') + row_text(cells, side, n - 1)
    }
}

/// The notation of a position.
pub open spec fn fen_text(b: Position) -> Seq<char> {
    rows_text(b.cells, b.side, b.side) + seq![' ', cell_symbol(b.turn()), ' '] + decimal(b.ply)
}

/// Reads the grid from the word `word`, from its character `at` on, where
/// `cells` have been read and the next cell is at `(row, col)`.
pub open spec fn scan_rows(
    word: Seq<char>,
    side: nat,
    at: int,
    row: int,
    col: int,
    cells: Seq<Player>,
) -> Result<Seq<Player>, FenError>
    decreases word.len() - at,
{
    if at < 0 || at >= word.len() {
        if col != side {
            Err(FenError::TooFewColumns)
        } else if row + 1 != side {
            Err(FenError::RowCount)
        } else {
            Ok(cells)
        }
    } else if word[at] == '/' {
        if col != side {
            Err(FenError::TooFewColumns)
        } else if row + 1 >= side {
            Err(FenError::RowCount)
        } else {
            scan_rows(word, side, at + 1, row + 1, 0, cells)
        }
    } else if col >= side {
        Err(FenError::TooManyColumns)
    } else {
        match symbol_cell(word[at]) {
            None => Err(FenError::InvalidCharacter),
            Some(player) => scan_rows(word, side, at + 1, row, col + 1, cells.push(player)),
        }
    }
}

/// The position that a text denotes on a board of the given side length, or
/// the first reason why it denotes none. The text is read as words between
/// blanks: the grid, the side to move (the first character of its word
/// counts), and the number of moves; further words are not looked at. The
/// position has no latest move.
pub open spec fn parse_fen(text: Seq<char>, side: nat) -> Result<Position, FenError> {
    let board_from = first_word(text);
    let turn_from = next_word(text, board_from);
    let ply_from = next_word(text, turn_from);
    if board_from >= text.len() {
        Err(FenError::MissingBoard)
    } else if turn_from >= text.len() {
        Err(FenError::MissingTurn)
    } else if text[turn_from] != 'x' && text[turn_from] != 'o' {
        Err(FenError::InvalidTurn)
    } else if ply_from >= text.len() {
        Err(FenError::InvalidPly)
    } else {
        match parse_u16(word_at(text, ply_from)) {
            None => Err(FenError::InvalidPly),
            Some(ply) => if (text[turn_from] == 'x') != (ply % 2 == 0) {
                Err(FenError::TurnMismatch)
            } else {
                match scan_rows(word_at(text, board_from), side, 0, 0, 0, Seq::empty()) {
                    Err(e) => Err(e),
                    Ok(cells) => Ok(Position { side, cells, last_move: None, ply: ply as nat }),
                }
            },
        }
    }
}

/// The character of the grid's text at column `col` of row `row`: the
/// symbol of the cell, or the `/` that ends the row.
pub open spec fn rows_char(cells: Seq<Player>, side: nat, row: int, col: int) -> char {
    if col == side {
        '/'
    } else {
        cell_symbol(cells[row * side + col])
    }
}

/// The text of `n` rows has `side` characters for each row and one for each
/// `/` between two rows, and each of them stands where its row and column
/// say.
pub proof fn lemma_rows_text_at(cells: Seq<Player>, side: nat, n: nat, row: int, col: int)
    requires
        1 <= side,
        1 <= n,
        0 <= row < n,
        0 <= col <= side,
        col == side ==> row < n - 1,
    ensures
        rows_text(cells, side, n).len() == n * (side + 1) - 1,
        0 <= row * (side + 1) + col < n * (side + 1) - 1,
        rows_text(cells, side, n)[row * (side + 1) + col] == rows_char(cells, side, row, col),
    decreases n,
{
    let width = side + 1;
    let at = row * width + col;
    if n == 1 {
        assert(at == col) by (nonlinear_arith)
            requires
                row == 0,
                at == row * width + col,
        ;
        assert(1 * width - 1 == side) by (nonlinear_arith)
            requires
                width == side + 1,
        ;
        assert(row * side + col == col) by (nonlinear_arith)
            requires
                row == 0,
        ;
    } else {
        let before = rows_text(cells, side, (n - 1) as nat);
        lemma_rows_text_at(cells, side, (n - 1) as nat, 0, 0);
        assert(n * width - 1 == ((n - 1) * width - 1) + 1 + side) by (nonlinear_arith)
            requires
                width == side + 1,
        ;
        if row < n - 1 {
            assert(at <= (n - 2) * width + col) by (nonlinear_arith)
                requires
                    at == row * width + col,
                    row <= n - 2,
                    width >= 0,
            ;
            assert((n - 2) * width + side == (n - 1) * width - 1) by (nonlinear_arith)
                requires
                    width == side + 1,
            ;
            assert(0 <= at) by (nonlinear_arith)
                requires
                    at == row * width + col,
                    0 <= row,
                    0 <= col,
                    0 <= width,
            ;
            if col == side && row == n - 2 {
                assert(at == before.len()) by (nonlinear_arith)
                    requires
                        at == row * width + col,
                        col == side,
                        row == n - 2,
                        before.len() == (n - 1) * width - 1,
                        width == side + 1,
                ;
            } else {
                lemma_rows_text_at(cells, side, (n - 1) as nat, row, col);
            }
        } else {
            assert(at == before.len() + 1 + col) by (nonlinear_arith)
                requires
                    at == row * width + col,
                    row == n - 1,
                    before.len() == (n - 1) * width - 1,
            ;
        }
    }
}

/// Reading the text of a grid from the place of `(row, col)` on, with the
/// cells before that place read, gives the grid.
pub proof fn lemma_scan_rows(cells: Seq<Player>, side: nat, row: int, col: int)
    requires
        1 <= side,
        cells.len() == side * side,
        0 <= row < side,
        0 <= col <= side,
    ensures
        scan_rows(
            rows_text(cells, side, side),
            side,
            row * (side + 1) + col,
            row,
            col,
            cells.take(row * side + col),
        ) == Ok::<Seq<Player>, FenError>(cells),
    decreases side - row, side - col,
{
    let word = rows_text(cells, side, side);
    let at = row * (side + 1) + col;
    let read = cells.take(row * side + col);
    lemma_rows_text_at(cells, side, side, 0, 0);
    assert(0 <= row * side + col <= side * side) by (nonlinear_arith)
        requires
            0 <= row < side,
            0 <= col <= side,
    ;
    if col < side {
        lemma_rows_text_at(cells, side, side, row, col);
        assert(row * side + col < side * side) by (nonlinear_arith)
            requires
                0 <= row < side,
                0 <= col < side,
        ;
        let player = cells[row * side + col];
        assert(symbol_cell(cell_symbol(player)) == Some(player));
        assert(read.push(player) =~= cells.take(row * side + (col + 1)));
        lemma_scan_rows(cells, side, row, col + 1);
    } else if row + 1 < side {
        lemma_rows_text_at(cells, side, side, row, col);
        assert((row + 1) * (side + 1) + 0 == at + 1) by (nonlinear_arith)
            requires
                at == row * (side + 1) + col,
                col == side,
        ;
        assert((row + 1) * side + 0 == row * side + col) by (nonlinear_arith)
            requires
                col == side,
        ;
        lemma_scan_rows(cells, side, row + 1, 0);
    } else {
        assert(at == word.len()) by (nonlinear_arith)
            requires
                at == row * (side + 1) + col,
                col == side,
                row + 1 == side,
                word.len() == side * (side + 1) - 1,
        ;
        assert(row * side + col == side * side) by (nonlinear_arith)
            requires
                col == side,
                row + 1 == side,
        ;
        assert(read =~= cells);
    }
}

/// The text of a grid holds no blank.
pub proof fn lemma_rows_text_has_no_blank(cells: Seq<Player>, side: nat, n: nat)
    ensures
        forall|i: int|
            0 <= i < rows_text(cells, side, n).len() ==> !is_space(
                #[trigger] rows_text(cells, side, n)[i],
            ),
    decreases n,
{
    let text = rows_text(cells, side, n);
    if n == 1 {
        assert forall|i: int| 0 <= i < text.len() implies !is_space(#[trigger] text[i]) by {
            assert(text[i] == cell_symbol(cells[0 * side + i]));
        }
    } else if n > 1 {
        lemma_rows_text_has_no_blank(cells, side, (n - 1) as nat);
        let before = rows_text(cells, side, (n - 1) as nat);
        assert forall|i: int| 0 <= i < text.len() implies !is_space(#[trigger] text[i]) by {
            if i < before.len() {
                assert(text[i] == before[i]);
            } else if i > before.len() {
                assert(text[i] == row_text(cells, side, n - 1)[i - before.len() - 1]);
            }
        }
    }
}

/// Decoding undoes encoding. The notation of a position, on a board of at
/// least one cell and with a move counter that fits in 16 bits, is read back
/// as the position with the same grid and the same counter, and so its own
/// notation is the same text again.
pub proof fn lemma_fen_round_trip(b: Position)
    requires
        1 <= b.side,
        b.cells.len() == b.side * b.side,
        b.ply <= u16::MAX,
    ensures
        parse_fen(fen_text(b), b.side) == Ok::<Position, FenError>(
            Position { side: b.side, cells: b.cells, last_move: None, ply: b.ply },
        ),
        fen_text(Position { side: b.side, cells: b.cells, last_move: None, ply: b.ply })
            == fen_text(b),
{
    let rows = rows_text(b.cells, b.side, b.side);
    let number = decimal(b.ply);
    let text = fen_text(b);
    let len = rows.len() as int;
    lemma_rows_text_at(b.cells, b.side, b.side, 0, 0);
    lemma_rows_text_has_no_blank(b.cells, b.side, b.side);
    lemma_decimal(b.ply);
    lemma_parse_decimal(b.ply);
    assert(len >= 1) by (nonlinear_arith)
        requires
            len == b.side * (b.side + 1) - 1,
            b.side >= 1,
    ;
    assert(text.len() == len + 3 + number.len());
    assert forall|i: int| 0 <= i < len implies !is_space(#[trigger] text[i]) by {
        assert(text[i] == rows[i]);
    }
    assert(text[len] == ' ');
    assert(text[len + 1] == cell_symbol(b.turn()));
    assert(text[len + 2] == ' ');
    assert forall|i: int| len + 3 <= i < text.len() implies !is_space(#[trigger] text[i]) by {
        assert(text[i] == number[i - len - 3]);
        assert(is_digit(number[i - len - 3]));
    }
    lemma_skip_spaces(text, 0, 0);
    lemma_word_end(text, 0, len);
    lemma_skip_spaces(text, len, len + 1);
    lemma_word_end(text, len + 1, len + 2);
    lemma_skip_spaces(text, len + 2, len + 3);
    lemma_word_end(text, len + 3, text.len() as int);
    assert(text.subrange(len + 3, text.len() as int) =~= number);
    assert(text.subrange(0, len) =~= rows);
    assert(0 * (b.side + 1) + 0 == 0);
    assert(0 * b.side + 0 == 0);
    assert(b.cells.take(0) =~= Seq::<Player>::empty());
    lemma_scan_rows(b.cells, b.side, 0, 0);
}

/// A side to move that contradicts the number of moves is an error. Where
/// the three words are there, the side is `x` or `o` and the number of
/// moves is a number `ply`, but `ply` is even and the side is `o`, or `ply`
/// is odd and the side is `x`, the text denotes no position, whatever its
/// grid holds.
pub proof fn lemma_turn_mismatch_is_rejected(text: Seq<char>, side: nat, ply: u16)
    requires
        first_word(text) < text.len(),
        next_word(text, first_word(text)) < text.len(),
        text[next_word(text, first_word(text))] == 'x' || text[next_word(text, first_word(text))]
            == 'o',
        next_word(text, next_word(text, first_word(text))) < text.len(),
        parse_u16(word_at(text, next_word(text, next_word(text, first_word(text))))) == Some(ply),
        (text[next_word(text, first_word(text))] == 'x') != (ply % 2 == 0),
    ensures
        parse_fen(text, side) == Err::<Position, FenError>(FenError::TurnMismatch),
{
}

/// A position that a text denotes has the side to move that the text names,
/// the side length that was asked for, and no latest move.
pub proof fn lemma_decoded_turn_agrees(text: Seq<char>, side: nat)
    requires
        parse_fen(text, side) is Ok,
    ensures
        text[next_word(text, first_word(text))] == cell_symbol(parse_fen(text, side)->Ok_0.turn()),
        parse_fen(text, side)->Ok_0.last_move is None,
        parse_fen(text, side)->Ok_0.side == side,
{
}

impl<const SIDE_LENGTH: usize> Board<SIDE_LENGTH> {
    /// The FEN string for the current board state.
    #[must_use]
    pub fn fen(&self) -> (text: String)
        ensures
            text@ == fen_text(self@),
    {
        let ghost cells = self@.cells;
        let ghost side = SIDE_LENGTH as nat;
        let mut out = String::new();
        let mut row: usize = 0;
        while row < SIDE_LENGTH
            invariant
                0 <= row <= SIDE_LENGTH,
                cells == self@.cells,
                side == SIDE_LENGTH,
                out@ == rows_text(cells, side, row as nat),
            decreases SIDE_LENGTH - row,
        {
            if row > 0 {
                out.push('/');
            }
            let ghost before = out@;
            let mut col: usize = 0;
            while col < SIDE_LENGTH
                invariant
                    0 <= row < SIDE_LENGTH,
                    0 <= col <= SIDE_LENGTH,
                    cells == self@.cells,
                    side == SIDE_LENGTH,
                    out@ == before + row_text(cells, side, row as int).take(col as int),
                decreases SIDE_LENGTH - col,
            {
                proof {
                    lemma_index_of(row as int, col as int, SIDE_LENGTH as int);
                    assert(cells[row * side + col] == self.cell(row * side + col));
                }
                match self.cells[row][col] {
                    Player::Empty => out.push('.'),
                    Player::X => out.push('x'),
                    Player::O => out.push('o'),
                }
                assert(row_text(cells, side, row as int).take(col + 1) =~= row_text(
                    cells,
                    side,
                    row as int,
                ).take(col as int).push(cell_symbol(cells[row * side + col])));
                col += 1;
                assert(out@ =~= before + row_text(cells, side, row as int).take(col as int));
            }
            assert(row_text(cells, side, row as int).take(side as int) =~= row_text(
                cells,
                side,
                row as int,
            ));
            assert(out@ =~= rows_text(cells, side, (row + 1) as nat)) by {
                if row == 0 {
                    assert(before =~= Seq::<char>::empty());
                }
            }
            row += 1;
        }
        out.push(' ');
        out.push(
            match self.turn() {
                Player::X => 'x',
                Player::O => 'o',
                Player::Empty => vstd::pervasive::unreached(),
            },
        );
        out.push(' ');
        let ghost head = out@;
        push_decimal(&mut out, self.ply as u32);
        assert(head =~= rows_text(cells, side, side) + seq![' ', cell_symbol(self@.turn()), ' ']);
        out
    }

    /// Parses a FEN string variant for gomoku.
    /// an example 7x7 fen string would be:
    /// `x.....o/......./......./......./......./......./o.....x x 4`,
    /// meaning that there are four pieces placed (in the corners)
    /// and x is to move next.
    #[verifier::loop_isolation(false)]
    pub fn from_str(s: &str) -> (result: Result<Self, FenError>)
        requires
            SIDE_LENGTH <= MAX_SIDE_LENGTH,
        ensures
            match parse_fen(s@, SIDE_LENGTH as nat) {
                Ok(position) => result matches Ok(board) && board@ == position,
                Err(e) => result matches Err(error) && error == e,
            },
    {
        let text = chars_of(s);
        let len: usize = text.len();
        let board_from = skip_spaces_in(&text, 0);
        if board_from >= len {
            return Err(FenError::MissingBoard);
        }
        let board_to = word_end_in(&text, board_from);
        let turn_from = skip_spaces_in(&text, board_to);
        if turn_from >= len {
            return Err(FenError::MissingTurn);
        }
        let turn_to = word_end_in(&text, turn_from);
        let turn = if text[turn_from] == 'x' {
            Player::X
        } else if text[turn_from] == 'o' {
            Player::O
        } else {
            return Err(FenError::InvalidTurn);
        };
        let ply_from = skip_spaces_in(&text, turn_to);
        if ply_from >= len {
            return Err(FenError::InvalidPly);
        }
        let ply_to = word_end_in(&text, ply_from);
        let ply: u16 = match parse_u16_in(&text, ply_from, ply_to) {
            Some(ply) => ply,
            None => {
                return Err(FenError::InvalidPly);
            },
        };
        let mut out = Self::new();
        out.ply = ply;
        if out.turn() != turn {
            return Err(FenError::TurnMismatch);
        }
        let ghost word = text@.subrange(board_from as int, board_to as int);
        let ghost side = SIDE_LENGTH as nat;
        let ghost mut cells: Seq<Player> = Seq::empty();
        let mut at: usize = board_from;
        let mut row: usize = 0;
        let mut col: usize = 0;
        assert(0 * SIDE_LENGTH + 0 == 0);
        while at < board_to
            invariant
                board_from <= at <= board_to <= text.len(),
                word == text@.subrange(board_from as int, board_to as int),
                side == SIDE_LENGTH,
                SIDE_LENGTH <= MAX_SIDE_LENGTH,
                row < SIDE_LENGTH || (row == 0 && SIDE_LENGTH == 0),
                col <= SIDE_LENGTH,
                cells.len() == row * SIDE_LENGTH + col,
                forall|k: int| 0 <= k < cells.len() ==> out.cell(k) == cells[k],
                out.ply == ply,
                out.last_move is None,
                scan_rows(word, side, 0, 0, 0, Seq::empty()) == scan_rows(
                    word,
                    side,
                    at - board_from,
                    row as int,
                    col as int,
                    cells,
                ),
            decreases board_to - at,
        {
            let c = text[at];
            assert(word[at - board_from] == c);
            if c == '/' {
                if col != SIDE_LENGTH {
                    return Err(FenError::TooFewColumns);
                }
                if row + 1 >= SIDE_LENGTH {
                    return Err(FenError::RowCount);
                }
                assert((row + 1) * SIDE_LENGTH + 0 == row * SIDE_LENGTH + col) by (nonlinear_arith)
                    requires
                        col == SIDE_LENGTH,
                ;
                row += 1;
                col = 0;
            } else {
                if col >= SIDE_LENGTH {
                    return Err(FenError::TooManyColumns);
                }
                let player = if c == 'x' {
                    Player::X
                } else if c == 'o' {
                    Player::O
                } else if c == '.' {
                    Player::Empty
                } else {
                    return Err(FenError::InvalidCharacter);
                };
                let ghost earlier = out;
                out.cells[row][col] = player;
                proof {
                    lemma_index_of(row as int, col as int, SIDE_LENGTH as int);
                    assert forall|k: int| 0 <= k < cells.len() implies out.cell(k) == cells[k] by {
                        lemma_coordinates_below(k, row as int, col as int, SIDE_LENGTH as int);
                        assert(earlier.cell(k) == cells[k]);
                    }
                    cells = cells.push(player);
                }
                col += 1;
            }
            at += 1;
        }
        if col != SIDE_LENGTH {
            return Err(FenError::TooFewColumns);
        }
        if row + 1 != SIDE_LENGTH {
            return Err(FenError::RowCount);
        }
        proof {
            assert(cells.len() == SIDE_LENGTH * SIDE_LENGTH) by (nonlinear_arith)
                requires
                    cells.len() == row * SIDE_LENGTH + col,
                    col == SIDE_LENGTH,
                    row + 1 == SIDE_LENGTH,
            ;
            assert(out@.cells =~= cells);
        }
        Ok(out)
    }
}

/// A cell that comes before `(row, col)` in row-major order lies in an
/// earlier row, or in the same row further left.
proof fn lemma_coordinates_below(index: int, row: int, col: int, side: int)
    requires
        0 <= row < side,
        0 <= col < side,
        0 <= index < row * side + col,
    ensures
        0 <= index / side <= row,
        0 <= index % side < side,
        index / side == row ==> index % side < col,
{
    lemma_index_of(row, col, side);
    assert(index < side * side) by (nonlinear_arith)
        requires
            0 <= row < side,
            0 <= col < side,
            index < row * side + col,
    ;
    lemma_coordinates(index, side);
    let q = index / side;
    let r = index % side;
    assert(q <= row) by (nonlinear_arith)
        requires
            q * side + r < row * side + col,
            0 <= r,
            0 <= col < side,
            side > 0,
    ;
}

} // verus!
