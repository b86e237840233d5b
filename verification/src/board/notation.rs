//! The label of a move: a letter for the column and a number, counted from
//! one, for the row, as in `A1` or `K12`.

use vstd::prelude::*;
use vstd::string::StringSliceAdditionalSpecFns;
use vstd::utf8::{encode_utf8, is_ascii_chars, is_ascii_chars_encode_utf8};
use crate::board::Move;
use crate::position::{MAX_SIDE_LENGTH, lemma_coordinates, lemma_grid_size};
use crate::text::{decimal, digit_char, push_decimal};

verus! {

/// Why a text is not the label of a move.
#[derive(Clone, Copy, PartialEq, Eq, Debug, Structural)]
pub enum MoveError {
    /// The text is not two or three bytes long.
    Length,
    /// The first byte is no letter of the board.
    Row,
    /// What follows the letter is not a number from 1 on.
    Column,
    /// The label points beyond the board.
    Index,
}

impl MoveError {
    /// The error in words.
    pub open spec fn message_text(self) -> Seq<char> {
        match self {
            MoveError::Length => "Invalid move string, must be 2 or 3 characters"@,
            MoveError::Row => "Invalid row in move string"@,
            MoveError::Column => "Invalid column in move string"@,
            MoveError::Index => "Invalid index in move string"@,
        }
    }

    /// The error in words.
    pub fn message(&self) -> (text: &'static str)
        ensures
            text@ == self.message_text(),
    {
        match self {
            MoveError::Length => "Invalid move string, must be 2 or 3 characters",
            MoveError::Row => "Invalid row in move string",
            MoveError::Column => "Invalid column in move string",
            MoveError::Index => "Invalid index in move string",
        }
    }
}

/// The label of the cell `index` on a board of the given side length.
pub open spec fn label(index: nat, side: nat) -> Seq<char> {
    seq![((index % side) + 0x41) as char] + decimal(index / side + 1)
}

/// A small letter as a capital letter, and any other byte as it is.
pub open spec fn upper(byte: u8) -> u8 {
    if 0x61 <= byte <= 0x7a {
        (byte - 0x20) as u8
    } else {
        byte
    }
}

/// Whether `byte` is one of the digits `0` to `9`.
pub open spec fn is_digit_byte(byte: u8) -> bool {
    0x30 <= byte <= 0x39
}

/// The number that one or two digits after the letter stand for.
pub open spec fn label_number(bytes: Seq<u8>) -> int {
    if bytes.len() == 2 {
        bytes[1] - 0x30
    } else {
        (bytes[1] - 0x30) * 10 + (bytes[2] - 0x30)
    }
}

/// The cell that a label names on a board of the given side length, or the
/// first reason why it names none. The letter may be small or capital; the
/// letter after the last column of a row stands for the first cell of the
/// next row.
pub open spec fn parse_label(bytes: Seq<u8>, side: nat) -> Result<nat, MoveError> {
    if bytes.len() != 2 && bytes.len() != 3 {
        Err(MoveError::Length)
    } else if upper(bytes[0]) < 0x41 || upper(bytes[0]) > 0x41 + side {
        Err(MoveError::Row)
    } else if !is_digit_byte(bytes[1]) || (bytes.len() == 3 && !is_digit_byte(bytes[2]))
        || label_number(bytes) == 0 {
        Err(MoveError::Column)
    } else {
        let index = (label_number(bytes) - 1) * side + (upper(bytes[0]) - 0x41);
        if index >= side * side {
            Err(MoveError::Index)
        } else {
            Ok(index as nat)
        }
    }
}

/// The label of every cell of a board is read back as that cell.
pub proof fn lemma_label_round_trip(index: nat, side: nat)
    requires
        1 <= side <= MAX_SIDE_LENGTH,
        index < side * side,
    ensures
        is_ascii_chars(label(index, side)),
        parse_label(encode_utf8(label(index, side)), side) == Ok::<nat, MoveError>(index),
{
    lemma_coordinates(index as int, side as int);
    let text = label(index, side);
    let number = index / side + 1;
    reveal_with_fuel(decimal, 2);
    assert(decimal(number) == if number < 10 {
        seq![digit_char(number)]
    } else {
        seq![digit_char(number / 10), digit_char(number % 10)]
    });
    assert(is_ascii_chars(text));
    is_ascii_chars_encode_utf8(text);
    let bytes = encode_utf8(text);
    assert(bytes[0] == text[0] as u8);
    assert(bytes[1] == text[1] as u8);
    if number >= 10 {
        assert(bytes[2] == text[2] as u8);
    }
    assert(label_number(bytes) == number);
    let q = index as int / side as int;
    let r = index as int % side as int;
    assert((number - 1) * side + r == index) by (nonlinear_arith)
        requires
            number - 1 == q,
            index == q * side + r,
    ;
}

impl<const SIDE_LENGTH: usize> Move<SIDE_LENGTH> {
    /// The label of the move.
    pub fn to_string(&self) -> (text: String)
        requires
            1 <= SIDE_LENGTH <= MAX_SIDE_LENGTH,
        ensures
            text@ == label(self.index as nat, SIDE_LENGTH as nat),
    {
        let row: u16 = self.index % SIDE_LENGTH as u16;
        let col: u16 = self.index / SIDE_LENGTH as u16;
        let mut out = String::new();
        out.push((0x41u8 + row as u8) as char);
        push_decimal(&mut out, col as u32 + 1);
        assert(out@ =~= label(self.index as nat, SIDE_LENGTH as nat));
        out
    }

    /// Reads the label of a move.
    pub fn from_str(s: &str) -> (result: Result<Self, MoveError>)
        requires
            SIDE_LENGTH <= MAX_SIDE_LENGTH,
        ensures
            result == match parse_label(s.spec_bytes(), SIDE_LENGTH as nat) {
                Ok(index) => Ok::<Self, MoveError>(Move { index: index as u16 }),
                Err(e) => Err(e),
            },
    {
        let bytes = s.as_bytes();
        if bytes.len() != 2 && bytes.len() != 3 {
            return Err(MoveError::Length);
        }
        let first: u8 = bytes[0];
        let row: u8 = if 0x61 <= first && first <= 0x7a {
            first - 0x20
        } else {
            first
        };
        if row < 0x41 || row > 0x41 + SIDE_LENGTH as u8 {
            return Err(MoveError::Row);
        }
        let tens: u8 = bytes[1];
        if tens < 0x30 || tens > 0x39 {
            return Err(MoveError::Column);
        }
        let number: u8 = if bytes.len() == 3 {
            let ones: u8 = bytes[2];
            if ones < 0x30 || ones > 0x39 {
                return Err(MoveError::Column);
            }
            (tens - 0x30) * 10 + (ones - 0x30)
        } else {
            tens - 0x30
        };
        if number == 0 {
            return Err(MoveError::Column);
        }
        let col: u8 = number - 1;
        proof {
            lemma_grid_size(SIDE_LENGTH as int);
            assert(col * SIDE_LENGTH <= 98 * 19) by (nonlinear_arith)
                requires
                    0 <= col <= 98,
                    0 <= SIDE_LENGTH <= 19,
            ;
        }
        let index: u16 = col as u16 * SIDE_LENGTH as u16 + (row - 0x41) as u16;
        if index >= SIDE_LENGTH as u16 * SIDE_LENGTH as u16 {
            return Err(MoveError::Index);
        }
        Ok(Self { index })
    }
}

} // verus!
