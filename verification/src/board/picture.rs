//! The picture of a board for a terminal: a framed grid with the last row on
//! top, the letters of the columns below it, and the side to move.

use vstd::prelude::*;
use vstd::string::StringExecFns;
use crate::board::Board;
use crate::position::{Player, Position, MAX_SIDE_LENGTH, lemma_index_of};
use crate::text::{decimal, push_decimal};

verus! {

/// `piece`, `n` times over.
pub open spec fn repeated(piece: Seq<char>, n: nat) -> Seq<char>
    decreases n,
{
    if n == 0 {
        Seq::empty()
    } else {
        repeated(piece, (n - 1) as nat) + piece
    }
}

/// A horizontal line of the frame for a board of `side` columns: a left
/// end, the piece above all columns but the last, and the piece above the
/// last column.
pub open spec fn frame_line(left: Seq<char>, joint: Seq<char>, right: Seq<char>, side: nat) -> Seq<
    char,
> {
    left + repeated(joint, (side - 1) as nat) + right
}

/// How the content of a cell is drawn: the first player's stone as a bold
/// red `X`, the second player's as a bold blue `O`.
pub open spec fn stone_picture(player: Player) -> Seq<char> {
    match player {
        Player::Empty => " "@,
        Player::X => "\x1b[1m\x1b[31mX\x1b[0m"@,
        Player::O => "\x1b[1m\x1b[34mO\x1b[0m"@,
    }
}

/// The first `n` cells of the row `rank`, each behind a bar.
pub open spec fn cells_picture(b: Position, rank: int, n: nat) -> Seq<char>
    decreases n,
{
    if n == 0 {
        Seq::empty()
    } else {
        cells_picture(b, rank, (n - 1) as nat) + " │ "@ + stone_picture(
            b.cells[rank * b.side + (n - 1)],
        )
    }
}

/// The row `rank` with the bar that closes it, its number counted from one,
/// and the end of the line.
pub open spec fn rank_picture(b: Position, rank: int) -> Seq<char> {
    cells_picture(b, rank, b.side) + " │ "@ + decimal((rank + 1) as nat) + seq!['\n']
}

/// The topmost `n` rows, the last row of the board first, with a line of
/// the frame between each two.
pub open spec fn ranks_picture(b: Position, n: nat) -> Seq<char>
    decreases n,
{
    if n == 0 {
        Seq::empty()
    } else if n == 1 {
        rank_picture(b, b.side - 1)
    } else {
        ranks_picture(b, (n - 1) as nat) + frame_line(" ├"@, "───┼"@, "───┤"@, b.side) + seq!['\n']
            + rank_picture(b, b.side - n)
    }
}

/// The letters of the first `n` columns, each behind three blanks.
pub open spec fn files_picture(n: nat) -> Seq<char>
    decreases n,
{
    if n == 0 {
        Seq::empty()
    } else {
        files_picture((n - 1) as nat) + "   "@ + seq![((n - 1) + 0x41) as char]
    }
}

/// The picture of a position.
pub open spec fn board_picture(b: Position) -> Seq<char> {
    frame_line(" ╭"@, "───┬"@, "───╮"@, b.side) + seq!['\n'] + ranks_picture(b, b.side) + frame_line(
        " ╰"@,
        "───┴"@,
        "───╯"@,
        b.side,
    ) + seq!['\n'] + files_picture(b.side) + seq!['\n'] + (if b.turn() == Player::X {
        "\x1b[1m\x1b[31mRed\x1b[0m [X]"@
    } else {
        "\x1b[1m\x1b[34mBlue\x1b[0m [O]"@
    }) + " to move"@
}

/// Appends a horizontal line of the frame to `out`.
fn push_frame_line(out: &mut String, left: &str, joint: &str, right: &str, side: usize)
    requires
        1 <= side,
    ensures
        final(out)@ == old(out)@ + frame_line(left@, joint@, right@, side as nat),
{
    let ghost start = out@;
    out.append(left);
    let mut i: usize = 0;
    while i < side - 1
        invariant
            1 <= side,
            0 <= i <= side - 1,
            out@ == start + left@ + repeated(joint@, i as nat),
        decreases side - 1 - i,
    {
        out.append(joint);
        i += 1;
        assert(out@ =~= start + left@ + repeated(joint@, i as nat));
    }
    out.append(right);
    assert(out@ =~= start + frame_line(left@, joint@, right@, side as nat));
}

impl<const SIDE_LENGTH: usize> Board<SIDE_LENGTH> {
    /// The picture of the board.
    pub fn to_string(&self) -> (text: String)
        requires
            1 <= SIDE_LENGTH <= MAX_SIDE_LENGTH,
        ensures
            text@ == board_picture(self@),
    {
        let ghost b = self@;
        let mut out = String::new();
        push_frame_line(&mut out, " ╭", "───┬", "───╮", SIDE_LENGTH);
        out.push('\n');
        let ghost head = out@;
        let mut drawn: usize = 0;
        while drawn < SIDE_LENGTH
            invariant
                1 <= SIDE_LENGTH <= MAX_SIDE_LENGTH,
                0 <= drawn <= SIDE_LENGTH,
                b == self@,
                out@ == head + ranks_picture(b, drawn as nat),
            decreases SIDE_LENGTH - drawn,
        {
            let rank: usize = SIDE_LENGTH - 1 - drawn;
            let ghost above = out@;
            if rank != SIDE_LENGTH - 1 {
                push_frame_line(&mut out, " ├", "───┼", "───┤", SIDE_LENGTH);
                out.push('\n');
            }
            let ghost before = out@;
            let mut file: usize = 0;
            while file < SIDE_LENGTH
                invariant
                    1 <= SIDE_LENGTH <= MAX_SIDE_LENGTH,
                    0 <= file <= SIDE_LENGTH,
                    rank < SIDE_LENGTH,
                    b == self@,
                    out@ == before + cells_picture(b, rank as int, file as nat),
                decreases SIDE_LENGTH - file,
            {
                proof {
                    lemma_index_of(rank as int, file as int, SIDE_LENGTH as int);
                    assert(b.cells[rank * SIDE_LENGTH + file] == self.cell(
                        rank * SIDE_LENGTH + file,
                    ));
                }
                out.append(" │ ");
                match self.cells[rank][file] {
                    Player::Empty => out.append(" "),
                    Player::X => out.append("\x1b[1m\x1b[31mX\x1b[0m"),
                    Player::O => out.append("\x1b[1m\x1b[34mO\x1b[0m"),
                }
                file += 1;
                assert(out@ =~= before + cells_picture(b, rank as int, file as nat));
            }
            out.append(" │ ");
            push_decimal(&mut out, rank as u32 + 1);
            out.push('\n');
            assert(out@ =~= before + rank_picture(b, rank as int));
            drawn += 1;
            assert(out@ =~= head + ranks_picture(b, drawn as nat));
        }
        push_frame_line(&mut out, " ╰", "───┴", "───╯", SIDE_LENGTH);
        out.push('\n');
        let ghost grid = out@;
        let mut file: usize = 0;
        while file < SIDE_LENGTH
            invariant
                1 <= SIDE_LENGTH <= MAX_SIDE_LENGTH,
                0 <= file <= SIDE_LENGTH,
                out@ == grid + files_picture(file as nat),
            decreases SIDE_LENGTH - file,
        {
            out.append("   ");
            out.push((0x41u8 + file as u8) as char);
            file += 1;
            assert(out@ =~= grid + files_picture(file as nat));
        }
        out.push('\n');
        if self.turn() == Player::X {
            out.append("\x1b[1m\x1b[31mRed\x1b[0m [X]");
        } else {
            out.append("\x1b[1m\x1b[34mBlue\x1b[0m [O]");
        }
        out.append(" to move");
        assert(out@ =~= board_picture(b));
        out
    }
}

} // verus!
