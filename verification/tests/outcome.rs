use gomokugen::board::{Board, Move, Player};

fn play<const N: usize>(board: &mut Board<N>, moves: &[u16]) {
    for &index in moves {
        board.make_move(Move { index });
    }
}

#[test]
fn no_outcome_before_the_first_move() {
    assert_eq!(Board::<7>::new().outcome(), None);
    assert_eq!(Board::<19>::new().outcome(), None);
}

#[test]
fn five_in_a_row_horizontally_wins() {
    let mut board = Board::<9>::new();
    // X on row 0, O on row 8
    play(&mut board, &[0, 72, 1, 73, 2, 74, 3, 75]);
    assert_eq!(board.outcome(), None);
    play(&mut board, &[4]);
    assert_eq!(board.outcome(), Some(Player::X));
}

#[test]
fn five_in_a_row_vertically_wins() {
    let mut board = Board::<9>::new();
    // X wastes moves on row 8, O fills column 2 from the top
    play(&mut board, &[80, 2, 79, 11, 78, 20, 77, 29, 72]);
    assert_eq!(board.outcome(), None);
    play(&mut board, &[38]);
    assert_eq!(board.outcome(), Some(Player::O));
}

#[test]
fn five_in_a_row_on_the_main_diagonal_wins() {
    let mut board = Board::<7>::new();
    play(&mut board, &[0, 1, 8, 2, 16, 3, 24, 4]);
    assert_eq!(board.outcome(), None);
    play(&mut board, &[32]);
    assert_eq!(board.outcome(), Some(Player::X));
}

#[test]
fn five_in_a_row_on_the_other_diagonal_wins() {
    let mut board = Board::<7>::new();
    // cells (0,6), (1,5), (2,4), (3,3), (4,2)
    play(&mut board, &[6, 0, 12, 1, 18, 2, 24, 3]);
    assert_eq!(board.outcome(), None);
    play(&mut board, &[30]);
    assert_eq!(board.outcome(), Some(Player::X));
}

#[test]
fn the_fifth_stone_may_come_in_the_middle() {
    let mut board = Board::<9>::new();
    play(&mut board, &[20, 72, 21, 73, 23, 74, 24, 75]);
    assert_eq!(board.outcome(), None);
    play(&mut board, &[22]);
    assert_eq!(board.outcome(), Some(Player::X));

    let mut board = Board::<9>::new();
    // a diagonal completed at its second cell
    play(&mut board, &[0, 72, 20, 73, 30, 74, 40, 75]);
    assert_eq!(board.outcome(), None);
    play(&mut board, &[10]);
    assert_eq!(board.outcome(), Some(Player::X));
}

#[test]
fn six_in_a_row_still_wins() {
    let mut board = Board::<9>::new();
    play(&mut board, &[0, 72, 1, 73, 2, 74, 3, 75, 4]);
    assert_eq!(board.outcome(), Some(Player::X));
    // play goes on: O somewhere, then X lengthens the line
    play(&mut board, &[80, 5]);
    assert_eq!(board.outcome(), Some(Player::X));

    // six made at once by filling the gap
    let mut board = Board::<9>::new();
    play(&mut board, &[0, 72, 1, 73, 2, 74, 4, 76, 5, 78]);
    assert_eq!(board.outcome(), None);
    play(&mut board, &[3]);
    assert_eq!(board.outcome(), Some(Player::X));
}

#[test]
fn four_in_a_row_does_not_win() {
    let mut board = Board::<9>::new();
    play(&mut board, &[0, 72, 1, 73, 2, 74, 3]);
    assert_eq!(board.outcome(), None);
    // blocked on the far side by the opponent
    play(&mut board, &[4]);
    assert_eq!(board.outcome(), None);
    let mut board = Board::<9>::new();
    // four on a diagonal
    play(&mut board, &[0, 1, 10, 2, 20, 3, 30]);
    assert_eq!(board.outcome(), None);
}

#[test]
fn a_line_does_not_wrap_around_the_edge() {
    let mut board = Board::<7>::new();
    // X on cells 4, 5, 6 of row 0 and 0, 1 of row 1: consecutive indices, two rows
    play(&mut board, &[4, 42, 5, 43, 6, 44, 7, 45, 8]);
    assert_eq!(board.outcome(), None);
}

#[test]
fn opponent_stones_break_a_line() {
    let mut board = Board::<9>::new();
    // X: 0 1 . 3 4 5, O takes 2
    play(&mut board, &[0, 2, 1, 72, 3, 73, 4, 74, 5]);
    assert_eq!(board.outcome(), None);
}

#[test]
fn only_lines_through_the_last_stone_count() {
    let mut board = Board::<9>::new();
    play(&mut board, &[0, 72, 1, 73, 2, 74, 3, 75, 4]);
    assert_eq!(board.outcome(), Some(Player::X));
    // O moves elsewhere: the line of X no longer passes through the last stone
    play(&mut board, &[80]);
    assert_eq!(board.outcome(), None);
}

#[test]
fn full_board_without_five_is_a_draw() {
    let mut board = Board::<3>::new();
    for index in 0..8 {
        board.make_move(Move { index });
        assert_eq!(board.outcome(), None);
    }
    board.make_move(Move { index: 8 });
    assert_eq!(board.outcome(), Some(Player::Empty));

    let mut board = Board::<1>::new();
    board.make_move(Move { index: 0 });
    assert_eq!(board.outcome(), Some(Player::Empty));

    let mut board = Board::<4>::new();
    for index in 0..16 {
        board.make_move(Move { index });
    }
    assert_eq!(board.outcome(), Some(Player::Empty));
}

#[test]
fn full_board_with_five_is_a_win() {
    // on a 5 by 5 board X fills the cells of even index, and the centre, where
    // the two diagonals cross, last of all
    let mut board = Board::<5>::new();
    let order: [u16; 25] = [
        2, 1, 4, 3, 6, 5, 8, 7, 10, 9, 14, 11, 16, 13, 20, 15, 22, 17, 0, 19, 18, 21, 24, 23, 12,
    ];
    for (n, &index) in order.iter().enumerate() {
        board.make_move(Move { index });
        if n < 24 {
            assert_eq!(board.outcome(), None);
        }
    }
    assert_eq!(board.outcome(), Some(Player::X));
}
