use gomokugen::board::{Board, Move};

#[test]
fn picture_of_a_small_board() {
    let mut board = Board::<2>::new();
    board.make_move(Move { index: 0 });
    board.make_move(Move { index: 3 });
    let expected = [
        " ╭───┬───╮\n",
        " │   │ \x1b[1m\x1b[34mO\x1b[0m │ 2\n",
        " ├───┼───┤\n",
        " │ \x1b[1m\x1b[31mX\x1b[0m │   │ 1\n",
        " ╰───┴───╯\n",
        "   A   B\n",
        "\x1b[1m\x1b[31mRed\x1b[0m [X] to move",
    ]
    .concat();
    assert_eq!(board.to_string(), expected);
}

#[test]
fn picture_of_the_smallest_board() {
    let mut board = Board::<1>::new();
    assert_eq!(
        board.to_string(),
        " ╭───╮\n │   │ 1\n ╰───╯\n   A\n\x1b[1m\x1b[31mRed\x1b[0m [X] to move"
    );
    board.make_move(Move { index: 0 });
    assert_eq!(
        board.to_string(),
        " ╭───╮\n │ \x1b[1m\x1b[31mX\x1b[0m │ 1\n ╰───╯\n   A\n\x1b[1m\x1b[34mBlue\x1b[0m [O] to move"
    );
}

#[test]
fn picture_numbers_the_rows_from_the_bottom() {
    let text = Board::<19>::new().to_string();
    let lines: Vec<&str> = text.lines().collect();
    assert_eq!(lines.len(), 1 + 19 + 18 + 1 + 1 + 1);
    assert!(lines[1].ends_with(" │ 19"));
    assert!(lines[3].ends_with(" │ 18"));
    assert!(lines[37].ends_with(" │ 1"));
    assert_eq!(
        lines[39],
        "   A   B   C   D   E   F   G   H   I   J   K   L   M   N   O   P   Q   R   S"
    );
    assert_eq!(lines[0].chars().count(), 2 + 19 * 4);
}
