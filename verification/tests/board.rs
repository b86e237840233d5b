use std::collections::HashSet;

use gomokugen::board::fen::FenError;
use gomokugen::board::{Board, Move, Player};

#[test]
fn first_player_is_x() {
    let board = Board::<19>::new();
    assert_eq!(board.turn(), Player::X);
}

#[test]
fn second_player_is_o() {
    let mut board = Board::<19>::new();
    board.make_move(Move { index: 0 });
    assert_eq!(board.turn(), Player::O);
}

#[test]
fn fen_string_round_trip_startpos() {
    let board = Board::<19>::new();
    let fen = board.fen();
    let board2 = Board::<19>::from_str(&fen).unwrap();
    assert_eq!(board, board2);
}

#[test]
fn fen_string_round_trip_7x7() {
    let mut board = Board::<7>::new();
    board.make_move(Move { index: 0 });
    board.make_move(Move { index: 48 });
    let fen = board.fen();
    let board2 = Board::<7>::from_str(&fen).unwrap();
    assert_eq!(board, board2);
}

#[test]
fn fen_string_round_trip_19x19() {
    let mut board = Board::<19>::new();
    board.make_move(Move { index: 0 });
    board.make_move(Move { index: 360 });
    let fen = board.fen();
    let board2 = Board::<19>::from_str(&fen).unwrap();
    assert_eq!(board, board2);
}

#[test]
fn fen_string_round_trip_alt() {
    let fen = "x.....o/......./......./......./......./......./o.....x x 4";
    let board = Board::<7>::from_str(fen).unwrap();
    let fen2 = board.fen();
    assert_eq!(fen, fen2);
}

#[test]
fn moves_round_trip() {
    for index in 0..19 * 19u16 {
        let mv = Move { index };
        let mv2 = Move::<19>::from_str(&mv.to_string()).unwrap();
        assert_eq!(mv, mv2);
    }
}

#[test]
fn fresh_board_starts_with_first_player_for_each_size() {
    assert_eq!(Board::<7>::new().turn(), Player::X);
    assert_eq!(Board::<9>::new().turn(), Player::X);
    assert_eq!(Board::<15>::new().turn(), Player::X);
    assert_eq!(Board::<19>::new().turn(), Player::X);
    assert_eq!(Board::<1>::new().turn(), Player::X);
}

#[test]
fn turn_alternates_with_each_move() {
    let mut board = Board::<9>::new();
    board.make_move(Move { index: 40 });
    assert_eq!(board.turn(), Player::O);
    board.make_move(Move { index: 41 });
    assert_eq!(board.turn(), Player::X);
    board.make_move(Move { index: 0 });
    assert_eq!(board.turn(), Player::O);
}

#[test]
fn make_move_places_the_mover_and_nothing_else() {
    let mut board = Board::<7>::new();
    board.make_move(Move { index: 10 });
    board.make_move(Move { index: 3 });
    assert_eq!(board.get(10), Player::X);
    assert_eq!(board.get(3), Player::O);
    for index in 0..49 {
        if index != 10 && index != 3 {
            assert_eq!(board.get(index), Player::Empty);
        }
    }
}

#[test]
fn null_move_is_the_largest_index() {
    let null = Move::<19>::null();
    assert!(null.is_null());
    assert_eq!(null.index(), 65535);
    let mv = Move::<19> { index: 17 };
    assert!(!mv.is_null());
    assert_eq!(mv.index(), 17);
}

#[test]
fn opponent_of_each_player() {
    assert_eq!(-Player::X, Player::O);
    assert_eq!(-Player::O, Player::X);
}

#[test]
fn generate_moves_on_empty_board_yields_every_cell_in_order() {
    let board = Board::<7>::new();
    let mut seen: Vec<usize> = Vec::new();
    board.generate_moves(|mv| {
        seen.push(mv.index());
        false
    });
    let expected: Vec<usize> = (0..49).collect();
    assert_eq!(seen, expected);

    let board = Board::<19>::new();
    let mut count = 0;
    let mut last: Option<usize> = None;
    board.generate_moves(|mv| {
        if let Some(previous) = last {
            assert!(previous < mv.index());
        }
        last = Some(mv.index());
        count += 1;
        false
    });
    assert_eq!(count, 361);
}

#[test]
fn generate_moves_skips_occupied_cells() {
    let mut board = Board::<3>::new();
    board.make_move(Move { index: 4 });
    board.make_move(Move { index: 0 });
    let mut seen: Vec<u16> = Vec::new();
    board.generate_moves(|mv| {
        seen.push(mv.index);
        false
    });
    assert_eq!(seen, vec![1, 2, 3, 5, 6, 7, 8]);
}

#[test]
fn generate_moves_stops_when_asked() {
    let board = Board::<9>::new();
    let mut seen: Vec<u16> = Vec::new();
    board.generate_moves(|mv| {
        seen.push(mv.index);
        mv.index == 2
    });
    assert_eq!(seen, vec![0, 1, 2]);
}

#[test]
fn feature_map_reports_the_stones() {
    let mut board = Board::<7>::new();
    board.make_move(Move { index: 24 });
    board.make_move(Move { index: 5 });
    board.make_move(Move { index: 48 });
    let mut seen: Vec<(usize, Player)> = Vec::new();
    board.feature_map(|index, player| seen.push((index, player)));
    assert_eq!(seen, vec![(5, Player::O), (24, Player::X), (48, Player::X)]);
}

#[test]
fn boards_with_the_same_stones_are_equal() {
    let mut a = Board::<7>::new();
    a.make_move(Move { index: 1 });
    a.make_move(Move { index: 2 });
    a.make_move(Move { index: 3 });
    let mut b = Board::<7>::new();
    b.make_move(Move { index: 3 });
    b.make_move(Move { index: 2 });
    b.make_move(Move { index: 1 });
    assert_eq!(a, b);
    let mut c = Board::<7>::new();
    c.make_move(Move { index: 1 });
    c.make_move(Move { index: 3 });
    c.make_move(Move { index: 2 });
    assert_ne!(a, c);
}

#[test]
fn fen_of_small_boards() {
    let mut board = Board::<3>::new();
    assert_eq!(board.fen(), ".../.../... x 0");
    board.make_move(Move { index: 4 });
    assert_eq!(board.fen(), ".../.x./... o 1");
    board.make_move(Move { index: 2 });
    assert_eq!(board.fen(), "..o/.x./... x 2");
    assert_eq!(Board::<1>::new().fen(), ". x 0");
}

#[test]
fn fen_writes_the_ply_in_decimal() {
    let mut board = Board::<5>::new();
    for index in 0..12 {
        board.make_move(Move { index });
    }
    assert_eq!(board.fen(), "xoxox/oxoxo/xo.../...../..... x 12");
}

#[test]
fn fen_round_trip_mid_game() {
    let fen = "x.o....../.x.o...../..x.o..../...x.o.../........./........./........./........./......... x 8";
    let board = Board::<9>::from_str(fen).unwrap();
    assert_eq!(board.fen(), fen);
    assert_eq!(board.turn(), Player::X);
    assert_eq!(board.get(0), Player::X);
    assert_eq!(board.get(2), Player::O);
    assert_eq!(board.get(10), Player::X);
    let again = Board::<9>::from_str(&board.fen()).unwrap();
    assert_eq!(again.fen(), fen);
}

#[test]
fn fen_round_trip_empty_boards() {
    assert_eq!(Board::<7>::from_str(&Board::<7>::new().fen()).unwrap().fen(), Board::<7>::new().fen());
    assert_eq!(Board::<9>::from_str(&Board::<9>::new().fen()).unwrap().fen(), Board::<9>::new().fen());
    assert_eq!(Board::<15>::from_str(&Board::<15>::new().fen()).unwrap().fen(), Board::<15>::new().fen());
    assert_eq!(Board::<19>::from_str(&Board::<19>::new().fen()).unwrap().fen(), Board::<19>::new().fen());
}

#[test]
fn decoded_board_has_no_last_move() {
    let board = Board::<3>::from_str("xxx/oo./... o 5").unwrap();
    assert_eq!(board.outcome(), None);
    assert_eq!(board.turn(), Player::O);
}

#[test]
fn decode_accepts_blanks_and_further_words() {
    let board = Board::<3>::from_str("  x../.o./...\t x   +2  and more").unwrap();
    assert_eq!(board.fen(), "x../.o./... x 2");
    let board = Board::<3>::from_str(".../.../... xylophone 0").unwrap();
    assert_eq!(board.fen(), ".../.../... x 0");
    let board = Board::<3>::from_str(".../.../...\u{3000}o\u{a0}0007").unwrap();
    assert_eq!(board.fen(), ".../.../... o 7");
}

#[test]
fn decode_rejects_turn_that_contradicts_ply() {
    assert_eq!(Board::<3>::from_str("x../.../... x 1").err(), Some(FenError::TurnMismatch));
    assert_eq!(Board::<3>::from_str(".../.../... o 0").err(), Some(FenError::TurnMismatch));
    assert_eq!(Board::<3>::from_str("xo./.../... o 2").err(), Some(FenError::TurnMismatch));
    assert_eq!(
        Board::<7>::from_str("x.....o/......./......./......./......./......./o.....x o 4").err(),
        Some(FenError::TurnMismatch)
    );
}

#[test]
fn decode_reports_each_error() {
    assert_eq!(Board::<3>::from_str("").err(), Some(FenError::MissingBoard));
    assert_eq!(Board::<3>::from_str("  \n ").err(), Some(FenError::MissingBoard));
    assert_eq!(Board::<3>::from_str(".../.../...").err(), Some(FenError::MissingTurn));
    assert_eq!(Board::<3>::from_str(".../.../... ").err(), Some(FenError::MissingTurn));
    assert_eq!(Board::<3>::from_str(".../.../... X 0").err(), Some(FenError::InvalidTurn));
    assert_eq!(Board::<3>::from_str(".../.../... . 0").err(), Some(FenError::InvalidTurn));
    assert_eq!(Board::<3>::from_str(".../.../... x").err(), Some(FenError::InvalidPly));
    assert_eq!(Board::<3>::from_str(".../.../... x four").err(), Some(FenError::InvalidPly));
    assert_eq!(Board::<3>::from_str(".../.../... x -0").err(), Some(FenError::InvalidPly));
    assert_eq!(Board::<3>::from_str(".../.../... x +").err(), Some(FenError::InvalidPly));
    assert_eq!(Board::<3>::from_str(".../.../... x 4_0").err(), Some(FenError::InvalidPly));
    assert_eq!(Board::<3>::from_str(".../.../... x 65536").err(), Some(FenError::InvalidPly));
    assert_eq!(Board::<3>::from_str(".../.../... o 65535").err(), None);
    assert_eq!(Board::<3>::from_str("..../.../... x 0").err(), Some(FenError::TooManyColumns));
    assert_eq!(Board::<3>::from_str(".../..../... x 0").err(), Some(FenError::TooManyColumns));
    assert_eq!(Board::<3>::from_str(".../.X./... x 0").err(), Some(FenError::InvalidCharacter));
    assert_eq!(Board::<3>::from_str("..#/.../... x 0").err(), Some(FenError::InvalidCharacter));
    assert_eq!(Board::<3>::from_str("../.../... x 0").err(), Some(FenError::TooFewColumns));
    assert_eq!(Board::<3>::from_str(".../.../.. x 0").err(), Some(FenError::TooFewColumns));
    assert_eq!(Board::<3>::from_str(".../...//... x 0").err(), Some(FenError::TooFewColumns));
    assert_eq!(Board::<3>::from_str(".../... x 0").err(), Some(FenError::RowCount));
    assert_eq!(Board::<3>::from_str(".../.../.../... x 0").err(), Some(FenError::RowCount));
    assert_eq!(Board::<3>::from_str(".../.../.../ x 0").err(), Some(FenError::RowCount));
}

#[test]
fn decode_reports_the_first_error() {
    // the words are looked at before the grid
    assert_eq!(Board::<3>::from_str("..#/.. q 0").err(), Some(FenError::InvalidTurn));
    assert_eq!(Board::<3>::from_str("..#/.. x 1").err(), Some(FenError::TurnMismatch));
    assert_eq!(Board::<3>::from_str("..#/.. x 0").err(), Some(FenError::InvalidCharacter));
    assert_eq!(Board::<3>::from_str("../..# x 0").err(), Some(FenError::TooFewColumns));
}

#[test]
fn equal_boards_hash_alike() {
    let mut a = Board::<7>::new();
    a.make_move(Move { index: 1 });
    a.make_move(Move { index: 2 });
    a.make_move(Move { index: 3 });
    let mut b = Board::<7>::new();
    b.make_move(Move { index: 3 });
    b.make_move(Move { index: 2 });
    b.make_move(Move { index: 1 });
    let mut set: HashSet<Board<7>> = HashSet::new();
    assert!(set.insert(a));
    assert!(!set.insert(b));
    assert!(set.insert(Board::<7>::new()));
    assert_eq!(set.len(), 2);
}

#[test]
fn boards_reached_by_play_are_well_formed() {
    let mut board = Board::<5>::new();
    assert!(board.is_well_formed());
    for index in [12, 0, 24, 7] {
        board.make_move(Move { index });
        assert!(board.is_well_formed());
    }
    assert!(Board::<5>::from_str(&board.fen()).unwrap().is_well_formed());
}

#[test]
fn decoded_board_with_wrong_count_is_not_well_formed() {
    assert!(Board::<3>::from_str("x../.../... o 1").unwrap().is_well_formed());
    assert!(!Board::<3>::from_str("x../.../... o 3").unwrap().is_well_formed());
    assert!(!Board::<3>::from_str(".../.../... x 2").unwrap().is_well_formed());
    assert!(Board::<3>::from_str("xxx/xxx/xx. x 8").unwrap().is_well_formed());
}

#[test]
fn decode_errors_in_words() {
    assert_eq!(FenError::MissingBoard.message(), "No board part found in FEN string");
    assert_eq!(FenError::MissingTurn.message(), "No turn part found in FEN string");
    assert_eq!(FenError::InvalidTurn.message(), "Invalid turn part found in FEN string");
    assert_eq!(FenError::InvalidPly.message(), "No ply part found in FEN string");
    assert_eq!(
        FenError::TurnMismatch.message(),
        "Turn part does not match ply part in FEN string"
    );
    assert_eq!(FenError::TooManyColumns.message(), "Too many columns in FEN string");
    assert_eq!(FenError::InvalidCharacter.message(), "Invalid character in FEN string");
    assert_eq!(FenError::TooFewColumns.message(), "Too few columns in FEN string");
    assert_eq!(FenError::RowCount.message(), "Wrong number of rows in FEN string");
}
