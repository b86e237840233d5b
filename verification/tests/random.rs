use gomokugen::board::{Board, Move, Player};

fn filled<const N: usize>(moves: &[u16]) -> Board<N> {
    let mut board = Board::<N>::new();
    for &index in moves {
        board.make_move(Move { index });
    }
    board
}

#[test]
fn nearly_full_means_more_than_95_in_100() {
    // 10 by 10: 95 stones are exactly 95 in 100, which is not more
    let mut board = Board::<10>::new();
    for index in 0..95 {
        assert!(!board.is_nearly_full());
        board.make_move(Move { index });
    }
    assert!(!board.is_nearly_full());
    board.make_move(Move { index: 95 });
    assert!(board.is_nearly_full());

    // 19 by 19: 342 stones are below, 343 are above
    let mut board = Board::<19>::new();
    for index in 0..342 {
        board.make_move(Move { index });
    }
    assert!(!board.is_nearly_full());
    board.make_move(Move { index: 342 });
    assert!(board.is_nearly_full());

    // 4 by 4: only the full board is above
    let mut board = Board::<4>::new();
    for index in 0..15 {
        board.make_move(Move { index });
    }
    assert!(!board.is_nearly_full());
}

#[test]
fn draw_bound_is_the_number_of_cells_or_of_legal_moves() {
    assert_eq!(Board::<7>::new().draw_bound(), 49);
    assert_eq!(filled::<7>(&[0, 1, 2]).draw_bound(), 49);
    let mut board = Board::<10>::new();
    for index in 0..97 {
        board.make_move(Move { index });
    }
    assert_eq!(board.draw_bound(), 3);
}

#[test]
fn drawn_move_on_open_board_takes_the_cell_if_empty() {
    let mut board = filled::<7>(&[10, 11]);
    let before = board.fen();
    assert!(!board.make_drawn_move(10));
    assert_eq!(board.fen(), before);
    assert!(!board.make_drawn_move(11));
    assert_eq!(board.fen(), before);
    assert!(board.make_drawn_move(12));
    assert_eq!(board.get(12), Player::X);
    assert_eq!(board.turn(), Player::O);
    assert_eq!(board.fen(), "......./...xox./......./......./......./......./....... o 3");
}

#[test]
fn drawn_move_on_nearly_full_board_picks_from_the_legal_moves() {
    // 10 by 10 with the cells 3, 50 and 98 left empty
    let mut moves: Vec<u16> = (0..100).collect();
    moves.retain(|&index| index != 3 && index != 50 && index != 98);
    let start = filled::<10>(&moves);
    assert!(start.is_nearly_full());
    assert_eq!(start.draw_bound(), 3);

    let mut board = start;
    assert!(board.make_drawn_move(0));
    assert_eq!(board.get(3), Player::O);
    assert_eq!(board.get(50), Player::Empty);
    assert_eq!(board.get(98), Player::Empty);

    let mut board = start;
    assert!(board.make_drawn_move(1));
    assert_eq!(board.get(3), Player::Empty);
    assert_eq!(board.get(50), Player::O);
    assert_eq!(board.get(98), Player::Empty);

    let mut board = start;
    assert!(board.make_drawn_move(2));
    assert_eq!(board.get(98), Player::O);
    assert_eq!(board.turn(), Player::X);
    assert_eq!(board.draw_bound(), 2);
    assert!(board.make_drawn_move(1));
    assert_eq!(board.get(50), Player::X);
    assert!(board.make_drawn_move(0));
    assert_eq!(board.get(3), Player::O);
    assert_eq!(board.draw_bound(), 0);
}

#[test]
fn random_move_draws_until_a_cell_is_empty() {
    let mut board = filled::<7>(&[0, 1]);
    let mut asked: Vec<(usize, usize)> = Vec::new();
    let mut answers = vec![0usize, 1, 0, 48, 5].into_iter();
    let placed = board.make_random_move(|lo, hi| {
        asked.push((lo, hi));
        answers.next().unwrap()
    });
    assert!(placed);
    assert_eq!(asked, vec![(0, 49), (0, 49), (0, 49), (0, 49)]);
    assert_eq!(board.get(48), Player::X);
    assert_eq!(board.get(5), Player::Empty);
    assert_eq!(board.turn(), Player::O);
    assert_eq!(board.draw_bound(), 49);
}

#[test]
fn random_move_on_nearly_full_board_draws_once_among_the_legal_moves() {
    let mut moves: Vec<u16> = (0..100).collect();
    moves.retain(|&index| index != 42 && index != 77);
    let mut board = filled::<10>(&moves);
    let mut asked: Vec<(usize, usize)> = Vec::new();
    let placed = board.make_random_move(|lo, hi| {
        asked.push((lo, hi));
        1
    });
    assert!(placed);
    assert_eq!(asked, vec![(0, 2)]);
    assert_eq!(board.get(77), Player::X);
    assert_eq!(board.get(42), Player::Empty);
    let placed = board.make_random_move(|lo, hi| {
        asked.push((lo, hi));
        0
    });
    assert!(placed);
    assert_eq!(asked, vec![(0, 2), (0, 1)]);
    assert_eq!(board.get(42), Player::O);
}

#[test]
fn random_moves_fill_the_board() {
    let mut board = Board::<6>::new();
    let mut state: usize = 12345;
    for made in 0..36 {
        let mut stones = 0;
        board.feature_map(|_, _| stones += 1);
        assert_eq!(stones, made);
        let placed = board.make_random_move(|lo, hi| {
            state = state.wrapping_mul(6364136223846793005).wrapping_add(1442695040888963407);
            lo + (state >> 33) % (hi - lo)
        });
        assert!(placed);
        assert!(board.is_well_formed());
    }
    let mut stones = 0;
    board.feature_map(|_, _| stones += 1);
    assert_eq!(stones, 36);
    assert_eq!(board.draw_bound(), 0);
}
