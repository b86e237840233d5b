use gomokugen::board::notation::MoveError;
use gomokugen::board::Move;

#[test]
fn labels_of_corner_cells() {
    assert_eq!(Move::<19> { index: 0 }.to_string(), "A1");
    assert_eq!(Move::<19> { index: 18 }.to_string(), "S1");
    assert_eq!(Move::<19> { index: 19 }.to_string(), "A2");
    assert_eq!(Move::<19> { index: 342 }.to_string(), "A19");
    assert_eq!(Move::<19> { index: 360 }.to_string(), "S19");
    assert_eq!(Move::<7> { index: 48 }.to_string(), "G7");
    assert_eq!(Move::<15> { index: 145 }.to_string(), "K10");
    assert_eq!(Move::<1> { index: 0 }.to_string(), "A1");
}

#[test]
fn labels_are_read_back() {
    assert_eq!(Move::<19>::from_str("A1"), Ok(Move { index: 0 }));
    assert_eq!(Move::<19>::from_str("S19"), Ok(Move { index: 360 }));
    assert_eq!(Move::<19>::from_str("K10"), Ok(Move { index: 9 * 19 + 10 }));
    assert_eq!(Move::<9>::from_str("f3"), Ok(Move { index: 2 * 9 + 5 }));
    assert_eq!(Move::<9>::from_str("F3"), Ok(Move { index: 23 }));
    assert_eq!(Move::<9>::from_str("A09"), Ok(Move { index: 72 }));
}

#[test]
fn every_label_round_trips_on_every_size() {
    fn check<const N: usize>() {
        for index in 0..(N * N) as u16 {
            let mv = Move::<N> { index };
            assert_eq!(Move::<N>::from_str(&mv.to_string()), Ok(mv));
        }
    }
    check::<1>();
    check::<7>();
    check::<9>();
    check::<15>();
    check::<19>();
}

#[test]
fn label_errors() {
    assert_eq!(Move::<19>::from_str(""), Err(MoveError::Length));
    assert_eq!(Move::<19>::from_str("A"), Err(MoveError::Length));
    assert_eq!(Move::<19>::from_str("A123"), Err(MoveError::Length));
    assert_eq!(Move::<19>::from_str("é"), Err(MoveError::Row));
    assert_eq!(Move::<19>::from_str("11"), Err(MoveError::Row));
    assert_eq!(Move::<19>::from_str("U1"), Err(MoveError::Row));
    assert_eq!(Move::<7>::from_str("I1"), Err(MoveError::Row));
    assert_eq!(Move::<19>::from_str("@1"), Err(MoveError::Row));
    assert_eq!(Move::<19>::from_str("A0"), Err(MoveError::Column));
    assert_eq!(Move::<19>::from_str("A00"), Err(MoveError::Column));
    assert_eq!(Move::<19>::from_str("AA"), Err(MoveError::Column));
    assert_eq!(Move::<19>::from_str("A1x"), Err(MoveError::Column));
    assert_eq!(Move::<19>::from_str("A "), Err(MoveError::Column));
    assert_eq!(Move::<19>::from_str("A:"), Err(MoveError::Column));
    assert_eq!(Move::<19>::from_str("A20"), Err(MoveError::Index));
    assert_eq!(Move::<19>::from_str("A99"), Err(MoveError::Index));
    assert_eq!(Move::<7>::from_str("A8"), Err(MoveError::Index));
    assert_eq!(Move::<7>::from_str("H7"), Err(MoveError::Index));
}

#[test]
fn letter_past_the_last_column_leads_to_the_next_row() {
    assert_eq!(Move::<19>::from_str("T1"), Ok(Move { index: 19 }));
    assert_eq!(Move::<7>::from_str("H1"), Ok(Move { index: 7 }));
    assert_eq!(Move::<7>::from_str("h6"), Ok(Move { index: 42 }));
}

#[test]
fn label_errors_in_words() {
    assert_eq!(MoveError::Length.message(), "Invalid move string, must be 2 or 3 characters");
    assert_eq!(MoveError::Row.message(), "Invalid row in move string");
    assert_eq!(MoveError::Column.message(), "Invalid column in move string");
    assert_eq!(MoveError::Index.message(), "Invalid index in move string");
}
