use sudoku::{Board, BoardError, Index, MenuOption, NumberError, Value, ValueError};

fn at(row: usize, column: usize) -> Index {
    Index::new(row, column).unwrap()
}

const SAMPLE: &str = "7 2 3 0 0 0 1 5 9\n\
6 0 0 3 0 2 0 0 8\n\
8 0 0 0 1 0 0 0 2\n\
0 7 0 6 5 4 0 2 0\n\
0 0 4 2 0 7 3 0 0\n\
0 5 0 9 3 1 0 4 0\n\
5 0 0 0 7 0 0 0 3\n\
4 0 0 1 0 3 0 0 6\n\
9 3 2 0 0 0 7 1 4\n";

#[test]
fn new_board_is_empty() {
    let b = Board::new();
    for row in 0..9 {
        for column in 0..9 {
            assert_eq!(*b.get(at(row, column)), Value::Empty);
        }
    }
    assert_eq!(Board::default(), b);
}

#[test]
fn deserialize_short_text_pads_with_empty_cells() {
    let b = Board::deserialize("7 0 0\n0 0 0\n0 0 0\n").unwrap();
    assert_eq!(*b.get(at(0, 0)), Value::Seven);
    for row in 0..9 {
        for column in 0..9 {
            if (row, column) != (0, 0) {
                assert_eq!(*b.get(at(row, column)), Value::Empty);
            }
        }
    }
}

#[test]
fn deserialize_tolerates_any_whitespace() {
    let b = Board::deserialize("  1\t2   3\r\n\n 0 0 0 0 0 0 0 0 9").unwrap();
    assert_eq!(*b.get(at(0, 0)), Value::One);
    assert_eq!(*b.get(at(0, 1)), Value::Two);
    assert_eq!(*b.get(at(0, 2)), Value::Three);
    assert_eq!(*b.get(at(1, 0)), Value::Empty);
    assert_eq!(*b.get(at(2, 8)), Value::Nine);
}

#[test]
fn deserialize_rejects_a_tenth_line() {
    let text = "0\n".repeat(10);
    let e = Board::deserialize(&text).unwrap_err();
    assert_eq!(e, BoardError::TooManyLines(10));
    assert_eq!(
        e.message(),
        "in Board string on line 10 there are too many lines; must have 9 lines"
    );
}

#[test]
fn deserialize_rejects_a_tenth_value() {
    let e = Board::deserialize("0 0 0\n1 2 3 4 5 6 7 8 9 1\n").unwrap_err();
    assert_eq!(e, BoardError::TooManyValues(2));
    assert_eq!(e.message(), "in Board string on line 2 there are too many values");
}

#[test]
fn deserialize_reports_bad_values_with_their_line() {
    let e = Board::deserialize("0\n0\n1 x\n").unwrap_err();
    assert_eq!(e, BoardError::BadValue(3, ValueError::Number(NumberError::InvalidDigit)));
    assert_eq!(
        e.message(),
        "in Board string on line 3 value could not be parsed: invalid digit found in string"
    );
    let e = Board::deserialize("12").unwrap_err();
    assert_eq!(e, BoardError::BadValue(1, ValueError::TooLarge(12)));
    assert_eq!(e.message(), "in Board string on line 1 value could not be parsed: value too large: 12");
}

#[test]
fn serialize_writes_nine_lines_of_codes() {
    let b = Board::deserialize(SAMPLE).unwrap();
    assert_eq!(b.serialize(), SAMPLE);
    assert_eq!(
        Board::new().serialize(),
        "0 0 0 0 0 0 0 0 0\n".repeat(9)
    );
}

#[test]
fn serialize_deserialize_round_trip() {
    let mut b = Board::new();
    for row in 0..9 {
        for column in 0..9 {
            b.set(at(row, column), Value::from_usize((row * 4 + column * 7) % 10));
        }
    }
    let back = Board::deserialize(&b.serialize()).unwrap();
    for row in 0..9 {
        for column in 0..9 {
            assert_eq!(back.get(at(row, column)), b.get(at(row, column)));
        }
    }
    assert_eq!(back, b);
}

#[test]
fn display_draws_the_grid() {
    let b = Board::deserialize(SAMPLE).unwrap();
    let expected = "  A B C D E F G H I\n\
1 7 2 3|     |1 5 9 \n\
2 6    |3   2|    8 \n\
3 8    |  1  |    2 \n  -----+-----+-----\n\
4   7  |6 5 4|  2   \n\
5     4|2   7|3     \n\
6   5  |9 3 1|  4   \n  -----+-----+-----\n\
7 5    |  7  |    3 \n\
8 4    |1   3|    6 \n\
9 9 3 2|     |7 1 4 \n";
    assert_eq!(b.display(), expected);
}

#[test]
fn get_mut_and_set_change_one_cell() {
    let mut b = Board::new();
    *b.get_mut(at(4, 5)) = Value::Six;
    assert_eq!(*b.get(at(4, 5)), Value::Six);
    b.set(at(0, 8), Value::Two);
    assert_eq!(*b.get(at(0, 8)), Value::Two);
    assert_eq!(*b.get(at(4, 4)), Value::Empty);
    assert_eq!(*b.get(at(8, 0)), Value::Empty);
}

#[test]
fn neighbourhoods() {
    let b = Board::deserialize(SAMPLE).unwrap();
    let i = at(4, 4);
    assert_eq!(
        b.row(i),
        vec![
            Value::Empty, Value::Empty, Value::Four, Value::Two, Value::Empty,
            Value::Seven, Value::Three, Value::Empty, Value::Empty
        ]
    );
    assert_eq!(
        b.column(i),
        vec![
            Value::Empty, Value::Empty, Value::One, Value::Five, Value::Empty,
            Value::Three, Value::Seven, Value::Empty, Value::Empty
        ]
    );
    assert_eq!(
        b.sub_box(i),
        vec![
            Value::Six, Value::Five, Value::Four, Value::Two, Value::Empty,
            Value::Seven, Value::Nine, Value::Three, Value::One
        ]
    );
}

#[test]
fn possible_values_of_an_empty_cell() {
    let b = Board::deserialize("1 2 3 0 0 0 0 0 0\n0\n0\n4\n0\n0\n7\n").unwrap();
    assert_eq!(
        b.possible_values(at(0, 3)),
        vec![Value::Four, Value::Five, Value::Six, Value::Seven, Value::Eight, Value::Nine]
    );
}

#[test]
fn possible_values_follow_all_three_constraints() {
    let b = Board::deserialize(SAMPLE).unwrap();
    // row 5: 4 2 7 3; column E: 1 5 3 7; box: 6 5 4 2 7 9 3 1
    assert_eq!(b.possible_values(at(4, 4)), vec![Value::Eight]);
    // row 1: 7 2 3 1 5 9; column D: 3 6 2 9 1; box: 3 2 1
    assert_eq!(b.possible_values(at(0, 3)), vec![Value::Four, Value::Eight]);
}

#[test]
fn possible_values_of_a_filled_cell_are_none() {
    let b = Board::deserialize(SAMPLE).unwrap();
    assert_eq!(b.possible_values(at(0, 0)), Vec::<Value>::new());
    let mut full = Board::new();
    full.set(at(3, 3), Value::Five);
    assert_eq!(full.possible_values(at(3, 3)), Vec::<Value>::new());
}

#[test]
fn possible_values_exclude_exactly_the_neighbours() {
    let b = Board::deserialize(SAMPLE).unwrap();
    for row in 0..9 {
        for column in 0..9 {
            let i = at(row, column);
            if !b.get(i).is_empty() {
                continue;
            }
            let mut seen = b.row(i);
            seen.extend(b.column(i));
            seen.extend(b.sub_box(i));
            let expected: Vec<Value> =
                (1..10).map(Value::from_usize).filter(|v| !seen.contains(v)).collect();
            assert_eq!(b.possible_values(i), expected);
        }
    }
}

#[test]
fn menu_commands() {
    assert_eq!(MenuOption::parse("?"), Ok(MenuOption::ShowInstructions));
    assert_eq!(MenuOption::parse("d"), Ok(MenuOption::DisplayBoard));
    assert_eq!(MenuOption::parse("E"), Ok(MenuOption::EditOneSquare));
    assert_eq!(MenuOption::parse("s"), Ok(MenuOption::ShowPossibleValues));
    assert_eq!(MenuOption::parse("Q"), Ok(MenuOption::SaveAndQuit));
    let e = MenuOption::parse("x").unwrap_err();
    assert_eq!(e.message(), "invalid command");
    assert!(MenuOption::parse("").is_err());
    assert!(MenuOption::parse("dd").is_err());
}
