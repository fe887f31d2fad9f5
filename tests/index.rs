use sudoku::{Index, IndexError, SubBox};

#[test]
fn new_accepts_every_board_position() {
    for row in 0..9 {
        for column in 0..9 {
            let i = Index::new(row, column).unwrap();
            assert_eq!(i.row(), row);
            assert_eq!(i.column(), column);
        }
    }
}

#[test]
fn new_refuses_positions_off_the_board() {
    assert_eq!(Index::new(9, 0), None);
    assert_eq!(Index::new(0, 9), None);
    assert_eq!(Index::new(9, 9), None);
    assert_eq!(Index::new(usize::MAX, 3), None);
}

#[test]
fn display_puts_column_letter_first() {
    assert_eq!(Index::new(2, 3).unwrap().display(), "D3");
    assert_eq!(Index::new(0, 0).unwrap().display(), "A1");
    assert_eq!(Index::new(8, 8).unwrap().display(), "I9");
}

#[test]
fn parse_display_round_trip() {
    for row in 0..9 {
        for column in 0..9 {
            let i = Index::new(row, column).unwrap();
            assert_eq!(Index::parse(&i.display()), Ok(i));
        }
    }
}

#[test]
fn parse_is_case_insensitive() {
    let i = Index::parse("d3").unwrap();
    assert_eq!(i, Index::new(2, 3).unwrap());
    assert_eq!(i.display(), "D3");
    assert_eq!(Index::parse("a1"), Index::parse("A1"));
}

#[test]
fn parse_errors() {
    let e = Index::parse("J1").unwrap_err();
    assert_eq!(e, IndexError::InvalidColumn('J'));
    assert_eq!(e.message(), "J does not identify a valid column");
    assert_eq!(Index::parse("j1"), Err(IndexError::InvalidColumn('J')));
    let e = Index::parse("").unwrap_err();
    assert_eq!(e, IndexError::EmptyInput);
    assert_eq!(e.message(), "empty input");
    let e = Index::parse("A10").unwrap_err();
    assert_eq!(e, IndexError::TooManyCharacters);
    assert_eq!(e.message(), "too many characters to identify a Square");
    let e = Index::parse("A").unwrap_err();
    assert_eq!(e, IndexError::TooFewCharacters);
    assert_eq!(e.message(), "too few characters to identify a Square");
    let e = Index::parse("A0").unwrap_err();
    assert_eq!(e, IndexError::InvalidRow('0'));
    assert_eq!(e.message(), "0 does not identify a valid row");
    assert_eq!(Index::parse("bx"), Err(IndexError::InvalidRow('X')));
}

#[test]
fn sub_box_of_positions() {
    assert_eq!(SubBox::from(Index::new(0, 0).unwrap()), SubBox::TopLeft);
    assert_eq!(SubBox::from(Index::new(0, 3).unwrap()), SubBox::TopMiddle);
    assert_eq!(SubBox::from(Index::new(2, 8).unwrap()), SubBox::TopRight);
    assert_eq!(SubBox::from(Index::new(4, 4).unwrap()), SubBox::Center);
    assert_eq!(SubBox::containing_index(Index::new(8, 5).unwrap()), SubBox::BottomMiddle);
    assert_eq!(SubBox::containing_index(Index::new(6, 0).unwrap()), SubBox::BottomLeft);
}

#[test]
fn all_indexes_in_row_major_order() {
    let got: Vec<(usize, usize)> = SubBox::TopMiddle
        .all_indexes()
        .iter()
        .map(|i| (i.row(), i.column()))
        .collect();
    assert_eq!(
        got,
        vec![(0, 3), (0, 4), (0, 5), (1, 3), (1, 4), (1, 5), (2, 3), (2, 4), (2, 5)]
    );
    let again: Vec<(usize, usize)> = SubBox::TopMiddle
        .all_indexes()
        .iter()
        .map(|i| (i.row(), i.column()))
        .collect();
    assert_eq!(got, again);
}

#[test]
fn sub_boxes_partition_the_board() {
    let boxes = [
        SubBox::TopLeft,
        SubBox::TopMiddle,
        SubBox::TopRight,
        SubBox::MiddleLeft,
        SubBox::Center,
        SubBox::MiddleRight,
        SubBox::BottomLeft,
        SubBox::BottomMiddle,
        SubBox::BottomRight,
    ];
    for row in 0..9 {
        for column in 0..9 {
            let i = Index::new(row, column).unwrap();
            let holding: Vec<SubBox> =
                boxes.iter().copied().filter(|b| b.all_indexes().contains(&i)).collect();
            assert_eq!(holding, vec![SubBox::from(i)]);
        }
    }
    let total: usize = boxes.iter().map(|b| b.all_indexes().len()).sum();
    assert_eq!(total, 81);
}
