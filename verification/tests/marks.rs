use grid_games::tik_tak::{Board as TikTakBoard, CellState, ParseError};
use grid_games::tik_tak_flat::{Board as FlatBoard, CellValue};

#[test]
fn fresh_tik_tak_board_has_no_win() {
    let board = TikTakBoard::new();
    assert!(!board.did_win());
}

#[test]
fn full_row_of_circles_wins() {
    let mut board = TikTakBoard::new();
    board.cells[1] = [CellState::CircleTaken; 3];
    assert!(board.did_win());
}

#[test]
fn full_row_of_crosses_wins() {
    let mut board = TikTakBoard::new();
    board.cells[2] = [CellState::CrossTaken; 3];
    assert!(board.did_win());
}

#[test]
fn full_column_wins() {
    let mut board = TikTakBoard::new();
    board.cells[0][1] = CellState::CrossTaken;
    board.cells[1][1] = CellState::CrossTaken;
    board.cells[2][1] = CellState::CrossTaken;
    assert!(board.did_win());
}

#[test]
fn main_diagonal_wins() {
    let mut board = TikTakBoard::new();
    board.cells[0][0] = CellState::CircleTaken;
    board.cells[1][1] = CellState::CircleTaken;
    board.cells[2][2] = CellState::CircleTaken;
    assert!(board.did_win());
}

#[test]
fn opposite_diagonal_wins() {
    let mut board = TikTakBoard::new();
    board.cells[2][0] = CellState::CrossTaken;
    board.cells[1][1] = CellState::CrossTaken;
    board.cells[0][2] = CellState::CrossTaken;
    assert!(board.did_win());
}

#[test]
fn mixed_line_does_not_win() {
    let mut board = TikTakBoard::new();
    board.cells[0] = [
        CellState::CircleTaken,
        CellState::CrossTaken,
        CellState::CircleTaken,
    ];
    board.cells[1][0] = CellState::CrossTaken;
    assert!(!board.did_win());
}

#[test]
fn parse_input_records_a_circle_move() {
    let mut board = TikTakBoard::new();
    let res = board.parse_input(&String::from("12"));
    assert!(res.is_ok());
    // Column first, row second.
    assert_eq!(board.cells[2][1], CellState::CircleTaken);
    assert_eq!(board.cells[1][2], CellState::Empty);
}

#[test]
fn parse_input_trims_surrounding_whitespace() {
    let mut board = TikTakBoard::new();
    let res = board.parse_input(&String::from("  01\n"));
    assert!(res.is_ok());
    assert_eq!(board.cells[1][0], CellState::CircleTaken);
}

#[test]
fn parse_input_rejects_wrong_length() {
    let mut board = TikTakBoard::new();
    assert_eq!(
        board.parse_input(&String::from("123")),
        Err(ParseError::WrongLength)
    );
    assert_eq!(
        board.parse_input(&String::from("1")),
        Err(ParseError::WrongLength)
    );
    assert_eq!(
        board.parse_input(&String::from("   ")),
        Err(ParseError::WrongLength)
    );
    assert_eq!(board.cells[0][0], CellState::Empty);
}

#[test]
fn parse_input_rejects_non_digits() {
    let mut board = TikTakBoard::new();
    assert_eq!(
        board.parse_input(&String::from("ab")),
        Err(ParseError::NotDigits)
    );
    assert_eq!(
        board.parse_input(&String::from("1x")),
        Err(ParseError::NotDigits)
    );
    assert_eq!(board.cells[0][0], CellState::Empty);
}

#[test]
fn printed_board_shows_header_and_marks() {
    let mut board = TikTakBoard::new();
    assert_eq!(
        board.print_board(),
        " * |0| 1| 2|\n|0|[ ][ ][ ]\n|1|[ ][ ][ ]\n|2|[ ][ ][ ]\n"
    );
    board.cells[0][1] = CellState::CircleTaken;
    board.cells[2][2] = CellState::CrossTaken;
    assert_eq!(
        board.print_board(),
        " * |0| 1| 2|\n|0|[ ][O][ ]\n|1|[ ][ ][ ]\n|2|[ ][ ][X]\n"
    );
}

#[test]
fn calc_index_maps_row_major() {
    assert_eq!(FlatBoard::calc_index(0, 0), Ok(0));
    assert_eq!(FlatBoard::calc_index(2, 1), Ok(5));
    assert_eq!(FlatBoard::calc_index(1, 2), Ok(7));
}

#[test]
fn calc_index_lets_the_side_length_through() {
    // The bound check accepts coordinates equal to the side length, a quirk
    // the board keeps as its rule.
    assert_eq!(FlatBoard::calc_index(3, 0), Ok(3));
    assert_eq!(FlatBoard::calc_index(0, 2), Ok(6));
}

#[test]
fn calc_index_rejects_larger_coordinates() {
    assert!(FlatBoard::calc_index(4, 0).is_err());
    assert!(FlatBoard::calc_index(0, 4).is_err());
    assert_eq!(
        FlatBoard::calc_index(9, 9),
        Err(String::from("index out of bounds for the board"))
    );
}

#[test]
fn calc_xy_inverts_the_flat_index() {
    assert_eq!(FlatBoard::calc_xy(0), Ok((0, 0)));
    assert_eq!(FlatBoard::calc_xy(5), Ok((2, 1)));
    assert_eq!(FlatBoard::calc_xy(8), Ok((2, 2)));
}

#[test]
fn cells_start_empty_and_can_be_written() {
    let mut board = FlatBoard::new();
    assert_eq!(board.get_cell_ref(1, 2), Ok(&CellValue::Empty));
    assert!(board.get_cell_mut(1, 2, CellValue::Cross).is_ok());
    assert_eq!(board.get_cell_ref(1, 2), Ok(&CellValue::Cross));
    assert_eq!(board.get_cell_ref(0, 0), Ok(&CellValue::Empty));
}

#[test]
fn writing_out_of_range_is_rejected() {
    let mut board = FlatBoard::new();
    assert!(board.get_cell_mut(4, 0, CellValue::Cross).is_err());
    assert_eq!(board.get_cell_ref(0, 0), Ok(&CellValue::Empty));
}

#[test]
fn row_write_fills_one_row() {
    let mut board = FlatBoard::new();
    assert!(board.get_row_mut(0, CellValue::Circle).is_ok());
    assert_eq!(board.cells[0], CellValue::Circle);
    assert_eq!(board.cells[1], CellValue::Circle);
    assert_eq!(board.cells[2], CellValue::Circle);
    assert_eq!(board.cells[3], CellValue::Empty);
}

#[test]
fn column_write_fills_one_column() {
    let mut board = FlatBoard::new();
    assert!(board.get_col_mut(1, CellValue::Cross).is_ok());
    assert_eq!(board.cells[1], CellValue::Cross);
    assert_eq!(board.cells[4], CellValue::Cross);
    assert_eq!(board.cells[7], CellValue::Cross);
    assert_eq!(board.cells[0], CellValue::Empty);
    assert_eq!(board.cells[3], CellValue::Empty);
}

#[test]
fn column_write_beyond_the_side_touches_the_stepping_tail() {
    let mut board = FlatBoard::new();
    assert!(board.get_col_mut(4, CellValue::Circle).is_ok());
    assert_eq!(board.cells[4], CellValue::Circle);
    assert_eq!(board.cells[7], CellValue::Circle);
    assert_eq!(board.cells[0], CellValue::Empty);
    assert_eq!(board.cells[1], CellValue::Empty);
}

#[test]
fn flat_board_text_shows_rows_on_their_own_lines() {
    let board = FlatBoard::new();
    assert_eq!(board.draw_board_flattened(), "\n***\n***\n***\n");
}

#[test]
fn flat_board_walkthrough_matches_the_drawn_text() {
    let mut board = FlatBoard::new();
    board
        .get_cell_mut(1, 2, CellValue::Cross)
        .expect("Failed to get cell");
    assert_eq!(board.draw_board_flattened(), "\n***\n***\n*X*\n");
    board.get_row_mut(0, CellValue::Circle).unwrap();
    board.get_col_mut(0, CellValue::Circle).unwrap();
    assert_eq!(board.draw_board_flattened(), "\nOOO\nO**\nOX*\n");
}
