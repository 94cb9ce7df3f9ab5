use sudoku::board::{Board, BoardMode};
use sudoku::cell_state::CellSelection;

fn digits(board: &Board) -> Vec<Option<u8>> {
    board.cell_state.iter().map(|c| c.number).collect()
}

fn pencils(board: &Board) -> Vec<[bool; 9]> {
    board.cell_state.iter().map(|c| c.pencil).collect()
}

fn enter(board: &mut Board, index: usize, digit: u8) {
    board.click(Some(index));
    board.number(digit);
}

#[test]
fn test_new_board() {
    let board = Board::new();
    assert!(board.cell_state.iter().all(|c| c.number.is_none()));
    assert!(board.cell_state.iter().all(|c| c.selection == CellSelection::Unmarked));
    assert!(board.cell_state_history.is_empty());
    assert_eq!(board.mode, BoardMode::Normal);
    assert_eq!(board.selected_index, None);
    assert_eq!(board.selected_number, None);
    assert_eq!(board.number_count, [0u8; 9]);
    assert!(board.is_valid());
}

#[test]
fn entering_a_digit_into_an_empty_grid() {
    let mut board = Board::new();
    board.click(Some(0));
    board.number(5);
    assert_eq!(board.cell_state[0].number, Some(5));
    assert!(board.is_valid());
    assert_eq!(board.cell_state_history.len(), 1);
    assert_eq!(board.selected_number, Some(5));
    assert_eq!(board.number_count, [0, 0, 0, 0, 1, 0, 0, 0, 0]);
}

#[test]
fn conflicting_digit_in_row_is_rejected() {
    let mut board = Board::new();
    enter(&mut board, 0, 5);
    board.click(Some(1));
    let before = digits(&board);
    let before_pencils = pencils(&board);
    let before_mode = board.mode;
    let history = board.cell_state_history.len();
    board.number(5);
    assert_eq!(board.cell_state[1].number, None);
    assert_eq!(board.selected_index, Some(1));
    assert_eq!(board.selected_number, None);
    assert_eq!(digits(&board), before);
    assert_eq!(pencils(&board), before_pencils);
    assert_eq!(board.mode, before_mode);
    assert_eq!(board.cell_state_history.len(), history);
    assert!(board.is_valid());
}

#[test]
fn conflicting_digit_in_column_and_box_is_rejected() {
    let mut board = Board::new();
    enter(&mut board, 4, 3);
    enter(&mut board, 76, 3);
    assert_eq!(board.cell_state[76].number, None);
    enter(&mut board, 12, 3);
    assert_eq!(board.cell_state[12].number, None);
    enter(&mut board, 80, 3);
    assert_eq!(board.cell_state[80].number, Some(3));
    assert!(board.is_valid());
}

#[test]
fn rejected_entry_keeps_the_selection() {
    let mut board = Board::new();
    enter(&mut board, 0, 5);
    enter(&mut board, 10, 6);
    board.click(Some(1));
    board.number(5);
    assert_eq!(board.cell_state[1].number, None);
    assert_eq!(board.selected_index, Some(1));
    assert_eq!(board.selected_number, None);
    assert_eq!(board.cell_state[1].selection, CellSelection::Selected);
    assert_eq!(board.cell_state[2].selection, CellSelection::Highlighted);
    assert_eq!(board.cell_state[0].selection, CellSelection::Highlighted);
    assert_eq!(board.cell_state[80].selection, CellSelection::Unmarked);
    assert_eq!(board.cell_state_history.len(), 2);
}

#[test]
fn selecting_a_column_peer_after_entering_a_digit() {
    let mut board = Board::new();
    board.click(Some(40));
    board.number(7);
    assert_eq!(board.cell_state[13].selection, CellSelection::Highlighted);
    assert_eq!(board.cell_state[40].selection, CellSelection::Selected);
    board.click(Some(13));
    assert_eq!(board.selected_index, Some(13));
    assert_eq!(board.selected_number, None);
    assert_eq!(board.cell_state[13].selection, CellSelection::Selected);
    assert_eq!(board.cell_state[40].selection, CellSelection::Highlighted);
    assert_eq!(board.cell_state[0].selection, CellSelection::Unmarked);
}

#[test]
fn toggling_pencil_mode_twice() {
    let mut board = Board::new();
    enter(&mut board, 12, 4);
    let before = digits(&board);
    let history = board.cell_state_history.len();
    board.toggle_pencil_mode();
    assert_eq!(board.mode, BoardMode::Pencil);
    board.toggle_pencil_mode();
    assert_eq!(board.mode, BoardMode::Normal);
    assert_eq!(digits(&board), before);
    assert_eq!(board.cell_state_history.len(), history);
}

#[test]
fn undo_with_empty_history_changes_nothing() {
    let mut board = Board::new();
    board.click(Some(30));
    board.undo();
    assert_eq!(board.selected_index, Some(30));
    assert_eq!(board.cell_state[30].selection, CellSelection::Selected);
    assert!(board.cell_state_history.is_empty());
    assert_eq!(board.mode, BoardMode::Normal);
}

#[test]
fn undo_restores_the_previous_grid() {
    let mut board = Board::new();
    enter(&mut board, 0, 1);
    enter(&mut board, 50, 2);
    assert_eq!(board.cell_state_history.len(), 2);
    board.undo();
    assert_eq!(board.cell_state[50].number, None);
    assert_eq!(board.cell_state[0].number, Some(1));
    assert_eq!(board.cell_state_history.len(), 1);
    assert_eq!(board.selected_index, Some(0));
    assert_eq!(board.selected_number, Some(1));
    assert_eq!(board.number_count, [1, 0, 0, 0, 0, 0, 0, 0, 0]);
    board.undo();
    assert_eq!(board.cell_state[0].number, None);
    assert_eq!(board.selected_index, None);
    assert_eq!(board.selected_number, None);
    assert!(board.cell_state.iter().all(|c| c.selection == CellSelection::Unmarked));
    assert_eq!(board.number_count, [0u8; 9]);
}

#[test]
fn highlight_marks_by_precedence() {
    let mut board = Board::new();
    enter(&mut board, 0, 5);
    enter(&mut board, 40, 5);
    enter(&mut board, 80, 1);
    board.click(Some(0));
    assert_eq!(board.selected_number, Some(5));
    assert_eq!(board.cell_state[0].selection, CellSelection::Selected);
    assert_eq!(board.cell_state[40].selection, CellSelection::Emphasized);
    // holds another digit while one is focused
    assert_eq!(board.cell_state[80].selection, CellSelection::Highlighted);
    // row of the selected cell
    assert_eq!(board.cell_state[8].selection, CellSelection::Highlighted);
    // box of the emphasized cell
    assert_eq!(board.cell_state[30].selection, CellSelection::Highlighted);
    // column of the emphasized cell
    assert_eq!(board.cell_state[76].selection, CellSelection::Highlighted);
    // shares no group with either
    assert_eq!(board.cell_state[70].selection, CellSelection::Unmarked);
}

#[test]
fn entry_clears_peer_pencil_marks() {
    let mut board = Board::new();
    board.cell_state[1].pencil[4] = true;
    board.cell_state[27].pencil[4] = true;
    board.cell_state[10].pencil[4] = true;
    board.cell_state[10].pencil[2] = true;
    board.cell_state[80].pencil[4] = true;
    enter(&mut board, 0, 5);
    assert!(!board.cell_state[1].pencil[4]);
    assert!(!board.cell_state[27].pencil[4]);
    assert!(!board.cell_state[10].pencil[4]);
    assert!(board.cell_state[10].pencil[2]);
    assert!(board.cell_state[80].pencil[4]);
}

#[test]
fn pencil_click_toggles_a_mark() {
    let mut board = Board::new();
    enter(&mut board, 0, 5);
    board.toggle_pencil_mode();
    board.click(Some(80));
    assert!(board.cell_state[80].pencil[4]);
    assert_eq!(board.cell_state[80].number, None);
    assert_eq!(board.selected_index, Some(0));
    assert_eq!(board.cell_state_history.len(), 2);
    board.cell_state[80].selection = CellSelection::Unmarked;
    board.click(Some(80));
    assert!(!board.cell_state[80].pencil[4]);
    // a marked cell is selected instead of toggled
    board.click(Some(1));
    assert!(!board.cell_state[1].pencil[4]);
    assert_eq!(board.cell_state_history.len(), 3);
    assert_eq!(board.selected_index, Some(1));
    assert_eq!(board.selected_number, None);
}

#[test]
fn pencil_click_on_a_marked_empty_cell_selects_it() {
    let mut board = Board::new();
    enter(&mut board, 0, 5);
    board.toggle_pencil_mode();
    assert_eq!(board.cell_state[1].selection, CellSelection::Highlighted);
    board.click(Some(1));
    assert_eq!(board.selected_index, Some(1));
    assert_eq!(board.selected_number, None);
    assert!(!board.cell_state[1].pencil[4]);
    assert_eq!(board.cell_state_history.len(), 1);
}

#[test]
fn pencil_click_without_focus_selects() {
    let mut board = Board::new();
    board.toggle_pencil_mode();
    board.click(Some(5));
    assert_eq!(board.selected_index, Some(5));
    assert_eq!(board.cell_state[5].selection, CellSelection::Unmarked);
}

#[test]
fn click_off_the_grid_drops_the_selected_cell() {
    let mut board = Board::new();
    enter(&mut board, 3, 9);
    board.click(None);
    assert_eq!(board.selected_index, None);
    assert_eq!(board.selected_number, Some(9));
    assert!(board.cell_state.iter().all(|c| c.selection == CellSelection::Unmarked));
    board.number(4);
    assert_eq!(board.cell_state[3].number, Some(9));
}

#[test]
fn clear_number_empties_the_selected_cell() {
    let mut board = Board::new();
    enter(&mut board, 22, 8);
    board.clear_number();
    assert_eq!(board.cell_state[22].number, None);
    assert!(board.cell_state.iter().all(|c| c.selection == CellSelection::Unmarked));
}

#[test]
fn entering_the_same_digit_again() {
    let mut board = Board::new();
    enter(&mut board, 60, 2);
    board.number(2);
    assert_eq!(board.cell_state[60].number, Some(2));
    assert_eq!(board.cell_state_history.len(), 2);
    assert_eq!(board.number_count, [0, 1, 0, 0, 0, 0, 0, 0, 0]);
}

#[test]
fn validity_over_rows_columns_and_boxes() {
    let mut board = Board::new();
    board.cell_state[0].number = Some(4);
    board.cell_state[8].number = Some(4);
    assert!(!board.is_valid());
    board.cell_state[8].number = None;
    board.cell_state[72].number = Some(4);
    assert!(!board.is_valid());
    board.cell_state[72].number = None;
    board.cell_state[20].number = Some(4);
    assert!(!board.is_valid());
    board.cell_state[20].number = None;
    board.cell_state[40].number = Some(4);
    board.cell_state[50].number = Some(4);
    assert!(!board.is_valid());
    board.cell_state[50].number = Some(3);
    assert!(board.is_valid());
}

#[test]
fn update_reports_a_changed_size() {
    let mut board = Board::new();
    assert!(board.update(450));
    assert!(!board.update(450));
    assert_eq!(board.board_size, 450);
    assert!(board.update(451));
}
