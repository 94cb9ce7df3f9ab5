use sudoku::cell_state::{CellSelection, CellState};
use sudoku::font_size::{FontFit, FontSizeSearch};
use sudoku::index::{index_to_xy, unit_cell, unit_index, UnitKind};
use sudoku::menu::{is_menu_action_number, menu_action_from_u8, MenuActions};

#[test]
fn index_tables() {
    let row: Vec<usize> = (0..9).map(|k| unit_cell(UnitKind::Row, 2, k)).collect();
    assert_eq!(row, vec![18, 19, 20, 21, 22, 23, 24, 25, 26]);
    let column: Vec<usize> = (0..9).map(|k| unit_cell(UnitKind::Column, 3, k)).collect();
    assert_eq!(column, vec![3, 12, 21, 30, 39, 48, 57, 66, 75]);
    let boxed: Vec<usize> = (0..9).map(|k| unit_cell(UnitKind::Box, 4, k)).collect();
    assert_eq!(boxed, vec![30, 31, 32, 39, 40, 41, 48, 49, 50]);
    assert_eq!(unit_index(UnitKind::Box, 80), 8);
    assert_eq!(unit_index(UnitKind::Row, 40), 4);
    assert_eq!(unit_index(UnitKind::Column, 13), 4);
}

#[test]
fn every_cell_in_one_group_of_each_table() {
    for kind in [UnitKind::Row, UnitKind::Column, UnitKind::Box] {
        let mut seen = [0u8; 81];
        for g in 0..9 {
            for k in 0..9 {
                let i = unit_cell(kind, g, k);
                seen[i] += 1;
                assert_eq!(unit_index(kind, i), g);
            }
        }
        assert!(seen.iter().all(|&n| n == 1));
    }
}

#[test]
fn index_to_column_and_row() {
    assert_eq!(index_to_xy(0, 9), (0, 0));
    assert_eq!(index_to_xy(13, 9), (4, 1));
    assert_eq!(index_to_xy(80, 9), (8, 8));
}

#[test]
fn cell_operations() {
    let mut cell = CellState::new();
    assert!(!cell.has_number());
    cell.set_pencil(3);
    assert!(cell.pencil[2]);
    cell.set_pencil(3);
    assert!(!cell.pencil[2]);
    cell.set_pencil(9);
    cell.remove_pencil(9);
    cell.remove_pencil(9);
    assert!(!cell.pencil[8]);
    cell.set_number(6);
    assert!(cell.is_number(6));
    assert!(!cell.is_number(5));
    cell.clear_number();
    assert!(!cell.has_number());
    cell.selection = CellSelection::Selected;
    cell.clear_selection();
    assert_eq!(cell.selection, CellSelection::Unmarked);
}

#[test]
fn menu_actions_from_numbers() {
    assert_eq!(menu_action_from_u8(1), Some(MenuActions::One));
    assert_eq!(menu_action_from_u8(9), Some(MenuActions::Nine));
    assert_eq!(menu_action_from_u8(0), None);
    assert_eq!(menu_action_from_u8(10), None);
    assert!(is_menu_action_number(MenuActions::Five));
    assert!(!is_menu_action_number(MenuActions::Pencil));
    assert!(!is_menu_action_number(MenuActions::Undo));
    assert_eq!(MenuActions::Undo.code(), 11);
}

fn search(target: u16) -> u16 {
    let mut s = FontSizeSearch::new();
    while s.is_open() {
        let size = s.probe();
        let fit = if size == target {
            FontFit::Fits
        } else if size > target {
            FontFit::TooLarge
        } else {
            FontFit::TooSmall
        };
        if let Some(found) = s.narrow(fit) {
            return found;
        }
    }
    s.result()
}

#[test]
fn font_size_search() {
    let s = FontSizeSearch::new();
    assert_eq!(s.probe(), 50);
    assert_eq!(search(37), 37);
    assert_eq!(search(1), 1);
    assert_eq!(search(100), 100);
    assert_eq!(search(200), 101);
    let mut s = FontSizeSearch::new();
    assert_eq!(s.narrow(FontFit::TooLarge), None);
    assert_eq!((s.start, s.end), (1, 49));
    assert_eq!(s.narrow(FontFit::TooSmall), None);
    assert_eq!((s.start, s.end), (26, 49));
}

#[test]
fn font_size_search_probes_at_most_seven_times() {
    for target in [0u16, 1, 37, 64, 100, 200] {
        let mut s = FontSizeSearch::new();
        let mut probes = 0;
        while s.is_open() {
            let size = s.probe();
            probes += 1;
            let fit = if size > target { FontFit::TooLarge } else { FontFit::TooSmall };
            assert_eq!(s.narrow(fit), None);
        }
        assert!(probes <= 7);
    }
}
