//! The state of a Sudoku board: a 9x9 grid of digits and pencil marks, the selected
//! cell and focused digit with the markings derived from them, the check that no row,
//! column or box holds a digit twice, and an undo history of whole-board snapshots.

pub mod board;
pub mod cell_state;
pub mod font_size;
pub mod highlight;
pub mod index;
pub mod menu;
pub mod validation;
