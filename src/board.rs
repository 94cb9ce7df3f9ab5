use vstd::prelude::*;

use crate::cell_state::{is_digit, CellSelection, CellState};
use crate::highlight::{
    clear_pencil, clear_selection, emphasized, highlight, marking, near_focus, pencil_cleared, shows,
};
use crate::index::same_unit;
use crate::validation::{grid_valid, grid_wf, is_valid};

verus! {

/// Whether a click on an empty cell enters the focused digit or toggles a pencil mark.
#[derive(Copy, Clone, Eq, PartialEq, Debug, Structural)]
pub enum BoardMode {
    Normal,
    Pencil,
}

pub open spec fn flipped(m: BoardMode) -> BoardMode {
    match m {
        BoardMode::Normal => BoardMode::Pencil,
        BoardMode::Pencil => BoardMode::Normal,
    }
}

/// The grid, the selection, and the history of the states before each move.
pub struct Board {
    pub cell_state: [CellState; 81],
    pub cell_state_history: Vec<[CellState; 81]>,
    /// `number_count[d - 1]` is how many cells held digit `d` when last counted.
    pub number_count: [u8; 9],
    pub mode: BoardMode,
    pub mode_history: Vec<BoardMode>,
    /// Side of the board in whole pixels, as of the last layout.
    pub board_size: i32,
    pub selected_index: Option<usize>,
    pub selected_index_history: Vec<Option<usize>>,
    pub selected_number: Option<u8>,
    pub selected_number_history: Vec<Option<u8>>,
}

/// Number of the first `n` cells of `g` that hold digit `d`.
pub open spec fn count_digit(g: Seq<CellState>, d: u8, n: int) -> nat
    decreases n,
{
    if n <= 0 {
        0
    } else {
        count_digit(g, d, n - 1) + if g[n - 1].number == Some(d) {
            1nat
        } else {
            0nat
        }
    }
}

/// `counts` holds, for each digit, how many cells of `g` hold it.
pub open spec fn counts_match(counts: [u8; 9], g: Seq<CellState>) -> bool {
    forall|d: u8| is_digit(d) ==> counts[d - 1] == #[trigger] count_digit(g, d, 81)
}

/// The last entry of a history, or nothing when it is empty.
pub open spec fn last_or_none<T>(h: Seq<Option<T>>) -> Option<T> {
    if h.len() == 0 {
        None
    } else {
        h.last()
    }
}

/// `g` with digit `d` committed to cell `s`.
pub open spec fn placed(g: Seq<CellState>, s: int, d: u8) -> Seq<CellState> {
    g.update(s, CellState { number: Some(d), ..g[s] })
}

/// The pencil marks of `after` are those of `before` with the mark for `d` toggled.
pub open spec fn pencil_toggled(before: CellState, after: CellState, d: u8) -> bool {
    &&& after.has_pencil(d) == !before.has_pencil(d)
    &&& forall|e: u8| e != d ==> after.has_pencil(e) == before.has_pencil(e)
}

/// The digit counts of a grid depend on its digits alone.
pub proof fn lemma_count_reads_digits(g1: Seq<CellState>, g2: Seq<CellState>, d: u8, n: int)
    requires
        0 <= n <= 81,
        g1.len() == 81,
        g2.len() == 81,
        forall|j: int| 0 <= j < 81 ==> (#[trigger] g1[j]).number == g2[j].number,
    ensures
        count_digit(g1, d, n) == count_digit(g2, d, n),
    decreases n,
{
    if n > 0 {
        lemma_count_reads_digits(g1, g2, d, n - 1);
        assert(g1[n - 1].number == g2[n - 1].number);
    }
}

/// The marking of a cell depends on the digits of the grid alone.
pub proof fn lemma_marking_reads_digits(
    g1: Seq<CellState>,
    g2: Seq<CellState>,
    sel: Option<usize>,
    n: Option<u8>,
    i: int,
)
    requires
        g1.len() == 81,
        g2.len() == 81,
        forall|j: int| 0 <= j < 81 ==> (#[trigger] g1[j]).number == g2[j].number,
        0 <= i < 81,
    ensures
        marking(g1, sel, n, i) == marking(g2, sel, n, i),
{
    if let Some(s) = sel {
        assert(g1[i].number == g2[i].number);
        if near_focus(g1, s as int, n, i) && !same_unit(s as int, i) {
            let j = choose|j: int| 0 <= j < 81 && #[trigger] emphasized(g1, s as int, n, j) && same_unit(j, i);
            assert(g1[j].number == g2[j].number);
            assert(emphasized(g2, s as int, n, j));
        }
        if near_focus(g2, s as int, n, i) && !same_unit(s as int, i) {
            let j = choose|j: int| 0 <= j < 81 && #[trigger] emphasized(g2, s as int, n, j) && same_unit(j, i);
            assert(g1[j].number == g2[j].number);
            assert(emphasized(g1, s as int, n, j));
        }
    }
}

impl Board {
    pub open spec fn history_len(&self) -> nat {
        self.cell_state_history@.len()
    }

    /// Digits lie in `1..=9` and the selected cell in the grid, now and in every recorded
    /// state, and the four histories have one entry per move.
    pub open spec fn wf(&self) -> bool {
        &&& grid_wf(self.cell_state@)
        &&& self.selected_index matches Some(s) ==> s < 81
        &&& self.selected_number matches Some(d) ==> is_digit(d)
        &&& self.mode_history@.len() == self.history_len()
        &&& self.selected_index_history@.len() == self.history_len()
        &&& self.selected_number_history@.len() == self.history_len()
        &&& forall|k: int|
            0 <= k < self.history_len() ==> grid_wf(#[trigger] self.cell_state_history@[k]@)
        &&& forall|k: int|
            0 <= k < self.history_len() ==> (#[trigger] self.selected_index_history@[k] matches Some(
                s,
            ) ==> s < 81)
        &&& forall|k: int|
            0 <= k < self.history_len() ==> (#[trigger] self.selected_number_history@[k] matches Some(
                d,
            ) ==> is_digit(d))
    }

    /// `after` is `before` with the state of `before` pushed onto the histories, the
    /// digit focus recorded as `n`.
    pub open spec fn pushed(before: Board, after: Board, n: Option<u8>) -> bool {
        &&& after.cell_state_history@ == before.cell_state_history@.push(before.cell_state)
        &&& after.mode_history@ == before.mode_history@.push(before.mode)
        &&& after.selected_index_history@ == before.selected_index_history@.push(
            before.selected_index,
        )
        &&& after.selected_number_history@ == before.selected_number_history@.push(n)
    }

    pub open spec fn same_history(before: Board, after: Board) -> bool {
        &&& after.cell_state_history@ == before.cell_state_history@
        &&& after.mode_history@ == before.mode_history@
        &&& after.selected_index_history@ == before.selected_index_history@
        &&& after.selected_number_history@ == before.selected_number_history@
    }

    /// What `undo` makes of a board with a non-empty history: the last recorded grid and
    /// mode come back, the last entry of each history goes, and the selection is the one
    /// recorded in the entry before it (none if there is none), with markings and counts
    /// recomputed.
    pub open spec fn undone(before: Board, after: Board) -> bool {
        let k = before.history_len() - 1;
        let grid = before.cell_state_history@[k]@;
        &&& after.cell_state_history@ == before.cell_state_history@.drop_last()
        &&& after.mode_history@ == before.mode_history@.drop_last()
        &&& after.selected_index_history@ == before.selected_index_history@.drop_last()
        &&& after.selected_number_history@ == before.selected_number_history@.drop_last()
        &&& after.mode == before.mode_history@[k]
        &&& after.selected_index == last_or_none(after.selected_index_history@)
        &&& after.selected_number == last_or_none(after.selected_number_history@)
        &&& shows(after.cell_state@, grid, after.selected_index, after.selected_number)
        &&& counts_match(after.number_count, after.cell_state@)
        &&& after.board_size == before.board_size
    }

    /// What entering digit `d` makes of `before`. Without a selected cell nothing
    /// changes. Otherwise the state is recorded with `d` as the focus and `d` is committed
    /// to the selected cell. If that leaves a row, column or box with a digit twice, the
    /// move is undone and the selection from before it comes back, markings recomputed. If not, `d` becomes the focus, the markings are recomputed, the
    /// pencil marks for `d` leave the highlighted empty cells, and the digits are counted.
    pub open spec fn entered(before: Board, after: Board, d: u8) -> bool {
        match before.selected_index {
            None => after == before,
            Some(s) => {
                let g = placed(before.cell_state@, s as int, d);
                if grid_valid(g) {
                    &&& Board::pushed(before, after, Some(d))
                    &&& after.mode == before.mode
                    &&& after.selected_index == before.selected_index
                    &&& after.selected_number == Some(d)
                    &&& forall|i: int|
                        #![trigger after.cell_state@[i]]
                        0 <= i < 81 ==> {
                            &&& after.cell_state@[i].number == g[i].number
                            &&& pencil_cleared(
                                CellState { selection: marking(g, Some(s), Some(d), i), ..g[i] },
                                after.cell_state@[i],
                                d,
                            )
                        }
                    &&& counts_match(after.number_count, after.cell_state@)
                    &&& after.board_size == before.board_size
                } else {
                    &&& Board::same_history(before, after)
                    &&& after.mode == before.mode
                    &&& after.selected_index == before.selected_index
                    &&& after.selected_number == before.selected_number
                    &&& shows(
                        after.cell_state@,
                        before.cell_state@,
                        before.selected_index,
                        before.selected_number,
                    )
                    &&& counts_match(after.number_count, after.cell_state@)
                    &&& after.board_size == before.board_size
                }
            },
        }
    }

    /// What a click makes of `before`, given the cell it hit, if any. A click that hits no
    /// cell drops the selected cell and clears every marking. In pencil mode, with a digit
    /// focused, a click on an empty unmarked cell records the state and toggles the cell's
    /// pencil mark for the focused digit, leaving the selection as it is. Any other click
    /// selects the hit cell and focuses its digit, if any. The markings are then
    /// recomputed, unless the board is in pencil mode with no digit focused.
    pub open spec fn clicked(before: Board, after: Board, hit: Option<usize>) -> bool {
        match hit {
            None => {
                &&& after == (Board {
                    selected_index: None,
                    cell_state: after.cell_state,
                    ..before
                })
                &&& shows(after.cell_state@, before.cell_state@, None, before.selected_number)
            },
            Some(h) => {
                let cell = before.cell_state@[h as int];
                &&& after.mode == before.mode
                &&& after.number_count == before.number_count
                &&& after.board_size == before.board_size
                &&& if before.mode == BoardMode::Pencil && before.selected_number is Some
                    && cell.number is None && cell.selection == CellSelection::Unmarked {
                    &&& Board::pushed(before, after, before.selected_number)
                    &&& after.selected_index == before.selected_index
                    &&& after.selected_number == before.selected_number
                    &&& forall|i: int|
                        #![trigger after.cell_state@[i]]
                        0 <= i < 81 ==> {
                            &&& after.cell_state@[i].number == before.cell_state@[i].number
                            &&& after.cell_state@[i].selection == marking(
                                before.cell_state@,
                                before.selected_index,
                                before.selected_number,
                                i,
                            )
                            &&& if i == h {
                                pencil_toggled(
                                    cell,
                                    after.cell_state@[i],
                                    before.selected_number.unwrap(),
                                )
                            } else {
                                after.cell_state@[i].pencil == before.cell_state@[i].pencil
                            }
                        }
                } else {
                    &&& Board::same_history(before, after)
                    &&& after.selected_index == Some(h)
                    &&& after.selected_number == cell.number
                    &&& if before.mode == BoardMode::Normal || cell.number is Some {
                        shows(after.cell_state@, before.cell_state@, Some(h), cell.number)
                    } else {
                        after.cell_state == before.cell_state
                    }
                }
            },
        }
    }

    /// An empty board in normal mode, with nothing selected and no history.
    pub fn new() -> (r: Board)
        ensures
            r.wf(),
            forall|i: int|
                #![trigger r.cell_state@[i]]
                0 <= i < 81 ==> r.cell_state@[i].number is None && r.cell_state@[i].selection
                    == CellSelection::Unmarked && forall|d: u8| !r.cell_state@[i].has_pencil(d),
            r.history_len() == 0,
            r.mode == BoardMode::Normal,
            r.selected_index is None,
            r.selected_number is None,
            forall|d: u8| is_digit(d) ==> r.number_count[d - 1] == 0,
            r.board_size == 0,
    {
        let cell = CellState::new();
        Board {
            cell_state: [cell; 81],
            cell_state_history: Vec::new(),
            number_count: [0u8; 9],
            mode: BoardMode::Normal,
            mode_history: Vec::new(),
            board_size: 0,
            selected_index: None,
            selected_index_history: Vec::new(),
            selected_number: None,
            selected_number_history: Vec::new(),
        }
    }

    fn is_cell_selected(&self) -> (r: bool)
        ensures
            r == self.selected_index is Some,
    {
        self.selected_index.is_some()
    }

    /// Switches between normal and pencil mode; nothing else changes.
    pub fn toggle_pencil_mode(&mut self)
        ensures
            *final(self) == (Board { mode: flipped(old(self).mode), ..*old(self) }),
    {
        match self.mode {
            BoardMode::Normal => self.mode = BoardMode::Pencil,
            BoardMode::Pencil => self.mode = BoardMode::Normal,
        }
    }

    /// Records the grid, mode, selected cell and focused digit.
    pub fn add_undo_point(&mut self)
        requires
            old(self).wf(),
        ensures
            final(self).wf(),
            Board::pushed(*old(self), *final(self), old(self).selected_number),
            final(self).cell_state == old(self).cell_state,
            final(self).number_count == old(self).number_count,
            final(self).mode == old(self).mode,
            final(self).board_size == old(self).board_size,
            final(self).selected_index == old(self).selected_index,
            final(self).selected_number == old(self).selected_number,
    {
        self.cell_state_history.push(self.cell_state);
        self.mode_history.push(self.mode);
        self.selected_index_history.push(self.selected_index);
        self.selected_number_history.push(self.selected_number);
        proof {
            assert forall|k: int| 0 <= k < self.history_len() implies grid_wf(
                #[trigger] self.cell_state_history@[k]@,
            ) by {
                if k < old(self).history_len() {
                    assert(self.cell_state_history@[k] == old(self).cell_state_history@[k]);
                }
            }
            assert forall|k: int| 0 <= k < self.history_len() implies (
            #[trigger] self.selected_index_history@[k] matches Some(s) ==> s < 81) by {
                if k < old(self).history_len() {
                    assert(self.selected_index_history@[k] == old(self).selected_index_history@[k]);
                }
            }
            assert forall|k: int| 0 <= k < self.history_len() implies (
            #[trigger] self.selected_number_history@[k] matches Some(d) ==> is_digit(d)) by {
                if k < old(self).history_len() {
                    assert(self.selected_number_history@[k] == old(
                        self,
                    ).selected_number_history@[k]);
                }
            }
        }
    }

    /// Steps back to the last recorded state; with no history nothing changes.
    pub fn undo(&mut self)
        requires
            old(self).wf(),
        ensures
            final(self).wf(),
            old(self).history_len() == 0 ==> *final(self) == *old(self),
            old(self).history_len() > 0 ==> Board::undone(*old(self), *final(self)),
    {
        if self.cell_state_history.len() == 0 {
            return;
        }
        let ghost before = *self;
        let cells = match self.cell_state_history.pop() {
            None => self.cell_state,
            Some(cells) => cells,
        };
        let ghost k = before.history_len() - 1;
        assert(self.cell_state_history@.len() == k);
        self.cell_state = cells;
        if let Some(mode) = self.mode_history.pop() {
            self.mode = mode;
        }
        self.selected_index_history.pop();
        self.selected_number_history.pop();
        let n = self.selected_index_history.len();
        if n == 0 {
            self.selected_index = None;
            self.selected_number = None;
        } else {
            self.selected_index = self.selected_index_history[n - 1];
            self.selected_number = self.selected_number_history[n - 1];
        }
        proof {
            assert(cells == before.cell_state_history@[k]);
            assert(grid_wf(before.cell_state_history@[k]@));
            assert forall|j: int| 0 <= j < self.history_len() implies grid_wf(
                #[trigger] self.cell_state_history@[j]@,
            ) by {
                assert(self.cell_state_history@[j] == before.cell_state_history@[j]);
            }
            assert forall|j: int| 0 <= j < self.history_len() implies (
            #[trigger] self.selected_index_history@[j] matches Some(s) ==> s < 81) by {
                assert(self.selected_index_history@[j] == before.selected_index_history@[j]);
            }
            assert forall|j: int| 0 <= j < self.history_len() implies (
            #[trigger] self.selected_number_history@[j] matches Some(d) ==> is_digit(d)) by {
                assert(self.selected_number_history@[j] == before.selected_number_history@[j]);
            }
        }
        self.highlight();
        self.update_number_count();
    }

    /// Commits digit `d` to the selected cell.
    fn handle_if_insert(&mut self, number: u8)
        requires
            old(self).wf(),
            old(self).selected_index is Some,
            is_digit(number),
        ensures
            final(self).cell_state@ == placed(
                old(self).cell_state@,
                old(self).selected_index.unwrap() as int,
                number,
            ),
            *final(self) == (Board { cell_state: final(self).cell_state, ..*old(self) }),
    {
        let s = match self.selected_index {
            None => {
                return;
            },
            Some(s) => s,
        };
        let mut cell = self.cell_state[s];
        if cell.is_number(number) {
            assert(self.cell_state@ =~= placed(self.cell_state@, s as int, number));
            return;
        }
        cell.set_number(number);
        self.cell_state[s] = cell;
        assert(self.cell_state@ =~= placed(old(self).cell_state@, s as int, number));
    }

    /// Enters digit `number` into the selected cell, undoing the move if it puts a digit
    /// twice into a row, column or box.
    pub fn number(&mut self, number: u8)
        requires
            old(self).wf(),
            is_digit(number),
        ensures
            final(self).wf(),
            Board::entered(*old(self), *final(self), number),
    {
        if !self.is_cell_selected() {
            return;
        }
        let ghost before = *self;
        let ghost s = self.selected_index.unwrap();
        let selected_index = self.selected_index;
        let selected_number = self.selected_number;
        self.selected_number = Some(number);
        self.add_undo_point();
        self.handle_if_insert(number);
        let ghost g = self.cell_state@;
        assert(g == placed(before.cell_state@, s as int, number));
        assert(grid_wf(g));
        if !self.is_valid() {
            let ghost mid = *self;
            self.undo();
            self.selected_index = selected_index;
            self.selected_number = selected_number;
            let ghost u = self.cell_state@;
            self.highlight();
            proof {
                assert forall|i: int| 0 <= i < 81 implies marking(
                    u,
                    selected_index,
                    selected_number,
                    i,
                ) == marking(before.cell_state@, selected_index, selected_number, i) by {
                    assert forall|j: int| 0 <= j < 81 implies (#[trigger] u[j]).number
                        == before.cell_state@[j].number by {
                        assert(u[j].number == mid.cell_state_history@[mid.history_len() - 1]@[j].number);
                    }
                    lemma_marking_reads_digits(
                        u,
                        before.cell_state@,
                        selected_index,
                        selected_number,
                        i,
                    );
                }
                assert forall|d: u8| is_digit(d) implies self.number_count[d - 1]
                    == #[trigger] count_digit(self.cell_state@, d, 81) by {
                    lemma_count_reads_digits(self.cell_state@, u, d, 81);
                }
                assert(mid.cell_state_history@.drop_last() =~= before.cell_state_history@);
                assert(mid.mode_history@.drop_last() =~= before.mode_history@);
                assert(mid.selected_index_history@.drop_last() =~= before.selected_index_history@);
                assert(mid.selected_number_history@.drop_last() =~= before.selected_number_history@);
            }
            return;
        }
        self.highlight();
        let ghost h = self.cell_state@;
        clear_pencil(&mut self.cell_state, number);
        proof {
            assert forall|i: int| 0 <= i < 81 implies h[i] == (CellState {
                selection: marking(g, Some(s), Some(number), i),
                ..g[i]
            }) by {
                assert(h[i].number == g[i].number);
            }
            assert forall|i: int| 0 <= i < 81 implies (#[trigger] self.cell_state@[i]).wf()
                && self.cell_state@[i].number == g[i].number && pencil_cleared(
                CellState { selection: marking(g, Some(s), Some(number), i), ..g[i] },
                self.cell_state@[i],
                number,
            ) by {
                assert(pencil_cleared(h[i], self.cell_state@[i], number));
            }
        }
        self.update_number_count();
    }

    /// Handles a click on cell `clicked_index`, or off the grid when there is none.
    pub fn click(&mut self, clicked_index: Option<usize>)
        requires
            old(self).wf(),
            clicked_index matches Some(h) ==> h < 81,
        ensures
            final(self).wf(),
            Board::clicked(*old(self), *final(self), clicked_index),
    {
        let ghost before = *self;
        let clicked_index = match clicked_index {
            None => {
                self.selected_index = None;
                self.highlight();
                return;
            },
            Some(i) => i,
        };
        let cell = self.cell_state[clicked_index];
        if self.mode == BoardMode::Pencil && self.selected_number.is_some() && !cell.has_number()
            && cell.selection == CellSelection::Unmarked {
            if let Some(d) = self.selected_number {
                self.add_undo_point();
                let mut c = self.cell_state[clicked_index];
                c.set_pencil(d);
                self.cell_state[clicked_index] = c;
                assert(grid_wf(self.cell_state@));
            }
            let ghost g = self.cell_state@;
            self.highlight();
            proof {
                assert forall|i: int| 0 <= i < 81 implies marking(
                    g,
                    before.selected_index,
                    before.selected_number,
                    i,
                ) == marking(before.cell_state@, before.selected_index, before.selected_number, i)
                    by {
                    lemma_marking_reads_digits(
                        g,
                        before.cell_state@,
                        before.selected_index,
                        before.selected_number,
                        i,
                    );
                }
            }
        } else {
            self.selected_index = Some(clicked_index);
            self.selected_number = cell.number;
            if self.mode == BoardMode::Normal || self.selected_number.is_some() {
                self.highlight();
            }
        }
    }

    /// Resets the marking of every cell; nothing else changes.
    pub fn clear_cell_selection(&mut self)
        ensures
            forall|i: int|
                #![trigger final(self).cell_state@[i]]
                0 <= i < 81 ==> {
                    &&& final(self).cell_state@[i].number == old(self).cell_state@[i].number
                    &&& final(self).cell_state@[i].pencil == old(self).cell_state@[i].pencil
                    &&& final(self).cell_state@[i].selection == CellSelection::Unmarked
                },
            *final(self) == (Board { cell_state: final(self).cell_state, ..*old(self) }),
    {
        clear_selection(&mut self.cell_state);
    }

    /// Removes the digit of the selected cell and resets every marking; without a selected
    /// cell nothing changes.
    pub fn clear_number(&mut self)
        requires
            old(self).wf(),
        ensures
            final(self).wf(),
            *final(self) == (Board { cell_state: final(self).cell_state, ..*old(self) }),
            old(self).selected_index is None ==> final(self).cell_state == old(self).cell_state,
            old(self).selected_index matches Some(s) ==> forall|i: int|
                #![trigger final(self).cell_state@[i]]
                0 <= i < 81 ==> {
                    &&& final(self).cell_state@[i].number == if i == s {
                        None
                    } else {
                        old(self).cell_state@[i].number
                    }
                    &&& final(self).cell_state@[i].pencil == old(self).cell_state@[i].pencil
                    &&& final(self).cell_state@[i].selection == CellSelection::Unmarked
                },
    {
        let s = match self.selected_index {
            None => {
                return;
            },
            Some(s) => s,
        };
        let mut cell = self.cell_state[s];
        cell.clear_number();
        self.cell_state[s] = cell;
        self.clear_cell_selection();
    }

    /// Whether no row, column or box holds a committed digit twice.
    pub fn is_valid(&self) -> (r: bool)
        requires
            grid_wf(self.cell_state@),
        ensures
            r == grid_valid(self.cell_state@),
    {
        is_valid(&self.cell_state)
    }

    /// Recomputes every cell's marking from the selected cell and the focused digit.
    pub fn highlight(&mut self)
        requires
            old(self).wf(),
        ensures
            final(self).wf(),
            shows(
                final(self).cell_state@,
                old(self).cell_state@,
                old(self).selected_index,
                old(self).selected_number,
            ),
            *final(self) == (Board { cell_state: final(self).cell_state, ..*old(self) }),
    {
        highlight(&mut self.cell_state, self.selected_index, self.selected_number);
    }

    /// Counts, for each digit, the cells that hold it.
    fn update_number_count(&mut self)
        requires
            grid_wf(old(self).cell_state@),
        ensures
            counts_match(final(self).number_count, final(self).cell_state@),
            *final(self) == (Board { number_count: final(self).number_count, ..*old(self) }),
    {
        let ghost g = self.cell_state@;
        let mut counts: [u8; 9] = [0u8; 9];
        let mut i: usize = 0;
        while i < 81
            invariant
                g == self.cell_state@,
                grid_wf(g),
                i <= 81,
                forall|d: u8|
                    is_digit(d) ==> counts[d - 1] == #[trigger] count_digit(g, d, i as int)
                        && count_digit(g, d, i as int) <= i,
            decreases 81 - i,
        {
            if let Some(number) = self.cell_state[i].number {
                let k = (number - 1) as usize;
                assert(is_digit(number));
                assert(counts[k as int] == count_digit(g, number, i as int));
                counts[k] = counts[k] + 1;
            }
            assert forall|d: u8| is_digit(d) implies counts[d - 1] == #[trigger] count_digit(
                g,
                d,
                i + 1,
            ) && count_digit(g, d, i + 1) <= i + 1 by {
                assert(count_digit(g, d, i + 1) == count_digit(g, d, i as int) + if g[i as int].number
                    == Some(d) {
                    1nat
                } else {
                    0nat
                });
            }
            i += 1;
        }
        self.number_count = counts;
    }

    /// Records a new board size, in whole pixels; reports whether it differs from the
    /// last one, that is whether the layout has to be redone.
    pub fn update(&mut self, board_size: i32) -> (changed: bool)
        ensures
            changed == (board_size != old(self).board_size),
            *final(self) == (Board { board_size, ..*old(self) }),
    {
        if self.board_size == board_size {
            return false;
        }
        self.board_size = board_size;
        true
    }
}


/// Toggling pencil mode twice gives back the board as it was.
pub proof fn lemma_toggle_pencil_mode_twice(b: Board)
    ensures
        (Board { mode: flipped((Board { mode: flipped(b.mode), ..b }).mode), ..b }) == b,
{
}

/// A digit that would appear twice in a row, column or box leaves the digits, pencil
/// marks, mode, selected cell, focused digit and history as they were.
pub proof fn lemma_rejected_entry_rolls_back(before: Board, after: Board, d: u8)
    requires
        before.wf(),
        is_digit(d),
        Board::entered(before, after, d),
        before.selected_index matches Some(s) && !grid_valid(
            placed(before.cell_state@, s as int, d),
        ),
    ensures
        forall|i: int|
            #![trigger after.cell_state@[i]]
            0 <= i < 81 ==> after.cell_state@[i].number == before.cell_state@[i].number
                && after.cell_state@[i].pencil == before.cell_state@[i].pencil,
        grid_valid(before.cell_state@) ==> grid_valid(after.cell_state@),
        after.mode == before.mode,
        Board::same_history(before, after),
        after.selected_index == before.selected_index,
        after.selected_number == before.selected_number,
{
    assert forall|i: int| 0 <= i < 81 implies (#[trigger] after.cell_state@[i]).number
        == before.cell_state@[i].number && after.cell_state@[i].pencil
        == before.cell_state@[i].pencil by {}
    if grid_valid(before.cell_state@) {
        assert forall|i: int, j: int|
            0 <= i < 81 && 0 <= j < 81 && i != j && same_unit(i, j)
                && (#[trigger] after.cell_state@[i]).number is Some implies after.cell_state@[i].number
            != (#[trigger] after.cell_state@[j]).number by {
            assert(before.cell_state@[i].number != before.cell_state@[j].number);
        }
    }
}

/// Entering a digit never makes a valid grid invalid: it is kept only if the grid stays
/// valid, and otherwise the digits are left as they were.
pub proof fn lemma_entry_keeps_grid_valid(before: Board, after: Board, d: u8)
    requires
        before.wf(),
        is_digit(d),
        Board::entered(before, after, d),
        grid_valid(before.cell_state@),
    ensures
        grid_valid(after.cell_state@),
{
    if let Some(s) = before.selected_index {
        let g = placed(before.cell_state@, s as int, d);
        if grid_valid(g) {
            assert forall|i: int, j: int|
                0 <= i < 81 && 0 <= j < 81 && i != j && same_unit(i, j)
                    && (#[trigger] after.cell_state@[i]).number is Some implies after.cell_state@[i].number
                != (#[trigger] after.cell_state@[j]).number by {
                assert(g[i].number != g[j].number);
            }
        } else {
            lemma_rejected_entry_rolls_back(before, after, d);
        }
    }
}

/// After a digit is accepted into a cell, no empty cell sharing a row, column or box
/// with it keeps a pencil mark for that digit.
pub proof fn lemma_entry_clears_peer_pencil_marks(before: Board, after: Board, d: u8)
    requires
        before.wf(),
        is_digit(d),
        Board::entered(before, after, d),
        before.selected_index matches Some(s) && grid_valid(
            placed(before.cell_state@, s as int, d),
        ),
    ensures
        forall|i: int|
            #![trigger after.cell_state@[i]]
            0 <= i < 81 && same_unit(before.selected_index.unwrap() as int, i)
                && after.cell_state@[i].number is None ==> !after.cell_state@[i].has_pencil(d),
{
    let s = before.selected_index.unwrap();
    let g = placed(before.cell_state@, s as int, d);
    assert forall|i: int|
        0 <= i < 81 && same_unit(s as int, i) && (#[trigger] after.cell_state@[i]).number
            is None implies !after.cell_state@[i].has_pencil(d) by {
        assert(i != s);
        assert(marking(g, Some(s), Some(d), i) == CellSelection::Highlighted);
        assert(pencil_cleared(
            CellState { selection: marking(g, Some(s), Some(d), i), ..g[i] },
            after.cell_state@[i],
            d,
        ));
    }
}

} // verus!
