use vstd::prelude::*;

verus! {

/// How a cell is marked for drawing, from weakest to strongest.
#[derive(Copy, Clone, Eq, PartialEq, Debug, Structural)]
pub enum CellSelection {
    Unmarked,
    Highlighted,
    Emphasized,
    Selected,
}

/// One cell of the grid: its committed digit, its pencil marks and its marking.
#[derive(Copy, Clone, Debug)]
pub struct CellState {
    pub number: Option<u8>,
    /// `pencil[d - 1]` holds whether digit `d` is pencilled in.
    pub pencil: [bool; 9],
    pub selection: CellSelection,
}

pub open spec fn is_digit(d: u8) -> bool {
    1 <= d <= 9
}

impl CellState {
    /// The committed digit, if any, is one of `1..=9`.
    pub open spec fn wf(self) -> bool {
        self.number matches Some(d) ==> is_digit(d)
    }

    pub open spec fn has_pencil(self, d: u8) -> bool {
        is_digit(d) && self.pencil[d - 1]
    }

    pub fn new() -> (r: CellState)
        ensures
            r.number is None,
            forall|d: u8| !r.has_pencil(d),
            r.selection == CellSelection::Unmarked,
    {
        CellState { number: None, pencil: [false; 9], selection: CellSelection::Unmarked }
    }

    pub fn set_number(&mut self, d: u8)
        requires
            is_digit(d),
        ensures
            final(self).number == Some(d),
            final(self).pencil == old(self).pencil,
            final(self).selection == old(self).selection,
    {
        self.number = Some(d);
    }

    pub fn clear_number(&mut self)
        ensures
            final(self).number is None,
            final(self).pencil == old(self).pencil,
            final(self).selection == old(self).selection,
    {
        self.number = None;
    }

    /// Toggles the pencil mark for `d`.
    pub fn set_pencil(&mut self, d: u8)
        requires
            is_digit(d),
        ensures
            final(self).number == old(self).number,
            final(self).selection == old(self).selection,
            final(self).has_pencil(d) == !old(self).has_pencil(d),
            forall|e: u8| e != d ==> final(self).has_pencil(e) == old(self).has_pencil(e),
    {
        let k = (d - 1) as usize;
        let on = self.pencil[k];
        self.pencil[k] = !on;
    }

    /// Removes the pencil mark for `d`, if it is there.
    pub fn remove_pencil(&mut self, d: u8)
        requires
            is_digit(d),
        ensures
            final(self).number == old(self).number,
            final(self).selection == old(self).selection,
            !final(self).has_pencil(d),
            forall|e: u8| e != d ==> final(self).has_pencil(e) == old(self).has_pencil(e),
    {
        let k = (d - 1) as usize;
        self.pencil[k] = false;
    }

    pub fn is_number(&self, d: u8) -> (r: bool)
        ensures
            r == (self.number == Some(d)),
    {
        match self.number {
            Some(n) => n == d,
            None => false,
        }
    }

    pub fn has_number(&self) -> (r: bool)
        ensures
            r == self.number is Some,
    {
        self.number.is_some()
    }

    pub fn clear_selection(&mut self)
        ensures
            final(self).number == old(self).number,
            final(self).pencil == old(self).pencil,
            final(self).selection == CellSelection::Unmarked,
    {
        self.selection = CellSelection::Unmarked;
    }
}

impl Default for CellState {
    fn default() -> (r: CellState)
        ensures
            r.number is None,
            forall|d: u8| !r.has_pencil(d),
            r.selection == CellSelection::Unmarked,
    {
        CellState::new()
    }
}

} // verus!
