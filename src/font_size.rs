use vstd::prelude::*;

verus! {

/// Smallest font size tried when fitting text to a cell.
pub const MIN_FONT_SIZE: u16 = 1;

/// Largest font size tried when fitting text to a cell.
pub const MAX_FONT_SIZE: u16 = 100;

/// How text set at a probed font size compares with the height it should take.
#[derive(Copy, Clone, Eq, PartialEq, Debug, Structural)]
pub enum FontFit {
    TooSmall,
    Fits,
    TooLarge,
}

/// A binary search for a font size, over the sizes `start..=end` still in question.
/// The caller measures each probed size and reports how it fits.
#[derive(Copy, Clone, Eq, PartialEq, Debug, Structural)]
pub struct FontSizeSearch {
    pub start: u16,
    pub end: u16,
}

impl FontSizeSearch {
    pub open spec fn wf(self) -> bool {
        &&& MIN_FONT_SIZE <= self.start <= MAX_FONT_SIZE + 1
        &&& self.end <= MAX_FONT_SIZE
        &&& self.start <= self.end + 1
    }

    /// Number of sizes still in question.
    pub open spec fn remaining(self) -> int {
        self.end - self.start + 1
    }

    pub open spec fn spec_probe(self) -> u16 {
        ((self.start + self.end) / 2) as u16
    }

    /// A search over all sizes from `MIN_FONT_SIZE` to `MAX_FONT_SIZE`.
    pub fn new() -> (r: FontSizeSearch)
        ensures
            r.wf(),
            r.start == MIN_FONT_SIZE,
            r.end == MAX_FONT_SIZE,
    {
        FontSizeSearch { start: MIN_FONT_SIZE, end: MAX_FONT_SIZE }
    }

    /// Whether sizes remain to be tried.
    pub fn is_open(&self) -> (r: bool)
        ensures
            r == (self.start <= self.end),
    {
        self.start <= self.end
    }

    /// The size to try next: the middle of the sizes in question.
    pub fn probe(&self) -> (r: u16)
        requires
            self.wf(),
            self.start <= self.end,
        ensures
            r == self.spec_probe(),
            self.start <= r <= self.end,
    {
        (self.start + self.end) / 2
    }

    /// Takes in how the probed size fits. A fitting size ends the search and is returned;
    /// otherwise the sizes on the wrong side of the probe, and the probe itself, are
    /// dropped.
    pub fn narrow(&mut self, fit: FontFit) -> (r: Option<u16>)
        requires
            old(self).wf(),
            old(self).start <= old(self).end,
        ensures
            final(self).wf(),
            match fit {
                FontFit::Fits => r == Some(old(self).spec_probe()) && *final(self) == *old(self),
                FontFit::TooLarge => r is None && final(self).start == old(self).start
                    && final(self).end == old(self).spec_probe() - 1,
                FontFit::TooSmall => r is None && final(self).start == old(self).spec_probe() + 1
                    && final(self).end == old(self).end,
            },
            fit != FontFit::Fits ==> final(self).remaining() < old(self).remaining(),
            fit != FontFit::Fits ==> final(self).remaining() <= old(self).remaining() / 2,
    {
        let size = self.probe();
        match fit {
            FontFit::Fits => Some(size),
            FontFit::TooLarge => {
                self.end = size - 1;
                None
            },
            FontFit::TooSmall => {
                self.start = size + 1;
                None
            },
        }
    }

    /// The size the search settles on when no probe fits: the smallest size not known to
    /// be too small.
    pub fn result(&self) -> (r: u16)
        ensures
            r == self.start,
    {
        self.start
    }
}

} // verus!
