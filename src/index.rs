use vstd::prelude::*;

verus! {

/// Number of digits, and of cells along each side of the grid.
pub const DIGIT_COUNT: usize = 9;

/// Number of cells in the grid.
pub const CELL_COUNT: usize = 81;

/// The three partitions of the grid into groups of nine cells.
#[derive(Copy, Clone, Eq, PartialEq, Debug, Structural)]
pub enum UnitKind {
    Row,
    Column,
    Box,
}

pub open spec fn row_of(i: int) -> int {
    i / 9
}

pub open spec fn column_of(i: int) -> int {
    i % 9
}

pub open spec fn box_of(i: int) -> int {
    (i / 27) * 3 + (i % 9) / 3
}

/// Two cells share a row, a column or a box (a cell is its own peer).
pub open spec fn same_unit(i: int, j: int) -> bool {
    ||| row_of(i) == row_of(j)
    ||| column_of(i) == column_of(j)
    ||| box_of(i) == box_of(j)
}

/// The group of the given kind that holds cell `i`.
pub open spec fn unit_of(kind: UnitKind, i: int) -> int {
    match kind {
        UnitKind::Row => row_of(i),
        UnitKind::Column => column_of(i),
        UnitKind::Box => box_of(i),
    }
}

/// The position of cell `i` inside its group of the given kind.
pub open spec fn position_in_unit(kind: UnitKind, i: int) -> int {
    match kind {
        UnitKind::Row => i % 9,
        UnitKind::Column => i / 9,
        UnitKind::Box => ((i / 9) % 3) * 3 + i % 3,
    }
}

/// Entry `k` of group `g` in the index table of the given kind.
pub open spec fn spec_unit_cell(kind: UnitKind, g: int, k: int) -> int {
    match kind {
        UnitKind::Row => g * 9 + k,
        UnitKind::Column => k * 9 + g,
        UnitKind::Box => (g / 3) * 27 + (g % 3) * 3 + (k / 3) * 9 + k % 3,
    }
}

/// Entry `k` of group `g` in the index table of the given kind.
pub fn unit_cell(kind: UnitKind, g: usize, k: usize) -> (r: usize)
    requires
        g < 9,
        k < 9,
    ensures
        r == spec_unit_cell(kind, g as int, k as int),
        r < 81,
{
    match kind {
        UnitKind::Row => g * 9 + k,
        UnitKind::Column => k * 9 + g,
        UnitKind::Box => (g / 3) * 27 + (g % 3) * 3 + (k / 3) * 9 + k % 3,
    }
}

/// The group of the given kind that holds cell `i`.
pub fn unit_index(kind: UnitKind, i: usize) -> (r: usize)
    requires
        i < 81,
    ensures
        r == unit_of(kind, i as int),
        r < 9,
{
    match kind {
        UnitKind::Row => i / 9,
        UnitKind::Column => i % 9,
        UnitKind::Box => (i / 27) * 3 + (i % 9) / 3,
    }
}

/// Column and row of a cell, from its index in a grid `width` cells wide.
pub fn index_to_xy(index: usize, width: usize) -> (r: (usize, usize))
    requires
        width > 0,
    ensures
        r.0 == index % width,
        r.1 == index / width,
{
    (index % width, index / width)
}

/// Each table entry is a cell of the grid, lying in the group it is listed under, at
/// the position it is listed at.
pub proof fn lemma_unit_cell(kind: UnitKind, g: int, k: int)
    requires
        0 <= g < 9,
        0 <= k < 9,
    ensures
        0 <= spec_unit_cell(kind, g, k) < 81,
        unit_of(kind, spec_unit_cell(kind, g, k)) == g,
        position_in_unit(kind, spec_unit_cell(kind, g, k)) == k,
{
    let i = spec_unit_cell(kind, g, k);
    match kind {
        UnitKind::Row => {
            assert(i / 9 == g && i % 9 == k) by (nonlinear_arith)
                requires i == g * 9 + k, 0 <= k < 9, 0 <= g < 9;
        },
        UnitKind::Column => {
            assert(i / 9 == k && i % 9 == g) by (nonlinear_arith)
                requires i == k * 9 + g, 0 <= k < 9, 0 <= g < 9;
        },
        UnitKind::Box => {
            let (gr, gc, kr, kc) = (g / 3, g % 3, k / 3, k % 3);
            assert(0 <= gr < 3 && 0 <= gc < 3 && 0 <= kr < 3 && 0 <= kc < 3);
            assert(g == gr * 3 + gc && k == kr * 3 + kc);
            assert(i / 9 == gr * 3 + kr && i % 9 == gc * 3 + kc) by (nonlinear_arith)
                requires
                    i == gr * 27 + gc * 3 + kr * 9 + kc,
                    0 <= gr < 3, 0 <= gc < 3, 0 <= kr < 3, 0 <= kc < 3;
            assert(i / 27 == gr) by (nonlinear_arith)
                requires
                    i == gr * 27 + gc * 3 + kr * 9 + kc,
                    0 <= gr < 3, 0 <= gc < 3, 0 <= kr < 3, 0 <= kc < 3;
            assert(i % 3 == kc) by (nonlinear_arith)
                requires
                    i == gr * 27 + gc * 3 + kr * 9 + kc,
                    0 <= gr < 3, 0 <= gc < 3, 0 <= kr < 3, 0 <= kc < 3;
        },
    }
}

/// Every cell of the grid is listed once in each table: in the group that holds it, at
/// its position there.
pub proof fn lemma_cell_in_unit(kind: UnitKind, i: int)
    requires
        0 <= i < 81,
    ensures
        0 <= unit_of(kind, i) < 9,
        0 <= position_in_unit(kind, i) < 9,
        spec_unit_cell(kind, unit_of(kind, i), position_in_unit(kind, i)) == i,
{
    let (r, c) = (i / 9, i % 9);
    assert(i == r * 9 + c && 0 <= r < 9 && 0 <= c < 9);
    match kind {
        UnitKind::Box => {
            let (rr, rc, cr, cc) = (r / 3, r % 3, c / 3, c % 3);
            assert(i / 27 == rr) by (nonlinear_arith)
                requires
                    i == r * 9 + c, r == rr * 3 + rc, 0 <= rc < 3, 0 <= c < 9, 0 <= rr;
            assert(i % 3 == cc) by (nonlinear_arith)
                requires i == r * 9 + c, c == cr * 3 + cc, 0 <= cc < 3;
            assert(r % 3 == rc);
        },
        _ => {},
    }
}

/// Two different positions of one group hold two different cells.
pub proof fn lemma_unit_cell_injective(kind: UnitKind, g: int, k1: int, k2: int)
    requires
        0 <= g < 9,
        0 <= k1 < 9,
        0 <= k2 < 9,
        k1 != k2,
    ensures
        spec_unit_cell(kind, g, k1) != spec_unit_cell(kind, g, k2),
{
    lemma_unit_cell(kind, g, k1);
    lemma_unit_cell(kind, g, k2);
}

} // verus!
