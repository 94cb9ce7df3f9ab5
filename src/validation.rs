use vstd::prelude::*;

use crate::cell_state::{is_digit, CellState};
use crate::index::{
    lemma_cell_in_unit, lemma_unit_cell, lemma_unit_cell_injective, same_unit, spec_unit_cell,
    unit_cell, unit_of, UnitKind, position_in_unit,
};

verus! {

/// Every committed digit of the grid lies in `1..=9`.
pub open spec fn grid_wf(g: Seq<CellState>) -> bool {
    &&& g.len() == 81
    &&& forall|i: int| 0 <= i < 81 ==> (#[trigger] g[i]).wf()
}

/// No row, column or box holds two cells with the same committed digit.
pub open spec fn grid_valid(g: Seq<CellState>) -> bool {
    forall|i: int, j: int|
        0 <= i < 81 && 0 <= j < 81 && i != j && same_unit(i, j) && (#[trigger] g[i]).number is Some
            ==> g[i].number != (#[trigger] g[j]).number
}

/// Group `u` of the given kind holds no committed digit twice.
pub open spec fn unit_valid(g: Seq<CellState>, kind: UnitKind, u: int) -> bool {
    forall|k1: int, k2: int|
        0 <= k1 < 9 && 0 <= k2 < 9 && k1 != k2 && (#[trigger] g[spec_unit_cell(kind, u, k1)]).number is Some
            ==> g[spec_unit_cell(kind, u, k1)].number != (#[trigger] g[spec_unit_cell(kind, u, k2)]).number
}

/// The grid is valid exactly when each group of each table is.
pub proof fn lemma_units_valid(g: Seq<CellState>)
    requires
        g.len() == 81,
    ensures
        grid_valid(g) <==> forall|kind: UnitKind, u: int| 0 <= u < 9 ==> #[trigger] unit_valid(g, kind, u),
{
    if grid_valid(g) {
        assert forall|kind: UnitKind, u: int| 0 <= u < 9 implies #[trigger] unit_valid(g, kind, u) by {
            assert forall|k1: int, k2: int|
                0 <= k1 < 9 && 0 <= k2 < 9 && k1 != k2 && (#[trigger] g[spec_unit_cell(kind, u, k1)]).number is Some
                implies g[spec_unit_cell(kind, u, k1)].number != (#[trigger] g[spec_unit_cell(kind, u, k2)]).number by {
                let i = spec_unit_cell(kind, u, k1);
                let j = spec_unit_cell(kind, u, k2);
                lemma_unit_cell(kind, u, k1);
                lemma_unit_cell(kind, u, k2);
                lemma_unit_cell_injective(kind, u, k1, k2);
                assert(same_unit(i, j));
                assert(g[i].number != g[j].number);
            }
        }
    }
    if forall|kind: UnitKind, u: int| 0 <= u < 9 ==> #[trigger] unit_valid(g, kind, u) {
        assert forall|i: int, j: int|
            0 <= i < 81 && 0 <= j < 81 && i != j && same_unit(i, j) && (#[trigger] g[i]).number is Some
            implies g[i].number != (#[trigger] g[j]).number by {
            let kind = if unit_of(UnitKind::Row, i) == unit_of(UnitKind::Row, j) {
                UnitKind::Row
            } else if unit_of(UnitKind::Column, i) == unit_of(UnitKind::Column, j) {
                UnitKind::Column
            } else {
                UnitKind::Box
            };
            lemma_cell_in_unit(kind, i);
            lemma_cell_in_unit(kind, j);
            let u = unit_of(kind, i);
            assert(unit_valid(g, kind, u));
            let k1 = position_in_unit(kind, i);
            let k2 = position_in_unit(kind, j);
            assert(g[spec_unit_cell(kind, u, k1)].number != g[spec_unit_cell(kind, u, k2)].number);
        }
    }
}

/// Whether group `u` of the given kind holds no committed digit twice.
pub fn is_range_valid(cells: &[CellState; 81], kind: UnitKind, u: usize) -> (r: bool)
    requires
        grid_wf(cells@),
        u < 9,
    ensures
        r == unit_valid(cells@, kind, u as int),
{
    let ghost g = cells@;
    let mut values: [bool; 9] = [false; 9];
    let mut k: usize = 0;
    while k < 9
        invariant
            g == cells@,
            grid_wf(g),
            u < 9,
            k <= 9,
            forall|d: u8|
                is_digit(d) ==> (values[d - 1] <==> exists|k1: int|
                    0 <= k1 < k && #[trigger] g[spec_unit_cell(kind, u as int, k1)].number == Some(d)),
            forall|k1: int, k2: int|
                0 <= k1 < k && 0 <= k2 < k && k1 != k2
                    && (#[trigger] g[spec_unit_cell(kind, u as int, k1)]).number is Some
                    ==> g[spec_unit_cell(kind, u as int, k1)].number
                        != (#[trigger] g[spec_unit_cell(kind, u as int, k2)]).number,
        decreases 9 - k,
    {
        let index = unit_cell(kind, u, k);
        proof {
            lemma_unit_cell(kind, u as int, k as int);
        }
        if let Some(number) = cells[index].number {
            assert(is_digit(number));
            if values[(number - 1) as usize] {
                assert(!unit_valid(g, kind, u as int)) by {
                    let k1 = choose|k1: int|
                        0 <= k1 < k && #[trigger] g[spec_unit_cell(kind, u as int, k1)].number
                            == Some(number);
                    assert(g[spec_unit_cell(kind, u as int, k1)].number == g[spec_unit_cell(
                        kind,
                        u as int,
                        k as int,
                    )].number);
                }
                return false;
            }
            values[(number - 1) as usize] = true;
            proof {
                assert forall|d: u8|
                    is_digit(d) implies (values[d - 1] <==> exists|k1: int|
                        0 <= k1 < k + 1 && #[trigger] g[spec_unit_cell(kind, u as int, k1)].number
                            == Some(d)) by {
                    if d == number {
                        assert(g[spec_unit_cell(kind, u as int, k as int)].number == Some(d));
                    } else if values[d - 1] {
                        let k1 = choose|k1: int|
                            0 <= k1 < k && #[trigger] g[spec_unit_cell(kind, u as int, k1)].number
                                == Some(d);
                        assert(0 <= k1 < k + 1);
                    }
                }
            }
        } else {
            proof {
                assert forall|d: u8|
                    is_digit(d) implies (values[d - 1] <==> exists|k1: int|
                        0 <= k1 < k + 1 && #[trigger] g[spec_unit_cell(kind, u as int, k1)].number
                            == Some(d)) by {
                    if values[d - 1] {
                        let k1 = choose|k1: int|
                            0 <= k1 < k && #[trigger] g[spec_unit_cell(kind, u as int, k1)].number
                                == Some(d);
                        assert(0 <= k1 < k + 1);
                    }
                }
            }
        }
        k += 1;
    }
    true
}

/// Whether every group of the given kind holds each committed digit at most once.
fn are_units_valid(cells: &[CellState; 81], kind: UnitKind) -> (r: bool)
    requires
        grid_wf(cells@),
    ensures
        r == forall|u: int| 0 <= u < 9 ==> #[trigger] unit_valid(cells@, kind, u),
{
    let mut u: usize = 0;
    while u < 9
        invariant
            grid_wf(cells@),
            u <= 9,
            forall|u1: int| 0 <= u1 < u ==> #[trigger] unit_valid(cells@, kind, u1),
        decreases 9 - u,
    {
        if !is_range_valid(cells, kind, u) {
            return false;
        }
        u += 1;
    }
    true
}

/// Whether no row, column or box of the grid holds a committed digit twice.
pub fn is_valid(cells: &[CellState; 81]) -> (r: bool)
    requires
        grid_wf(cells@),
    ensures
        r == grid_valid(cells@),
{
    proof {
        lemma_units_valid(cells@);
    }
    if !are_units_valid(cells, UnitKind::Box) {
        return false;
    }
    if !are_units_valid(cells, UnitKind::Row) {
        return false;
    }
    are_units_valid(cells, UnitKind::Column)
}

} // verus!
