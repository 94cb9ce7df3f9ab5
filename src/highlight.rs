use vstd::prelude::*;

use crate::cell_state::{is_digit, CellSelection, CellState};
use crate::index::{
    lemma_cell_in_unit, lemma_unit_cell, position_in_unit, same_unit, unit_cell, unit_index,
    unit_of, UnitKind,
};

verus! {

/// Cell `i` is not the selected cell `s` and holds the focused digit `n`.
pub open spec fn emphasized(g: Seq<CellState>, s: int, n: Option<u8>, i: int) -> bool {
    i != s && n is Some && g[i].number == n
}

/// Cell `i` shares a row, column or box with the selected cell or with an emphasized cell.
pub open spec fn near_focus(g: Seq<CellState>, s: int, n: Option<u8>, i: int) -> bool {
    ||| same_unit(s, i)
    ||| exists|j: int| 0 <= j < 81 && #[trigger] emphasized(g, s, n, j) && same_unit(j, i)
}

/// The marking of cell `i` for selected cell `sel` and focused digit `n`: the selected
/// cell is `Selected`; the other cells holding `n` are `Emphasized`; while a digit is
/// focused, the other cells holding a digit are `Highlighted`; so are the peers of the
/// selected and emphasized cells; all else is `Unmarked`.
pub open spec fn marking(g: Seq<CellState>, sel: Option<usize>, n: Option<u8>, i: int) -> CellSelection {
    match sel {
        None => CellSelection::Unmarked,
        Some(s) => if i == s {
            CellSelection::Selected
        } else if emphasized(g, s as int, n, i) {
            CellSelection::Emphasized
        } else if n is Some && g[i].number is Some {
            CellSelection::Highlighted
        } else if near_focus(g, s as int, n, i) {
            CellSelection::Highlighted
        } else {
            CellSelection::Unmarked
        },
    }
}

/// `cells` holds the digits and pencil marks of `g`, each cell marked as `marking` says.
pub open spec fn shows(cells: Seq<CellState>, g: Seq<CellState>, sel: Option<usize>, n: Option<u8>) -> bool {
    &&& cells.len() == 81
    &&& forall|i: int|
        #![trigger cells[i]]
        0 <= i < 81 ==> {
            &&& cells[i].number == g[i].number
            &&& cells[i].pencil == g[i].pencil
            &&& cells[i].selection == marking(g, sel, n, i)
        }
}

/// A marking after a group is highlighted: unmarked cells of the group become
/// `Highlighted`, stronger markings stay.
pub open spec fn spread(m: CellSelection, hit: bool) -> CellSelection {
    if hit && m == CellSelection::Unmarked {
        CellSelection::Highlighted
    } else {
        m
    }
}

/// `after` is `before` with its pencil mark for `d` removed when it holds no digit and is
/// `Highlighted`, and unchanged otherwise.
pub open spec fn pencil_cleared(before: CellState, after: CellState, d: u8) -> bool {
    &&& after.number == before.number
    &&& after.selection == before.selection
    &&& if before.number is None && before.selection == CellSelection::Highlighted {
        &&& !after.has_pencil(d)
        &&& forall|e: u8| e != d ==> after.has_pencil(e) == before.has_pencil(e)
    } else {
        after.pencil == before.pencil
    }
}

fn set_selection(cells: &mut [CellState; 81], i: usize, m: CellSelection)
    requires
        i < 81,
    ensures
        final(cells)@ == old(cells)@.update(i as int, CellState { selection: m, ..old(cells)@[i as int] }),
{
    let mut cell = cells[i];
    cell.selection = m;
    cells[i] = cell;
}

/// Resets the marking of every cell to `Unmarked`.
pub fn clear_selection(cells: &mut [CellState; 81])
    ensures
        forall|i: int|
            #![trigger final(cells)@[i]]
            0 <= i < 81 ==> {
                &&& final(cells)@[i].number == old(cells)@[i].number
                &&& final(cells)@[i].pencil == old(cells)@[i].pencil
                &&& final(cells)@[i].selection == CellSelection::Unmarked
            },
{
    let mut i: usize = 0;
    while i < 81
        invariant
            i <= 81,
            forall|j: int|
                #![trigger cells@[j]]
                0 <= j < 81 ==> {
                    &&& cells@[j].number == old(cells)@[j].number
                    &&& cells@[j].pencil == old(cells)@[j].pencil
                    &&& j < i ==> cells@[j].selection == CellSelection::Unmarked
                },
        decreases 81 - i,
    {
        set_selection(cells, i, CellSelection::Unmarked);
        i += 1;
    }
}

/// Highlights the unmarked cells of the group of the given kind that holds `index`.
pub fn highlight_areas(cells: &mut [CellState; 81], kind: UnitKind, index: usize)
    requires
        index < 81,
    ensures
        forall|i: int|
            #![trigger final(cells)@[i]]
            0 <= i < 81 ==> {
                &&& final(cells)@[i].number == old(cells)@[i].number
                &&& final(cells)@[i].pencil == old(cells)@[i].pencil
                &&& final(cells)@[i].selection == spread(
                    old(cells)@[i].selection,
                    unit_of(kind, i) == unit_of(kind, index as int),
                )
            },
{
    let u = unit_index(kind, index);
    let mut k: usize = 0;
    while k < 9
        invariant
            k <= 9,
            u == unit_of(kind, index as int),
            u < 9,
            forall|i: int|
                #![trigger cells@[i]]
                0 <= i < 81 ==> {
                    &&& cells@[i].number == old(cells)@[i].number
                    &&& cells@[i].pencil == old(cells)@[i].pencil
                    &&& cells@[i].selection == spread(
                        old(cells)@[i].selection,
                        unit_of(kind, i) == u && position_in_unit(kind, i) < k,
                    )
                },
        decreases 9 - k,
    {
        let c = unit_cell(kind, u, k);
        proof {
            lemma_unit_cell(kind, u as int, k as int);
            assert forall|i: int| 0 <= i < 81 && i != c implies !(unit_of(kind, i) == u
                && position_in_unit(kind, i) == k) by {
                lemma_cell_in_unit(kind, i);
            }
        }
        if cells[c].selection == CellSelection::Unmarked {
            set_selection(cells, c, CellSelection::Highlighted);
        }
        k += 1;
    }
    proof {
        assert forall|i: int| 0 <= i < 81 implies position_in_unit(kind, i) < 9 by {
            lemma_cell_in_unit(kind, i);
        }
    }
}

/// Marking of a cell before the peers of the focused cells are highlighted.
spec fn base_marking(g: Seq<CellState>, s: int, n: Option<u8>, i: int) -> CellSelection {
    if i == s {
        CellSelection::Selected
    } else if emphasized(g, s, n, i) {
        CellSelection::Emphasized
    } else if n is Some && g[i].number is Some {
        CellSelection::Highlighted
    } else {
        CellSelection::Unmarked
    }
}

/// Some of the first `t` focused cells shares a group with cell `i`.
spec fn covered(list: Seq<usize>, t: int, i: int) -> bool {
    exists|u: int| 0 <= u < t && #[trigger] same_unit(list[u] as int, i)
}

/// Recomputes every cell's marking from the selected cell and the focused digit.
pub fn highlight(cells: &mut [CellState; 81], sel: Option<usize>, n: Option<u8>)
    requires
        sel matches Some(s) ==> s < 81,
    ensures
        shows(final(cells)@, old(cells)@, sel, n),
{
    let ghost g = cells@;
    clear_selection(cells);
    let s = match sel {
        None => {
            return;
        },
        Some(s) => s,
    };
    set_selection(cells, s, CellSelection::Selected);
    let mut list: Vec<usize> = Vec::new();
    list.push(s);
    if let Some(num) = n {
        let mut i: usize = 0;
        while i < 81
            invariant
                s < 81,
                i <= 81,
                g.len() == 81,
                n == Some(num),
                forall|j: int|
                    #![trigger cells@[j]]
                    0 <= j < 81 ==> {
                        &&& cells@[j].number == g[j].number
                        &&& cells@[j].pencil == g[j].pencil
                        &&& cells@[j].selection == if j < i || j == s {
                            base_marking(g, s as int, n, j)
                        } else {
                            CellSelection::Unmarked
                        }
                    },
                list@.len() >= 1,
                list@[0] == s,
                forall|t: int|
                    0 <= t < list@.len() ==> #[trigger] list@[t] < 81 && (list@[t] == s
                        || emphasized(g, s as int, n, list@[t] as int)),
                forall|j: int|
                    0 <= j < i && #[trigger] emphasized(g, s as int, n, j) ==> list@.contains(
                        j as usize,
                    ),
            decreases 81 - i,
        {
            if i != s && cells[i].is_number(num) {
                set_selection(cells, i, CellSelection::Emphasized);
                let ghost prev = list@;
                list.push(i);
                proof {
                    assert(list@[list@.len() - 1] == i);
                    assert forall|j: int|
                        0 <= j < i && #[trigger] emphasized(g, s as int, n, j) implies list@.contains(
                        j as usize,
                    ) by {
                        let u = choose|u: int| 0 <= u < prev.len() && prev[u] == j as usize;
                        assert(list@[u] == j as usize);
                    }
                }
            } else if i != s && cells[i].has_number() {
                set_selection(cells, i, CellSelection::Highlighted);
            }
            i += 1;
        }
    }
    let ghost focused = list@;
    assert forall|j: int| 0 <= j < 81 implies #[trigger] cells@[j].selection == base_marking(
        g,
        s as int,
        n,
        j,
    ) by {}
    assert forall|j: int|
        0 <= j < 81 && (j == s || #[trigger] emphasized(g, s as int, n, j)) implies list@.contains(
        j as usize,
    ) by {
        if j == s {
            assert(list@[0] == s);
        }
    }
    let mut t: usize = 0;
    while t < list.len()
        invariant
            s < 81,
            g.len() == 81,
            list@ == focused,
            t <= list@.len(),
            forall|u: int| 0 <= u < list@.len() ==> #[trigger] list@[u] < 81,
            forall|i: int|
                #![trigger cells@[i]]
                0 <= i < 81 ==> {
                    &&& cells@[i].number == g[i].number
                    &&& cells@[i].pencil == g[i].pencil
                    &&& cells@[i].selection == spread(
                        base_marking(g, s as int, n, i),
                        covered(list@, t as int, i),
                    )
                },
        decreases list@.len() - t,
    {
        let index = list[t];
        let ghost c0 = cells@;
        highlight_areas(cells, UnitKind::Box, index);
        let ghost c1 = cells@;
        highlight_areas(cells, UnitKind::Row, index);
        let ghost c2 = cells@;
        highlight_areas(cells, UnitKind::Column, index);
        proof {
            assert forall|i: int| 0 <= i < 81 implies #[trigger] cells@[i].selection == spread(
                c0[i].selection,
                same_unit(index as int, i),
            ) by {
                assert(c1[i].selection == spread(c0[i].selection, unit_of(UnitKind::Box, i) == unit_of(UnitKind::Box, index as int)));
                assert(c2[i].selection == spread(c1[i].selection, unit_of(UnitKind::Row, i) == unit_of(UnitKind::Row, index as int)));
            }
            assert forall|i: int| 0 <= i < 81 implies covered(list@, t + 1, i) == (covered(
                list@,
                t as int,
                i,
            ) || same_unit(index as int, i)) by {
                if covered(list@, t + 1, i) && !same_unit(index as int, i) {
                    let u = choose|u: int| 0 <= u < t + 1 && #[trigger] same_unit(list@[u] as int, i);
                    assert(u < t);
                }
                if same_unit(index as int, i) {
                    assert(same_unit(list@[t as int] as int, i));
                }
            }
        }
        t += 1;
    }
    proof {
        assert forall|i: int| 0 <= i < 81 implies #[trigger] cells@[i].selection == marking(
            g,
            sel,
            n,
            i,
        ) by {
            if base_marking(g, s as int, n, i) == CellSelection::Unmarked {
                if covered(list@, list@.len() as int, i) {
                    let u = choose|u: int|
                        0 <= u < list@.len() && #[trigger] same_unit(list@[u] as int, i);
                    if list@[u] != s {
                        assert(emphasized(g, s as int, n, list@[u] as int));
                    }
                }
                if near_focus(g, s as int, n, i) {
                    if same_unit(s as int, i) {
                        assert(same_unit(list@[0] as int, i));
                    } else {
                        let j = choose|j: int|
                            0 <= j < 81 && #[trigger] emphasized(g, s as int, n, j) && same_unit(j, i);
                        assert(list@.contains(j as usize));
                        let u = choose|u: int| 0 <= u < list@.len() && list@[u] == j as usize;
                        assert(same_unit(list@[u] as int, i));
                    }
                }
            }
        }
    }
}

/// Removes the pencil mark for `d` from every highlighted cell that holds no digit.
pub fn clear_pencil(cells: &mut [CellState; 81], d: u8)
    requires
        is_digit(d),
    ensures
        forall|i: int|
            0 <= i < 81 ==> #[trigger] pencil_cleared(old(cells)@[i], final(cells)@[i], d),
{
    let mut i: usize = 0;
    while i < 81
        invariant
            is_digit(d),
            i <= 81,
            forall|j: int|
                0 <= j < 81 ==> if j < i {
                    pencil_cleared(old(cells)@[j], #[trigger] cells@[j], d)
                } else {
                    cells@[j] == old(cells)@[j]
                },
        decreases 81 - i,
    {
        let mut cell = cells[i];
        if !(cell.has_number() || cell.selection == CellSelection::Selected || cell.selection
            == CellSelection::Emphasized) {
            if cell.selection == CellSelection::Highlighted {
                cell.remove_pencil(d);
                cells[i] = cell;
            }
        }
        i += 1;
    }
}


/// Marking precedence: the selected cell is `Selected`; the other cells holding the focused
/// digit are `Emphasized`; the remaining peers of those cells are `Highlighted`; a cell
/// that is none of these, and holds no digit while one is focused, is `Unmarked`.
pub proof fn lemma_highlight_precedence(
    cells: Seq<CellState>,
    g: Seq<CellState>,
    s: usize,
    n: Option<u8>,
)
    requires
        s < 81,
        shows(cells, g, Some(s), n),
    ensures
        cells[s as int].selection == CellSelection::Selected,
        forall|i: int|
            0 <= i < 81 && #[trigger] emphasized(g, s as int, n, i) ==> cells[i].selection
                == CellSelection::Emphasized,
        forall|i: int|
            0 <= i < 81 && i != s && !emphasized(g, s as int, n, i) && #[trigger] near_focus(
                g,
                s as int,
                n,
                i,
            ) ==> cells[i].selection == CellSelection::Highlighted,
        forall|i: int|
            0 <= i < 81 && i != s && !emphasized(g, s as int, n, i) && !near_focus(g, s as int, n, i)
                && !(n is Some && g[i].number is Some) ==> #[trigger] cells[i].selection
                == CellSelection::Unmarked,
{
    assert(cells[s as int].selection == marking(g, Some(s), n, s as int));
    assert forall|i: int| 0 <= i < 81 && #[trigger] emphasized(g, s as int, n, i) implies cells[i].selection
        == CellSelection::Emphasized by {
        assert(cells[i].selection == marking(g, Some(s), n, i));
    }
    assert forall|i: int|
        0 <= i < 81 && i != s && !emphasized(g, s as int, n, i) && #[trigger] near_focus(
            g,
            s as int,
            n,
            i,
        ) implies cells[i].selection == CellSelection::Highlighted by {
        assert(cells[i].selection == marking(g, Some(s), n, i));
    }
}

} // verus!
