//! The grid part of a saved game: the list of live cells that a save holds,
//! and the checks and conversion that restore a grid from it.

use vstd::prelude::*;
use crate::game::{CellState, Grid, GridView};

verus! {

/// Why a saved grid cannot be restored.
#[derive(Debug, Clone, Copy, PartialEq, Eq, Structural)]
pub enum StateError {
    /// The width or the height is zero.
    ZeroDimensions,
    /// A live cell lies off the grid; the first such cell.
    CellOutOfBounds(usize, usize),
}

/// Whether `(x1, y1)` comes before `(x2, y2)` row by row.
pub open spec fn row_major_before(a: (usize, usize), b: (usize, usize)) -> bool {
    a.1 < b.1 || (a.1 == b.1 && a.0 < b.0)
}

/// Whether `(x, y)` lies in a `width` by `height` grid.
pub open spec fn fits(c: (usize, usize), width: nat, height: nat) -> bool {
    c.0 < width && c.1 < height
}

/// The index of the first cell of `cells` that does not fit, if any.
pub open spec fn first_misfit(cells: Seq<(usize, usize)>, width: nat, height: nat) -> Option<int> {
    if exists|i: int| 0 <= i < cells.len() && !fits(#[trigger] cells[i], width, height) {
        Some(
            choose|i: int|
                0 <= i < cells.len() && !fits(#[trigger] cells[i], width, height) && forall|j: int|
                    0 <= j < i ==> fits(#[trigger] cells[j], width, height),
        )
    } else {
        None
    }
}

/// The grid whose live cells are exactly those listed.
pub open spec fn grid_with(width: nat, height: nat, cells: Seq<(usize, usize)>) -> GridView {
    GridView {
        width,
        height,
        cells: Seq::new(
            height,
            |y: int|
                Seq::new(
                    width,
                    |x: int|
                        if cells.contains((x as usize, y as usize)) {
                            CellState::Alive
                        } else {
                            CellState::Dead
                        },
                ),
        ),
    }
}

/// The live cells of a grid as `(x, y)` pairs, row by row.
pub fn alive_cells(grid: &Grid) -> (r: Vec<(usize, usize)>)
    requires
        grid@.wf(),
    ensures
        forall|x: usize, y: usize|
            r@.contains((x, y)) <==> grid@.in_bounds(x as int, y as int) && grid@.at(x as int, y as int)
                == CellState::Alive,
        forall|i: int, j: int| 0 <= i < j < r@.len() ==> row_major_before(#[trigger] r@[i], #[trigger] r@[j]),
{
    let mut out: Vec<(usize, usize)> = Vec::new();
    let mut y: usize = 0;
    while y < grid.height()
        invariant
            grid@.wf(),
            y <= grid@.height,
            forall|x: usize, yy: usize|
                out@.contains((x, yy)) <==> yy < y && grid@.in_bounds(x as int, yy as int) && grid@.at(
                    x as int,
                    yy as int,
                ) == CellState::Alive,
            forall|i: int| 0 <= i < out@.len() ==> (#[trigger] out@[i]).1 < y,
            forall|i: int, j: int| 0 <= i < j < out@.len() ==> row_major_before(#[trigger] out@[i], #[trigger] out@[j]),
        decreases grid@.height - y,
    {
        let mut x: usize = 0;
        while x < grid.width()
            invariant
                grid@.wf(),
                y < grid@.height,
                x <= grid@.width,
                forall|cx: usize, yy: usize|
                    out@.contains((cx, yy)) <==> (yy < y || (yy == y && cx < x)) && grid@.in_bounds(
                        cx as int,
                        yy as int,
                    ) && grid@.at(cx as int, yy as int) == CellState::Alive,
                forall|i: int| 0 <= i < out@.len() ==> row_major_before(#[trigger] out@[i], (x, y)),
                forall|i: int, j: int| 0 <= i < j < out@.len() ==> row_major_before(#[trigger] out@[i], #[trigger] out@[j]),
            decreases grid@.width - x,
        {
            if *grid.get_cell(x, y) == CellState::Alive {
                let ghost before = out@;
                out.push((x, y));
                assert forall|cx: usize, yy: usize|
                    out@.contains((cx, yy)) <==> before.contains((cx, yy)) || (cx, yy) == (x, y) by {
                    if out@.contains((cx, yy)) {
                        let i = choose|i: int| 0 <= i < out@.len() && out@[i] == (cx, yy);
                        if i < before.len() {
                            assert(before[i] == out@[i]);
                        }
                    }
                    if before.contains((cx, yy)) {
                        let i = choose|i: int| 0 <= i < before.len() && before[i] == (cx, yy);
                        assert(out@[i] == before[i]);
                    }
                    if (cx, yy) == (x, y) {
                        assert(out@[out@.len() - 1] == (x, y));
                    }
                }
            }
            x += 1;
        }
        y += 1;
    }
    out
}

/// Refuses a grid with no cells.
pub fn check_dimensions(width: usize, height: usize) -> (r: Result<(), StateError>)
    ensures
        r == if width == 0 || height == 0 {
            Err::<(), StateError>(StateError::ZeroDimensions)
        } else {
            Ok(())
        },
{
    if width == 0 || height == 0 {
        Err(StateError::ZeroDimensions)
    } else {
        Ok(())
    }
}

/// Refuses a list of live cells that names a cell off a `width` by
/// `height` grid, naming the first such cell.
pub fn check_cells(width: usize, height: usize, cells: &Vec<(usize, usize)>) -> (r: Result<
    (),
    StateError,
>)
    ensures
        r == match first_misfit(cells@, width as nat, height as nat) {
            Some(i) => Err::<(), StateError>(StateError::CellOutOfBounds(cells@[i].0, cells@[i].1)),
            None => Ok(()),
        },
{
    let mut i: usize = 0;
    while i < cells.len()
        invariant
            i <= cells@.len(),
            forall|j: int| 0 <= j < i ==> fits(#[trigger] cells@[j], width as nat, height as nat),
        decreases cells@.len() - i,
    {
        let (x, y) = cells[i];
        if x >= width || y >= height {
            proof {
                assert(!fits(cells@[i as int], width as nat, height as nat));
                let k = first_misfit(cells@, width as nat, height as nat)->0;
                assert(0 <= k < cells@.len() && !fits(cells@[k], width as nat, height as nat)
                    && forall|j: int| 0 <= j < k ==> fits(#[trigger] cells@[j], width as nat, height as nat));
                if k < i {
                    assert(fits(cells@[k], width as nat, height as nat));
                }
                if k > i {
                    assert(fits(cells@[i as int], width as nat, height as nat));
                }
            }
            return Err(StateError::CellOutOfBounds(x, y));
        }
        i += 1;
    }
    Ok(())
}

/// The grid of the given size whose live cells are those listed; refused
/// for a zero size or a cell off the grid.
pub fn grid_from_cells(width: usize, height: usize, cells: &Vec<(usize, usize)>) -> (r: Result<
    Grid,
    StateError,
>)
    ensures
        width == 0 || height == 0 ==> r == Err::<Grid, StateError>(StateError::ZeroDimensions),
        width > 0 && height > 0 ==> match first_misfit(cells@, width as nat, height as nat) {
            Some(i) => r == Err::<Grid, StateError>(StateError::CellOutOfBounds(cells@[i].0, cells@[i].1)),
            None => r matches Ok(g) && g@ == grid_with(width as nat, height as nat, cells@) && g@.wf(),
        },
{
    match check_dimensions(width, height) {
        Err(e) => {
            return Err(e);
        },
        Ok(()) => {},
    }
    match check_cells(width, height, cells) {
        Err(e) => {
            return Err(e);
        },
        Ok(()) => {},
    }
    let mut grid = Grid::new(width, height);
    let ghost want = grid_with(width as nat, height as nat, cells@);
    let mut i: usize = 0;
    while i < cells.len()
        invariant
            first_misfit(cells@, width as nat, height as nat) is None,
            want == grid_with(width as nat, height as nat, cells@),
            i <= cells@.len(),
            grid@.wf(),
            grid@.width == width,
            grid@.height == height,
            forall|x: int, y: int|
                #![trigger grid@.at(x, y)]
                grid@.in_bounds(x, y) ==> (grid@.at(x, y) == CellState::Alive <==> cells@.take(
                    i as int,
                ).contains((x as usize, y as usize))),
        decreases cells@.len() - i,
    {
        let (x, y) = cells[i];
        let ghost prev = grid@;
        grid.set_cell(x, y, CellState::Alive);
        proof {
            if !fits(cells@[i as int], width as nat, height as nat) {
                assert(exists|j: int| 0 <= j < cells@.len() && !fits(#[trigger] cells@[j], width as nat, height as nat));
            }
            assert forall|cx: int, cy: int| #[trigger]
                grid@.in_bounds(cx, cy) implies (grid@.at(cx, cy) == CellState::Alive <==> cells@.take(
                i + 1,
            ).contains((cx as usize, cy as usize))) by {
                let c = (cx as usize, cy as usize);
                if cells@.take(i + 1).contains(c) {
                    let j = choose|j: int| 0 <= j < i + 1 && #[trigger] cells@.take(i + 1)[j] == c;
                    if j < i {
                        assert(cells@.take(i as int)[j] == c);
                    }
                }
                if cells@.take(i as int).contains(c) {
                    let j = choose|j: int| 0 <= j < i && #[trigger] cells@.take(i as int)[j] == c;
                    assert(cells@.take(i + 1)[j] == c);
                }
                if cx == x && cy == y {
                    assert(cells@.take(i + 1)[i as int] == c);
                } else {
                    assert(grid@.at(cx, cy) == prev.at(cx, cy));
                }
            }
        }
        i += 1;
    }
    assert(cells@.take(i as int) =~= cells@);
    assert(grid@.cells =~~= want.cells) by {
        assert forall|y: int| 0 <= y < height implies #[trigger] grid@.cells[y] =~= want.cells[y] by {
            assert forall|x: int| 0 <= x < width implies grid@.cells[y][x] == want.cells[y][x] by {
                assert(grid@.at(x, y) == CellState::Alive <==> cells@.contains((x as usize, y as usize)));
            }
        }
    }
    Ok(grid)
}

} // verus!
