//! Facts about the update rule, clearing and stencil loading, proved over
//! the grid model of `game`.

use vstd::prelude::*;
use crate::game::{
    CellState, GridView, cleared, is_alive, loaded, neighbor_count, rule, step, stencil_cell,
};
use crate::game_state::{first_misfit, fits, grid_with};
use crate::save_load::{RleView, grid_of};

verus! {

/// The next state of `(x, y)`, computed from `g` alone.
pub open spec fn next_state(g: GridView, x: int, y: int) -> CellState {
    rule(g.at(x, y), neighbor_count(g, x, y))
}

/// Writes the next state of each position of `order` into `buf`, first to
/// last, always reading neighbours from the snapshot `g`.
pub open spec fn evaluate_in_order(g: GridView, buf: GridView, order: Seq<(int, int)>) -> GridView
    decreases order.len(),
{
    if order.len() == 0 {
        buf
    } else {
        let (x, y) = order.last();
        evaluate_in_order(g, buf, order.drop_last()).set(x, y, next_state(g, x, y))
    }
}

/// An order of evaluation that visits only positions of the grid, and each
/// of them at least once.
pub open spec fn covers(g: GridView, order: Seq<(int, int)>) -> bool {
    &&& forall|i: int| 0 <= i < order.len() ==> g.in_bounds(#[trigger] order[i].0, order[i].1)
    &&& forall|x: int, y: int| g.in_bounds(x, y) ==> #[trigger] order.contains((x, y))
}

/// Two grid models with the same contents advance to the same contents:
/// the next generation depends on the current cells and nothing else.
pub proof fn lemma_next_generation_deterministic(a: GridView, b: GridView)
    requires
        a == b,
    ensures
        step(a) == step(b),
{
}

proof fn lemma_evaluate_in_order_cells(g: GridView, order: Seq<(int, int)>)
    requires
        g.wf(),
        forall|i: int| 0 <= i < order.len() ==> g.in_bounds(#[trigger] order[i].0, order[i].1),
    ensures
        evaluate_in_order(g, g, order).wf(),
        evaluate_in_order(g, g, order).width == g.width,
        evaluate_in_order(g, g, order).height == g.height,
        forall|x: int, y: int|
            g.in_bounds(x, y) ==> #[trigger] evaluate_in_order(g, g, order).at(x, y) == if order.contains(
                (x, y),
            ) {
                next_state(g, x, y)
            } else {
                g.at(x, y)
            },
    decreases order.len(),
{
    if order.len() > 0 {
        let rest = order.drop_last();
        assert forall|i: int| 0 <= i < rest.len() implies g.in_bounds(
            #[trigger] rest[i].0,
            rest[i].1,
        ) by {
            assert(rest[i] == order[i]);
        }
        lemma_evaluate_in_order_cells(g, rest);
        let (lx, ly) = order.last();
        assert(order[order.len() - 1] == order.last());
        let prev = evaluate_in_order(g, g, rest);
        assert forall|x: int, y: int| g.in_bounds(x, y) implies #[trigger] evaluate_in_order(
            g,
            g,
            order,
        ).at(x, y) == if order.contains((x, y)) {
            next_state(g, x, y)
        } else {
            g.at(x, y)
        } by {
            if x == lx && y == ly {
                assert(order.contains((x, y)));
            } else {
                if order.contains((x, y)) {
                    let i = choose|i: int| 0 <= i < order.len() && order[i] == (x, y);
                    assert(rest[i] == order[i]);
                    assert(rest.contains((x, y)));
                }
                if rest.contains((x, y)) {
                    let i = choose|i: int| 0 <= i < rest.len() && rest[i] == (x, y);
                    assert(order[i] == rest[i]);
                }
                assert(evaluate_in_order(g, g, order).at(x, y) == prev.at(x, y));
            }
        }
    }
}

/// Evaluating the cells in any order that visits each of them, with every
/// neighbour read from the grid as it stood before, gives the next
/// generation: the result does not depend on the order of evaluation.
pub proof fn lemma_order_independent(g: GridView, order: Seq<(int, int)>)
    requires
        g.wf(),
        covers(g, order),
    ensures
        evaluate_in_order(g, g, order) == step(g),
{
    lemma_evaluate_in_order_cells(g, order);
    let r = evaluate_in_order(g, g, order);
    assert forall|y: int| 0 <= y < g.height implies #[trigger] r.cells[y] =~= step(g).cells[y] by {
        assert forall|x: int| 0 <= x < g.width implies r.cells[y][x] == step(g).cells[y][x] by {
            assert(r.at(x, y) == next_state(g, x, y));
        }
    }
    assert(r.cells =~= step(g).cells);
}

/// Two orders that each visit every cell give the same next generation.
pub proof fn lemma_any_two_orders_agree(g: GridView, first: Seq<(int, int)>, second: Seq<(int, int)>)
    requires
        g.wf(),
        covers(g, first),
        covers(g, second),
    ensures
        evaluate_in_order(g, g, first) == evaluate_in_order(g, g, second),
{
    lemma_order_independent(g, first);
    lemma_order_independent(g, second);
}

/// Whether the live cells of `g` are exactly those for which `shape` holds.
pub open spec fn alive_exactly(g: GridView, shape: spec_fn(int, int) -> bool) -> bool {
    &&& g.wf()
    &&& forall|x: int, y: int| g.in_bounds(x, y) ==> (#[trigger] g.at(x, y) == CellState::Alive <==> shape(x, y))
}

/// The 2 by 2 block with its top left at `(bx, by)`.
pub open spec fn block_at(bx: int, by: int) -> spec_fn(int, int) -> bool {
    |x: int, y: int| bx <= x <= bx + 1 && by <= y <= by + 1
}

/// The horizontal line of three centred on `(cx, cy)`.
pub open spec fn horizontal_line(cx: int, cy: int) -> spec_fn(int, int) -> bool {
    |x: int, y: int| y == cy && cx - 1 <= x <= cx + 1
}

/// The vertical line of three centred on `(cx, cy)`.
pub open spec fn vertical_line(cx: int, cy: int) -> spec_fn(int, int) -> bool {
    |x: int, y: int| x == cx && cy - 1 <= y <= cy + 1
}

/// Two well-formed grid models of one size whose live cells agree are equal.
proof fn lemma_same_live_cells(a: GridView, b: GridView)
    requires
        a.wf(),
        b.wf(),
        a.width == b.width,
        a.height == b.height,
        forall|x: int, y: int|
            a.in_bounds(x, y) ==> (#[trigger] a.at(x, y) == CellState::Alive <==> b.at(x, y)
                == CellState::Alive),
    ensures
        a == b,
{
    assert forall|y: int| 0 <= y < a.height implies #[trigger] a.cells[y] =~= b.cells[y] by {
        assert forall|x: int| 0 <= x < a.width implies a.cells[y][x] == b.cells[y][x] by {
            assert(a.at(x, y) == CellState::Alive <==> b.at(x, y) == CellState::Alive);
        }
    }
    assert(a.cells =~= b.cells);
}

/// A model whose live cells are exactly `shape`: whether each position is
/// alive, in terms of `shape`.
proof fn lemma_alive_is_shape(g: GridView, shape: spec_fn(int, int) -> bool)
    requires
        alive_exactly(g, shape),
    ensures
        forall|x: int, y: int| #[trigger] is_alive(g, x, y) <==> g.in_bounds(x, y) && shape(x, y),
{
}

/// An isolated 2 by 2 block, the only live cells of the grid, is a still
/// life: the next generation equals the grid.
pub proof fn lemma_block_is_still(g: GridView, bx: int, by: int)
    requires
        0 <= bx,
        bx + 1 < g.width,
        0 <= by,
        by + 1 < g.height,
        alive_exactly(g, block_at(bx, by)),
    ensures
        step(g) == g,
{
    lemma_alive_is_shape(g, block_at(bx, by));
    assert forall|x: int, y: int| g.in_bounds(x, y) implies (#[trigger] step(g).at(x, y)
        == CellState::Alive <==> g.at(x, y) == CellState::Alive) by {
        assert(step(g).at(x, y) == rule(g.at(x, y), neighbor_count(g, x, y)));
    }
    lemma_same_live_cells(step(g), g);
}

/// A horizontal line of three, the only live cells of the grid and at least
/// one cell clear of every edge, turns into the vertical line of three
/// through its centre.
pub proof fn lemma_blinker_turns_vertical(g: GridView, cx: int, cy: int)
    requires
        1 <= cx,
        cx + 1 < g.width,
        1 <= cy,
        cy + 1 < g.height,
        alive_exactly(g, horizontal_line(cx, cy)),
    ensures
        alive_exactly(step(g), vertical_line(cx, cy)),
{
    lemma_alive_is_shape(g, horizontal_line(cx, cy));
    assert forall|x: int, y: int| step(g).in_bounds(x, y) implies (#[trigger] step(g).at(x, y)
        == CellState::Alive <==> vertical_line(cx, cy)(x, y)) by {
        assert(step(g).at(x, y) == rule(g.at(x, y), neighbor_count(g, x, y)));
    }
}

/// A vertical line of three, the only live cells of the grid and at least
/// one cell clear of every edge, turns into the horizontal line of three
/// through its centre.
pub proof fn lemma_blinker_turns_horizontal(g: GridView, cx: int, cy: int)
    requires
        1 <= cx,
        cx + 1 < g.width,
        1 <= cy,
        cy + 1 < g.height,
        alive_exactly(g, vertical_line(cx, cy)),
    ensures
        alive_exactly(step(g), horizontal_line(cx, cy)),
{
    lemma_alive_is_shape(g, vertical_line(cx, cy));
    assert forall|x: int, y: int| step(g).in_bounds(x, y) implies (#[trigger] step(g).at(x, y)
        == CellState::Alive <==> horizontal_line(cx, cy)(x, y)) by {
        assert(step(g).at(x, y) == rule(g.at(x, y), neighbor_count(g, x, y)));
    }
}

/// The blinker has period two: after two generations the horizontal line is
/// back where it started.
pub proof fn lemma_blinker_period_two(g: GridView, cx: int, cy: int)
    requires
        1 <= cx,
        cx + 1 < g.width,
        1 <= cy,
        cy + 1 < g.height,
        alive_exactly(g, horizontal_line(cx, cy)),
    ensures
        step(step(g)) == g,
{
    lemma_blinker_turns_vertical(g, cx, cy);
    lemma_blinker_turns_horizontal(step(g), cx, cy);
    lemma_same_live_cells(step(step(g)), g);
}

/// The corner `(0, 0)` has at most three neighbours on the grid, so at most
/// three of them can be alive.
pub proof fn lemma_corner_neighbors(g: GridView)
    ensures
        neighbor_count(g, 0, 0) <= 3,
{
}

/// A live cell alone in the corner `(0, 0)` counts as a neighbour of three
/// cells only: `(1, 0)`, `(0, 1)` and `(1, 1)`.
pub proof fn lemma_corner_cell_reach(g: GridView, x: int, y: int)
    requires
        alive_exactly(g, |i: int, j: int| i == 0 && j == 0),
        g.in_bounds(x, y),
    ensures
        neighbor_count(g, x, y) > 0 <==> (x, y) == (1int, 0int) || (x, y) == (0int, 1int) || (x, y)
            == (1int, 1int),
{
    lemma_alive_is_shape(g, |i: int, j: int| i == 0 && j == 0);
}

/// Clearing twice leaves the grid as clearing once does: all cells dead,
/// the size unchanged.
pub proof fn lemma_clear_idempotent(g: GridView)
    ensures
        cleared(cleared(g)) == cleared(g),
{
}

/// Loading a stencil kills every cell that the stencil does not mark alive,
/// whatever the grid held before; in particular what the grid held has no
/// effect on the result.
pub proof fn lemma_load_overwrites(
    a: GridView,
    b: GridView,
    pattern: Seq<Seq<char>>,
    ox: int,
    oy: int,
    x: int,
    y: int,
)
    requires
        a.width == b.width,
        a.height == b.height,
        a.in_bounds(x, y),
        stencil_cell(pattern, x - ox, y - oy) == CellState::Dead,
    ensures
        loaded(a, pattern, ox, oy).at(x, y) == CellState::Dead,
        loaded(a, pattern, ox, oy) == loaded(b, pattern, ox, oy),
{
    assert(loaded(a, pattern, ox, oy).cells =~~= loaded(b, pattern, ox, oy).cells);
}

/// A pattern that records exactly the live cells of a grid, as
/// `RlePattern::from_grid` produces, describes that same grid again.
pub proof fn lemma_pattern_round_trip(g: GridView, p: RleView)
    requires
        g.wf(),
        p.width == g.width,
        p.height == g.height,
        p.has_shape(),
        forall|x: int, y: int| g.in_bounds(x, y) ==> #[trigger] p.data[y][x] == (g.at(x, y) == CellState::Alive),
    ensures
        grid_of(p) == g,
{
    assert forall|y: int| 0 <= y < g.height implies #[trigger] grid_of(p).cells[y] =~= g.cells[y] by {
        assert forall|x: int| 0 <= x < g.width implies grid_of(p).cells[y][x] == g.cells[y][x] by {
            assert(p.data[y][x] == (g.at(x, y) == CellState::Alive));
        }
    }
    assert(grid_of(p).cells =~= g.cells);
}

/// The list of a grid's live cells, as `alive_cells` produces, fits the
/// grid and restores exactly that grid.
pub proof fn lemma_saved_cells_round_trip(g: GridView, cells: Seq<(usize, usize)>)
    requires
        g.wf(),
        g.width <= usize::MAX,
        g.height <= usize::MAX,
        forall|x: usize, y: usize|
            #[trigger] cells.contains((x, y)) <==> g.in_bounds(x as int, y as int) && g.at(
                x as int,
                y as int,
            ) == CellState::Alive,
    ensures
        first_misfit(cells, g.width, g.height) is None,
        grid_with(g.width, g.height, cells) == g,
{
    assert forall|i: int| 0 <= i < cells.len() implies fits(#[trigger] cells[i], g.width, g.height) by {
        assert(cells.contains(cells[i]));
        assert(cells.contains((cells[i].0, cells[i].1)));
    }
    let r = grid_with(g.width, g.height, cells);
    assert forall|y: int| 0 <= y < g.height implies #[trigger] r.cells[y] =~= g.cells[y] by {
        assert forall|x: int| 0 <= x < g.width implies r.cells[y][x] == g.cells[y][x] by {
            assert(cells.contains((x as usize, y as usize)) <==> g.at(x, y) == CellState::Alive);
        }
    }
    assert(r.cells =~= g.cells);
}

} // verus!
