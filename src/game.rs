//! The cell grid, its neighbour counting and the B3/S23 update rule.

use vstd::prelude::*;

verus! {

/// The state of one cell.
#[derive(Clone, Copy, PartialEq, Eq, Debug, Structural)]
pub enum CellState {
    Alive,
    Dead,
}

impl CellState {
    pub open spec fn spec_opposite(self) -> CellState {
        match self {
            CellState::Alive => CellState::Dead,
            CellState::Dead => CellState::Alive,
        }
    }

    /// Alive for Dead and Dead for Alive.
    #[verifier::when_used_as_spec(spec_opposite)]
    pub fn opposite(self) -> (r: CellState)
        ensures
            r == self.spec_opposite(),
    {
        match self {
            CellState::Alive => CellState::Dead,
            CellState::Dead => CellState::Alive,
        }
    }
}

/// The mathematical picture of a grid: its size and one row of states per
/// `y`, each holding one state per `x`.
pub struct GridView {
    pub width: nat,
    pub height: nat,
    pub cells: Seq<Seq<CellState>>,
}

impl GridView {
    /// `height` rows of `width` cells each.
    pub open spec fn wf(self) -> bool {
        &&& self.cells.len() == self.height
        &&& forall|y: int| 0 <= y < self.height ==> (#[trigger] self.cells[y]).len() == self.width
    }

    pub open spec fn in_bounds(self, x: int, y: int) -> bool {
        0 <= x < self.width && 0 <= y < self.height
    }

    /// The state at `(x, y)`.
    pub open spec fn at(self, x: int, y: int) -> CellState {
        self.cells[y][x]
    }

    /// The same grid with `(x, y)` holding `s`.
    pub open spec fn set(self, x: int, y: int, s: CellState) -> GridView {
        GridView { cells: self.cells.update(y, self.cells[y].update(x, s)), ..self }
    }
}

/// A `width` by `height` grid whose every cell is `s`.
pub open spec fn uniform(width: nat, height: nat, s: CellState) -> GridView {
    GridView { width, height, cells: Seq::new(height, |y: int| Seq::new(width, |x: int| s)) }
}

/// Whether `(x, y)` lies on the grid and holds a live cell.
pub open spec fn is_alive(g: GridView, x: int, y: int) -> bool {
    g.in_bounds(x, y) && g.at(x, y) == CellState::Alive
}

/// One for a live cell on the grid, zero otherwise.
pub open spec fn live(g: GridView, x: int, y: int) -> nat {
    if is_alive(g, x, y) {
        1
    } else {
        0
    }
}

/// The number of live cells among the eight positions around `(x, y)`;
/// positions off the grid count as dead.
pub open spec fn neighbor_count(g: GridView, x: int, y: int) -> nat {
    live(g, x - 1, y - 1) + live(g, x, y - 1) + live(g, x + 1, y - 1)
        + live(g, x - 1, y) + live(g, x + 1, y)
        + live(g, x - 1, y + 1) + live(g, x, y + 1) + live(g, x + 1, y + 1)
}

/// The B3/S23 rule: a live cell survives with two or three live neighbours,
/// a dead cell is born with exactly three, every other cell is dead.
pub open spec fn rule(s: CellState, n: nat) -> CellState {
    if (s == CellState::Alive && (n == 2 || n == 3)) || (s == CellState::Dead && n == 3) {
        CellState::Alive
    } else {
        CellState::Dead
    }
}

/// The next generation: every cell follows `rule`, with neighbours counted
/// in `g` itself.
pub open spec fn step(g: GridView) -> GridView {
    GridView {
        width: g.width,
        height: g.height,
        cells: Seq::new(
            g.height,
            |y: int| Seq::new(g.width, |x: int| rule(g.at(x, y), neighbor_count(g, x, y))),
        ),
    }
}

/// `g` with every cell dead.
pub open spec fn cleared(g: GridView) -> GridView {
    uniform(g.width, g.height, CellState::Dead)
}

/// Whether a stencil character marks a live cell.
pub open spec fn stencil_alive(c: char) -> bool {
    c == 'O' || c == '*' || c == '#'
}

/// The state that a stencil gives at `(dx, dy)` relative to its top left:
/// Alive where a live character stands there, Dead everywhere else.
pub open spec fn stencil_cell(pattern: Seq<Seq<char>>, dx: int, dy: int) -> CellState {
    if 0 <= dy < pattern.len() && 0 <= dx < pattern[dy].len() && stencil_alive(pattern[dy][dx]) {
        CellState::Alive
    } else {
        CellState::Dead
    }
}

/// `g` cleared, then the stencil placed with its top left at `(ox, oy)`;
/// the part of the stencil that falls off the grid is dropped.
pub open spec fn loaded(g: GridView, pattern: Seq<Seq<char>>, ox: int, oy: int) -> GridView {
    GridView {
        width: g.width,
        height: g.height,
        cells: Seq::new(
            g.height,
            |y: int| Seq::new(g.width, |x: int| stencil_cell(pattern, x - ox, y - oy)),
        ),
    }
}

/// The rows of a stencil as character sequences.
pub open spec fn stencil_rows(pattern: Seq<&str>) -> Seq<Seq<char>> {
    pattern.map_values(|line: &str| line@)
}

/// The number of live cells in a row.
pub open spec fn row_population(row: Seq<CellState>) -> nat
    decreases row.len(),
{
    if row.len() == 0 {
        0
    } else {
        row_population(row.drop_last()) + if row.last() == CellState::Alive {
            1nat
        } else {
            0nat
        }
    }
}

/// The number of live cells in a sequence of rows.
pub open spec fn rows_population(rows: Seq<Seq<CellState>>) -> nat
    decreases rows.len(),
{
    if rows.len() == 0 {
        0
    } else {
        rows_population(rows.drop_last()) + row_population(rows.last())
    }
}

/// The number of live cells on the grid.
pub open spec fn population(g: GridView) -> nat {
    rows_population(g.cells)
}

/// One step of the linear congruential generator behind `randomize_seeded`.
pub open spec fn lcg_next(s: u64) -> u64 {
    ((s as int * 1664525 + 1013904223) % 0x1_0000_0000_0000_0000) as u64
}

/// The generator's state after `n` steps from `seed`.
pub open spec fn lcg_state(seed: u64, n: nat) -> u64
    decreases n,
{
    if n == 0 {
        seed
    } else {
        lcg_next(lcg_state(seed, (n - 1) as nat))
    }
}

/// The `n`-th draw: the high 32 bits of the state after `n` steps, read as a
/// fraction of 2^32.
pub open spec fn draw(seed: u64, n: nat) -> nat {
    lcg_state(seed, n) as nat / 0x1_0000_0000
}

/// The state that the `n`-th draw gives a cell: Alive when it falls below
/// `alive_below` (a density in units of 2^-32).
pub open spec fn random_state(seed: u64, alive_below: u64, n: nat) -> CellState {
    if draw(seed, n) < alive_below {
        CellState::Alive
    } else {
        CellState::Dead
    }
}

/// The wrapping multiply and add that the generator performs give `lcg_next`.
proof fn lemma_lcg_wrapping(s: u64, m: u64, next: u64)
    requires
        m == (s as nat * 1664525) % 0x1_0000_0000_0000_0000,
        next == if m + 1013904223 > u64::MAX {
            (m + 1013904223 - 0x1_0000_0000_0000_0000) as u64
        } else {
            (m + 1013904223) as u64
        },
    ensures
        next == lcg_next(s),
{
    vstd::arithmetic::div_mod::lemma_add_mod_noop(
        s as int * 1664525,
        1013904223,
        0x1_0000_0000_0000_0000,
    );
    vstd::arithmetic::div_mod::lemma_small_mod(1013904223, 0x1_0000_0000_0000_0000);
}

/// A rectangular grid of cells, addressed by `(x, y)` with the origin at the
/// top left. There is no wraparound: positions off the grid count as dead.
pub struct Grid {
    width: usize,
    height: usize,
    cells: Vec<Vec<CellState>>,
}

impl View for Grid {
    type V = GridView;

    closed spec fn view(&self) -> GridView {
        GridView {
            width: self.width as nat,
            height: self.height as nat,
            cells: self.cells@.map_values(|row: Vec<CellState>| row@),
        }
    }
}

/// `height` rows of `width` dead cells.
fn dead_rows(width: usize, height: usize) -> (r: Vec<Vec<CellState>>)
    ensures
        r@.len() == height,
        forall|y: int| 0 <= y < height ==> #[trigger] r@[y]@ == Seq::new(width as nat, |x: int| CellState::Dead),
{
    let mut rows: Vec<Vec<CellState>> = Vec::new();
    let mut y: usize = 0;
    while y < height
        invariant
            y <= height,
            rows@.len() == y,
            forall|j: int| 0 <= j < y ==> #[trigger] rows@[j]@ == Seq::new(width as nat, |x: int| CellState::Dead),
        decreases height - y,
    {
        let row = vec![CellState::Dead; width];
        proof {
            assert(row@ =~= Seq::new(width as nat, |x: int| CellState::Dead));
        }
        rows.push(row);
        y += 1;
    }
    rows
}

impl Grid {
    /// A `width` by `height` grid of dead cells.
    pub fn new(width: usize, height: usize) -> (g: Grid)
        ensures
            g@ == uniform(width as nat, height as nat, CellState::Dead),
    {
        let cells = dead_rows(width, height);
        let g = Grid { width, height, cells };
        assert(g@.cells =~= uniform(width as nat, height as nat, CellState::Dead).cells);
        g
    }

    pub fn width(&self) -> (r: usize)
        ensures
            r == self@.width,
    {
        self.width
    }

    pub fn height(&self) -> (r: usize)
        ensures
            r == self@.height,
    {
        self.height
    }

    /// The state at `(x, y)`, which must lie on the grid.
    pub fn get_cell(&self, x: usize, y: usize) -> (r: &CellState)
        requires
            self@.wf(),
            x < self@.width,
            y < self@.height,
        ensures
            *r == self@.at(x as int, y as int),
    {
        assert(self@.cells[y as int] == self.cells@[y as int]@);
        &self.cells[y][x]
    }

    fn write(&mut self, x: usize, y: usize, state: CellState)
        requires
            old(self)@.wf(),
            old(self)@.in_bounds(x as int, y as int),
        ensures
            final(self)@.wf(),
            final(self)@ == old(self)@.set(x as int, y as int, state),
    {
        assert(self@.cells[y as int] == self.cells@[y as int]@);
        self.cells[y][x] = state;
        assert(self@.cells =~= old(self)@.set(x as int, y as int, state).cells);
    }

    /// The state at `(x, y)`, on the grid.
    fn cell(&self, x: usize, y: usize) -> (r: CellState)
        requires
            self@.wf(),
            self@.in_bounds(x as int, y as int),
        ensures
            r == self@.at(x as int, y as int),
    {
        assert(self@.cells[y as int] == self.cells@[y as int]@);
        self.cells[y][x]
    }

    /// One if `(x, y)` is on the grid and alive, zero otherwise.
    fn live_at(&self, x: usize, y: usize) -> (r: usize)
        requires
            self@.wf(),
        ensures
            r == live(self@, x as int, y as int),
    {
        if x < self.width && y < self.height {
            match self.cell(x, y) {
                CellState::Alive => 1,
                CellState::Dead => 0,
            }
        } else {
            0
        }
    }

    /// The number of live cells among the eight neighbours of `(x, y)`.
    pub fn count_neighbors(&self, x: usize, y: usize) -> (r: usize)
        requires
            self@.wf(),
        ensures
            r == neighbor_count(self@, x as int, y as int),
            r <= 8,
    {
        let mut count: usize = 0;
        if y > 0 {
            if x > 0 {
                count += self.live_at(x - 1, y - 1);
            }
            count += self.live_at(x, y - 1);
            if x < self.width {
                count += self.live_at(x + 1, y - 1);
            }
        }
        if x > 0 {
            count += self.live_at(x - 1, y);
        }
        if x < self.width {
            count += self.live_at(x + 1, y);
        }
        if y < self.height {
            if x > 0 {
                count += self.live_at(x - 1, y + 1);
            }
            count += self.live_at(x, y + 1);
            if x < self.width {
                count += self.live_at(x + 1, y + 1);
            }
        }
        count
    }

    /// Advances the grid by one generation under B3/S23. Every new state is
    /// computed from the grid as it stood before the call.
    pub fn next_generation(&mut self)
        requires
            old(self)@.wf(),
        ensures
            final(self)@.wf(),
            final(self)@ == step(old(self)@),
    {
        let ghost before = self@;
        let mut next: Vec<Vec<CellState>> = Vec::new();
        let mut y: usize = 0;
        while y < self.height
            invariant
                self@ == before,
                before.wf(),
                y <= before.height,
                next@.len() == y,
                forall|j: int| 0 <= j < y ==> #[trigger] next@[j]@ == step(before).cells[j],
            decreases self.height - y,
        {
            let mut row: Vec<CellState> = Vec::new();
            let mut x: usize = 0;
            while x < self.width
                invariant
                    self@ == before,
                    before.wf(),
                    y < before.height,
                    x <= before.width,
                    row@.len() == x,
                    forall|i: int|
                        0 <= i < x ==> #[trigger] row@[i] == rule(
                            before.at(i, y as int),
                            neighbor_count(before, i, y as int),
                        ),
                decreases self.width - x,
            {
                let n = self.count_neighbors(x, y);
                let s = match (self.cell(x, y), n) {
                    (CellState::Alive, 2) | (CellState::Alive, 3) => CellState::Alive,
                    (CellState::Dead, 3) => CellState::Alive,
                    _ => CellState::Dead,
                };
                row.push(s);
                x += 1;
            }
            assert(row@ =~= step(before).cells[y as int]);
            next.push(row);
            y += 1;
        }
        self.cells = next;
        assert(self@.cells =~= step(before).cells);
    }

    /// Sets every cell to Dead.
    pub fn clear(&mut self)
        requires
            old(self)@.wf(),
        ensures
            final(self)@.wf(),
            final(self)@ == cleared(old(self)@),
    {
        self.cells = dead_rows(self.width, self.height);
        assert(self@.cells =~= cleared(old(self)@).cells);
    }

    /// Clears the grid, then places the stencil with its top left at
    /// `(x_offset, y_offset)`: 'O', '*' and '#' give live cells, any other
    /// character a dead one, and what falls off the grid is dropped.
    pub fn load_pattern(&mut self, pattern: &[&str], x_offset: usize, y_offset: usize)
        requires
            old(self)@.wf(),
        ensures
            final(self)@.wf(),
            final(self)@ == loaded(
                old(self)@,
                stencil_rows(pattern@),
                x_offset as int,
                y_offset as int,
            ),
    {
        let ghost rows = stencil_rows(pattern@);
        let ghost ox = x_offset as int;
        let ghost oy = y_offset as int;
        self.clear();
        let mut dy: usize = 0;
        while dy < pattern.len()
            invariant
                self@.wf(),
                self@.width == old(self)@.width,
                self@.height == old(self)@.height,
                rows == stencil_rows(pattern@),
                rows.len() == pattern@.len(),
                ox == x_offset,
                oy == y_offset,
                dy <= pattern@.len(),
                forall|x: int, y: int|
                    #![trigger self@.at(x, y)]
                    self@.in_bounds(x, y) ==> self@.at(x, y) == if y - oy < dy {
                        stencil_cell(rows, x - ox, y - oy)
                    } else {
                        CellState::Dead
                    },
            decreases pattern@.len() - dy,
        {
            if y_offset < self.height && dy < self.height - y_offset {
                let y = y_offset + dy;
                let line = crate::text::chars_of(pattern[dy]);
                assert(line@ == rows[dy as int]);
                let limit: usize = if x_offset < self.width {
                    if line.len() < self.width - x_offset {
                        line.len()
                    } else {
                        self.width - x_offset
                    }
                } else {
                    0
                };
                let mut dx: usize = 0;
                while dx < limit
                    invariant
                        self@.wf(),
                        self@.width == old(self)@.width,
                        self@.height == old(self)@.height,
                        rows == stencil_rows(pattern@),
                        ox == x_offset,
                        oy == y_offset,
                        line@ == rows[dy as int],
                        dy < rows.len(),
                        y == oy + dy,
                        y < self@.height,
                        limit <= line@.len(),
                        limit > 0 ==> ox + limit <= self@.width,
                        dx <= limit,
                        forall|x: int, yy: int|
                            #![trigger self@.at(x, yy)]
                            self@.in_bounds(x, yy) ==> self@.at(x, yy) == if yy - oy < dy || (
                            yy == y && x - ox < dx) {
                                stencil_cell(rows, x - ox, yy - oy)
                            } else {
                                CellState::Dead
                            },
                    decreases limit - dx,
                {
                    let c = line[dx];
                    let s = if c == 'O' || c == '*' || c == '#' {
                        CellState::Alive
                    } else {
                        CellState::Dead
                    };
                    let ghost prev = self@;
                    self.write(x_offset + dx, y, s);
                    assert forall|x: int, yy: int| #[trigger]
                        self@.in_bounds(x, yy) implies self@.at(x, yy) == if yy - oy < dy || (yy
                            == y && x - ox < dx + 1) {
                        stencil_cell(rows, x - ox, yy - oy)
                    } else {
                        CellState::Dead
                    } by {
                        if yy != y || x != ox + dx {
                            assert(self@.at(x, yy) == prev.at(x, yy));
                        }
                    }
                    dx += 1;
                }
            }
            dy += 1;
        }
        let ghost want = loaded(old(self)@, rows, ox, oy);
        assert forall|y: int| 0 <= y < self@.height implies #[trigger] self@.cells[y] =~= want.cells[y] by {
            assert forall|x: int| 0 <= x < self@.width implies self@.cells[y][x] == want.cells[y][x] by {
                assert(self@.at(x, y) == want.at(x, y));
            }
        }
        assert(self@.cells =~= want.cells);
    }

    /// Gives each cell a pseudo-random state: the cells are visited row by
    /// row, each advancing the generator from `seed` once, and a cell is
    /// Alive exactly when its draw falls below `alive_below`. With
    /// `alive_below` zero every cell is Dead; from 2^32 up every cell is
    /// Alive.
    pub fn randomize_seeded(&mut self, seed: u64, alive_below: u64)
        requires
            old(self)@.wf(),
        ensures
            final(self)@.wf(),
            final(self)@.width == old(self)@.width,
            final(self)@.height == old(self)@.height,
            forall|x: int, y: int|
                #![trigger final(self)@.at(x, y)]
                final(self)@.in_bounds(x, y) ==> final(self)@.at(x, y) == random_state(
                    seed,
                    alive_below,
                    (y * old(self)@.width + x + 1) as nat,
                ),
            alive_below == 0 ==> final(self)@ == uniform(
                old(self)@.width,
                old(self)@.height,
                CellState::Dead,
            ),
            alive_below >= 0x1_0000_0000 ==> final(self)@ == uniform(
                old(self)@.width,
                old(self)@.height,
                CellState::Alive,
            ),
    {
        let ghost w = self@.width as int;
        let mut state: u64 = seed;
        let ghost mut n: nat = 0;
        let mut next: Vec<Vec<CellState>> = Vec::new();
        let mut y: usize = 0;
        while y < self.height
            invariant
                self@ == old(self)@,
                w == self@.width,
                y <= self@.height,
                next@.len() == y,
                n == y * w,
                state == lcg_state(seed, n),
                forall|j: int| 0 <= j < y ==> (#[trigger] next@[j])@.len() == w,
                forall|j: int, i: int|
                    0 <= j < y && 0 <= i < w ==> #[trigger] next@[j]@[i] == random_state(
                        seed,
                        alive_below,
                        (j * w + i + 1) as nat,
                    ),
            decreases self.height - y,
        {
            let mut row: Vec<CellState> = Vec::new();
            let mut x: usize = 0;
            while x < self.width
                invariant
                    self@ == old(self)@,
                    w == self@.width,
                    y < self@.height,
                    x <= w,
                    row@.len() == x,
                    n == y * w + x,
                    state == lcg_state(seed, n),
                    forall|i: int|
                        0 <= i < x ==> #[trigger] row@[i] == random_state(
                            seed,
                            alive_below,
                            (y * w + i + 1) as nat,
                        ),
                decreases self.width - x,
            {
                let m = state.wrapping_mul(1664525);
                let s2 = m.wrapping_add(1013904223);
                proof {
                    lemma_lcg_wrapping(state, m, s2);
                    n = n + 1;
                }
                state = s2;
                let d = state >> 32;
                assert(d == state / 0x1_0000_0000) by (bit_vector)
                    requires
                        d == state >> 32,
                ;
                let s = if d < alive_below {
                    CellState::Alive
                } else {
                    CellState::Dead
                };
                row.push(s);
                x += 1;
            }
            proof {
                assert(n == (y + 1) * w) by (nonlinear_arith)
                    requires
                        n == y * w + w,
                ;
            }
            next.push(row);
            y += 1;
        }
        self.cells = next;
        assert forall|x: int, y: int| #[trigger]
            self@.in_bounds(x, y) implies self@.at(x, y) == random_state(
            seed,
            alive_below,
            (y * w + x + 1) as nat,
        ) by {
            assert(self@.cells[y] == next@[y]@);
        }
        if alive_below == 0 {
            assert(self@.cells =~~= uniform(self@.width, self@.height, CellState::Dead).cells);
        }
        if alive_below >= 0x1_0000_0000 {
            assert forall|x: int, y: int| #[trigger]
                self@.in_bounds(x, y) implies self@.at(x, y) == CellState::Alive by {
                let k = (y * w + x + 1) as nat;
                assert(lcg_state(seed, k) as nat / 0x1_0000_0000 < 0x1_0000_0000);
            }
            assert(self@.cells =~~= uniform(self@.width, self@.height, CellState::Alive).cells);
        }
    }

    /// The number of live cells, or `usize::MAX` where that number does not
    /// fit.
    pub fn count_alive(&self) -> (r: usize)
        requires
            self@.wf(),
        ensures
            r == if population(self@) <= usize::MAX {
                population(self@)
            } else {
                usize::MAX as nat
            },
    {
        let ghost rows = self@.cells;
        let mut count: usize = 0;
        let mut y: usize = 0;
        while y < self.height
            invariant
                self@.wf(),
                rows == self@.cells,
                y <= self@.height,
                count == if rows_population(rows.take(y as int)) <= usize::MAX {
                    rows_population(rows.take(y as int))
                } else {
                    usize::MAX as nat
                },
            decreases self.height - y,
        {
            let ghost row = rows[y as int];
            let ghost before = rows_population(rows.take(y as int));
            let mut x: usize = 0;
            while x < self.width
                invariant
                    self@.wf(),
                    rows == self@.cells,
                    row == rows[y as int],
                    y < self@.height,
                    x <= self@.width,
                    count == if before + row_population(row.take(x as int)) <= usize::MAX {
                        before + row_population(row.take(x as int))
                    } else {
                        usize::MAX as nat
                    },
                decreases self.width - x,
            {
                assert(row.take(x + 1).drop_last() =~= row.take(x as int));
                if self.cell(x, y) == CellState::Alive {
                    count = count.saturating_add(1);
                }
                x += 1;
            }
            assert(row.take(x as int) =~= row);
            assert(rows.take(y + 1).drop_last() =~= rows.take(y as int));
            y += 1;
        }
        assert(rows.take(y as int) =~= rows);
        count
    }

    /// Loads the stencil centred on the grid: the offsets are half of what
    /// the grid has beyond the stencil's height and its first row's length,
    /// or zero where the stencil is the larger.
    pub fn load_pattern_centered(&mut self, pattern: &[&str])
        requires
            old(self)@.wf(),
            pattern@.len() > 0,
        ensures
            final(self)@.wf(),
            final(self)@ == loaded(
                old(self)@,
                stencil_rows(pattern@),
                (if old(self)@.width >= pattern@[0]@.len() {
                    old(self)@.width - pattern@[0]@.len()
                } else {
                    0
                }) / 2,
                (if old(self)@.height >= pattern@.len() {
                    old(self)@.height - pattern@.len()
                } else {
                    0
                }) / 2,
            ),
    {
        let first_len = pattern[0].unicode_len();
        let x_offset = self.width.saturating_sub(first_len) / 2;
        let y_offset = self.height.saturating_sub(pattern.len()) / 2;
        self.load_pattern(pattern, x_offset, y_offset);
    }

    /// Writes `state` at `(x, y)`; does nothing off the grid.
    pub fn set_cell(&mut self, x: usize, y: usize, state: CellState)
        requires
            old(self)@.wf(),
        ensures
            final(self)@.wf(),
            final(self)@ == if old(self)@.in_bounds(x as int, y as int) {
                old(self)@.set(x as int, y as int, state)
            } else {
                old(self)@
            },
    {
        if x < self.width && y < self.height {
            self.write(x, y, state);
        }
    }

    /// Flips the cell at `(x, y)` between Alive and Dead; does nothing off
    /// the grid.
    pub fn toggle_cell(&mut self, x: usize, y: usize)
        requires
            old(self)@.wf(),
        ensures
            final(self)@.wf(),
            final(self)@ == if old(self)@.in_bounds(x as int, y as int) {
                old(self)@.set(x as int, y as int, old(self)@.at(x as int, y as int).opposite())
            } else {
                old(self)@
            },
    {
        if x < self.width && y < self.height {
            assert(self@.cells[y as int] == self.cells@[y as int]@);
            let next = self.cells[y][x].opposite();
            self.write(x, y, next);
        }
    }
}

impl Default for Grid {
    /// A 50 by 50 grid of dead cells.
    fn default() -> (g: Grid)
        ensures
            g@ == uniform(50, 50, CellState::Dead),
    {
        Grid::new(50, 50)
    }
}

} // verus!
