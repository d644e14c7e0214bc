//! The RLE (run length encoded) pattern format: reading it into a pattern,
//! writing a pattern out, and moving patterns to and from grids.

use vstd::prelude::*;
use crate::game::{CellState, Grid, GridView};
use crate::text::{
    chars_of, has_prefix, parse_number, push_decimal, remove_all, slice_of, split, split_on,
    starts_with, string_of, trim, trimmed, without, parse_usize, decimal, is_digit, decimal_value,
    all_digits, without_plus,
};

verus! {

/// Why an RLE text was refused.
#[derive(Debug)]
pub enum RleError {
    ParseError(String),
    InvalidFormat(String),
}

/// What an error says: its kind and its message.
pub enum RleFailure {
    Parse(Seq<char>),
    Format(Seq<char>),
}

impl View for RleError {
    type V = RleFailure;

    open spec fn view(&self) -> RleFailure {
        match self {
            RleError::ParseError(m) => RleFailure::Parse(m@),
            RleError::InvalidFormat(m) => RleFailure::Format(m@),
        }
    }
}

impl RleError {
    /// The error as one line of text for the user.
    pub fn message(&self) -> (r: String)
        ensures
            r@ == match self@ {
                RleFailure::Parse(m) => "Parse error: "@ + m,
                RleFailure::Format(m) => "Invalid format: "@ + m,
            },
    {
        let (mut out, m) = match self {
            RleError::ParseError(m) => (chars_of("Parse error: "), m),
            RleError::InvalidFormat(m) => (chars_of("Invalid format: "), m),
        };
        let mut rest = chars_of(m.as_str());
        out.append(&mut rest);
        string_of(&out)
    }
}

/// A pattern in RLE terms: its comment fields, its size, its rule and one
/// row of cells (true for alive) per line.
#[derive(Debug, Clone)]
pub struct RlePattern {
    pub name: String,
    pub comment: String,
    pub author: String,
    pub width: usize,
    pub height: usize,
    pub rule: String,
    pub data: Vec<Vec<bool>>,
}

/// What a pattern holds, as sequences.
pub struct RleView {
    pub name: Seq<char>,
    pub comment: Seq<char>,
    pub author: Seq<char>,
    pub width: nat,
    pub height: nat,
    pub rule: Seq<char>,
    pub data: Seq<Seq<bool>>,
}

impl View for RlePattern {
    type V = RleView;

    open spec fn view(&self) -> RleView {
        RleView {
            name: self.name@,
            comment: self.comment@,
            author: self.author@,
            width: self.width as nat,
            height: self.height as nat,
            rule: self.rule@,
            data: self.data@.map_values(|row: Vec<bool>| row@),
        }
    }
}

/// `height` rows of `width` dead cells.
pub open spec fn blank(width: nat, height: nat) -> Seq<Seq<bool>> {
    Seq::new(height, |y: int| Seq::new(width, |x: int| false))
}

/// The rule of Conway's Game of Life in RLE notation.
pub open spec fn life_rule() -> Seq<char> {
    "B3/S23"@
}

impl RleView {
    /// Whether `data` has `height` rows of `width` cells each.
    pub open spec fn has_shape(self) -> bool {
        &&& self.data.len() == self.height
        &&& forall|y: int| 0 <= y < self.height ==> (#[trigger] self.data[y]).len() == self.width
    }
}

/// The grid that a pattern of the right shape describes.
pub open spec fn grid_of(p: RleView) -> GridView {
    GridView {
        width: p.width,
        height: p.height,
        cells: Seq::new(
            p.height,
            |y: int|
                Seq::new(
                    p.width,
                    |x: int|
                        if p.data[y][x] {
                            CellState::Alive
                        } else {
                            CellState::Dead
                        },
                ),
        ),
    }
}

/// Whether the pattern has a live cell at `(x, y)`.
pub open spec fn marked(data: Seq<Seq<bool>>, x: int, y: int) -> bool {
    0 <= y < data.len() && 0 <= x < data[y].len() && data[y][x]
}

/// The larger of two sizes.
pub open spec fn larger(a: nat, b: nat) -> nat {
    if a >= b {
        a
    } else {
        b
    }
}

/// A grid at least `min_width` by `min_height` and at least as large as the
/// pattern, holding the pattern's live cells centred in it (the left and top
/// margins take the smaller half of any odd difference).
pub open spec fn centered(p: RleView, min_width: nat, min_height: nat) -> GridView {
    let w = larger(p.width, min_width);
    let h = larger(p.height, min_height);
    let sx = (w - p.width) / 2;
    let sy = (h - p.height) / 2;
    GridView {
        width: w,
        height: h,
        cells: Seq::new(
            h,
            |y: int|
                Seq::new(
                    w,
                    |x: int|
                        if marked(p.data, x - sx, y - sy) {
                            CellState::Alive
                        } else {
                            CellState::Dead
                        },
                ),
        ),
    }
}

/// How many cells after `i` continue the run of equal cells that starts
/// at `i`.
pub open spec fn same_after(row: Seq<bool>, i: int) -> nat
    decreases row.len() - i,
{
    if 0 <= i && i + 1 < row.len() && row[i + 1] == row[i] {
        1 + same_after(row, i + 1)
    } else {
        0
    }
}

/// A run never reaches past the end of its row.
pub proof fn lemma_same_after_bound(row: Seq<bool>, i: int)
    requires
        0 <= i < row.len(),
    ensures
        i + 1 + same_after(row, i) <= row.len(),
    decreases row.len() - i,
{
    if i + 1 < row.len() && row[i + 1] == row[i] {
        lemma_same_after_bound(row, i + 1);
    }
}

/// The length of the run of equal cells that starts at `i`.
pub open spec fn run_length(row: Seq<bool>, i: int) -> nat {
    1 + same_after(row, i)
}

/// One run in RLE: its length unless that is one, then 'o' for live cells
/// or 'b' for dead ones.
pub open spec fn run_text(count: nat, alive: bool) -> Seq<char> {
    (if count == 1 {
        Seq::empty()
    } else {
        decimal(count)
    }) + seq![if alive { 'o' } else { 'b' }]
}

/// The runs of `row` from `i` on, each written as `run_text`.
pub open spec fn encode_from(row: Seq<bool>, i: int) -> Seq<char>
    decreases row.len() - i,
{
    if i < 0 || i >= row.len() {
        Seq::empty()
    } else {
        proof {
            lemma_same_after_bound(row, i);
        }
        run_text(run_length(row, i), row[i]) + encode_from(row, i + 1 + same_after(row, i))
    }
}

/// A row in RLE: its maximal runs, dead ones included, left to right.
pub open spec fn encode_row(row: Seq<bool>) -> Seq<char> {
    encode_from(row, 0)
}

/// `lines` without the empty lines at its end.
pub open spec fn drop_trailing_empty(lines: Seq<Seq<char>>) -> Seq<Seq<char>>
    decreases lines.len(),
{
    if lines.len() > 0 && lines.last().len() == 0 {
        drop_trailing_empty(lines.drop_last())
    } else {
        lines
    }
}

/// `lines` joined with `sep` between each two of them.
pub open spec fn join_with(lines: Seq<Seq<char>>, sep: char) -> Seq<char>
    decreases lines.len(),
{
    if lines.len() == 0 {
        Seq::empty()
    } else if lines.len() == 1 {
        lines[0]
    } else {
        join_with(lines.drop_last(), sep).push(sep) + lines.last()
    }
}

/// The cell part of an RLE text: the encoded rows joined by '$', trailing
/// empty rows left out, and '!' after them unless nothing is left.
pub open spec fn body_text(data: Seq<Seq<bool>>) -> Seq<char> {
    let joined = join_with(
        drop_trailing_empty(data.map_values(|row: Seq<bool>| encode_row(row))),
        '$',
    );
    if joined.len() > 0 {
        joined.push('!')
    } else {
        joined
    }
}

/// A comment line with the given tag, or nothing for an empty field.
pub open spec fn comment_line(tag: Seq<char>, field: Seq<char>) -> Seq<char> {
    if field.len() > 0 {
        tag + field + seq!['\n']
    } else {
        Seq::empty()
    }
}

/// The whole RLE text of a pattern: the #N, #C and #O comment lines for the
/// fields that are set, the header line, the cells, and a final newline.
pub open spec fn rle_text(p: RleView) -> Seq<char> {
    comment_line("#N "@, p.name) + comment_line("#C "@, p.comment) + comment_line("#O "@, p.author)
        + "x = "@ + decimal(p.width) + ", y = "@ + decimal(p.height) + ", rule = "@ + p.rule
        + seq!['\n'] + body_text(p.data) + seq!['\n']
}

proof fn lemma_run_length(row: Seq<bool>, s: int, i: int)
    requires
        0 <= s < i <= row.len(),
        forall|j: int| s <= j < i ==> #[trigger] row[j] == row[s],
        i == row.len() || row[i] != row[s],
    ensures
        run_length(row, s) == i - s,
    decreases i - s,
{
    if s + 1 < i {
        lemma_run_length(row, s + 1, i);
    }
}

/// What reading the lines of an RLE text has gathered so far: the comment
/// fields, the last header line seen, and the cell text.
pub struct Scan {
    pub name: Seq<char>,
    pub comment: Seq<char>,
    pub author: Seq<char>,
    pub header: Option<Seq<char>>,
    pub body: Seq<char>,
}

/// Nothing gathered yet; the name has its default.
pub open spec fn initial_scan() -> Scan {
    Scan {
        name: "Imported Pattern"@,
        comment: Seq::empty(),
        author: Seq::empty(),
        header: None,
        body: Seq::empty(),
    }
}

/// A comment line: "#N " sets the name, "#O " the author, and each "#C "
/// adds a line to the comment; other comments are ignored.
pub open spec fn after_comment(st: Scan, line: Seq<char>) -> Scan {
    if starts_with(line, "#N "@) {
        Scan { name: line.skip("#N "@.len() as int), ..st }
    } else if starts_with(line, "#C "@) {
        let rest = line.skip("#C "@.len() as int);
        Scan {
            comment: if st.comment.len() == 0 {
                rest
            } else {
                st.comment.push('\n') + rest
            },
            ..st
        }
    } else if starts_with(line, "#O "@) {
        Scan { author: line.skip("#O "@.len() as int), ..st }
    } else {
        st
    }
}

/// One line, trimmed: blank lines are skipped, '#' starts a comment, "x ="
/// or "x=" a header line, and anything else is cell text.
pub open spec fn after_line(st: Scan, raw: Seq<char>) -> Scan {
    let line = trim(raw);
    if line.len() == 0 {
        st
    } else if line[0] == '#' {
        after_comment(st, line)
    } else if starts_with(line, "x ="@) || starts_with(line, "x="@) {
        Scan { header: Some(line), ..st }
    } else {
        Scan { body: st.body + line, ..st }
    }
}

/// The lines read in order.
pub open spec fn scan_lines(lines: Seq<Seq<char>>) -> Scan
    decreases lines.len(),
{
    if lines.len() == 0 {
        initial_scan()
    } else {
        after_line(scan_lines(lines.drop_last()), lines.last())
    }
}

/// The size and rule that a header line sets.
pub struct Dims {
    pub width: nat,
    pub height: nat,
    pub rule: Seq<char>,
}

/// One comma-separated part of a header line: "x=", "y=" and "rule="
/// set their field, a number that does not parse is an error, and other
/// parts are ignored.
pub open spec fn apply_part(acc: Result<Dims, Seq<char>>, part: Seq<char>) -> Result<Dims, Seq<char>> {
    match acc {
        Err(m) => Err(m),
        Ok(d) => if starts_with(part, "x="@) {
            let v = part.skip("x="@.len() as int);
            match parse_usize(v) {
                Some(n) => Ok(Dims { width: n as nat, ..d }),
                None => Err("Invalid width: "@ + v),
            }
        } else if starts_with(part, "y="@) {
            let v = part.skip("y="@.len() as int);
            match parse_usize(v) {
                Some(n) => Ok(Dims { height: n as nat, ..d }),
                None => Err("Invalid height: "@ + v),
            }
        } else if starts_with(part, "rule="@) {
            Ok(Dims { rule: part.skip("rule="@.len() as int), ..d })
        } else {
            Ok(d)
        },
    }
}

/// The parts read in order, from a zero size and the Life rule.
pub open spec fn read_parts(parts: Seq<Seq<char>>) -> Result<Dims, Seq<char>>
    decreases parts.len(),
{
    if parts.len() == 0 {
        Ok(Dims { width: 0, height: 0, rule: life_rule() })
    } else {
        apply_part(read_parts(parts.drop_last()), parts.last())
    }
}

/// A header line: spaces removed, then read part by part.
pub open spec fn read_header(line: Seq<char>) -> Result<Dims, Seq<char>> {
    read_parts(split_on(without(line, ' '), ','))
}

/// `s` without the '!' characters at its end.
pub open spec fn strip_bangs(s: Seq<char>) -> Seq<char>
    decreases s.len(),
{
    if s.len() > 0 && s.last() == '!' {
        strip_bangs(s.drop_last())
    } else {
        s
    }
}

/// The number of decimal digits in a row from `i` on.
pub open spec fn digits_from(d: Seq<char>, i: int) -> nat
    decreases d.len() - i,
{
    if 0 <= i < d.len() && is_digit(d[i]) {
        1 + digits_from(d, i + 1)
    } else {
        0
    }
}

/// `cells` with the cells `x .. x + count` of row `y` set, where they exist.
pub open spec fn fill(cells: Seq<Seq<bool>>, x: int, y: int, count: int) -> Seq<Seq<bool>> {
    Seq::new(
        cells.len(),
        |j: int| Seq::new(cells[j].len(), |i: int| cells[j][i] || (j == y && x <= i < x + count)),
    )
}

/// The cell text from `i` on, with the cursor at `(x, y)`: a count applies
/// to the 'b', 'o' or '$' after it, 'b' skips dead cells, 'o' sets live
/// ones, '$' moves to the start of a later row, '!' ends the text and
/// blanks are ignored. Cells off the pattern are dropped. Anything else is
/// an error, with its message.
pub open spec fn run_data(d: Seq<char>, i: int, x: int, y: int, cells: Seq<Seq<bool>>) -> Result<
    Seq<Seq<bool>>,
    Seq<char>,
>
    decreases d.len() - i,
{
    if i < 0 || i >= d.len() {
        Ok(cells)
    } else {
        let c = d[i];
        if is_digit(c) {
            let k = digits_from(d, i);
            let digits = d.subrange(i, i + k);
            let v = decimal_value(digits);
            if v > usize::MAX {
                Err("Invalid number: "@ + digits)
            } else if i + k >= d.len() {
                Err("Number not followed by character"@)
            } else {
                let t = d[i + k];
                if t == 'b' {
                    run_data(d, i + k + 1, x + v, y, cells)
                } else if t == 'o' {
                    run_data(d, i + k + 1, x + v, y, fill(cells, x, y, v as int))
                } else if t == '$' {
                    run_data(d, i + k + 1, 0, y + v, cells)
                } else {
                    Err("Invalid character after number: "@ + seq![t])
                }
            }
        } else if c == 'b' {
            run_data(d, i + 1, x + 1, y, cells)
        } else if c == 'o' {
            run_data(d, i + 1, x + 1, y, fill(cells, x, y, 1))
        } else if c == '$' {
            run_data(d, i + 1, 0, y + 1, cells)
        } else if c == '!' {
            Ok(cells)
        } else if c == ' ' || c == '\t' || c == '\n' || c == '\r' {
            run_data(d, i + 1, x, y, cells)
        } else {
            Err("Invalid character: "@ + seq![c])
        }
    }
}

/// The cells that a cell text gives on a blank `width` by `height`
/// pattern: trailing '!' characters and surrounding whitespace go first.
pub open spec fn read_cells(body: Seq<char>, width: nat, height: nat) -> Result<Seq<Seq<bool>>, Seq<char>> {
    run_data(trim(strip_bangs(body)), 0, 0, 0, blank(width, height))
}

/// What reading an RLE text gives: the pattern, or the first error met.
pub open spec fn import_result(s: Seq<char>) -> Result<RleView, RleFailure> {
    let st = scan_lines(split_on(s, '\n'));
    match st.header {
        None => Err(RleFailure::Format("Missing header line (x = ..., y = ...)"@)),
        Some(h) => match read_header(h) {
            Err(m) => Err(RleFailure::Parse(m)),
            Ok(d) => if d.width == 0 || d.height == 0 {
                Err(RleFailure::Format("Width and height must be greater than 0"@))
            } else {
                match read_cells(st.body, d.width, d.height) {
                    Err(m) => Err(RleFailure::Parse(m)),
                    Ok(cells) => Ok(
                        RleView {
                            name: st.name,
                            comment: st.comment,
                            author: st.author,
                            width: d.width,
                            height: d.height,
                            rule: d.rule,
                            data: cells,
                        },
                    ),
                }
            },
        },
    }
}

/// `height` rows of `width` false cells.
fn blank_rows(width: usize, height: usize) -> (r: Vec<Vec<bool>>)
    ensures
        r@.map_values(|row: Vec<bool>| row@) == blank(width as nat, height as nat),
{
    let mut rows: Vec<Vec<bool>> = Vec::new();
    let mut y: usize = 0;
    while y < height
        invariant
            y <= height,
            rows@.len() == y,
            forall|j: int| 0 <= j < y ==> #[trigger] rows@[j]@ == Seq::new(width as nat, |x: int| false),
        decreases height - y,
    {
        let row = vec![false; width];
        assert(row@ =~= Seq::new(width as nat, |x: int| false));
        rows.push(row);
        y += 1;
    }
    assert(rows@.map_values(|row: Vec<bool>| row@) =~= blank(width as nat, height as nat));
    rows
}

impl RlePattern {
    /// An empty `width` by `height` pattern under the Life rule, with no
    /// comment and no author.
    pub fn new(name: String, width: usize, height: usize) -> (r: RlePattern)
        ensures
            r@.name == name@,
            r@.comment == Seq::<char>::empty(),
            r@.author == Seq::<char>::empty(),
            r@.width == width,
            r@.height == height,
            r@.rule == life_rule(),
            r@.data == blank(width as nat, height as nat),
    {
        RlePattern {
            name,
            comment: String::new(),
            author: String::new(),
            width,
            height,
            rule: String::from_str("B3/S23"),
            data: blank_rows(width, height),
        }
    }

    /// The pattern of the whole grid: its size, the Life rule, and true
    /// exactly where a cell is alive.
    pub fn from_grid(grid: &Grid, name: String) -> (r: RlePattern)
        requires
            grid@.wf(),
        ensures
            r@.name == name@,
            r@.comment == Seq::<char>::empty(),
            r@.author == Seq::<char>::empty(),
            r@.width == grid@.width,
            r@.height == grid@.height,
            r@.rule == life_rule(),
            r@.has_shape(),
            forall|x: int, y: int|
                grid@.in_bounds(x, y) ==> #[trigger] r@.data[y][x] == (grid@.at(x, y)
                    == CellState::Alive),
    {
        let width = grid.width();
        let height = grid.height();
        let mut data: Vec<Vec<bool>> = Vec::new();
        let mut y: usize = 0;
        while y < height
            invariant
                grid@.wf(),
                width == grid@.width,
                height == grid@.height,
                y <= height,
                data@.len() == y,
                forall|j: int| 0 <= j < y ==> (#[trigger] data@[j])@.len() == width,
                forall|i: int, j: int|
                    0 <= j < y && 0 <= i < width ==> #[trigger] data@[j]@[i] == (grid@.at(i, j)
                        == CellState::Alive),
            decreases height - y,
        {
            let mut row: Vec<bool> = Vec::new();
            let mut x: usize = 0;
            while x < width
                invariant
                    grid@.wf(),
                    width == grid@.width,
                    height == grid@.height,
                    y < height,
                    x <= width,
                    row@.len() == x,
                    forall|i: int| 0 <= i < x ==> #[trigger] row@[i] == (grid@.at(i, y as int) == CellState::Alive),
                decreases width - x,
            {
                row.push(*grid.get_cell(x, y) == CellState::Alive);
                x += 1;
            }
            data.push(row);
            y += 1;
        }
        RlePattern {
            name,
            comment: String::new(),
            author: String::new(),
            width,
            height,
            rule: String::from_str("B3/S23"),
            data,
        }
    }

    /// The grid the pattern describes; refused when either dimension is
    /// zero.
    pub fn to_grid(&self) -> (r: Result<Grid, RleError>)
        requires
            self@.has_shape(),
        ensures
            self.width == 0 || self.height == 0 <==> r is Err,
            r matches Err(e) ==> e@ == RleFailure::Format("Grid dimensions cannot be zero"@),
            r matches Ok(g) ==> g@ == grid_of(self@) && g@.wf(),
    {
        if self.width == 0 || self.height == 0 {
            return Err(RleError::InvalidFormat(String::from_str("Grid dimensions cannot be zero")));
        }
        let mut grid = Grid::new(self.width, self.height);
        let ghost want = grid_of(self@);
        let mut y: usize = 0;
        while y < self.height
            invariant
                self@.has_shape(),
                want == grid_of(self@),
                grid@.wf(),
                grid@.width == self.width,
                grid@.height == self.height,
                y <= self.height,
                forall|i: int, j: int|
                    #![trigger grid@.at(i, j)]
                    grid@.in_bounds(i, j) ==> grid@.at(i, j) == if j < y {
                        want.at(i, j)
                    } else {
                        CellState::Dead
                    },
            decreases self.height - y,
        {
            let mut x: usize = 0;
            while x < self.width
                invariant
                    self@.has_shape(),
                    want == grid_of(self@),
                    grid@.wf(),
                    grid@.width == self.width,
                    grid@.height == self.height,
                    y < self.height,
                    x <= self.width,
                    forall|i: int, j: int|
                        #![trigger grid@.at(i, j)]
                        grid@.in_bounds(i, j) ==> grid@.at(i, j) == if j < y || (j == y && i < x) {
                            want.at(i, j)
                        } else {
                            CellState::Dead
                        },
                decreases self.width - x,
            {
                assert(self@.data[y as int] == self.data@[y as int]@);
                let ghost prev = grid@;
                if self.data[y][x] {
                    grid.set_cell(x, y, CellState::Alive);
                }
                assert forall|i: int, j: int| #[trigger]
                    grid@.in_bounds(i, j) implies grid@.at(i, j) == if j < y || (j == y && i < x
                        + 1) {
                    want.at(i, j)
                } else {
                    CellState::Dead
                } by {
                    if i != x || j != y {
                        assert(grid@.at(i, j) == prev.at(i, j));
                    }
                }
                x += 1;
            }
            y += 1;
        }
        assert(grid@.cells =~~= want.cells) by {
            assert forall|j: int| 0 <= j < want.height implies #[trigger] grid@.cells[j] =~= want.cells[j] by {
                assert forall|i: int| 0 <= i < want.width implies grid@.cells[j][i] == want.cells[j][i] by {
                    assert(grid@.at(i, j) == want.at(i, j));
                }
            }
        }
        Ok(grid)
    }

    /// A grid at least `min_width` by `min_height`, grown to the pattern's
    /// size where that is larger, with the pattern's live cells centred in
    /// it.
    pub fn place_centered(&self, min_width: usize, min_height: usize) -> (g: Grid)
        ensures
            g@.wf(),
            g@ == centered(self@, min_width as nat, min_height as nat),
    {
        let w = if self.width >= min_width {
            self.width
        } else {
            min_width
        };
        let h = if self.height >= min_height {
            self.height
        } else {
            min_height
        };
        let sx = (w - self.width) / 2;
        let sy = (h - self.height) / 2;
        let ghost want = centered(self@, min_width as nat, min_height as nat);
        let mut grid = Grid::new(w, h);
        let mut y: usize = 0;
        while y < self.data.len()
            invariant
                want == centered(self@, min_width as nat, min_height as nat),
                w == want.width,
                h == want.height,
                sx == (w - self.width) / 2,
                sy == (h - self.height) / 2,
                sx <= w,
                grid@.wf(),
                grid@.width == w,
                grid@.height == h,
                y <= self@.data.len(),
                forall|i: int, j: int|
                    #![trigger grid@.at(i, j)]
                    grid@.in_bounds(i, j) ==> grid@.at(i, j) == if j - sy < y {
                        want.at(i, j)
                    } else {
                        CellState::Dead
                    },
            decreases self@.data.len() - y,
        {
            assert(self@.data[y as int] == self.data@[y as int]@);
            let row = &self.data[y];
            if sy < h && y < h - sy {
                let gy = sy + y;
                let limit = if row.len() < w - sx {
                    row.len()
                } else {
                    w - sx
                };
                let mut x: usize = 0;
                while x < limit
                    invariant
                        want == centered(self@, min_width as nat, min_height as nat),
                        w == want.width,
                        h == want.height,
                        sx == (w - self.width) / 2,
                        sy == (h - self.height) / 2,
                        grid@.wf(),
                        grid@.width == w,
                        grid@.height == h,
                        y < self@.data.len(),
                        row@ == self@.data[y as int],
                        gy == sy + y,
                        gy < h,
                        limit <= row@.len(),
                        sx + limit <= w,
                        x <= limit,
                        forall|i: int, j: int|
                            #![trigger grid@.at(i, j)]
                            grid@.in_bounds(i, j) ==> grid@.at(i, j) == if j - sy < y || (j == gy
                                && i - sx < x) {
                                want.at(i, j)
                            } else {
                                CellState::Dead
                            },
                    decreases limit - x,
                {
                    let ghost prev = grid@;
                    if row[x] {
                        grid.set_cell(sx + x, gy, CellState::Alive);
                    }
                    assert forall|i: int, j: int| #[trigger]
                        grid@.in_bounds(i, j) implies grid@.at(i, j) == if j - sy < y || (j == gy
                            && i - sx < x + 1) {
                        want.at(i, j)
                    } else {
                        CellState::Dead
                    } by {
                        if i != sx + x || j != gy {
                            assert(grid@.at(i, j) == prev.at(i, j));
                        }
                    }
                    x += 1;
                }
            }
            y += 1;
        }
        assert(grid@.cells =~~= want.cells) by {
            assert forall|j: int| 0 <= j < want.height implies #[trigger] grid@.cells[j] =~= want.cells[j] by {
                assert forall|i: int| 0 <= i < want.width implies grid@.cells[j][i] == want.cells[j][i] by {
                    assert(grid@.at(i, j) == want.at(i, j));
                }
            }
        }
        grid
    }
}

/// Appends one run in RLE: the count unless it is one, then 'o' or 'b'.
fn append_run(line: &mut Vec<char>, count: usize, is_alive: bool)
    ensures
        final(line)@ == old(line)@ + run_text(count as nat, is_alive),
{
    if count != 1 {
        push_decimal(line, count);
    }
    line.push(if is_alive { 'o' } else { 'b' });
    assert(final(line)@ =~= old(line)@ + run_text(count as nat, is_alive));
}

/// One row in RLE.
fn encode_cells(row: &Vec<bool>) -> (r: Vec<char>)
    ensures
        r@ == encode_row(row@),
{
    let ghost cells = row@;
    let mut line: Vec<char> = Vec::new();
    let mut count: usize = 0;
    let mut last_cell = false;
    let mut i: usize = 0;
    while i < row.len()
        invariant
            cells == row@,
            i <= cells.len(),
            count <= i,
            count == 0 ==> i == 0,
            forall|j: int| i - count <= j < i ==> #[trigger] cells[j] == last_cell,
            line@ + encode_from(cells, i - count) == encode_row(cells),
        decreases cells.len() - i,
    {
        let cell = row[i];
        if cell == last_cell {
            count += 1;
        } else {
            if count > 0 {
                proof {
                    lemma_run_length(cells, i - count, i as int);
                }
                append_run(&mut line, count, last_cell);
                assert(line@ + encode_from(cells, i as int) == encode_row(cells));
            }
            count = 1;
            last_cell = cell;
        }
        i += 1;
    }
    if count > 0 {
        proof {
            lemma_run_length(cells, i - count, i as int);
        }
        append_run(&mut line, count, last_cell);
        assert(line@ + encode_from(cells, i as int) == encode_row(cells));
    }
    assert(line@ =~= line@ + encode_from(cells, i as int));
    line
}

/// Appends a comment line with the given tag, unless the field is empty.
fn append_comment(out: &mut Vec<char>, tag: &str, field: &String)
    ensures
        final(out)@ == old(out)@ + comment_line(tag@, field@),
{
    let mut text = chars_of(field.as_str());
    if text.len() > 0 {
        let mut t = chars_of(tag);
        out.append(&mut t);
        out.append(&mut text);
        out.push('\n');
    }
    assert(final(out)@ =~= old(out)@ + comment_line(tag@, field@));
}

/// Appends the characters of `s`.
fn append_str(out: &mut Vec<char>, s: &str)
    ensures
        final(out)@ == old(out)@ + s@,
{
    let mut t = chars_of(s);
    out.append(&mut t);
}

/// The RLE text of a pattern.
pub fn export_to_rle_string(pattern: &RlePattern) -> (r: String)
    ensures
        r@ == rle_text(pattern@),
{
    let mut out: Vec<char> = Vec::new();
    append_comment(&mut out, "#N ", &pattern.name);
    append_comment(&mut out, "#C ", &pattern.comment);
    append_comment(&mut out, "#O ", &pattern.author);
    append_str(&mut out, "x = ");
    push_decimal(&mut out, pattern.width);
    append_str(&mut out, ", y = ");
    push_decimal(&mut out, pattern.height);
    append_str(&mut out, ", rule = ");
    append_str(&mut out, pattern.rule.as_str());
    out.push('\n');
    let ghost header = out@;
    let ghost rows = pattern@.data.map_values(|row: Seq<bool>| encode_row(row));
    let mut lines: Vec<Vec<char>> = Vec::new();
    let mut y: usize = 0;
    while y < pattern.data.len()
        invariant
            rows == pattern@.data.map_values(|row: Seq<bool>| encode_row(row)),
            y <= pattern@.data.len(),
            lines@.len() == y,
            forall|j: int| 0 <= j < y ==> (#[trigger] lines@[j])@ == rows[j],
        decreases pattern@.data.len() - y,
    {
        assert(pattern@.data[y as int] == pattern.data@[y as int]@);
        lines.push(encode_cells(&pattern.data[y]));
        y += 1;
    }
    assert(lines@.map_values(|l: Vec<char>| l@) =~= rows);
    while lines.len() > 0 && lines[lines.len() - 1].len() == 0
        invariant
            drop_trailing_empty(lines@.map_values(|l: Vec<char>| l@)) == drop_trailing_empty(rows),
        decreases lines@.len(),
    {
        let ghost before = lines@.map_values(|l: Vec<char>| l@);
        lines.pop();
        assert(lines@.map_values(|l: Vec<char>| l@) =~= before.drop_last());
    }
    let ghost kept = lines@.map_values(|l: Vec<char>| l@);
    assert(drop_trailing_empty(kept) == kept);
    let mut joined: Vec<char> = Vec::new();
    let mut k: usize = 0;
    while k < lines.len()
        invariant
            kept == lines@.map_values(|l: Vec<char>| l@),
            k <= kept.len(),
            joined@ == join_with(kept.take(k as int), '$'),
        decreases kept.len() - k,
    {
        assert(kept.take(k + 1).drop_last() =~= kept.take(k as int));
        if k > 0 {
            joined.push('$');
        }
        let mut piece = slice_of(&lines[k], 0, lines[k].len());
        assert(piece@ =~= kept[k as int]);
        joined.append(&mut piece);
        k += 1;
        assert(kept.take(k as int).last() == kept[k - 1]);
        if k == 1 {
            assert(joined@ =~= join_with(kept.take(k as int), '$'));
        }
    }
    assert(kept.take(k as int) =~= kept);
    if joined.len() > 0 {
        joined.push('!');
    }
    out.append(&mut joined);
    out.push('\n');
    assert(out@ =~= rle_text(pattern@));
    string_of(&out)
}

/// A string holding `prefix` followed by `tail`.
fn message(prefix: &str, tail: &Vec<char>) -> (r: String)
    ensures
        r@ == prefix@ + tail@,
{
    let mut out = chars_of(prefix);
    let mut rest = slice_of(tail, 0, tail.len());
    assert(rest@ =~= tail@);
    out.append(&mut rest);
    string_of(&out)
}

/// The comment fields of a pattern, with nothing else gathered.
pub open spec fn fields_scan(p: RleView) -> Scan {
    Scan { name: p.name, comment: p.comment, author: p.author, header: None, body: Seq::empty() }
}

/// Applies one comment line to the pattern's name, comment or author.
fn parse_comment_line(line: &Vec<char>, pattern: &mut RlePattern)
    ensures
        final(pattern)@.name == after_comment(fields_scan(old(pattern)@), line@).name,
        final(pattern)@.comment == after_comment(fields_scan(old(pattern)@), line@).comment,
        final(pattern)@.author == after_comment(fields_scan(old(pattern)@), line@).author,
        final(pattern)@.width == old(pattern)@.width,
        final(pattern)@.height == old(pattern)@.height,
        final(pattern)@.rule == old(pattern)@.rule,
        final(pattern)@.data == old(pattern)@.data,
{
    let tag_n = chars_of("#N ");
    let tag_c = chars_of("#C ");
    let tag_o = chars_of("#O ");
    if has_prefix(line, &tag_n) {
        let rest = slice_of(line, tag_n.len(), line.len());
        assert(rest@ =~= line@.skip("#N "@.len() as int));
        pattern.name = string_of(&rest);
    } else if has_prefix(line, &tag_c) {
        let mut rest = slice_of(line, tag_c.len(), line.len());
        assert(rest@ =~= line@.skip("#C "@.len() as int));
        let mut text = chars_of(pattern.comment.as_str());
        if text.len() == 0 {
            pattern.comment = string_of(&rest);
        } else {
            text.push('\n');
            text.append(&mut rest);
            pattern.comment = string_of(&text);
        }
    } else if has_prefix(line, &tag_o) {
        let rest = slice_of(line, tag_o.len(), line.len());
        assert(rest@ =~= line@.skip("#O "@.len() as int));
        pattern.author = string_of(&rest);
    }
}

proof fn lemma_read_parts_error_sticks(parts: Seq<Seq<char>>, k: int)
    requires
        0 <= k <= parts.len(),
        read_parts(parts.take(k)) is Err,
    ensures
        read_parts(parts) == read_parts(parts.take(k)),
    decreases parts.len() - k,
{
    if k < parts.len() {
        assert(parts.take(k + 1).drop_last() =~= parts.take(k));
        lemma_read_parts_error_sticks(parts, k + 1);
    } else {
        assert(parts.take(k) =~= parts);
    }
}

/// Reads a header line into the pattern's size and rule, then gives it a
/// blank cell area of that size; a zero size is refused.
fn parse_header_line(line: &Vec<char>, pattern: &mut RlePattern) -> (r: Result<(), RleError>)
    requires
        old(pattern)@.width == 0,
        old(pattern)@.height == 0,
        old(pattern)@.rule == life_rule(),
    ensures
        final(pattern)@.name == old(pattern)@.name,
        final(pattern)@.comment == old(pattern)@.comment,
        final(pattern)@.author == old(pattern)@.author,
        match read_header(line@) {
            Err(m) => r matches Err(e) && e@ == RleFailure::Parse(m),
            Ok(d) => if d.width == 0 || d.height == 0 {
                r matches Err(e) && e@ == RleFailure::Format(
                    "Width and height must be greater than 0"@,
                )
            } else {
                &&& r is Ok
                &&& final(pattern)@.width == d.width
                &&& final(pattern)@.height == d.height
                &&& final(pattern)@.rule == d.rule
                &&& final(pattern)@.data == blank(d.width, d.height)
            },
        },
{
    let cleaned = remove_all(line, ' ');
    let parts = split(&cleaned, ',');
    let ghost pv = split_on(without(line@, ' '), ',');
    let tag_x = chars_of("x=");
    let tag_y = chars_of("y=");
    let tag_rule = chars_of("rule=");
    let mut k: usize = 0;
    while k < parts.len()
        invariant
            pv == split_on(without(line@, ' '), ','),
            parts@.len() == pv.len(),
            forall|i: int| 0 <= i < parts@.len() ==> (#[trigger] parts@[i])@ == pv[i],
            tag_x@ == "x="@,
            tag_y@ == "y="@,
            tag_rule@ == "rule="@,
            k <= pv.len(),
            read_parts(pv.take(k as int)) == Ok::<Dims, Seq<char>>(
                Dims { width: pattern.width as nat, height: pattern.height as nat, rule: pattern.rule@ },
            ),
            pattern@.name == old(pattern)@.name,
            pattern@.comment == old(pattern)@.comment,
            pattern@.author == old(pattern)@.author,
        decreases pv.len() - k,
    {
        let part = &parts[k];
        assert(pv.take(k + 1).drop_last() =~= pv.take(k as int));
        assert(pv.take(k + 1).last() == part@);
        if has_prefix(part, &tag_x) {
            let value = slice_of(part, tag_x.len(), part.len());
            assert(value@ =~= part@.skip("x="@.len() as int));
            match parse_number(&value) {
                Some(n) => {
                    pattern.width = n;
                },
                None => {
                    proof {
                        lemma_read_parts_error_sticks(pv, k + 1);
                    }
                    return Err(RleError::ParseError(message("Invalid width: ", &value)));
                },
            }
        } else if has_prefix(part, &tag_y) {
            let value = slice_of(part, tag_y.len(), part.len());
            assert(value@ =~= part@.skip("y="@.len() as int));
            match parse_number(&value) {
                Some(n) => {
                    pattern.height = n;
                },
                None => {
                    proof {
                        lemma_read_parts_error_sticks(pv, k + 1);
                    }
                    return Err(RleError::ParseError(message("Invalid height: ", &value)));
                },
            }
        } else if has_prefix(part, &tag_rule) {
            let value = slice_of(part, tag_rule.len(), part.len());
            assert(value@ =~= part@.skip("rule="@.len() as int));
            pattern.rule = string_of(&value);
        }
        k += 1;
    }
    assert(pv.take(k as int) =~= pv);
    if pattern.width == 0 || pattern.height == 0 {
        return Err(
            RleError::InvalidFormat(String::from_str("Width and height must be greater than 0")),
        );
    }
    pattern.data = blank_rows(pattern.width, pattern.height);
    Ok(())
}

/// The smaller of `n` and `usize::MAX`.
pub open spec fn capped(n: int) -> int {
    if n <= usize::MAX {
        n
    } else {
        usize::MAX as int
    }
}

/// Rows that all have `width` cells.
pub open spec fn rows_of_width(rows: Seq<Seq<bool>>, width: nat) -> bool {
    forall|j: int| 0 <= j < rows.len() ==> (#[trigger] rows[j]).len() == width
}

/// Setting cells from a cursor past the last index that a row or a column
/// can have sets nothing, so a cursor held at `usize::MAX` acts as the true
/// one.
proof fn lemma_fill_capped(cells: Seq<Seq<bool>>, width: nat, x: int, y: int, count: int)
    requires
        rows_of_width(cells, width),
        width <= usize::MAX,
        cells.len() <= usize::MAX,
        x >= 0,
        y >= 0,
        count >= 0,
    ensures
        fill(cells, x, y, count) == fill(cells, capped(x), capped(y), count),
{
    assert(fill(cells, x, y, count) =~~= fill(cells, capped(x), capped(y), count)) by {
        assert forall|j: int| 0 <= j < cells.len() implies #[trigger] fill(cells, x, y, count)[j]
            =~= fill(cells, capped(x), capped(y), count)[j] by {
            assert(cells[j].len() == width);
        }
    }
}

/// Sets the cells `x .. x + count` of row `y`, where they exist.
fn fill_cells(data: &mut Vec<Vec<bool>>, width: usize, x: usize, y: usize, count: usize)
    requires
        rows_of_width(old(data)@.map_values(|row: Vec<bool>| row@), width as nat),
    ensures
        final(data)@.map_values(|row: Vec<bool>| row@) == fill(
            old(data)@.map_values(|row: Vec<bool>| row@),
            x as int,
            y as int,
            count as int,
        ),
        rows_of_width(final(data)@.map_values(|row: Vec<bool>| row@), width as nat),
{
    let ghost before = data@.map_values(|row: Vec<bool>| row@);
    if y < data.len() && x < width {
        let end = if count < width - x {
            x + count
        } else {
            width
        };
        let mut i: usize = x;
        assert(before =~~= fill(before, x as int, y as int, 0));
        while i < end
            invariant
                before.len() == data@.len(),
                rows_of_width(before, width as nat),
                y < before.len(),
                x <= i <= end <= width,
                data@.map_values(|row: Vec<bool>| row@) == fill(before, x as int, y as int, i - x),
            decreases end - i,
        {
            let ghost prev = data@.map_values(|row: Vec<bool>| row@);
            assert(prev[y as int] == data@[y as int]@);
            assert(data@[y as int]@.len() == width);
            data[y][i] = true;
            let ghost next = fill(before, x as int, y as int, i + 1 - x);
            let ghost after = data@.map_values(|row: Vec<bool>| row@);
            assert forall|j: int| 0 <= j < before.len() implies #[trigger] after[j] =~= next[j] by {
                assert(after[j] == data@[j]@);
                if j != y {
                    assert(data@[j]@ == prev[j]);
                }
            }
            i += 1;
            assert(data@.map_values(|row: Vec<bool>| row@) =~= next);
        }
        assert(fill(before, x as int, y as int, i - x) =~~= fill(
            before,
            x as int,
            y as int,
            count as int,
        ));
    } else {
        assert(before =~~= fill(before, x as int, y as int, count as int));
    }
}

proof fn lemma_digits_from(d: Seq<char>, i: int, j: int)
    requires
        0 <= i <= j <= d.len(),
        forall|k: int| i <= k < j ==> is_digit(#[trigger] d[k]),
        j == d.len() || !is_digit(d[j]),
    ensures
        digits_from(d, i) == j - i,
    decreases j - i,
{
    if i < j {
        lemma_digits_from(d, i + 1, j);
    }
}

proof fn lemma_strip_bangs(s: Seq<char>, n: int)
    requires
        0 <= n <= s.len(),
        forall|k: int| n <= k < s.len() ==> #[trigger] s[k] == '!',
        n == 0 || s[n - 1] != '!',
    ensures
        strip_bangs(s) == s.take(n),
    decreases s.len() - n,
{
    if n < s.len() {
        assert(s.drop_last().take(n) =~= s.take(n));
        lemma_strip_bangs(s.drop_last(), n);
    } else {
        assert(s.take(n) =~= s);
    }
}

/// The text `d` with trailing '!' characters and surrounding whitespace
/// removed.
fn data_text(d: &Vec<char>) -> (r: Vec<char>)
    ensures
        r@ == trim(strip_bangs(d@)),
{
    let mut n = d.len();
    while n > 0 && d[n - 1] == '!'
        invariant
            n <= d@.len(),
            forall|k: int| n <= k < d@.len() ==> #[trigger] d@[k] == '!',
        decreases n,
    {
        n -= 1;
    }
    proof {
        lemma_strip_bangs(d@, n as int);
    }
    let head = slice_of(d, 0, n);
    assert(head@ =~= d@.take(n as int));
    trimmed(&head)
}

/// Reads the cell text into the pattern's cells.
fn parse_pattern_data(text: &Vec<char>, pattern: &mut RlePattern) -> (r: Result<(), RleError>)
    requires
        old(pattern)@.has_shape(),
    ensures
        final(pattern)@.name == old(pattern)@.name,
        final(pattern)@.comment == old(pattern)@.comment,
        final(pattern)@.author == old(pattern)@.author,
        final(pattern)@.width == old(pattern)@.width,
        final(pattern)@.height == old(pattern)@.height,
        final(pattern)@.rule == old(pattern)@.rule,
        match run_data(trim(strip_bangs(text@)), 0, 0, 0, old(pattern)@.data) {
            Err(m) => r matches Err(e) && e@ == RleFailure::Parse(m),
            Ok(cells) => r is Ok && final(pattern)@.data == cells && final(pattern)@.has_shape(),
        },
{
    let d = data_text(text);
    let n = d.len();
    let ghost whole = run_data(d@, 0, 0, 0, old(pattern)@.data);
    let ghost mut gx: int = 0;
    let ghost mut gy: int = 0;
    let mut x: usize = 0;
    let mut y: usize = 0;
    let mut i: usize = 0;
    while i < n
        invariant
            n == d@.len(),
            d@ == trim(strip_bangs(text@)),
            i <= n,
            whole == run_data(d@, 0, 0, 0, old(pattern)@.data),
            whole == run_data(d@, i as int, gx, gy, pattern@.data),
            gx >= 0,
            gy >= 0,
            x == capped(gx),
            y == capped(gy),
            pattern@.has_shape(),
            pattern@.name == old(pattern)@.name,
            pattern@.comment == old(pattern)@.comment,
            pattern@.author == old(pattern)@.author,
            pattern@.width == old(pattern)@.width,
            pattern@.height == old(pattern)@.height,
            pattern@.rule == old(pattern)@.rule,
        decreases n - i,
    {
        let c = d[i];
        if '0' <= c && c <= '9' {
            let mut j: usize = i + 1;
            while j < n && '0' <= d[j] && d[j] <= '9'
                invariant
                    n == d@.len(),
                    i < j <= n,
                    forall|k: int| i <= k < j ==> is_digit(#[trigger] d@[k]),
                decreases n - j,
            {
                j += 1;
            }
            proof {
                lemma_digits_from(d@, i as int, j as int);
            }
            let digits = slice_of(&d, i, j);
            proof {
                assert(all_digits(digits@));
                assert(without_plus(digits@) == digits@);
            }
            let count = match parse_number(&digits) {
                Some(v) => v,
                None => {
                    assert(digits@.len() > 0);
                    assert(decimal_value(digits@) > usize::MAX);
                    return Err(RleError::ParseError(message("Invalid number: ", &digits)));
                },
            };
            if j >= n {
                return Err(
                    RleError::ParseError(String::from_str("Number not followed by character")),
                );
            }
            let t = d[j];
            assert(count == decimal_value(digits@));
            if t == 'b' {
                x = x.saturating_add(count);
                proof {
                    gx = gx + count;
                }
            } else if t == 'o' {
                proof {
                    lemma_fill_capped(pattern@.data, pattern@.width, gx, gy, count as int);
                }
                fill_cells(&mut pattern.data, pattern.width, x, y, count);
                x = x.saturating_add(count);
                proof {
                    gx = gx + count;
                }
            } else if t == '$' {
                y = y.saturating_add(count);
                x = 0;
                proof {
                    gy = gy + count;
                    gx = 0;
                }
            } else {
                let tail = vec![t];
                assert(tail@ =~= seq![t]);
                return Err(RleError::ParseError(message("Invalid character after number: ", &tail)));
            }
            i = j + 1;
        } else if c == 'b' {
            x = x.saturating_add(1);
            proof {
                gx = gx + 1;
            }
            i += 1;
        } else if c == 'o' {
            proof {
                lemma_fill_capped(pattern@.data, pattern@.width, gx, gy, 1);
            }
            fill_cells(&mut pattern.data, pattern.width, x, y, 1);
            x = x.saturating_add(1);
            proof {
                gx = gx + 1;
            }
            i += 1;
        } else if c == '$' {
            y = y.saturating_add(1);
            x = 0;
            proof {
                gy = gy + 1;
                gx = 0;
            }
            i += 1;
        } else if c == '!' {
            return Ok(());
        } else if c == ' ' || c == '\t' || c == '\n' || c == '\r' {
            i += 1;
        } else {
            let tail = vec![c];
            assert(tail@ =~= seq![c]);
            return Err(RleError::ParseError(message("Invalid character: ", &tail)));
        }
    }
    Ok(())
}

/// What an optional header line holds.
pub open spec fn header_view(h: Option<Vec<char>>) -> Option<Seq<char>> {
    match h {
        Some(v) => Some(v@),
        None => None,
    }
}

/// Reads an RLE text: comment lines, a header line giving the size and
/// rule, and the run-length encoded cells.
pub fn import_from_rle_string(rle_data: &str) -> (r: Result<RlePattern, RleError>)
    ensures
        match r {
            Ok(p) => import_result(rle_data@) == Ok::<RleView, RleFailure>(p@) && p@.has_shape(),
            Err(e) => import_result(rle_data@) == Err::<RleView, RleFailure>(e@),
        },
{
    let chars = chars_of(rle_data);
    let lines = split(&chars, '\n');
    let ghost lv = split_on(rle_data@, '\n');
    let mut pattern = RlePattern::new(String::from_str("Imported Pattern"), 0, 0);
    let mut header: Option<Vec<char>> = None;
    let mut body: Vec<char> = Vec::new();
    let tag_x_space = chars_of("x =");
    let tag_x = chars_of("x=");
    let mut k: usize = 0;
    assert(pattern@.data =~= blank(0, 0));
    while k < lines.len()
        invariant
            lv == split_on(rle_data@, '\n'),
            lines@.len() == lv.len(),
            forall|i: int| 0 <= i < lines@.len() ==> (#[trigger] lines@[i])@ == lv[i],
            tag_x_space@ == "x ="@,
            tag_x@ == "x="@,
            k <= lv.len(),
            scan_lines(lv.take(k as int)) == (Scan {
                name: pattern@.name,
                comment: pattern@.comment,
                author: pattern@.author,
                header: header_view(header),
                body: body@,
            }),
            pattern@.width == 0,
            pattern@.height == 0,
            pattern@.rule == life_rule(),
            pattern@.data == blank(0, 0),
        decreases lv.len() - k,
    {
        assert(lv.take(k + 1).drop_last() =~= lv.take(k as int));
        assert(lv.take(k + 1).last() == lines@[k as int]@);
        let mut line = trimmed(&lines[k]);
        if line.len() == 0 {
        } else if line[0] == '#' {
            parse_comment_line(&line, &mut pattern);
        } else if has_prefix(&line, &tag_x_space) || has_prefix(&line, &tag_x) {
            header = Some(line);
        } else {
            body.append(&mut line);
        }
        k += 1;
    }
    assert(lv.take(k as int) =~= lv);
    match header {
        None => Err(
            RleError::InvalidFormat(String::from_str("Missing header line (x = ..., y = ...)")),
        ),
        Some(h) => {
            match parse_header_line(&h, &mut pattern) {
                Err(e) => {
                    return Err(e);
                },
                Ok(()) => {},
            }
            match parse_pattern_data(&body, &mut pattern) {
                Err(e) => Err(e),
                Ok(()) => Ok(pattern),
            }
        },
    }
}

} // verus!
