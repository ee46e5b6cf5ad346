//! Scan-line rasterisation of a closed quadratic spline into a grid of cells.
//!
//! Each grid row is sampled along one horizontal line. The places where the
//! spline crosses that line, ordered from left to right, arrive here as
//! `Crossing`s: the grid column of the crossing and the direction in which
//! the curve passes the line. A running winding number is kept from left to
//! right, and the columns between two consecutive crossings are filled while
//! the winding number before the second of them is positive.
use vstd::prelude::*;

verus! {

/// Width of the window, in multiples of `WINDOW_FACTOR`.
pub const WIDTH_FACTOR: i32 = 4;

/// Height of the window, in multiples of `WINDOW_FACTOR`.
pub const HEIGHT_FACTOR: i32 = 3;

/// Pixels per unit of the window's aspect ratio.
pub const WINDOW_FACTOR: i32 = 200;

/// Window width in pixels.
pub const WINDOW_WIDTH: i32 = WINDOW_FACTOR * WIDTH_FACTOR;

/// Window height in pixels.
pub const WINDOW_HEIGHT: i32 = WINDOW_FACTOR * HEIGHT_FACTOR;

/// Cells per unit of the window's aspect ratio.
pub const GRID_FACTOR: i32 = 60;

/// Number of grid columns.
pub const GRID_WIDTH: i32 = WIDTH_FACTOR * GRID_FACTOR;

/// Number of grid rows.
pub const GRID_HEIGHT: i32 = HEIGHT_FACTOR * GRID_FACTOR;

/// Width of one cell in pixels: `WINDOW_WIDTH / GRID_WIDTH`.
pub const CELL_WIDTH: i32 = 3;

/// Height of one cell in pixels: `WINDOW_HEIGHT / GRID_HEIGHT`.
pub const CELL_HEIGHT: i32 = 3;

/// How the curve passes a scan line at a crossing.
#[derive(Clone, Copy, Debug, PartialEq, Eq, Structural)]
pub enum Direction {
    /// The curve's height decreases there: the winding number goes up by one.
    Up,
    /// The curve's height increases there: the winding number goes down by one.
    Down,
    /// The curve touches the line without a direction: nothing changes.
    Flat,
}

/// One crossing of the curve with a scan line.
#[derive(Clone, Copy, Debug, PartialEq, Eq, Structural)]
pub struct Crossing {
    /// Grid column in which the crossing lies.
    pub col: usize,
    /// How the curve passes the line.
    pub direction: Direction,
}

/// The change of the winding number at a crossing.
pub open spec fn winding_step(d: Direction) -> int {
    match d {
        Direction::Up => 1,
        Direction::Down => -1,
        Direction::Flat => 0,
    }
}

/// The winding number just before crossing `i` (the sum of the steps of the
/// crossings before it).
pub open spec fn winding_before(cs: Seq<Crossing>, i: int) -> int
    decreases i,
{
    if i <= 0 {
        0
    } else {
        winding_before(cs, i - 1) + winding_step(cs[i - 1].direction)
    }
}

/// Column `j` lies in the span from crossing `i - 1` to crossing `i`, and that
/// span is inside the curve (the winding number before crossing `i` is positive).
pub open spec fn span_covers(cs: Seq<Crossing>, i: int, j: int) -> bool {
    &&& 0 < i < cs.len()
    &&& winding_before(cs, i) > 0
    &&& cs[i - 1].col <= j <= cs[i].col
}

/// Column `j` lies in one of the spans that end at a crossing before `n`.
pub open spec fn covered_before(cs: Seq<Crossing>, n: int, j: int) -> bool {
    exists|i: int| i < n && #[trigger] span_covers(cs, i, j)
}

/// Column `j` is filled by the crossings `cs`.
pub open spec fn covered(cs: Seq<Crossing>, j: int) -> bool {
    covered_before(cs, cs.len() as int, j)
}

/// If the span ending at crossing `i` gets filled, it ends inside a row of
/// `width` cells.
pub open spec fn span_ends_inside(cs: Seq<Crossing>, i: int, width: int) -> bool {
    0 < i < cs.len() && winding_before(cs, i) > 0 && cs[i - 1].col <= cs[i].col ==> cs[i].col
        < width
}

/// Every span that gets filled ends inside a row of `width` cells.
pub open spec fn spans_fit(cs: Seq<Crossing>, width: int) -> bool {
    forall|i: int| #[trigger] span_ends_inside(cs, i, width)
}

/// The winding number never leaves the range of the number of crossings seen.
pub proof fn lemma_winding_bounded(cs: Seq<Crossing>, i: int)
    requires
        0 <= i <= cs.len(),
    ensures
        -i <= winding_before(cs, i) <= i,
    decreases i,
{
    if i > 0 {
        lemma_winding_bounded(cs, i - 1);
    }
}

/// Taking one more crossing into account adds exactly the span that ends there.
proof fn lemma_covered_step(cs: Seq<Crossing>, i: int, k: int)
    ensures
        covered_before(cs, i + 1, k) == (covered_before(cs, i, k) || span_covers(cs, i, k)),
{
    if covered_before(cs, i + 1, k) && !span_covers(cs, i, k) {
        let w = choose|w: int| w < i + 1 && #[trigger] span_covers(cs, w, k);
        assert(w < i);
    }
    if covered_before(cs, i, k) {
        let w = choose|w: int| w < i && #[trigger] span_covers(cs, w, k);
        assert(w < i + 1 && span_covers(cs, w, k));
    }
    if span_covers(cs, i, k) {
        assert(i < i + 1 && span_covers(cs, i, k));
    }
}

/// Sets the cells `from..=to` of `row`; nothing when `from > to`.
fn fill_span(row: &mut Vec<bool>, from: usize, to: usize)
    requires
        from <= to ==> to < old(row).len(),
    ensures
        final(row).len() == old(row).len(),
        forall|k: int|
            0 <= k < final(row).len() ==> #[trigger] final(row)@[k] == (old(row)@[k] || (from <= k
                <= to)),
{
    let ghost before = row@;
    let mut j = from;
    while j <= to
        invariant
            from <= j,
            from <= to ==> to < row.len() && j <= to + 1,
            from > to ==> j == from,
            row.len() == before.len(),
            forall|k: int|
                0 <= k < row.len() ==> #[trigger] row@[k] == (before[k] || (from <= k < j)),
        decreases to + 1 - j,
    {
        row.set(j, true);
        j = j + 1;
    }
}

/// Fills the cells of `row` that lie in a span inside the curve; the other
/// cells keep their value.
pub fn fill_row(row: &mut Vec<bool>, crossings: &Vec<Crossing>)
    requires
        spans_fit(crossings@, old(row).len() as int),
        crossings.len() <= i32::MAX,
    ensures
        final(row).len() == old(row).len(),
        forall|j: int|
            0 <= j < final(row).len() ==> #[trigger] final(row)@[j] == (old(row)@[j] || covered(
                crossings@,
                j,
            )),
{
    let ghost cs = crossings@;
    let ghost start = row@;
    let mut winding: i32 = 0;
    let n = crossings.len();
    let mut i: usize = 0;
    while i < n
        invariant
            n == cs.len(),
            cs == crossings@,
            n <= i32::MAX,
            0 <= i <= n,
            spans_fit(cs, start.len() as int),
            row.len() == start.len(),
            winding == winding_before(cs, i as int),
            forall|j: int|
                0 <= j < row.len() ==> #[trigger] row@[j] == (start[j] || covered_before(
                    cs,
                    i as int,
                    j,
                )),
        decreases n - i,
    {
        let ghost before = row@;
        if winding > 0 && i > 0 {
            let col1 = crossings[i - 1].col;
            let col2 = crossings[i].col;
            assert(span_ends_inside(cs, i as int, start.len() as int));
            fill_span(row, col1, col2);
        }
        assert forall|k: int| 0 <= k < row.len() implies #[trigger] row@[k] == (start[k]
            || covered_before(cs, i + 1, k)) by {
            lemma_covered_step(cs, i as int, k);
        }
        proof {
            lemma_winding_bounded(cs, i + 1);
        }
        match crossings[i].direction {
            Direction::Up => {
                winding = winding + 1;
            },
            Direction::Down => {
                winding = winding - 1;
            },
            Direction::Flat => {},
        }
        i = i + 1;
    }
}

/// Whether every span that gets filled ends inside a row of `width` cells,
/// the condition under which `fill_row` can fill them.
pub fn spans_fit_in(crossings: &Vec<Crossing>, width: usize) -> (ok: bool)
    requires
        crossings.len() <= i32::MAX,
    ensures
        ok == spans_fit(crossings@, width as int),
{
    let ghost cs = crossings@;
    let n = crossings.len();
    let mut winding: i32 = 0;
    let mut i: usize = 0;
    while i < n
        invariant
            n == cs.len(),
            cs == crossings@,
            n <= i32::MAX,
            0 <= i <= n,
            winding == winding_before(cs, i as int),
            forall|k: int| k < i ==> #[trigger] span_ends_inside(cs, k, width as int),
        decreases n - i,
    {
        if winding > 0 && i > 0 {
            if crossings[i - 1].col <= crossings[i].col && crossings[i].col >= width {
                assert(!span_ends_inside(cs, i as int, width as int));
                return false;
            }
        }
        assert(span_ends_inside(cs, i as int, width as int));
        proof {
            lemma_winding_bounded(cs, i + 1);
        }
        match crossings[i].direction {
            Direction::Up => {
                winding = winding + 1;
            },
            Direction::Down => {
                winding = winding - 1;
            },
            Direction::Flat => {},
        }
        i = i + 1;
    }
    true
}

/// The value a cell has after a row is rendered: inside the grid's width only
/// the spans count; beyond it the cell keeps its value unless a span reaches it.
pub open spec fn rendered_cell(old_cell: bool, cs: Seq<Crossing>, c: int) -> bool {
    (c >= GRID_WIDTH && old_cell) || covered(cs, c)
}

/// Clears the first `GRID_WIDTH` cells of `row` and fills the spans of `crossings`.
fn render_row(row: &mut Vec<bool>, crossings: &Vec<Crossing>)
    requires
        old(row).len() >= GRID_WIDTH,
        spans_fit(crossings@, old(row).len() as int),
        crossings.len() <= i32::MAX,
    ensures
        final(row).len() == old(row).len(),
        forall|c: int|
            0 <= c < final(row).len() ==> #[trigger] final(row)@[c] == rendered_cell(
                old(row)@[c],
                crossings@,
                c,
            ),
{
    let ghost start = row@;
    let width = GRID_WIDTH as usize;
    let mut c: usize = 0;
    while c < width
        invariant
            width == GRID_WIDTH,
            c <= width,
            row.len() == start.len(),
            start.len() >= width,
            forall|k: int|
                0 <= k < row.len() ==> #[trigger] row@[k] == (if k < c {
                    false
                } else {
                    start[k]
                }),
        decreases width - c,
    {
        row.set(c, false);
        c = c + 1;
    }
    fill_row(row, crossings);
}

/// The grid has `GRID_HEIGHT` rows of at least `GRID_WIDTH` cells.
pub open spec fn grid_covers_window(grid: Seq<Vec<bool>>) -> bool {
    &&& grid.len() >= GRID_HEIGHT
    &&& forall|r: int| 0 <= r < GRID_HEIGHT ==> #[trigger] grid[r].len() >= GRID_WIDTH
}

/// Every row's crossings can be rendered into the matching row of `grid`.
pub open spec fn crossings_fit(crossings: Seq<Vec<Crossing>>, grid: Seq<Vec<bool>>) -> bool {
    &&& crossings.len() == GRID_HEIGHT
    &&& forall|r: int|
        0 <= r < GRID_HEIGHT ==> spans_fit(#[trigger] crossings[r]@, grid[r].len() as int)
            && crossings[r].len() <= i32::MAX
}

/// Whether the grid has `GRID_HEIGHT` rows of at least `GRID_WIDTH` cells.
pub fn covers_window(grid: &Vec<Vec<bool>>) -> (ok: bool)
    ensures
        ok == grid_covers_window(grid@),
{
    let height = GRID_HEIGHT as usize;
    if grid.len() < height {
        return false;
    }
    let mut r: usize = 0;
    while r < height
        invariant
            height == GRID_HEIGHT,
            grid.len() >= height,
            r <= height,
            forall|q: int| 0 <= q < r ==> #[trigger] grid@[q].len() >= GRID_WIDTH,
        decreases height - r,
    {
        if grid[r].len() < GRID_WIDTH as usize {
            return false;
        }
        r = r + 1;
    }
    true
}

/// Renders the crossings of each row into the grid: the cells of the first
/// `GRID_HEIGHT` rows are cleared up to `GRID_WIDTH` and the spans inside the
/// curve are filled; rows below are left as they were.
pub fn render_splines_into_grid(crossings: &Vec<Vec<Crossing>>, grid: &mut Vec<Vec<bool>>)
    requires
        grid_covers_window(old(grid)@),
        crossings_fit(crossings@, old(grid)@),
    ensures
        final(grid).len() == old(grid).len(),
        forall|r: int|
            0 <= r < final(grid).len() ==> #[trigger] final(grid)@[r].len() == old(grid)@[r].len(),
        forall|r: int, c: int|
            0 <= r < GRID_HEIGHT && 0 <= c < final(grid)@[r].len() ==> #[trigger] final(grid)@[r]@[c]
                == rendered_cell(old(grid)@[r]@[c], crossings@[r]@, c),
        forall|r: int| GRID_HEIGHT <= r < final(grid).len() ==> #[trigger] final(grid)@[r] == old(
            grid,
        )@[r],
{
    let ghost start = grid@;
    let height = GRID_HEIGHT as usize;
    let mut r: usize = 0;
    while r < height
        invariant
            height == GRID_HEIGHT,
            r <= height,
            grid.len() == start.len(),
            grid_covers_window(start),
            crossings_fit(crossings@, start),
            forall|q: int| 0 <= q < grid.len() ==> #[trigger] grid@[q].len() == start[q].len(),
            forall|q: int, c: int|
                0 <= q < r && 0 <= c < grid@[q].len() ==> #[trigger] grid@[q]@[c] == rendered_cell(
                    start[q]@[c],
                    crossings@[q]@,
                    c,
                ),
            forall|q: int| r <= q < grid.len() ==> #[trigger] grid@[q] == start[q],
        decreases height - r,
    {
        let mut row: Vec<bool> = Vec::new();
        grid.set_and_swap(r, &mut row);
        assert(row == start[r as int]);
        assert(spans_fit(crossings@[r as int]@, start[r as int].len() as int));
        render_row(&mut row, &crossings[r]);
        grid.set_and_swap(r, &mut row);
        r = r + 1;
    }
}

/// A fresh grid: `GRID_HEIGHT` rows of `GRID_WIDTH` empty cells.
pub fn new_grid() -> (grid: Vec<Vec<bool>>)
    ensures
        grid.len() == GRID_HEIGHT,
        forall|r: int| 0 <= r < GRID_HEIGHT ==> #[trigger] grid@[r].len() == GRID_WIDTH,
        forall|r: int, c: int|
            0 <= r < GRID_HEIGHT && 0 <= c < GRID_WIDTH ==> !#[trigger] grid@[r]@[c],
{
    let mut grid: Vec<Vec<bool>> = Vec::new();
    let mut r: i32 = 0;
    while r < GRID_HEIGHT
        invariant
            0 <= r <= GRID_HEIGHT,
            grid.len() == r,
            forall|q: int| 0 <= q < r ==> #[trigger] grid@[q].len() == GRID_WIDTH,
            forall|q: int, c: int| 0 <= q < r && 0 <= c < GRID_WIDTH ==> !#[trigger] grid@[q]@[c],
        decreases GRID_HEIGHT - r,
    {
        let mut temp: Vec<bool> = Vec::new();
        let mut c: i32 = 0;
        while c < GRID_WIDTH
            invariant
                0 <= c <= GRID_WIDTH,
                temp.len() == c,
                forall|k: int| 0 <= k < c ==> !#[trigger] temp@[k],
            decreases GRID_WIDTH - c,
        {
            temp.push(false);
            c = c + 1;
        }
        grid.push(temp);
        r = r + 1;
    }
    grid
}

/// The pixel position of the top-left corner of cell `(x, y)`.
pub open spec fn cell_origin(x: int, y: int) -> (i32, i32) {
    ((x * CELL_WIDTH) as i32, (y * CELL_HEIGHT) as i32)
}

/// The pixel origins of the filled cells among the first `n` cells of row `y`,
/// from left to right.
pub open spec fn row_cells(row: Seq<bool>, y: int, n: int) -> Seq<(i32, i32)>
    decreases n,
{
    if n <= 0 {
        Seq::empty()
    } else if row[n - 1] {
        row_cells(row, y, n - 1).push(cell_origin(n - 1, y))
    } else {
        row_cells(row, y, n - 1)
    }
}

/// The pixel origins of the filled cells inside the window in the first `m`
/// rows, in row-major order.
pub open spec fn grid_cells(grid: Seq<Vec<bool>>, m: int) -> Seq<(i32, i32)>
    decreases m,
{
    if m <= 0 {
        Seq::empty()
    } else {
        grid_cells(grid, m - 1) + row_cells(grid[m - 1]@, m - 1, GRID_WIDTH as int)
    }
}

/// The pixel origins of the filled cells inside the window, in row-major
/// order: the cells that get drawn.
pub fn filled_cells(grid: &Vec<Vec<bool>>) -> (res: Vec<(i32, i32)>)
    requires
        grid_covers_window(grid@),
    ensures
        res@ == grid_cells(grid@, GRID_HEIGHT as int),
{
    let mut res: Vec<(i32, i32)> = Vec::new();
    let mut y: i32 = 0;
    while y < GRID_HEIGHT
        invariant
            0 <= y <= GRID_HEIGHT,
            grid_covers_window(grid@),
            res@ == grid_cells(grid@, y as int),
        decreases GRID_HEIGHT - y,
    {
        let ghost done = res@;
        assert(grid@[y as int].len() >= GRID_WIDTH);
        let mut x: i32 = 0;
        while x < GRID_WIDTH
            invariant
                0 <= y < GRID_HEIGHT,
                0 <= x <= GRID_WIDTH,
                grid_covers_window(grid@),
                grid@[y as int].len() >= GRID_WIDTH,
                done == grid_cells(grid@, y as int),
                res@ == done + row_cells(grid@[y as int]@, y as int, x as int),
            decreases GRID_WIDTH - x,
        {
            if grid[y as usize][x as usize] {
                res.push((x * CELL_WIDTH, y * CELL_HEIGHT));
                assert(res@ =~= done + row_cells(grid@[y as int]@, y as int, x + 1));
            }
            x = x + 1;
        }
        y = y + 1;
    }
    res
}

/// The quadratic segments of a closed spline through `n` control points:
/// segment `k` runs from point `2k` through point `2k + 1` to point
/// `(2k + 2) % n`, for every `k` with `2k + 2 <= n`.
pub fn spline_segments(n: usize) -> (res: Vec<(usize, usize, usize)>)
    ensures
        res.len() == n / 2,
        forall|k: int|
            0 <= k < res.len() ==> #[trigger] res@[k] == ((2 * k) as usize, (2 * k + 1) as usize, ((2
                * k + 2) % (n as int)) as usize),
{
    let mut res: Vec<(usize, usize, usize)> = Vec::new();
    let mut i: usize = 0;
    while n - i >= 2
        invariant
            i <= n,
            i % 2 == 0,
            res.len() == i / 2,
            forall|k: int|
                0 <= k < res.len() ==> #[trigger] res@[k] == ((2 * k) as usize, (2 * k + 1) as usize, ((
                2 * k + 2) % (n as int)) as usize),
        decreases n - i,
    {
        res.push((i, i + 1, (i + 2) % n));
        i = i + 2;
    }
    res
}

/// With fewer than two crossings no span exists and nothing is filled.
pub proof fn lemma_few_crossings_fill_nothing(cs: Seq<Crossing>, j: int)
    requires
        cs.len() < 2,
    ensures
        !covered(cs, j),
{
    if covered(cs, j) {
        let i = choose|i: int| i < cs.len() && #[trigger] span_covers(cs, i, j);
    }
}

/// A line that enters the curve at one column and leaves it at a later one
/// fills exactly the columns from the first to the second.
pub proof fn lemma_enter_leave_fills_between(c1: usize, c2: usize, j: int)
    ensures
        covered(
            seq![
                Crossing { col: c1, direction: Direction::Up },
                Crossing { col: c2, direction: Direction::Down },
            ],
            j,
        ) <==> c1 <= j <= c2,
{
    let cs = seq![
        Crossing { col: c1, direction: Direction::Up },
        Crossing { col: c2, direction: Direction::Down },
    ];
    assert(cs[0].direction == Direction::Up);
    assert(winding_before(cs, 0) == 0);
    assert(winding_before(cs, 1) == 1);
    if c1 <= j <= c2 {
        assert(span_covers(cs, 1, j));
    }
    if covered(cs, j) {
        let i = choose|i: int| i < cs.len() && #[trigger] span_covers(cs, i, j);
        assert(i == 1);
    }
}

/// Where the winding number is never positive (the line runs outside the
/// curve), nothing is filled.
pub proof fn lemma_outside_fills_nothing(cs: Seq<Crossing>, j: int)
    requires
        forall|i: int| 0 <= i < cs.len() ==> #[trigger] winding_before(cs, i) <= 0,
    ensures
        !covered(cs, j),
{
    if covered(cs, j) {
        let i = choose|i: int| i < cs.len() && #[trigger] span_covers(cs, i, j);
        assert(winding_before(cs, i) <= 0);
    }
}

/// Inside the grid's width a rendered cell depends on the crossings alone,
/// not on what the grid held before.
pub proof fn lemma_render_forgets_old_content(a: bool, b: bool, cs: Seq<Crossing>, c: int)
    requires
        0 <= c < GRID_WIDTH,
    ensures
        rendered_cell(a, cs, c) == rendered_cell(b, cs, c),
        rendered_cell(a, cs, c) == covered(cs, c),
{
}

/// The cells drawn from the first `n` cells of row `y` are exactly the origins
/// of those that are filled.
pub proof fn lemma_row_cells_exact(row: Seq<bool>, y: int, n: int, p: (i32, i32))
    requires
        0 <= n <= row.len(),
    ensures
        row_cells(row, y, n).contains(p) <==> exists|x: int|
            0 <= x < n && #[trigger] row[x] && p == cell_origin(x, y),
    decreases n,
{
    if n > 0 {
        lemma_row_cells_exact(row, y, n - 1, p);
        let prev = row_cells(row, y, n - 1);
        if row[n - 1] {
            let cur = row_cells(row, y, n);
            assert(cur == prev.push(cell_origin(n - 1, y)));
            if cur.contains(p) {
                let k = choose|k: int| 0 <= k < cur.len() && cur[k] == p;
                if k < prev.len() {
                    assert(prev[k] == p);
                    assert(prev.contains(p));
                } else {
                    assert(row[n - 1] && p == cell_origin(n - 1, y));
                }
            }
            if exists|x: int| 0 <= x < n && #[trigger] row[x] && p == cell_origin(x, y) {
                let x = choose|x: int| 0 <= x < n && #[trigger] row[x] && p == cell_origin(x, y);
                if x < n - 1 {
                    assert(prev.contains(p));
                    let k = choose|k: int| 0 <= k < prev.len() && prev[k] == p;
                    assert(row_cells(row, y, n)[k] == p);
                } else {
                    assert(row_cells(row, y, n)[prev.len() as int] == p);
                }
            }
        } else {
            if exists|x: int| 0 <= x < n && #[trigger] row[x] && p == cell_origin(x, y) {
                let x = choose|x: int| 0 <= x < n && #[trigger] row[x] && p == cell_origin(x, y);
                assert(x < n - 1);
            }
        }
    }
}

/// The cells drawn from the first `m` rows are exactly the origins of the
/// filled cells inside the window in those rows.
pub proof fn lemma_grid_cells_exact(grid: Seq<Vec<bool>>, m: int, p: (i32, i32))
    requires
        grid_covers_window(grid),
        0 <= m <= GRID_HEIGHT,
    ensures
        grid_cells(grid, m).contains(p) <==> exists|x: int, y: int|
            0 <= x < GRID_WIDTH && 0 <= y < m && #[trigger] grid[y]@[x] && p == cell_origin(x, y),
    decreases m,
{
    if m > 0 {
        lemma_grid_cells_exact(grid, m - 1, p);
        let row = grid[m - 1]@;
        assert(grid[m - 1].len() >= GRID_WIDTH);
        lemma_row_cells_exact(row, m - 1, GRID_WIDTH as int, p);
        let a = grid_cells(grid, m - 1);
        let b = row_cells(row, m - 1, GRID_WIDTH as int);
        assert(grid_cells(grid, m) == a + b);
        if (a + b).contains(p) {
            let k = choose|k: int| 0 <= k < (a + b).len() && (a + b)[k] == p;
            if k < a.len() {
                assert(a[k] == p);
                assert(a.contains(p));
            } else {
                assert(b[k - a.len()] == p);
                assert(b.contains(p));
                let x = choose|x: int| 0 <= x < GRID_WIDTH && #[trigger] row[x] && p == cell_origin(x, m - 1);
                assert(grid[m - 1]@[x]);
            }
        }
        if exists|x: int, y: int|
            0 <= x < GRID_WIDTH && 0 <= y < m && #[trigger] grid[y]@[x] && p == cell_origin(x, y) {
            let (x, y) = choose|x: int, y: int|
                0 <= x < GRID_WIDTH && 0 <= y < m && #[trigger] grid[y]@[x] && p == cell_origin(x, y);
            if y < m - 1 {
                assert(a.contains(p));
                let k = choose|k: int| 0 <= k < a.len() && a[k] == p;
                assert((a + b)[k] == p);
            } else {
                assert(row[x]);
                assert(b.contains(p));
                let k = choose|k: int| 0 <= k < b.len() && b[k] == p;
                assert((a + b)[a.len() + k] == p);
            }
        }
    }
}

/// Every segment of a spline with `n` points names three of its points.
pub proof fn lemma_segments_in_range(n: int, k: int)
    requires
        0 <= k < n / 2,
    ensures
        2 * k + 1 < n,
        0 <= (2 * k + 2) % n < n,
{
}

/// Each cell measures the window's size divided by the grid's.
pub proof fn lemma_cell_size()
    ensures
        CELL_WIDTH == WINDOW_WIDTH / GRID_WIDTH,
        CELL_HEIGHT == WINDOW_HEIGHT / GRID_HEIGHT,
{
}

/// The winding number starts at 0 and each crossing changes it by exactly
/// its step: +1 going up, -1 going down, 0 when flat. It is not clamped, so it
/// goes negative after a crossing downwards.
pub proof fn lemma_winding_recurrence(cs: Seq<Crossing>, i: int)
    requires
        0 <= i < cs.len(),
    ensures
        winding_before(cs, 0) == 0,
        cs[i].direction == Direction::Up ==> winding_before(cs, i + 1) == winding_before(cs, i) + 1,
        cs[i].direction == Direction::Down ==> winding_before(cs, i + 1) == winding_before(cs, i)
            - 1,
        cs[i].direction == Direction::Flat ==> winding_before(cs, i + 1) == winding_before(cs, i),
{
}

/// How many of the crossings before crossing `i` pass the line in direction `d`.
pub open spec fn count_direction(cs: Seq<Crossing>, i: int, d: Direction) -> nat {
    cs.take(i).filter(|c: Crossing| c.direction == d).len()
}

/// The winding number before crossing `i` is the number of upward crossings
/// before it less the number of downward ones.
pub proof fn lemma_winding_counts(cs: Seq<Crossing>, i: int)
    requires
        0 <= i <= cs.len(),
    ensures
        winding_before(cs, i) == count_direction(cs, i, Direction::Up)
            - count_direction(cs, i, Direction::Down),
    decreases i,
{
    let up = |c: Crossing| c.direction == Direction::Up;
    let down = |c: Crossing| c.direction == Direction::Down;
    if i == 0 {
        reveal_with_fuel(Seq::<_>::filter, 1);
        assert(cs.take(0) =~= Seq::<Crossing>::empty());
        assert(cs.take(0).filter(up) =~= Seq::<Crossing>::empty());
        assert(cs.take(0).filter(down) =~= Seq::<Crossing>::empty());
    } else {
        lemma_winding_counts(cs, i - 1);
        let t = cs.take(i);
        assert(t.drop_last() =~= cs.take(i - 1));
        assert(t.last() == cs[i - 1]);
        reveal_with_fuel(Seq::<_>::filter, 1);
    }
}

/// A line through a figure eight whose left lobe runs the other way round:
/// down at `a`, up at `b`, up at `c`, down at `d`. The winding numbers before
/// the crossings are 0, -1, 0, 1, so only the span from `c` to `d` is inside.
pub proof fn lemma_figure_eight(a: usize, b: usize, c: usize, d: usize, j: int)
    ensures
        covered(
            seq![
                Crossing { col: a, direction: Direction::Down },
                Crossing { col: b, direction: Direction::Up },
                Crossing { col: c, direction: Direction::Up },
                Crossing { col: d, direction: Direction::Down },
            ],
            j,
        ) <==> c <= j <= d,
{
    let cs = seq![
        Crossing { col: a, direction: Direction::Down },
        Crossing { col: b, direction: Direction::Up },
        Crossing { col: c, direction: Direction::Up },
        Crossing { col: d, direction: Direction::Down },
    ];
    assert(cs[0].direction == Direction::Down);
    assert(cs[1].direction == Direction::Up);
    assert(cs[2].direction == Direction::Up);
    assert(winding_before(cs, 0) == 0);
    assert(winding_before(cs, 1) == -1);
    assert(winding_before(cs, 2) == 0);
    assert(winding_before(cs, 3) == 1);
    if c <= j <= d {
        assert(span_covers(cs, 3, j));
    }
    if covered(cs, j) {
        let i = choose|i: int| i < cs.len() && #[trigger] span_covers(cs, i, j);
        assert(i == 3);
    }
}

/// A column is filled exactly when it lies between two consecutive crossings
/// and more crossings before the second of them go up than go down.
pub proof fn lemma_covered_means(cs: Seq<Crossing>, j: int)
    ensures
        covered(cs, j) <==> exists|i: int|
            0 < i < cs.len() && cs[i - 1].col <= j <= cs[i].col && #[trigger] count_direction(cs, i, Direction::Up) > count_direction(cs, i, Direction::Down),
{
    if covered(cs, j) {
        let i = choose|i: int| i < cs.len() && #[trigger] span_covers(cs, i, j);
        lemma_winding_counts(cs, i);
    }
    if exists|i: int|
        0 < i < cs.len() && cs[i - 1].col <= j <= cs[i].col && #[trigger] count_direction(cs, i, Direction::Up) > count_direction(cs, i, Direction::Down) {
        let i = choose|i: int|
            0 < i < cs.len() && cs[i - 1].col <= j <= cs[i].col && #[trigger] count_direction(cs, i, Direction::Up) > count_direction(cs, i, Direction::Down);
        lemma_winding_counts(cs, i);
        assert(span_covers(cs, i, j));
    }
}

/// Each drawn origin is the cell's column and row times the cell size.
pub proof fn lemma_cell_origin_is_scaled(x: int, y: int)
    requires
        0 <= x < GRID_WIDTH,
        0 <= y < GRID_HEIGHT,
    ensures
        cell_origin(x, y).0 == x * 3,
        cell_origin(x, y).1 == y * 3,
        cell_origin(x, y).0 == x * CELL_WIDTH,
        cell_origin(x, y).1 == y * CELL_HEIGHT,
{
}

/// After rendering, a cell within the grid's width is filled exactly when it
/// is covered; a cell beyond it keeps its value unless it is covered.
pub proof fn lemma_rendered_cell_means(old_cell: bool, cs: Seq<Crossing>, c: int)
    requires
        c >= 0,
    ensures
        c < 240 ==> (rendered_cell(old_cell, cs, c) <==> covered(cs, c)),
        c >= 240 ==> (rendered_cell(old_cell, cs, c) <==> (old_cell || covered(cs, c))),
{
}

} // verus!
