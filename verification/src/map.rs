//! The grid world: cell identifiers in row-major order, an optional goal cell,
//! and lookups that are defined for every integer coordinate.

use crate::text::is_blank;
use crate::text::row_values;
use crate::text::row_values_of;
use vstd::arithmetic::div_mod::lemma_fundamental_div_mod_converse;
use vstd::prelude::*;
use vstd::string::*;

verus! {

/// Identifier reported for every coordinate outside the grid.
pub const SENTINEL: u8 = 255;

/// Cell value that marks the goal in a map text.
pub const GOAL_MARK: u8 = 9;

/// Mathematical model of a grid world.
pub struct Grid {
    pub width: int,
    pub height: int,
    pub cells: Seq<u8>,
    pub goal: Option<(int, int)>,
}

impl Grid {
    /// `(x, y)` names a cell of the grid.
    pub open spec fn in_bounds(self, x: int, y: int) -> bool {
        0 <= x < self.width && 0 <= y < self.height
    }

    /// Position of `(x, y)` in the row-major cell sequence.
    pub open spec fn flat(self, x: int, y: int) -> int {
        y * self.width + x
    }

    /// The flat index of `(x, y)`, defined exactly for the cells of the grid.
    pub open spec fn index(self, x: int, y: int) -> Option<int> {
        if self.in_bounds(x, y) {
            Some(self.flat(x, y))
        } else {
            None
        }
    }

    /// The identifier at `(x, y)`; the sentinel outside the grid.
    pub open spec fn get(self, x: int, y: int) -> u8 {
        if self.in_bounds(x, y) {
            self.cells[self.flat(x, y)]
        } else {
            SENTINEL
        }
    }

    /// A cell blocks sight and movement when its identifier is not zero.
    /// Everything outside the grid is solid.
    pub open spec fn is_solid(self, x: int, y: int) -> bool {
        self.get(x, y) > 0
    }

    /// The dimensions fit a coordinate, there is one identifier per cell,
    /// and the goal, if any, is a vacant cell of the grid.
    pub open spec fn wf(self) -> bool {
        &&& 0 <= self.width <= i32::MAX
        &&& 0 <= self.height <= i32::MAX
        &&& self.cells.len() == self.width * self.height
        &&& (self.goal matches Some((gx, gy)) ==> self.in_bounds(gx, gy) && self.get(gx, gy) == 0)
    }

    /// No cell of the grid holds the sentinel.
    pub open spec fn sentinel_free(self) -> bool {
        forall|i: int| 0 <= i < self.cells.len() ==> self.cells[i] != SENTINEL
    }
}

/// Inside a well-formed grid the flat index of a cell is a position of the
/// cell sequence, and it determines the cell.
pub proof fn lemma_flat_in_range(g: Grid, x: int, y: int)
    requires
        g.wf(),
        g.in_bounds(x, y),
    ensures
        0 <= y * g.width <= g.flat(x, y) < g.cells.len(),
        g.flat(x, y) / g.width == y,
        g.flat(x, y) % g.width == x,
{
    assert(0 <= y * g.width && (y + 1) * g.width <= g.height * g.width) by (nonlinear_arith)
        requires
            0 <= y < g.height,
            0 <= g.width,
    ;
    assert((y + 1) * g.width == y * g.width + g.width) by (nonlinear_arith);
    assert(g.height * g.width == g.width * g.height) by (nonlinear_arith);
    lemma_fundamental_div_mod_converse(g.flat(x, y), g.width, y, x);
}

/// What a cell value of the text becomes in the grid: the goal mark is
/// stored as a vacant cell.
pub open spec fn stored(v: u8) -> u8 {
    if v == GOAL_MARK {
        0
    } else {
        v
    }
}

/// The cell values of the rows that are not blank, in order.
pub open spec fn grid_rows(rows: Seq<Seq<char>>) -> Seq<Seq<u8>>
    decreases rows.len(),
{
    if rows.len() == 0 {
        Seq::empty()
    } else if is_blank(rows.last()) {
        grid_rows(rows.drop_last())
    } else {
        grid_rows(rows.drop_last()).push(row_values(rows.last()))
    }
}

/// The width that the first row establishes; zero where there is no row.
pub open spec fn width_of(g: Seq<Seq<u8>>) -> int {
    if g.len() == 0 {
        0
    } else {
        g[0].len() as int
    }
}

/// Row `i` of the text is not blank and differs in width from the first
/// row that is not blank.
pub open spec fn mismatch(rows: Seq<Seq<char>>, i: int) -> bool {
    !is_blank(rows[i]) && row_values(rows[i]).len() != width_of(grid_rows(rows))
}

/// No row of the text is a mismatch.
pub open spec fn rectangular(rows: Seq<Seq<char>>) -> bool {
    forall|i: int| 0 <= i < rows.len() ==> !mismatch(rows, i)
}

/// Position of the last occurrence of `v` in `s`.
pub open spec fn last_index_of(s: Seq<u8>, v: u8) -> Option<int>
    decreases s.len(),
{
    if s.len() == 0 {
        None
    } else if s.last() == v {
        Some(s.len() - 1)
    } else {
        last_index_of(s.drop_last(), v)
    }
}

/// The goal that a grid of cell values names: the last goal mark in reading
/// order.
pub open spec fn goal_of(g: Seq<Seq<u8>>) -> Option<(int, int)>
    decreases g.len(),
{
    if g.len() == 0 {
        None
    } else {
        match last_index_of(g.last(), GOAL_MARK) {
            Some(x) => Some((x, g.len() - 1)),
            None => goal_of(g.drop_last()),
        }
    }
}

/// The grid world that rows of cell values describe. Row `y`, column `x` of
/// the values is the cell `(x, y)`.
pub open spec fn grid_of(g: Seq<Seq<u8>>) -> Grid {
    let w = width_of(g);
    Grid {
        width: w,
        height: g.len() as int,
        cells: Seq::new((w * g.len()) as nat, |k: int| stored(g[k / w][k % w])),
        goal: goal_of(g),
    }
}

/// Every row of cell values has the width of the first.
pub open spec fn uniform(g: Seq<Seq<u8>>) -> bool {
    forall|j: int| 0 <= j < g.len() ==> (#[trigger] g[j]).len() == width_of(g)
}

/// The text describes a grid whose dimensions fit a coordinate.
pub open spec fn fits(rows: Seq<Seq<char>>) -> bool {
    &&& grid_rows(rows).len() <= i32::MAX
    &&& forall|j: int|
        0 <= j < grid_rows(rows).len() ==> (#[trigger] grid_rows(rows)[j]).len() <= i32::MAX
}

/// The text has at most `i32::MAX` rows of at most `i32::MAX` characters
/// each.
pub open spec fn small(rows: Seq<Seq<char>>) -> bool {
    &&& rows.len() <= i32::MAX
    &&& forall|i: int| 0 <= i < rows.len() ==> (#[trigger] rows[i]).len() <= i32::MAX
}

/// A grid coordinate as a pair of integers.
pub open spec fn as_point(p: Option<(i32, i32)>) -> Option<(int, int)> {
    match p {
        Some((x, y)) => Some((x as int, y as int)),
        None => None,
    }
}

/// Reading one more row of the text adds its values to the grid unless the
/// row is blank.
pub proof fn lemma_grid_rows_step(rows: Seq<Seq<char>>, i: int)
    requires
        0 <= i < rows.len(),
    ensures
        grid_rows(rows.take(i + 1)) == if is_blank(rows[i]) {
            grid_rows(rows.take(i))
        } else {
            grid_rows(rows.take(i)).push(row_values(rows[i]))
        },
{
    assert(rows.take(i + 1).drop_last() =~= rows.take(i));
    assert(rows.take(i + 1).last() == rows[i]);
}

/// The grid of the first `k` rows of a text is the beginning of the grid of
/// the whole text.
pub proof fn lemma_grid_rows_prefix(rows: Seq<Seq<char>>, k: int)
    requires
        0 <= k <= rows.len(),
    ensures
        grid_rows(rows.take(k)).len() <= grid_rows(rows).len(),
        grid_rows(rows.take(k)).len() <= k,
        forall|j: int|
            0 <= j < grid_rows(rows.take(k)).len() ==> grid_rows(rows.take(k))[j] == grid_rows(
                rows,
            )[j],
    decreases rows.len() - k,
{
    lemma_grid_rows_len(rows.take(k));
    if k == rows.len() {
        assert(rows.take(k) =~= rows);
    } else {
        lemma_grid_rows_step(rows, k);
        lemma_grid_rows_prefix(rows, k + 1);
    }
}

/// A text has at most as many grid rows as rows, and no grid row is empty.
pub proof fn lemma_grid_rows_len(rows: Seq<Seq<char>>)
    ensures
        grid_rows(rows).len() <= rows.len(),
        forall|j: int| 0 <= j < grid_rows(rows).len() ==> (#[trigger] grid_rows(rows)[j]).len() > 0,
    decreases rows.len(),
{
    if rows.len() > 0 {
        lemma_grid_rows_len(rows.drop_last());
    }
}

/// Each grid row is the values of a row of the text that is not blank.
pub proof fn lemma_grid_rows_source(rows: Seq<Seq<char>>, j: int) -> (i: int)
    requires
        0 <= j < grid_rows(rows).len(),
    ensures
        0 <= i < rows.len(),
        grid_rows(rows)[j] == row_values(rows[i]),
        !is_blank(rows[i]),
    decreases rows.len(),
{
    if !is_blank(rows.last()) && j == grid_rows(rows).len() - 1 {
        rows.len() - 1
    } else {
        lemma_grid_rows_source(rows.drop_last(), j)
    }
}

/// In a rectangular text all grid rows have one width.
pub proof fn lemma_rectangular_uniform(rows: Seq<Seq<char>>)
    requires
        rectangular(rows),
    ensures
        uniform(grid_rows(rows)),
{
    let g = grid_rows(rows);
    assert forall|j: int| 0 <= j < g.len() implies (#[trigger] g[j]).len() == width_of(g) by {
        let i = lemma_grid_rows_source(rows, j);
        assert(!mismatch(rows, i));
    }
}

/// Where the last occurrence of a value is.
pub proof fn lemma_last_index_of(s: Seq<u8>, v: u8)
    ensures
        match last_index_of(s, v) {
            Some(i) => 0 <= i < s.len() && s[i] == v && forall|j: int| i < j < s.len() ==> s[j] != v,
            None => forall|j: int| 0 <= j < s.len() ==> s[j] != v,
        },
    decreases s.len(),
{
    if s.len() > 0 && s.last() != v {
        let t = s.drop_last();
        lemma_last_index_of(t, v);
        match last_index_of(t, v) {
            Some(i) => {
                assert forall|j: int| i < j < s.len() implies s[j] != v by {
                    if j < t.len() {
                        assert(t[j] != v);
                    }
                }
            },
            None => {
                assert forall|j: int| 0 <= j < s.len() implies s[j] != v by {
                    if j < t.len() {
                        assert(t[j] != v);
                    }
                }
            },
        }
    }
}

/// The goal of a grid of cell values is the last goal mark in reading order;
/// there is no goal exactly when there is no goal mark.
pub proof fn lemma_goal_of(g: Seq<Seq<u8>>)
    ensures
        match goal_of(g) {
            Some((x, y)) => {
                &&& 0 <= y < g.len()
                &&& 0 <= x < g[y].len()
                &&& g[y][x] == GOAL_MARK
                &&& forall|c: int| x < c < g[y].len() ==> g[y][c] != GOAL_MARK
                &&& forall|r: int, c: int|
                    y < r < g.len() && 0 <= c < g[r].len() ==> g[r][c] != GOAL_MARK
            },
            None => forall|r: int, c: int|
                0 <= r < g.len() && 0 <= c < g[r].len() ==> g[r][c] != GOAL_MARK,
        },
    decreases g.len(),
{
    if g.len() > 0 {
        let top = g.drop_last();
        lemma_last_index_of(g.last(), GOAL_MARK);
        if last_index_of(g.last(), GOAL_MARK) is None {
            lemma_goal_of(top);
            assert(forall|r: int| 0 <= r < top.len() ==> top[r] == g[r]);
            match goal_of(top) {
                Some((x, y)) => {
                    assert forall|r: int, c: int|
                        y < r < g.len() && 0 <= c < g[r].len() implies g[r][c] != GOAL_MARK by {
                        if r < top.len() {
                            assert(top[r][c] != GOAL_MARK);
                        }
                    }
                },
                None => {
                    assert forall|r: int, c: int|
                        0 <= r < g.len() && 0 <= c < g[r].len() implies g[r][c] != GOAL_MARK by {
                        if r < top.len() {
                            assert(top[r][c] != GOAL_MARK);
                        }
                    }
                },
            }
        }
    }
}

/// A cell of the grid holds what the text gives for it, with the goal mark
/// stored as a vacant cell.
pub proof fn lemma_grid_of_cell(g: Seq<Seq<u8>>, x: int, y: int)
    requires
        uniform(g),
        0 <= y < g.len(),
        0 <= x < width_of(g),
    ensures
        grid_of(g).in_bounds(x, y),
        grid_of(g).flat(x, y) < grid_of(g).cells.len(),
        grid_of(g).get(x, y) == stored(g[y][x]),
{
    let w = width_of(g);
    let h = g.len() as int;
    assert(0 <= y * w && (y + 1) * w <= h * w) by (nonlinear_arith)
        requires
            0 <= y < h,
            0 <= w,
    ;
    assert((y + 1) * w == y * w + w) by (nonlinear_arith);
    assert(h * w == w * h) by (nonlinear_arith);
    lemma_fundamental_div_mod_converse(y * w + x, w, y, x);
}

/// Rows of one width describe a well-formed grid.
pub proof fn lemma_grid_of_wf(g: Seq<Seq<u8>>)
    requires
        uniform(g),
        g.len() <= i32::MAX,
        width_of(g) <= i32::MAX,
    ensures
        grid_of(g).wf(),
{
    let w = width_of(g);
    assert(0 <= w * g.len()) by (nonlinear_arith)
        requires
            0 <= w,
    ;
    lemma_goal_of(g);
    if let Some((gx, gy)) = goal_of(g) {
        lemma_grid_of_cell(g, gx, gy);
    }
}

/// A text of at most `i32::MAX` rows, each of at most `i32::MAX`
/// characters, describes a grid whose dimensions fit a coordinate.
pub proof fn lemma_small_text_fits(rows: Seq<Seq<char>>)
    requires
        small(rows),
    ensures
        fits(rows),
{
    lemma_grid_rows_len(rows);
    let g = grid_rows(rows);
    assert forall|j: int| 0 <= j < g.len() implies (#[trigger] g[j]).len() <= i32::MAX by {
        let i = lemma_grid_rows_source(rows, j);
        crate::text::lemma_tokens_len(rows[i], 0);
    }
}

/// A cell of a loaded grid holds what its token denotes, with the goal mark
/// stored as a vacant cell.
pub proof fn lemma_loaded_cell(rows: Seq<Seq<char>>, x: int, y: int)
    requires
        rectangular(rows),
        fits(rows),
        0 <= y < grid_rows(rows).len(),
        0 <= x < grid_rows(rows)[y].len(),
    ensures
        grid_of(grid_rows(rows)).wf(),
        grid_of(grid_rows(rows)).in_bounds(x, y),
        grid_of(grid_rows(rows)).get(x, y) == stored(grid_rows(rows)[y][x]),
{
    lemma_rectangular_uniform(rows);
    lemma_grid_of_wf(grid_rows(rows));
    lemma_grid_of_cell(grid_rows(rows), x, y);
}

/// A goal mark at `(x, y)` leaves the cell vacant and gives the grid a goal;
/// where it is the only goal mark of the text, the goal is `(x, y)`.
pub proof fn lemma_goal_mark(rows: Seq<Seq<char>>, x: int, y: int)
    requires
        rectangular(rows),
        fits(rows),
        0 <= y < grid_rows(rows).len(),
        0 <= x < grid_rows(rows)[y].len(),
        grid_rows(rows)[y][x] == GOAL_MARK,
    ensures
        grid_of(grid_rows(rows)).get(x, y) == 0,
        !grid_of(grid_rows(rows)).is_solid(x, y),
        grid_of(grid_rows(rows)).goal is Some,
        (forall|r: int, c: int|
            0 <= r < grid_rows(rows).len() && 0 <= c < grid_rows(rows)[r].len() && grid_rows(
                rows,
            )[r][c] == GOAL_MARK ==> r == y && c == x) ==> grid_of(grid_rows(rows)).goal == Some(
            (x, y),
        ),
{
    lemma_loaded_cell(rows, x, y);
    lemma_goal_of(grid_rows(rows));
}

/// A text none of whose tokens denotes the sentinel describes a grid that
/// holds no sentinel.
pub proof fn lemma_loaded_sentinel_free(rows: Seq<Seq<char>>)
    requires
        rectangular(rows),
        fits(rows),
        forall|y: int, x: int|
            0 <= y < grid_rows(rows).len() && 0 <= x < grid_rows(rows)[y].len() ==> grid_rows(
                rows,
            )[y][x] != SENTINEL,
    ensures
        grid_of(grid_rows(rows)).sentinel_free(),
{
    let g = grid_rows(rows);
    let w = width_of(g);
    lemma_rectangular_uniform(rows);
    assert forall|k: int| 0 <= k < grid_of(g).cells.len() implies grid_of(g).cells[k]
        != SENTINEL by {
        assert(0 < w) by {
            if w <= 0 {
                assert(w * g.len() <= 0) by (nonlinear_arith)
                    requires
                        w <= 0,
                        0 <= g.len(),
                ;
            }
        }
        vstd::arithmetic::div_mod::lemma_multiply_divide_lt(k, w, g.len() as int);
        vstd::arithmetic::div_mod::lemma_div_pos_is_pos(k, w);
        vstd::arithmetic::div_mod::lemma_mod_bound(k, w);
        assert(g[k / w].len() == w);
    }
}

/// In a grid that holds no sentinel, the sentinel is read exactly outside
/// the grid.
pub proof fn lemma_sentinel_marks_outside(g: Grid, x: int, y: int)
    requires
        g.wf(),
        g.sentinel_free(),
    ensures
        g.get(x, y) == SENTINEL <==> !g.in_bounds(x, y),
        !g.in_bounds(x, y) ==> g.is_solid(x, y),
{
    if g.in_bounds(x, y) {
        lemma_flat_in_range(g, x, y);
    }
}

/// Why a map text describes no grid world.
#[derive(Debug, Clone, Copy, PartialEq, Eq)]
pub enum MapError {
    /// Row `line` of the text has `found` cells where the first row has
    /// `expected`.
    RowWidthMismatch { line: usize, expected: usize, found: usize },
}

/// `r` is what loading the text `rows` gives: the grid that the text
/// describes where no row is a mismatch, the first mismatch otherwise.
pub open spec fn loads(rows: Seq<Seq<char>>, r: Result<GridMap, MapError>) -> bool {
    match r {
        Ok(m) => rectangular(rows) && m@ == grid_of(grid_rows(rows)) && m@.wf(),
        Err(MapError::RowWidthMismatch { line, expected, found }) => {
            &&& line < rows.len()
            &&& mismatch(rows, line as int)
            &&& forall|j: int| 0 <= j < line ==> !mismatch(rows, j)
            &&& expected == width_of(grid_rows(rows))
            &&& found == row_values(rows[line as int]).len()
        },
    }
}

/// A grid world, immutable once built.
#[derive(Debug)]
pub struct GridMap {
    w: i32,
    h: i32,
    cells: Vec<u8>,
    goal: Option<(i32, i32)>,
}

impl View for GridMap {
    type V = Grid;

    closed spec fn view(&self) -> Grid {
        Grid {
            width: self.w as int,
            height: self.h as int,
            cells: self.cells@,
            goal: match self.goal {
                Some((gx, gy)) => Some((gx as int, gy as int)),
                None => None,
            },
        }
    }
}

impl Clone for GridMap {
    fn clone(&self) -> (r: Self)
        ensures
            r@ == self@,
    {
        proof {
            use_type_invariant(self);
        }
        let cells = self.cells.clone();
        assert(cells@ =~= self.cells@);
        GridMap { w: self.w, h: self.h, cells, goal: self.goal }
    }
}

impl GridMap {
    #[verifier::type_invariant]
    spec fn inv(self) -> bool {
        self@.wf()
    }

    /// Reads a grid world from the rows of a map text, the top row first.
    ///
    /// Blank rows are skipped. The first row that is not blank establishes
    /// the width; the first later row of another width is reported as an
    /// error.
    pub fn load_from_rows(rows: &Vec<String>) -> (r: Result<GridMap, MapError>)
        requires
            fits(rows.deep_view()),
        ensures
            loads(rows.deep_view(), r),
    {
        let ghost text = rows.deep_view();
        let mut cells: Vec<u8> = Vec::new();
        let mut w: i32 = 0;
        let mut h: i32 = 0;
        let mut goal: Option<(i32, i32)> = None;
        let mut i: usize = 0;
        while i < rows.len()
            invariant
                i <= rows.len(),
                text == rows.deep_view(),
                fits(text),
                h == grid_rows(text.take(i as int)).len(),
                w == width_of(grid_rows(text.take(i as int))),
                uniform(grid_rows(text.take(i as int))),
                cells@ == grid_of(grid_rows(text.take(i as int))).cells,
                as_point(goal) == goal_of(grid_rows(text.take(i as int))),
                forall|j: int|
                    0 <= j < i ==> is_blank(#[trigger] text[j]) || row_values(text[j]).len() == w,
            decreases rows.len() - i,
        {
            let ghost g = grid_rows(text.take(i as int));
            let ghost g2 = grid_rows(text.take(i as int + 1));
            let row = row_values_of(rows[i].as_str());
            proof {
                assert(text[i as int] == rows@[i as int]@);
                lemma_grid_rows_step(text, i as int);
                lemma_grid_rows_prefix(text, i as int);
                lemma_grid_rows_prefix(text, i as int + 1);
            }
            if row.len() != 0 {
                assert(g2 == g.push(row@));
                assert(row@ == grid_rows(text)[h as int]);
                if h == 0 {
                    w = row.len() as i32;
                }
                if row.len() != w as usize {
                    proof {
                        assert(grid_rows(text)[0] == g[0]);
                    }
                    return Err(
                        MapError::RowWidthMismatch {
                            line: i,
                            expected: w as usize,
                            found: row.len(),
                        },
                    );
                }
                assert(w == width_of(g2));
                assert(uniform(g2));
                assert forall|k: int| 0 <= k < cells@.len() implies cells@[k] == stored(
                    g2[k / w as int][k % w as int],
                ) by {
                    vstd::arithmetic::div_mod::lemma_multiply_divide_lt(k, w as int, h as int);
                    vstd::arithmetic::div_mod::lemma_div_pos_is_pos(k, w as int);
                }
                let mut x: i32 = 0;
                while x < w
                    invariant
                        0 <= x <= w == row.len(),
                        0 < w,
                        g2 == g.push(row@),
                        h == g.len(),
                        cells@.len() == w * h + x,
                        forall|k: int|
                            0 <= k < cells@.len() ==> cells@[k] == stored(
                                g2[k / w as int][k % w as int],
                            ),
                        as_point(goal) == match last_index_of(row@.take(x as int), GOAL_MARK) {
                            Some(gx) => Some((gx, h as int)),
                            None => goal_of(g),
                        },
                    decreases w - x,
                {
                    let cell = row[x as usize];
                    proof {
                        lemma_fundamental_div_mod_converse(
                            w * h + x,
                            w as int,
                            h as int,
                            x as int,
                        );
                        assert(w * h == h * w) by (nonlinear_arith);
                        assert(row@.take(x as int + 1).drop_last() =~= row@.take(x as int));
                        assert(row@.take(x as int + 1).last() == cell);
                    }
                    if cell == GOAL_MARK {
                        goal = Some((x, h));
                        cells.push(0);
                    } else {
                        cells.push(cell);
                    }
                    x += 1;
                }
                proof {
                    assert(row@.take(w as int) =~= row@);
                    assert(g2.drop_last() =~= g);
                    assert(w * h + w == w * (h + 1)) by (nonlinear_arith);
                    assert(cells@ =~= grid_of(g2).cells);
                }
                h += 1;
            }
            i += 1;
        }
        proof {
            assert(text.take(i as int) =~= text);
            if grid_rows(text).len() > 0 {
                assert(grid_rows(text)[0].len() <= i32::MAX);
            }
            lemma_grid_of_wf(grid_rows(text));
        }
        Ok(GridMap { w, h, cells, goal })
    }

    /// Number of columns.
    pub fn width(&self) -> (w: i32)
        ensures
            w == self@.width,
            self@.wf(),
    {
        proof {
            use_type_invariant(self);
        }
        self.w
    }

    /// Number of rows.
    pub fn height(&self) -> (h: i32)
        ensures
            h == self@.height,
            self@.wf(),
    {
        proof {
            use_type_invariant(self);
        }
        self.h
    }

    /// Reads a grid world as `load_from_rows` does, from any text: `None`
    /// exactly where the text is not small.
    pub fn try_load_from_rows(rows: &Vec<String>) -> (r: Option<Result<GridMap, MapError>>)
        ensures
            r is Some <==> small(rows.deep_view()),
            r matches Some(loaded) ==> loads(rows.deep_view(), loaded),
    {
        let ghost text = rows.deep_view();
        let limit: usize = i32::MAX as usize;
        if rows.len() > limit {
            return None;
        }
        let mut i: usize = 0;
        while i < rows.len()
            invariant
                i <= rows.len() <= limit == i32::MAX,
                text == rows.deep_view(),
                forall|j: int| 0 <= j < i ==> (#[trigger] text[j]).len() <= i32::MAX,
            decreases rows.len() - i,
        {
            assert(text[i as int] == rows@[i as int]@);
            if rows[i].as_str().unicode_len() > limit {
                return None;
            }
            i += 1;
        }
        proof {
            lemma_small_text_fits(text);
        }
        Some(Self::load_from_rows(rows))
    }

    /// The identifiers of all cells, row by row from the top.
    pub fn cells(&self) -> (cells: &Vec<u8>)
        ensures
            cells@ == self@.cells,
            self@.wf(),
    {
        proof {
            use_type_invariant(self);
        }
        &self.cells
    }

    /// The goal cell, if the grid has one.
    pub fn goal(&self) -> (g: Option<(i32, i32)>)
        ensures
            self@.wf(),
            match g {
                Some((gx, gy)) => self@.goal == Some((gx as int, gy as int)),
                None => self@.goal is None,
            },
    {
        proof {
            use_type_invariant(self);
        }
        self.goal
    }

    /// Whether `(x, y)` is the goal cell.
    pub fn is_goal(&self, x: i32, y: i32) -> (r: bool)
        ensures
            r == (self@.goal == Some((x as int, y as int))),
    {
        match self.goal {
            Some((gx, gy)) => x == gx && y == gy,
            None => false,
        }
    }

    /// The flat index of `(x, y)`: `Some` exactly for the cells of the grid.
    pub fn index(&self, x: i32, y: i32) -> (r: Option<usize>)
        ensures
            self@.wf(),
            r is Some <==> self@.in_bounds(x as int, y as int),
            match r {
                Some(i) => self@.index(x as int, y as int) == Some(i as int) && i
                    < self@.cells.len(),
                None => self@.index(x as int, y as int) is None,
            },
    {
        self.index_wide(x as i64, y as i64)
    }

    /// `index` for coordinates of any size.
    pub(crate) fn index_wide(&self, x: i64, y: i64) -> (r: Option<usize>)
        ensures
            self@.wf(),
            r is Some <==> self@.in_bounds(x as int, y as int),
            match r {
                Some(i) => self@.index(x as int, y as int) == Some(i as int) && i
                    < self@.cells.len(),
                None => self@.index(x as int, y as int) is None,
            },
    {
        proof {
            use_type_invariant(self);
        }
        if x < 0 || y < 0 || x >= self.w as i64 || y >= self.h as i64 {
            None
        } else {
            proof {
                lemma_flat_in_range(self@, x as int, y as int);
                assert(self.cells@.len() == self.cells.len());
                assert((y as usize) * (self.w as usize) == y as int * self@.width);
            }
            Some((y as usize) * (self.w as usize) + (x as usize))
        }
    }

    /// `get` for coordinates of any size.
    pub(crate) fn get_wide(&self, x: i64, y: i64) -> (r: u8)
        ensures
            self@.wf(),
            r == self@.get(x as int, y as int),
    {
        match self.index_wide(x, y) {
            Some(i) => self.cells[i],
            None => SENTINEL,
        }
    }

    /// Whether `(x, y)` blocks sight and movement. Every coordinate outside
    /// the grid does.
    pub fn is_solid(&self, x: i32, y: i32) -> (r: bool)
        ensures
            r == self@.is_solid(x as int, y as int),
            !self@.in_bounds(x as int, y as int) ==> r,
    {
        match self.index(x, y) {
            Some(i) => self.cells[i] > 0,
            None => true,
        }
    }

    /// The identifier at `(x, y)`, or the sentinel outside the grid.
    pub fn get(&self, x: i32, y: i32) -> (r: u8)
        ensures
            r == self@.get(x as int, y as int),
            !self@.in_bounds(x as int, y as int) ==> r == SENTINEL,
    {
        match self.index(x, y) {
            Some(i) => self.cells[i],
            None => SENTINEL,
        }
    }
}

} // verus!
