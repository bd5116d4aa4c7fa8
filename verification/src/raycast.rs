//! Ray traversal of the grid and the columns of a frame.
//!
//! A ray leaves a cell of the grid and crosses one cell boundary at a time,
//! along `x` or along `y`, until it enters a cell that is not vacant. Which
//! boundary comes next depends on the fractional position and direction of
//! the ray and is the caller's to decide; everything else is decided here.

use crate::map::Grid;
use crate::map::GridMap;
use vstd::prelude::*;

verus! {

/// Side of a hit on a boundary crossed along `x`.
pub const SIDE_X: u8 = 0;

/// Side of a hit on a boundary crossed along `y`.
pub const SIDE_Y: u8 = 1;

/// Mathematical model of a ray on its way through the grid.
pub struct RayState {
    /// Column of the current cell.
    pub x: int,
    /// Row of the current cell.
    pub y: int,
    /// Direction of travel along `x`: `1` or `-1`.
    pub step_x: int,
    /// Direction of travel along `y`: `1` or `-1`.
    pub step_y: int,
    /// Axis of the last crossing.
    pub side: u8,
    /// Identifier of the current cell as the ray found it; zero until the
    /// ray hits.
    pub wall: u8,
}

impl RayState {
    /// The ray as it leaves the cell `(x, y)`.
    pub open spec fn start(x: int, y: int, negative_x: bool, negative_y: bool) -> RayState {
        RayState {
            x,
            y,
            step_x: if negative_x {
                -1
            } else {
                1
            },
            step_y: if negative_y {
                -1
            } else {
                1
            },
            side: SIDE_X,
            wall: 0,
        }
    }

    /// The steps are unit steps and the side names an axis.
    pub open spec fn wf(self) -> bool {
        &&& self.step_x == 1 || self.step_x == -1
        &&& self.step_y == 1 || self.step_y == -1
        &&& self.side == SIDE_X || self.side == SIDE_Y
    }

    /// The ray has entered a cell that is not vacant.
    pub open spec fn has_hit(self) -> bool {
        self.wall != 0
    }

    /// The ray after it crosses the next boundary along `x` (`cross_x`) or
    /// along `y`, and looks at the cell it enters.
    pub open spec fn advance(self, grid: Grid, cross_x: bool) -> RayState {
        let x = if cross_x {
            self.x + self.step_x
        } else {
            self.x
        };
        let y = if cross_x {
            self.y
        } else {
            self.y + self.step_y
        };
        RayState {
            x,
            y,
            step_x: self.step_x,
            step_y: self.step_y,
            side: if cross_x {
                SIDE_X
            } else {
                SIDE_Y
            },
            wall: grid.get(x, y),
        }
    }

    /// The ray after it follows `crossings` in order, stopping at its hit.
    pub open spec fn run(self, grid: Grid, crossings: Seq<bool>) -> RayState
        decreases crossings.len(),
    {
        if crossings.len() == 0 || self.has_hit() {
            self
        } else {
            self.advance(grid, crossings[0]).run(grid, crossings.drop_first())
        }
    }

    /// Number of crossings after which a ray inside the grid has left it,
    /// whichever axes it crosses.
    pub open spec fn reach(self, grid: Grid) -> int {
        (if self.step_x > 0 {
            grid.width - self.x
        } else {
            self.x + 1
        }) + (if self.step_y > 0 {
            grid.height - self.y
        } else {
            self.y + 1
        })
    }
}

/// A crossing that does not end in a hit leads into a vacant cell of the
/// grid and brings the ray one step nearer to the edge.
pub proof fn lemma_advance_inside(s: RayState, grid: Grid, cross_x: bool)
    requires
        s.wf(),
        grid.wf(),
        !s.advance(grid, cross_x).has_hit(),
    ensures
        s.advance(grid, cross_x).wf(),
        grid.in_bounds(s.advance(grid, cross_x).x, s.advance(grid, cross_x).y),
        !grid.is_solid(s.advance(grid, cross_x).x, s.advance(grid, cross_x).y),
        s.advance(grid, cross_x).reach(grid) == s.reach(grid) - 1,
        2 <= s.advance(grid, cross_x).reach(grid) <= grid.width + grid.height,
{
}

/// A ray inside the grid hits after fewer crossings than its reach.
pub proof fn lemma_run_hits_inside(s: RayState, grid: Grid, crossings: Seq<bool>)
    requires
        s.wf(),
        grid.wf(),
        grid.in_bounds(s.x, s.y),
        crossings.len() >= s.reach(grid) - 1,
    ensures
        s.run(grid, crossings).has_hit(),
    decreases crossings.len(),
{
    if !s.has_hit() {
        let t = s.advance(grid, crossings[0]);
        if !t.has_hit() {
            lemma_advance_inside(s, grid, crossings[0]);
            lemma_run_hits_inside(t, grid, crossings.drop_first());
        } else {
            assert(t.run(grid, crossings.drop_first()) == t);
        }
    }
}

/// Every ray terminates: whatever cell it starts from and whichever axes it
/// crosses, it has hit after `width + height` crossings, and after one where
/// the grid is empty.
pub proof fn lemma_run_hits(s: RayState, grid: Grid, crossings: Seq<bool>)
    requires
        s.wf(),
        grid.wf(),
        crossings.len() >= grid.width + grid.height,
        crossings.len() >= 1,
    ensures
        s.run(grid, crossings).has_hit(),
{
    if !s.has_hit() {
        let t = s.advance(grid, crossings[0]);
        if !t.has_hit() {
            lemma_advance_inside(s, grid, crossings[0]);
            lemma_run_hits_inside(t, grid, crossings.drop_first());
        } else {
            assert(t.run(grid, crossings.drop_first()) == t);
        }
    }
}

/// A ray on its way through a grid.
#[derive(Debug, Clone, Copy)]
pub struct RayWalk {
    x: i64,
    y: i64,
    step_x: i32,
    step_y: i32,
    side: u8,
    wall: u8,
}

impl View for RayWalk {
    type V = RayState;

    closed spec fn view(&self) -> RayState {
        RayState {
            x: self.x as int,
            y: self.y as int,
            step_x: self.step_x as int,
            step_y: self.step_y as int,
            side: self.side,
            wall: self.wall,
        }
    }
}

impl RayWalk {
    #[verifier::type_invariant]
    spec fn inv(self) -> bool {
        &&& self@.wf()
        &&& i32::MIN - 1 <= self.x <= i32::MAX + 1
        &&& i32::MIN - 1 <= self.y <= i32::MAX + 1
        &&& !self@.has_hit() ==> i32::MIN <= self.x <= i32::MAX && i32::MIN <= self.y <= i32::MAX
    }

    /// A ray that leaves the cell `(cell_x, cell_y)`, towards smaller `x`
    /// where `negative_x` holds and towards smaller `y` where `negative_y`
    /// holds.
    pub fn start(cell_x: i32, cell_y: i32, negative_x: bool, negative_y: bool) -> (ray: RayWalk)
        ensures
            ray@ == RayState::start(cell_x as int, cell_y as int, negative_x, negative_y),
            ray@.wf(),
            !ray@.has_hit(),
    {
        RayWalk {
            x: cell_x as i64,
            y: cell_y as i64,
            step_x: if negative_x {
                -1
            } else {
                1
            },
            step_y: if negative_y {
                -1
            } else {
                1
            },
            side: SIDE_X,
            wall: 0,
        }
    }

    /// Crosses the next boundary, along `x` where `cross_x` holds and along
    /// `y` otherwise, and looks at the cell beyond it.
    pub fn advance(&mut self, map: &GridMap, cross_x: bool)
        requires
            !old(self)@.has_hit(),
        ensures
            final(self)@ == old(self)@.advance(map@, cross_x),
            final(self)@.wf(),
            !final(self)@.has_hit() ==> map@.in_bounds(final(self)@.x, final(self)@.y),
    {
        proof {
            use_type_invariant(&*self);
        }
        let mut x: i64 = self.x;
        let mut y: i64 = self.y;
        let side: u8;
        if cross_x {
            x = x + self.step_x as i64;
            side = SIDE_X;
        } else {
            y = y + self.step_y as i64;
            side = SIDE_Y;
        }
        let wall = map.get_wide(x, y);
        *self = RayWalk { x, y, step_x: self.step_x, step_y: self.step_y, side, wall };
    }

    /// Whether the ray has entered a cell that is not vacant.
    pub fn has_hit(&self) -> (r: bool)
        ensures
            r == self@.has_hit(),
    {
        self.wall != 0
    }

    /// Column of the current cell.
    pub fn cell_x(&self) -> (x: i64)
        ensures
            x == self@.x,
    {
        self.x
    }

    /// Row of the current cell.
    pub fn cell_y(&self) -> (y: i64)
        ensures
            y == self@.y,
    {
        self.y
    }

    /// Direction of travel along `x`: `1` or `-1`.
    pub fn step_x(&self) -> (s: i32)
        ensures
            s == self@.step_x,
            s == 1 || s == -1,
    {
        proof {
            use_type_invariant(self);
        }
        self.step_x
    }

    /// Direction of travel along `y`: `1` or `-1`.
    pub fn step_y(&self) -> (s: i32)
        ensures
            s == self@.step_y,
            s == 1 || s == -1,
    {
        proof {
            use_type_invariant(self);
        }
        self.step_y
    }

    /// Axis of the last crossing.
    pub fn side(&self) -> (s: u8)
        ensures
            s == self@.side,
            s == SIDE_X || s == SIDE_Y,
    {
        proof {
            use_type_invariant(self);
        }
        self.side
    }

    /// Identifier of the cell that stopped the ray; zero while it travels.
    pub fn wall(&self) -> (w: u8)
        ensures
            w == self@.wall,
    {
        self.wall
    }
}

/// Row `r` moved into a frame of `frame_height` rows.
pub open spec fn clip_row(r: int, frame_height: int) -> int {
    if r < 0 {
        0
    } else if r > frame_height - 1 {
        frame_height - 1
    } else {
        r
    }
}

/// First row of a wall `line_height` rows high, centred in a frame of
/// `frame_height` rows and clipped to it.
pub open spec fn span_top(frame_height: int, line_height: int) -> int {
    if line_height >= frame_height {
        0
    } else {
        clip_row((frame_height - line_height) / 2, frame_height)
    }
}

/// Last row of a wall `line_height` rows high, centred in a frame of
/// `frame_height` rows and clipped to it.
pub open spec fn span_bottom(frame_height: int, line_height: int) -> int {
    if frame_height + line_height < 0 {
        0
    } else {
        clip_row((frame_height + line_height) / 2, frame_height)
    }
}

/// The rows that a wall `line_height` rows high covers in a frame of
/// `frame_height` rows: first and last row, both inside the frame.
pub fn vertical_span(frame_height: usize, line_height: i32) -> (span: (i32, i32))
    requires
        1 <= frame_height <= i32::MAX,
    ensures
        span.0 == span_top(frame_height as int, line_height as int),
        span.1 == span_bottom(frame_height as int, line_height as int),
        0 <= span.0 < frame_height,
        0 <= span.1 < frame_height,
        line_height >= 0 ==> span.0 <= span.1,
{
    let h: i64 = frame_height as i64;
    let l: i64 = line_height as i64;
    let top: i64 = if l >= h {
        0
    } else {
        let t: i64 = (h - l) / 2;
        if t > h - 1 {
            h - 1
        } else {
            t
        }
    };
    let bottom: i64 = if h + l < 0 {
        0
    } else {
        let b: i64 = (h + l) / 2;
        if b > h - 1 {
            h - 1
        } else {
            b
        }
    };
    (top as i32, bottom as i32)
}

/// The part of one screen column that a wall covers.
#[derive(Debug, Clone, Copy, PartialEq, Eq)]
pub struct ColumnSpan {
    /// Index of the screen column.
    pub x: usize,
    /// First row to paint.
    pub y0: i32,
    /// Last row to paint.
    pub y1: i32,
    /// Identifier of the cell that stopped the ray.
    pub wall: u8,
    /// Axis of the boundary that the ray hit.
    pub side: u8,
}

/// The column that a ray which has hit gives at position `x` of a frame of
/// `frame_height` rows, where its wall is `line_height` rows high.
pub open spec fn column_of(x: int, frame_height: int, ray: RayState, line_height: int)
    -> ColumnSpan {
    ColumnSpan {
        x: x as usize,
        y0: span_top(frame_height, line_height) as i32,
        y1: span_bottom(frame_height, line_height) as i32,
        wall: ray.wall,
        side: ray.side,
    }
}

/// Mathematical model of the columns of a frame.
pub struct FrameView {
    pub width: int,
    pub height: int,
    pub columns: Seq<ColumnSpan>,
}

impl FrameView {
    /// Column `i` stands at position `i`, its rows are in order and inside
    /// the frame, and it shows a wall.
    pub open spec fn column_ok(self, i: int) -> bool {
        let c = self.columns[i];
        &&& c.x == i
        &&& 0 <= c.y0 <= c.y1 < self.height
        &&& c.wall != 0
        &&& c.side == SIDE_X || c.side == SIDE_Y
    }

    /// There are at most `width` columns, in ascending order without gaps,
    /// each inside the frame.
    pub open spec fn wf(self) -> bool {
        &&& 0 <= self.width
        &&& 0 <= self.height
        &&& self.columns.len() <= self.width
        &&& forall|i: int| 0 <= i < self.columns.len() ==> self.column_ok(i)
    }

    /// Every column of the frame is present.
    pub open spec fn complete(self) -> bool {
        self.columns.len() == self.width
    }
}

/// A complete frame holds exactly `width` columns, in strictly ascending
/// order of position, each with its rows in order and inside the frame.
pub proof fn lemma_complete_frame(frame: FrameView)
    requires
        frame.wf(),
        frame.complete(),
    ensures
        frame.columns.len() == frame.width,
        forall|i: int, j: int|
            0 <= i < j < frame.columns.len() ==> frame.columns[i].x < frame.columns[j].x,
        forall|i: int|
            0 <= i < frame.columns.len() ==> 0 <= (#[trigger] frame.columns[i]).y0
                <= frame.columns[i].y1 < frame.height,
        forall|i: int| 0 <= i < frame.columns.len() ==> (#[trigger] frame.columns[i]).wall != 0,
{
    assert forall|i: int, j: int| 0 <= i < j < frame.columns.len() implies frame.columns[i].x
        < frame.columns[j].x by {
        assert(frame.column_ok(i));
        assert(frame.column_ok(j));
    }
    assert forall|i: int| 0 <= i < frame.columns.len() implies 0 <= (#[trigger] frame.columns[i]).y0
        <= frame.columns[i].y1 < frame.height && frame.columns[i].wall != 0 by {
        assert(frame.column_ok(i));
    }
}

/// The columns of one frame, collected from left to right.
#[derive(Debug)]
pub struct Frame {
    width: usize,
    height: usize,
    columns: Vec<ColumnSpan>,
}

impl View for Frame {
    type V = FrameView;

    closed spec fn view(&self) -> FrameView {
        FrameView { width: self.width as int, height: self.height as int, columns: self.columns@ }
    }
}

impl Frame {
    #[verifier::type_invariant]
    spec fn inv(self) -> bool {
        self@.wf()
    }

    /// A frame of `width` columns and `height` rows with no column yet.
    pub fn new(width: usize, height: usize) -> (frame: Frame)
        ensures
            frame@ == (FrameView {
                width: width as int,
                height: height as int,
                columns: Seq::empty(),
            }),
            frame@.wf(),
    {
        Frame { width, height, columns: Vec::new() }
    }

    /// The frame with its next column added: what the ray `ray`, which has
    /// hit, shows where its wall is `line_height` rows high.
    pub fn push(self, ray: &RayWalk, line_height: i32) -> (next: Frame)
        requires
            ray@.has_hit(),
            line_height >= 0,
            !self@.complete(),
            1 <= self@.height <= i32::MAX,
        ensures
            next@.width == self@.width,
            next@.height == self@.height,
            next@.columns == self@.columns.push(
                column_of(self@.columns.len() as int, self@.height, ray@, line_height as int),
            ),
            next@.wf(),
    {
        proof {
            use_type_invariant(&self);
            use_type_invariant(ray);
        }
        let (y0, y1) = vertical_span(self.height, line_height);
        let ghost before = self@;
        let mut columns = self.columns;
        columns.push(ColumnSpan { x: columns.len(), y0, y1, wall: ray.wall(), side: ray.side() });
        let ghost after = FrameView {
            width: self.width as int,
            height: self.height as int,
            columns: columns@,
        };
        proof {
            assert forall|i: int| 0 <= i < after.columns.len() implies after.column_ok(i) by {
                if i < before.columns.len() {
                    assert(before.column_ok(i));
                }
            }
        }
        Frame { width: self.width, height: self.height, columns }
    }

    /// Number of columns of the frame.
    pub fn width(&self) -> (w: usize)
        ensures
            w == self@.width,
    {
        self.width
    }

    /// Number of rows of the frame.
    pub fn height(&self) -> (h: usize)
        ensures
            h == self@.height,
    {
        self.height
    }

    /// Number of columns collected so far.
    pub fn len(&self) -> (n: usize)
        ensures
            n == self@.columns.len(),
    {
        self.columns.len()
    }

    /// Whether every column of the frame is present.
    pub fn is_complete(&self) -> (r: bool)
        ensures
            r == self@.complete(),
    {
        self.columns.len() == self.width
    }

    /// The columns collected so far, in ascending order.
    pub fn columns(&self) -> (columns: &Vec<ColumnSpan>)
        ensures
            columns@ == self@.columns,
            self@.wf(),
    {
        proof {
            use_type_invariant(self);
        }
        &self.columns
    }
}

} // verus!
