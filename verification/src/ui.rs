//! Painting into a frame buffer: one pixel per `u32`, rows from top to
//! bottom, each row `sw` pixels wide.

use crate::levels::LevelColors;
use crate::levels::Palette;
use crate::map::Grid;
use crate::map::GridMap;
use crate::raycast::ColumnSpan;
use crate::raycast::Frame;
use crate::raycast::SIDE_Y;
use crate::textures::pixel_of;
use crate::textures::shaded;
use crate::textures::wall_color_shaded_rgba_rgb;
use vstd::arithmetic::div_mod::lemma_fundamental_div_mod;
use vstd::arithmetic::div_mod::lemma_fundamental_div_mod_converse;
use vstd::prelude::*;

verus! {

/// Pixel `p` of a buffer `sw` wide lies in the columns `x0..x1` of the rows
/// `y0..y1`.
pub open spec fn in_rect(p: int, sw: int, x0: int, x1: int, y0: int, y1: int) -> bool {
    y0 <= p / sw < y1 && x0 <= p % sw < x1
}

/// Pixel `p` comes before `(x, y)` in a scan of the columns `x0..x1`, row by
/// row from row `y0`.
pub open spec fn scanned(p: int, sw: int, x0: int, x1: int, y0: int, y: int, x: int) -> bool {
    in_rect(p, sw, x0, x1, y0, y) || (p / sw == y && x0 <= p % sw < x)
}

/// `after` is `before` with the pixels that `cover` selects, among those of
/// the `sw` by `sh` frame, set to what `color` gives.
pub open spec fn painted(
    before: Seq<u32>,
    after: Seq<u32>,
    sw: int,
    sh: int,
    cover: spec_fn(int, int) -> bool,
    color: spec_fn(int, int) -> u32,
) -> bool {
    &&& after.len() == before.len()
    &&& forall|p: int|
        0 <= p < before.len() ==> #[trigger] after[p] == if sw > 0 && p / sw < sh && cover(
            p % sw,
            p / sw,
        ) {
            color(p % sw, p / sw)
        } else {
            before[p]
        }
}

/// `cur` is `before` with the covered pixels painted as far as the scan has
/// come.
pub open spec fn scan_state(
    before: Seq<u32>,
    cur: Seq<u32>,
    sw: int,
    x0: int,
    x1: int,
    y0: int,
    y: int,
    x: int,
    cover: spec_fn(int, int) -> bool,
    color: spec_fn(int, int) -> u32,
) -> bool {
    &&& cur.len() == before.len()
    &&& forall|p: int|
        0 <= p < before.len() ==> #[trigger] cur[p] == if scanned(p, sw, x0, x1, y0, y, x) && cover(
            p % sw,
            p / sw,
        ) {
            color(p % sw, p / sw)
        } else {
            before[p]
        }
}

/// The pixel `(x, y)` of a frame `sw` wide and `sh` high has the index
/// `y * sw + x`, and no other pixel has it.
pub proof fn lemma_pixel_index(sw: int, sh: int, x: int, y: int)
    requires
        0 <= x < sw,
        0 <= y < sh,
    ensures
        0 <= y * sw <= y * sw + x < sw * sh,
        (y * sw + x) / sw == y,
        (y * sw + x) % sw == x,
{
    assert(0 <= y * sw && (y + 1) * sw <= sh * sw) by (nonlinear_arith)
        requires
            0 <= y < sh,
            0 <= sw,
    ;
    assert((y + 1) * sw == y * sw + sw) by (nonlinear_arith);
    assert(sh * sw == sw * sh) by (nonlinear_arith);
    lemma_fundamental_div_mod_converse(y * sw + x, sw, y, x);
}

/// Painting the pixel under the scan, where it is covered, moves the scan
/// one pixel on.
pub proof fn lemma_scan_pixel(
    before: Seq<u32>,
    cur: Seq<u32>,
    next: Seq<u32>,
    sw: int,
    x0: int,
    x1: int,
    y0: int,
    y: int,
    x: int,
    cover: spec_fn(int, int) -> bool,
    color: spec_fn(int, int) -> u32,
)
    requires
        scan_state(before, cur, sw, x0, x1, y0, y, x, cover, color),
        0 <= x0 <= x < x1 <= sw,
        0 <= y0 <= y,
        next == if cover(x, y) && y * sw + x < before.len() {
            cur.update(y * sw + x, color(x, y))
        } else {
            cur
        },
    ensures
        scan_state(before, next, sw, x0, x1, y0, y, x + 1, cover, color),
{
    lemma_pixel_index(sw, y + 1, x, y);
    assert forall|p: int| 0 <= p < before.len() implies #[trigger] next[p] == if scanned(
        p,
        sw,
        x0,
        x1,
        y0,
        y,
        x + 1,
    ) && cover(p % sw, p / sw) {
        color(p % sw, p / sw)
    } else {
        before[p]
    } by {
        lemma_fundamental_div_mod(p, sw);
        assert(cur[p] == if scanned(p, sw, x0, x1, y0, y, x) && cover(p % sw, p / sw) {
            color(p % sw, p / sw)
        } else {
            before[p]
        });
        if p != y * sw + x {
            assert(!(p / sw == y && p % sw == x)) by {
                assert(sw * (p / sw) == (p / sw) * sw) by (nonlinear_arith);
            }
        }
    }
}

/// A scan that has covered all rows has painted what `cover` selects,
/// where `cover` selects nothing outside the scanned columns and rows.
pub proof fn lemma_scan_done(
    before: Seq<u32>,
    cur: Seq<u32>,
    sw: int,
    sh: int,
    x0: int,
    x1: int,
    y0: int,
    y1: int,
    cover: spec_fn(int, int) -> bool,
    color: spec_fn(int, int) -> u32,
)
    requires
        scan_state(before, cur, sw, x0, x1, y0, y1, x0, cover, color),
        0 <= x0 <= x1 <= sw,
        0 <= y0 <= y1 <= sh,
        forall|x: int, y: int|
            0 <= x < sw && 0 <= y < sh && #[trigger] cover(x, y) ==> x0 <= x < x1 && y0 <= y < y1,
    ensures
        painted(before, cur, sw, sh, cover, color),
{
    assert forall|p: int| 0 <= p < before.len() implies #[trigger] cur[p] == if sw > 0 && p / sw
        < sh && cover(p % sw, p / sw) {
        color(p % sw, p / sw)
    } else {
        before[p]
    } by {
        assert(cur[p] == if scanned(p, sw, x0, x1, y0, y1, x0) && cover(p % sw, p / sw) {
            color(p % sw, p / sw)
        } else {
            before[p]
        });
        if sw > 0 {
            lemma_fundamental_div_mod(p, sw);
            vstd::arithmetic::div_mod::lemma_mod_bound(p, sw);
            vstd::arithmetic::div_mod::lemma_div_pos_is_pos(p, sw);
        }
    }
}

/// Distance of the counter from the left and the top of the frame.
pub const TEXT_MARGIN: usize = 8;

/// Side of the square of pixels that shows one dot of a glyph.
pub const TEXT_SCALE: usize = 4;

/// Number of dots in a row of a glyph.
pub const GLYPH_WIDTH: usize = 3;

/// Number of rows of a glyph.
pub const GLYPH_HEIGHT: usize = 5;

/// Width of a digit with the gap behind it, in pixels.
pub const TEXT_ADVANCE: usize = 16;

/// Height of a digit in pixels.
pub const TEXT_HEIGHT: usize = 20;

/// Pixel of the counter.
pub const TEXT_COLOR: u32 = 0xFF00_00FF;

/// The decimal digits of `n`, the most significant first.
pub open spec fn digits_of(n: nat) -> Seq<u8>
    decreases n,
{
    if n < 10 {
        seq![n as u8]
    } else {
        digits_of(n / 10).push((n % 10) as u8)
    }
}

/// The picture of the digit `d`: five rows of three dots, the top row in
/// the highest bits, a set bit for a lit dot.
pub open spec fn glyph(d: u8) -> u16 {
    if d == 0 {
        0b111_101_101_101_111
    } else if d == 1 {
        0b010_110_010_010_111
    } else if d == 2 {
        0b111_001_111_100_111
    } else if d == 3 {
        0b111_001_011_001_111
    } else if d == 4 {
        0b101_101_111_001_001
    } else if d == 5 {
        0b111_100_111_001_111
    } else if d == 6 {
        0b111_100_111_101_111
    } else if d == 7 {
        0b111_001_001_001_001
    } else if d == 8 {
        0b111_101_111_101_111
    } else {
        0b111_101_111_001_111
    }
}

/// The dot in column `col` and row `row` of the digit `d` is lit.
pub open spec fn glyph_lit(d: u8, col: int, row: int) -> bool {
    (glyph(d) >> ((14 - (row * GLYPH_WIDTH + col)) as u16)) & 1 == 1
}

/// The pixel `(x, y)` belongs to the digits `digits` written from the
/// top left corner of the frame.
pub open spec fn text_lit(digits: Seq<u8>, x: int, y: int) -> bool {
    let col = x - TEXT_MARGIN;
    let row = y - TEXT_MARGIN;
    let advance = TEXT_ADVANCE as int;
    let scale = TEXT_SCALE as int;
    &&& 0 <= col < advance * digits.len()
    &&& 0 <= row < TEXT_HEIGHT
    &&& col % advance < GLYPH_WIDTH * scale
    &&& glyph_lit(digits[col / advance], (col % advance) / scale, row / scale)
}

/// The pixel `(x, y)` belongs to the counter that shows `fps`.
pub open spec fn fps_lit(fps: u32, x: int, y: int) -> bool {
    text_lit(digits_of(fps as nat), x, y)
}

/// A number below 2^32 has at most ten digits, each below ten.
pub proof fn lemma_digits_of(n: nat)
    ensures
        1 <= digits_of(n).len(),
        forall|i: int| 0 <= i < digits_of(n).len() ==> #[trigger] digits_of(n)[i] < 10,
        n < 10_000_000_000 ==> digits_of(n).len() <= 10,
    decreases n,
{
    if n >= 10 {
        lemma_digits_of(n / 10);
        lemma_digits_bound(n / 10);
        lemma_digits_bound(n);
    } else {
        lemma_digits_bound(n);
    }
}

/// The number of digits of a number grows with its size.
proof fn lemma_digits_bound(n: nat)
    ensures
        n < 10 ==> digits_of(n).len() == 1,
        n < 100 ==> digits_of(n).len() <= 2,
        n < 1_000 ==> digits_of(n).len() <= 3,
        n < 10_000 ==> digits_of(n).len() <= 4,
        n < 100_000 ==> digits_of(n).len() <= 5,
        n < 1_000_000 ==> digits_of(n).len() <= 6,
        n < 10_000_000 ==> digits_of(n).len() <= 7,
        n < 100_000_000 ==> digits_of(n).len() <= 8,
        n < 1_000_000_000 ==> digits_of(n).len() <= 9,
        n < 10_000_000_000 ==> digits_of(n).len() <= 10,
    decreases n,
{
    if n >= 10 {
        lemma_digits_bound(n / 10);
    }
}

/// The decimal digits of `n`, the most significant first.
pub fn decimal_digits(n: u32) -> (digits: Vec<u8>)
    ensures
        digits@ == digits_of(n as nat),
        1 <= digits@.len() <= 10,
        forall|i: int| 0 <= i < digits@.len() ==> #[trigger] digits@[i] < 10,
{
    let mut digits: Vec<u8> = Vec::new();
    let mut m: u32 = n;
    while m >= 10
        invariant
            digits_of(n as nat) == digits_of(m as nat) + digits@,
        decreases m,
    {
        let ghost tail = digits@;
        digits.insert(0, (m % 10) as u8);
        proof {
            assert(digits@ =~= seq![(m % 10) as u8] + tail);
            assert(digits_of(m as nat) == digits_of((m / 10) as nat).push((m % 10) as u8));
            assert(digits_of((m / 10) as nat).push((m % 10) as u8) + tail =~= digits_of(
                (m / 10) as nat,
            ) + digits@);
        }
        m = m / 10;
    }
    let ghost tail = digits@;
    digits.insert(0, m as u8);
    proof {
        assert(digits@ =~= seq![m as u8] + tail);
        lemma_digits_of(n as nat);
    }
    digits
}

/// Whether the dot in column `col` and row `row` of the digit `d` is lit.
pub fn glyph_has(d: u8, col: usize, row: usize) -> (lit: bool)
    requires
        col < GLYPH_WIDTH,
        row < GLYPH_HEIGHT,
    ensures
        lit == glyph_lit(d, col as int, row as int),
{
    let picture: u16 = if d == 0 {
        0b111_101_101_101_111
    } else if d == 1 {
        0b010_110_010_010_111
    } else if d == 2 {
        0b111_001_111_100_111
    } else if d == 3 {
        0b111_001_011_001_111
    } else if d == 4 {
        0b101_101_111_001_001
    } else if d == 5 {
        0b111_100_111_001_111
    } else if d == 6 {
        0b111_100_111_101_111
    } else if d == 7 {
        0b111_001_001_001_001
    } else if d == 8 {
        0b111_101_111_101_111
    } else {
        0b111_101_111_001_111
    };
    let shift: u16 = (14 - (row * GLYPH_WIDTH + col)) as u16;
    (picture >> shift) & 1 == 1
}

/// Writes `fps` in decimal into the top left corner of the frame.
#[verifier::loop_isolation(false)]
pub fn draw_fps_rgba(buf: &mut [u32], sw: usize, sh: usize, fps: u32)
    ensures
        painted(
            old(buf)@,
            final(buf)@,
            sw as int,
            sh as int,
            |x: int, y: int| fps_lit(fps, x, y),
            |x: int, y: int| TEXT_COLOR,
        ),
{
    let digits = decimal_digits(fps);
    let ghost before = buf@;
    let ghost cover = |x: int, y: int| fps_lit(fps, x, y);
    let ghost color = |x: int, y: int| TEXT_COLOR;
    let right: usize = TEXT_MARGIN + TEXT_ADVANCE * digits.len();
    let bottom: usize = TEXT_MARGIN + TEXT_HEIGHT;
    let x0: usize = if sw < TEXT_MARGIN {
        sw
    } else {
        TEXT_MARGIN
    };
    let x1: usize = if sw < right {
        sw
    } else {
        right
    };
    let y0: usize = if sh < TEXT_MARGIN {
        sh
    } else {
        TEXT_MARGIN
    };
    let y1: usize = if sh < bottom {
        sh
    } else {
        bottom
    };
    let mut y: usize = y0;
    while y < y1
        invariant
            y0 <= y <= y1,
            scan_state(
                before,
                buf@,
                sw as int,
                x0 as int,
                x1 as int,
                y0 as int,
                y as int,
                x0 as int,
                cover,
                color,
            ),
        decreases y1 - y,
    {
        let mut x: usize = x0;
        while x < x1
            invariant
                x0 <= x <= x1,
                y < y1,
                scan_state(
                    before,
                    buf@,
                    sw as int,
                    x0 as int,
                    x1 as int,
                    y0 as int,
                    y as int,
                    x as int,
                    cover,
                    color,
                ),
            decreases x1 - x,
        {
            let col: usize = x - TEXT_MARGIN;
            let row: usize = y - TEXT_MARGIN;
            let dot: usize = col % TEXT_ADVANCE;
            let lit = dot < GLYPH_WIDTH * TEXT_SCALE && glyph_has(
                digits[col / TEXT_ADVANCE],
                dot / TEXT_SCALE,
                row / TEXT_SCALE,
            );
            let ghost cur = buf@;
            if lit {
                put(buf, sw, x, y, TEXT_COLOR);
            }
            proof {
                lemma_scan_pixel(
                    before,
                    cur,
                    buf@,
                    sw as int,
                    x0 as int,
                    x1 as int,
                    y0 as int,
                    y as int,
                    x as int,
                    cover,
                    color,
                );
            }
            x += 1;
        }
        y += 1;
    }
    proof {
        lemma_scan_done(
            before,
            buf@,
            sw as int,
            sh as int,
            x0 as int,
            x1 as int,
            y0 as int,
            y1 as int,
            cover,
            color,
        );
    }
}

/// Painting twice is painting once: with what either step covers, in the
/// colour of the second step where that covers.
pub proof fn lemma_painted_twice(
    before: Seq<u32>,
    mid: Seq<u32>,
    after: Seq<u32>,
    sw: int,
    sh: int,
    cover1: spec_fn(int, int) -> bool,
    color1: spec_fn(int, int) -> u32,
    cover2: spec_fn(int, int) -> bool,
    color2: spec_fn(int, int) -> u32,
    cover: spec_fn(int, int) -> bool,
    color: spec_fn(int, int) -> u32,
)
    requires
        painted(before, mid, sw, sh, cover1, color1),
        painted(mid, after, sw, sh, cover2, color2),
        forall|x: int, y: int|
            0 <= x < sw && 0 <= y < sh ==> #[trigger] cover(x, y) == (cover1(x, y) || cover2(x, y)),
        forall|x: int, y: int|
            0 <= x < sw && 0 <= y < sh && cover(x, y) ==> #[trigger] color(x, y) == if cover2(x, y) {
                color2(x, y)
            } else {
                color1(x, y)
            },
    ensures
        painted(before, after, sw, sh, cover, color),
{
    assert forall|p: int| 0 <= p < before.len() implies #[trigger] after[p] == if sw > 0 && p / sw
        < sh && cover(p % sw, p / sw) {
        color(p % sw, p / sw)
    } else {
        before[p]
    } by {
        assert(mid[p] == if sw > 0 && p / sw < sh && cover1(p % sw, p / sw) {
            color1(p % sw, p / sw)
        } else {
            before[p]
        });
        if sw > 0 {
            vstd::arithmetic::div_mod::lemma_mod_bound(p, sw);
            vstd::arithmetic::div_mod::lemma_div_pos_is_pos(p, sw);
        }
    }
}

/// Sets the pixel `(x, y)` of a frame `sw` wide, where the buffer holds it.
fn put(buf: &mut [u32], sw: usize, x: usize, y: usize, color: u32)
    ensures
        final(buf)@ == if y * sw + x < old(buf)@.len() {
            old(buf)@.update(y * sw + x, color)
        } else {
            old(buf)@
        },
{
    let total: usize = buf.len();
    match y.checked_mul(sw) {
        Some(row) => match row.checked_add(x) {
            Some(at) => {
                if at < total {
                    buf[at] = color;
                }
            },
            None => {},
        },
        None => {},
    }
}

/// The smaller of `v` and `limit`.
fn clip(v: u128, limit: usize) -> (r: usize)
    ensures
        r == if v < limit {
            v as int
        } else {
            limit as int
        },
{
    if v < limit as u128 {
        v as usize
    } else {
        limit
    }
}

/// Paints the pixels of the columns `x0..x1` of the rows `y0..y1`, as far
/// as they lie in the frame, in `color`.
#[verifier::loop_isolation(false)]
pub fn fill_rect(
    buf: &mut [u32],
    sw: usize,
    sh: usize,
    x0: usize,
    x1: usize,
    y0: usize,
    y1: usize,
    color: u32,
)
    ensures
        painted(
            old(buf)@,
            final(buf)@,
            sw as int,
            sh as int,
            |x: int, y: int| x0 <= x < x1 && y0 <= y < y1,
            |x: int, y: int| color,
        ),
{
    let ghost before = buf@;
    let ghost cover = |x: int, y: int| x0 <= x < x1 && y0 <= y < y1;
    let ghost paint = |x: int, y: int| color;
    let right: usize = if x1 < sw {
        x1
    } else {
        sw
    };
    let left: usize = if x0 < right {
        x0
    } else {
        right
    };
    let bottom: usize = if y1 < sh {
        y1
    } else {
        sh
    };
    let top: usize = if y0 < bottom {
        y0
    } else {
        bottom
    };
    let mut y: usize = top;
    while y < bottom
        invariant
            top <= y <= bottom,
            scan_state(
                before,
                buf@,
                sw as int,
                left as int,
                right as int,
                top as int,
                y as int,
                left as int,
                cover,
                paint,
            ),
        decreases bottom - y,
    {
        let mut x: usize = left;
        while x < right
            invariant
                left <= x <= right,
                y < bottom,
                scan_state(
                    before,
                    buf@,
                    sw as int,
                    left as int,
                    right as int,
                    top as int,
                    y as int,
                    x as int,
                    cover,
                    paint,
                ),
            decreases right - x,
        {
            let ghost cur = buf@;
            put(buf, sw, x, y, color);
            proof {
                lemma_scan_pixel(
                    before,
                    cur,
                    buf@,
                    sw as int,
                    left as int,
                    right as int,
                    top as int,
                    y as int,
                    x as int,
                    cover,
                    paint,
                );
            }
            x += 1;
        }
        y += 1;
    }
    proof {
        lemma_scan_done(
            before,
            buf@,
            sw as int,
            sh as int,
            left as int,
            right as int,
            top as int,
            bottom as int,
            cover,
            paint,
        );
    }
}

/// Paints the upper half of the frame in the colour `sky` and the rest in
/// the colour `floor`.
pub fn fill_background(buf: &mut [u32], sw: usize, sh: usize, sky: u32, floor: u32)
    ensures
        painted(
            old(buf)@,
            final(buf)@,
            sw as int,
            sh as int,
            |x: int, y: int| true,
            |x: int, y: int|
                if y < sh as int / 2 {
                    sky
                } else {
                    floor
                },
        ),
{
    let ghost before = buf@;
    let half: usize = sh / 2;
    fill_rect(buf, sw, sh, 0, sw, 0, half, sky);
    let ghost mid = buf@;
    fill_rect(buf, sw, sh, 0, sw, half, sh, floor);
    proof {
        lemma_painted_twice(
            before,
            mid,
            buf@,
            sw as int,
            sh as int,
            |x: int, y: int| 0 <= x < sw && 0 <= y < half,
            |x: int, y: int| sky,
            |x: int, y: int| 0 <= x < sw && half <= y < sh,
            |x: int, y: int| floor,
            |x: int, y: int| true,
            |x: int, y: int|
                if y < sh as int / 2 {
                    sky
                } else {
                    floor
                },
        );
    }
}

/// Side of the square of pixels that shows one cell on the minimap.
pub const MINIMAP_SCALE: usize = 8;

/// Distance of the minimap from the right and the top of the frame.
pub const MINIMAP_MARGIN: usize = 8;

/// Side of the square of pixels that shows the player on the minimap.
pub const PLAYER_SIZE: usize = 3;

/// Pixel of a solid cell on the minimap.
pub const MINIMAP_WALL: u32 = 0xFF22_2222;

/// Pixel of a vacant cell on the minimap.
pub const MINIMAP_FLOOR: u32 = 0xFFFF_4444;

/// Pixel of the player on the minimap.
pub const MINIMAP_PLAYER: u32 = 0xFF00_00FF;

/// Column of the left edge of the minimap of a grid `width` cells wide in a
/// frame `sw` wide: its margin from the right edge where the frame is wide
/// enough, the left edge of the frame otherwise.
pub open spec fn minimap_left(sw: int, width: int) -> int {
    if sw >= width * MINIMAP_SCALE + MINIMAP_MARGIN {
        sw - (width * MINIMAP_SCALE + MINIMAP_MARGIN)
    } else {
        0
    }
}

/// The pixel `(x, y)` shows a cell of the grid.
pub open spec fn on_minimap(grid: Grid, sw: int, x: int, y: int) -> bool {
    let left = minimap_left(sw, grid.width);
    &&& left <= x < left + grid.width * MINIMAP_SCALE
    &&& MINIMAP_MARGIN <= y < MINIMAP_MARGIN + grid.height * MINIMAP_SCALE
}

/// What the minimap shows at the pixel `(x, y)`.
pub open spec fn minimap_pixel(grid: Grid, sw: int, x: int, y: int) -> u32 {
    let left = minimap_left(sw, grid.width);
    let scale = MINIMAP_SCALE as int;
    if grid.is_solid((x - left) / scale, (y - MINIMAP_MARGIN) / scale) {
        MINIMAP_WALL
    } else {
        MINIMAP_FLOOR
    }
}

/// The pixel `(x, y)` shows the player, who stands in the cell `(px, py)`.
pub open spec fn on_player(grid: Grid, sw: int, px: int, py: int, x: int, y: int) -> bool {
    let left = minimap_left(sw, grid.width) + px * MINIMAP_SCALE;
    let top = MINIMAP_MARGIN + py * MINIMAP_SCALE;
    left <= x < left + PLAYER_SIZE && top <= y < top + PLAYER_SIZE
}

/// Paints the grid into the top right corner of the frame, one square per
/// cell, and over it the player, who stands in the cell `(px, py)`.
#[verifier::loop_isolation(false)]
pub fn draw_minimap_rgba(
    buf: &mut [u32],
    sw: usize,
    sh: usize,
    map: &GridMap,
    px: usize,
    py: usize,
)
    ensures
        painted(
            old(buf)@,
            final(buf)@,
            sw as int,
            sh as int,
            |x: int, y: int|
                on_player(map@, sw as int, px as int, py as int, x, y) || on_minimap(
                    map@,
                    sw as int,
                    x,
                    y,
                ),
            |x: int, y: int|
                if on_player(map@, sw as int, px as int, py as int, x, y) {
                    MINIMAP_PLAYER
                } else {
                    minimap_pixel(map@, sw as int, x, y)
                },
        ),
{
    let ghost before = buf@;
    let ghost grid = map@;
    let ghost cover = |x: int, y: int| on_minimap(grid, sw as int, x, y);
    let ghost paint = |x: int, y: int| minimap_pixel(grid, sw as int, x, y);
    let w: u64 = map.width() as u64;
    let h: u64 = map.height() as u64;
    let scale: u64 = MINIMAP_SCALE as u64;
    let margin: u64 = MINIMAP_MARGIN as u64;
    let left: usize = if sw as u64 >= w * scale + margin {
        (sw as u64 - (w * scale + margin)) as usize
    } else {
        0
    };
    let right: usize = clip(left as u128 + (w * scale) as u128, sw);
    let top: usize = clip(margin as u128, sh);
    let bottom: usize = clip((margin + h * scale) as u128, sh);
    let mut y: usize = top;
    while y < bottom
        invariant
            top <= y <= bottom,
            scan_state(
                before,
                buf@,
                sw as int,
                left as int,
                right as int,
                top as int,
                y as int,
                left as int,
                cover,
                paint,
            ),
        decreases bottom - y,
    {
        let mut x: usize = left;
        while x < right
            invariant
                left <= x <= right,
                y < bottom,
                scan_state(
                    before,
                    buf@,
                    sw as int,
                    left as int,
                    right as int,
                    top as int,
                    y as int,
                    x as int,
                    cover,
                    paint,
                ),
            decreases right - x,
        {
            let cell_x: usize = (x - left) / MINIMAP_SCALE;
            let cell_y: usize = (y - MINIMAP_MARGIN) / MINIMAP_SCALE;
            let pixel: u32 = if map.is_solid(cell_x as i32, cell_y as i32) {
                MINIMAP_WALL
            } else {
                MINIMAP_FLOOR
            };
            let ghost cur = buf@;
            put(buf, sw, x, y, pixel);
            proof {
                lemma_scan_pixel(
                    before,
                    cur,
                    buf@,
                    sw as int,
                    left as int,
                    right as int,
                    top as int,
                    y as int,
                    x as int,
                    cover,
                    paint,
                );
            }
            x += 1;
        }
        y += 1;
    }
    proof {
        lemma_scan_done(
            before,
            buf@,
            sw as int,
            sh as int,
            left as int,
            right as int,
            top as int,
            bottom as int,
            cover,
            paint,
        );
    }
    let ghost mid = buf@;
    let player_left: u128 = left as u128 + px as u128 * scale as u128;
    let player_top: u128 = margin as u128 + py as u128 * scale as u128;
    let x0: usize = clip(player_left, sw);
    let x1: usize = clip(player_left + PLAYER_SIZE as u128, sw);
    let y0: usize = clip(player_top, sh);
    let y1: usize = clip(player_top + PLAYER_SIZE as u128, sh);
    fill_rect(buf, sw, sh, x0, x1, y0, y1, MINIMAP_PLAYER);
    proof {
        lemma_painted_twice(
            before,
            mid,
            buf@,
            sw as int,
            sh as int,
            cover,
            paint,
            |x: int, y: int| x0 <= x < x1 && y0 <= y < y1,
            |x: int, y: int| MINIMAP_PLAYER,
            |x: int, y: int|
                on_player(map@, sw as int, px as int, py as int, x, y) || on_minimap(
                    map@,
                    sw as int,
                    x,
                    y,
                ),
            |x: int, y: int|
                if on_player(map@, sw as int, px as int, py as int, x, y) {
                    MINIMAP_PLAYER
                } else {
                    minimap_pixel(map@, sw as int, x, y)
                },
        );
    }
}

/// The pixel of a column of a frame under the palette `palette`: the colour
/// of its wall, at half brightness where the ray hit a boundary along `y`.
pub open spec fn column_pixel(palette: Palette, column: ColumnSpan) -> u32 {
    pixel_of(shaded(palette.wall(column.wall), column.side == SIDE_Y)) as u32
}

/// The pixel `(x, y)` belongs to one of the first `n` of the columns.
pub open spec fn on_columns(columns: Seq<ColumnSpan>, n: int, x: int, y: int) -> bool {
    0 <= x < n && columns[x].y0 <= y <= columns[x].y1
}

/// Paints the columns of a frame, each in the colour of its wall.
pub fn draw_frame(buf: &mut [u32], sw: usize, sh: usize, frame: &Frame, colors: &LevelColors)
    ensures
        painted(
            old(buf)@,
            final(buf)@,
            sw as int,
            sh as int,
            |x: int, y: int| on_columns(frame@.columns, frame@.columns.len() as int, x, y),
            |x: int, y: int| column_pixel(colors@, frame@.columns[x]),
        ),
{
    let ghost before = buf@;
    let ghost palette = colors@;
    let columns = frame.columns();
    let ghost cols = columns@;
    let mut k: usize = 0;
    assert(painted(
        before,
        buf@,
        sw as int,
        sh as int,
        |x: int, y: int| on_columns(cols, 0, x, y),
        |x: int, y: int| column_pixel(palette, cols[x]),
    ));
    while k < columns.len()
        invariant
            k <= columns.len(),
            cols == columns@,
            cols == frame@.columns,
            frame@.wf(),
            palette == colors@,
            painted(
                before,
                buf@,
                sw as int,
                sh as int,
                |x: int, y: int| on_columns(cols, k as int, x, y),
                |x: int, y: int| column_pixel(palette, cols[x]),
            ),
        decreases columns.len() - k,
    {
        let column = columns[k];
        assert(frame@.column_ok(k as int));
        let pixel = wall_color_shaded_rgba_rgb(colors.wall_rgb(column.wall), column.side == SIDE_Y);
        let ghost mid = buf@;
        let y0: usize = column.y0 as usize;
        let y1: usize = column.y1 as usize + 1;
        fill_rect(buf, sw, sh, k, k + 1, y0, y1, pixel);
        proof {
            lemma_painted_twice(
                before,
                mid,
                buf@,
                sw as int,
                sh as int,
                |x: int, y: int| on_columns(cols, k as int, x, y),
                |x: int, y: int| column_pixel(palette, cols[x]),
                |x: int, y: int| k <= x < k + 1 && y0 <= y < y1,
                |x: int, y: int| pixel,
                |x: int, y: int| on_columns(cols, k as int + 1, x, y),
                |x: int, y: int| column_pixel(palette, cols[x]),
            );
        }
        k += 1;
    }
}

} // verus!
