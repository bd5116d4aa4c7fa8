use raycaster_engine::levels::get_level_colors;
use raycaster_engine::map::GridMap;
use raycaster_engine::raycast::{Frame, RayWalk};
use raycaster_engine::textures::wall_color_shaded_rgba_rgb;
use raycaster_engine::ui::{
    decimal_digits, draw_fps_rgba, draw_frame, draw_minimap_rgba, fill_background, fill_rect,
    glyph_has, MINIMAP_FLOOR, MINIMAP_PLAYER, MINIMAP_WALL, TEXT_COLOR,
};

fn load(lines: &[&str]) -> GridMap {
    let rows: Vec<String> = lines.iter().map(|l| l.to_string()).collect();
    GridMap::load_from_rows(&rows).unwrap()
}

const DIGITS: [[u8; 15]; 10] = [
    [1, 1, 1, 1, 0, 1, 1, 0, 1, 1, 0, 1, 1, 1, 1],
    [0, 1, 0, 1, 1, 0, 0, 1, 0, 0, 1, 0, 1, 1, 1],
    [1, 1, 1, 0, 0, 1, 1, 1, 1, 1, 0, 0, 1, 1, 1],
    [1, 1, 1, 0, 0, 1, 0, 1, 1, 0, 0, 1, 1, 1, 1],
    [1, 0, 1, 1, 0, 1, 1, 1, 1, 0, 0, 1, 0, 0, 1],
    [1, 1, 1, 1, 0, 0, 1, 1, 1, 0, 0, 1, 1, 1, 1],
    [1, 1, 1, 1, 0, 0, 1, 1, 1, 1, 0, 1, 1, 1, 1],
    [1, 1, 1, 0, 0, 1, 0, 0, 1, 0, 0, 1, 0, 0, 1],
    [1, 1, 1, 1, 0, 1, 1, 1, 1, 1, 0, 1, 1, 1, 1],
    [1, 1, 1, 1, 0, 1, 1, 1, 1, 0, 0, 1, 1, 1, 1],
];

fn plot_fps(buf: &mut [u32], sw: usize, sh: usize, fps: u32) {
    let txt = format!("{}", fps);
    let mut x = 8usize;
    for ch in txt.chars() {
        let d = ch.to_digit(10).unwrap();
        for py in 0..5 {
            for px in 0..3 {
                if DIGITS[d as usize][py * 3 + px] == 1 {
                    for sy in 0..4 {
                        for sx in 0..4 {
                            let xx = x + px * 4 + sx;
                            let yy = 8 + py * 4 + sy;
                            if xx < sw && yy < sh {
                                buf[yy * sw + xx] = 0xFF0000FF;
                            }
                        }
                    }
                }
            }
        }
        x += 16;
    }
}

fn plot_minimap(buf: &mut [u32], sw: usize, sh: usize, map: &GridMap, px: usize, py: usize) {
    let mw = map.width() as usize * 8;
    let off_x = sw.saturating_sub(mw + 8);
    for my in 0..map.height() as usize {
        for mx in 0..map.width() as usize {
            let id = map.get(mx as i32, my as i32);
            let c = if id > 0 { 0xFF222222u32 } else { 0xFFFF4444u32 };
            for dy in 0..8 {
                for dx in 0..8 {
                    let x = off_x + mx * 8 + dx;
                    let y = 8 + my * 8 + dy;
                    if x < sw && y < sh {
                        buf[y * sw + x] = c;
                    }
                }
            }
        }
    }
    let jx = off_x + px * 8;
    let jy = 8 + py * 8;
    for dy in 0..3 {
        for dx in 0..3 {
            let x = jx + dx;
            let y = jy + dy;
            if x < sw && y < sh {
                buf[y * sw + x] = 0xFF0000FF;
            }
        }
    }
}

fn noise(n: usize) -> Vec<u32> {
    (0..n as u32).map(|i| i.wrapping_mul(2654435761) | 1).collect()
}

#[test]
fn glyphs_are_the_digit_pictures() {
    for d in 0..10u8 {
        for row in 0..5 {
            for col in 0..3 {
                assert_eq!(glyph_has(d, col, row), DIGITS[d as usize][row * 3 + col] == 1);
            }
        }
    }
}

#[test]
fn digits_are_decimal() {
    assert_eq!(decimal_digits(0), vec![0]);
    assert_eq!(decimal_digits(7), vec![7]);
    assert_eq!(decimal_digits(10), vec![1, 0]);
    assert_eq!(decimal_digits(60), vec![6, 0]);
    assert_eq!(decimal_digits(1234567890), vec![1, 2, 3, 4, 5, 6, 7, 8, 9, 0]);
    assert_eq!(decimal_digits(u32::MAX), vec![4, 2, 9, 4, 9, 6, 7, 2, 9, 5]);
    for n in (0..100_000u32).step_by(37) {
        let expected: Vec<u8> = format!("{}", n).bytes().map(|b| b - b'0').collect();
        assert_eq!(decimal_digits(n), expected);
    }
}

#[test]
fn counter_is_drawn_dot_by_dot() {
    for (sw, sh) in [(960usize, 540usize), (200, 40), (30, 30), (17, 12), (8, 8), (1, 1), (0, 5), (5, 0)] {
        for fps in [0u32, 1, 7, 10, 59, 60, 144, 1000, 98765, u32::MAX] {
            let mut got = noise(sw * sh + 3);
            let mut expected = got.clone();
            draw_fps_rgba(&mut got, sw, sh, fps);
            plot_fps(&mut expected, sw, sh, fps);
            assert_eq!(got, expected, "{}x{} {}", sw, sh, fps);
        }
    }
}

#[test]
fn counter_pixels() {
    let (sw, sh) = (64usize, 32usize);
    let mut buf = vec![0u32; sw * sh];
    draw_fps_rgba(&mut buf, sw, sh, 1);
    assert_eq!(TEXT_COLOR, 0xFF0000FF);
    let lit = |x: usize, y: usize| buf[y * sw + x] == TEXT_COLOR;
    assert!(!lit(8, 8));
    assert!(lit(12, 8));
    assert!(lit(15, 11));
    assert!(!lit(16, 8));
    assert!(lit(8, 12));
    assert!(lit(8, 24) && lit(12, 24) && lit(16, 24) && lit(19, 27));
    assert!(!lit(20, 24));
    assert!(!lit(12, 28));
    assert!(!lit(12, 7));
    assert_eq!(buf.iter().filter(|p| **p == TEXT_COLOR).count(), 8 * 16);
}

#[test]
fn minimap_is_drawn_cell_by_cell() {
    let maps = [
        load(&["1 1 1", "1 0 1", "1 9 1"]),
        load(&["1 0 2 0 3 0 4", "0 0 0 0 0 0 0"]),
        load(&[]),
        load(&["1"]),
    ];
    for map in &maps {
        for (sw, sh) in [(960usize, 540usize), (64, 48), (40, 20), (24, 9), (8, 8), (3, 40), (1, 1), (0, 0)] {
            for (px, py) in [(0usize, 0usize), (1, 1), (2, 0), (6, 1), (50, 50), (1000, 0)] {
                let mut got = noise(sw * sh + 1);
                let mut expected = got.clone();
                draw_minimap_rgba(&mut got, sw, sh, map, px, py);
                plot_minimap(&mut expected, sw, sh, map, px, py);
                assert_eq!(got, expected, "{}x{} player {},{}", sw, sh, px, py);
            }
        }
    }
}

#[test]
fn minimap_pixels() {
    let map = load(&["1 0", "0 9"]);
    let (sw, sh) = (40usize, 30usize);
    let mut buf = vec![0u32; sw * sh];
    draw_minimap_rgba(&mut buf, sw, sh, &map, 1, 0);
    let at = |x: usize, y: usize| buf[y * sw + x];
    assert_eq!(at(15, 8), 0);
    assert_eq!(at(16, 7), 0);
    assert_eq!(at(16, 8), MINIMAP_WALL);
    assert_eq!(at(23, 15), MINIMAP_WALL);
    assert_eq!(at(16, 16), MINIMAP_FLOOR);
    assert_eq!(at(24, 8), MINIMAP_PLAYER);
    assert_eq!(at(26, 10), MINIMAP_PLAYER);
    assert_eq!(at(27, 8), MINIMAP_FLOOR);
    assert_eq!(at(24, 11), MINIMAP_FLOOR);
    assert_eq!(at(31, 23), MINIMAP_FLOOR);
    assert_eq!(at(32, 23), 0);
    assert_eq!(at(31, 24), 0);
    assert_eq!(MINIMAP_WALL, 0xFF222222);
    assert_eq!(MINIMAP_FLOOR, 0xFFFF4444);
    assert_eq!(MINIMAP_PLAYER, 0xFF0000FF);
}

#[test]
fn huge_player_cell_draws_no_player() {
    let map = load(&["1 0", "0 0"]);
    let (sw, sh) = (40usize, 30usize);
    let mut got = vec![0u32; sw * sh];
    let mut expected = got.clone();
    draw_minimap_rgba(&mut got, sw, sh, &map, usize::MAX, usize::MAX);
    plot_minimap(&mut expected, sw, sh, &map, 1000, 1000);
    assert_eq!(got, expected);
    assert!(!got.contains(&MINIMAP_PLAYER));
}

#[test]
fn rectangle_is_clipped_to_the_frame() {
    let (sw, sh) = (5usize, 4usize);
    let mut buf = vec![0u32; sw * sh + 2];
    fill_rect(&mut buf, sw, sh, 3, 9, 2, 9, 7);
    let mut expected = vec![0u32; sw * sh + 2];
    for (x, y) in [(3, 2), (4, 2), (3, 3), (4, 3)] {
        expected[y * sw + x] = 7;
    }
    assert_eq!(buf, expected);
    fill_rect(&mut buf, sw, sh, 2, 2, 0, 4, 9);
    fill_rect(&mut buf, sw, sh, 4, 1, 0, 4, 9);
    fill_rect(&mut buf, sw, sh, 0, 5, 3, 1, 9);
    fill_rect(&mut buf, sw, sh, 5, 7, 0, 4, 9);
    fill_rect(&mut buf, sw, sh, 0, 5, 4, 6, 9);
    assert_eq!(buf, expected);
    fill_rect(&mut buf, sw, sh, 0, usize::MAX, 0, usize::MAX, 1);
    assert_eq!(&buf[..20], &[1u32; 20]);
    assert_eq!(&buf[20..], &[0u32, 0]);
}

#[test]
fn background_is_sky_over_floor() {
    for (sw, sh) in [(4usize, 6usize), (3, 5), (7, 1), (1, 2), (0, 3), (3, 0)] {
        let mut buf = noise(sw * sh + 2);
        let before = buf.clone();
        fill_background(&mut buf, sw, sh, 0xAA, 0xBB);
        for y in 0..sh {
            for x in 0..sw {
                let expected = if y < sh / 2 { 0xAA } else { 0xBB };
                assert_eq!(buf[y * sw + x], expected);
            }
        }
        assert_eq!(&buf[sw * sh..], &before[sw * sh..]);
    }
}

#[test]
fn frame_columns_are_painted_in_wall_colours() {
    let map = load(&["1 1 1", "1 0 3", "1 2 1"]);
    let colors = get_level_colors("levels/the_cave.map");
    let (sw, sh) = (4usize, 10usize);
    let mut east = RayWalk::start(1, 1, false, false);
    east.advance(&map, true);
    let mut south = RayWalk::start(1, 1, false, false);
    south.advance(&map, false);
    let mut north = RayWalk::start(1, 1, false, true);
    north.advance(&map, false);
    let mut off = RayWalk::start(7, 7, false, true);
    off.advance(&map, true);
    let frame = Frame::new(sw, sh)
        .push(&east, 4)
        .push(&south, 100)
        .push(&north, 0)
        .push(&off, 7);
    let mut buf = noise(sw * sh);
    let before = buf.clone();
    draw_frame(&mut buf, sw, sh, &frame, &colors);

    let mut expected = before.clone();
    for c in frame.columns() {
        let rgb = match c.wall {
            1 => (87, 87, 87),
            2 => (74, 74, 74),
            3 => (68, 68, 68),
            _ => (100, 100, 100),
        };
        let pixel = wall_color_shaded_rgba_rgb(rgb, c.side == 1);
        for y in c.y0 as usize..=c.y1 as usize {
            expected[y * sw + c.x] = pixel;
        }
    }
    assert_eq!(buf, expected);
    assert_eq!(buf[3 * sw], 0xFF44_4444);
    assert_eq!(buf[7 * sw], 0xFF44_4444);
    assert_eq!(buf[2 * sw], before[2 * sw]);
    assert_eq!(buf[8 * sw], before[8 * sw]);
    assert_eq!(buf[1], 0xFF25_2525);
    assert_eq!(buf[9 * sw + 1], 0xFF25_2525);
    assert_eq!(buf[5 * sw + 2], 0xFF2B_2B2B);
    assert_eq!(buf[4 * sw + 2], before[4 * sw + 2]);
    assert_eq!(buf[5 * sw + 3], 0xFF64_6464);
}

#[test]
fn partial_frame_paints_its_columns_only() {
    let map = load(&["1 1 1", "1 0 1", "1 1 1"]);
    let colors = get_level_colors("plain");
    let mut east = RayWalk::start(1, 1, false, false);
    east.advance(&map, true);
    let frame = Frame::new(8, 4).push(&east, 100);
    let mut buf = vec![0u32; 8 * 4];
    draw_frame(&mut buf, 8, 4, &frame, &colors);
    for y in 0..4 {
        assert_eq!(buf[y * 8], 0xFFAA_AAAA);
        for x in 1..8 {
            assert_eq!(buf[y * 8 + x], 0);
        }
    }
    let mut small = vec![0u32; 2 * 2];
    draw_frame(&mut small, 2, 2, &frame, &colors);
    assert_eq!(small, vec![0xFFAA_AAAA, 0, 0xFFAA_AAAA, 0]);
}

#[test]
fn short_buffer_is_painted_as_far_as_it_goes() {
    let map = load(&["1 0", "0 1"]);
    let colors = get_level_colors("plain");
    let mut east = RayWalk::start(1, 0, false, false);
    east.advance(&map, true);
    let frame = Frame::new(2, 30).push(&east, 100).push(&east, 100);
    let (sw, sh) = (32usize, 30usize);
    for len in [0usize, 1, 31, 32, 300, 500, sw * sh - 1] {
        let mut full = vec![0u32; sw * sh];
        let mut short = vec![0u32; len];
        draw_fps_rgba(&mut full, sw, sh, 42);
        draw_fps_rgba(&mut short, sw, sh, 42);
        assert_eq!(short, &full[..len]);

        draw_minimap_rgba(&mut full, sw, sh, &map, 1, 1);
        draw_minimap_rgba(&mut short, sw, sh, &map, 1, 1);
        assert_eq!(short, &full[..len]);

        fill_background(&mut full, sw, sh, 3, 4);
        fill_background(&mut short, sw, sh, 3, 4);
        assert_eq!(short, &full[..len]);

        draw_frame(&mut full, sw, sh, &frame, &colors);
        draw_frame(&mut short, sw, sh, &frame, &colors);
        assert_eq!(short, &full[..len]);

        fill_rect(&mut full, sw, sh, 5, 20, 5, 25, 9);
        fill_rect(&mut short, sw, sh, 5, 20, 5, 25, 9);
        assert_eq!(short, &full[..len]);
    }
    let mut tiny = vec![0u32; 4];
    fill_rect(&mut tiny, 3, usize::MAX, 0, 3, 0, 9, 5);
    assert_eq!(tiny, vec![5, 5, 5, 5]);
}
