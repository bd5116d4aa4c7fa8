use raycaster_engine::map::{GridMap, MapError, GOAL_MARK, SENTINEL};

fn rows(lines: &[&str]) -> Vec<String> {
    lines.iter().map(|l| l.to_string()).collect()
}

fn load(lines: &[&str]) -> GridMap {
    GridMap::load_from_rows(&rows(lines)).unwrap()
}

#[test]
fn loads_walled_room() {
    let map = load(&["1 1 1", "1 0 1", "1 1 1"]);
    assert_eq!(map.width(), 3);
    assert_eq!(map.height(), 3);
    assert!(!map.is_solid(1, 1));
    assert_eq!(map.get(1, 1), 0);
    for y in 0..3 {
        for x in 0..3 {
            if (x, y) != (1, 1) {
                assert!(map.is_solid(x, y));
                assert_eq!(map.get(x, y), 1);
            }
        }
    }
    assert_eq!(map.goal(), None);
}

#[test]
fn index_is_defined_exactly_inside() {
    let map = load(&["1 2 3 4", "5 6 7 8", "1 0 0 1"]);
    for y in -3..7 {
        for x in -3..7 {
            let inside = 0 <= x && x < 4 && 0 <= y && y < 3;
            assert_eq!(map.index(x, y).is_some(), inside);
            if inside {
                assert_eq!(map.index(x, y), Some((y * 4 + x) as usize));
            }
        }
    }
    assert_eq!(map.index(i32::MAX, i32::MAX), None);
    assert_eq!(map.index(i32::MIN, 0), None);
}

#[test]
fn rows_are_stored_top_first() {
    let map = load(&["1 2 3 4", "5 6 7 8", "1 0 0 1"]);
    assert_eq!(map.get(0, 0), 1);
    assert_eq!(map.get(3, 0), 4);
    assert_eq!(map.get(0, 1), 5);
    assert_eq!(map.get(2, 1), 7);
    assert_eq!(map.get(1, 2), 0);
    assert_eq!(map.get(3, 2), 1);
}

#[test]
fn checked_loading_is_loading() {
    let small = rows(&["1 1 1", "1 9 1", "1 1 1"]);
    let map = GridMap::try_load_from_rows(&small).unwrap().unwrap();
    assert_eq!(map.cells(), load(&["1 1 1", "1 9 1", "1 1 1"]).cells());
    assert_eq!(map.goal(), Some((1, 1)));
    let ragged = rows(&["1 1", "1"]);
    assert_eq!(
        GridMap::try_load_from_rows(&ragged).map(|r| r.err()),
        Some(Some(MapError::RowWidthMismatch { line: 1, expected: 2, found: 1 }))
    );
    assert!(GridMap::try_load_from_rows(&Vec::new()).unwrap().is_ok());
}

#[test]
fn cells_are_row_major() {
    let map = load(&["1 2 3 4", "5 6 7 8", "1 0 9 1"]);
    assert_eq!(map.cells(), &vec![1, 2, 3, 4, 5, 6, 7, 8, 1, 0, 0, 1]);
    assert_eq!(map.cells().len(), (map.width() * map.height()) as usize);
    for y in 0..3 {
        for x in 0..4 {
            assert_eq!(map.get(x, y), map.cells()[map.index(x, y).unwrap()]);
        }
    }
}

#[test]
fn outside_is_solid_sentinel() {
    let map = load(&["0 0", "0 0"]);
    for (x, y) in [(-1, 0), (0, -1), (2, 0), (0, 2), (2, 2), (i32::MIN, i32::MAX)] {
        assert!(map.is_solid(x, y));
        assert_eq!(map.get(x, y), SENTINEL);
        assert_eq!(map.index(x, y), None);
    }
    for (x, y) in [(0, 0), (1, 0), (0, 1), (1, 1)] {
        assert!(!map.is_solid(x, y));
        assert_ne!(map.get(x, y), SENTINEL);
    }
    assert_eq!(SENTINEL, 255);
}

#[test]
fn goal_token_is_vacant_goal() {
    let map = load(&["1 1 1 1", "1 0 9 1", "1 1 1 1"]);
    assert_eq!(GOAL_MARK, 9);
    assert_eq!(map.goal(), Some((2, 1)));
    assert_eq!(map.get(2, 1), 0);
    assert!(!map.is_solid(2, 1));
    assert!(map.is_goal(2, 1));
    assert!(!map.is_goal(1, 1));
    assert!(!map.is_goal(1, 2));
    assert!(!map.is_goal(-1, -1));
}

#[test]
fn last_goal_token_wins() {
    let map = load(&["9 0 9", "0 9 0", "0 0 0"]);
    assert_eq!(map.goal(), Some((1, 1)));
    for (x, y) in [(0, 0), (2, 0), (1, 1)] {
        assert_eq!(map.get(x, y), 0);
    }
    let map = load(&["9 9"]);
    assert_eq!(map.goal(), Some((1, 0)));
}

#[test]
fn goal_token_with_sign_or_zeros() {
    let map = load(&["1 +9 1"]);
    assert_eq!(map.goal(), Some((1, 0)));
    let map = load(&["009 1 1"]);
    assert_eq!(map.goal(), Some((0, 0)));
    assert_eq!(map.get(0, 0), 0);
}

#[test]
fn malformed_tokens_are_vacant() {
    let map = load(&["x -1 256 1.5 +7 007 + 2a 255 99999999999999999999 ٣"]);
    assert_eq!(map.width(), 11);
    assert_eq!(map.height(), 1);
    let expected = [0u8, 0, 0, 0, 7, 7, 0, 0, 255, 0, 0];
    for (x, v) in expected.iter().enumerate() {
        assert_eq!(map.get(x as i32, 0), *v);
    }
}

#[test]
fn blank_rows_are_skipped() {
    let map = load(&["", "   ", "1 2", "\t", "3 4", "\u{a0}\u{3000}", ""]);
    assert_eq!(map.width(), 2);
    assert_eq!(map.height(), 2);
    assert_eq!(map.get(0, 0), 1);
    assert_eq!(map.get(1, 0), 2);
    assert_eq!(map.get(0, 1), 3);
    assert_eq!(map.get(1, 1), 4);
}

#[test]
fn any_white_space_separates() {
    let map = load(&["  1\t2\u{a0}3   4\u{2003}5\r", "6 7 8 9 1"]);
    assert_eq!(map.width(), 5);
    for x in 0..5 {
        assert_eq!(map.get(x, 0), (x + 1) as u8);
    }
    assert_eq!(map.goal(), Some((3, 1)));
}

#[test]
fn empty_text_is_empty_grid() {
    for lines in [&[][..], &["", "  "][..]] {
        let map = load(lines);
        assert_eq!(map.width(), 0);
        assert_eq!(map.height(), 0);
        assert_eq!(map.goal(), None);
        assert!(map.is_solid(0, 0));
        assert_eq!(map.get(0, 0), SENTINEL);
        assert_eq!(map.index(0, 0), None);
    }
}

#[test]
fn rejects_ragged_rows() {
    let r = GridMap::load_from_rows(&rows(&["1 1 1", "", "1 0", "1 1 1"]));
    assert_eq!(
        r.err(),
        Some(MapError::RowWidthMismatch { line: 2, expected: 3, found: 2 })
    );
    let r = GridMap::load_from_rows(&rows(&["1", "1 0 0 0"]));
    assert_eq!(
        r.err(),
        Some(MapError::RowWidthMismatch { line: 1, expected: 1, found: 4 })
    );
}

#[test]
fn first_ragged_row_is_reported() {
    let r = GridMap::load_from_rows(&rows(&[" ", "1 1", "1 1", "1", "1 1 1"]));
    assert_eq!(
        r.err(),
        Some(MapError::RowWidthMismatch { line: 3, expected: 2, found: 1 })
    );
}

#[test]
fn sentinel_value_may_be_a_cell() {
    let map = load(&["255 0"]);
    assert_eq!(map.get(0, 0), SENTINEL);
    assert!(map.index(0, 0).is_some());
    assert!(map.is_solid(0, 0));
}

#[test]
fn clone_is_the_same_grid() {
    let map = load(&["1 2", "9 4"]);
    let copy = map.clone();
    assert_eq!(copy.width(), map.width());
    assert_eq!(copy.height(), map.height());
    assert_eq!(copy.goal(), Some((0, 1)));
    for y in -1..3 {
        for x in -1..3 {
            assert_eq!(copy.get(x, y), map.get(x, y));
        }
    }
}

#[test]
fn goal_is_reported_when_the_cell_is_entered() {
    let map = load(&["1 1 1 1 1", "1 9 0 0 1", "1 1 1 1 1"]);
    let mut x = 3.5f32;
    let y = 1.5f32;
    let mut seen = Vec::new();
    for _ in 0..30 {
        seen.push((x, map.is_goal(x as i32, y as i32)));
        x -= 0.1;
    }
    let first = seen.iter().position(|(_, at_goal)| *at_goal).unwrap();
    for (i, (px, at_goal)) in seen.iter().enumerate() {
        assert_eq!(*at_goal, (*px as i32) == 1);
        if i < first {
            assert!((*px as i32) > 1);
        }
    }
    assert!(first > 0);
    assert_eq!(seen[first].0 as i32, 1);
    assert_eq!(seen[first - 1].0 as i32, 2);
}
