//! What a level looks and sounds like, chosen by the name of its file.

use crate::text::chars_of;
use crate::textures::Rgb;
use std::collections::HashMap;
use vstd::prelude::*;

verus! {

broadcast use vstd::std_specs::hash::group_hash_axioms;

/// `needle` occurs in `hay` as a run of consecutive characters.
pub open spec fn contains_text(hay: Seq<char>, needle: Seq<char>) -> bool {
    exists|i: int| occurs_at(hay, needle, i)
}

/// `needle` occurs in `hay` at position `i`.
pub open spec fn occurs_at(hay: Seq<char>, needle: Seq<char>, i: int) -> bool {
    0 <= i <= hay.len() - needle.len() && hay.subrange(i, i + needle.len()) == needle
}

/// Whether `needle` occurs in `hay`.
pub fn contains_chars(hay: &Vec<char>, needle: &Vec<char>) -> (found: bool)
    ensures
        found == contains_text(hay@, needle@),
{
    if needle.len() > hay.len() {
        return false;
    }
    let last: usize = hay.len() - needle.len();
    let mut i: usize = 0;
    while i <= last
        invariant
            i <= last + 1,
            last == hay.len() - needle.len(),
            forall|j: int| 0 <= j < i ==> !occurs_at(hay@, needle@, j),
        decreases last + 1 - i,
    {
        let mut k: usize = 0;
        while k < needle.len() && hay[i + k] == needle[k]
            invariant
                k <= needle.len(),
                i + needle.len() <= hay.len(),
                forall|m: int| 0 <= m < k ==> hay@[i + m] == needle@[m],
            decreases needle.len() - k,
        {
            k += 1;
        }
        if k == needle.len() {
            assert(hay@.subrange(i as int, i + needle.len()) =~= needle@);
            assert(occurs_at(hay@, needle@, i as int));
            return true;
        }
        assert(!occurs_at(hay@, needle@, i as int)) by {
            if occurs_at(hay@, needle@, i as int) {
                assert(hay@.subrange(i as int, i + needle.len())[k as int] == needle@[k as int]);
            }
        }
        i += 1;
    }
    false
}

/// Whether the text `needle` occurs in the text `hay`.
pub fn contains_str(hay: &str, needle: &str) -> (found: bool)
    ensures
        found == contains_text(hay@, needle@),
{
    let h = chars_of(hay);
    let n = chars_of(needle);
    contains_chars(&h, &n)
}

/// Mathematical model of the colours of a level.
pub struct Palette {
    pub sky: Rgb,
    pub floor: Rgb,
    pub walls: Map<u8, Rgb>,
}

/// The colours of a level: sky, floor, and one colour per wall identifier.
pub struct LevelColors {
    pub sky: Rgb,
    pub floor: Rgb,
    pub wall_colors: HashMap<u8, Rgb>,
}

impl View for LevelColors {
    type V = Palette;

    open spec fn view(&self) -> Palette {
        Palette { sky: self.sky, floor: self.floor, walls: self.wall_colors@ }
    }
}

/// Colour of a wall whose identifier a palette does not list.
pub open spec fn plain_wall() -> Rgb {
    (100, 100, 100)
}

impl Palette {
    /// The colour of the wall with identifier `id`.
    pub open spec fn wall(self, id: u8) -> Rgb {
        if self.walls.contains_key(id) {
            self.walls[id]
        } else {
            plain_wall()
        }
    }
}

/// A palette with the three wall colours `w1`, `w2` and `w3`.
pub open spec fn palette(sky: Rgb, floor: Rgb, w1: Rgb, w2: Rgb, w3: Rgb) -> Palette {
    Palette { sky, floor, walls: Map::empty().insert(1u8, w1).insert(2u8, w2).insert(3u8, w3) }
}

/// The palette of the level stored under `name`: that of the first theme
/// whose name occurs in `name`, or the plain one.
pub open spec fn level_palette(name: Seq<char>) -> Palette {
    if contains_text(name, "banana_land"@) {
        palette((121, 201, 104), (3, 134, 173), (0, 200, 214), (44, 168, 7), (34, 155, 163))
    } else if contains_text(name, "the_cave"@) {
        palette((60, 60, 60), (60, 60, 60), (87, 87, 87), (74, 74, 74), (68, 68, 68))
    } else if contains_text(name, "taylors_special"@) {
        palette((255, 240, 153), (89, 18, 102), (194, 126, 207), (207, 126, 162), (158, 85, 151))
    } else if contains_text(name, "deep_jungle"@) {
        palette((64, 11, 11), (18, 54, 21), (12, 102, 27), (16, 38, 54), (82, 82, 82))
    } else if contains_text(name, "monkey_temple"@) {
        palette((189, 146, 77), (82, 182, 82), (110, 110, 110), (78, 110, 109), (101, 142, 156))
    } else {
        palette((135, 206, 235), (68, 68, 68), (170, 170, 170), (136, 136, 136), (102, 102, 102))
    }
}

/// The music of the level stored under `name`: that of the first theme
/// whose name occurs in `name`, or the default tune.
pub open spec fn level_tune(name: Seq<char>) -> Seq<char> {
    if contains_text(name, "banana_land"@) {
        "assets/music/Jungle.mp3"@
    } else if contains_text(name, "deep_jungle"@) {
        "assets/music/monkeys.mp3"@
    } else if contains_text(name, "the_cave"@) {
        "assets/music/Tropical Adventure.mp3"@
    } else if contains_text(name, "taylors_special"@) {
        "assets/music/shakeitoff.mp3"@
    } else {
        "assets/music/Jungle.mp3"@
    }
}

/// The colours `sky` and `floor` with the three wall colours.
fn make_colors(sky: Rgb, floor: Rgb, w1: Rgb, w2: Rgb, w3: Rgb) -> (colors: LevelColors)
    ensures
        colors@ == palette(sky, floor, w1, w2, w3),
{
    let mut wall_colors: HashMap<u8, Rgb> = HashMap::new();
    wall_colors.insert(1, w1);
    wall_colors.insert(2, w2);
    wall_colors.insert(3, w3);
    LevelColors { sky, floor, wall_colors }
}

/// The colours of the level stored under `level_name`.
pub fn get_level_colors(level_name: &str) -> (colors: LevelColors)
    ensures
        colors@ == level_palette(level_name@),
{
    let name = chars_of(level_name);
    if contains_chars(&name, &chars_of("banana_land")) {
        make_colors((121, 201, 104), (3, 134, 173), (0, 200, 214), (44, 168, 7), (34, 155, 163))
    } else if contains_chars(&name, &chars_of("the_cave")) {
        make_colors((60, 60, 60), (60, 60, 60), (87, 87, 87), (74, 74, 74), (68, 68, 68))
    } else if contains_chars(&name, &chars_of("taylors_special")) {
        make_colors(
            (255, 240, 153),
            (89, 18, 102),
            (194, 126, 207),
            (207, 126, 162),
            (158, 85, 151),
        )
    } else if contains_chars(&name, &chars_of("deep_jungle")) {
        make_colors((64, 11, 11), (18, 54, 21), (12, 102, 27), (16, 38, 54), (82, 82, 82))
    } else if contains_chars(&name, &chars_of("monkey_temple")) {
        make_colors(
            (189, 146, 77),
            (82, 182, 82),
            (110, 110, 110),
            (78, 110, 109),
            (101, 142, 156),
        )
    } else {
        make_colors(
            (135, 206, 235),
            (68, 68, 68),
            (170, 170, 170),
            (136, 136, 136),
            (102, 102, 102),
        )
    }
}

/// The path of the music of the level stored under `level_name`.
pub fn level_music(level_name: &str) -> (path: &'static str)
    ensures
        path@ == level_tune(level_name@),
{
    let name = chars_of(level_name);
    if contains_chars(&name, &chars_of("banana_land")) {
        "assets/music/Jungle.mp3"
    } else if contains_chars(&name, &chars_of("deep_jungle")) {
        "assets/music/monkeys.mp3"
    } else if contains_chars(&name, &chars_of("the_cave")) {
        "assets/music/Tropical Adventure.mp3"
    } else if contains_chars(&name, &chars_of("taylors_special")) {
        "assets/music/shakeitoff.mp3"
    } else {
        "assets/music/Jungle.mp3"
    }
}

impl LevelColors {
    /// The colour of the wall with identifier `id`.
    pub fn wall_rgb(&self, id: u8) -> (rgb: Rgb)
        ensures
            rgb == self@.wall(id),
    {
        match self.wall_colors.get(&id) {
            Some(rgb) => *rgb,
            None => (100, 100, 100),
        }
    }
}

} // verus!
