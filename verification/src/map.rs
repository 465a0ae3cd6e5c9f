use vstd::prelude::*;

verus! {

/// Width of the playing field, in tiles.
pub const PLAY_WIDTH: u32 = 81;
/// Height of the playing field, in tiles.
pub const PLAY_HEIGHT: u32 = 50;
/// Width of the whole screen: the playing field plus the side panel.
pub const SCREEN_WIDTH: u32 = 100;
/// Height of the whole screen.
pub const SCREEN_HEIGHT: u32 = 50;

/// The rows of the map fall into four horizontal bands, mirrored around the
/// middle of the field:
/// 0 the outer rows at the very top and bottom,
/// 1 the base rows around the cores,
/// 2 the plaza rows in front of the bases,
/// 3 the three lanes in the middle of the field.
pub open spec fn row_band(y: int) -> int {
    if y < 3 || y >= 47 {
        0
    } else if y < 7 || y >= 43 {
        1
    } else if y < 10 || y >= 40 {
        2
    } else {
        3
    }
}

/// Which columns of a row of the given band are walkable.
pub open spec fn open_in_band(band: int, x: int) -> bool {
    if band == 0 {
        36 <= x <= 44
    } else if band == 1 {
        25 <= x <= 55
    } else if band == 2 {
        18 <= x <= 62
    } else {
        (18 <= x <= 22) || (38 <= x <= 42) || (58 <= x <= 62)
    }
}

/// A tile of the field that units can walk on.
pub open spec fn is_open_tile(x: int, y: int) -> bool {
    &&& 0 <= x < PLAY_WIDTH
    &&& 0 <= y < PLAY_HEIGHT
    &&& open_in_band(row_band(y), x)
}

/// A tile of the field that is a wall.
pub open spec fn is_wall_tile(x: int, y: int) -> bool {
    &&& 0 <= x < PLAY_WIDTH
    &&& 0 <= y < PLAY_HEIGHT
    &&& !open_in_band(row_band(y), x)
}

/// The character the map uses for a tile: `'0'` for open ground, `'#'` for a wall.
pub open spec fn tile_char(x: int, y: int) -> char {
    if is_open_tile(x, y) {
        '0'
    } else {
        '#'
    }
}

/// The text of row `y` of the map.
pub open spec fn map_row_text(y: int) -> Seq<char> {
    Seq::new(PLAY_WIDTH as nat, |x: int| tile_char(x, y))
}

/// The text of any row of the given band.
pub open spec fn band_row_text(band: int) -> Seq<char> {
    Seq::new(PLAY_WIDTH as nat, |x: int| if open_in_band(band, x) { '0' } else { '#' })
}

fn band_row(band: u8) -> (row: &'static str)
    requires
        band < 4,
    ensures
        row@ == band_row_text(band as int),
{
    if band == 0 {
        let s = "####################################000000000####################################";
        proof {
            reveal_strlit("####################################000000000####################################");
        }
        assert(s@ =~= band_row_text(0));
        s
    } else if band == 1 {
        let s = "#########################0000000000000000000000000000000#########################";
        proof {
            reveal_strlit("#########################0000000000000000000000000000000#########################");
        }
        assert(s@ =~= band_row_text(1));
        s
    } else if band == 2 {
        let s = "##################000000000000000000000000000000000000000000000##################";
        proof {
            reveal_strlit("##################000000000000000000000000000000000000000000000##################");
        }
        assert(s@ =~= band_row_text(2));
        s
    } else {
        let s = "##################00000###############00000###############00000##################";
        proof {
            reveal_strlit("##################00000###############00000###############00000##################");
        }
        assert(s@ =~= band_row_text(3));
        s
    }
}

/// Row `y` of the map, as the text the game draws: `'#'` for walls, `'0'` for open ground.
pub fn map_row(y: usize) -> (row: &'static str)
    requires
        y < PLAY_HEIGHT,
    ensures
        row@ == map_row_text(y as int),
{
    let band: u8 = if y < 3 || y >= 47 {
        0
    } else if y < 7 || y >= 43 {
        1
    } else if y < 10 || y >= 40 {
        2
    } else {
        3
    };
    let row = band_row(band);
    assert(row@ =~= map_row_text(y as int));
    row
}

/// The number of walls among the first `n` tiles of row `y`.
pub open spec fn walls_in_row_prefix(y: int, n: int) -> nat
    decreases n,
{
    if n <= 0 {
        0
    } else {
        walls_in_row_prefix(y, n - 1) + if is_wall_tile(n - 1, y) { 1nat } else { 0nat }
    }
}

/// The number of walls in the first `m` rows of the map.
pub open spec fn walls_in_rows(m: int) -> nat
    decreases m,
{
    if m <= 0 {
        0
    } else {
        walls_in_rows(m - 1) + walls_in_row_prefix(m - 1, PLAY_WIDTH as int)
    }
}

/// The number of wall tiles of the whole map.
pub open spec fn map_wall_count() -> nat {
    walls_in_rows(PLAY_HEIGHT as int)
}

/// Law: the map is the same seen from either side. Flipping it top to bottom
/// (which swaps the two bases) or left to right gives back the same map.
pub proof fn lemma_map_mirrored(x: int, y: int)
    ensures
        is_open_tile(x, y) == is_open_tile(x, PLAY_HEIGHT - 1 - y),
        is_open_tile(x, y) == is_open_tile(PLAY_WIDTH - 1 - x, y),
        is_wall_tile(x, y) == is_wall_tile(x, PLAY_HEIGHT - 1 - y),
        is_wall_tile(x, y) == is_wall_tile(PLAY_WIDTH - 1 - x, y),
{
}

/// Law: every tile of the field is either open ground or a wall, never both.
pub proof fn lemma_tiles_open_or_wall(x: int, y: int)
    requires
        0 <= x < PLAY_WIDTH,
        0 <= y < PLAY_HEIGHT,
    ensures
        is_open_tile(x, y) != is_wall_tile(x, y),
{
}

/// Counting walls over a longer prefix of a row never gives fewer.
pub proof fn lemma_row_prefix_monotone(y: int, a: int, b: int)
    requires
        a <= b,
    ensures
        walls_in_row_prefix(y, a) <= walls_in_row_prefix(y, b),
    decreases b - a,
{
    if a < b {
        lemma_row_prefix_monotone(y, a, b - 1);
    }
}

/// Counting walls over more rows never gives fewer.
pub proof fn lemma_rows_monotone(a: int, b: int)
    requires
        a <= b,
    ensures
        walls_in_rows(a) <= walls_in_rows(b),
    decreases b - a,
{
    if a < b {
        lemma_rows_monotone(a, b - 1);
    }
}

} // verus!
