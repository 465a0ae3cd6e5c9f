//! The buildings that stand on the field when a match starts, and the tiles
//! of the sprite sheet.

use vstd::prelude::*;
use crate::map::{is_open_tile, is_wall_tile, PLAY_HEIGHT, PLAY_WIDTH};

verus! {

/// How many ticks a creep spawner waits between two waves.
pub const CREEP_SPAWN_TICKS: u32 = 50;

/// The two sides of a match: the player's and the opponent's.
#[derive(PartialEq, Eq, Structural, Clone, Copy, Debug)]
pub enum Team {
    Me,
    Other,
}

/// What a building of the starting layout is.
#[derive(PartialEq, Eq, Structural, Clone, Copy, Debug)]
pub enum BuildingKind {
    /// The core a team must defend.
    Core,
    /// A barrack, which creeps leave from.
    Barrack,
    /// The spot in front of a barrack where creeps appear.
    CreepSpawner,
    /// A defensive tower.
    Tower,
}

/// The colours buildings are drawn with.
#[derive(PartialEq, Eq, Structural, Clone, Copy, Debug)]
pub enum TileColor {
    Red,
    Green,
    Blue,
    Yellow,
}

/// A building of the starting layout, with the team it belongs to and the
/// tile it stands on.
#[derive(PartialEq, Eq, Structural, Clone, Copy, Debug)]
pub struct Building {
    pub kind: BuildingKind,
    pub team: Team,
    pub x: i32,
    pub y: i32,
}

/// The row that mirrors row `y` across the middle of the field.
pub open spec fn mirror_row(y: int) -> int {
    PLAY_HEIGHT - 1 - y
}

/// The other team.
pub open spec fn opponent(team: Team) -> Team {
    match team {
        Team::Me => Team::Other,
        Team::Other => Team::Me,
    }
}

/// The column in the middle of the field.
pub open spec fn center_column() -> int {
    PLAY_WIDTH as int / 2
}

/// The row of a team's barracks: near the top for the opponent, mirrored at
/// the bottom for the player.
pub open spec fn barrack_row(team: Team) -> int {
    match team {
        Team::Other => PLAY_HEIGHT as int / 8,
        Team::Me => PLAY_HEIGHT as int - 1 - PLAY_HEIGHT as int / 8,
    }
}

/// The row of a team's creep spawners: one row in front of its barracks.
pub open spec fn spawner_row(team: Team) -> int {
    match team {
        Team::Other => barrack_row(team) + 1,
        Team::Me => barrack_row(team) - 1,
    }
}

/// The row of a team's towers of rank `j` (1 or 2, the second further in).
pub open spec fn tower_row(team: Team, j: int) -> int {
    match team {
        Team::Other => PLAY_HEIGHT as int * j / 6,
        Team::Me => PLAY_HEIGHT as int - 1 - PLAY_HEIGHT as int * j / 6,
    }
}

/// A team's core, on the middle column, next to its edge of the field.
pub open spec fn core_of(team: Team) -> Building {
    Building {
        kind: BuildingKind::Core,
        team,
        x: center_column() as i32,
        y: (match team {
            Team::Other => 1,
            Team::Me => PLAY_HEIGHT as int - 2,
        }) as i32,
    }
}

/// A team's three barracks, each followed by its creep spawner, from the left
/// lane to the right one.
pub open spec fn barracks_of(team: Team) -> Seq<Building> {
    Seq::new(
        6,
        |k: int|
            {
                let x = center_column() + PLAY_WIDTH as int / 7 * (k / 2 - 1);
                if k % 2 == 0 {
                    Building { kind: BuildingKind::Barrack, team, x: x as i32, y: barrack_row(team) as i32 }
                } else {
                    Building {
                        kind: BuildingKind::CreepSpawner,
                        team,
                        x: x as i32,
                        y: spawner_row(team) as i32,
                    }
                }
            },
    )
}

/// A team's six towers: for each lane from left to right, the rank 1 tower
/// then the rank 2 tower.
pub open spec fn towers_of(team: Team) -> Seq<Building> {
    Seq::new(
        6,
        |k: int|
            Building {
                kind: BuildingKind::Tower,
                team,
                x: (center_column() + PLAY_WIDTH as int / 4 * (k / 2 - 1)) as i32,
                y: tower_row(team, k % 2 + 1) as i32,
            },
    )
}

/// The buildings at the start of a match, in the order they are created.
pub open spec fn starting_layout() -> Seq<Building> {
    seq![core_of(Team::Other), core_of(Team::Me)] + barracks_of(Team::Other) + barracks_of(Team::Me)
        + towers_of(Team::Other) + towers_of(Team::Me)
}

/// The glyph a building is drawn with, if it is drawn at all.
pub open spec fn glyph_of(kind: BuildingKind) -> Option<char> {
    match kind {
        BuildingKind::Core => Some('C'),
        BuildingKind::Barrack => Some('B'),
        BuildingKind::Tower => Some('T'),
        BuildingKind::CreepSpawner => None,
    }
}

/// The sprite of the tile sheet a building is drawn with, if it is drawn.
pub open spec fn sprite_of(kind: BuildingKind) -> Option<usize> {
    match kind {
        BuildingKind::Core => Some(66),
        BuildingKind::Barrack => Some(69),
        BuildingKind::Tower => Some(80),
        BuildingKind::CreepSpawner => None,
    }
}

/// The colour of a drawn building's glyph.
pub open spec fn foreground_of(kind: BuildingKind) -> Option<TileColor> {
    match kind {
        BuildingKind::Core => Some(TileColor::Blue),
        BuildingKind::Barrack => Some(TileColor::Yellow),
        BuildingKind::Tower => Some(TileColor::Green),
        BuildingKind::CreepSpawner => None,
    }
}

/// The background colour of a team's buildings.
pub open spec fn background_of(team: Team) -> TileColor {
    match team {
        Team::Other => TileColor::Red,
        Team::Me => TileColor::Green,
    }
}

impl Building {
    /// The glyph this building is drawn with, if it is drawn at all.
    pub fn glyph(&self) -> (g: Option<char>)
        ensures
            g == glyph_of(self.kind),
    {
        match self.kind {
            BuildingKind::Core => Some('C'),
            BuildingKind::Barrack => Some('B'),
            BuildingKind::Tower => Some('T'),
            BuildingKind::CreepSpawner => None,
        }
    }

    /// The sprite this building is drawn with, if it is drawn at all.
    pub fn sprite_index(&self) -> (s: Option<usize>)
        ensures
            s == sprite_of(self.kind),
    {
        match self.kind {
            BuildingKind::Core => Some(66),
            BuildingKind::Barrack => Some(69),
            BuildingKind::Tower => Some(80),
            BuildingKind::CreepSpawner => None,
        }
    }

    /// The colour of this building's glyph, if it is drawn at all.
    pub fn foreground(&self) -> (c: Option<TileColor>)
        ensures
            c == foreground_of(self.kind),
    {
        match self.kind {
            BuildingKind::Core => Some(TileColor::Blue),
            BuildingKind::Barrack => Some(TileColor::Yellow),
            BuildingKind::Tower => Some(TileColor::Green),
            BuildingKind::CreepSpawner => None,
        }
    }

    /// The background colour of this building's tile.
    pub fn background(&self) -> (c: TileColor)
        ensures
            c == background_of(self.team),
    {
        match self.team {
            Team::Other => TileColor::Red,
            Team::Me => TileColor::Green,
        }
    }

    /// The number of ticks between two creep waves, for a creep spawner.
    pub fn spawn_interval(&self) -> (t: Option<u32>)
        ensures
            t == (if self.kind == BuildingKind::CreepSpawner {
                Some(CREEP_SPAWN_TICKS)
            } else {
                None
            }),
    {
        match self.kind {
            BuildingKind::CreepSpawner => Some(CREEP_SPAWN_TICKS),
            _ => None,
        }
    }
}

/// A tile of the sprite sheet, in pixels of the sheet's image.
#[derive(PartialEq, Eq, Structural, Clone, Copy, Debug)]
pub struct SheetTile {
    pub x: i32,
    pub y: i32,
    pub width: i32,
    pub height: i32,
}

/// The tile of the sheet that sprite `k` is cut from: the sheet is a grid of
/// ten by ten tiles of 8 by 8 pixels, sprite 0 at the left of the bottom row,
/// numbered left to right and then upward.
pub open spec fn sheet_tile(k: int) -> SheetTile {
    SheetTile { x: (8 * (k % 10)) as i32, y: (8 * (9 - k / 10)) as i32, width: 8, height: 8 }
}

/// Law: the sheet is cut as a grid of 8 by 8 tiles, sprite `k` in column
/// `k % 10` from the left and row `k / 10` from the bottom of the 80 by 80
/// image; so every tile lies inside the image, distinct sprites are cut from
/// distinct tiles, the next sprite of a row sits 8 pixels to the right, and
/// the sprite ten numbers later sits 8 pixels higher.
pub proof fn lemma_sheet_grid()
    ensures
        forall|k: int|
            0 <= k < 100 ==> {
                &&& (#[trigger] sheet_tile(k)).x as int == 8 * (k % 10)
                &&& sheet_tile(k).y as int == 8 * (9 - k / 10)
                &&& sheet_tile(k).width == 8 && sheet_tile(k).height == 8
                &&& 0 <= sheet_tile(k).x && sheet_tile(k).x + 8 <= 80
                &&& 0 <= sheet_tile(k).y && sheet_tile(k).y + 8 <= 80
            },
        forall|a: int, b: int|
            0 <= a < 100 && 0 <= b < 100 && a != b ==> (#[trigger] sheet_tile(a).x, sheet_tile(a).y) != (
            #[trigger] sheet_tile(b).x,
            sheet_tile(b).y),
        forall|k: int|
            0 <= k < 90 ==> #[trigger] sheet_tile(k + 10).y == sheet_tile(k).y - 8 && sheet_tile(k + 10).x
                == sheet_tile(k).x,
        forall|k: int|
            0 <= k < 99 && k % 10 != 9 ==> #[trigger] sheet_tile(k + 1).x == sheet_tile(k).x + 8
                && sheet_tile(k + 1).y == sheet_tile(k).y,
{
    assert forall|a: int, b: int|
        0 <= a < 100 && 0 <= b < 100 && a != b implies (#[trigger] sheet_tile(a).x, sheet_tile(a).y) != (
        #[trigger] sheet_tile(b).x,
        sheet_tile(b).y) by {
        assert(a == 10 * (a / 10) + a % 10);
        assert(b == 10 * (b / 10) + b % 10);
    }
    assert forall|k: int| 0 <= k < 90 implies #[trigger] sheet_tile(k + 10).y == sheet_tile(k).y - 8
        && sheet_tile(k + 10).x == sheet_tile(k).x by {
        assert((k + 10) / 10 == k / 10 + 1);
        assert((k + 10) % 10 == k % 10);
    }
    assert forall|k: int| 0 <= k < 99 && k % 10 != 9 implies #[trigger] sheet_tile(k + 1).x == sheet_tile(k).x
        + 8 && sheet_tile(k + 1).y == sheet_tile(k).y by {
        assert((k + 1) / 10 == k / 10);
        assert((k + 1) % 10 == k % 10 + 1);
    }
}

/// The tiles of the sprite sheet, indexed by sprite number: sprite `k` is the
/// 8 by 8 tile in column `k % 10` from the left and row `k / 10` from the
/// bottom of the sheet.
pub fn sprite_sheet_tiles() -> (tiles: Vec<SheetTile>)
    ensures
        tiles.len() == 100,
        forall|k: int| 0 <= k < 100 ==> #[trigger] tiles[k] == sheet_tile(k),
        forall|k: int|
            0 <= k < 100 ==> (#[trigger] tiles[k]).x as int == 8 * (k % 10) && tiles[k].y as int == 8 * (9
                - k / 10) && tiles[k].width == 8 && tiles[k].height == 8,
        forall|a: int, b: int|
            0 <= a < 100 && 0 <= b < 100 && a != b ==> (#[trigger] tiles[a].x, tiles[a].y) != (
            #[trigger] tiles[b].x,
            tiles[b].y),
{
    proof {
        lemma_sheet_grid();
    }
    let mut tiles: Vec<SheetTile> = Vec::new();
    let mut j: i32 = 0;
    while j < 10
        invariant
            0 <= j <= 10,
            tiles.len() == 10 * j,
            forall|k: int| 0 <= k < tiles.len() ==> #[trigger] tiles[k] == sheet_tile(k),
        decreases 10 - j,
    {
        let mut i: i32 = 0;
        while i < 10
            invariant
                0 <= j < 10,
                0 <= i <= 10,
                tiles.len() == 10 * j + i,
                forall|k: int| 0 <= k < tiles.len() ==> #[trigger] tiles[k] == sheet_tile(k),
            decreases 10 - i,
        {
            proof {
                let k = 10 * j + i;
                assert(k % 10 == i && k / 10 == j) by (nonlinear_arith)
                    requires
                        k == 10 * j + i,
                        0 <= i < 10,
                        0 <= j,
                ;
            }
            tiles.push(SheetTile { x: i * 8, y: (9 - j) * 8, width: 8, height: 8 });
            i = i + 1;
        }
        j = j + 1;
    }
    tiles
}

/// The buildings that stand on the field when a match starts: the two cores,
/// then each team's barracks with their creep spawners, then each team's
/// towers.
pub fn starting_buildings() -> (buildings: Vec<Building>)
    ensures
        buildings@ == starting_layout(),
{
    let w = PLAY_WIDTH as i32;
    let h = PLAY_HEIGHT as i32;
    let mut buildings: Vec<Building> = Vec::new();
    buildings.push(Building { kind: BuildingKind::Core, team: Team::Other, x: w / 2, y: 1 });
    buildings.push(Building { kind: BuildingKind::Core, team: Team::Me, x: w / 2, y: h - 2 });
    let mut i: i32 = -1;
    while i <= 1
        invariant
            w == PLAY_WIDTH,
            h == PLAY_HEIGHT,
            -1 <= i <= 2,
            buildings@ == seq![core_of(Team::Other), core_of(Team::Me)] + barracks_of(Team::Other).take(
                2 * (i + 1),
            ),
        decreases 2 - i,
    {
        let x = w / 2 + w / 7 * i;
        let y = h / 8;
        buildings.push(Building { kind: BuildingKind::Barrack, team: Team::Other, x, y });
        buildings.push(Building { kind: BuildingKind::CreepSpawner, team: Team::Other, x, y: y + 1 });
        proof {
            assert(barracks_of(Team::Other).take(2 * (i + 2)) =~= barracks_of(Team::Other).take(2 * (i + 1))
                .push(barracks_of(Team::Other)[2 * (i + 1)]).push(barracks_of(Team::Other)[2 * (i + 1) + 1]));
        }
        i = i + 1;
    }
    assert(barracks_of(Team::Other).take(6) =~= barracks_of(Team::Other));
    let ghost before = buildings@;
    let mut i: i32 = -1;
    while i <= 1
        invariant
            w == PLAY_WIDTH,
            h == PLAY_HEIGHT,
            -1 <= i <= 2,
            buildings@ == before + barracks_of(Team::Me).take(2 * (i + 1)),
        decreases 2 - i,
    {
        let x = w / 2 + w / 7 * i;
        let y = h - 1 - h / 8;
        buildings.push(Building { kind: BuildingKind::Barrack, team: Team::Me, x, y });
        buildings.push(Building { kind: BuildingKind::CreepSpawner, team: Team::Me, x, y: y - 1 });
        proof {
            assert(barracks_of(Team::Me).take(2 * (i + 2)) =~= barracks_of(Team::Me).take(2 * (i + 1)).push(
                barracks_of(Team::Me)[2 * (i + 1)],
            ).push(barracks_of(Team::Me)[2 * (i + 1) + 1]));
        }
        i = i + 1;
    }
    assert(barracks_of(Team::Me).take(6) =~= barracks_of(Team::Me));
    let ghost before = buildings@;
    let mut i: i32 = -1;
    while i <= 1
        invariant
            w == PLAY_WIDTH,
            h == PLAY_HEIGHT,
            -1 <= i <= 2,
            buildings@ == before + towers_of(Team::Other).take(2 * (i + 1)),
        decreases 2 - i,
    {
        let mut j: i32 = 1;
        while j <= 2
            invariant
                w == PLAY_WIDTH,
                h == PLAY_HEIGHT,
                -1 <= i <= 1,
                1 <= j <= 3,
                buildings@ == before + towers_of(Team::Other).take(2 * (i + 1) + j - 1),
            decreases 3 - j,
        {
            buildings.push(
                Building { kind: BuildingKind::Tower, team: Team::Other, x: w / 2 + w / 4 * i, y: h * j / 6 },
            );
            proof {
                assert(towers_of(Team::Other).take(2 * (i + 1) + j) =~= towers_of(Team::Other).take(
                    2 * (i + 1) + j - 1,
                ).push(towers_of(Team::Other)[2 * (i + 1) + j - 1]));
            }
            j = j + 1;
        }
        i = i + 1;
    }
    assert(towers_of(Team::Other).take(6) =~= towers_of(Team::Other));
    let ghost before = buildings@;
    let mut i: i32 = -1;
    while i <= 1
        invariant
            w == PLAY_WIDTH,
            h == PLAY_HEIGHT,
            -1 <= i <= 2,
            buildings@ == before + towers_of(Team::Me).take(2 * (i + 1)),
        decreases 2 - i,
    {
        let mut j: i32 = 1;
        while j <= 2
            invariant
                w == PLAY_WIDTH,
                h == PLAY_HEIGHT,
                -1 <= i <= 1,
                1 <= j <= 3,
                buildings@ == before + towers_of(Team::Me).take(2 * (i + 1) + j - 1),
            decreases 3 - j,
        {
            buildings.push(
                Building {
                    kind: BuildingKind::Tower,
                    team: Team::Me,
                    x: w / 2 + w / 4 * i,
                    y: h - 1 - h * j / 6,
                },
            );
            proof {
                assert(towers_of(Team::Me).take(2 * (i + 1) + j) =~= towers_of(Team::Me).take(
                    2 * (i + 1) + j - 1,
                ).push(towers_of(Team::Me)[2 * (i + 1) + j - 1]));
            }
            j = j + 1;
        }
        i = i + 1;
    }
    assert(towers_of(Team::Me).take(6) =~= towers_of(Team::Me));
    assert(buildings@ =~= starting_layout());
    buildings
}

/// Law: every building of the starting layout stands on open ground, inside
/// the field, so no wall of the map is ever placed under a building.
pub proof fn lemma_layout_on_open_ground()
    ensures
        forall|k: int|
            0 <= k < starting_layout().len() ==> is_open_tile(
                #[trigger] starting_layout()[k].x as int,
                starting_layout()[k].y as int,
            ),
{
    assert(starting_layout().len() == 26);
    assert forall|k: int| 0 <= k < 6 implies is_open_tile(
        #[trigger] barracks_of(Team::Other)[k].x as int,
        barracks_of(Team::Other)[k].y as int,
    ) && is_open_tile(barracks_of(Team::Me)[k].x as int, barracks_of(Team::Me)[k].y as int) && is_open_tile(
        towers_of(Team::Other)[k].x as int,
        towers_of(Team::Other)[k].y as int,
    ) && is_open_tile(towers_of(Team::Me)[k].x as int, towers_of(Team::Me)[k].y as int) by {
    }
}

/// Law: the walls that the map background creates never share a tile with a
/// building of the starting layout.
pub proof fn lemma_walls_avoid_buildings()
    ensures
        forall|k: int|
            0 <= k < starting_layout().len() ==> !is_wall_tile(
                #[trigger] starting_layout()[k].x as int,
                starting_layout()[k].y as int,
            ),
{
    lemma_layout_on_open_ground();
}

/// The same building, given to the other team and moved to the mirrored row.
pub open spec fn mirror_of(b: Building) -> Building {
    Building { kind: b.kind, team: opponent(b.team), x: b.x, y: mirror_row(b.y as int) as i32 }
}

/// Law: the starting layout is fair. For every building, the opposing team
/// has a building of the same kind in the same column, on the mirrored row.
pub proof fn lemma_layout_mirrored()
    ensures
        forall|k: int|
            0 <= k < starting_layout().len() ==> exists|m: int|
                0 <= m < starting_layout().len() && #[trigger] starting_layout()[m] == mirror_of(
                    #[trigger] starting_layout()[k],
                ),
{
    let l = starting_layout();
    assert(l.len() == 26);
    assert forall|k: int| 0 <= k < l.len() implies exists|m: int|
        0 <= m < l.len() && #[trigger] l[m] == mirror_of(#[trigger] l[k]) by {
        let m = if k < 2 {
            1 - k
        } else if k < 8 {
            k + 6
        } else if k < 14 {
            k - 6
        } else if k < 20 {
            k + 6
        } else {
            k - 6
        };
        assert(0 <= m < l.len());
        assert(l[m] == mirror_of(l[k]));
    }
}

/// Law: no two buildings of the starting layout share a tile.
pub proof fn lemma_layout_tiles_distinct()
    ensures
        forall|a: int, b: int|
            0 <= a < b < starting_layout().len() ==> (#[trigger] starting_layout()[a].x,
            starting_layout()[a].y) != (#[trigger] starting_layout()[b].x, starting_layout()[b].y),
{
    let l = starting_layout();
    assert(l.len() == 26);
}

} // verus!
