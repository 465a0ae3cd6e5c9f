use shotcaller::layout::BuildingKind::{Barrack, Core, CreepSpawner, Tower};
use shotcaller::layout::Team::{Me, Other};
use shotcaller::layout::{
    sprite_sheet_tiles, starting_buildings, Building, BuildingKind, SheetTile, Team, TileColor,
};
use shotcaller::map::map_row;
use shotcaller::tick::{frame_decision, FrameDecision};

fn at(kind: BuildingKind, team: Team, x: i32, y: i32) -> Building {
    Building { kind, team, x, y }
}

#[test]
fn starting_buildings_in_creation_order() {
    let expected = vec![
        at(Core, Other, 40, 1),
        at(Core, Me, 40, 48),
        at(Barrack, Other, 29, 6),
        at(CreepSpawner, Other, 29, 7),
        at(Barrack, Other, 40, 6),
        at(CreepSpawner, Other, 40, 7),
        at(Barrack, Other, 51, 6),
        at(CreepSpawner, Other, 51, 7),
        at(Barrack, Me, 29, 43),
        at(CreepSpawner, Me, 29, 42),
        at(Barrack, Me, 40, 43),
        at(CreepSpawner, Me, 40, 42),
        at(Barrack, Me, 51, 43),
        at(CreepSpawner, Me, 51, 42),
        at(Tower, Other, 20, 8),
        at(Tower, Other, 20, 16),
        at(Tower, Other, 40, 8),
        at(Tower, Other, 40, 16),
        at(Tower, Other, 60, 8),
        at(Tower, Other, 60, 16),
        at(Tower, Me, 20, 41),
        at(Tower, Me, 20, 33),
        at(Tower, Me, 40, 41),
        at(Tower, Me, 40, 33),
        at(Tower, Me, 60, 41),
        at(Tower, Me, 60, 33),
    ];
    assert_eq!(starting_buildings(), expected);
}

#[test]
fn starting_buildings_stand_on_open_ground() {
    for b in starting_buildings() {
        let row: Vec<char> = map_row(b.y as usize).chars().collect();
        assert_eq!(row[b.x as usize], '0');
    }
}

#[test]
fn starting_layout_is_mirrored() {
    let all = starting_buildings();
    for b in &all {
        let other = if b.team == Team::Me { Team::Other } else { Team::Me };
        let mirrored = at(b.kind, other, b.x, 49 - b.y);
        assert!(all.contains(&mirrored));
    }
}

#[test]
fn starting_buildings_have_distinct_tiles() {
    let all = starting_buildings();
    for i in 0..all.len() {
        for j in (i + 1)..all.len() {
            assert_ne!((all[i].x, all[i].y), (all[j].x, all[j].y));
        }
    }
}

#[test]
fn building_looks() {
    let all = starting_buildings();
    assert_eq!(all[0].glyph(), Some('C'));
    assert_eq!(all[0].sprite_index(), Some(66));
    assert_eq!(all[0].foreground(), Some(TileColor::Blue));
    assert_eq!(all[0].background(), TileColor::Red);
    assert_eq!(all[1].background(), TileColor::Green);
    assert_eq!(all[2].glyph(), Some('B'));
    assert_eq!(all[2].sprite_index(), Some(69));
    assert_eq!(all[2].foreground(), Some(TileColor::Yellow));
    assert_eq!(all[3].glyph(), None);
    assert_eq!(all[3].sprite_index(), None);
    assert_eq!(all[3].spawn_interval(), Some(50));
    assert_eq!(all[2].spawn_interval(), None);
    assert_eq!(all[14].glyph(), Some('T'));
    assert_eq!(all[14].sprite_index(), Some(80));
    assert_eq!(all[14].foreground(), Some(TileColor::Green));
}

#[test]
fn sprite_sheet_grid() {
    let tiles = sprite_sheet_tiles();
    assert_eq!(tiles.len(), 100);
    assert_eq!(tiles[0], SheetTile { x: 0, y: 72, width: 8, height: 8 });
    assert_eq!(tiles[9], SheetTile { x: 72, y: 72, width: 8, height: 8 });
    assert_eq!(tiles[10], SheetTile { x: 0, y: 64, width: 8, height: 8 });
    assert_eq!(tiles[55], SheetTile { x: 40, y: 32, width: 8, height: 8 });
    assert_eq!(tiles[99], SheetTile { x: 72, y: 0, width: 8, height: 8 });
}

#[test]
fn frame_decision_table() {
    assert_eq!(frame_decision(false, false, true), FrameDecision { quitting: false, run_frame: true });
    assert_eq!(frame_decision(false, false, false), FrameDecision { quitting: false, run_frame: false });
    assert_eq!(frame_decision(true, false, true), FrameDecision { quitting: true, run_frame: false });
    assert_eq!(frame_decision(false, true, true), FrameDecision { quitting: true, run_frame: false });
}

#[test]
fn quitting_stays_final() {
    let first = frame_decision(true, false, true);
    for later_quit in [false, true] {
        for running in [false, true] {
            let next = frame_decision(later_quit, first.quitting, running);
            assert!(next.quitting);
            assert!(!next.run_frame);
        }
    }
}
