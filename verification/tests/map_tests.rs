use std::collections::HashSet;

use shotcaller::draw::DrawCommand;
use shotcaller::ecs::{empty_storages, SpriteIndex};
use shotcaller::map::{map_row, PLAY_HEIGHT, PLAY_WIDTH};
use shotcaller::render_map::{create_map_bg, map_background, render, WALL_SPRITE};

const MAP: &[&str] = &[
    "####################################000000000####################################",
    "####################################000000000####################################",
    "####################################000000000####################################",
    "#########################0000000000000000000000000000000#########################",
    "#########################0000000000000000000000000000000#########################",
    "#########################0000000000000000000000000000000#########################",
    "#########################0000000000000000000000000000000#########################",
    "##################000000000000000000000000000000000000000000000##################",
    "##################000000000000000000000000000000000000000000000##################",
    "##################000000000000000000000000000000000000000000000##################",
    "##################00000###############00000###############00000##################",
    "##################00000###############00000###############00000##################",
    "##################00000###############00000###############00000##################",
    "##################00000###############00000###############00000##################",
    "##################00000###############00000###############00000##################",
    "##################00000###############00000###############00000##################",
    "##################00000###############00000###############00000##################",
    "##################00000###############00000###############00000##################",
    "##################00000###############00000###############00000##################",
    "##################00000###############00000###############00000##################",
    "##################00000###############00000###############00000##################",
    "##################00000###############00000###############00000##################",
    "##################00000###############00000###############00000##################",
    "##################00000###############00000###############00000##################",
    "##################00000###############00000###############00000##################",
    "##################00000###############00000###############00000##################",
    "##################00000###############00000###############00000##################",
    "##################00000###############00000###############00000##################",
    "##################00000###############00000###############00000##################",
    "##################00000###############00000###############00000##################",
    "##################00000###############00000###############00000##################",
    "##################00000###############00000###############00000##################",
    "##################00000###############00000###############00000##################",
    "##################00000###############00000###############00000##################",
    "##################00000###############00000###############00000##################",
    "##################00000###############00000###############00000##################",
    "##################00000###############00000###############00000##################",
    "##################00000###############00000###############00000##################",
    "##################00000###############00000###############00000##################",
    "##################00000###############00000###############00000##################",
    "##################000000000000000000000000000000000000000000000##################",
    "##################000000000000000000000000000000000000000000000##################",
    "##################000000000000000000000000000000000000000000000##################",
    "#########################0000000000000000000000000000000#########################",
    "#########################0000000000000000000000000000000#########################",
    "#########################0000000000000000000000000000000#########################",
    "#########################0000000000000000000000000000000#########################",
    "####################################000000000####################################",
    "####################################000000000####################################",
    "####################################000000000####################################",
];

fn wall_tiles() -> HashSet<(i32, i32)> {
    let mut walls = HashSet::new();
    for (y, row) in MAP.iter().enumerate() {
        for (x, c) in row.chars().enumerate() {
            if c == '#' {
                walls.insert((x as i32, y as i32));
            }
        }
    }
    walls
}

#[test]
fn map_rows_match_the_game_map() {
    assert_eq!(MAP.len(), PLAY_HEIGHT as usize);
    for (y, row) in MAP.iter().enumerate() {
        assert_eq!(map_row(y), *row);
        assert_eq!(map_row(y).chars().count(), PLAY_WIDTH as usize);
    }
}

#[test]
fn render_writes_every_row_from_the_left_edge() {
    let lines = render();
    assert_eq!(lines.len(), 50);
    for (i, line) in lines.iter().enumerate() {
        match line {
            DrawCommand::Text { x, y, text } => {
                assert_eq!(*x, 0);
                assert_eq!(*y, i);
                assert_eq!(text.as_str(), MAP[i]);
            }
            DrawCommand::Frame { .. } => panic!("render draws no frame"),
        }
    }
}

#[test]
fn map_is_mirrored_both_ways() {
    for y in 0..50 {
        assert_eq!(map_row(y), map_row(49 - y));
        let row: Vec<char> = map_row(y).chars().collect();
        for x in 0..81 {
            assert_eq!(row[x], row[80 - x]);
        }
    }
}

#[test]
fn wall_count_of_the_map() {
    assert_eq!(wall_tiles().len(), 3028);
}

#[test]
fn create_map_bg_puts_one_wall_entity_on_each_wall_tile() {
    let (mut entities, mut sprites, mut positions) = empty_storages();
    create_map_bg(&mut entities, &mut sprites, &mut positions);
    let sprite_list: Vec<usize> = sprites.iter().map(|s| s.0).collect();
    assert_eq!(sprite_list.len(), 3028);
    assert!(sprite_list.iter().all(|s| *s == WALL_SPRITE));
    assert_eq!(WALL_SPRITE, 55);
    let placed: Vec<(i32, i32)> = positions.iter().map(|p| (p.x, p.y)).collect();
    assert_eq!(placed.len(), 3028);
    let placed_set: HashSet<(i32, i32)> = placed.iter().cloned().collect();
    assert_eq!(placed_set.len(), 3028);
    assert_eq!(placed_set, wall_tiles());
}

#[test]
fn create_map_bg_keeps_existing_entities() {
    let (mut entities, mut sprites, mut positions) = empty_storages();
    let first = entities.create();
    sprites.insert(first, SpriteIndex(7));
    positions.insert(first, minigene::Point::new(40, 1));
    create_map_bg(&mut entities, &mut sprites, &mut positions);
    assert_eq!(sprites.get(first).map(|s| s.0), Some(7));
    assert_eq!(positions.get(first).map(|p| (p.x, p.y)), Some((40, 1)));
    assert_eq!(sprites.iter().count(), 3029);
    assert_eq!(positions.iter().count(), 3029);
}

#[test]
fn map_background_holds_only_the_walls() {
    let (entities, sprites, positions) = map_background();
    assert_eq!(sprites.iter().count(), 3028);
    let placed: HashSet<(i32, i32)> = positions.iter().map(|p| (p.x, p.y)).collect();
    assert_eq!(placed, wall_tiles());
    let first = positions.iter().next().unwrap();
    assert_eq!((first.x, first.y), (0, 0));
    let _ = entities;
}
