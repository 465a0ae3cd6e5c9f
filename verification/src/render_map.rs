use vstd::prelude::*;
use minigene::{Components, Entities, Point};
use crate::draw::{draws_frame, draws_text, text_at, DrawCommand};
use crate::keybinds::{lemma_sorted_by_whole_action, sort_keybinds, stable_sort, Keybind};
use crate::text::{digits_value, is_decimal_text, lemma_decimal_reads_back, lexicographically_le};
use crate::text::{decimal, decimal_string};
use crate::ecs::{
    alive_indices, empty_storages, next_fresh_index, position_slots, spawn_sprite_at, spawned,
    sprite_slots, SpriteIndex, ENTITY_CAPACITY,
};
use crate::map::{
    is_wall_tile, lemma_row_prefix_monotone, lemma_rows_monotone, map_row, map_row_text,
    map_wall_count, tile_char, walls_in_row_prefix, walls_in_rows, PLAY_HEIGHT, PLAY_WIDTH,
    SCREEN_HEIGHT, SCREEN_WIDTH,
};

verus! {

/// The sprite that wall tiles are drawn with.
pub const WALL_SPRITE: usize = 55;

/// The map, one text line per row, written from the left edge of the screen.
pub fn render() -> (lines: Vec<DrawCommand>)
    ensures
        lines.len() == PLAY_HEIGHT,
        forall|y: int| 0 <= y < PLAY_HEIGHT ==> draws_text(#[trigger] lines[y], 0, y, map_row_text(y)),
{
    let mut lines: Vec<DrawCommand> = Vec::new();
    let mut i: usize = 0;
    while i < 50
        invariant
            i <= 50,
            lines.len() == i,
            forall|y: int| 0 <= y < i ==> draws_text(#[trigger] lines[y], 0, y, map_row_text(y)),
        decreases 50 - i,
    {
        lines.push(text_at(0, i, map_row(i)));
        i = i + 1;
    }
    lines
}

/// Tile `(x, y)` comes before tile `(tx, ty)` when the map is read row by row.
spec fn tile_before(x: int, y: int, tx: int, ty: int) -> bool {
    y < ty || (y == ty && x < tx)
}

/// `current` holds what `original` held for every key outside `changed`.
#[verifier::opaque]
spec fn unchanged_off<V>(current: Map<u32, V>, original: Map<u32, V>, changed: Seq<u32>) -> bool {
    forall|k: u32|
        !changed.contains(k) ==> ((#[trigger] current.dom().contains(k)) == original.dom().contains(k)
            && (original.dom().contains(k) ==> current[k] == original[k]))
}

proof fn lemma_unchanged_off_insert<V>(
    current: Map<u32, V>,
    original: Map<u32, V>,
    changed: Seq<u32>,
    k: u32,
    v: V,
)
    requires
        unchanged_off(current, original, changed),
    ensures
        unchanged_off(current.insert(k, v), original, changed.push(k)),
{
    reveal(unchanged_off);
    assert forall|j: u32| !changed.push(k).contains(j) implies ((#[trigger] current.insert(k, v).dom().contains(j))
        == original.dom().contains(j) && (original.dom().contains(j) ==> current.insert(k, v)[j]
        == original[j])) by {
        assert(changed.push(k)[changed.len() as int] == k);
        assert(j != k);
        assert(!changed.contains(j)) by {
            if changed.contains(j) {
                let i = choose|i: int| 0 <= i < changed.len() && changed[i] == j;
                assert(changed.push(k)[i] == j);
            }
        }
        assert(current.dom().contains(j) == original.dom().contains(j));
    }
}

proof fn lemma_unchanged_off_remove_keys<V>(
    current: Map<u32, V>,
    original: Map<u32, V>,
    changed: Seq<u32>,
    keys: Set<u32>,
)
    requires
        unchanged_off(current, original, changed),
        forall|k: u32| #[trigger] keys.contains(k) <==> changed.contains(k),
    ensures
        current.remove_keys(keys) == original.remove_keys(keys),
{
    reveal(unchanged_off);
    assert(current.remove_keys(keys) =~= original.remove_keys(keys));
}

/// Fills the ECS with the walls of the map: one new entity for each wall
/// tile, carrying the wall sprite and standing on that tile. Entities and
/// components that were there before stay as they were. The storages are the
/// world's entity list and its sprite and position storages, which the world
/// lends out one at a time.
pub fn create_map_bg(
    entities: &mut Entities,
    sprites: &mut Components<SpriteIndex>,
    positions: &mut Components<Point>,
)
    requires
        next_fresh_index(*old(entities)) + map_wall_count() <= ENTITY_CAPACITY,
    ensures
        alive_indices(*old(entities)).subset_of(alive_indices(*final(entities))),
        forall|k: u32|
            #[trigger] spawned(*old(entities), *final(entities)).contains(k) ==> {
                &&& sprite_slots(*final(sprites)).dom().contains(k)
                &&& sprite_slots(*final(sprites))[k] == WALL_SPRITE
                &&& position_slots(*final(positions)).dom().contains(k)
                &&& is_wall_tile(
                    position_slots(*final(positions))[k].0 as int,
                    position_slots(*final(positions))[k].1 as int,
                )
            },
        forall|x: int, y: int|
            #[trigger] is_wall_tile(x, y) ==> exists|k: u32|
                #[trigger] spawned(*old(entities), *final(entities)).contains(k)
                    && position_slots(*final(positions))[k] == (x as i32, y as i32),
        forall|k1: u32, k2: u32|
            #[trigger] spawned(*old(entities), *final(entities)).contains(k1)
                && #[trigger] spawned(*old(entities), *final(entities)).contains(k2)
                && position_slots(*final(positions))[k1] == position_slots(*final(positions))[k2]
                ==> k1 == k2,
        sprite_slots(*final(sprites)).remove_keys(spawned(*old(entities), *final(entities)))
            == sprite_slots(*old(sprites)).remove_keys(spawned(*old(entities), *final(entities))),
        position_slots(*final(positions)).remove_keys(spawned(*old(entities), *final(entities)))
            == position_slots(*old(positions)).remove_keys(spawned(*old(entities), *final(entities))),
        next_fresh_index(*final(entities)) <= next_fresh_index(*old(entities)) + map_wall_count(),
{
    let ghost ents0 = *entities;
    let ghost sprites0 = sprite_slots(*sprites);
    let ghost positions0 = position_slots(*positions);
    let ghost mut created: Seq<u32> = Seq::empty();
    let ghost mut placed: Seq<(int, int)> = Seq::empty();
    proof {
        reveal(unchanged_off);
    }
    let mut y: usize = 0;
    while y < 50
        invariant
            y <= 50,
            next_fresh_index(ents0) + map_wall_count() <= ENTITY_CAPACITY,
            created.len() == placed.len(),
            created.len() == walls_in_rows(y as int),
            next_fresh_index(*entities) <= next_fresh_index(ents0) + created.len(),
            forall|k: u32|
                #[trigger] alive_indices(*entities).contains(k) <==> (alive_indices(ents0).contains(k)
                    || created.contains(k)),
            forall|i: int| 0 <= i < created.len() ==> !alive_indices(ents0).contains(#[trigger] created[i]),
            forall|i: int, j: int| 0 <= i < j < created.len() ==> created[i] != created[j],
            forall|i: int|
                0 <= i < created.len() ==> {
                    &&& sprite_slots(*sprites).dom().contains(#[trigger] created[i])
                    &&& sprite_slots(*sprites)[created[i]] == WALL_SPRITE
                    &&& position_slots(*positions).dom().contains(created[i])
                    &&& position_slots(*positions)[created[i]] == (placed[i].0 as i32, placed[i].1 as i32)
                },
            forall|i: int|
                0 <= i < placed.len() ==> {
                    &&& is_wall_tile((#[trigger] placed[i]).0, placed[i].1)
                    &&& placed[i].1 < y
                },
            forall|i: int, j: int|
                0 <= i < j < placed.len() ==> tile_before(placed[i].0, placed[i].1, placed[j].0, placed[j].1),
            forall|tx: int, ty: int|
                is_wall_tile(tx, ty) && ty < y ==> exists|i: int|
                    0 <= i < placed.len() && #[trigger] placed[i] == (tx, ty),
            unchanged_off(sprite_slots(*sprites), sprites0, created),
            unchanged_off(position_slots(*positions), positions0, created),
        decreases 50 - y,
    {
        let row = map_row(y);
        let mut x: usize = 0;
        while x < 81
            invariant
                y < 50,
                x <= 81,
                row@ == map_row_text(y as int),
                next_fresh_index(ents0) + map_wall_count() <= ENTITY_CAPACITY,
                created.len() == placed.len(),
                created.len() == walls_in_rows(y as int) + walls_in_row_prefix(y as int, x as int),
                next_fresh_index(*entities) <= next_fresh_index(ents0) + created.len(),
                forall|k: u32|
                    #[trigger] alive_indices(*entities).contains(k) <==> (alive_indices(ents0).contains(k)
                        || created.contains(k)),
                forall|i: int| 0 <= i < created.len() ==> !alive_indices(ents0).contains(#[trigger] created[i]),
                forall|i: int, j: int| 0 <= i < j < created.len() ==> created[i] != created[j],
                forall|i: int|
                    0 <= i < created.len() ==> {
                        &&& sprite_slots(*sprites).dom().contains(#[trigger] created[i])
                        &&& sprite_slots(*sprites)[created[i]] == WALL_SPRITE
                        &&& position_slots(*positions).dom().contains(created[i])
                        &&& position_slots(*positions)[created[i]] == (placed[i].0 as i32, placed[i].1 as i32)
                    },
                forall|i: int|
                    0 <= i < placed.len() ==> {
                        &&& is_wall_tile((#[trigger] placed[i]).0, placed[i].1)
                        &&& tile_before(placed[i].0, placed[i].1, x as int, y as int)
                    },
                forall|i: int, j: int|
                    0 <= i < j < placed.len() ==> tile_before(placed[i].0, placed[i].1, placed[j].0, placed[j].1),
                forall|tx: int, ty: int|
                    is_wall_tile(tx, ty) && tile_before(tx, ty, x as int, y as int) ==> exists|i: int|
                        0 <= i < placed.len() && #[trigger] placed[i] == (tx, ty),
                unchanged_off(sprite_slots(*sprites), sprites0, created),
                unchanged_off(position_slots(*positions), positions0, created),
            decreases 81 - x,
        {
            let c = row.get_char(x);
            assert(c == tile_char(x as int, y as int));
            if c == '#' {
                assert(is_wall_tile(x as int, y as int));
                proof {
                    lemma_row_prefix_monotone(y as int, x as int + 1, PLAY_WIDTH as int);
                    lemma_rows_monotone(y as int + 1, PLAY_HEIGHT as int);
                    assert(walls_in_rows(y as int + 1) == walls_in_rows(y as int) + walls_in_row_prefix(
                        y as int,
                        PLAY_WIDTH as int,
                    ));
                    assert(walls_in_row_prefix(y as int, x as int + 1) == walls_in_row_prefix(
                        y as int,
                        x as int,
                    ) + 1);
                }
                let ghost prev_created = created;
                let ghost prev_placed = placed;
                let ghost prev_alive = alive_indices(*entities);
                let ghost prev_sprites = sprite_slots(*sprites);
                let ghost prev_positions = position_slots(*positions);
                let index = spawn_sprite_at(
                    entities,
                    sprites,
                    positions,
                    WALL_SPRITE,
                    x as i32,
                    y as i32,
                );
                proof {
                    created = created.push(index@);
                    placed = placed.push((x as int, y as int));
                    assert(!prev_created.contains(index@)) by {
                        if prev_created.contains(index@) {
                            let i = choose|i: int| 0 <= i < prev_created.len() && prev_created[i] == index@;
                            assert(prev_alive.contains(prev_created[i]));
                        }
                    }
                    assert forall|k: u32|
                        #[trigger] alive_indices(*entities).contains(k) <==> (alive_indices(ents0).contains(k)
                            || created.contains(k)) by {
                        if k == index@ {
                            assert(created[created.len() - 1] == k);
                        } else if prev_created.contains(k) {
                            let i = choose|i: int| 0 <= i < prev_created.len() && prev_created[i] == k;
                            assert(created[i] == k);
                        } else if created.contains(k) {
                            let i = choose|i: int| 0 <= i < created.len() && created[i] == k;
                            if i < prev_created.len() {
                                assert(prev_created[i] == k);
                            }
                        }
                    }
                    assert forall|i: int| 0 <= i < created.len() implies !alive_indices(ents0).contains(
                        #[trigger] created[i],
                    ) by {
                        if i < prev_created.len() {
                            assert(created[i] == prev_created[i]);
                        } else {
                            assert(!prev_alive.contains(index@));
                        }
                    }
                    assert forall|i: int, j: int| 0 <= i < j < created.len() implies created[i]
                        != created[j] by {
                        if j == prev_created.len() {
                            assert(prev_alive.contains(prev_created[i]));
                        } else {
                            assert(created[i] == prev_created[i] && created[j] == prev_created[j]);
                        }
                    }
                    assert forall|i: int| 0 <= i < created.len() implies {
                        &&& sprite_slots(*sprites).dom().contains(#[trigger] created[i])
                        &&& sprite_slots(*sprites)[created[i]] == WALL_SPRITE
                        &&& position_slots(*positions).dom().contains(created[i])
                        &&& position_slots(*positions)[created[i]] == (placed[i].0 as i32, placed[i].1 as i32)
                    } by {
                        if i < prev_created.len() {
                            assert(created[i] == prev_created[i]);
                            assert(placed[i] == prev_placed[i]);
                            assert(prev_created[i] != index@);
                        }
                    }
                    assert forall|i: int| 0 <= i < placed.len() implies {
                        &&& is_wall_tile((#[trigger] placed[i]).0, placed[i].1)
                        &&& tile_before(placed[i].0, placed[i].1, x as int + 1, y as int)
                    } by {
                        if i < prev_placed.len() {
                            assert(placed[i] == prev_placed[i]);
                        }
                    }
                    assert forall|i: int, j: int| 0 <= i < j < placed.len() implies tile_before(
                        placed[i].0,
                        placed[i].1,
                        placed[j].0,
                        placed[j].1,
                    ) by {
                        assert(placed[i] == prev_placed[i]);
                        if j < prev_placed.len() {
                            assert(placed[j] == prev_placed[j]);
                        }
                    }
                    assert forall|tx: int, ty: int|
                        is_wall_tile(tx, ty) && tile_before(tx, ty, x as int + 1, y as int) implies exists|i: int|
                        0 <= i < placed.len() && #[trigger] placed[i] == (tx, ty) by {
                        if tx == x && ty == y {
                            assert(placed[placed.len() - 1] == (tx, ty));
                        } else {
                            let i = choose|i: int| 0 <= i < prev_placed.len() && #[trigger] prev_placed[i] == (tx, ty);
                            assert(placed[i] == prev_placed[i]);
                        }
                    }
                    lemma_unchanged_off_insert(prev_sprites, sprites0, prev_created, index@, WALL_SPRITE);
                    lemma_unchanged_off_insert(prev_positions, positions0, prev_created, index@, (x as i32, y as i32));
                }
            } else {
                proof {
                    assert(!is_wall_tile(x as int, y as int));
                    assert(walls_in_row_prefix(y as int, x as int + 1) == walls_in_row_prefix(
                        y as int,
                        x as int,
                    ));
                    assert forall|tx: int, ty: int|
                        is_wall_tile(tx, ty) && tile_before(tx, ty, x as int + 1, y as int) implies exists|i: int|
                        0 <= i < placed.len() && #[trigger] placed[i] == (tx, ty) by {
                        assert(tile_before(tx, ty, x as int, y as int));
                    }
                }
            }
            x = x + 1;
        }
        proof {
            assert(walls_in_rows(y as int + 1) == walls_in_rows(y as int) + walls_in_row_prefix(
                y as int,
                PLAY_WIDTH as int,
            ));
            assert forall|tx: int, ty: int| is_wall_tile(tx, ty) && ty < y + 1 implies exists|i: int|
                0 <= i < placed.len() && #[trigger] placed[i] == (tx, ty) by {
                assert(tile_before(tx, ty, 81, y as int));
            }
        }
        y = y + 1;
    }
    proof {
        let new_set = spawned(ents0, *entities);
        assert forall|k: u32| #[trigger] new_set.contains(k) <==> created.contains(k) by {
            if created.contains(k) {
                let i = choose|i: int| 0 <= i < created.len() && created[i] == k;
                assert(!alive_indices(ents0).contains(created[i]));
            }
        }
        assert forall|k: u32|
            #[trigger] spawned(ents0, *entities).contains(k) implies {
                &&& sprite_slots(*sprites).dom().contains(k)
                &&& sprite_slots(*sprites)[k] == WALL_SPRITE
                &&& position_slots(*positions).dom().contains(k)
                &&& is_wall_tile(
                    position_slots(*positions)[k].0 as int,
                    position_slots(*positions)[k].1 as int,
                )
            } by {
            let i = choose|i: int| 0 <= i < created.len() && created[i] == k;
            assert(is_wall_tile(placed[i].0, placed[i].1));
        }
        assert forall|tx: int, ty: int| #[trigger] is_wall_tile(tx, ty) implies exists|k: u32|
            #[trigger] spawned(ents0, *entities).contains(k)
                && position_slots(*positions)[k] == (tx as i32, ty as i32) by {
            let i = choose|i: int| 0 <= i < placed.len() && #[trigger] placed[i] == (tx, ty);
            assert(created.contains(created[i]));
            assert(new_set.contains(created[i]));
        }
        assert forall|k1: u32, k2: u32|
            #[trigger] spawned(ents0, *entities).contains(k1)
                && #[trigger] spawned(ents0, *entities).contains(k2)
                && position_slots(*positions)[k1] == position_slots(*positions)[k2]
                implies k1 == k2 by {
            let i = choose|i: int| 0 <= i < created.len() && created[i] == k1;
            let j = choose|j: int| 0 <= j < created.len() && created[j] == k2;
            if i < j {
                assert(tile_before(placed[i].0, placed[i].1, placed[j].0, placed[j].1));
            } else if j < i {
                assert(tile_before(placed[j].0, placed[j].1, placed[i].0, placed[i].1));
            }
        }
        lemma_unchanged_off_remove_keys(sprite_slots(*sprites), sprites0, created, new_set);
        lemma_unchanged_off_remove_keys(position_slots(*positions), positions0, created, new_set);
    }
}

/// The walls of the map in fresh storages: the alive entities are exactly the
/// walls, one per wall tile, each carrying the wall sprite and standing on its
/// tile, and the storages hold nothing else.
pub fn map_background() -> (storages: (Entities, Components<SpriteIndex>, Components<Point>))
    ensures
        next_fresh_index(storages.0) <= map_wall_count(),
        sprite_slots(storages.1).dom() == alive_indices(storages.0),
        position_slots(storages.2).dom() == alive_indices(storages.0),
        forall|k: u32|
            #[trigger] alive_indices(storages.0).contains(k) ==> sprite_slots(storages.1)[k] == WALL_SPRITE
                && is_wall_tile(position_slots(storages.2)[k].0 as int, position_slots(storages.2)[k].1 as int),
        forall|x: int, y: int|
            #[trigger] is_wall_tile(x, y) ==> exists|k: u32|
                #[trigger] alive_indices(storages.0).contains(k) && position_slots(storages.2)[k] == (
                x as i32,
                y as i32,
            ),
        forall|k1: u32, k2: u32|
            #[trigger] alive_indices(storages.0).contains(k1) && #[trigger] alive_indices(storages.0).contains(k2)
                && position_slots(storages.2)[k1] == position_slots(storages.2)[k2] ==> k1 == k2,
{
    let (mut entities, mut sprites, mut positions) = empty_storages();
    let ghost e0 = entities;
    proof {
        lemma_wall_count_fits();
    }
    create_map_bg(&mut entities, &mut sprites, &mut positions);
    proof {
        let new_set = spawned(e0, entities);
        assert(new_set =~= alive_indices(entities));
        assert(sprite_slots(sprites).dom() =~= alive_indices(entities)) by {
            assert forall|k: u32| #[trigger] sprite_slots(sprites).dom().contains(k) implies alive_indices(
                entities,
            ).contains(k) by {
                if !new_set.contains(k) {
                    assert(sprite_slots(sprites).remove_keys(new_set).dom().contains(k));
                }
            }
        }
        assert(position_slots(positions).dom() =~= alive_indices(entities)) by {
            assert forall|k: u32| #[trigger] position_slots(positions).dom().contains(k) implies alive_indices(
                entities,
            ).contains(k) by {
                if !new_set.contains(k) {
                    assert(position_slots(positions).remove_keys(new_set).dom().contains(k));
                }
            }
        }
    }
    (entities, sprites, positions)
}

/// The map has fewer wall tiles than the entity list has slots.
proof fn lemma_wall_count_fits()
    ensures
        map_wall_count() <= ENTITY_CAPACITY,
{
    assert forall|y: int| 0 <= y < PLAY_HEIGHT implies #[trigger] walls_in_row_prefix(y, PLAY_WIDTH as int) <= PLAY_WIDTH by {
        lemma_row_prefix_at_most(y, PLAY_WIDTH as int);
    }
    lemma_rows_at_most(PLAY_HEIGHT as int);
}

proof fn lemma_row_prefix_at_most(y: int, n: int)
    requires
        n >= 0,
    ensures
        walls_in_row_prefix(y, n) <= n,
    decreases n,
{
    if n > 0 {
        lemma_row_prefix_at_most(y, n - 1);
    }
}

proof fn lemma_rows_at_most(m: int)
    requires
        0 <= m <= PLAY_HEIGHT,
        forall|y: int| 0 <= y < PLAY_HEIGHT ==> #[trigger] walls_in_row_prefix(y, PLAY_WIDTH as int) <= PLAY_WIDTH,
    ensures
        walls_in_rows(m) <= m * PLAY_WIDTH,
    decreases m,
{
    if m > 0 {
        lemma_rows_at_most(m - 1);
        assert(walls_in_row_prefix(m - 1, PLAY_WIDTH as int) <= PLAY_WIDTH);
    }
}

/// The column of the side panel's text, right of the playing field.
pub const PANEL_X: usize = 82;

fn joined(a: &str, b: &str) -> (s: String)
    ensures
        s@ == a@ + b@,
{
    let mut s = String::from_str(a);
    s.append(b);
    s
}

/// The side panel: a frame right of the field, the heroes of the player's
/// team, a cursor on the selected hero, the key bindings ordered by action, and
/// the damage dealt and kills of the match.
///
/// `my_team` holds the names of the player's heroes, in team order; the list
/// under "Enemy Team" also shows these names. `keybinds` are the bindings of
/// the key map in the order the map hands them out; `damage_dealt` is the
/// damage already written with two decimals.
pub fn render_ui(
    selected: usize,
    my_team: &Vec<String>,
    keybinds: Vec<Keybind>,
    damage_dealt: &str,
    kill_count: u64,
) -> (commands: Vec<DrawCommand>)
    requires
        selected + 4 <= usize::MAX,
        my_team.len() + 11 <= usize::MAX,
        keybinds.len() + 18 <= usize::MAX,
    ensures
        commands.len() == 10 + 2 * my_team.len() + keybinds.len(),
        draws_frame(commands[0], PLAY_WIDTH as int, 0, SCREEN_WIDTH - PLAY_WIDTH - 1, SCREEN_HEIGHT - 1),
        draws_text(commands[1], PANEL_X as int, 1, "Leaders"@),
        draws_text(commands[2], PANEL_X as int, 3, "My Team"@),
        forall|i: int|
            0 <= i < my_team.len() ==> draws_text(
                #[trigger] commands[3 + i],
                PANEL_X as int,
                i + 4,
                " "@ + my_team[i]@,
            ),
        draws_text(commands[3 + my_team.len()], PANEL_X as int, 10, "Enemy Team"@),
        forall|i: int|
            0 <= i < my_team.len() ==> draws_text(
                #[trigger] commands[4 + my_team.len() + i],
                PANEL_X as int,
                i + 11,
                " Leader "@ + my_team[i]@,
            ),
        draws_text(commands[4 + 2 * my_team.len()], PANEL_X as int, selected + 4, ">"@),
        draws_text(commands[5 + 2 * my_team.len()], PANEL_X as int, 17, "Keybinds"@),
        forall|i: int|
            0 <= i < keybinds.len() ==> draws_text(
                #[trigger] commands[6 + 2 * my_team.len() + i],
                PANEL_X as int,
                18 + i,
                stable_sort(keybinds@)[i].key@ + ":"@ + stable_sort(keybinds@)[i].action@,
            ),
        forall|i: int, j: int|
            0 <= i < j < keybinds.len() ==> lexicographically_le(
                #[trigger] stable_sort(keybinds@)[i].action@,
                #[trigger] stable_sort(keybinds@)[j].action@,
            ),
        draws_text(commands[6 + 2 * my_team.len() + keybinds.len()], PANEL_X as int, 45, "Total Damage"@),
        draws_text(commands[7 + 2 * my_team.len() + keybinds.len()], PANEL_X as int, 46, damage_dealt@),
        draws_text(commands[8 + 2 * my_team.len() + keybinds.len()], PANEL_X as int, 47, "Kills"@),
        draws_text(
            commands[9 + 2 * my_team.len() + keybinds.len()],
            PANEL_X as int,
            48,
            decimal(kill_count as nat),
        ),
        is_decimal_text(decimal(kill_count as nat)),
        digits_value(decimal(kill_count as nat)) == kill_count,
{
    proof {
        lemma_decimal_reads_back(kill_count as nat);
    }
    let n = my_team.len();
    let mut commands: Vec<DrawCommand> = Vec::new();
    commands.push(
        DrawCommand::Frame {
            x: PLAY_WIDTH as usize,
            y: 0,
            width: (SCREEN_WIDTH - PLAY_WIDTH - 1) as usize,
            height: (SCREEN_HEIGHT - 1) as usize,
        },
    );
    commands.push(text_at(PANEL_X, 1, "Leaders"));
    commands.push(text_at(PANEL_X, 3, "My Team"));
    let mut i: usize = 0;
    while i < n
        invariant
            n == my_team.len(),
            n + 11 <= usize::MAX,
            i <= n,
            commands.len() == 3 + i,
            draws_frame(commands[0], PLAY_WIDTH as int, 0, SCREEN_WIDTH - PLAY_WIDTH - 1, SCREEN_HEIGHT - 1),
            draws_text(commands[1], PANEL_X as int, 1, "Leaders"@),
            draws_text(commands[2], PANEL_X as int, 3, "My Team"@),
            forall|j: int|
                0 <= j < i ==> draws_text(#[trigger] commands[3 + j], PANEL_X as int, j + 4, " "@ + my_team[j]@),
        decreases n - i,
    {
        commands.push(DrawCommand::Text { x: PANEL_X, y: i + 4, text: joined(" ", my_team[i].as_str()) });
        i = i + 1;
    }
    commands.push(text_at(PANEL_X, 10, "Enemy Team"));
    let mut i: usize = 0;
    while i < n
        invariant
            n == my_team.len(),
            n + 11 <= usize::MAX,
            i <= n,
            commands.len() == 4 + n + i,
            draws_frame(commands[0], PLAY_WIDTH as int, 0, SCREEN_WIDTH - PLAY_WIDTH - 1, SCREEN_HEIGHT - 1),
            draws_text(commands[1], PANEL_X as int, 1, "Leaders"@),
            draws_text(commands[2], PANEL_X as int, 3, "My Team"@),
            forall|j: int|
                0 <= j < n ==> draws_text(#[trigger] commands[3 + j], PANEL_X as int, j + 4, " "@ + my_team[j]@),
            draws_text(commands[3 + n], PANEL_X as int, 10, "Enemy Team"@),
            forall|j: int|
                0 <= j < i ==> draws_text(
                    #[trigger] commands[4 + n + j],
                    PANEL_X as int,
                    j + 11,
                    " Leader "@ + my_team[j]@,
                ),
        decreases n - i,
    {
        commands.push(
            DrawCommand::Text { x: PANEL_X, y: i + 11, text: joined(" Leader ", my_team[i].as_str()) },
        );
        i = i + 1;
    }
    commands.push(text_at(PANEL_X, selected + 4, ">"));
    commands.push(text_at(PANEL_X, 17, "Keybinds"));
    let ghost binds = keybinds@;
    let sorted = sort_keybinds(keybinds);
    proof {
        lemma_sorted_by_whole_action(binds);
    }
    let m = sorted.len();
    let mut i: usize = 0;
    while i < m
        invariant
            n == my_team.len(),
            m == sorted.len(),
            m == binds.len(),
            sorted@ == stable_sort(binds),
            m + 18 <= usize::MAX,
            i <= m,
            commands.len() == 6 + 2 * n + i,
            draws_frame(commands[0], PLAY_WIDTH as int, 0, SCREEN_WIDTH - PLAY_WIDTH - 1, SCREEN_HEIGHT - 1),
            draws_text(commands[1], PANEL_X as int, 1, "Leaders"@),
            draws_text(commands[2], PANEL_X as int, 3, "My Team"@),
            forall|j: int|
                0 <= j < n ==> draws_text(#[trigger] commands[3 + j], PANEL_X as int, j + 4, " "@ + my_team[j]@),
            draws_text(commands[3 + n], PANEL_X as int, 10, "Enemy Team"@),
            forall|j: int|
                0 <= j < n ==> draws_text(
                    #[trigger] commands[4 + n + j],
                    PANEL_X as int,
                    j + 11,
                    " Leader "@ + my_team[j]@,
                ),
            draws_text(commands[4 + 2 * n], PANEL_X as int, selected + 4, ">"@),
            draws_text(commands[5 + 2 * n], PANEL_X as int, 17, "Keybinds"@),
            forall|j: int|
                0 <= j < i ==> draws_text(
                    #[trigger] commands[6 + 2 * n + j],
                    PANEL_X as int,
                    18 + j,
                    sorted@[j].key@ + ":"@ + sorted@[j].action@,
                ),
        decreases m - i,
    {
        let line = joined(joined(sorted[i].key.as_str(), ":").as_str(), sorted[i].action.as_str());
        commands.push(DrawCommand::Text { x: PANEL_X, y: 18 + i, text: line });
        i = i + 1;
    }
    commands.push(text_at(PANEL_X, 45, "Total Damage"));
    commands.push(text_at(PANEL_X, 46, damage_dealt));
    commands.push(text_at(PANEL_X, 47, "Kills"));
    commands.push(DrawCommand::Text { x: PANEL_X, y: 48, text: decimal_string(kill_count) });
    commands
}

} // verus!
