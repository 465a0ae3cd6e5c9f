//! The entity storages of minigene's ECS that the library fills, seen through
//! what they hold: which entity indices are alive, and which component each
//! storage keeps for an entity index.

use vstd::prelude::*;
use minigene::{Components, Entities, Entity, Point};

verus! {

#[verifier::external_type_specification]
#[verifier::external_body]
pub struct ExEntity(minigene::Entity);

#[verifier::external_type_specification]
#[verifier::external_body]
pub struct ExEntities(minigene::Entities);

#[verifier::external_type_specification]
#[verifier::external_body]
#[verifier::reject_recursive_types(T)]
pub struct ExComponents<T>(minigene::Components<T>);

#[verifier::external_type_specification]
#[verifier::external_body]
pub struct ExPoint(minigene::Point);

/// The sprite of the tile sheet that an entity is drawn with.
pub struct SpriteIndex(pub usize);

/// How many entities can be alive at once in minigene's ECS (the storages
/// are built with 2^16 slots).
pub const ENTITY_CAPACITY: usize = 65536;

/// The index of an entity (what `Entity::index` returns).
pub uninterp spec fn entity_index(e: Entity) -> u32;

/// The indices of the entities that are alive.
pub uninterp spec fn alive_indices(entities: Entities) -> Set<u32>;

/// The index at which `Entities` hands out entities once no index below it
/// is free; every alive index is below it.
pub uninterp spec fn next_fresh_index(entities: Entities) -> nat;

/// The sprite index that a storage keeps for each entity index.
pub uninterp spec fn sprite_slots(storage: Components<SpriteIndex>) -> Map<u32, usize>;

/// The position `(x, y)` that a storage keeps for each entity index.
pub uninterp spec fn position_slots(storage: Components<Point>) -> Map<u32, (i32, i32)>;

/// The entities that became alive between two states of the entity list.
pub open spec fn spawned(before: Entities, after: Entities) -> Set<u32> {
    alive_indices(after).difference(alive_indices(before))
}

/// Calls `Entities::create`. The source shows that it marks as alive an index
/// that was not alive (the lowest free one once entities were killed, else the
/// next unused one), leaves every other index as it was, and moves the next
/// unused index up by one at most. It panics once every slot is taken, which
/// the `requires` rules out.
#[verifier::external_body]
fn create_entity(entities: &mut Entities) -> (e: Entity)
    requires
        next_fresh_index(*old(entities)) < ENTITY_CAPACITY,
    ensures
        !alive_indices(*old(entities)).contains(entity_index(e)),
        alive_indices(*final(entities)) == alive_indices(*old(entities)).insert(entity_index(e)),
        next_fresh_index(*final(entities)) <= next_fresh_index(*old(entities)) + 1,
{
    entities.create()
}

/// Calls `Components::insert` on a storage of sprite indices: the storage then
/// keeps `sprite` for the entity's index, whatever it kept there before, and
/// nothing else changes. The previous component that it hands back is dropped.
#[verifier::external_body]
fn insert_sprite_index(storage: &mut Components<SpriteIndex>, e: Entity, sprite: SpriteIndex)
    ensures
        sprite_slots(*final(storage)) == sprite_slots(*old(storage)).insert(entity_index(e), sprite.0),
{
    storage.insert(e, sprite);
}

/// Calls `Components::insert` on a storage of positions with the point
/// `(x, y)`: the storage then keeps that position for the entity's index, and
/// nothing else changes. The previous component that it hands back is dropped.
#[verifier::external_body]
fn insert_position(storage: &mut Components<Point>, e: Entity, x: i32, y: i32)
    ensures
        position_slots(*final(storage)) == position_slots(*old(storage)).insert(entity_index(e), (x, y)),
{
    storage.insert(e, Point { x, y });
}

/// Calls `Entities::default`: the source shows an entity list with no entity
/// alive, handing out index 0 first.
#[verifier::external_body]
fn new_entities() -> (entities: Entities)
    ensures
        alive_indices(entities) == Set::<u32>::empty(),
        next_fresh_index(entities) == 0,
{
    Entities::default()
}

/// Calls `Components::default` for sprite indices: the storage starts empty.
#[verifier::external_body]
fn new_sprite_storage() -> (storage: Components<SpriteIndex>)
    ensures
        sprite_slots(storage) =~= Map::empty(),
{
    Components::default()
}

/// Calls `Components::default` for positions: the storage starts empty.
#[verifier::external_body]
fn new_position_storage() -> (storage: Components<Point>)
    ensures
        position_slots(storage) =~= Map::empty(),
{
    Components::default()
}

/// A fresh entity list with empty sprite and position storages.
pub fn empty_storages() -> (storages: (Entities, Components<SpriteIndex>, Components<Point>))
    ensures
        alive_indices(storages.0) == Set::<u32>::empty(),
        next_fresh_index(storages.0) == 0,
        sprite_slots(storages.1) == Map::<u32, usize>::empty(),
        position_slots(storages.2) == Map::<u32, (i32, i32)>::empty(),
{
    (new_entities(), new_sprite_storage(), new_position_storage())
}

/// Creates one entity that carries the given sprite and stands at `(x, y)`.
pub(crate) fn spawn_sprite_at(
    entities: &mut Entities,
    sprites: &mut Components<SpriteIndex>,
    positions: &mut Components<Point>,
    sprite: usize,
    x: i32,
    y: i32,
) -> (index: Ghost<u32>)
    requires
        next_fresh_index(*old(entities)) < ENTITY_CAPACITY,
    ensures
        !alive_indices(*old(entities)).contains(index@),
        alive_indices(*final(entities)) == alive_indices(*old(entities)).insert(index@),
        next_fresh_index(*final(entities)) <= next_fresh_index(*old(entities)) + 1,
        sprite_slots(*final(sprites)) == sprite_slots(*old(sprites)).insert(index@, sprite),
        position_slots(*final(positions)) == position_slots(*old(positions)).insert(index@, (x, y)),
{
    let e = create_entity(entities);
    insert_sprite_index(sprites, e, SpriteIndex(sprite));
    insert_position(positions, e, x, y);
    Ghost(entity_index(e))
}

} // verus!
