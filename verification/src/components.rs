//! The component types that entities may carry, plus the entity handle
//! itself. Components are plain data; intent components are one-turn
//! commands produced by the input adapter and consumed by the pipeline.

use vstd::prelude::*;

verus! {

/// Handle to an entity: an index into the world's arena together with the
/// generation the slot had when the entity was created. A stale handle
/// (the entity was deleted, the slot possibly reused under a higher
/// generation) resolves to "absent" in every storage lookup.
#[derive(Clone, Copy, PartialEq, Eq, Structural, Debug)]
pub struct Entity {
    pub id: usize,
    pub gen: u64,
}

/// A tile coordinate.
#[derive(Clone, Copy, PartialEq, Eq, Structural, Debug)]
pub struct Point {
    pub x: i32,
    pub y: i32,
}

/// The tile an actor or ground item currently occupies.
#[derive(Clone, Copy, PartialEq, Eq, Structural, Debug)]
pub struct Position {
    pub x: i32,
    pub y: i32,
}

/// A color channel triple for the renderer.
#[derive(Clone, Copy, PartialEq, Eq, Structural, Debug)]
pub struct Rgb {
    pub r: u8,
    pub g: u8,
    pub b: u8,
}

/// What the renderer draws for an entity; higher `render_order` draws on top.
#[derive(Clone, Copy, PartialEq, Eq, Structural, Debug)]
pub struct Renderable {
    pub glyph: u32,
    pub fg: Rgb,
    pub bg: Rgb,
    pub render_order: i32,
}

/// Marker: this entity is the player.
#[derive(Clone, Copy, PartialEq, Eq, Structural, Debug)]
pub struct Player {}

/// Marker: this entity is a monster.
#[derive(Clone, Copy, PartialEq, Eq, Structural, Debug)]
pub struct Monster {}

/// The set of tiles an entity currently sees, its sight range, and the
/// flag that forces the visibility system to recompute the set.
#[derive(Clone, PartialEq, Debug)]
pub struct Viewshed {
    pub visible_tiles: Vec<Point>,
    pub range: i32,
    pub dirty: bool,
}

/// A display name, used for log messages.
#[derive(Clone, PartialEq, Debug)]
pub struct Name {
    pub name: String,
}

/// Marker: this entity blocks movement through its tile.
#[derive(Clone, Copy, PartialEq, Eq, Structural, Debug)]
pub struct BlocksTile {}

/// Hit points and melee parameters of a combatant.
#[derive(Clone, Copy, PartialEq, Eq, Structural, Debug)]
pub struct CombatStats {
    pub max_hp: i32,
    pub hp: i32,
    pub defense: i32,
    pub power: i32,
}

/// Intent: attack `target` in melee this turn.
#[derive(Clone, Copy, PartialEq, Eq, Structural, Debug)]
pub struct WantsToMelee {
    pub target: Entity,
}

/// Damage entries accumulated during one pass; summed and removed by the
/// damage resolution pass.
#[derive(Clone, PartialEq, Debug)]
pub struct SufferDamage {
    pub amount: Vec<i32>,
}

/// Marker: this entity is an item.
#[derive(Clone, Copy, PartialEq, Eq, Structural, Debug)]
pub struct Item {}

/// Marker: this item is deleted once an effect of it applies.
#[derive(Clone, Copy, PartialEq, Eq, Structural, Debug)]
pub struct Consumable {}

/// Effect: raise each target's hit points, clamped to its maximum.
#[derive(Clone, Copy, PartialEq, Eq, Structural, Debug)]
pub struct ProvidesHealing {
    pub heal_amount: i32,
}

/// The item is carried in `owner`'s backpack.
#[derive(Clone, Copy, PartialEq, Eq, Structural, Debug)]
pub struct InBackpack {
    pub owner: Entity,
}

/// Intent: `collected_by` picks `item` up from the ground.
#[derive(Clone, Copy, PartialEq, Eq, Structural, Debug)]
pub struct WantsToPickUpItem {
    pub collected_by: Entity,
    pub item: Entity,
}

/// Intent: use `item`, aimed at `target` when the item is ranged.
#[derive(Clone, Copy, PartialEq, Eq, Debug)]
pub struct WantsToUseItem {
    pub item: Entity,
    pub target: Option<Point>,
}

/// Intent: drop `item` at the dropper's tile.
#[derive(Clone, Copy, PartialEq, Eq, Structural, Debug)]
pub struct WantsToDropItem {
    pub item: Entity,
}

/// Intent: unequip `item` and put it back into the backpack.
#[derive(Clone, Copy, PartialEq, Eq, Structural, Debug)]
pub struct WantsToRemoveItem {
    pub item: Entity,
}

/// The item must be aimed at a tile no farther than `range`.
#[derive(Clone, Copy, PartialEq, Eq, Structural, Debug)]
pub struct Ranged {
    pub range: i32,
}

/// Effect: append `damage` to each target's pending damage.
#[derive(Clone, Copy, PartialEq, Eq, Structural, Debug)]
pub struct InflictsDamage {
    pub damage: i32,
}

/// The item affects every entity within `radius` of the aimed tile.
#[derive(Clone, Copy, PartialEq, Eq, Structural, Debug)]
pub struct AreaOfEffect {
    pub radius: i32,
}

/// Status: the entity skips its actions for `turns` more monster turns.
#[derive(Clone, Copy, PartialEq, Eq, Structural, Debug)]
pub struct Confusion {
    pub turns: i32,
}

/// A body slot that equippable items go into.
#[derive(Clone, Copy, PartialEq, Eq, Structural, Debug)]
pub enum EquipSlot {
    Melee,
    Shield,
}

/// Effect: the item can be worn or wielded in `slot`.
#[derive(Clone, Copy, PartialEq, Eq, Structural, Debug)]
pub struct Equippable {
    pub slot: EquipSlot,
}

/// The item is currently worn or wielded by `owner` in `slot`.
#[derive(Clone, Copy, PartialEq, Eq, Structural, Debug)]
pub struct Equipped {
    pub owner: Entity,
    pub slot: EquipSlot,
}

/// Marker: the persistence snapshot includes this entity.
#[derive(Clone, Copy, PartialEq, Eq, Structural, Debug)]
pub struct SerializeMe {}

} // verus!
