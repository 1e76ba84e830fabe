//! The turn state machine and the per-turn pipeline: the enumerated run
//! states that decide which systems and which external inputs act each
//! frame, the ordered execution of the resolution systems exactly once
//! per pass, and the guarantee that every intent store is empty when the
//! pass ends, so stale commands cannot re-fire next turn.

use vstd::prelude::*;
use crate::components::{CombatStats, Entity, Point, WantsToDropItem, WantsToMelee,
    WantsToRemoveItem, WantsToUseItem};
use crate::damage_system::{delete_the_dead, DamageSystem};
use crate::inventory_system::{at_most_one, entry_or_none, InventorySystem, ItemDropSystem,
    ItemRemoveSystem};
use crate::item_use_system::ItemUseSystem;
use crate::map_indexing_system::{occupies, MapIndexingSystem};
use crate::melee_combat_system::MeleeCombatSystem;
use crate::monster_ai_system::MonsterAI;
use crate::visibility_system::{at_most_one_player, VisibilitySystem};
use crate::world::{slot_get, store_clean, World};
use crate::inventory_system::intent_slot;

verus! {

/// The state the turn machine is in between frames.
#[derive(Clone, Copy, PartialEq, Eq, Structural, Debug)]
pub enum RunState {
    MainMenu,
    PreRun,
    AwaitingInput,
    PlayerTurn,
    MonsterTurn,
    ShowInventory,
    ShowDropItem,
    ShowRemoveItem,
    ShowTargeting { range: i32, item: Entity },
    SaveGame,
    NextLevel,
}

/// What the external collaborators hand the machine each frame: the
/// input adapter's decision while awaiting input, and the menu or
/// targeting outcome while a secondary interface is shown.
#[derive(Clone, Copy, PartialEq, Eq, Structural, Debug)]
pub enum ExternalInput {
    Nothing,
    Adapter { next: RunState },
    MenuCancel,
    MenuNoResponse,
    MenuSelected { item: Entity },
    TargetSelected { x: i32, y: i32 },
    MenuNewGame,
    MenuLoadGame,
}

/// What the machine asks of its surroundings after a frame.
#[derive(Clone, Copy, PartialEq, Eq, Structural, Debug)]
pub enum TickEffect {
    Nothing,
    WriteSave,
    LoadSave,
    GameOver,
}

/// The machine's owner: the world, stepped one frame at a time.
pub struct State {
    pub ecs: World,
}

/// Everything a pipeline pass relies on: a well-formed world whose
/// storages hold no stale slots, one player at most, every position on
/// a walkable tile, walls blocked, validity of effect parameters, and
/// intents shaped the way the input adapter produces them (at most one
/// of each kind, on an actor that can carry it out).
pub open spec fn pass_ready(w: World) -> bool {
    &&& w.wf()
    &&& w.map.in_bounds(w.player_pos.x as int, w.player_pos.y as int)
    &&& at_most_one_player(w.players@)
    &&& at_most_one(w.pickup_intents@)
    &&& at_most_one(w.use_intents@)
    &&& at_most_one(w.drop_intents@)
    &&& at_most_one(w.remove_intents@)
    &&& store_clean(w.ents, w.monsters@)
    &&& store_clean(w.ents, w.viewsheds@)
    &&& store_clean(w.ents, w.positions@)
    &&& store_clean(w.ents, w.melee_intents@)
    &&& store_clean(w.ents, w.confusion@)
    &&& store_clean(w.ents, w.combat_stats@)
    &&& store_clean(w.ents, w.suffer_damage@)
    &&& store_clean(w.ents, w.use_intents@)
    &&& store_clean(w.ents, w.equipped@)
    &&& store_clean(w.ents, w.backpacks@)
    &&& store_clean(w.ents, w.equippables@)
    &&& forall|i: int|
        0 <= i < w.positions@.len() && w.positions@[i] is Some ==> w.map.in_bounds(
            (#[trigger] w.positions@[i])->Some_0.1.x as int,
            w.positions@[i]->Some_0.1.y as int,
        )
    &&& forall|i: int|
        0 <= i < w.positions@.len() && w.positions@[i] is Some ==> !(w.map.tiles@[w.map.spec_idx(
            (#[trigger] w.positions@[i])->Some_0.1.x as int,
            w.positions@[i]->Some_0.1.y as int,
        )] is Wall)
    &&& forall|idx: int|
        0 <= idx < w.map.tiles@.len() && w.map.tiles@[idx] is Wall ==> w.map.blocked@[idx]
    &&& forall|i: int|
        0 <= i < w.viewsheds@.len() && w.viewsheds@[i] is Some ==> (#[trigger] w.viewsheds@[i])->Some_0.1.range
            >= 0
    &&& forall|i: int|
        0 <= i < w.provides_healing@.len() && w.provides_healing@[i] is Some ==> (
        #[trigger] w.provides_healing@[i])->Some_0.1.heal_amount >= 0
    &&& forall|i: int|
        0 <= i < w.aoe@.len() && w.aoe@[i] is Some ==> (#[trigger] w.aoe@[i])->Some_0.1.radius
            >= 0
    &&& forall|i: int|
        0 <= i < w.pickup_intents@.len() && (#[trigger] w.pickup_intents@[i]) is Some
            && w.pickup_intents@[i]->Some_0.1.collected_by == w.player_entity ==> w.names.contains(
            w.pickup_intents@[i]->Some_0.1.item,
        )
    &&& forall|i: int|
        0 <= i < w.use_intents@.len() && (#[trigger] w.use_intents@[i]) is Some && (Entity {
            id: i as usize,
            gen: w.use_intents@[i]->Some_0.0,
        }) == w.player_entity ==> w.names.contains(w.use_intents@[i]->Some_0.1.item)
    &&& forall|i: int|
        0 <= i < w.use_intents@.len() && (#[trigger] w.use_intents@[i]) is Some ==> (
        match w.use_intents@[i]->Some_0.1.target {
            Some(pt) => w.map.in_bounds(pt.x as int, pt.y as int),
            None => true,
        })
    &&& forall|i: int|
        0 <= i < w.drop_intents@.len() && (#[trigger] w.drop_intents@[i]) is Some
            ==> w.positions.contains(Entity { id: i as usize, gen: w.drop_intents@[i]->Some_0.0 })
    &&& forall|i: int|
        0 <= i < w.drop_intents@.len() && (#[trigger] w.drop_intents@[i]) is Some && (Entity {
            id: i as usize,
            gen: w.drop_intents@[i]->Some_0.0,
        }) == w.player_entity ==> w.names.contains(w.drop_intents@[i]->Some_0.1.item)
    &&& forall|i: int, j: int|
        0 <= i < w.drop_intents@.len() && (#[trigger] w.drop_intents@[i]) is Some && 0 <= j
            < w.pickup_intents@.len() && (#[trigger] w.pickup_intents@[j]) is Some
            ==> w.pickup_intents@[j]->Some_0.1.item.id != i
    &&& forall|i: int|
        0 <= i < w.remove_intents@.len() && (#[trigger] w.remove_intents@[i]) is Some && (Entity {
            id: i as usize,
            gen: w.remove_intents@[i]->Some_0.0,
        }) == w.player_entity ==> w.names.contains(w.remove_intents@[i]->Some_0.1.item)
}


/// The visibility pass: every dirty viewshed recomputed against the map's
/// geometry and cleared, the shared visibility arrays refreshed from the
/// player's fresh view, and nothing else touched.
pub open spec fn vis_stage(a: World, b: World) -> bool {
    &&& b.map.wf()
    &&& b.map.width == a.map.width
    &&& b.map.height == a.map.height
    &&& b.map.tiles == a.map.tiles
    &&& b.map.blocked == a.map.blocked
    &&& b.map.tile_content == a.map.tile_content
    &&& b.map.rooms == a.map.rooms
    &&& b.viewsheds@.len() == a.viewsheds@.len()
    &&& forall|i: int|
        0 <= i < a.viewsheds@.len() ==> (if crate::visibility_system::viewer_active(
            a.viewsheds@,
            a.positions@,
            i,
        ) {
            let vs0 = (#[trigger] a.viewsheds@[i])->Some_0.1;
            let vs1 = b.viewsheds@[i]->Some_0.1;
            &&& b.viewsheds@[i] is Some
            &&& b.viewsheds@[i]->Some_0.0 == a.viewsheds@[i]->Some_0.0
            &&& vs1.range == vs0.range
            &&& !vs1.dirty
            &&& forall|p: Point|
                vs1.visible_tiles@.contains(p) <==> crate::fov::fov_contains(
                    a.map,
                    crate::visibility_system::viewer_origin(a.viewsheds@, a.positions@, i),
                    vs0.range as int,
                    p,
                )
        } else {
            b.viewsheds@[i] == a.viewsheds@[i]
        })
    &&& ((forall|i: int|
        0 <= i < a.viewsheds@.len() ==> !crate::visibility_system::player_refresh(
            a.viewsheds@,
            a.positions@,
            a.players@,
            i,
        )) ==> b.map.visible_tiles == a.map.visible_tiles && b.map.revealed_tiles
        == a.map.revealed_tiles)
    &&& forall|i: int|
        0 <= i < a.viewsheds@.len() && crate::visibility_system::player_refresh(
            a.viewsheds@,
            a.positions@,
            a.players@,
            i,
        ) ==> {
            let origin = crate::visibility_system::viewer_origin(a.viewsheds@, a.positions@, i);
            let range = (#[trigger] a.viewsheds@[i])->Some_0.1.range as int;
            &&& forall|idx: int|
                0 <= idx < b.map.visible_tiles@.len() ==> (b.map.visible_tiles@[idx]
                    <==> crate::fov::fov_contains(
                    a.map,
                    origin,
                    range,
                    crate::visibility_system::tile_point(a.map, idx),
                ))
            &&& forall|idx: int|
                0 <= idx < b.map.revealed_tiles@.len() ==> (b.map.revealed_tiles@[idx]
                    <==> a.map.revealed_tiles@[idx] || crate::fov::fov_contains(
                    a.map,
                    origin,
                    range,
                    crate::visibility_system::tile_point(a.map, idx),
                ))
        }
    &&& b.ents == a.ents
    &&& b.positions == a.positions
    &&& b.renderables == a.renderables
    &&& b.players == a.players
    &&& b.monsters == a.monsters
    &&& b.names == a.names
    &&& b.blockers == a.blockers
    &&& b.combat_stats == a.combat_stats
    &&& b.melee_intents == a.melee_intents
    &&& b.suffer_damage == a.suffer_damage
    &&& b.items == a.items
    &&& b.consumables == a.consumables
    &&& b.provides_healing == a.provides_healing
    &&& b.backpacks == a.backpacks
    &&& b.pickup_intents == a.pickup_intents
    &&& b.use_intents == a.use_intents
    &&& b.drop_intents == a.drop_intents
    &&& b.remove_intents == a.remove_intents
    &&& b.ranged == a.ranged
    &&& b.inflicts_damage == a.inflicts_damage
    &&& b.aoe == a.aoe
    &&& b.confusion == a.confusion
    &&& b.equippables == a.equippables
    &&& b.equipped == a.equipped
    &&& b.serialize_tags == a.serialize_tags
    &&& b.log == a.log
    &&& b.player_entity == a.player_entity
    &&& b.player_pos == a.player_pos
    &&& b.run_state == a.run_state
}

/// The monster turn: exact confusion countdown, melee intents forced for
/// every unconfused adjacent monster, movement bounded to one walkable
/// step taken only while the player was visible, moved monsters' views
/// dirty, and a complete no-op outside the monster turn.
pub open spec fn ai_stage(a: World, b: World) -> bool {
    &&& b.map.wf()
    &&& b.map.width == a.map.width
    &&& b.map.height == a.map.height
    &&& b.map.tiles == a.map.tiles
    &&& b.map.revealed_tiles == a.map.revealed_tiles
    &&& b.map.visible_tiles == a.map.visible_tiles
    &&& b.map.tile_content == a.map.tile_content
    &&& b.map.rooms == a.map.rooms
    &&& b.map.blocked@.len() == a.map.blocked@.len()
    &&& (a.run_state != RunState::MonsterTurn ==> b.map.blocked == a.map.blocked && b.viewsheds@
        == a.viewsheds@ && b.positions@ == a.positions@ && b.melee_intents@ == a.melee_intents@
        && b.confusion@ == a.confusion@)
    &&& store_clean(a.ents, b.viewsheds@)
    &&& store_clean(a.ents, b.positions@)
    &&& store_clean(a.ents, b.melee_intents@)
    &&& store_clean(a.ents, b.confusion@)
    &&& b.positions@.len() == a.positions@.len()
    &&& b.viewsheds@.len() == a.viewsheds@.len()
    &&& b.confusion@.len() == a.confusion@.len()
    &&& (a.run_state == RunState::MonsterTurn ==> forall|i: int|
        0 <= i < b.confusion@.len() ==> b.confusion@[i] == (if crate::monster_ai_system::m_active(
            a.monsters@,
            a.viewsheds@,
            a.positions@,
            i,
        ) && crate::monster_ai_system::slot_or_none(a.confusion@, i) is Some {
            match crate::monster_ai_system::confusion_next(a.confusion@[i]->Some_0.1.turns) {
                Some(t) => Some((a.confusion@[i]->Some_0.0, crate::components::Confusion { turns: t })),
                None => None,
            }
        } else {
            crate::monster_ai_system::slot_or_none(a.confusion@, i)
        }))
    &&& b.melee_intents@.len() >= a.melee_intents@.len()
    &&& (a.run_state == RunState::MonsterTurn ==> forall|i: int|
        0 <= i < a.monsters@.len() && crate::monster_ai_system::m_active(
            a.monsters@,
            a.viewsheds@,
            a.positions@,
            i,
        ) && !(crate::monster_ai_system::slot_or_none(a.confusion@, i) is Some)
            && #[trigger] crate::monster_ai_system::m_adjacent(a.positions@, i, a.player_pos)
            ==> i < b.melee_intents@.len())
    &&& (a.run_state == RunState::MonsterTurn ==> forall|i: int|
        0 <= i < b.melee_intents@.len() ==> b.melee_intents@[i] == (
        if crate::monster_ai_system::m_active(a.monsters@, a.viewsheds@, a.positions@, i) && !(
        crate::monster_ai_system::slot_or_none(a.confusion@, i) is Some)
            && crate::monster_ai_system::m_adjacent(a.positions@, i, a.player_pos) {
            Some((a.monsters@[i]->Some_0.0, WantsToMelee { target: a.player_entity }))
        } else {
            crate::monster_ai_system::slot_or_none(a.melee_intents@, i)
        }))
    &&& (a.run_state == RunState::MonsterTurn ==> forall|i: int|
        0 <= i < b.positions@.len() ==> (if crate::monster_ai_system::m_active(
            a.monsters@,
            a.viewsheds@,
            a.positions@,
            i,
        ) && !(crate::monster_ai_system::slot_or_none(a.confusion@, i) is Some)
            && !crate::monster_ai_system::m_adjacent(a.positions@, i, a.player_pos) {
            let p0 = crate::monster_ai_system::m_point(a.positions@, i);
            let p1 = crate::monster_ai_system::m_point(b.positions@, i);
            &&& b.positions@[i] is Some
            &&& b.positions@[i]->Some_0.0 == a.positions@[i]->Some_0.0
            &&& b.map.in_bounds(p1.x as int, p1.y as int)
            &&& !(b.map.tiles@[b.map.spec_idx(p1.x as int, p1.y as int)] is Wall)
            &&& -1 <= p1.x - p0.x <= 1 && -1 <= p1.y - p0.y <= 1
            &&& (p1 != p0 ==> a.viewsheds@[i]->Some_0.1.visible_tiles@.contains(a.player_pos))
        } else {
            b.positions@[i] == a.positions@[i]
        }))
    &&& (a.run_state == RunState::MonsterTurn ==> forall|i: int|
        0 <= i < b.viewsheds@.len() ==> (if crate::monster_ai_system::m_active(
            a.monsters@,
            a.viewsheds@,
            a.positions@,
            i,
        ) && b.positions@[i] != a.positions@[i] {
            let vs0 = a.viewsheds@[i]->Some_0.1;
            let vs1 = b.viewsheds@[i]->Some_0.1;
            &&& b.viewsheds@[i] is Some
            &&& b.viewsheds@[i]->Some_0.0 == a.viewsheds@[i]->Some_0.0
            &&& vs1.visible_tiles@ == vs0.visible_tiles@
            &&& vs1.range == vs0.range
            &&& vs1.dirty
        } else {
            b.viewsheds@[i] == a.viewsheds@[i]
        }))
    &&& b.ents == a.ents
    &&& b.renderables == a.renderables
    &&& b.players == a.players
    &&& b.monsters == a.monsters
    &&& b.names == a.names
    &&& b.blockers == a.blockers
    &&& b.combat_stats == a.combat_stats
    &&& b.suffer_damage == a.suffer_damage
    &&& b.items == a.items
    &&& b.consumables == a.consumables
    &&& b.provides_healing == a.provides_healing
    &&& b.backpacks == a.backpacks
    &&& b.pickup_intents == a.pickup_intents
    &&& b.use_intents == a.use_intents
    &&& b.drop_intents == a.drop_intents
    &&& b.remove_intents == a.remove_intents
    &&& b.ranged == a.ranged
    &&& b.inflicts_damage == a.inflicts_damage
    &&& b.aoe == a.aoe
    &&& b.equippables == a.equippables
    &&& b.equipped == a.equipped
    &&& b.serialize_tags == a.serialize_tags
    &&& b.log == a.log
    &&& b.player_entity == a.player_entity
    &&& b.player_pos == a.player_pos
    &&& b.run_state == a.run_state
}

/// The map indexing pass: `blocked` rebuilt from walls and blockers, the
/// occupancy cache rebuilt from scratch as the entities grouped by their
/// current position in ascending id order.
pub open spec fn idx_stage(a: World, b: World) -> bool {
    &&& b.map.wf()
    &&& b.map.width == a.map.width
    &&& b.map.height == a.map.height
    &&& b.map.tiles == a.map.tiles
    &&& b.map.revealed_tiles == a.map.revealed_tiles
    &&& b.map.visible_tiles == a.map.visible_tiles
    &&& b.map.rooms == a.map.rooms
    &&& forall|idx: int|
        0 <= idx < b.map.blocked@.len() ==> b.map.blocked@[idx]
            == crate::map_indexing_system::blocked_after(a.map, a.positions@, a.blockers@, idx)
    &&& forall|idx: int, e: Entity|
        0 <= idx < b.map.tile_content@.len()
            ==> ((#[trigger] b.map.tile_content@[idx]@.contains(e)) <==> occupies(
            a.map,
            a.positions@,
            e,
            idx,
        ))
    &&& forall|idx: int, k: int, l: int|
        0 <= idx < b.map.tile_content@.len() && 0 <= k < l < b.map.tile_content@[idx]@.len()
            ==> b.map.tile_content@[idx]@[k].id < b.map.tile_content@[idx]@[l].id
    &&& b.ents == a.ents
    &&& b.positions == a.positions
    &&& b.renderables == a.renderables
    &&& b.players == a.players
    &&& b.viewsheds == a.viewsheds
    &&& b.monsters == a.monsters
    &&& b.names == a.names
    &&& b.blockers == a.blockers
    &&& b.combat_stats == a.combat_stats
    &&& b.melee_intents == a.melee_intents
    &&& b.suffer_damage == a.suffer_damage
    &&& b.items == a.items
    &&& b.consumables == a.consumables
    &&& b.provides_healing == a.provides_healing
    &&& b.backpacks == a.backpacks
    &&& b.pickup_intents == a.pickup_intents
    &&& b.use_intents == a.use_intents
    &&& b.drop_intents == a.drop_intents
    &&& b.remove_intents == a.remove_intents
    &&& b.ranged == a.ranged
    &&& b.inflicts_damage == a.inflicts_damage
    &&& b.aoe == a.aoe
    &&& b.confusion == a.confusion
    &&& b.equippables == a.equippables
    &&& b.equipped == a.equipped
    &&& b.serialize_tags == a.serialize_tags
    &&& b.log == a.log
    &&& b.player_entity == a.player_entity
    &&& b.player_pos == a.player_pos
    &&& b.run_state == a.run_state
}

/// The melee pass: every pending intent converted into appended damage
/// per `melee_adds`, and the intent store cleared.
pub open spec fn melee_stage(a: World, b: World) -> bool {
    &&& b.melee_intents@.len() == a.melee_intents@.len()
    &&& b.melee_intents.is_clear()
    &&& b.suffer_damage@.len() >= a.suffer_damage@.len()
    &&& store_clean(a.ents, b.suffer_damage@)
    &&& forall|t: Entity|
        #[trigger] crate::damage_system::pending_of(b.suffer_damage@, t)
            == crate::damage_system::pending_of(a.suffer_damage@, t)
            + crate::melee_combat_system::melee_adds(
            a.melee_intents@,
            a.combat_stats@,
            t,
            a.melee_intents@.len() as int,
        )
    &&& b.ents == a.ents
    &&& b.positions == a.positions
    &&& b.renderables == a.renderables
    &&& b.players == a.players
    &&& b.viewsheds == a.viewsheds
    &&& b.monsters == a.monsters
    &&& b.names == a.names
    &&& b.blockers == a.blockers
    &&& b.combat_stats == a.combat_stats
    &&& b.items == a.items
    &&& b.consumables == a.consumables
    &&& b.provides_healing == a.provides_healing
    &&& b.backpacks == a.backpacks
    &&& b.pickup_intents == a.pickup_intents
    &&& b.use_intents == a.use_intents
    &&& b.drop_intents == a.drop_intents
    &&& b.remove_intents == a.remove_intents
    &&& b.ranged == a.ranged
    &&& b.inflicts_damage == a.inflicts_damage
    &&& b.aoe == a.aoe
    &&& b.confusion == a.confusion
    &&& b.equippables == a.equippables
    &&& b.equipped == a.equipped
    &&& b.serialize_tags == a.serialize_tags
    &&& b.map == a.map
    &&& b.log == a.log
    &&& b.player_entity == a.player_entity
    &&& b.player_pos == a.player_pos
    &&& b.run_state == a.run_state
}

/// The damage pass: every combatant's hit points lowered by its pending
/// sum in one application, and every pending-damage entry removed.
pub open spec fn damage_stage(a: World, b: World) -> bool {
    &&& b.suffer_damage@.len() == a.suffer_damage@.len()
    &&& b.suffer_damage.is_clear()
    &&& b.combat_stats@.len() == a.combat_stats@.len()
    &&& forall|i: int|
        0 <= i < a.combat_stats@.len() ==> b.combat_stats@[i]
            == crate::damage_system::stats_slot_after_damage(a.combat_stats@, a.suffer_damage@, i)
    &&& b.ents == a.ents
    &&& b.positions == a.positions
    &&& b.renderables == a.renderables
    &&& b.players == a.players
    &&& b.viewsheds == a.viewsheds
    &&& b.monsters == a.monsters
    &&& b.names == a.names
    &&& b.blockers == a.blockers
    &&& b.melee_intents == a.melee_intents
    &&& b.items == a.items
    &&& b.consumables == a.consumables
    &&& b.provides_healing == a.provides_healing
    &&& b.backpacks == a.backpacks
    &&& b.pickup_intents == a.pickup_intents
    &&& b.use_intents == a.use_intents
    &&& b.drop_intents == a.drop_intents
    &&& b.remove_intents == a.remove_intents
    &&& b.ranged == a.ranged
    &&& b.inflicts_damage == a.inflicts_damage
    &&& b.aoe == a.aoe
    &&& b.confusion == a.confusion
    &&& b.equippables == a.equippables
    &&& b.equipped == a.equipped
    &&& b.serialize_tags == a.serialize_tags
    &&& b.map == a.map
    &&& b.log == a.log
    &&& b.player_entity == a.player_entity
    &&& b.player_pos == a.player_pos
    &&& b.run_state == a.run_state
}

/// The death scan: every combatant without hit points other than the
/// player is queued for deletion, and the flag reports exactly whether
/// the player is out of hit points — the terminal condition.
pub open spec fn dead_stage(a: World, b: World, go: bool) -> bool {
    &&& b.ents.gens == a.ents.gens
    &&& b.ents.alive == a.ents.alive
    &&& b.ents.free == a.ents.free
    &&& a.ents.pending@.is_prefix_of(b.ents.pending@)
    &&& forall|k: int|
        a.ents.pending@.len() <= k < b.ents.pending@.len() ==> {
            let e = #[trigger] b.ents.pending@[k];
            &&& a.combat_stats.contains(e)
            &&& a.combat_stats.value(e).hp <= 0
            &&& e != a.player_entity
        }
    &&& forall|e: Entity|
        a.combat_stats.contains(e) && a.combat_stats.value(e).hp <= 0 && e != a.player_entity
            ==> b.ents.pending@.contains(e)
    &&& go == (a.combat_stats.contains(a.player_entity) && a.combat_stats.value(
        a.player_entity,
    ).hp <= 0)
    &&& b.positions == a.positions
    &&& b.renderables == a.renderables
    &&& b.players == a.players
    &&& b.viewsheds == a.viewsheds
    &&& b.monsters == a.monsters
    &&& b.names == a.names
    &&& b.blockers == a.blockers
    &&& b.combat_stats == a.combat_stats
    &&& b.melee_intents == a.melee_intents
    &&& b.suffer_damage == a.suffer_damage
    &&& b.items == a.items
    &&& b.consumables == a.consumables
    &&& b.provides_healing == a.provides_healing
    &&& b.backpacks == a.backpacks
    &&& b.pickup_intents == a.pickup_intents
    &&& b.use_intents == a.use_intents
    &&& b.drop_intents == a.drop_intents
    &&& b.remove_intents == a.remove_intents
    &&& b.ranged == a.ranged
    &&& b.inflicts_damage == a.inflicts_damage
    &&& b.aoe == a.aoe
    &&& b.confusion == a.confusion
    &&& b.equippables == a.equippables
    &&& b.equipped == a.equipped
    &&& b.serialize_tags == a.serialize_tags
    &&& b.map == a.map
    &&& b.log == a.log
    &&& b.player_entity == a.player_entity
    &&& b.player_pos == a.player_pos
    &&& b.run_state == a.run_state
}

/// The pickup pass: the served item moves from the ground into the
/// collector's backpack, an absent item is a cleared no-op, and the
/// intent store ends clear. The log grows only by the player's line.
pub open spec fn pickup_stage(a: World, b: World) -> bool {
    &&& b.pickup_intents@.len() == a.pickup_intents@.len()
    &&& b.pickup_intents.is_clear()
    &&& a.log.entries@.is_prefix_of(b.log.entries@)
    &&& (match intent_slot(a.pickup_intents@) {
        None => b.positions@ == a.positions@ && b.backpacks@ == a.backpacks@ && b.log.entries@
            == a.log.entries@,
        Some(j) => {
            let intent = a.pickup_intents@[j]->Some_0.1;
            if a.positions.contains(intent.item) {
                &&& b.positions@ == a.positions@.update(intent.item.id as int, None)
                &&& b.backpacks@.len() == vstd::math::max(
                    a.backpacks@.len() as int,
                    intent.item.id + 1 as int,
                )
                &&& forall|i: int|
                    0 <= i < b.backpacks@.len() ==> b.backpacks@[i] == (if i == intent.item.id {
                        Some(
                            (
                                intent.item.gen,
                                crate::components::InBackpack { owner: intent.collected_by },
                            ),
                        )
                    } else {
                        entry_or_none(a.backpacks@, i)
                    })
            } else {
                b.positions@ == a.positions@ && b.backpacks@ == a.backpacks@ && b.log.entries@
                    == a.log.entries@
            }
        },
    })
    &&& b.ents == a.ents
    &&& b.renderables == a.renderables
    &&& b.players == a.players
    &&& b.viewsheds == a.viewsheds
    &&& b.monsters == a.monsters
    &&& b.names == a.names
    &&& b.blockers == a.blockers
    &&& b.combat_stats == a.combat_stats
    &&& b.melee_intents == a.melee_intents
    &&& b.suffer_damage == a.suffer_damage
    &&& b.items == a.items
    &&& b.consumables == a.consumables
    &&& b.provides_healing == a.provides_healing
    &&& b.use_intents == a.use_intents
    &&& b.drop_intents == a.drop_intents
    &&& b.remove_intents == a.remove_intents
    &&& b.ranged == a.ranged
    &&& b.inflicts_damage == a.inflicts_damage
    &&& b.aoe == a.aoe
    &&& b.confusion == a.confusion
    &&& b.equippables == a.equippables
    &&& b.equipped == a.equipped
    &&& b.serialize_tags == a.serialize_tags
    &&& b.map == a.map
    &&& b.player_entity == a.player_entity
    &&& b.player_pos == a.player_pos
    &&& b.run_state == a.run_state
}

/// The drop pass: the served item leaves the backpack and lands at the
/// dropper's tile; an item not in a backpack is a cleared no-op; the
/// intent store ends clear.
pub open spec fn drop_stage(a: World, b: World) -> bool {
    &&& b.drop_intents@.len() == a.drop_intents@.len()
    &&& b.drop_intents.is_clear()
    &&& a.log.entries@.is_prefix_of(b.log.entries@)
    &&& (match intent_slot(a.drop_intents@) {
        None => b.positions@ == a.positions@ && b.backpacks@ == a.backpacks@ && b.log.entries@
            == a.log.entries@,
        Some(j) => {
            let dropper = (Entity { id: j as usize, gen: a.drop_intents@[j]->Some_0.0 });
            let item = a.drop_intents@[j]->Some_0.1.item;
            let dpos = a.positions.value(dropper);
            if a.backpacks.contains(item) {
                &&& b.positions@.len() == vstd::math::max(
                    a.positions@.len() as int,
                    item.id + 1 as int,
                )
                &&& forall|i: int|
                    0 <= i < b.positions@.len() ==> b.positions@[i] == (if i == item.id {
                        Some((item.gen, dpos))
                    } else {
                        entry_or_none(a.positions@, i)
                    })
                &&& b.backpacks@ == a.backpacks@.update(item.id as int, None)
            } else {
                b.positions@ == a.positions@ && b.backpacks@ == a.backpacks@ && b.log.entries@
                    == a.log.entries@
            }
        },
    })
    &&& b.ents == a.ents
    &&& b.renderables == a.renderables
    &&& b.players == a.players
    &&& b.viewsheds == a.viewsheds
    &&& b.monsters == a.monsters
    &&& b.names == a.names
    &&& b.blockers == a.blockers
    &&& b.combat_stats == a.combat_stats
    &&& b.melee_intents == a.melee_intents
    &&& b.suffer_damage == a.suffer_damage
    &&& b.items == a.items
    &&& b.consumables == a.consumables
    &&& b.provides_healing == a.provides_healing
    &&& b.pickup_intents == a.pickup_intents
    &&& b.use_intents == a.use_intents
    &&& b.remove_intents == a.remove_intents
    &&& b.ranged == a.ranged
    &&& b.inflicts_damage == a.inflicts_damage
    &&& b.aoe == a.aoe
    &&& b.confusion == a.confusion
    &&& b.equippables == a.equippables
    &&& b.equipped == a.equipped
    &&& b.serialize_tags == a.serialize_tags
    &&& b.map == a.map
    &&& b.player_entity == a.player_entity
    &&& b.player_pos == a.player_pos
    &&& b.run_state == a.run_state
}

/// The unequip pass: the served item leaves its body slot for the
/// remover's backpack; an item not equipped is a cleared no-op; the
/// intent store ends clear.
pub open spec fn remove_stage(a: World, b: World) -> bool {
    &&& b.remove_intents@.len() == a.remove_intents@.len()
    &&& b.remove_intents.is_clear()
    &&& a.log.entries@.is_prefix_of(b.log.entries@)
    &&& (match intent_slot(a.remove_intents@) {
        None => b.equipped@ == a.equipped@ && b.backpacks@ == a.backpacks@ && b.log.entries@
            == a.log.entries@,
        Some(j) => {
            let remover = (Entity { id: j as usize, gen: a.remove_intents@[j]->Some_0.0 });
            let item = a.remove_intents@[j]->Some_0.1.item;
            if a.equipped.contains(item) {
                &&& b.equipped@ == a.equipped@.update(item.id as int, None)
                &&& b.backpacks@.len() == vstd::math::max(
                    a.backpacks@.len() as int,
                    item.id + 1 as int,
                )
                &&& forall|i: int|
                    0 <= i < b.backpacks@.len() ==> b.backpacks@[i] == (if i == item.id {
                        Some((item.gen, crate::components::InBackpack { owner: remover }))
                    } else {
                        entry_or_none(a.backpacks@, i)
                    })
            } else {
                b.equipped@ == a.equipped@ && b.backpacks@ == a.backpacks@ && b.log.entries@
                    == a.log.entries@
            }
        },
    })
    &&& b.ents == a.ents
    &&& b.positions == a.positions
    &&& b.renderables == a.renderables
    &&& b.players == a.players
    &&& b.viewsheds == a.viewsheds
    &&& b.monsters == a.monsters
    &&& b.names == a.names
    &&& b.blockers == a.blockers
    &&& b.combat_stats == a.combat_stats
    &&& b.melee_intents == a.melee_intents
    &&& b.suffer_damage == a.suffer_damage
    &&& b.items == a.items
    &&& b.consumables == a.consumables
    &&& b.provides_healing == a.provides_healing
    &&& b.pickup_intents == a.pickup_intents
    &&& b.use_intents == a.use_intents
    &&& b.drop_intents == a.drop_intents
    &&& b.ranged == a.ranged
    &&& b.inflicts_damage == a.inflicts_damage
    &&& b.aoe == a.aoe
    &&& b.confusion == a.confusion
    &&& b.equippables == a.equippables
    &&& b.serialize_tags == a.serialize_tags
    &&& b.map == a.map
    &&& b.player_entity == a.player_entity
    &&& b.player_pos == a.player_pos
    &&& b.run_state == a.run_state
}

/// The maintain point: every deferred deletion applied — the affected
/// entities die, stale handles stay dead, and every storage drops
/// their components; nothing else changes and no storage gains one.
pub open spec fn maintain_stage(a: World, b: World) -> bool {
    &&& b.wf()
    &&& b.ents.pending@.len() == 0
    &&& b.ents.gens@.len() == a.ents.gens@.len()
    &&& forall|e: Entity|
        b.ents.live(e) <==> a.ents.live(e) && !a.ents.pending@.contains(e)
    &&& crate::world::storage_purged(a.ents, a.positions@, b.positions@)
    &&& crate::world::storage_purged(a.ents, a.renderables@, b.renderables@)
    &&& crate::world::storage_purged(a.ents, a.players@, b.players@)
    &&& crate::world::storage_purged(a.ents, a.viewsheds@, b.viewsheds@)
    &&& crate::world::storage_purged(a.ents, a.monsters@, b.monsters@)
    &&& crate::world::storage_purged(a.ents, a.names@, b.names@)
    &&& crate::world::storage_purged(a.ents, a.blockers@, b.blockers@)
    &&& crate::world::storage_purged(a.ents, a.combat_stats@, b.combat_stats@)
    &&& crate::world::storage_purged(a.ents, a.melee_intents@, b.melee_intents@)
    &&& crate::world::storage_purged(a.ents, a.suffer_damage@, b.suffer_damage@)
    &&& crate::world::storage_purged(a.ents, a.items@, b.items@)
    &&& crate::world::storage_purged(a.ents, a.consumables@, b.consumables@)
    &&& crate::world::storage_purged(a.ents, a.provides_healing@, b.provides_healing@)
    &&& crate::world::storage_purged(a.ents, a.backpacks@, b.backpacks@)
    &&& crate::world::storage_purged(a.ents, a.pickup_intents@, b.pickup_intents@)
    &&& crate::world::storage_purged(a.ents, a.use_intents@, b.use_intents@)
    &&& crate::world::storage_purged(a.ents, a.drop_intents@, b.drop_intents@)
    &&& crate::world::storage_purged(a.ents, a.remove_intents@, b.remove_intents@)
    &&& crate::world::storage_purged(a.ents, a.ranged@, b.ranged@)
    &&& crate::world::storage_purged(a.ents, a.inflicts_damage@, b.inflicts_damage@)
    &&& crate::world::storage_purged(a.ents, a.aoe@, b.aoe@)
    &&& crate::world::storage_purged(a.ents, a.confusion@, b.confusion@)
    &&& crate::world::storage_purged(a.ents, a.equippables@, b.equippables@)
    &&& crate::world::storage_purged(a.ents, a.equipped@, b.equipped@)
    &&& crate::world::storage_purged(a.ents, a.serialize_tags@, b.serialize_tags@)
    &&& b.map == a.map
    &&& b.log == a.log
    &&& b.player_entity == a.player_entity
    &&& b.player_pos == a.player_pos
    &&& b.run_state == a.run_state
}

/// The item use pass: the one pending intent resolved into its target
/// set and served — healing clamped to the maximum, damage appended,
/// confusion set, an equippable swapped into its slot — and a consumed
/// item queued for deletion exactly when something applied.
pub open spec fn use_stage(a: World, b: World) -> bool {
    &&& b.use_intents@.len() == a.use_intents@.len()
    &&& b.use_intents.is_clear()
    &&& a.log.entries@.is_prefix_of(b.log.entries@)
    &&& b.ents.gens == a.ents.gens
    &&& b.ents.alive == a.ents.alive
    &&& b.ents.free == a.ents.free
    &&& (match intent_slot(a.use_intents@) {
        None => {
            &&& b.combat_stats@ == a.combat_stats@
            &&& b.suffer_damage@ == a.suffer_damage@
            &&& b.confusion@ == a.confusion@
            &&& b.equipped@ == a.equipped@
            &&& b.backpacks@ == a.backpacks@
            &&& b.ents.pending == a.ents.pending
            &&& b.log.entries@ == a.log.entries@
        },
        Some(j) => {
            let user = (Entity { id: j as usize, gen: a.use_intents@[j]->Some_0.0 });
            let intent = a.use_intents@[j]->Some_0.1;
            let item = intent.item;
            let aoe_item = slot_get(a.aoe@, item);
            let heal = slot_get(a.provides_healing@, item);
            let inflict = slot_get(a.inflicts_damage@, item);
            let conf = slot_get(a.confusion@, item);
            let equip = slot_get(a.equippables@, item);
            let some_target = exists|e: Entity|
                crate::item_use_system::in_targets(a.map, user, intent.target, aoe_item, e);
            let applied = (heal is Some && exists|e: Entity|
                crate::item_use_system::in_targets(a.map, user, intent.target, aoe_item, e)
                    && a.combat_stats.contains(e)) || ((inflict is Some || conf is Some || equip
                is Some) && some_target);
            &&& b.combat_stats@.len() == a.combat_stats@.len()
            &&& forall|i: int|
                0 <= i < b.combat_stats@.len() ==> b.combat_stats@[i] == (
                match a.combat_stats@[i] {
                    Some((g, st)) => {
                        if heal is Some && crate::item_use_system::in_targets(
                            a.map,
                            user,
                            intent.target,
                            aoe_item,
                            Entity { id: i as usize, gen: g },
                        ) {
                            Some(
                                (
                                    g,
                                    CombatStats {
                                        hp: vstd::math::min(
                                            st.max_hp as int,
                                            st.hp + heal->Some_0.heal_amount,
                                        ) as i32,
                                        ..st
                                    },
                                ),
                            )
                        } else {
                            a.combat_stats@[i]
                        }
                    },
                    None => a.combat_stats@[i],
                })
            &&& forall|e: Entity|
                #[trigger] crate::damage_system::pending_of(b.suffer_damage@, e)
                    == crate::damage_system::pending_of(a.suffer_damage@, e) + (if inflict
                    is Some && crate::item_use_system::in_targets(
                    a.map,
                    user,
                    intent.target,
                    aoe_item,
                    e,
                ) {
                    seq![inflict->Some_0.damage]
                } else {
                    Seq::<i32>::empty()
                })
            &&& (conf is Some ==> forall|e: Entity|
                #[trigger] crate::item_use_system::in_targets(
                    a.map,
                    user,
                    intent.target,
                    aoe_item,
                    e,
                ) ==> b.confusion.contains(e) && b.confusion.value(e)
                    == (crate::components::Confusion { turns: conf->Some_0.turns }))
            &&& (conf is Some ==> forall|i: int|
                0 <= i < b.confusion@.len() && !(exists|e: Entity|
                    #[trigger] crate::item_use_system::in_targets(
                        a.map,
                        user,
                        intent.target,
                        aoe_item,
                        e,
                    ) && e.id == i) ==> b.confusion@[i] == entry_or_none(a.confusion@, i))
            &&& (conf is None ==> b.confusion@ == a.confusion@)
            &&& (match equip {
                Some(eq) => {
                    if intent.target is None {
                        &&& b.equipped@.len() == vstd::math::max(
                            a.equipped@.len() as int,
                            item.id + 1 as int,
                        )
                        &&& forall|i: int|
                            0 <= i < b.equipped@.len() ==> b.equipped@[i]
                                == crate::item_use_system::equipped_after(
                                a.equipped@,
                                item,
                                user,
                                eq.slot,
                                i,
                            )
                        &&& forall|i: int|
                            0 <= i < b.backpacks@.len() ==> b.backpacks@[i]
                                == crate::item_use_system::backpack_after_equip(
                                a.equipped@,
                                a.backpacks@,
                                item,
                                user,
                                eq.slot,
                                i,
                            )
                        &&& !b.backpacks.contains(item)
                        &&& forall|i: int|
                            (match #[trigger] entry_or_none(a.equipped@, i) {
                                Some(p) => p.1.owner == user && p.1.slot == eq.slot,
                                None => false,
                            }) && i != item.id ==> i < b.backpacks@.len()
                    } else if some_target {
                        exists|t0: Entity|
                            {
                                &&& #[trigger] crate::item_use_system::in_targets(
                                    a.map,
                                    user,
                                    intent.target,
                                    aoe_item,
                                    t0,
                                )
                                &&& b.equipped@.len() == vstd::math::max(
                                    a.equipped@.len() as int,
                                    item.id + 1 as int,
                                )
                                &&& forall|i: int|
                                    0 <= i < b.equipped@.len() ==> b.equipped@[i]
                                        == crate::item_use_system::equipped_after(
                                        a.equipped@,
                                        item,
                                        t0,
                                        eq.slot,
                                        i,
                                    )
                                &&& forall|i: int|
                                    0 <= i < b.backpacks@.len() ==> b.backpacks@[i]
                                        == crate::item_use_system::backpack_after_equip(
                                        a.equipped@,
                                        a.backpacks@,
                                        item,
                                        t0,
                                        eq.slot,
                                        i,
                                    )
                                &&& forall|i: int|
                                    (match #[trigger] entry_or_none(a.equipped@, i) {
                                        Some(p) => p.1.owner == t0 && p.1.slot == eq.slot,
                                        None => false,
                                    }) && i != item.id ==> i < b.backpacks@.len()
                            }
                    } else {
                        b.equipped@ == a.equipped@ && b.backpacks@ == a.backpacks@
                    }
                },
                None => b.equipped@ == a.equipped@ && b.backpacks@ == a.backpacks@,
            })
            &&& (a.consumables.contains(item) && applied ==> b.ents.pending@
                == a.ents.pending@.push(item))
            &&& (!(a.consumables.contains(item) && applied) ==> b.ents.pending@
                == a.ents.pending@)
        },
    })
    &&& b.positions == a.positions
    &&& b.renderables == a.renderables
    &&& b.players == a.players
    &&& b.viewsheds == a.viewsheds
    &&& b.monsters == a.monsters
    &&& b.names == a.names
    &&& b.blockers == a.blockers
    &&& b.melee_intents == a.melee_intents
    &&& b.items == a.items
    &&& b.consumables == a.consumables
    &&& b.provides_healing == a.provides_healing
    &&& b.pickup_intents == a.pickup_intents
    &&& b.drop_intents == a.drop_intents
    &&& b.remove_intents == a.remove_intents
    &&& b.ranged == a.ranged
    &&& b.inflicts_damage == a.inflicts_damage
    &&& b.aoe == a.aoe
    &&& b.equippables == a.equippables
    &&& b.serialize_tags == a.serialize_tags
    &&& b.map == a.map
    &&& b.player_entity == a.player_entity
    &&& b.player_pos == a.player_pos
    &&& b.run_state == a.run_state
}

/// The whole pass as the ordered composition of its eleven stages:
/// visibility, monster decisions, map indexing, melee, damage, the
/// death scan, pickup, item use, drop, unequip, and the maintain
/// point, each exact, chained through the intermediate worlds.
pub open spec fn pass_stages(
    w0: World,
    s1: World,
    s2: World,
    s3: World,
    s4: World,
    s5: World,
    s6: World,
    s7: World,
    s8: World,
    s9: World,
    s10: World,
    wend: World,
    go: bool,
) -> bool {
    &&& vis_stage(w0, s1)
    &&& ai_stage(s1, s2)
    &&& idx_stage(s2, s3)
    &&& melee_stage(s3, s4)
    &&& damage_stage(s4, s5)
    &&& dead_stage(s5, s6, go)
    &&& pickup_stage(s6, s7)
    &&& use_stage(s7, s8)
    &&& drop_stage(s8, s9)
    &&& remove_stage(s9, s10)
    &&& maintain_stage(s10, wend)
}


/// Appending intents from an empty store adds nothing.
proof fn lemma_melee_adds_clear(
    melee: Seq<Option<(u64, WantsToMelee)>>,
    stats: Seq<Option<(u64, CombatStats)>>,
    t: Entity,
    n: int,
)
    requires
        forall|i: int| 0 <= i < melee.len() ==> melee[i] is None,
        n <= melee.len(),
    ensures
        crate::melee_combat_system::melee_adds(melee, stats, t, n) == Seq::<i32>::empty(),
    decreases n,
{
    if n > 0 {
        lemma_melee_adds_clear(melee, stats, t, n - 1);
        assert(crate::melee_combat_system::melee_contrib(melee, stats, n - 1, t)
            =~= Seq::<i32>::empty());
        assert(crate::melee_combat_system::melee_adds(melee, stats, t, n)
            =~= crate::melee_combat_system::melee_adds(melee, stats, t, n - 1)
            + crate::melee_combat_system::melee_contrib(melee, stats, n - 1, t));
    }
}

/// Damage summation at the pass level: when the pass starts with no
/// melee or use intents and nobody dies of the result, every
/// combatant's hit points end lowered by exactly the sum of its
/// pending damage entries, applied once, with the pending component
/// gone — and the pass reports the player's death exactly. Started on
/// a world whose pending damage is also clear, this makes the second
/// of two back-to-back passes leave every combatant untouched.
pub proof fn lemma_pass_applies_damage(
    w0: World,
    s1: World,
    s2: World,
    s3: World,
    s4: World,
    s5: World,
    s6: World,
    s7: World,
    s8: World,
    s9: World,
    s10: World,
    wend: World,
    go: bool,
)
    requires
        pass_stages(w0, s1, s2, s3, s4, s5, s6, s7, s8, s9, s10, wend, go),
        w0.melee_intents.is_clear(),
        w0.use_intents.is_clear(),
        w0.ents.pending@.len() == 0,
        w0.run_state != RunState::MonsterTurn,
        w0.combat_stats@.len() <= usize::MAX,
        forall|i: int|
            0 <= i < w0.combat_stats@.len()
                && #[trigger] crate::damage_system::stats_slot_after_damage(
                w0.combat_stats@,
                w0.suffer_damage@,
                i,
            ) is Some && crate::damage_system::stats_slot_after_damage(
                w0.combat_stats@,
                w0.suffer_damage@,
                i,
            )->Some_0.1.hp <= 0 ==> (Entity {
                id: i as usize,
                gen: crate::damage_system::stats_slot_after_damage(
                    w0.combat_stats@,
                    w0.suffer_damage@,
                    i,
                )->Some_0.0,
            }) == w0.player_entity,
    ensures
        wend.combat_stats@.len() == w0.combat_stats@.len(),
        forall|i: int|
            0 <= i < w0.combat_stats@.len() ==> wend.combat_stats@[i]
                == crate::damage_system::stats_slot_after_damage(
                w0.combat_stats@,
                w0.suffer_damage@,
                i,
            ),
        wend.suffer_damage.is_clear(),
        go == (s5.combat_stats.contains(w0.player_entity) && s5.combat_stats.value(
            w0.player_entity,
        ).hp <= 0),
{
    // the melee store stays clear through the monster stage, so melee
    // appends nothing and the damage stage sees the original entries
    assert(s2.melee_intents@ == w0.melee_intents@);
    assert(s3.suffer_damage@ == w0.suffer_damage@);
    assert forall|t: Entity| #[trigger] crate::damage_system::pending_of(s4.suffer_damage@, t)
        == crate::damage_system::pending_of(w0.suffer_damage@, t) by {
        lemma_melee_adds_clear(
            s3.melee_intents@,
            s3.combat_stats@,
            t,
            s3.melee_intents@.len() as int,
        );
        assert(crate::damage_system::pending_of(s4.suffer_damage@, t)
            =~= crate::damage_system::pending_of(s3.suffer_damage@, t)
            + crate::melee_combat_system::melee_adds(
            s3.melee_intents@,
            s3.combat_stats@,
            t,
            s3.melee_intents@.len() as int,
        ));
    }
    // pending damage is per-entry equal, so the damage stage applies
    // exactly the original sums
    assert forall|i: int| 0 <= i < w0.combat_stats@.len() implies s5.combat_stats@[i]
        == crate::damage_system::stats_slot_after_damage(
        w0.combat_stats@,
        w0.suffer_damage@,
        i,
    ) by {
        assert(s5.combat_stats@[i] == crate::damage_system::stats_slot_after_damage(
            s4.combat_stats@,
            s4.suffer_damage@,
            i,
        ));
        assert(s4.combat_stats@ == w0.combat_stats@);
        match s4.combat_stats@[i] {
            Some((g, st)) => {
                let e = (Entity { id: i as usize, gen: g });
                assert(crate::damage_system::pending_of(s4.suffer_damage@, e)
                    == crate::damage_system::pending_of(w0.suffer_damage@, e));
                let s4_active = i < s4.suffer_damage@.len() && s4.suffer_damage@[i] is Some
                    && s4.suffer_damage@[i]->Some_0.0 == g;
                let w0_active = i < w0.suffer_damage@.len() && w0.suffer_damage@[i] is Some
                    && w0.suffer_damage@[i]->Some_0.0 == g;
                if s4_active && w0_active {
                    assert(s4.suffer_damage@[i]->Some_0.1.amount@
                        == w0.suffer_damage@[i]->Some_0.1.amount@);
                } else if s4_active && !w0_active {
                    // the entries are equal and empty, so subtracting
                    // their sum changes nothing
                    assert(s4.suffer_damage@[i]->Some_0.1.amount@ == Seq::<i32>::empty());
                    assert(crate::damage_system::sum_of(Seq::<i32>::empty()) == 0);
                    assert(crate::damage_system::sat_i32(st.hp - 0) == st.hp);
                    assert((CombatStats {
                        hp: crate::damage_system::sat_i32(st.hp - 0) as i32,
                        ..st
                    }) == st);
                } else if !s4_active && w0_active {
                    assert(w0.suffer_damage@[i]->Some_0.1.amount@ == Seq::<i32>::empty());
                    assert(crate::damage_system::sum_of(Seq::<i32>::empty()) == 0);
                    assert(crate::damage_system::sat_i32(st.hp - 0) == st.hp);
                    assert((CombatStats {
                        hp: crate::damage_system::sat_i32(st.hp - 0) as i32,
                        ..st
                    }) == st);
                }
            },
            None => {},
        }
    }
    // nobody but possibly the player died, so nothing is queued and
    // the maintain point purges no combatant
    assert(s6.ents.pending@ =~= s5.ents.pending@) by {
        if s6.ents.pending@.len() > s5.ents.pending@.len() {
            let k = s5.ents.pending@.len() as int;
            let e = s6.ents.pending@[k];
            assert(s5.combat_stats.contains(e) && s5.combat_stats.value(e).hp <= 0 && e
                != w0.player_entity);
            assert(s5.combat_stats@[e.id as int] == crate::damage_system::stats_slot_after_damage(
                w0.combat_stats@,
                w0.suffer_damage@,
                e.id as int,
            ));
            // only the player's slot may be out of hit points, so the
            // appended handle would have to be the player
            assert(e == w0.player_entity);
            assert(false);
        }
    }
    assert(s7.combat_stats@ == s6.combat_stats@);
    assert(intent_slot(s7.use_intents@) is None) by {
        if intent_slot(s7.use_intents@) is Some {
            let j = choose|j: int| 0 <= j < s7.use_intents@.len() && s7.use_intents@[j] is Some;
            assert(w0.use_intents@[j] is None);
        }
    }
    assert(s8.combat_stats@ == s7.combat_stats@);
    assert(s10.ents.pending@.len() == 0);
    assert forall|i: int| 0 <= i < w0.combat_stats@.len() implies wend.combat_stats@[i]
        == s5.combat_stats@[i] by {
        assert(crate::world::storage_purged(s10.ents, s10.combat_stats@, wend.combat_stats@));
        assert(!s10.ents.doomed(i)) by {
            if s10.ents.doomed(i) {
                let j = choose|j: int|
                    0 <= j < s10.ents.pending@.len() && (#[trigger] s10.ents.pending@[j]).id == i
                        && s10.ents.live(s10.ents.pending@[j]);
            }
        }
    }
    assert(wend.suffer_damage.is_clear()) by {
        assert forall|i: int| 0 <= i < wend.suffer_damage@.len() implies wend.suffer_damage@[i]
            is None by {
            assert(crate::world::storage_purged(s10.ents, s10.suffer_damage@, wend.suffer_damage@));
            assert(s10.suffer_damage@[i] is None);
        }
    }
}

/// The dead are gone after the pass: a combatant that reaches the
/// death scan without hit points, other than the player, is not live
/// once the pass's maintain point has run.
pub proof fn lemma_pass_buries_the_dead(
    w0: World,
    s1: World,
    s2: World,
    s3: World,
    s4: World,
    s5: World,
    s6: World,
    s7: World,
    s8: World,
    s9: World,
    s10: World,
    wend: World,
    go: bool,
    e: Entity,
)
    requires
        pass_stages(w0, s1, s2, s3, s4, s5, s6, s7, s8, s9, s10, wend, go),
        s5.combat_stats.contains(e),
        s5.combat_stats.value(e).hp <= 0,
        e != w0.player_entity,
    ensures
        !wend.ents.live(e),
{
    assert(s6.ents.pending@.contains(e));
    let k = choose|k: int| 0 <= k < s6.ents.pending@.len() && s6.ents.pending@[k] == e;
    assert(s7.ents.pending@ == s6.ents.pending@);
    // the use stage only appends to the deletion queue
    assert(s8.ents.pending@[k] == e) by {
        assert(s8.ents.pending@ == s7.ents.pending@ || exists|it: Entity|
            s8.ents.pending@ == s7.ents.pending@.push(it)) by {
            match intent_slot(s7.use_intents@) {
                Some(_j) => {},
                None => {},
            }
        }
    }
    assert(s10.ents.pending@[k] == e);
    assert(s10.ents.pending@.contains(e));
    assert(!wend.ents.live(e));
}

/// One active-turn frame: the pipeline ran as its ordered stage
/// composition, the machine moved to `next`, and the effect reports
/// exactly whether the player died in the pass.
pub open spec fn pipeline_frame(
    w0: World,
    wend: World,
    next: RunState,
    effect: TickEffect,
) -> bool {
    exists|s1: World, s2: World, s3: World, s4: World, s5: World, s6: World, s7: World,
        s8: World, s9: World, s10: World, wp: World, go: bool|
        {
            &&& #[trigger] pass_stages(w0, s1, s2, s3, s4, s5, s6, s7, s8, s9, s10, wp, go)
            &&& wend == (World { run_state: next, ..wp })
            &&& effect == (if go {
                TickEffect::GameOver
            } else {
                TickEffect::Nothing
            })
        }
}

impl State {
    /// A state over a freshly built world.
    pub fn new(ecs: World) -> (s: State)
        ensures
            s.ecs == ecs,
    {
        State { ecs }
    }

    /// One full pipeline pass, in the fixed dependency order: visibility,
    /// monster decisions, map indexing, melee, damage, the death scan,
    /// then the four inventory passes, then the maintain point. Returns
    /// whether the player died this pass. Every intent store is empty
    /// afterward, and the `pass_stages` clause exposes the pass as the
    /// ordered composition of its eleven exact stages, chained through
    /// existentially bound intermediate worlds.
    #[verifier::loop_isolation(false)]
    #[verifier::rlimit(100)]
    #[verifier::spinoff_prover]
    pub fn run_systems(&mut self) -> (game_over: bool)
        requires
            pass_ready(old(self).ecs),
        ensures
            final(self).ecs.wf(),
            final(self).ecs.melee_intents.is_clear(),
            final(self).ecs.pickup_intents.is_clear(),
            final(self).ecs.use_intents.is_clear(),
            final(self).ecs.drop_intents.is_clear(),
            final(self).ecs.remove_intents.is_clear(),
            final(self).ecs.ents.pending@.len() == 0,
            final(self).ecs.run_state == old(self).ecs.run_state,
            final(self).ecs.player_entity == old(self).ecs.player_entity,
            // the pass really is the ordered composition of its stages:
            // the intermediate worlds witness each system's exact effect
            exists|s1: World, s2: World, s3: World, s4: World, s5: World, s6: World, s7: World,
                s8: World, s9: World, s10: World|
                #[trigger] pass_stages(
                    old(self).ecs,
                    s1,
                    s2,
                    s3,
                    s4,
                    s5,
                    s6,
                    s7,
                    s8,
                    s9,
                    s10,
                    final(self).ecs,
                    game_over,
                ),
    {
        let player = self.ecs.player_entity;
        let ppos = self.ecs.player_pos;
        let run_state = self.ecs.run_state;
        let dcap = self.ecs.drop_intents.slots.len();
        let pcap = self.ecs.positions.slots.len();
        let ghost w0 = self.ecs;
        VisibilitySystem::run(
            &mut self.ecs.map,
            &mut self.ecs.viewsheds,
            &self.ecs.positions,
            &self.ecs.players,
        );
        proof {
            // recomputed viewsheds keep their generations
            assert forall|i: int|
                0 <= i < self.ecs.viewsheds@.len() && self.ecs.viewsheds@[i] is Some implies i
                < self.ecs.ents.gens@.len() && self.ecs.ents.alive@[i] && (
            #[trigger] self.ecs.viewsheds@[i])->Some_0.0 == self.ecs.ents.gens@[i] by {
                assert(w0.viewsheds@[i] is Some);
            }
        }
        let ghost w1 = self.ecs;
        MonsterAI::run(
            &mut self.ecs.map,
            ppos,
            player,
            run_state,
            &self.ecs.ents,
            &mut self.ecs.viewsheds,
            &self.ecs.monsters,
            &mut self.ecs.positions,
            &mut self.ecs.melee_intents,
            &mut self.ecs.confusion,
        );
        proof {
            // positions stay on walkable in-bounds tiles
            assert forall|i: int|
                0 <= i < self.ecs.positions@.len() && self.ecs.positions@[i] is Some implies {
                let p = (#[trigger] self.ecs.positions@[i])->Some_0.1;
                &&& self.ecs.map.in_bounds(p.x as int, p.y as int)
                &&& !(self.ecs.map.tiles@[self.ecs.map.spec_idx(p.x as int, p.y as int)] is Wall)
            } by {
                if run_state == RunState::MonsterTurn {
                    assert(w1.positions@[i] is Some);
                } else {
                    assert(self.ecs.positions@[i] == w1.positions@[i]);
                }
            }
        }
        let ghost w2 = self.ecs;
        MapIndexingSystem::run(&mut self.ecs.map, &self.ecs.positions, &self.ecs.blockers);
        proof {
            // the rebuilt occupancy cache lists only live entities, each
            // exactly once and on exactly one tile
            assert forall|idx: int, k: int|
                0 <= idx < self.ecs.map.tile_content@.len() && 0 <= k
                    < self.ecs.map.tile_content@[idx]@.len() implies {
                let e = #[trigger] self.ecs.map.tile_content@[idx]@[k];
                &&& e.id < self.ecs.ents.gens@.len()
                &&& self.ecs.ents.alive@[e.id as int]
                &&& self.ecs.ents.gens@[e.id as int] == e.gen
            } by {
                let e = self.ecs.map.tile_content@[idx]@[k];
                assert(self.ecs.map.tile_content@[idx]@.contains(e));
                assert(occupies(w2.map, w2.positions@, e, idx));
                assert(w2.positions@[e.id as int] is Some);
            }
            assert(crate::item_use_system::content_unique(self.ecs.map)) by {
                assert forall|idx: int, k: int, l: int|
                    0 <= idx < self.ecs.map.tile_content@.len() && 0 <= k < l
                        < self.ecs.map.tile_content@[idx]@.len() implies
                    self.ecs.map.tile_content@[idx]@[k] != self.ecs.map.tile_content@[idx]@[l] by {
                    assert(self.ecs.map.tile_content@[idx]@[k].id
                        < self.ecs.map.tile_content@[idx]@[l].id);
                }
            }
            assert(crate::item_use_system::content_functional(self.ecs.map)) by {
                assert forall|i1: int, i2: int, e: Entity|
                    0 <= i1 < self.ecs.map.tile_content@.len() && 0 <= i2
                        < self.ecs.map.tile_content@.len()
                        && #[trigger] self.ecs.map.tile_content@[i1]@.contains(e)
                        && #[trigger] self.ecs.map.tile_content@[i2]@.contains(e) implies i1
                    == i2 by {
                    assert(occupies(w2.map, w2.positions@, e, i1));
                    assert(occupies(w2.map, w2.positions@, e, i2));
                }
            }
        }
        let ghost w3 = self.ecs;
        MeleeCombatSystem::run(
            &self.ecs.ents,
            &mut self.ecs.melee_intents,
            &self.ecs.combat_stats,
            &mut self.ecs.suffer_damage,
        );
        let ghost w4 = self.ecs;
        DamageSystem::run(&mut self.ecs.combat_stats, &mut self.ecs.suffer_damage);
        proof {
            // damage resolution keeps each combatant's generation
            assert forall|i: int|
                0 <= i < self.ecs.combat_stats@.len() && self.ecs.combat_stats@[i]
                    is Some implies i < self.ecs.ents.gens@.len() && self.ecs.ents.alive@[i] && (
            #[trigger] self.ecs.combat_stats@[i])->Some_0.0 == self.ecs.ents.gens@[i] by {
                assert(self.ecs.combat_stats@[i]
                    == crate::damage_system::stats_slot_after_damage(
                    w4.combat_stats@,
                    w4.suffer_damage@,
                    i,
                ));
                assert(w4.combat_stats@[i] is Some);
            }
        }
        let ghost w4d = self.ecs;
        let game_over = delete_the_dead(
            &mut self.ecs.ents,
            &self.ecs.combat_stats,
            player,
        );
        let ghost w5 = self.ecs;
        InventorySystem::run(
            player,
            &mut self.ecs.log,
            &mut self.ecs.pickup_intents,
            &mut self.ecs.positions,
            &self.ecs.names,
            &mut self.ecs.backpacks,
        );
        proof {
            // a picked-up item was on the ground, so it is live and its
            // backpack entry keeps its generation
            assert forall|i: int|
                0 <= i < self.ecs.backpacks@.len() && self.ecs.backpacks@[i] is Some implies i
                < self.ecs.ents.gens@.len() && self.ecs.ents.alive@[i] && (
            #[trigger] self.ecs.backpacks@[i])->Some_0.0 == self.ecs.ents.gens@[i] by {
                match crate::inventory_system::intent_slot(w5.pickup_intents@) {
                    Some(j) => {
                        let intent = w5.pickup_intents@[j]->Some_0.1;
                        if w5.positions.contains(intent.item) && i == intent.item.id {
                            assert(w5.positions@[intent.item.id as int] is Some);
                        } else {
                            assert(self.ecs.backpacks@[i] == entry_or_none(w5.backpacks@, i));
                            assert(w5.backpacks@[i] is Some);
                        }
                    },
                    None => {
                        assert(self.ecs.backpacks@[i] == w5.backpacks@[i]);
                    },
                }
            }
        }
        let ghost w6 = self.ecs;
        ItemUseSystem::run(
            &self.ecs.map,
            player,
            &mut self.ecs.log,
            &mut self.ecs.ents,
            &mut self.ecs.use_intents,
            &self.ecs.names,
            &self.ecs.consumables,
            &self.ecs.provides_healing,
            &self.ecs.inflicts_damage,
            &mut self.ecs.combat_stats,
            &mut self.ecs.suffer_damage,
            &self.ecs.aoe,
            &mut self.ecs.confusion,
            &self.ecs.equippables,
            &mut self.ecs.equipped,
            &mut self.ecs.backpacks,
        );
        proof {
            // drop intents still name a standing dropper
            assert forall|i: int|
                0 <= i < self.ecs.drop_intents@.len() && (#[trigger] self.ecs.drop_intents@[i])
                    is Some implies self.ecs.positions.contains(
                Entity { id: i as usize, gen: self.ecs.drop_intents@[i]->Some_0.0 },
            ) by {
                assert(w0.drop_intents@[i] is Some);
                let dropper = Entity { id: i as usize, gen: w0.drop_intents@[i]->Some_0.0 };
                assert(w0.positions.contains(dropper));
                if run_state == RunState::MonsterTurn {
                    assert(w1.positions@[i] is Some);
                }
                assert(w2.positions.contains(dropper));
                match crate::inventory_system::intent_slot(w5.pickup_intents@) {
                    Some(j) => {
                        let intent = w5.pickup_intents@[j]->Some_0.1;
                        assert(intent.item.id != i as int);
                    },
                    None => {},
                }
            }
        }
        let ghost w6u = self.ecs;
        ItemDropSystem::run(
            player,
            &mut self.ecs.log,
            &mut self.ecs.drop_intents,
            &mut self.ecs.positions,
            &self.ecs.names,
            &mut self.ecs.backpacks,
        );
        let ghost w6d = self.ecs;
        ItemRemoveSystem::run(
            player,
            &mut self.ecs.log,
            &mut self.ecs.remove_intents,
            &mut self.ecs.equipped,
            &self.ecs.names,
            &mut self.ecs.backpacks,
        );
        let ghost w7 = self.ecs;
        self.ecs.maintain();
        proof {
            assert(self.ecs.melee_intents.is_clear()) by {
                assert forall|i: int|
                    0 <= i < self.ecs.melee_intents@.len() implies self.ecs.melee_intents@[i]
                    is None by {
                    assert(w7.melee_intents@[i] is None);
                }
            }
            assert(self.ecs.pickup_intents.is_clear()) by {
                assert forall|i: int|
                    0 <= i < self.ecs.pickup_intents@.len() implies self.ecs.pickup_intents@[i]
                    is None by {
                    assert(w7.pickup_intents@[i] is None);
                }
            }
            assert(self.ecs.use_intents.is_clear()) by {
                assert forall|i: int|
                    0 <= i < self.ecs.use_intents@.len() implies self.ecs.use_intents@[i]
                    is None by {
                    assert(w7.use_intents@[i] is None);
                }
            }
            assert(self.ecs.drop_intents.is_clear()) by {
                assert forall|i: int|
                    0 <= i < self.ecs.drop_intents@.len() implies self.ecs.drop_intents@[i]
                    is None by {
                    assert(w7.drop_intents@[i] is None);
                }
            }
            assert(self.ecs.remove_intents.is_clear()) by {
                assert forall|i: int|
                    0 <= i < self.ecs.remove_intents@.len() implies self.ecs.remove_intents@[i]
                    is None by {
                    assert(w7.remove_intents@[i] is None);
                }
            }
            // the ghost snapshots witness the pass as the ordered
            // composition of its exact stages
            assert(vis_stage(w0, w1));
            assert(ai_stage(w1, w2));
            assert(idx_stage(w2, w3));
            assert(melee_stage(w3, w4));
            assert(damage_stage(w4, w4d));
            assert(dead_stage(w4d, w5, game_over));
            assert(pickup_stage(w5, w6));
            assert(use_stage(w6, w6u));
            assert(drop_stage(w6u, w6d));
            assert(remove_stage(w6d, w7));
            assert(maintain_stage(w7, self.ecs));
            assert(pass_stages(
                w0,
                w1,
                w2,
                w3,
                w4,
                w4d,
                w5,
                w6,
                w6u,
                w6d,
                w7,
                self.ecs,
                game_over,
            ));
        }
        game_over
    }

    /// One frame of the turn machine: run the pipeline on the active
    /// turn states — `pipeline_frame` in the contract forces the full
    /// stage composition and ties the returned effect to the player's
    /// death — hand control to the external collaborators on the
    /// waiting states, turn menu selections into intents, and ask the
    /// surroundings to write or load the save where the machine cannot.
    #[verifier::rlimit(60)]
    pub fn tick(&mut self, input: ExternalInput) -> (effect: TickEffect)
        requires
            old(self).ecs.run_state == RunState::PreRun || old(self).ecs.run_state
                == RunState::PlayerTurn || old(self).ecs.run_state == RunState::MonsterTurn
                ==> pass_ready(old(self).ecs),
            old(self).ecs.player_entity.id < usize::MAX,
        ensures
            match old(self).ecs.run_state {
                RunState::PreRun => final(self).ecs.run_state == RunState::AwaitingInput && final(self).ecs.wf() && pipeline_frame(
                    old(self).ecs,
                    final(self).ecs,
                    RunState::AwaitingInput,
                    effect,
                ),
                RunState::PlayerTurn => final(self).ecs.run_state == RunState::MonsterTurn
                    && final(self).ecs.wf() && pipeline_frame(
                    old(self).ecs,
                    final(self).ecs,
                    RunState::MonsterTurn,
                    effect,
                ),
                RunState::MonsterTurn => final(self).ecs.run_state == RunState::AwaitingInput
                    && final(self).ecs.wf() && pipeline_frame(
                    old(self).ecs,
                    final(self).ecs,
                    RunState::AwaitingInput,
                    effect,
                ),
                RunState::AwaitingInput => {
                    &&& (match input {
                        ExternalInput::Adapter { next } => final(self).ecs.run_state == next,
                        _ => final(self).ecs.run_state == RunState::AwaitingInput,
                    })
                    &&& frame_but_state(old(self).ecs, final(self).ecs)
                    &&& effect == TickEffect::Nothing
                },
                RunState::ShowInventory => {
                    &&& (match input {
                        ExternalInput::MenuCancel => final(self).ecs.run_state
                            == RunState::AwaitingInput && final(self).ecs.use_intents@ == old(self).ecs.use_intents@,
                        ExternalInput::MenuSelected { item } => {
                            if slot_get(old(self).ecs.ranged@, item) is Some {
                                &&& final(self).ecs.run_state == (RunState::ShowTargeting {
                                    range: slot_get(old(self).ecs.ranged@, item)->Some_0.range,
                                    item,
                                })
                                &&& final(self).ecs.use_intents@ == old(self).ecs.use_intents@
                            } else {
                                &&& final(self).ecs.run_state == RunState::PlayerTurn
                                &&& intent_written(
                                    old(self).ecs,
                                    final(self).ecs,
                                    item,
                                    None::<Point>,
                                )
                            }
                        },
                        _ => final(self).ecs.run_state == RunState::ShowInventory && final(self).ecs.use_intents@ == old(self).ecs.use_intents@,
                    })
                    &&& frame_but_state_uses(old(self).ecs, final(self).ecs)
                    &&& effect == TickEffect::Nothing
                },
                RunState::ShowTargeting { range, item } => {
                    &&& (match input {
                        ExternalInput::MenuCancel => final(self).ecs.run_state
                            == RunState::AwaitingInput && final(self).ecs.use_intents@ == old(self).ecs.use_intents@,
                        ExternalInput::TargetSelected { x, y } => {
                            &&& final(self).ecs.run_state == RunState::PlayerTurn
                            &&& intent_written(
                                old(self).ecs,
                                final(self).ecs,
                                item,
                                Some(Point { x, y }),
                            )
                        },
                        _ => final(self).ecs.run_state == (RunState::ShowTargeting {
                            range,
                            item,
                        }) && final(self).ecs.use_intents@ == old(self).ecs.use_intents@,
                    })
                    &&& frame_but_state_uses(old(self).ecs, final(self).ecs)
                    &&& effect == TickEffect::Nothing
                },
                RunState::ShowDropItem => {
                    &&& (match input {
                        ExternalInput::MenuCancel => final(self).ecs.run_state
                            == RunState::AwaitingInput && final(self).ecs.drop_intents@ == old(self).ecs.drop_intents@,
                        ExternalInput::MenuSelected { item } => {
                            &&& final(self).ecs.run_state == RunState::PlayerTurn
                            &&& drop_intent_written(old(self).ecs, final(self).ecs, item)
                        },
                        _ => final(self).ecs.run_state == RunState::ShowDropItem && final(self).ecs.drop_intents@ == old(self).ecs.drop_intents@,
                    })
                    &&& frame_but_state_drops(old(self).ecs, final(self).ecs)
                    &&& effect == TickEffect::Nothing
                },
                RunState::ShowRemoveItem => {
                    &&& (match input {
                        ExternalInput::MenuCancel => final(self).ecs.run_state
                            == RunState::AwaitingInput && final(self).ecs.remove_intents@ == old(self).ecs.remove_intents@,
                        ExternalInput::MenuSelected { item } => {
                            &&& final(self).ecs.run_state == RunState::PlayerTurn
                            &&& remove_intent_written(old(self).ecs, final(self).ecs, item)
                        },
                        _ => final(self).ecs.run_state == RunState::ShowRemoveItem && final(self).ecs.remove_intents@ == old(self).ecs.remove_intents@,
                    })
                    &&& frame_but_state_removes(old(self).ecs, final(self).ecs)
                    &&& effect == TickEffect::Nothing
                },
                RunState::MainMenu => {
                    &&& (match input {
                        ExternalInput::MenuNewGame => final(self).ecs.run_state == RunState::PreRun
                            && effect == TickEffect::Nothing,
                        ExternalInput::MenuLoadGame => final(self).ecs.run_state
                            == RunState::AwaitingInput && effect == TickEffect::LoadSave,
                        _ => final(self).ecs.run_state == RunState::MainMenu && effect
                            == TickEffect::Nothing,
                    })
                    &&& frame_but_state(old(self).ecs, final(self).ecs)
                },
                RunState::SaveGame => final(self).ecs.run_state == RunState::MainMenu && effect
                    == TickEffect::WriteSave && frame_but_state(old(self).ecs, final(self).ecs),
                RunState::NextLevel => final(self).ecs.run_state == RunState::PreRun && effect
                    == TickEffect::Nothing && frame_but_state(old(self).ecs, final(self).ecs),
            },
    {
        let state = self.ecs.run_state;
        match state {
            RunState::PreRun => {
                let go = self.run_systems();
                let ghost wp = self.ecs;
                self.ecs.run_state = RunState::AwaitingInput;
                proof {
                    assert(self.ecs == (World { run_state: RunState::AwaitingInput, ..wp }));
                    let (s1, s2, s3, s4, s5, s6, s7, s8, s9, s10) = choose|
                        s1: World,
                        s2: World,
                        s3: World,
                        s4: World,
                        s5: World,
                        s6: World,
                        s7: World,
                        s8: World,
                        s9: World,
                        s10: World,
                    |
                        #[trigger] pass_stages(
                            old(self).ecs,
                            s1,
                            s2,
                            s3,
                            s4,
                            s5,
                            s6,
                            s7,
                            s8,
                            s9,
                            s10,
                            wp,
                            go,
                        );
                    assert(pipeline_frame(
                        old(self).ecs,
                        self.ecs,
                        RunState::AwaitingInput,
                        if go {
                            TickEffect::GameOver
                        } else {
                            TickEffect::Nothing
                        },
                    ));
                }
                if go {
                    TickEffect::GameOver
                } else {
                    TickEffect::Nothing
                }
            },
            RunState::PlayerTurn => {
                let go = self.run_systems();
                let ghost wp = self.ecs;
                self.ecs.run_state = RunState::MonsterTurn;
                proof {
                    assert(self.ecs == (World { run_state: RunState::MonsterTurn, ..wp }));
                    let (s1, s2, s3, s4, s5, s6, s7, s8, s9, s10) = choose|
                        s1: World,
                        s2: World,
                        s3: World,
                        s4: World,
                        s5: World,
                        s6: World,
                        s7: World,
                        s8: World,
                        s9: World,
                        s10: World,
                    |
                        #[trigger] pass_stages(
                            old(self).ecs,
                            s1,
                            s2,
                            s3,
                            s4,
                            s5,
                            s6,
                            s7,
                            s8,
                            s9,
                            s10,
                            wp,
                            go,
                        );
                    assert(pipeline_frame(
                        old(self).ecs,
                        self.ecs,
                        RunState::MonsterTurn,
                        if go {
                            TickEffect::GameOver
                        } else {
                            TickEffect::Nothing
                        },
                    ));
                }
                if go {
                    TickEffect::GameOver
                } else {
                    TickEffect::Nothing
                }
            },
            RunState::MonsterTurn => {
                let go = self.run_systems();
                let ghost wp = self.ecs;
                self.ecs.run_state = RunState::AwaitingInput;
                proof {
                    assert(self.ecs == (World { run_state: RunState::AwaitingInput, ..wp }));
                    let (s1, s2, s3, s4, s5, s6, s7, s8, s9, s10) = choose|
                        s1: World,
                        s2: World,
                        s3: World,
                        s4: World,
                        s5: World,
                        s6: World,
                        s7: World,
                        s8: World,
                        s9: World,
                        s10: World,
                    |
                        #[trigger] pass_stages(
                            old(self).ecs,
                            s1,
                            s2,
                            s3,
                            s4,
                            s5,
                            s6,
                            s7,
                            s8,
                            s9,
                            s10,
                            wp,
                            go,
                        );
                    assert(pipeline_frame(
                        old(self).ecs,
                        self.ecs,
                        RunState::AwaitingInput,
                        if go {
                            TickEffect::GameOver
                        } else {
                            TickEffect::Nothing
                        },
                    ));
                }
                if go {
                    TickEffect::GameOver
                } else {
                    TickEffect::Nothing
                }
            },
            RunState::AwaitingInput => {
                match input {
                    ExternalInput::Adapter { next } => {
                        self.ecs.run_state = next;
                    },
                    _ => {},
                }
                TickEffect::Nothing
            },
            RunState::ShowInventory => {
                match input {
                    ExternalInput::MenuCancel => {
                        self.ecs.run_state = RunState::AwaitingInput;
                    },
                    ExternalInput::MenuSelected { item } => {
                        let ranged_item = match self.ecs.ranged.get(item) {
                            Some(r) => Some(*r),
                            None => None,
                        };
                        match ranged_item {
                            Some(r) => {
                                self.ecs.run_state = RunState::ShowTargeting {
                                    range: r.range,
                                    item,
                                };
                            },
                            None => {
                                let player = self.ecs.player_entity;
                                self.ecs.use_intents.insert(
                                    player,
                                    WantsToUseItem { item, target: None },
                                );
                                self.ecs.run_state = RunState::PlayerTurn;
                            },
                        }
                    },
                    _ => {},
                }
                TickEffect::Nothing
            },
            RunState::ShowTargeting { range: _, item } => {
                match input {
                    ExternalInput::MenuCancel => {
                        self.ecs.run_state = RunState::AwaitingInput;
                    },
                    ExternalInput::TargetSelected { x, y } => {
                        let player = self.ecs.player_entity;
                        self.ecs.use_intents.insert(
                            player,
                            WantsToUseItem { item, target: Some(Point { x, y }) },
                        );
                        self.ecs.run_state = RunState::PlayerTurn;
                    },
                    _ => {},
                }
                TickEffect::Nothing
            },
            RunState::ShowDropItem => {
                match input {
                    ExternalInput::MenuCancel => {
                        self.ecs.run_state = RunState::AwaitingInput;
                    },
                    ExternalInput::MenuSelected { item } => {
                        let player = self.ecs.player_entity;
                        self.ecs.drop_intents.insert(player, WantsToDropItem { item });
                        self.ecs.run_state = RunState::PlayerTurn;
                    },
                    _ => {},
                }
                TickEffect::Nothing
            },
            RunState::ShowRemoveItem => {
                match input {
                    ExternalInput::MenuCancel => {
                        self.ecs.run_state = RunState::AwaitingInput;
                    },
                    ExternalInput::MenuSelected { item } => {
                        let player = self.ecs.player_entity;
                        self.ecs.remove_intents.insert(player, WantsToRemoveItem { item });
                        self.ecs.run_state = RunState::PlayerTurn;
                    },
                    _ => {},
                }
                TickEffect::Nothing
            },
            RunState::MainMenu => {
                match input {
                    ExternalInput::MenuNewGame => {
                        self.ecs.run_state = RunState::PreRun;
                        TickEffect::Nothing
                    },
                    ExternalInput::MenuLoadGame => {
                        self.ecs.run_state = RunState::AwaitingInput;
                        TickEffect::LoadSave
                    },
                    _ => TickEffect::Nothing,
                }
            },
            RunState::SaveGame => {
                self.ecs.run_state = RunState::MainMenu;
                TickEffect::WriteSave
            },
            RunState::NextLevel => {
                self.ecs.run_state = RunState::PreRun;
                TickEffect::Nothing
            },
        }
    }
}

/// Nothing but the run state changed.
pub open spec fn frame_but_state(w0: World, w1: World) -> bool {
    &&& w1.ents == w0.ents
    &&& w1.positions == w0.positions
    &&& w1.viewsheds == w0.viewsheds
    &&& w1.use_intents == w0.use_intents
    &&& w1.drop_intents == w0.drop_intents
    &&& w1.remove_intents == w0.remove_intents
    &&& w1.pickup_intents == w0.pickup_intents
    &&& w1.melee_intents == w0.melee_intents
    &&& w1.map == w0.map
    &&& w1.log == w0.log
    &&& w1.player_entity == w0.player_entity
    &&& w1.player_pos == w0.player_pos
}

/// Nothing but the run state and the use intents changed.
pub open spec fn frame_but_state_uses(w0: World, w1: World) -> bool {
    &&& w1.ents == w0.ents
    &&& w1.positions == w0.positions
    &&& w1.drop_intents == w0.drop_intents
    &&& w1.remove_intents == w0.remove_intents
    &&& w1.pickup_intents == w0.pickup_intents
    &&& w1.melee_intents == w0.melee_intents
    &&& w1.map == w0.map
    &&& w1.log == w0.log
    &&& w1.player_entity == w0.player_entity
}

/// Nothing but the run state and the drop intents changed.
pub open spec fn frame_but_state_drops(w0: World, w1: World) -> bool {
    &&& w1.ents == w0.ents
    &&& w1.positions == w0.positions
    &&& w1.use_intents == w0.use_intents
    &&& w1.remove_intents == w0.remove_intents
    &&& w1.pickup_intents == w0.pickup_intents
    &&& w1.melee_intents == w0.melee_intents
    &&& w1.map == w0.map
    &&& w1.log == w0.log
    &&& w1.player_entity == w0.player_entity
}

/// Nothing but the run state and the unequip intents changed.
pub open spec fn frame_but_state_removes(w0: World, w1: World) -> bool {
    &&& w1.ents == w0.ents
    &&& w1.positions == w0.positions
    &&& w1.use_intents == w0.use_intents
    &&& w1.drop_intents == w0.drop_intents
    &&& w1.pickup_intents == w0.pickup_intents
    &&& w1.melee_intents == w0.melee_intents
    &&& w1.map == w0.map
    &&& w1.log == w0.log
    &&& w1.player_entity == w0.player_entity
}

/// A use intent for `item` aimed at `target` now sits on the player.
pub open spec fn intent_written(w0: World, w1: World, item: Entity, target: Option<Point>) -> bool {
    &&& w1.use_intents@.len() == vstd::math::max(
        w0.use_intents@.len() as int,
        w0.player_entity.id + 1 as int,
    )
    &&& forall|k: int|
        0 <= k < w1.use_intents@.len() ==> w1.use_intents@[k] == (if k == w0.player_entity.id {
            Some((w0.player_entity.gen, WantsToUseItem { item, target }))
        } else {
            entry_or_none(w0.use_intents@, k)
        })
}

/// A drop intent for `item` now sits on the player.
pub open spec fn drop_intent_written(w0: World, w1: World, item: Entity) -> bool {
    &&& w1.drop_intents@.len() == vstd::math::max(
        w0.drop_intents@.len() as int,
        w0.player_entity.id + 1 as int,
    )
    &&& forall|k: int|
        0 <= k < w1.drop_intents@.len() ==> w1.drop_intents@[k] == (if k == w0.player_entity.id {
            Some((w0.player_entity.gen, WantsToDropItem { item }))
        } else {
            entry_or_none(w0.drop_intents@, k)
        })
}

/// An unequip intent for `item` now sits on the player.
pub open spec fn remove_intent_written(w0: World, w1: World, item: Entity) -> bool {
    &&& w1.remove_intents@.len() == vstd::math::max(
        w0.remove_intents@.len() as int,
        w0.player_entity.id + 1 as int,
    )
    &&& forall|k: int|
        0 <= k < w1.remove_intents@.len() ==> w1.remove_intents@[k] == (if k
            == w0.player_entity.id {
            Some((w0.player_entity.gen, WantsToRemoveItem { item }))
        } else {
            entry_or_none(w0.remove_intents@, k)
        })
}

} // verus!
