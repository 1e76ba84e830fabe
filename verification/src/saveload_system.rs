//! The persistence snapshot: every entity carrying the persist tag is
//! written into a plain, self-contained form together with the map, and
//! loading rebuilds the whole population from it with fresh handles.
//! Cross-entity references are stored as row indices into the snapshot,
//! so they remap consistently to the freshly allocated identities.
//! Saves happen between passes, when the pipeline has cleared every
//! intent and all pending damage, so the snapshot carries neither. The
//! surrounding program turns a snapshot into bytes on disk and back.

use vstd::prelude::*;
use crate::components::{
    AreaOfEffect, CombatStats, Confusion, Entity, EquipSlot, Equippable, InflictsDamage, Name,
    Position, ProvidesHealing, Ranged, Renderable, Viewshed,
};
use crate::map::{GameMap, Rect, TileType};
use crate::world::{slot_get, World};

verus! {

/// One persisted entity: its components as plain values, with
/// references to other entities replaced by snapshot row indices.
pub struct SavedEntity {
    pub position: Option<Position>,
    pub renderable: Option<Renderable>,
    pub player: bool,
    pub monster: bool,
    pub name: Option<Name>,
    pub blocks_tile: bool,
    pub combat_stats: Option<CombatStats>,
    pub item: bool,
    pub consumable: bool,
    pub provides_healing: Option<ProvidesHealing>,
    pub in_backpack: Option<usize>,
    pub ranged: Option<Ranged>,
    pub inflicts_damage: Option<InflictsDamage>,
    pub aoe: Option<AreaOfEffect>,
    pub confusion: Option<Confusion>,
    pub equippable: Option<Equippable>,
    pub equipped: Option<(usize, EquipSlot)>,
    pub viewshed: Option<Viewshed>,
}

/// The whole persisted state: the tagged entities and the map.
pub struct Snapshot {
    pub entities: Vec<SavedEntity>,
    pub width: i32,
    pub height: i32,
    pub tiles: Vec<TileType>,
    pub revealed: Vec<bool>,
    pub rooms: Vec<Rect>,
}

/// Entity slot `i` is persisted: it carries the persist tag.
pub open spec fn saved(w: World, i: int) -> bool {
    0 <= i < w.serialize_tags@.len() && w.serialize_tags@[i] is Some
}

/// The persisted slot ids below `n`, in ascending order.
pub open spec fn saved_ids(w: World, n: int) -> Seq<int>
    decreases n,
{
    if n <= 0 {
        Seq::empty()
    } else {
        saved_ids(w, n - 1) + (if saved(w, n - 1) {
            seq![n - 1]
        } else {
            Seq::<int>::empty()
        })
    }
}

/// The entity handle of a persisted slot.
pub open spec fn saved_entity(w: World, i: int) -> Entity {
    Entity { id: i as usize, gen: w.serialize_tags@[i]->Some_0.0 }
}

/// A reference to `owner` survives the snapshot: the owner is live and
/// itself persisted.
pub open spec fn ref_ok(w: World, owner: Entity) -> bool {
    &&& w.ents.live(owner)
    &&& saved(w, owner.id as int)
}

/// Row `row` records exactly the components of persisted slot `i`,
/// with references replaced by snapshot row indices.
pub open spec fn row_matches(w: World, ids: Seq<int>, i: int, row: SavedEntity) -> bool {
    let e = saved_entity(w, i);
    &&& row.position == slot_get(w.positions@, e)
    &&& row.renderable == slot_get(w.renderables@, e)
    &&& row.player == (slot_get(w.players@, e) is Some)
    &&& row.monster == (slot_get(w.monsters@, e) is Some)
    &&& (match (row.name, slot_get(w.names@, e)) {
        (Some(a), Some(b)) => a.name@ == b.name@,
        (None, None) => true,
        _ => false,
    })
    &&& row.blocks_tile == (slot_get(w.blockers@, e) is Some)
    &&& row.combat_stats == slot_get(w.combat_stats@, e)
    &&& row.item == (slot_get(w.items@, e) is Some)
    &&& row.consumable == (slot_get(w.consumables@, e) is Some)
    &&& row.provides_healing == slot_get(w.provides_healing@, e)
    &&& (match slot_get(w.backpacks@, e) {
        Some(b) => {
            if ref_ok(w, b.owner) {
                row.in_backpack == Some(ids.index_of(b.owner.id as int) as usize)
            } else {
                row.in_backpack is None
            }
        },
        None => row.in_backpack is None,
    })
    &&& row.ranged == slot_get(w.ranged@, e)
    &&& row.inflicts_damage == slot_get(w.inflicts_damage@, e)
    &&& row.aoe == slot_get(w.aoe@, e)
    &&& row.confusion == slot_get(w.confusion@, e)
    &&& row.equippable == slot_get(w.equippables@, e)
    &&& (match slot_get(w.equipped@, e) {
        Some(q) => {
            if ref_ok(w, q.owner) {
                row.equipped == Some((ids.index_of(q.owner.id as int) as usize, q.slot))
            } else {
                row.equipped is None
            }
        },
        None => row.equipped is None,
    })
    &&& (match (row.viewshed, slot_get(w.viewsheds@, e)) {
        (Some(a), Some(b)) => a.visible_tiles@ == b.visible_tiles@ && a.range == b.range
            && a.dirty == b.dirty,
        (None, None) => true,
        _ => false,
    })
}

/// The whole snapshot records the world: one row per persisted slot in
/// ascending id order, and the map's geometry, revealed flags and
/// rooms.
pub open spec fn snapshot_matches(w: World, s: Snapshot) -> bool {
    let ids = saved_ids(w, w.serialize_tags@.len() as int);
    &&& s.entities@.len() == ids.len()
    &&& forall|k: int|
        0 <= k < ids.len() ==> row_matches(w, ids, ids[k], #[trigger] s.entities@[k])
    &&& s.width == w.map.width
    &&& s.height == w.map.height
    &&& s.tiles@ == w.map.tiles@
    &&& s.revealed@ == w.map.revealed_tiles@
    &&& s.rooms@ == w.map.rooms@
}

/// The persisted ids are ascending, distinct, and exactly the tagged
/// slots.
proof fn lemma_saved_ids(w: World, n: int)
    requires
        0 <= n <= w.serialize_tags@.len(),
    ensures
        forall|k: int| 0 <= k < saved_ids(w, n).len() ==> 0 <= #[trigger] saved_ids(w, n)[k] < n,
        forall|k: int, l: int|
            0 <= k < l < saved_ids(w, n).len() ==> saved_ids(w, n)[k] < saved_ids(w, n)[l],
        forall|k: int| 0 <= k < saved_ids(w, n).len() ==> saved(w, #[trigger] saved_ids(w, n)[k]),
        forall|i: int| 0 <= i < n && saved(w, i) ==> saved_ids(w, n).contains(i),
    decreases n,
{
    if n > 0 {
        lemma_saved_ids(w, n - 1);
        assert forall|i: int| 0 <= i < n && saved(w, i) implies saved_ids(w, n).contains(i) by {
            if i < n - 1 {
                assert(saved_ids(w, n - 1).contains(i));
                let k = choose|k: int|
                    0 <= k < saved_ids(w, n - 1).len() && #[trigger] saved_ids(w, n - 1)[k] == i;
                assert(saved_ids(w, n)[k] == i);
            } else {
                assert(saved_ids(w, n)[saved_ids(w, n).len() - 1] == i);
            }
        }
    }
}

/// Report whether the surroundings found a snapshot to load: the
/// presence check for the saved game.
pub fn save_exists(save: &Option<Snapshot>) -> (r: bool)
    ensures
        r == (save is Some),
{
    match save {
        Some(_) => true,
        None => false,
    }
}

/// Report whether a reference to `owner` survives the snapshot.
fn is_ref_ok(w: &World, owner: Entity) -> (r: bool)
    requires
        w.ents.wf(),
    ensures
        r == ref_ok(*w, owner),
{
    let live = owner.id < w.ents.gens.len() && owner.id < w.ents.alive.len()
        && w.ents.alive[owner.id] && w.ents.gens[owner.id] == owner.gen;
    let tagged = owner.id < w.serialize_tags.slots.len() && match &w.serialize_tags.slots[owner.id] {
        Some(_) => true,
        None => false,
    };
    live && tagged
}

/// Find the row index a persisted slot id was written to.
#[verifier::loop_isolation(false)]
fn find_row(ids: &Vec<usize>, id: usize) -> (r: Option<usize>)
    requires
        forall|j: int, l: int| 0 <= j < l < ids@.len() ==> ids@[j] != ids@[l],
    ensures
        match r {
            Some(k) => (k as int) < ids@.len() && ids@[k as int] == id && ids@.map_values(
                |v: usize| v as int,
            ).index_of(id as int) == k as int,
            None => !ids@.contains(id),
        },
{
    let n = ids.len();
    let mut k: usize = 0;
    while k < n
        invariant
            n == ids@.len(),
            k <= n,
            forall|j: int| 0 <= j < k ==> ids@[j] != id,
        decreases n - k,
    {
        if ids[k] == id {
            proof {
                let m = ids@.map_values(|v: usize| v as int);
                assert(m[k as int] == id as int);
                assert forall|j: int| 0 <= j < m.len() && j != k implies m[j] != id as int by {
                    assert(ids@[j] != ids@[k as int]);
                }
                lemma_index_of_unique(m, id as int, k as int);
            }
            return Some(k);
        }
        k += 1;
    }
    proof {
        if ids@.contains(id) {
            let j = choose|j: int| 0 <= j < ids@.len() && ids@[j] == id;
            assert(false);
        }
    }
    None
}

/// Write the persistence snapshot: one row per tagged entity, in
/// ascending slot order, plus the map.
#[verifier::loop_isolation(false)]
#[verifier::rlimit(100)]
#[verifier::spinoff_prover]
pub fn save_game(w: &World) -> (s: Snapshot)
    requires
        w.wf(),
        crate::world::store_clean(w.ents, w.serialize_tags@),
    ensures
        snapshot_matches(*w, s),
{
    let n = w.serialize_tags.slots.len();
    let ghost all_ids = saved_ids(*w, n as int);
    proof {
        lemma_saved_ids(*w, n as int);
    }
    // the persisted slot ids, ascending
    let mut ids: Vec<usize> = Vec::new();
    let mut i: usize = 0;
    while i < n
        invariant
            i <= n,
            ids@.map_values(|v: usize| v as int) == saved_ids(*w, i as int),
        decreases n - i,
    {
        let ghost pre = ids@;
        let tagged = match &w.serialize_tags.slots[i] {
            Some(_) => true,
            None => false,
        };
        if tagged {
            ids.push(i);
        }
        i += 1;
        proof {
            if tagged {
                assert(ids@ == pre.push((i - 1) as usize));
                assert(ids@.map_values(|v: usize| v as int) =~= pre.map_values(
                    |v: usize| v as int,
                ).push(i - 1));
                assert(saved_ids(*w, i as int) =~= saved_ids(*w, i - 1) + seq![i - 1]);
                assert(ids@.map_values(|v: usize| v as int) =~= saved_ids(*w, i as int));
            } else {
                assert(saved_ids(*w, i as int) =~= saved_ids(*w, i - 1));
            }
        }
    }
    proof {
        assert forall|j: int, l: int| 0 <= j < l < ids@.len() implies ids@[j] != ids@[l] by {
            assert(all_ids[j] < all_ids[l]);
            assert(ids@.map_values(|v: usize| v as int)[j] == ids@[j] as int);
            assert(ids@.map_values(|v: usize| v as int)[l] == ids@[l] as int);
        }
    }
    // one row per persisted slot
    let nk = ids.len();
    let mut entities: Vec<SavedEntity> = Vec::new();
    let mut k: usize = 0;
    while k < nk
        invariant
            nk == ids@.len(),
            k <= nk,
            entities@.len() == k,
            forall|k2: int|
                0 <= k2 < k ==> row_matches(*w, all_ids, all_ids[k2], #[trigger] entities@[k2]),
        decreases nk - k,
    {
        let slot = ids[k];
        proof {
            assert(ids@.map_values(|v: usize| v as int)[k as int] == slot as int);
            assert(all_ids[k as int] == slot as int);
            assert(saved(*w, slot as int));
        }
        let g = match &w.serialize_tags.slots[slot] {
            Some(p) => p.0,
            None => 0u64,
        };
        let e = Entity { id: slot, gen: g };
        proof {
            assert(e == saved_entity(*w, slot as int));
        }
        let in_backpack: Option<usize> = match w.backpacks.get(e) {
            Some(b) => {
                let owner = b.owner;
                if is_ref_ok(w, owner) {
                    match find_row(&ids, owner.id) {
                        Some(r) => Some(r),
                        None => {
                            proof {
                                lemma_saved_in_ids(*w, ids@, owner.id as int);
                            }
                            None
                        },
                    }
                } else {
                    None
                }
            },
            None => None,
        };
        let equipped_ref: Option<(usize, EquipSlot)> = match w.equipped.get(e) {
            Some(q) => {
                let owner = q.owner;
                if is_ref_ok(w, owner) {
                    match find_row(&ids, owner.id) {
                        Some(r) => Some((r, q.slot)),
                        None => {
                            proof {
                                lemma_saved_in_ids(*w, ids@, owner.id as int);
                            }
                            None
                        },
                    }
                } else {
                    None
                }
            },
            None => None,
        };
        let row = SavedEntity {
            position: match w.positions.get(e) {
                Some(p) => Some(*p),
                None => None,
            },
            renderable: match w.renderables.get(e) {
                Some(r) => Some(*r),
                None => None,
            },
            player: w.players.has(e),
            monster: w.monsters.has(e),
            name: match w.names.get(e) {
                Some(nm) => Some(Name { name: nm.name.clone() }),
                None => None,
            },
            blocks_tile: w.blockers.has(e),
            combat_stats: match w.combat_stats.get(e) {
                Some(c) => Some(*c),
                None => None,
            },
            item: w.items.has(e),
            consumable: w.consumables.has(e),
            provides_healing: match w.provides_healing.get(e) {
                Some(h) => Some(*h),
                None => None,
            },
            in_backpack,
            ranged: match w.ranged.get(e) {
                Some(r) => Some(*r),
                None => None,
            },
            inflicts_damage: match w.inflicts_damage.get(e) {
                Some(d) => Some(*d),
                None => None,
            },
            aoe: match w.aoe.get(e) {
                Some(a) => Some(*a),
                None => None,
            },
            confusion: match w.confusion.get(e) {
                Some(c) => Some(*c),
                None => None,
            },
            equippable: match w.equippables.get(e) {
                Some(q) => Some(*q),
                None => None,
            },
            equipped: equipped_ref,
            viewshed: match w.viewsheds.get(e) {
                Some(v) => Some(
                    Viewshed {
                        visible_tiles: v.visible_tiles.clone(),
                        range: v.range,
                        dirty: v.dirty,
                    },
                ),
                None => None,
            },
        };
        proof {
            assert(row_matches(*w, all_ids, slot as int, row));
        }
        entities.push(row);
        k += 1;
    }
    Snapshot {
        entities,
        width: w.map.width,
        height: w.map.height,
        tiles: w.map.tiles.clone(),
        revealed: w.map.revealed_tiles.clone(),
        rooms: w.map.rooms.clone(),
    }
}

/// A persisted slot id always has its row in the id list.
proof fn lemma_saved_in_ids(w: World, ids: Seq<usize>, i: int)
    requires
        ids.map_values(|v: usize| v as int) == saved_ids(w, w.serialize_tags@.len() as int),
        saved(w, i),
        0 <= i <= usize::MAX,
    ensures
        ids.contains(i as usize),
{
    lemma_saved_ids(w, w.serialize_tags@.len() as int);
    let all = saved_ids(w, w.serialize_tags@.len() as int);
    assert(all.contains(i));
    let k = choose|k: int| 0 <= k < all.len() && all[k] == i;
    assert(ids.map_values(|v: usize| v as int)[k] == ids[k] as int);
    assert(ids[k] == i as usize);
    assert(ids.contains(i as usize));
}

/// The fresh entity of row `k` carries exactly the row's components,
/// with row indices turned back into handles through `created`.
pub open spec fn loaded_matches(w2: World, created: Seq<Entity>, row: SavedEntity, k: int) -> bool {
    let e = created[k];
    &&& slot_get(w2.positions@, e) == row.position
    &&& slot_get(w2.renderables@, e) == row.renderable
    &&& (slot_get(w2.players@, e) is Some) == row.player
    &&& (slot_get(w2.monsters@, e) is Some) == row.monster
    &&& (match (slot_get(w2.names@, e), row.name) {
        (Some(a), Some(b)) => a.name@ == b.name@,
        (None, None) => true,
        _ => false,
    })
    &&& (slot_get(w2.blockers@, e) is Some) == row.blocks_tile
    &&& slot_get(w2.combat_stats@, e) == row.combat_stats
    &&& (slot_get(w2.items@, e) is Some) == row.item
    &&& (slot_get(w2.consumables@, e) is Some) == row.consumable
    &&& slot_get(w2.provides_healing@, e) == row.provides_healing
    &&& (match row.in_backpack {
        Some(idx) => slot_get(w2.backpacks@, e) == Some(
            crate::components::InBackpack { owner: created[idx as int] },
        ),
        None => slot_get(w2.backpacks@, e) is None,
    })
    &&& slot_get(w2.ranged@, e) == row.ranged
    &&& slot_get(w2.inflicts_damage@, e) == row.inflicts_damage
    &&& slot_get(w2.aoe@, e) == row.aoe
    &&& slot_get(w2.confusion@, e) == row.confusion
    &&& slot_get(w2.equippables@, e) == row.equippable
    &&& (match row.equipped {
        Some((idx, slot)) => slot_get(w2.equipped@, e) == Some(
            crate::components::Equipped { owner: created[idx as int], slot },
        ),
        None => slot_get(w2.equipped@, e) is None,
    })
    &&& (match (slot_get(w2.viewsheds@, e), row.viewshed) {
        (Some(a), Some(b)) => a.visible_tiles@ == b.visible_tiles@ && a.range == b.range
            && a.dirty == b.dirty,
        (None, None) => true,
        _ => false,
    })
    &&& slot_get(w2.serialize_tags@, e) is Some
}

/// Everything loading a snapshot guarantees: a fresh population, one
/// live entity per row carrying the row's components, the map restored
/// with its occupancy cache empty but correctly sized, and the player
/// resource pointing at the remapped player entity.
pub open spec fn load_matches(s: Snapshot, w2: World, created: Seq<Entity>) -> bool {
    &&& created.len() == s.entities@.len()
    &&& forall|k: int, l: int| 0 <= k < l < created.len() ==> created[k] != created[l]
    &&& forall|k: int| 0 <= k < created.len() ==> w2.ents.live(#[trigger] created[k])
    &&& forall|e: Entity|
        w2.ents.live(e) ==> exists|k: int| 0 <= k < created.len() && #[trigger] created[k] == e
    &&& forall|k: int|
        0 <= k < created.len() ==> loaded_matches(w2, created, #[trigger] s.entities@[k], k)
    &&& w2.map.wf()
    &&& w2.map.width == s.width
    &&& w2.map.height == s.height
    &&& w2.map.tiles@ == s.tiles@
    &&& w2.map.revealed_tiles@ == s.revealed@
    &&& w2.map.rooms@ == s.rooms@
    &&& forall|idx: int| 0 <= idx < w2.map.visible_tiles@.len() ==> !w2.map.visible_tiles@[idx]
    &&& w2.map.tile_content@.len() == s.tiles@.len()
    &&& forall|idx: int|
        0 <= idx < w2.map.tile_content@.len() ==> (#[trigger] w2.map.tile_content@[idx])@.len()
            == 0
    &&& (forall|k: int|
        0 <= k < s.entities@.len() ==> !((#[trigger] s.entities@[k]).player
            && s.entities@[k].position is Some)) || (exists|k: int|
        0 <= k < s.entities@.len() && (#[trigger] s.entities@[k]).player
            && s.entities@[k].position is Some && w2.player_entity == created[k]
            && w2.player_pos.x == s.entities@[k].position->Some_0.x && w2.player_pos.y
            == s.entities@[k].position->Some_0.y)
}

/// Save then load: the reloaded world carries an equivalent entity
/// population — the same components with the same values, with every
/// cross-entity reference pointing at the correspondingly remapped
/// fresh handle — and an equivalent map whose occupancy cache is empty
/// but correctly sized. This composes what the snapshot writer records
/// with what the loader rebuilds, row by row.
#[verifier::rlimit(100)]
#[verifier::spinoff_prover]
pub proof fn lemma_save_load_round_trip(w: World, s: Snapshot, w2: World, created: Seq<Entity>)
    requires
        snapshot_matches(w, s),
        load_matches(s, w2, created),
    ensures
        created.len() == saved_ids(w, w.serialize_tags@.len() as int).len(),
        forall|k: int|
            0 <= k < created.len() ==> {
                let ids = saved_ids(w, w.serialize_tags@.len() as int);
                let e0 = saved_entity(w, ids[k]);
                let e1 = #[trigger] created[k];
                &&& slot_get(w2.positions@, e1) == slot_get(w.positions@, e0)
                &&& slot_get(w2.renderables@, e1) == slot_get(w.renderables@, e0)
                &&& (slot_get(w2.players@, e1) is Some) == (slot_get(w.players@, e0) is Some)
                &&& (slot_get(w2.monsters@, e1) is Some) == (slot_get(w.monsters@, e0) is Some)
                &&& slot_get(w2.combat_stats@, e1) == slot_get(w.combat_stats@, e0)
                &&& (slot_get(w2.items@, e1) is Some) == (slot_get(w.items@, e0) is Some)
                &&& (slot_get(w2.consumables@, e1) is Some) == (slot_get(w.consumables@, e0)
                    is Some)
                &&& slot_get(w2.provides_healing@, e1) == slot_get(w.provides_healing@, e0)
                &&& slot_get(w2.ranged@, e1) == slot_get(w.ranged@, e0)
                &&& slot_get(w2.inflicts_damage@, e1) == slot_get(w.inflicts_damage@, e0)
                &&& slot_get(w2.aoe@, e1) == slot_get(w.aoe@, e0)
                &&& slot_get(w2.confusion@, e1) == slot_get(w.confusion@, e0)
                &&& slot_get(w2.equippables@, e1) == slot_get(w.equippables@, e0)
                &&& (match slot_get(w.backpacks@, e0) {
                    Some(b) => {
                        if ref_ok(w, b.owner) {
                            slot_get(w2.backpacks@, e1) == Some(
                                crate::components::InBackpack {
                                    owner: created[saved_ids(
                                        w,
                                        w.serialize_tags@.len() as int,
                                    ).index_of(b.owner.id as int)],
                                },
                            )
                        } else {
                            slot_get(w2.backpacks@, e1) is None
                        }
                    },
                    None => slot_get(w2.backpacks@, e1) is None,
                })
                &&& (slot_get(w2.blockers@, e1) is Some) == (slot_get(w.blockers@, e0) is Some)
                &&& (match (slot_get(w2.names@, e1), slot_get(w.names@, e0)) {
                    (Some(n1), Some(n0)) => n1.name@ == n0.name@,
                    (None, None) => true,
                    _ => false,
                })
                &&& (match (slot_get(w2.viewsheds@, e1), slot_get(w.viewsheds@, e0)) {
                    (Some(v1), Some(v0)) => v1.visible_tiles@ == v0.visible_tiles@ && v1.range
                        == v0.range && v1.dirty == v0.dirty,
                    (None, None) => true,
                    _ => false,
                })
                &&& (match slot_get(w.equipped@, e0) {
                    Some(q) => {
                        if ref_ok(w, q.owner) {
                            slot_get(w2.equipped@, e1) == Some(
                                crate::components::Equipped {
                                    owner: created[saved_ids(
                                        w,
                                        w.serialize_tags@.len() as int,
                                    ).index_of(q.owner.id as int)],
                                    slot: q.slot,
                                },
                            )
                        } else {
                            slot_get(w2.equipped@, e1) is None
                        }
                    },
                    None => slot_get(w2.equipped@, e1) is None,
                })
            },
        w2.map.width == w.map.width,
        w2.map.height == w.map.height,
        w2.map.tiles@ == w.map.tiles@,
        w2.map.revealed_tiles@ == w.map.revealed_tiles@,
        w2.map.tile_content@.len() == w.map.tiles@.len(),
        forall|idx: int|
            0 <= idx < w2.map.tile_content@.len() ==> (#[trigger] w2.map.tile_content@[idx])@.len()
                == 0,
{
    let ids = saved_ids(w, w.serialize_tags@.len() as int);
    vstd::std_specs::vec::axiom_spec_len(&s.entities);
    assert(ids.len() <= usize::MAX);
    assert forall|k: int| 0 <= k < created.len() implies {
        let e0 = saved_entity(w, ids[k]);
        let e1 = #[trigger] created[k];
        &&& slot_get(w2.positions@, e1) == slot_get(w.positions@, e0)
        &&& slot_get(w2.renderables@, e1) == slot_get(w.renderables@, e0)
        &&& (slot_get(w2.players@, e1) is Some) == (slot_get(w.players@, e0) is Some)
        &&& (slot_get(w2.monsters@, e1) is Some) == (slot_get(w.monsters@, e0) is Some)
        &&& slot_get(w2.combat_stats@, e1) == slot_get(w.combat_stats@, e0)
        &&& (slot_get(w2.items@, e1) is Some) == (slot_get(w.items@, e0) is Some)
        &&& (slot_get(w2.consumables@, e1) is Some) == (slot_get(w.consumables@, e0) is Some)
        &&& slot_get(w2.provides_healing@, e1) == slot_get(w.provides_healing@, e0)
        &&& slot_get(w2.ranged@, e1) == slot_get(w.ranged@, e0)
        &&& slot_get(w2.inflicts_damage@, e1) == slot_get(w.inflicts_damage@, e0)
        &&& slot_get(w2.aoe@, e1) == slot_get(w.aoe@, e0)
        &&& slot_get(w2.confusion@, e1) == slot_get(w.confusion@, e0)
        &&& slot_get(w2.equippables@, e1) == slot_get(w.equippables@, e0)
        &&& (match slot_get(w.backpacks@, e0) {
            Some(b) => {
                if ref_ok(w, b.owner) {
                    slot_get(w2.backpacks@, e1) == Some(
                        crate::components::InBackpack {
                            owner: created[ids.index_of(b.owner.id as int)],
                        },
                    )
                } else {
                    slot_get(w2.backpacks@, e1) is None
                }
            },
            None => slot_get(w2.backpacks@, e1) is None,
        })
        &&& (slot_get(w2.blockers@, e1) is Some) == (slot_get(w.blockers@, e0) is Some)
        &&& (match (slot_get(w2.names@, e1), slot_get(w.names@, e0)) {
            (Some(n1), Some(n0)) => n1.name@ == n0.name@,
            (None, None) => true,
            _ => false,
        })
        &&& (match (slot_get(w2.viewsheds@, e1), slot_get(w.viewsheds@, e0)) {
            (Some(v1), Some(v0)) => v1.visible_tiles@ == v0.visible_tiles@ && v1.range
                == v0.range && v1.dirty == v0.dirty,
            (None, None) => true,
            _ => false,
        })
        &&& (match slot_get(w.equipped@, e0) {
            Some(q) => {
                if ref_ok(w, q.owner) {
                    slot_get(w2.equipped@, e1) == Some(
                        crate::components::Equipped {
                            owner: created[ids.index_of(q.owner.id as int)],
                            slot: q.slot,
                        },
                    )
                } else {
                    slot_get(w2.equipped@, e1) is None
                }
            },
            None => slot_get(w2.equipped@, e1) is None,
        })
    } by {
        assert(row_matches(w, ids, ids[k], s.entities@[k]));
        assert(loaded_matches(w2, created, s.entities@[k], k));
        let e0 = saved_entity(w, ids[k]);
        match slot_get(w.backpacks@, e0) {
            Some(b) => {
                if ref_ok(w, b.owner) {
                    lemma_saved_ids(w, w.serialize_tags@.len() as int);
                    assert(ids.contains(b.owner.id as int));
                    assert(exists|i: int| 0 <= i < ids.len() && ids[i] == b.owner.id as int);
                    let i = ids.index_of(b.owner.id as int);
                    assert(0 <= i < ids.len() && ids[i] == b.owner.id as int);
                }
            },
            None => {},
        }
        match slot_get(w.equipped@, e0) {
            Some(q) => {
                if ref_ok(w, q.owner) {
                    lemma_saved_ids(w, w.serialize_tags@.len() as int);
                    assert(ids.contains(q.owner.id as int));
                    assert(exists|i: int| 0 <= i < ids.len() && ids[i] == q.owner.id as int);
                    let i = ids.index_of(q.owner.id as int);
                    assert(0 <= i < ids.len() && ids[i] == q.owner.id as int);
                }
            },
            None => {},
        }
    }
}

/// On a sequence without repeats, `index_of` finds the only occurrence.
proof fn lemma_index_of_unique(s: Seq<int>, v: int, k: int)
    requires
        0 <= k < s.len(),
        s[k] == v,
        forall|j: int| 0 <= j < s.len() && j != k ==> s[j] != v,
    ensures
        s.index_of(v) == k,
{
    assert(s.contains(v));
    assert(exists|i: int| 0 <= i < s.len() && s[i] == v);
    let i = s.index_of(v);
    assert(0 <= i < s.len() && s[i] == v);
}

/// Every component storage is empty.
pub open spec fn fresh_stores(w: World) -> bool {
    &&& w.positions@.len() == 0
    &&& w.renderables@.len() == 0
    &&& w.players@.len() == 0
    &&& w.viewsheds@.len() == 0
    &&& w.monsters@.len() == 0
    &&& w.names@.len() == 0
    &&& w.blockers@.len() == 0
    &&& w.combat_stats@.len() == 0
    &&& w.melee_intents@.len() == 0
    &&& w.suffer_damage@.len() == 0
    &&& w.items@.len() == 0
    &&& w.consumables@.len() == 0
    &&& w.provides_healing@.len() == 0
    &&& w.backpacks@.len() == 0
    &&& w.pickup_intents@.len() == 0
    &&& w.use_intents@.len() == 0
    &&& w.drop_intents@.len() == 0
    &&& w.remove_intents@.len() == 0
    &&& w.ranged@.len() == 0
    &&& w.inflicts_damage@.len() == 0
    &&& w.aoe@.len() == 0
    &&& w.confusion@.len() == 0
    &&& w.equippables@.len() == 0
    &&& w.equipped@.len() == 0
    &&& w.serialize_tags@.len() == 0
}

/// Slot `j` was written by a row before `k`.
pub open spec fn row_written(created: Seq<Entity>, k: int, j: int) -> bool {
    exists|k2: int| 0 <= k2 < k && (#[trigger] created[k2]).id == j
}

/// Only already-written rows occupy any storage slot.
pub open spec fn only_rows_written(w: World, created: Seq<Entity>, k: int) -> bool {
    &&& forall|j: int|
        0 <= j < w.positions@.len() && w.positions@[j] is Some ==> row_written(created, k, j)
    &&& forall|j: int|
        0 <= j < w.renderables@.len() && w.renderables@[j] is Some ==> row_written(created, k, j)
    &&& forall|j: int|
        0 <= j < w.players@.len() && w.players@[j] is Some ==> row_written(created, k, j)
    &&& forall|j: int|
        0 <= j < w.monsters@.len() && w.monsters@[j] is Some ==> row_written(created, k, j)
    &&& forall|j: int|
        0 <= j < w.names@.len() && w.names@[j] is Some ==> row_written(created, k, j)
    &&& forall|j: int|
        0 <= j < w.blockers@.len() && w.blockers@[j] is Some ==> row_written(created, k, j)
    &&& forall|j: int|
        0 <= j < w.combat_stats@.len() && w.combat_stats@[j] is Some ==> row_written(
            created,
            k,
            j,
        )
    &&& forall|j: int|
        0 <= j < w.items@.len() && w.items@[j] is Some ==> row_written(created, k, j)
    &&& forall|j: int|
        0 <= j < w.consumables@.len() && w.consumables@[j] is Some ==> row_written(created, k, j)
    &&& forall|j: int|
        0 <= j < w.provides_healing@.len() && w.provides_healing@[j] is Some ==> row_written(
            created,
            k,
            j,
        )
    &&& forall|j: int|
        0 <= j < w.backpacks@.len() && w.backpacks@[j] is Some ==> row_written(created, k, j)
    &&& forall|j: int|
        0 <= j < w.ranged@.len() && w.ranged@[j] is Some ==> row_written(created, k, j)
    &&& forall|j: int|
        0 <= j < w.inflicts_damage@.len() && w.inflicts_damage@[j] is Some ==> row_written(
            created,
            k,
            j,
        )
    &&& forall|j: int| 0 <= j < w.aoe@.len() && w.aoe@[j] is Some ==> row_written(created, k, j)
    &&& forall|j: int|
        0 <= j < w.confusion@.len() && w.confusion@[j] is Some ==> row_written(created, k, j)
    &&& forall|j: int|
        0 <= j < w.equippables@.len() && w.equippables@[j] is Some ==> row_written(created, k, j)
    &&& forall|j: int|
        0 <= j < w.equipped@.len() && w.equipped@[j] is Some ==> row_written(created, k, j)
    &&& forall|j: int|
        0 <= j < w.viewsheds@.len() && w.viewsheds@[j] is Some ==> row_written(created, k, j)
    &&& forall|j: int|
        0 <= j < w.serialize_tags@.len() && w.serialize_tags@[j] is Some ==> row_written(
            created,
            k,
            j,
        )
}

/// Queue every live entity for deletion.
#[verifier::loop_isolation(false)]
fn kill_all(ents: &mut crate::world::EntityAllocator)
    requires
        old(ents).wf(),
    ensures
        final(ents).wf(),
        final(ents).gens == old(ents).gens,
        final(ents).alive == old(ents).alive,
        final(ents).free == old(ents).free,
        forall|e: Entity| #[trigger] final(ents).live(e) ==> final(ents).pending@.contains(e),
{
    let gl = ents.gens.len();
    let mut id: usize = 0;
    while id < gl
        invariant
            gl == ents.gens@.len(),
            id <= gl,
            ents.wf(),
            ents.gens == old(ents).gens,
            ents.alive == old(ents).alive,
            ents.free == old(ents).free,
            forall|id2: int|
                0 <= id2 < id && old(ents).alive@[id2] ==> ents.pending@.contains(
                    #[trigger] dead_handle(*old(ents), id2),
                ),
        decreases gl - id,
    {
        let ghost pre = ents.pending@;
        let alive_here = ents.alive[id];
        if alive_here {
            let g = ents.gens[id];
            ents.delete(Entity { id, gen: g });
        }
        id += 1;
        proof {
            assert forall|id2: int|
                0 <= id2 < id && old(ents).alive@[id2] implies ents.pending@.contains(
                #[trigger] dead_handle(*old(ents), id2),
            ) by {
                if id2 < id - 1 {
                    assert(pre.contains(dead_handle(*old(ents), id2)));
                    let k = choose|k: int|
                        0 <= k < pre.len() && pre[k] == dead_handle(*old(ents), id2);
                    assert(ents.pending@[k] == dead_handle(*old(ents), id2));
                } else {
                    assert(ents.pending@[ents.pending@.len() - 1] == dead_handle(
                        *old(ents),
                        id2,
                    ));
                }
            }
        }
    }
    proof {
        assert forall|e: Entity| #[trigger] ents.live(e) implies ents.pending@.contains(e) by {
            assert(old(ents).alive@[e.id as int]);
            assert(e == dead_handle(*old(ents), e.id as int));
        }
    }
}

/// The handle of arena slot `id2`, as it stood before the deletions.
pub open spec fn dead_handle(a: crate::world::EntityAllocator, id2: int) -> Entity {
    Entity { id: id2 as usize, gen: a.gens@[id2] }
}

/// Delete the whole existing population and restore the map from the
/// snapshot, its occupancy cache empty but correctly sized.
#[verifier::loop_isolation(false)]
#[verifier::rlimit(60)]
fn reset_world(w: &mut World, snap: &Snapshot)
    requires
        old(w).wf(),
        0 < snap.width,
        0 < snap.height,
        snap.tiles@.len() == snap.width * snap.height,
        snap.revealed@.len() == snap.tiles@.len(),
    ensures
        final(w).wf(),
        final(w).ents.gens@.len() == old(w).ents.gens@.len(),
        final(w).ents.pending@ == Seq::<Entity>::empty(),
        forall|e: Entity| !final(w).ents.live(e),
        forall|e: Entity|
            old(w).ents.live(e) ==> final(w).ents.gens@[e.id as int] > e.gen || e.gen
                == u64::MAX,
        fresh_stores(*final(w)),
        final(w).log == old(w).log,
        final(w).run_state == old(w).run_state,
        final(w).player_entity == old(w).player_entity,
        final(w).player_pos == old(w).player_pos,
        final(w).map.wf(),
        final(w).map.width == snap.width,
        final(w).map.height == snap.height,
        final(w).map.tiles@ == snap.tiles@,
        final(w).map.rooms@ == snap.rooms@,
        final(w).map.revealed_tiles@ == snap.revealed@,
        forall|j: int| 0 <= j < final(w).map.visible_tiles@.len() ==> !final(w).map.visible_tiles@[j],
        final(w).map.tile_content@.len() == snap.tiles@.len(),
        forall|j: int|
            0 <= j < final(w).map.tile_content@.len() ==> (#[trigger] final(w).map.tile_content@[j])@.len() == 0,
{
    kill_all(&mut w.ents);
    let ghost wk = *w;
    w.maintain();
    proof {
        assert(w.ents.pending@ =~= Seq::<Entity>::empty());
        assert forall|e: Entity| !w.ents.live(e) by {}
        // a handle live before the deletions was queued, so its slot's
        // generation has outrun it (or sits at the ceiling)
        assert forall|e: Entity| old(w).ents.live(e) implies w.ents.gens@[e.id as int] > e.gen
            || e.gen == u64::MAX by {
            assert(wk.ents.gens@ == old(w).ents.gens@);
            assert(wk.ents.alive@ == old(w).ents.alive@);
            assert(wk.ents.live(e));
            assert(wk.ents.pending@.contains(e));
        }
    }
    w.positions = crate::world::Storage::new();
    w.renderables = crate::world::Storage::new();
    w.players = crate::world::Storage::new();
    w.viewsheds = crate::world::Storage::new();
    w.monsters = crate::world::Storage::new();
    w.names = crate::world::Storage::new();
    w.blockers = crate::world::Storage::new();
    w.combat_stats = crate::world::Storage::new();
    w.melee_intents = crate::world::Storage::new();
    w.suffer_damage = crate::world::Storage::new();
    w.items = crate::world::Storage::new();
    w.consumables = crate::world::Storage::new();
    w.provides_healing = crate::world::Storage::new();
    w.backpacks = crate::world::Storage::new();
    w.pickup_intents = crate::world::Storage::new();
    w.use_intents = crate::world::Storage::new();
    w.drop_intents = crate::world::Storage::new();
    w.remove_intents = crate::world::Storage::new();
    w.ranged = crate::world::Storage::new();
    w.inflicts_damage = crate::world::Storage::new();
    w.aoe = crate::world::Storage::new();
    w.confusion = crate::world::Storage::new();
    w.equippables = crate::world::Storage::new();
    w.equipped = crate::world::Storage::new();
    w.serialize_tags = crate::world::Storage::new();
    w.map = GameMap::new(snap.width, snap.height, clone_tiles(&snap.tiles), clone_rooms(&snap.rooms));
    let ghost w_reset = *w;
    let rn = snap.revealed.len();
    let mut ri: usize = 0;
    while ri < rn
        invariant
            rn == snap.revealed@.len(),
            ri <= rn,
            w.ents == w_reset.ents,
            fresh_stores(*w),
            w.log == old(w).log,
            w.run_state == old(w).run_state,
            w.player_entity == old(w).player_entity,
            w.player_pos == old(w).player_pos,
            w.map.wf(),
            w.map.width == snap.width,
            w.map.height == snap.height,
            w.map.tiles@ == snap.tiles@,
            w.map.rooms@ == snap.rooms@,
            w.map.revealed_tiles@.len() == snap.revealed@.len(),
            forall|j: int| 0 <= j < ri ==> w.map.revealed_tiles@[j] == snap.revealed@[j],
            forall|j: int| 0 <= j < w.map.visible_tiles@.len() ==> !w.map.visible_tiles@[j],
            w.map.tile_content@.len() == snap.tiles@.len(),
            forall|j: int|
                0 <= j < w.map.tile_content@.len() ==> (#[trigger] w.map.tile_content@[j])@.len()
                    == 0,
        decreases rn - ri,
    {
        w.map.revealed_tiles[ri] = snap.revealed[ri];
        ri += 1;
    }
    proof {
        assert(w.map.revealed_tiles@ =~= snap.revealed@);
    }
}

/// Copy the snapshot's tile array.
fn clone_tiles(v: &Vec<TileType>) -> (r: Vec<TileType>)
    ensures
        r@ == v@,
{
    let r = v.clone();
    proof {
        assert(r@ =~= v@);
    }
    r
}

/// Copy the snapshot's room list.
fn clone_rooms(v: &Vec<Rect>) -> (r: Vec<Rect>)
    ensures
        r@ == v@,
{
    let r = v.clone();
    proof {
        assert(r@ =~= v@);
    }
    r
}

/// Away from slot `id`, no storage changed.
pub open spec fn stores_frame_except(w0: World, w1: World, id: int) -> bool {
    &&& forall|j: int|
        j != id ==> #[trigger] crate::inventory_system::entry_or_none(w1.positions@, j)
            == crate::inventory_system::entry_or_none(w0.positions@, j)
    &&& forall|j: int|
        j != id ==> #[trigger] crate::inventory_system::entry_or_none(w1.renderables@, j)
            == crate::inventory_system::entry_or_none(w0.renderables@, j)
    &&& forall|j: int|
        j != id ==> #[trigger] crate::inventory_system::entry_or_none(w1.players@, j)
            == crate::inventory_system::entry_or_none(w0.players@, j)
    &&& forall|j: int|
        j != id ==> #[trigger] crate::inventory_system::entry_or_none(w1.monsters@, j)
            == crate::inventory_system::entry_or_none(w0.monsters@, j)
    &&& forall|j: int|
        j != id ==> #[trigger] crate::inventory_system::entry_or_none(w1.names@, j)
            == crate::inventory_system::entry_or_none(w0.names@, j)
    &&& forall|j: int|
        j != id ==> #[trigger] crate::inventory_system::entry_or_none(w1.blockers@, j)
            == crate::inventory_system::entry_or_none(w0.blockers@, j)
    &&& forall|j: int|
        j != id ==> #[trigger] crate::inventory_system::entry_or_none(w1.combat_stats@, j)
            == crate::inventory_system::entry_or_none(w0.combat_stats@, j)
    &&& forall|j: int|
        j != id ==> #[trigger] crate::inventory_system::entry_or_none(w1.items@, j)
            == crate::inventory_system::entry_or_none(w0.items@, j)
    &&& forall|j: int|
        j != id ==> #[trigger] crate::inventory_system::entry_or_none(w1.consumables@, j)
            == crate::inventory_system::entry_or_none(w0.consumables@, j)
    &&& forall|j: int|
        j != id ==> #[trigger] crate::inventory_system::entry_or_none(w1.provides_healing@, j)
            == crate::inventory_system::entry_or_none(w0.provides_healing@, j)
    &&& forall|j: int|
        j != id ==> #[trigger] crate::inventory_system::entry_or_none(w1.backpacks@, j)
            == crate::inventory_system::entry_or_none(w0.backpacks@, j)
    &&& forall|j: int|
        j != id ==> #[trigger] crate::inventory_system::entry_or_none(w1.ranged@, j)
            == crate::inventory_system::entry_or_none(w0.ranged@, j)
    &&& forall|j: int|
        j != id ==> #[trigger] crate::inventory_system::entry_or_none(w1.inflicts_damage@, j)
            == crate::inventory_system::entry_or_none(w0.inflicts_damage@, j)
    &&& forall|j: int|
        j != id ==> #[trigger] crate::inventory_system::entry_or_none(w1.aoe@, j)
            == crate::inventory_system::entry_or_none(w0.aoe@, j)
    &&& forall|j: int|
        j != id ==> #[trigger] crate::inventory_system::entry_or_none(w1.confusion@, j)
            == crate::inventory_system::entry_or_none(w0.confusion@, j)
    &&& forall|j: int|
        j != id ==> #[trigger] crate::inventory_system::entry_or_none(w1.equippables@, j)
            == crate::inventory_system::entry_or_none(w0.equippables@, j)
    &&& forall|j: int|
        j != id ==> #[trigger] crate::inventory_system::entry_or_none(w1.equipped@, j)
            == crate::inventory_system::entry_or_none(w0.equipped@, j)
    &&& forall|j: int|
        j != id ==> #[trigger] crate::inventory_system::entry_or_none(w1.viewsheds@, j)
            == crate::inventory_system::entry_or_none(w0.viewsheds@, j)
    &&& forall|j: int|
        j != id ==> #[trigger] crate::inventory_system::entry_or_none(w1.serialize_tags@, j)
            == crate::inventory_system::entry_or_none(w0.serialize_tags@, j)
}

/// The actor-side storage slots for `id` are empty.
pub open spec fn slot_fresh_core(w: World, id: int) -> bool {
    &&& crate::inventory_system::entry_or_none(w.positions@, id) is None
    &&& crate::inventory_system::entry_or_none(w.renderables@, id) is None
    &&& crate::inventory_system::entry_or_none(w.players@, id) is None
    &&& crate::inventory_system::entry_or_none(w.monsters@, id) is None
    &&& crate::inventory_system::entry_or_none(w.names@, id) is None
    &&& crate::inventory_system::entry_or_none(w.blockers@, id) is None
    &&& crate::inventory_system::entry_or_none(w.combat_stats@, id) is None
    &&& crate::inventory_system::entry_or_none(w.items@, id) is None
    &&& crate::inventory_system::entry_or_none(w.consumables@, id) is None
}

/// The item, effect and reference storage slots for `id` are empty.
pub open spec fn slot_fresh_effects(w: World, id: int) -> bool {
    &&& crate::inventory_system::entry_or_none(w.provides_healing@, id) is None
    &&& crate::inventory_system::entry_or_none(w.backpacks@, id) is None
    &&& crate::inventory_system::entry_or_none(w.ranged@, id) is None
    &&& crate::inventory_system::entry_or_none(w.inflicts_damage@, id) is None
    &&& crate::inventory_system::entry_or_none(w.aoe@, id) is None
    &&& crate::inventory_system::entry_or_none(w.confusion@, id) is None
    &&& crate::inventory_system::entry_or_none(w.equippables@, id) is None
    &&& crate::inventory_system::entry_or_none(w.equipped@, id) is None
    &&& crate::inventory_system::entry_or_none(w.viewsheds@, id) is None
    &&& crate::inventory_system::entry_or_none(w.serialize_tags@, id) is None
}

/// Every storage slot for `id` is empty.
pub open spec fn slot_fresh(w: World, id: int) -> bool {
    slot_fresh_core(w, id) && slot_fresh_effects(w, id)
}

/// Extending the written prefix by the row at `k` keeps every occupied
/// slot accounted for.
proof fn lemma_only_rows_step(w0: World, w1: World, created: Seq<Entity>, k: int)
    requires
        0 <= k < created.len(),
        only_rows_written(w0, created, k),
        stores_frame_except(w0, w1, created[k].id as int),
    ensures
        only_rows_written(w1, created, k + 1),
{
    let id = created[k].id as int;
    assert forall|j: int|
        0 <= j < w1.positions@.len() && w1.positions@[j] is Some implies row_written(created, k + 1, j) by {
        if j == id {
            assert((#[trigger] created[k]).id == j);
        } else {
            assert(crate::inventory_system::entry_or_none(w1.positions@, j)
                == crate::inventory_system::entry_or_none(w0.positions@, j));
            assert(w0.positions@[j] is Some);
            assert(row_written(created, k, j));
            let k2 = choose|k2: int| 0 <= k2 < k && (#[trigger] created[k2]).id == j;
            assert((created[k2]).id == j);
        }
    }
    assert forall|j: int|
        0 <= j < w1.renderables@.len() && w1.renderables@[j] is Some implies row_written(created, k + 1, j) by {
        if j == id {
            assert((#[trigger] created[k]).id == j);
        } else {
            assert(crate::inventory_system::entry_or_none(w1.renderables@, j)
                == crate::inventory_system::entry_or_none(w0.renderables@, j));
            assert(w0.renderables@[j] is Some);
            assert(row_written(created, k, j));
            let k2 = choose|k2: int| 0 <= k2 < k && (#[trigger] created[k2]).id == j;
            assert((created[k2]).id == j);
        }
    }
    assert forall|j: int|
        0 <= j < w1.players@.len() && w1.players@[j] is Some implies row_written(created, k + 1, j) by {
        if j == id {
            assert((#[trigger] created[k]).id == j);
        } else {
            assert(crate::inventory_system::entry_or_none(w1.players@, j)
                == crate::inventory_system::entry_or_none(w0.players@, j));
            assert(w0.players@[j] is Some);
            assert(row_written(created, k, j));
            let k2 = choose|k2: int| 0 <= k2 < k && (#[trigger] created[k2]).id == j;
            assert((created[k2]).id == j);
        }
    }
    assert forall|j: int|
        0 <= j < w1.monsters@.len() && w1.monsters@[j] is Some implies row_written(created, k + 1, j) by {
        if j == id {
            assert((#[trigger] created[k]).id == j);
        } else {
            assert(crate::inventory_system::entry_or_none(w1.monsters@, j)
                == crate::inventory_system::entry_or_none(w0.monsters@, j));
            assert(w0.monsters@[j] is Some);
            assert(row_written(created, k, j));
            let k2 = choose|k2: int| 0 <= k2 < k && (#[trigger] created[k2]).id == j;
            assert((created[k2]).id == j);
        }
    }
    assert forall|j: int|
        0 <= j < w1.names@.len() && w1.names@[j] is Some implies row_written(created, k + 1, j) by {
        if j == id {
            assert((#[trigger] created[k]).id == j);
        } else {
            assert(crate::inventory_system::entry_or_none(w1.names@, j)
                == crate::inventory_system::entry_or_none(w0.names@, j));
            assert(w0.names@[j] is Some);
            assert(row_written(created, k, j));
            let k2 = choose|k2: int| 0 <= k2 < k && (#[trigger] created[k2]).id == j;
            assert((created[k2]).id == j);
        }
    }
    assert forall|j: int|
        0 <= j < w1.blockers@.len() && w1.blockers@[j] is Some implies row_written(created, k + 1, j) by {
        if j == id {
            assert((#[trigger] created[k]).id == j);
        } else {
            assert(crate::inventory_system::entry_or_none(w1.blockers@, j)
                == crate::inventory_system::entry_or_none(w0.blockers@, j));
            assert(w0.blockers@[j] is Some);
            assert(row_written(created, k, j));
            let k2 = choose|k2: int| 0 <= k2 < k && (#[trigger] created[k2]).id == j;
            assert((created[k2]).id == j);
        }
    }
    assert forall|j: int|
        0 <= j < w1.combat_stats@.len() && w1.combat_stats@[j] is Some implies row_written(created, k + 1, j) by {
        if j == id {
            assert((#[trigger] created[k]).id == j);
        } else {
            assert(crate::inventory_system::entry_or_none(w1.combat_stats@, j)
                == crate::inventory_system::entry_or_none(w0.combat_stats@, j));
            assert(w0.combat_stats@[j] is Some);
            assert(row_written(created, k, j));
            let k2 = choose|k2: int| 0 <= k2 < k && (#[trigger] created[k2]).id == j;
            assert((created[k2]).id == j);
        }
    }
    assert forall|j: int|
        0 <= j < w1.items@.len() && w1.items@[j] is Some implies row_written(created, k + 1, j) by {
        if j == id {
            assert((#[trigger] created[k]).id == j);
        } else {
            assert(crate::inventory_system::entry_or_none(w1.items@, j)
                == crate::inventory_system::entry_or_none(w0.items@, j));
            assert(w0.items@[j] is Some);
            assert(row_written(created, k, j));
            let k2 = choose|k2: int| 0 <= k2 < k && (#[trigger] created[k2]).id == j;
            assert((created[k2]).id == j);
        }
    }
    assert forall|j: int|
        0 <= j < w1.consumables@.len() && w1.consumables@[j] is Some implies row_written(created, k + 1, j) by {
        if j == id {
            assert((#[trigger] created[k]).id == j);
        } else {
            assert(crate::inventory_system::entry_or_none(w1.consumables@, j)
                == crate::inventory_system::entry_or_none(w0.consumables@, j));
            assert(w0.consumables@[j] is Some);
            assert(row_written(created, k, j));
            let k2 = choose|k2: int| 0 <= k2 < k && (#[trigger] created[k2]).id == j;
            assert((created[k2]).id == j);
        }
    }
    assert forall|j: int|
        0 <= j < w1.provides_healing@.len() && w1.provides_healing@[j] is Some implies row_written(created, k + 1, j) by {
        if j == id {
            assert((#[trigger] created[k]).id == j);
        } else {
            assert(crate::inventory_system::entry_or_none(w1.provides_healing@, j)
                == crate::inventory_system::entry_or_none(w0.provides_healing@, j));
            assert(w0.provides_healing@[j] is Some);
            assert(row_written(created, k, j));
            let k2 = choose|k2: int| 0 <= k2 < k && (#[trigger] created[k2]).id == j;
            assert((created[k2]).id == j);
        }
    }
    assert forall|j: int|
        0 <= j < w1.backpacks@.len() && w1.backpacks@[j] is Some implies row_written(created, k + 1, j) by {
        if j == id {
            assert((#[trigger] created[k]).id == j);
        } else {
            assert(crate::inventory_system::entry_or_none(w1.backpacks@, j)
                == crate::inventory_system::entry_or_none(w0.backpacks@, j));
            assert(w0.backpacks@[j] is Some);
            assert(row_written(created, k, j));
            let k2 = choose|k2: int| 0 <= k2 < k && (#[trigger] created[k2]).id == j;
            assert((created[k2]).id == j);
        }
    }
    assert forall|j: int|
        0 <= j < w1.ranged@.len() && w1.ranged@[j] is Some implies row_written(created, k + 1, j) by {
        if j == id {
            assert((#[trigger] created[k]).id == j);
        } else {
            assert(crate::inventory_system::entry_or_none(w1.ranged@, j)
                == crate::inventory_system::entry_or_none(w0.ranged@, j));
            assert(w0.ranged@[j] is Some);
            assert(row_written(created, k, j));
            let k2 = choose|k2: int| 0 <= k2 < k && (#[trigger] created[k2]).id == j;
            assert((created[k2]).id == j);
        }
    }
    assert forall|j: int|
        0 <= j < w1.inflicts_damage@.len() && w1.inflicts_damage@[j] is Some implies row_written(created, k + 1, j) by {
        if j == id {
            assert((#[trigger] created[k]).id == j);
        } else {
            assert(crate::inventory_system::entry_or_none(w1.inflicts_damage@, j)
                == crate::inventory_system::entry_or_none(w0.inflicts_damage@, j));
            assert(w0.inflicts_damage@[j] is Some);
            assert(row_written(created, k, j));
            let k2 = choose|k2: int| 0 <= k2 < k && (#[trigger] created[k2]).id == j;
            assert((created[k2]).id == j);
        }
    }
    assert forall|j: int|
        0 <= j < w1.aoe@.len() && w1.aoe@[j] is Some implies row_written(created, k + 1, j) by {
        if j == id {
            assert((#[trigger] created[k]).id == j);
        } else {
            assert(crate::inventory_system::entry_or_none(w1.aoe@, j)
                == crate::inventory_system::entry_or_none(w0.aoe@, j));
            assert(w0.aoe@[j] is Some);
            assert(row_written(created, k, j));
            let k2 = choose|k2: int| 0 <= k2 < k && (#[trigger] created[k2]).id == j;
            assert((created[k2]).id == j);
        }
    }
    assert forall|j: int|
        0 <= j < w1.confusion@.len() && w1.confusion@[j] is Some implies row_written(created, k + 1, j) by {
        if j == id {
            assert((#[trigger] created[k]).id == j);
        } else {
            assert(crate::inventory_system::entry_or_none(w1.confusion@, j)
                == crate::inventory_system::entry_or_none(w0.confusion@, j));
            assert(w0.confusion@[j] is Some);
            assert(row_written(created, k, j));
            let k2 = choose|k2: int| 0 <= k2 < k && (#[trigger] created[k2]).id == j;
            assert((created[k2]).id == j);
        }
    }
    assert forall|j: int|
        0 <= j < w1.equippables@.len() && w1.equippables@[j] is Some implies row_written(created, k + 1, j) by {
        if j == id {
            assert((#[trigger] created[k]).id == j);
        } else {
            assert(crate::inventory_system::entry_or_none(w1.equippables@, j)
                == crate::inventory_system::entry_or_none(w0.equippables@, j));
            assert(w0.equippables@[j] is Some);
            assert(row_written(created, k, j));
            let k2 = choose|k2: int| 0 <= k2 < k && (#[trigger] created[k2]).id == j;
            assert((created[k2]).id == j);
        }
    }
    assert forall|j: int|
        0 <= j < w1.equipped@.len() && w1.equipped@[j] is Some implies row_written(created, k + 1, j) by {
        if j == id {
            assert((#[trigger] created[k]).id == j);
        } else {
            assert(crate::inventory_system::entry_or_none(w1.equipped@, j)
                == crate::inventory_system::entry_or_none(w0.equipped@, j));
            assert(w0.equipped@[j] is Some);
            assert(row_written(created, k, j));
            let k2 = choose|k2: int| 0 <= k2 < k && (#[trigger] created[k2]).id == j;
            assert((created[k2]).id == j);
        }
    }
    assert forall|j: int|
        0 <= j < w1.viewsheds@.len() && w1.viewsheds@[j] is Some implies row_written(created, k + 1, j) by {
        if j == id {
            assert((#[trigger] created[k]).id == j);
        } else {
            assert(crate::inventory_system::entry_or_none(w1.viewsheds@, j)
                == crate::inventory_system::entry_or_none(w0.viewsheds@, j));
            assert(w0.viewsheds@[j] is Some);
            assert(row_written(created, k, j));
            let k2 = choose|k2: int| 0 <= k2 < k && (#[trigger] created[k2]).id == j;
            assert((created[k2]).id == j);
        }
    }
    assert forall|j: int|
        0 <= j < w1.serialize_tags@.len() && w1.serialize_tags@[j] is Some implies row_written(created, k + 1, j) by {
        if j == id {
            assert((#[trigger] created[k]).id == j);
        } else {
            assert(crate::inventory_system::entry_or_none(w1.serialize_tags@, j)
                == crate::inventory_system::entry_or_none(w0.serialize_tags@, j));
            assert(w0.serialize_tags@[j] is Some);
            assert(row_written(created, k, j));
            let k2 = choose|k2: int| 0 <= k2 < k && (#[trigger] created[k2]).id == j;
            assert((created[k2]).id == j);
        }
    }
}

/// Two storage states that agree on a slot agree on every lookup at it.
proof fn lemma_slot_get_frame<T>(
    s0: Seq<Option<(u64, T)>>,
    s1: Seq<Option<(u64, T)>>,
    e: Entity,
)
    requires
        crate::inventory_system::entry_or_none(s1, e.id as int) == crate::inventory_system::entry_or_none(
            s0,
            e.id as int,
        ),
    ensures
        slot_get(s1, e) == slot_get(s0, e),
{
}

/// Give the fresh entity of row `k` exactly the row's components,
/// with row indices turned back into handles through `created`.
#[verifier::rlimit(100)]
#[verifier::spinoff_prover]
fn load_row(w: &mut World, snap: &Snapshot, created: &Vec<Entity>, k: usize)
    requires
        (k as int) < snap.entities@.len(),
        created@.len() == snap.entities@.len(),
        created@[k as int].id < usize::MAX,
        slot_fresh(*old(w), created@[k as int].id as int),
        (match snap.entities@[k as int].in_backpack {
            Some(idx) => (idx as int) < created@.len(),
            None => true,
        }),
        (match snap.entities@[k as int].equipped {
            Some(pair) => (pair.0 as int) < created@.len(),
            None => true,
        }),
    ensures
        loaded_matches(*final(w), created@, snap.entities@[k as int], k as int),
        stores_frame_except(*old(w), *final(w), created@[k as int].id as int),
        final(w).ents == old(w).ents,
        final(w).map == old(w).map,
        final(w).log == old(w).log,
        final(w).run_state == old(w).run_state,
        final(w).player_entity == old(w).player_entity,
        final(w).player_pos == old(w).player_pos,
{
    load_row_core(w, snap, created, k);
    load_row_effects(w, snap, created, k);
}

/// Write the row's actor-side components onto the fresh entity.
#[verifier::loop_isolation(false)]
#[verifier::rlimit(100)]
#[verifier::spinoff_prover]
fn load_row_core(w: &mut World, snap: &Snapshot, created: &Vec<Entity>, k: usize)
    requires
        (k as int) < snap.entities@.len(),
        created@.len() == snap.entities@.len(),
        created@[k as int].id < usize::MAX,
        slot_fresh_core(*old(w), created@[k as int].id as int),
        (match snap.entities@[k as int].in_backpack {
            Some(idx) => (idx as int) < created@.len(),
            None => true,
        }),
        (match snap.entities@[k as int].equipped {
            Some(pair) => (pair.0 as int) < created@.len(),
            None => true,
        }),
    ensures
        slot_get(final(w).positions@, created@[k as int]) == snap.entities@[k as int].position,
        forall|j: int|
            j != created@[k as int].id ==> #[trigger] crate::inventory_system::entry_or_none(
                final(w).positions@,
                j,
            ) == crate::inventory_system::entry_or_none(old(w).positions@, j),
        slot_get(final(w).renderables@, created@[k as int]) == snap.entities@[k as int].renderable,
        forall|j: int|
            j != created@[k as int].id ==> #[trigger] crate::inventory_system::entry_or_none(
                final(w).renderables@,
                j,
            ) == crate::inventory_system::entry_or_none(old(w).renderables@, j),
        (slot_get(final(w).players@, created@[k as int]) is Some) == snap.entities@[k as int].player,
        forall|j: int|
            j != created@[k as int].id ==> #[trigger] crate::inventory_system::entry_or_none(
                final(w).players@,
                j,
            ) == crate::inventory_system::entry_or_none(old(w).players@, j),
        (slot_get(final(w).monsters@, created@[k as int]) is Some) == snap.entities@[k as int].monster,
        forall|j: int|
            j != created@[k as int].id ==> #[trigger] crate::inventory_system::entry_or_none(
                final(w).monsters@,
                j,
            ) == crate::inventory_system::entry_or_none(old(w).monsters@, j),
        (match (slot_get(final(w).names@, created@[k as int]), snap.entities@[k as int].name) {
            (Some(a), Some(b)) => a.name@ == b.name@,
            (None, None) => true,
            _ => false,
        }),
        forall|j: int|
            j != created@[k as int].id ==> #[trigger] crate::inventory_system::entry_or_none(
                final(w).names@,
                j,
            ) == crate::inventory_system::entry_or_none(old(w).names@, j),
        (slot_get(final(w).blockers@, created@[k as int]) is Some) == snap.entities@[k as int].blocks_tile,
        forall|j: int|
            j != created@[k as int].id ==> #[trigger] crate::inventory_system::entry_or_none(
                final(w).blockers@,
                j,
            ) == crate::inventory_system::entry_or_none(old(w).blockers@, j),
        slot_get(final(w).combat_stats@, created@[k as int]) == snap.entities@[k as int].combat_stats,
        forall|j: int|
            j != created@[k as int].id ==> #[trigger] crate::inventory_system::entry_or_none(
                final(w).combat_stats@,
                j,
            ) == crate::inventory_system::entry_or_none(old(w).combat_stats@, j),
        (slot_get(final(w).items@, created@[k as int]) is Some) == snap.entities@[k as int].item,
        forall|j: int|
            j != created@[k as int].id ==> #[trigger] crate::inventory_system::entry_or_none(
                final(w).items@,
                j,
            ) == crate::inventory_system::entry_or_none(old(w).items@, j),
        (slot_get(final(w).consumables@, created@[k as int]) is Some) == snap.entities@[k as int].consumable,
        forall|j: int|
            j != created@[k as int].id ==> #[trigger] crate::inventory_system::entry_or_none(
                final(w).consumables@,
                j,
            ) == crate::inventory_system::entry_or_none(old(w).consumables@, j),
        final(w).provides_healing == old(w).provides_healing,
        final(w).backpacks == old(w).backpacks,
        final(w).ranged == old(w).ranged,
        final(w).inflicts_damage == old(w).inflicts_damage,
        final(w).aoe == old(w).aoe,
        final(w).confusion == old(w).confusion,
        final(w).equippables == old(w).equippables,
        final(w).equipped == old(w).equipped,
        final(w).viewsheds == old(w).viewsheds,
        final(w).serialize_tags == old(w).serialize_tags,
        final(w).ents == old(w).ents,
        final(w).map == old(w).map,
        final(w).log == old(w).log,
        final(w).run_state == old(w).run_state,
        final(w).player_entity == old(w).player_entity,
        final(w).player_pos == old(w).player_pos,
        final(w).melee_intents == old(w).melee_intents,
        final(w).suffer_damage == old(w).suffer_damage,
        final(w).pickup_intents == old(w).pickup_intents,
        final(w).use_intents == old(w).use_intents,
        final(w).drop_intents == old(w).drop_intents,
        final(w).remove_intents == old(w).remove_intents,
{
    let e = created[k];
    match &snap.entities[k].position {
        Some(v) => w.positions.insert(e, *v),
        None => (),
    }
    match &snap.entities[k].renderable {
        Some(v) => w.renderables.insert(e, *v),
        None => (),
    }
    if snap.entities[k].player {
        w.players.insert(e, crate::components::Player {  });
    }
    if snap.entities[k].monster {
        w.monsters.insert(e, crate::components::Monster {  });
    }
    match &snap.entities[k].name {
        Some(v) => {
            let nm = v.name.clone();
            w.names.insert(e, Name { name: nm });
        },
        None => (),
    }
    if snap.entities[k].blocks_tile {
        w.blockers.insert(e, crate::components::BlocksTile {  });
    }
    match &snap.entities[k].combat_stats {
        Some(v) => w.combat_stats.insert(e, *v),
        None => (),
    }
    if snap.entities[k].item {
        w.items.insert(e, crate::components::Item {  });
    }
    if snap.entities[k].consumable {
        w.consumables.insert(e, crate::components::Consumable {  });
    }
}

/// Write the row's item, effect and reference components onto the fresh entity.
#[verifier::loop_isolation(false)]
#[verifier::rlimit(100)]
#[verifier::spinoff_prover]
fn load_row_effects(w: &mut World, snap: &Snapshot, created: &Vec<Entity>, k: usize)
    requires
        (k as int) < snap.entities@.len(),
        created@.len() == snap.entities@.len(),
        created@[k as int].id < usize::MAX,
        slot_fresh_effects(*old(w), created@[k as int].id as int),
        (match snap.entities@[k as int].in_backpack {
            Some(idx) => (idx as int) < created@.len(),
            None => true,
        }),
        (match snap.entities@[k as int].equipped {
            Some(pair) => (pair.0 as int) < created@.len(),
            None => true,
        }),
    ensures
        slot_get(final(w).provides_healing@, created@[k as int]) == snap.entities@[k as int].provides_healing,
        forall|j: int|
            j != created@[k as int].id ==> #[trigger] crate::inventory_system::entry_or_none(
                final(w).provides_healing@,
                j,
            ) == crate::inventory_system::entry_or_none(old(w).provides_healing@, j),
        (match snap.entities@[k as int].in_backpack {
            Some(idx) => slot_get(final(w).backpacks@, created@[k as int]) == Some(
                crate::components::InBackpack { owner: created@[idx as int] },
            ),
            None => slot_get(final(w).backpacks@, created@[k as int]) is None,
        }),
        forall|j: int|
            j != created@[k as int].id ==> #[trigger] crate::inventory_system::entry_or_none(
                final(w).backpacks@,
                j,
            ) == crate::inventory_system::entry_or_none(old(w).backpacks@, j),
        slot_get(final(w).ranged@, created@[k as int]) == snap.entities@[k as int].ranged,
        forall|j: int|
            j != created@[k as int].id ==> #[trigger] crate::inventory_system::entry_or_none(
                final(w).ranged@,
                j,
            ) == crate::inventory_system::entry_or_none(old(w).ranged@, j),
        slot_get(final(w).inflicts_damage@, created@[k as int]) == snap.entities@[k as int].inflicts_damage,
        forall|j: int|
            j != created@[k as int].id ==> #[trigger] crate::inventory_system::entry_or_none(
                final(w).inflicts_damage@,
                j,
            ) == crate::inventory_system::entry_or_none(old(w).inflicts_damage@, j),
        slot_get(final(w).aoe@, created@[k as int]) == snap.entities@[k as int].aoe,
        forall|j: int|
            j != created@[k as int].id ==> #[trigger] crate::inventory_system::entry_or_none(
                final(w).aoe@,
                j,
            ) == crate::inventory_system::entry_or_none(old(w).aoe@, j),
        slot_get(final(w).confusion@, created@[k as int]) == snap.entities@[k as int].confusion,
        forall|j: int|
            j != created@[k as int].id ==> #[trigger] crate::inventory_system::entry_or_none(
                final(w).confusion@,
                j,
            ) == crate::inventory_system::entry_or_none(old(w).confusion@, j),
        slot_get(final(w).equippables@, created@[k as int]) == snap.entities@[k as int].equippable,
        forall|j: int|
            j != created@[k as int].id ==> #[trigger] crate::inventory_system::entry_or_none(
                final(w).equippables@,
                j,
            ) == crate::inventory_system::entry_or_none(old(w).equippables@, j),
        (match snap.entities@[k as int].equipped {
            Some(pair) => slot_get(final(w).equipped@, created@[k as int]) == Some(
                crate::components::Equipped { owner: created@[pair.0 as int], slot: pair.1 },
            ),
            None => slot_get(final(w).equipped@, created@[k as int]) is None,
        }),
        forall|j: int|
            j != created@[k as int].id ==> #[trigger] crate::inventory_system::entry_or_none(
                final(w).equipped@,
                j,
            ) == crate::inventory_system::entry_or_none(old(w).equipped@, j),
        (match (slot_get(final(w).viewsheds@, created@[k as int]), snap.entities@[k as int].viewshed) {
            (Some(a), Some(b)) => a.visible_tiles@ == b.visible_tiles@ && a.range == b.range
                && a.dirty == b.dirty,
            (None, None) => true,
            _ => false,
        }),
        forall|j: int|
            j != created@[k as int].id ==> #[trigger] crate::inventory_system::entry_or_none(
                final(w).viewsheds@,
                j,
            ) == crate::inventory_system::entry_or_none(old(w).viewsheds@, j),
        slot_get(final(w).serialize_tags@, created@[k as int]) is Some,
        forall|j: int|
            j != created@[k as int].id ==> #[trigger] crate::inventory_system::entry_or_none(
                final(w).serialize_tags@,
                j,
            ) == crate::inventory_system::entry_or_none(old(w).serialize_tags@, j),
        final(w).positions == old(w).positions,
        final(w).renderables == old(w).renderables,
        final(w).players == old(w).players,
        final(w).monsters == old(w).monsters,
        final(w).names == old(w).names,
        final(w).blockers == old(w).blockers,
        final(w).combat_stats == old(w).combat_stats,
        final(w).items == old(w).items,
        final(w).consumables == old(w).consumables,
        final(w).ents == old(w).ents,
        final(w).map == old(w).map,
        final(w).log == old(w).log,
        final(w).run_state == old(w).run_state,
        final(w).player_entity == old(w).player_entity,
        final(w).player_pos == old(w).player_pos,
        final(w).melee_intents == old(w).melee_intents,
        final(w).suffer_damage == old(w).suffer_damage,
        final(w).pickup_intents == old(w).pickup_intents,
        final(w).use_intents == old(w).use_intents,
        final(w).drop_intents == old(w).drop_intents,
        final(w).remove_intents == old(w).remove_intents,
{
    let e = created[k];
    match &snap.entities[k].provides_healing {
        Some(v) => w.provides_healing.insert(e, *v),
        None => (),
    }
    match &snap.entities[k].in_backpack {
        Some(idx) => {
            let owner = created[*idx];
            w.backpacks.insert(e, crate::components::InBackpack { owner });
        },
        None => (),
    }
    match &snap.entities[k].ranged {
        Some(v) => w.ranged.insert(e, *v),
        None => (),
    }
    match &snap.entities[k].inflicts_damage {
        Some(v) => w.inflicts_damage.insert(e, *v),
        None => (),
    }
    match &snap.entities[k].aoe {
        Some(v) => w.aoe.insert(e, *v),
        None => (),
    }
    match &snap.entities[k].confusion {
        Some(v) => w.confusion.insert(e, *v),
        None => (),
    }
    match &snap.entities[k].equippable {
        Some(v) => w.equippables.insert(e, *v),
        None => (),
    }
    match &snap.entities[k].equipped {
        Some(pair) => {
            let owner = created[pair.0];
            w.equipped.insert(e, crate::components::Equipped { owner, slot: pair.1 });
        },
        None => (),
    }
    match &snap.entities[k].viewshed {
        Some(v) => {
            let tiles = v.visible_tiles.clone();
            proof {
                assert(tiles@ =~= snap.entities@[k as int].viewshed->Some_0.visible_tiles@);
            }
            w.viewsheds.insert(
                e,
                Viewshed { visible_tiles: tiles, range: v.range, dirty: v.dirty },
            );
        },
        None => (),
    }
    w.serialize_tags.insert(e, crate::components::SerializeMe {  });
}

/// A row whose id no earlier row used still has all its slots empty.
proof fn lemma_fresh_from_unwritten(w: World, created: Seq<Entity>, k: int)
    requires
        only_rows_written(w, created, k),
        0 <= k < created.len(),
        forall|k1: int, l1: int|
            0 <= k1 < created.len() && 0 <= l1 < created.len() && k1 != l1 ==> (
            #[trigger] created[k1]).id != (#[trigger] created[l1]).id,
    ensures
        slot_fresh(w, created[k].id as int),
{
    let id = created[k].id as int;
    assert(crate::inventory_system::entry_or_none(w.positions@, id) is None) by {
        if crate::inventory_system::entry_or_none(w.positions@, id) is Some {
            assert(w.positions@[id] is Some);
            assert(row_written(created, k, id));
            let k2 = choose|k2: int| 0 <= k2 < k && (#[trigger] created[k2]).id == id;
            assert(created[k2].id == created[k].id);
        }
    }
    assert(crate::inventory_system::entry_or_none(w.renderables@, id) is None) by {
        if crate::inventory_system::entry_or_none(w.renderables@, id) is Some {
            assert(w.renderables@[id] is Some);
            assert(row_written(created, k, id));
            let k2 = choose|k2: int| 0 <= k2 < k && (#[trigger] created[k2]).id == id;
            assert(created[k2].id == created[k].id);
        }
    }
    assert(crate::inventory_system::entry_or_none(w.players@, id) is None) by {
        if crate::inventory_system::entry_or_none(w.players@, id) is Some {
            assert(w.players@[id] is Some);
            assert(row_written(created, k, id));
            let k2 = choose|k2: int| 0 <= k2 < k && (#[trigger] created[k2]).id == id;
            assert(created[k2].id == created[k].id);
        }
    }
    assert(crate::inventory_system::entry_or_none(w.monsters@, id) is None) by {
        if crate::inventory_system::entry_or_none(w.monsters@, id) is Some {
            assert(w.monsters@[id] is Some);
            assert(row_written(created, k, id));
            let k2 = choose|k2: int| 0 <= k2 < k && (#[trigger] created[k2]).id == id;
            assert(created[k2].id == created[k].id);
        }
    }
    assert(crate::inventory_system::entry_or_none(w.names@, id) is None) by {
        if crate::inventory_system::entry_or_none(w.names@, id) is Some {
            assert(w.names@[id] is Some);
            assert(row_written(created, k, id));
            let k2 = choose|k2: int| 0 <= k2 < k && (#[trigger] created[k2]).id == id;
            assert(created[k2].id == created[k].id);
        }
    }
    assert(crate::inventory_system::entry_or_none(w.blockers@, id) is None) by {
        if crate::inventory_system::entry_or_none(w.blockers@, id) is Some {
            assert(w.blockers@[id] is Some);
            assert(row_written(created, k, id));
            let k2 = choose|k2: int| 0 <= k2 < k && (#[trigger] created[k2]).id == id;
            assert(created[k2].id == created[k].id);
        }
    }
    assert(crate::inventory_system::entry_or_none(w.combat_stats@, id) is None) by {
        if crate::inventory_system::entry_or_none(w.combat_stats@, id) is Some {
            assert(w.combat_stats@[id] is Some);
            assert(row_written(created, k, id));
            let k2 = choose|k2: int| 0 <= k2 < k && (#[trigger] created[k2]).id == id;
            assert(created[k2].id == created[k].id);
        }
    }
    assert(crate::inventory_system::entry_or_none(w.items@, id) is None) by {
        if crate::inventory_system::entry_or_none(w.items@, id) is Some {
            assert(w.items@[id] is Some);
            assert(row_written(created, k, id));
            let k2 = choose|k2: int| 0 <= k2 < k && (#[trigger] created[k2]).id == id;
            assert(created[k2].id == created[k].id);
        }
    }
    assert(crate::inventory_system::entry_or_none(w.consumables@, id) is None) by {
        if crate::inventory_system::entry_or_none(w.consumables@, id) is Some {
            assert(w.consumables@[id] is Some);
            assert(row_written(created, k, id));
            let k2 = choose|k2: int| 0 <= k2 < k && (#[trigger] created[k2]).id == id;
            assert(created[k2].id == created[k].id);
        }
    }
    assert(crate::inventory_system::entry_or_none(w.provides_healing@, id) is None) by {
        if crate::inventory_system::entry_or_none(w.provides_healing@, id) is Some {
            assert(w.provides_healing@[id] is Some);
            assert(row_written(created, k, id));
            let k2 = choose|k2: int| 0 <= k2 < k && (#[trigger] created[k2]).id == id;
            assert(created[k2].id == created[k].id);
        }
    }
    assert(crate::inventory_system::entry_or_none(w.backpacks@, id) is None) by {
        if crate::inventory_system::entry_or_none(w.backpacks@, id) is Some {
            assert(w.backpacks@[id] is Some);
            assert(row_written(created, k, id));
            let k2 = choose|k2: int| 0 <= k2 < k && (#[trigger] created[k2]).id == id;
            assert(created[k2].id == created[k].id);
        }
    }
    assert(crate::inventory_system::entry_or_none(w.ranged@, id) is None) by {
        if crate::inventory_system::entry_or_none(w.ranged@, id) is Some {
            assert(w.ranged@[id] is Some);
            assert(row_written(created, k, id));
            let k2 = choose|k2: int| 0 <= k2 < k && (#[trigger] created[k2]).id == id;
            assert(created[k2].id == created[k].id);
        }
    }
    assert(crate::inventory_system::entry_or_none(w.inflicts_damage@, id) is None) by {
        if crate::inventory_system::entry_or_none(w.inflicts_damage@, id) is Some {
            assert(w.inflicts_damage@[id] is Some);
            assert(row_written(created, k, id));
            let k2 = choose|k2: int| 0 <= k2 < k && (#[trigger] created[k2]).id == id;
            assert(created[k2].id == created[k].id);
        }
    }
    assert(crate::inventory_system::entry_or_none(w.aoe@, id) is None) by {
        if crate::inventory_system::entry_or_none(w.aoe@, id) is Some {
            assert(w.aoe@[id] is Some);
            assert(row_written(created, k, id));
            let k2 = choose|k2: int| 0 <= k2 < k && (#[trigger] created[k2]).id == id;
            assert(created[k2].id == created[k].id);
        }
    }
    assert(crate::inventory_system::entry_or_none(w.confusion@, id) is None) by {
        if crate::inventory_system::entry_or_none(w.confusion@, id) is Some {
            assert(w.confusion@[id] is Some);
            assert(row_written(created, k, id));
            let k2 = choose|k2: int| 0 <= k2 < k && (#[trigger] created[k2]).id == id;
            assert(created[k2].id == created[k].id);
        }
    }
    assert(crate::inventory_system::entry_or_none(w.equippables@, id) is None) by {
        if crate::inventory_system::entry_or_none(w.equippables@, id) is Some {
            assert(w.equippables@[id] is Some);
            assert(row_written(created, k, id));
            let k2 = choose|k2: int| 0 <= k2 < k && (#[trigger] created[k2]).id == id;
            assert(created[k2].id == created[k].id);
        }
    }
    assert(crate::inventory_system::entry_or_none(w.equipped@, id) is None) by {
        if crate::inventory_system::entry_or_none(w.equipped@, id) is Some {
            assert(w.equipped@[id] is Some);
            assert(row_written(created, k, id));
            let k2 = choose|k2: int| 0 <= k2 < k && (#[trigger] created[k2]).id == id;
            assert(created[k2].id == created[k].id);
        }
    }
    assert(crate::inventory_system::entry_or_none(w.viewsheds@, id) is None) by {
        if crate::inventory_system::entry_or_none(w.viewsheds@, id) is Some {
            assert(w.viewsheds@[id] is Some);
            assert(row_written(created, k, id));
            let k2 = choose|k2: int| 0 <= k2 < k && (#[trigger] created[k2]).id == id;
            assert(created[k2].id == created[k].id);
        }
    }
    assert(crate::inventory_system::entry_or_none(w.serialize_tags@, id) is None) by {
        if crate::inventory_system::entry_or_none(w.serialize_tags@, id) is Some {
            assert(w.serialize_tags@[id] is Some);
            assert(row_written(created, k, id));
            let k2 = choose|k2: int| 0 <= k2 < k && (#[trigger] created[k2]).id == id;
            assert(created[k2].id == created[k].id);
        }
    }
}

/// Give every fresh entity its row's components, in row order.
#[verifier::loop_isolation(false)]
#[verifier::rlimit(100)]
#[verifier::spinoff_prover]
fn fill_rows(w: &mut World, snap: &Snapshot, created: &Vec<Entity>)
    requires
        fresh_stores(*old(w)),
        created@.len() == snap.entities@.len(),
        forall|k: int| 0 <= k < created@.len() ==> (#[trigger] created@[k]).id < usize::MAX,
        forall|k1: int, l1: int|
            0 <= k1 < created@.len() && 0 <= l1 < created@.len() && k1 != l1 ==> (
            #[trigger] created@[k1]).id != (#[trigger] created@[l1]).id,
        forall|k: int|
            0 <= k < snap.entities@.len() ==> (match (#[trigger] snap.entities@[k]).in_backpack {
                Some(idx) => (idx as int) < snap.entities@.len(),
                None => true,
            }) && (match snap.entities@[k].equipped {
                Some(pair) => (pair.0 as int) < snap.entities@.len(),
                None => true,
            }),
    ensures
        forall|k: int|
            0 <= k < created@.len() ==> loaded_matches(
                *final(w),
                created@,
                #[trigger] snap.entities@[k],
                k,
            ),
        final(w).ents == old(w).ents,
        final(w).map == old(w).map,
        final(w).log == old(w).log,
        final(w).run_state == old(w).run_state,
        final(w).player_entity == old(w).player_entity,
        final(w).player_pos == old(w).player_pos,
{
    let n = snap.entities.len();
    let mut k: usize = 0;
    proof {
        assert(only_rows_written(*w, created@, 0));
    }
    while k < n
        invariant
            n == snap.entities@.len(),
            n == created@.len(),
            k <= n,
            only_rows_written(*w, created@, k as int),
            forall|k2: int|
                0 <= k2 < k ==> loaded_matches(*w, created@, #[trigger] snap.entities@[k2], k2),
            w.ents == old(w).ents,
            w.map == old(w).map,
            w.log == old(w).log,
            w.run_state == old(w).run_state,
            w.player_entity == old(w).player_entity,
            w.player_pos == old(w).player_pos,
        decreases n - k,
    {
        proof {
            lemma_fresh_from_unwritten(*w, created@, k as int);
        }
        let ghost w0 = *w;
        load_row(w, snap, created, k);
        k += 1;
        proof {
            lemma_only_rows_step(w0, *w, created@, k - 1);
            assert forall|k2: int|
                0 <= k2 < k - 1 implies loaded_matches(
                *w,
                created@,
                #[trigger] snap.entities@[k2],
                k2,
            ) by {
                assert(created@[k2].id != created@[k - 1].id);
                lemma_slot_get_frame(w0.positions@, w.positions@, created@[k2]);
                lemma_slot_get_frame(w0.renderables@, w.renderables@, created@[k2]);
                lemma_slot_get_frame(w0.players@, w.players@, created@[k2]);
                lemma_slot_get_frame(w0.monsters@, w.monsters@, created@[k2]);
                lemma_slot_get_frame(w0.names@, w.names@, created@[k2]);
                lemma_slot_get_frame(w0.blockers@, w.blockers@, created@[k2]);
                lemma_slot_get_frame(w0.combat_stats@, w.combat_stats@, created@[k2]);
                lemma_slot_get_frame(w0.items@, w.items@, created@[k2]);
                lemma_slot_get_frame(w0.consumables@, w.consumables@, created@[k2]);
                lemma_slot_get_frame(w0.provides_healing@, w.provides_healing@, created@[k2]);
                lemma_slot_get_frame(w0.backpacks@, w.backpacks@, created@[k2]);
                lemma_slot_get_frame(w0.ranged@, w.ranged@, created@[k2]);
                lemma_slot_get_frame(w0.inflicts_damage@, w.inflicts_damage@, created@[k2]);
                lemma_slot_get_frame(w0.aoe@, w.aoe@, created@[k2]);
                lemma_slot_get_frame(w0.confusion@, w.confusion@, created@[k2]);
                lemma_slot_get_frame(w0.equippables@, w.equippables@, created@[k2]);
                lemma_slot_get_frame(w0.equipped@, w.equipped@, created@[k2]);
                lemma_slot_get_frame(w0.viewsheds@, w.viewsheds@, created@[k2]);
                lemma_slot_get_frame(w0.serialize_tags@, w.serialize_tags@, created@[k2]);
            }
        }
    }
}

/// Load a snapshot: delete the whole existing population, rebuild one
/// fresh entity per row with the row's components, restore the map with
/// an empty occupancy cache, and point the player resource at the
/// remapped player. Returns the fresh handles, row for row.
#[verifier::loop_isolation(false)]
#[verifier::rlimit(100)]
#[verifier::spinoff_prover]
pub fn load_game(w: &mut World, snap: &Snapshot) -> (created: Vec<Entity>)
    requires
        old(w).wf(),
        0 < snap.width,
        0 < snap.height,
        snap.tiles@.len() == snap.width * snap.height,
        snap.revealed@.len() == snap.tiles@.len(),
        old(w).ents.gens@.len() + snap.entities@.len() <= usize::MAX,
        forall|k: int|
            0 <= k < snap.entities@.len() ==> (match (#[trigger] snap.entities@[k]).in_backpack {
                Some(idx) => (idx as int) < snap.entities@.len(),
                None => true,
            }) && (match snap.entities@[k].equipped {
                Some(pair) => (pair.0 as int) < snap.entities@.len(),
                None => true,
            }),
        forall|k: int, l: int|
            0 <= k < snap.entities@.len() && 0 <= l < snap.entities@.len()
                && (#[trigger] snap.entities@[k]).player && snap.entities@[k].position is Some
                && (#[trigger] snap.entities@[l]).player && snap.entities@[l].position is Some
                ==> k == l,
    ensures
        final(w).wf(),
        load_matches(*snap, *final(w), created@),
        // the whole pre-existing population is gone: no old handle
        // survives a load
        forall|e: Entity| old(w).ents.live(e) ==> !final(w).ents.live(e),
        final(w).log == old(w).log,
        final(w).run_state == old(w).run_state,
{
    reset_world(w, snap);
    let ghost w_reset = *w;
    // one fresh entity per row
    let n = snap.entities.len();
    let mut created: Vec<Entity> = Vec::new();
    let mut k: usize = 0;
    while k < n
        invariant
            n == snap.entities@.len(),
            k <= n,
            created@.len() == k,
            w.ents.wf(),
            w.ents.gens@.len() <= old(w).ents.gens@.len() + k,
            forall|k2: int| 0 <= k2 < k ==> w.ents.live(#[trigger] created@[k2]),
            forall|k1: int, l1: int| 0 <= k1 < l1 < k ==> created@[k1] != created@[l1],
            forall|e: Entity|
                w.ents.live(e) ==> exists|k2: int| 0 <= k2 < k && #[trigger] created@[k2] == e,
            forall|e: Entity|
                old(w).ents.live(e) ==> !(#[trigger] w.ents.live(e)) && e.id
                    < w.ents.gens@.len() && (w.ents.gens@[e.id as int] > e.gen || e.gen
                    == u64::MAX),
            fresh_stores(*w),
            w.map == w_reset.map,
            w.log == old(w).log,
            w.run_state == old(w).run_state,
            w.player_entity == old(w).player_entity,
            w.player_pos == old(w).player_pos,
        decreases n - k,
    {
        let ghost pre = created@;
        let ghost ents_pre = w.ents;
        let e = w.ents.create();
        created.push(e);
        k += 1;
        proof {
            assert(created@[k - 1] == e);
            assert forall|k1: int, l1: int| 0 <= k1 < l1 < k implies created@[k1]
                != created@[l1] by {
                if l1 == k - 1 {
                    assert(created@[k1] == pre[k1]);
                }
            }
            // no dead pre-existing handle is resurrected: the fresh
            // handle carries its slot's current generation, which has
            // outrun every old handle of that slot
            assert forall|e2: Entity| old(w).ents.live(e2) implies !(#[trigger] w.ents.live(e2))
                && e2.id < w.ents.gens@.len() && (w.ents.gens@[e2.id as int] > e2.gen || e2.gen
                == u64::MAX) by {
                assert(!ents_pre.live(e2));
                if e2 == e {
                    if e2.gen == u64::MAX {
                        assert(e.gen < u64::MAX);
                    } else {
                        assert(ents_pre.gens@[e.id as int] == e.gen);
                        assert(ents_pre.gens@[e2.id as int] > e2.gen);
                    }
                    assert(false);
                }
                assert(w.ents.gens@[e2.id as int] == ents_pre.gens@[e2.id as int]);
            }
            assert forall|e2: Entity| w.ents.live(e2) implies exists|k2: int|
                0 <= k2 < k && #[trigger] created@[k2] == e2 by {
                if e2 == e {
                    assert(created@[k - 1] == e2);
                } else {
                    let k2 = choose|k2: int| 0 <= k2 < k - 1 && #[trigger] pre[k2] == e2;
                    assert(created@[k2] == e2);
                }
            }
        }
    }
    proof {
        // two live handles never share a slot
        assert forall|k1: int, l1: int|
            0 <= k1 < created@.len() && 0 <= l1 < created@.len() && k1 != l1 implies (
        #[trigger] created@[k1]).id != (#[trigger] created@[l1]).id by {
            if created@[k1].id == created@[l1].id {
                assert(w.ents.live(created@[k1]) && w.ents.live(created@[l1]));
                assert(created@[k1] == created@[l1]);
            }
        }
        assert forall|k2: int| 0 <= k2 < created@.len() implies (#[trigger] created@[k2]).id
            < usize::MAX by {
            assert(w.ents.live(created@[k2]));
        }
    }
    fill_rows(w, snap, &created);
    // the player resource follows the remapped player entity
    let ghost w_mid = *w;
    let mut k: usize = 0;
    while k < n
        invariant
            n == snap.entities@.len(),
            n == created@.len(),
            k <= n,
            w.ents == w_mid.ents,
            w.map == w_mid.map,
            w.log == w_mid.log,
            w.run_state == w_mid.run_state,
            w.positions == w_mid.positions,
            w.renderables == w_mid.renderables,
            w.players == w_mid.players,
            w.monsters == w_mid.monsters,
            w.names == w_mid.names,
            w.blockers == w_mid.blockers,
            w.combat_stats == w_mid.combat_stats,
            w.items == w_mid.items,
            w.consumables == w_mid.consumables,
            w.provides_healing == w_mid.provides_healing,
            w.backpacks == w_mid.backpacks,
            w.ranged == w_mid.ranged,
            w.inflicts_damage == w_mid.inflicts_damage,
            w.aoe == w_mid.aoe,
            w.confusion == w_mid.confusion,
            w.equippables == w_mid.equippables,
            w.equipped == w_mid.equipped,
            w.viewsheds == w_mid.viewsheds,
            w.serialize_tags == w_mid.serialize_tags,
            w.melee_intents == w_mid.melee_intents,
            w.pickup_intents == w_mid.pickup_intents,
            w.use_intents == w_mid.use_intents,
            w.drop_intents == w_mid.drop_intents,
            w.remove_intents == w_mid.remove_intents,
            w.suffer_damage == w_mid.suffer_damage,
            forall|k2: int|
                0 <= k2 < k ==> !((#[trigger] snap.entities@[k2]).player
                    && snap.entities@[k2].position is Some) || (w.player_entity == created@[k2]
                    && w.player_pos.x == snap.entities@[k2].position->Some_0.x && w.player_pos.y
                    == snap.entities@[k2].position->Some_0.y),
        decreases n - k,
    {
        let is_player_row = snap.entities[k].player;
        let pos = match &snap.entities[k].position {
            Some(p) => Some(*p),
            None => None,
        };
        match pos {
            Some(p) => {
                if is_player_row {
                    w.player_entity = created[k];
                    w.player_pos = crate::components::Point { x: p.x, y: p.y };
                }
            },
            None => (),
        }
        k += 1;
    }
    proof {
        if exists|k2: int|
            0 <= k2 < snap.entities@.len() && (#[trigger] snap.entities@[k2]).player
                && snap.entities@[k2].position is Some {
            let k2 = choose|k2: int|
                0 <= k2 < snap.entities@.len() && (#[trigger] snap.entities@[k2]).player
                    && snap.entities@[k2].position is Some;
            assert(w.player_entity == created@[k2] && w.player_pos.x
                == snap.entities@[k2].position->Some_0.x && w.player_pos.y
                == snap.entities@[k2].position->Some_0.y);
        }
    }
    created
}

} // verus!