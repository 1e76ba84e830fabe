//! Player actions: the bump-move that either walks, attacks what is in
//! the way, or does nothing at the map border; and picking an item up
//! from the tile the player stands on. The keyboard-to-intent mapping
//! itself is an external input adapter.

use vstd::prelude::*;
use crate::components::{
    CombatStats, Entity, Item, Player, Point, Position, Viewshed, WantsToMelee, WantsToPickUpItem,
};
use crate::gamelog::GameLog;
use crate::inventory_system::entry_or_none;
use crate::map::GameMap;
use crate::world::{slot_get, Storage};
use vstd::string::StringExecFns;

verus! {

/// The destination leaves the playable area (the outermost ring of
/// tiles counts as out of play).
pub open spec fn spec_out_of_bounds(m: GameMap, x: int, y: int) -> bool {
    x < 1 || x > m.width - 1 || y < 1 || y > m.height - 1
}

/// Report whether a destination leaves the playable area.
pub fn out_of_bounds(dest_x: i32, dest_y: i32, map: &GameMap) -> (r: bool)
    requires
        map.wf(),
    ensures
        r == spec_out_of_bounds(*map, dest_x as int, dest_y as int),
{
    dest_x < 1 || dest_x > map.width - 1 || dest_y < 1 || dest_y > map.height - 1
}

/// The first entity standing on the destination tile that can fight
/// back, scanning the occupancy list front to back.
pub open spec fn first_combat_target(
    content: Seq<Entity>,
    stats: Seq<Option<(u64, CombatStats)>>,
    n: int,
) -> Option<Entity>
    decreases n,
{
    if n <= 0 {
        None
    } else {
        match first_combat_target(content, stats, n - 1) {
            Some(e) => Some(e),
            None => {
                if slot_get(stats, content[n - 1]) is Some {
                    Some(content[n - 1])
                } else {
                    None
                }
            },
        }
    }
}

/// The player slot: the single entity carrying the player marker, a
/// position and a viewshed, if there is one.
pub open spec fn player_slot(
    players: Seq<Option<(u64, Player)>>,
    positions: Seq<Option<(u64, Position)>>,
    viewsheds: Seq<Option<(u64, Viewshed)>>,
    i: int,
) -> bool {
    &&& 0 <= i < players.len()
    &&& players[i] is Some
    &&& i < positions.len() && positions[i] is Some
    &&& i < viewsheds.len() && viewsheds[i] is Some
}

/// Try to move the player one step. Bumping into a combatant produces
/// a melee intent instead; bumping into a blocked tile or the map edge
/// does nothing; otherwise the player steps onto the tile, its
/// viewshed goes dirty, and the shared player-position resource
/// follows.
#[verifier::loop_isolation(false)]
#[verifier::rlimit(60)]
pub fn try_move_player(
    delta_x: i32,
    delta_y: i32,
    map: &GameMap,
    players: &Storage<Player>,
    positions: &mut Storage<Position>,
    viewsheds: &mut Storage<Viewshed>,
    combat_stats: &Storage<CombatStats>,
    melee: &mut Storage<WantsToMelee>,
    player_pos: &mut Point,
)
    requires
        map.wf(),
        -1 <= delta_x <= 1,
        -1 <= delta_y <= 1,
        crate::visibility_system::at_most_one_player(players@),
        forall|i: int|
            0 <= i < old(positions)@.len() && old(positions)@[i] is Some ==> map.in_bounds(
                (#[trigger] old(positions)@[i])->Some_0.1.x as int,
                old(positions)@[i]->Some_0.1.y as int,
            ),
    ensures
        final(positions)@.len() == old(positions)@.len(),
        final(viewsheds)@.len() == old(viewsheds)@.len(),
        forall|i: int|
            0 <= i < players@.len() ==> (if player_slot(
                players@,
                old(positions)@,
                old(viewsheds)@,
                i,
            ) {
                let g = players@[i]->Some_0.0;
                let pos = old(positions)@[i]->Some_0.1;
                let dx = pos.x + delta_x;
                let dy = pos.y + delta_y;
                let idx = map.spec_idx(dx, dy);
                if spec_out_of_bounds(*map, dx, dy) {
                    &&& final(positions)@ == old(positions)@
                    &&& final(viewsheds)@ == old(viewsheds)@
                    &&& final(melee)@ == old(melee)@
                    &&& *final(player_pos) == *old(player_pos)
                } else if first_combat_target(
                    map.tile_content@[idx]@,
                    combat_stats@,
                    map.tile_content@[idx]@.len() as int,
                ) is Some {
                    let tgt = first_combat_target(
                        map.tile_content@[idx]@,
                        combat_stats@,
                        map.tile_content@[idx]@.len() as int,
                    )->Some_0;
                    &&& final(positions)@ == old(positions)@
                    &&& final(viewsheds)@ == old(viewsheds)@
                    &&& *final(player_pos) == *old(player_pos)
                    &&& final(melee)@.len() == vstd::math::max(old(melee)@.len() as int, i + 1)
                    &&& forall|k: int|
                        0 <= k < final(melee)@.len() ==> final(melee)@[k] == (if k == i {
                            Some((g, WantsToMelee { target: tgt }))
                        } else {
                            entry_or_none(old(melee)@, k)
                        })
                } else if !map.blocked@[idx] {
                    &&& final(positions)@ == old(positions)@.update(
                        i,
                        Some((g, Position { x: dx as i32, y: dy as i32 })),
                    )
                    &&& final(melee)@ == old(melee)@
                    &&& final(viewsheds)@[i] is Some
                    &&& final(viewsheds)@[i]->Some_0.0 == old(viewsheds)@[i]->Some_0.0
                    &&& final(viewsheds)@[i]->Some_0.1.dirty
                    &&& final(viewsheds)@[i]->Some_0.1.range == old(
                        viewsheds,
                    )@[i]->Some_0.1.range
                    &&& final(viewsheds)@[i]->Some_0.1.visible_tiles@ == old(
                        viewsheds,
                    )@[i]->Some_0.1.visible_tiles@
                    &&& forall|k: int|
                        0 <= k < final(viewsheds)@.len() && k != i ==> final(viewsheds)@[k]
                            == old(viewsheds)@[k]
                    &&& *final(player_pos) == (Point { x: dx as i32, y: dy as i32 })
                } else {
                    &&& final(positions)@ == old(positions)@
                    &&& final(viewsheds)@ == old(viewsheds)@
                    &&& final(melee)@ == old(melee)@
                    &&& *final(player_pos) == *old(player_pos)
                }
            } else {
                true
            }),
        (forall|i: int|
            0 <= i < players@.len() ==> !player_slot(players@, old(positions)@, old(viewsheds)@, i))
            ==> final(positions)@ == old(positions)@ && final(viewsheds)@ == old(viewsheds)@
            && final(melee)@ == old(melee)@ && *final(player_pos) == *old(player_pos),
{
    let n = players.slots.len();
    let mut i: usize = 0;
    while i < n
        invariant
            n == players@.len(),
            i <= n,
            positions@ == old(positions)@,
            viewsheds@ == old(viewsheds)@,
            melee@ == old(melee)@,
            *player_pos == *old(player_pos),
            forall|k: int|
                0 <= k < i ==> !player_slot(players@, old(positions)@, old(viewsheds)@, k),
        decreases n - i,
    {
        let is_player = match &players.slots[i] {
            Some(_) => true,
            None => false,
        };
        let has_pos = i < positions.slots.len() && match &positions.slots[i] {
            Some(_) => true,
            None => false,
        };
        let has_view = i < viewsheds.slots.len() && match &viewsheds.slots[i] {
            Some(_) => true,
            None => false,
        };
        if is_player && has_pos && has_view {
            proof {
                assert(player_slot(players@, old(positions)@, old(viewsheds)@, i as int));
                assert forall|k: int|
                    0 <= k < players@.len() && k != i as int implies !player_slot(
                    players@,
                    old(positions)@,
                    old(viewsheds)@,
                    k,
                ) by {
                    if player_slot(players@, old(positions)@, old(viewsheds)@, k) {
                        assert(players@[k] is Some && players@[i as int] is Some);
                    }
                }
            }
            let g = match &players.slots[i] {
                Some(p) => p.0,
                None => 0u64,
            };
            let pos = match &positions.slots[i] {
                Some(p) => p.1,
                None => Position { x: 0, y: 0 },
            };
            let dest_x = pos.x + delta_x;
            let dest_y = pos.y + delta_y;
            if out_of_bounds(dest_x, dest_y, map) {
                return ;
            }
            let destination_idx = map.xy_idx(dest_x, dest_y);
            // a combatant in the way is attacked instead
            let row = &map.tile_content[destination_idx];
            let rn = row.len();
            let mut r: usize = 0;
            while r < rn
                invariant
                    rn == map.tile_content@[destination_idx as int]@.len(),
                    r <= rn,
                    melee@ == old(melee)@,
                    first_combat_target(
                        map.tile_content@[destination_idx as int]@,
                        combat_stats@,
                        r as int,
                    ) is None,
                decreases rn - r,
            {
                let potential_target = row[r];
                let has_stats = combat_stats.has(potential_target);
                r += 1;
                if has_stats {
                    proof {
                        assert(first_combat_target(
                            map.tile_content@[destination_idx as int]@,
                            combat_stats@,
                            r as int,
                        ) == Some(potential_target));
                        lemma_first_combat_target_extends(
                            map.tile_content@[destination_idx as int]@,
                            combat_stats@,
                            r as int,
                            rn as int,
                        );
                    }
                    melee.insert(Entity { id: i, gen: g }, WantsToMelee { target: potential_target });
                    proof {
                        assert forall|k: int| 0 <= k < melee@.len() implies melee@[k] == (if k
                            == i as int {
                            Some((g, WantsToMelee { target: potential_target }))
                        } else {
                            entry_or_none(old(melee)@, k)
                        }) by {}
                    }
                    return ;
                }
            }
            if !map.blocked[destination_idx] {
                positions.slots[i] = Some((g, Position { x: dest_x, y: dest_y }));
                proof {
                    assert(positions@ =~= old(positions)@.update(
                        i as int,
                        Some((g, Position { x: dest_x, y: dest_y })),
                    ));
                }
                let vs_entry = match &viewsheds.slots[i] {
                    Some(v) => Some((v.0, v.1.range, v.1.visible_tiles.clone())),
                    None => None,
                };
                match vs_entry {
                    Some((vg, range, tiles)) => {
                        proof {
                            assert(tiles@ =~= old(viewsheds)@[i as int]->Some_0.1.visible_tiles@);
                        }
                        viewsheds.slots[i] = Some(
                            (vg, Viewshed { visible_tiles: tiles, range, dirty: true }),
                        );
                    },
                    None => {},
                }
                *player_pos = Point { x: dest_x, y: dest_y };
            }
            return ;
        }
        i += 1;
    }
}

/// Extending the scan past the first found combatant never changes it.
proof fn lemma_first_combat_target_extends(
    content: Seq<Entity>,
    stats: Seq<Option<(u64, CombatStats)>>,
    r: int,
    n: int,
)
    requires
        0 <= r <= n,
        first_combat_target(content, stats, r) is Some,
    ensures
        first_combat_target(content, stats, n) == first_combat_target(content, stats, r),
    decreases n - r,
{
    if r < n {
        lemma_first_combat_target_extends(content, stats, r, n - 1);
    }
}

/// The ground item under the player with the highest slot id, if any:
/// the one a pickup would take.
pub open spec fn item_under_player(
    items: Seq<Option<(u64, Item)>>,
    positions: Seq<Option<(u64, Position)>>,
    ppos: Point,
    n: int,
) -> Option<Entity>
    decreases n,
{
    if n <= 0 {
        None
    } else {
        let e = Entity { id: (n - 1) as usize, gen: (if 0 <= n - 1 < items.len() {
            items[n - 1]->Some_0.0
        } else {
            0
        }) };
        if 0 <= n - 1 < items.len() && items[n - 1] is Some && slot_get(positions, e) is Some
            && slot_get(positions, e)->Some_0.x == ppos.x && slot_get(positions, e)->Some_0.y
            == ppos.y {
            Some(e)
        } else {
            item_under_player(items, positions, ppos, n - 1)
        }
    }
}

/// Pick up what lies under the player: writes a pickup intent for the
/// topmost ground item on the player's tile, or logs that there is
/// nothing to pick up.
#[verifier::loop_isolation(false)]
pub fn get_item(
    player: Entity,
    ppos: Point,
    log: &mut GameLog,
    items: &Storage<Item>,
    positions: &Storage<Position>,
    pickups: &mut Storage<WantsToPickUpItem>,
)
    requires
        player.id < usize::MAX,
    ensures
        match item_under_player(items@, positions@, ppos, items@.len() as int) {
            None => {
                &&& final(pickups)@ == old(pickups)@
                &&& final(log).entries@ == old(log).entries@.push(final(log).entries@.last())
                &&& final(log).entries@.last()@ == "There is nothing here to pick up."@
            },
            Some(it) => {
                &&& final(log).entries@ == old(log).entries@
                &&& final(pickups)@.len() == vstd::math::max(
                    old(pickups)@.len() as int,
                    player.id + 1 as int,
                )
                &&& forall|k: int|
                    0 <= k < final(pickups)@.len() ==> final(pickups)@[k] == (if k == player.id {
                        Some((player.gen, WantsToPickUpItem { collected_by: player, item: it }))
                    } else {
                        entry_or_none(old(pickups)@, k)
                    })
            },
        },
{
    let n = items.slots.len();
    let mut target_item: Option<Entity> = None;
    let mut i: usize = 0;
    while i < n
        invariant
            n == items@.len(),
            i <= n,
            target_item == item_under_player(items@, positions@, ppos, i as int),
        decreases n - i,
    {
        let entry = match &items.slots[i] {
            Some(p) => Some(p.0),
            None => None,
        };
        match entry {
            Some(g) => {
                let e = Entity { id: i, gen: g };
                match positions.get(e) {
                    Some(p) => {
                        if p.x == ppos.x && p.y == ppos.y {
                            target_item = Some(e);
                        }
                    },
                    None => {},
                }
            },
            None => {},
        }
        i += 1;
    }
    match target_item {
        None => {
            log.entries.push(String::from_str("There is nothing here to pick up."));
        },
        Some(item) => {
            pickups.insert(player, WantsToPickUpItem { collected_by: player, item });
            proof {
                assert forall|k: int| 0 <= k < pickups@.len() implies pickups@[k] == (if k
                    == player.id as int {
                    Some((player.gen, WantsToPickUpItem { collected_by: player, item }))
                } else {
                    entry_or_none(old(pickups)@, k)
                }) by {}
            }
        },
    }
}

} // verus!
