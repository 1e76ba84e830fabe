//! Map indexing: once per pass, after positions may have changed,
//! rebuild the `blocked` array from the static walls plus every entity
//! that blocks its tile, and rebuild the per-tile occupancy cache from
//! scratch from the current positions. Pathfinding and single-tile
//! targeting read these caches afterward.

use vstd::prelude::*;
use crate::components::{BlocksTile, Entity, Position};
use crate::map::{GameMap, TileType};
use crate::world::{slot_get, Storage};

verus! {

/// Entity `e` stands on tile index `idx`.
pub open spec fn occupies(
    m: GameMap,
    positions: Seq<Option<(u64, Position)>>,
    e: Entity,
    idx: int,
) -> bool {
    &&& slot_get(positions, e) is Some
    &&& m.spec_idx(
        slot_get(positions, e)->Some_0.x as int,
        slot_get(positions, e)->Some_0.y as int,
    ) == idx
}

/// Tile `idx` is blocked after indexing: a wall, or some entity that
/// blocks its tile stands there.
pub open spec fn blocked_after(
    m: GameMap,
    positions: Seq<Option<(u64, Position)>>,
    blockers: Seq<Option<(u64, BlocksTile)>>,
    idx: int,
) -> bool {
    m.tiles@[idx] is Wall || exists|e: Entity|
        #[trigger] occupies(m, positions, e, idx) && slot_get(blockers, e) is Some
}

/// The map indexing pass.
pub struct MapIndexingSystem {}

impl MapIndexingSystem {
    /// Rebuild `blocked` and `tile_content`. Every position must lie on
    /// the map; a position off the map is a fault in pipeline ordering,
    /// not a recoverable condition. Afterward each tile's occupancy
    /// list holds exactly the entities standing on it, in ascending id
    /// order.
    #[verifier::loop_isolation(false)]
    #[verifier::rlimit(30)]
    pub fn run(
        map: &mut GameMap,
        positions: &Storage<Position>,
        blockers: &Storage<BlocksTile>,
    )
        requires
            old(map).wf(),
            forall|i: int|
                0 <= i < positions@.len() && positions@[i] is Some ==> old(map).in_bounds(
                    (#[trigger] positions@[i])->Some_0.1.x as int,
                    positions@[i]->Some_0.1.y as int,
                ),
        ensures
            final(map).wf(),
            final(map).width == old(map).width,
            final(map).height == old(map).height,
            final(map).tiles == old(map).tiles,
            final(map).revealed_tiles == old(map).revealed_tiles,
            final(map).visible_tiles == old(map).visible_tiles,
            final(map).rooms == old(map).rooms,
            forall|idx: int|
                0 <= idx < final(map).blocked@.len() ==> final(map).blocked@[idx] == blocked_after(
                    *old(map),
                    positions@,
                    blockers@,
                    idx,
                ),
            forall|idx: int, e: Entity|
                0 <= idx < final(map).tile_content@.len()
                    ==> ((#[trigger] final(map).tile_content@[idx]@.contains(e)) <==> occupies(
                    *old(map),
                    positions@,
                    e,
                    idx,
                )),
            forall|idx: int, k: int, l: int|
                0 <= idx < final(map).tile_content@.len() && 0 <= k < l
                    < final(map).tile_content@[idx]@.len()
                    ==> final(map).tile_content@[idx]@[k].id
                    < final(map).tile_content@[idx]@[l].id,
    {
        let n = map.tiles.len();
        // static geometry, and an empty occupancy cache
        let mut idx: usize = 0;
        while idx < n
            invariant
                idx <= n,
                map.wf(),
                map.width == old(map).width,
                map.height == old(map).height,
                map.tiles == old(map).tiles,
                map.revealed_tiles == old(map).revealed_tiles,
                map.visible_tiles == old(map).visible_tiles,
                map.rooms == old(map).rooms,
                forall|j: int| 0 <= j < idx ==> map.blocked@[j] == (map.tiles@[j] is Wall),
                forall|j: int| 0 <= j < idx ==> map.tile_content@[j]@.len() == 0,
            decreases n - idx,
        {
            let wall = match map.tiles[idx] {
                TileType::Wall => true,
                _ => false,
            };
            map.blocked[idx] = wall;
            map.tile_content[idx] = Vec::new();
            idx += 1;
        }
        // every entity with a position lands in its tile's cache, and
        // blocks it when it carries the blocking marker
        let np = positions.slots.len();
        let mut i: usize = 0;
        while i < np
            invariant
                i <= np,
                np == positions@.len(),
                map.wf(),
                map.width == old(map).width,
                map.height == old(map).height,
                map.tiles == old(map).tiles,
                map.revealed_tiles == old(map).revealed_tiles,
                map.visible_tiles == old(map).visible_tiles,
                map.rooms == old(map).rooms,
                forall|j: int|
                    0 <= j < map.blocked@.len() ==> map.blocked@[j] == (map.tiles@[j] is Wall
                        || exists|e: Entity|
                        #[trigger] occupies(*old(map), positions@, e, j) && e.id < i && slot_get(
                            blockers@,
                            e,
                        ) is Some),
                forall|j: int, e: Entity|
                    0 <= j < map.tile_content@.len() ==> (#[trigger] map.tile_content@[j]@.contains(
                        e,
                    ) <==> occupies(*old(map), positions@, e, j) && e.id < i),
                forall|j: int, k: int|
                    0 <= j < map.tile_content@.len() && 0 <= k < map.tile_content@[j]@.len()
                        ==> (#[trigger] map.tile_content@[j]@[k]).id < i,
                forall|j: int, k: int, l: int|
                    0 <= j < map.tile_content@.len() && 0 <= k < l < map.tile_content@[j]@.len()
                        ==> map.tile_content@[j]@[k].id < map.tile_content@[j]@[l].id,
            decreases np - i,
        {
            let entry = match &positions.slots[i] {
                Some(p) => Some((p.0, p.1)),
                None => None,
            };
            match entry {
                Some((g, pos)) => {
                    let e = Entity { id: i, gen: g };
                    let tile = map.xy_idx(pos.x, pos.y);
                    let ghost pre = *map;
                    if blockers.has(e) {
                        map.blocked[tile] = true;
                    }
                    map.tile_content[tile].push(e);
                    proof {
                        assert(slot_get(positions@, e) == Some(pos));
                        assert(occupies(*old(map), positions@, e, tile as int));
                        assert(map.tile_content@[tile as int]@ == pre.tile_content@[tile as int]@.push(
                            e,
                        ));
                        assert forall|j: int, e2: Entity|
                            0 <= j < map.tile_content@.len() implies (#[trigger] map.tile_content@[j]@.contains(
                            e2,
                        ) <==> occupies(*old(map), positions@, e2, j) && e2.id < i + 1) by {
                            if j == tile {
                                if map.tile_content@[j]@.contains(e2) {
                                    let k = choose|k: int|
                                        0 <= k < map.tile_content@[j]@.len()
                                            && map.tile_content@[j]@[k] == e2;
                                    if k < pre.tile_content@[j]@.len() {
                                        assert(pre.tile_content@[j]@.contains(e2));
                                    } else {
                                        assert(e2 == e);
                                    }
                                }
                                if occupies(*old(map), positions@, e2, j) && e2.id < i + 1 {
                                    if e2.id < i {
                                        assert(pre.tile_content@[j]@.contains(e2));
                                        let k = choose|k: int|
                                            0 <= k < pre.tile_content@[j]@.len()
                                                && pre.tile_content@[j]@[k] == e2;
                                        assert(map.tile_content@[j]@[k] == e2);
                                    } else {
                                        assert(e2.id == i);
                                        assert(e2.gen == g) by {
                                            assert(slot_get(positions@, e2) is Some);
                                        }
                                        assert(map.tile_content@[j]@.last() == e);
                                    }
                                    assert(map.tile_content@[j]@.contains(e2));
                                }
                            } else {
                                assert(map.tile_content@[j]@ == pre.tile_content@[j]@);
                                if occupies(*old(map), positions@, e2, j) && e2.id == i {
                                    assert(slot_get(positions@, e2) == Some(pos));
                                    assert(old(map).spec_idx(pos.x as int, pos.y as int) == tile);
                                }
                            }
                        }
                        assert forall|j: int|
                            0 <= j < map.blocked@.len() implies map.blocked@[j] == (map.tiles@[j]
                            is Wall || exists|e2: Entity|
                            #[trigger] occupies(*old(map), positions@, e2, j) && e2.id < i + 1
                                && slot_get(blockers@, e2) is Some) by {
                            if map.blocked@[j] {
                                if !(map.tiles@[j] is Wall) {
                                    if pre.blocked@[j] {
                                        let e2 = choose|e2: Entity|
                                            #[trigger] occupies(*old(map), positions@, e2, j)
                                                && e2.id < i && slot_get(blockers@, e2) is Some;
                                        assert(occupies(*old(map), positions@, e2, j) && e2.id < i
                                            + 1 && slot_get(blockers@, e2) is Some);
                                    } else {
                                        assert(j == tile && slot_get(blockers@, e) is Some);
                                        assert(occupies(*old(map), positions@, e, j) && e.id < i
                                            + 1 && slot_get(blockers@, e) is Some);
                                    }
                                }
                            } else {
                                assert(forall|e2: Entity|
                                    occupies(*old(map), positions@, e2, j) && e2.id < i + 1
                                        && slot_get(blockers@, e2) is Some ==> false) by {
                                }
                            }
                        }
                    }
                },
                None => {},
            }
            i += 1;
        }
        proof {
            assert forall|idx2: int|
                0 <= idx2 < map.blocked@.len() implies map.blocked@[idx2] == blocked_after(
                *old(map),
                positions@,
                blockers@,
                idx2,
            ) by {
                if map.blocked@[idx2] && !(map.tiles@[idx2] is Wall) {
                    let e = choose|e: Entity|
                        #[trigger] occupies(*old(map), positions@, e, idx2) && e.id < i
                            && slot_get(blockers@, e) is Some;
                    assert(occupies(*old(map), positions@, e, idx2) && slot_get(blockers@, e)
                        is Some);
                }
                if blocked_after(*old(map), positions@, blockers@, idx2) && !(map.tiles@[idx2]
                    is Wall) {
                    let e = choose|e: Entity|
                        #[trigger] occupies(*old(map), positions@, e, idx2) && slot_get(
                            blockers@,
                            e,
                        ) is Some;
                    assert(e.id < positions@.len());
                    assert(occupies(*old(map), positions@, e, idx2) && e.id < i && slot_get(
                        blockers@,
                        e,
                    ) is Some);
                }
            }
        }
    }
}

} // verus!
