//! The visibility pass: every viewer whose viewshed is marked dirty has
//! its visible tile set recomputed from its position and sight range,
//! clipped to the map, and the dirty flag cleared. When the viewer is
//! the player, the map's shared visibility flags are refreshed and the
//! newly seen tiles become revealed for good.

use vstd::prelude::*;
use crate::components::{Entity, Player, Point, Position, Viewshed};
use crate::fov::{field_of_view, fov_contains};
use crate::map::GameMap;
use crate::world::{slot_get, Storage};

verus! {

/// The tile coordinate a flat index addresses.
pub open spec fn tile_point(m: GameMap, idx: int) -> Point {
    Point { x: (idx % (m.width as int)) as i32, y: (idx / (m.width as int)) as i32 }
}

/// On a well-formed map, each in-range index addresses exactly one
/// in-bounds coordinate.
pub proof fn lemma_tile_point(m: GameMap, idx: int)
    requires
        m.wf(),
        0 <= idx < m.tiles@.len(),
    ensures
        m.in_bounds(tile_point(m, idx).x as int, tile_point(m, idx).y as int),
        m.spec_idx(tile_point(m, idx).x as int, tile_point(m, idx).y as int) == idx,
        tile_point(m, idx).x == idx % (m.width as int),
        tile_point(m, idx).y == idx / (m.width as int),
        forall|p: Point|
            m.in_bounds(p.x as int, p.y as int) && m.spec_idx(p.x as int, p.y as int) == idx
                ==> p == tile_point(m, idx),
{
    let w = m.width as int;
    vstd::arithmetic::div_mod::lemma_fundamental_div_mod(idx, w);
    assert(0 <= idx % w < w && idx / w < m.height && w * (idx / w) == (idx / w) * w) by (
    nonlinear_arith)
        requires
            0 < w,
            0 <= idx < m.width * m.height,
            w == m.width,
            idx == w * (idx / w) + idx % w,
            0 <= idx % w < w,
    ;
    assert forall|p: Point|
        m.in_bounds(p.x as int, p.y as int) && m.spec_idx(p.x as int, p.y as int) == idx implies p
        == tile_point(m, idx) by {
        vstd::arithmetic::div_mod::lemma_fundamental_div_mod_converse(
            idx,
            w,
            p.y as int,
            p.x as int,
        );
    }
}

/// The viewer in slot `i` is due a recomputation: it has a viewshed
/// marked dirty and a position.
pub open spec fn viewer_active(
    viewsheds: Seq<Option<(u64, Viewshed)>>,
    positions: Seq<Option<(u64, Position)>>,
    i: int,
) -> bool {
    &&& viewsheds[i] is Some
    &&& viewsheds[i]->Some_0.1.dirty
    &&& slot_get(positions, Entity { id: i as usize, gen: viewsheds[i]->Some_0.0 }) is Some
}

/// The viewer in slot `i` is due a recomputation and is the player.
pub open spec fn player_refresh(
    viewsheds: Seq<Option<(u64, Viewshed)>>,
    positions: Seq<Option<(u64, Position)>>,
    players: Seq<Option<(u64, Player)>>,
    i: int,
) -> bool {
    &&& viewer_active(viewsheds, positions, i)
    &&& slot_get(players, Entity { id: i as usize, gen: viewsheds[i]->Some_0.0 }) is Some
}

/// At most one entity carries the player marker.
pub open spec fn at_most_one_player(players: Seq<Option<(u64, Player)>>) -> bool {
    forall|i: int, j: int|
        0 <= i < players.len() && 0 <= j < players.len() && players[i] is Some && players[j]
            is Some ==> i == j
}

/// The origin the viewer in slot `i` sees from.
pub open spec fn viewer_origin(
    viewsheds: Seq<Option<(u64, Viewshed)>>,
    positions: Seq<Option<(u64, Position)>>,
    i: int,
) -> Point {
    let p = slot_get(
        positions,
        Entity { id: i as usize, gen: viewsheds[i]->Some_0.0 },
    )->Some_0;
    Point { x: p.x, y: p.y }
}

/// Reset the shared visibility flags and mark exactly the listed tiles
/// visible and revealed.
fn refresh_shared_visibility(map: &mut GameMap, tiles: &Vec<Point>)
    requires
        old(map).wf(),
        forall|k: int|
            0 <= k < tiles@.len() ==> old(map).in_bounds(
                (#[trigger] tiles@[k]).x as int,
                tiles@[k].y as int,
            ),
    ensures
        final(map).wf(),
        final(map).width == old(map).width,
        final(map).height == old(map).height,
        final(map).tiles == old(map).tiles,
        final(map).blocked == old(map).blocked,
        final(map).tile_content == old(map).tile_content,
        final(map).rooms == old(map).rooms,
        forall|idx: int|
            0 <= idx < final(map).visible_tiles@.len() ==> (final(map).visible_tiles@[idx]
                <==> exists|k: int|
                0 <= k < tiles@.len() && old(map).spec_idx(
                    (#[trigger] tiles@[k]).x as int,
                    tiles@[k].y as int,
                ) == idx),
        forall|idx: int|
            0 <= idx < final(map).revealed_tiles@.len() ==> (final(map).revealed_tiles@[idx]
                <==> old(map).revealed_tiles@[idx] || exists|k: int|
                0 <= k < tiles@.len() && old(map).spec_idx(
                    (#[trigger] tiles@[k]).x as int,
                    tiles@[k].y as int,
                ) == idx),
{
    let n = map.visible_tiles.len();
    let mut idx: usize = 0;
    while idx < n
        invariant
            idx <= n,
            map.wf(),
            n == map.visible_tiles@.len(),
            map.width == old(map).width,
            map.height == old(map).height,
            map.tiles == old(map).tiles,
            map.blocked == old(map).blocked,
            map.tile_content == old(map).tile_content,
            map.rooms == old(map).rooms,
            map.revealed_tiles == old(map).revealed_tiles,
            forall|j: int| 0 <= j < idx ==> !map.visible_tiles@[j],
            forall|j: int| idx <= j < n ==> map.visible_tiles@[j] == old(map).visible_tiles@[j],
        decreases n - idx,
    {
        map.visible_tiles[idx] = false;
        idx += 1;
    }
    let t = tiles.len();
    let mut k: usize = 0;
    while k < t
        invariant
            k <= t,
            t == tiles@.len(),
            map.wf(),
            map.width == old(map).width,
            map.height == old(map).height,
            map.tiles == old(map).tiles,
            map.blocked == old(map).blocked,
            map.tile_content == old(map).tile_content,
            map.rooms == old(map).rooms,
            forall|j: int|
                0 <= j < tiles@.len() ==> old(map).in_bounds(
                    (#[trigger] tiles@[j]).x as int,
                    tiles@[j].y as int,
                ),
            forall|idx: int|
                0 <= idx < map.visible_tiles@.len() ==> (map.visible_tiles@[idx] <==> exists|j: int|
                    0 <= j < k && old(map).spec_idx(
                        (#[trigger] tiles@[j]).x as int,
                        tiles@[j].y as int,
                    ) == idx),
            forall|idx: int|
                0 <= idx < map.revealed_tiles@.len() ==> (map.revealed_tiles@[idx] <==> old(
                    map,
                ).revealed_tiles@[idx] || exists|j: int|
                    0 <= j < k && old(map).spec_idx(
                        (#[trigger] tiles@[j]).x as int,
                        tiles@[j].y as int,
                    ) == idx),
        decreases t - k,
    {
        let pt = tiles[k];
        let idx = map.xy_idx(pt.x, pt.y);
        map.visible_tiles[idx] = true;
        map.revealed_tiles[idx] = true;
        k += 1;
        proof {
            assert forall|idx2: int|
                0 <= idx2 < map.visible_tiles@.len() implies (map.visible_tiles@[idx2]
                <==> exists|j: int|
                0 <= j < k && old(map).spec_idx(
                    (#[trigger] tiles@[j]).x as int,
                    tiles@[j].y as int,
                ) == idx2) by {
                if idx2 == idx {
                    assert(old(map).spec_idx((tiles@[k - 1]).x as int, tiles@[k - 1].y as int)
                        == idx2);
                }
            }
            assert forall|idx2: int|
                0 <= idx2 < map.revealed_tiles@.len() implies (map.revealed_tiles@[idx2] <==> old(
                map,
            ).revealed_tiles@[idx2] || exists|j: int|
                0 <= j < k && old(map).spec_idx(
                    (#[trigger] tiles@[j]).x as int,
                    tiles@[j].y as int,
                ) == idx2) by {
                if idx2 == idx {
                    assert(old(map).spec_idx((tiles@[k - 1]).x as int, tiles@[k - 1].y as int)
                        == idx2);
                }
            }
        }
    }
}

/// The visibility pass.
pub struct VisibilitySystem {}

impl VisibilitySystem {
    /// Recompute every dirty viewshed and clear its dirty flag; refresh
    /// the map's shared visibility arrays from the player's fresh
    /// viewshed. Sight ranges are never negative and every viewer
    /// stands on the map.
    #[verifier::loop_isolation(false)]
    #[verifier::rlimit(60)]
    pub fn run(
        map: &mut GameMap,
        viewsheds: &mut Storage<Viewshed>,
        positions: &Storage<Position>,
        players: &Storage<Player>,
    )
        requires
            old(map).wf(),
            at_most_one_player(players@),
            forall|i: int|
                0 <= i < old(viewsheds)@.len() && old(viewsheds)@[i] is Some ==> (#[trigger] old(
                    viewsheds,
                )@[i])->Some_0.1.range >= 0,
            forall|i: int|
                0 <= i < positions@.len() && positions@[i] is Some ==> old(map).in_bounds(
                    (#[trigger] positions@[i])->Some_0.1.x as int,
                    positions@[i]->Some_0.1.y as int,
                ),
        ensures
            final(map).wf(),
            final(map).width == old(map).width,
            final(map).height == old(map).height,
            final(map).tiles == old(map).tiles,
            final(map).blocked == old(map).blocked,
            final(map).tile_content == old(map).tile_content,
            final(map).rooms == old(map).rooms,
            final(viewsheds)@.len() == old(viewsheds)@.len(),
            // every dirty viewer is recomputed, everything else is untouched
            forall|i: int|
                0 <= i < old(viewsheds)@.len() ==> (if viewer_active(
                    old(viewsheds)@,
                    positions@,
                    i,
                ) {
                    let vs0 = (#[trigger] old(viewsheds)@[i])->Some_0.1;
                    let vs1 = final(viewsheds)@[i]->Some_0.1;
                    &&& final(viewsheds)@[i] is Some
                    &&& final(viewsheds)@[i]->Some_0.0 == old(viewsheds)@[i]->Some_0.0
                    &&& vs1.range == vs0.range
                    &&& !vs1.dirty
                    &&& forall|p: Point|
                        vs1.visible_tiles@.contains(p) <==> fov_contains(
                            *old(map),
                            viewer_origin(old(viewsheds)@, positions@, i),
                            vs0.range as int,
                            p,
                        )
                } else {
                    final(viewsheds)@[i] == old(viewsheds)@[i]
                }),
            // the shared visibility flags follow the player's fresh view
            (forall|i: int|
                0 <= i < old(viewsheds)@.len() ==> !player_refresh(
                    old(viewsheds)@,
                    positions@,
                    players@,
                    i,
                )) ==> final(map).visible_tiles == old(map).visible_tiles
                && final(map).revealed_tiles == old(map).revealed_tiles,
            forall|i: int|
                0 <= i < old(viewsheds)@.len() && player_refresh(
                    old(viewsheds)@,
                    positions@,
                    players@,
                    i,
                ) ==> {
                    let origin = viewer_origin(old(viewsheds)@, positions@, i);
                    let range = (#[trigger] old(viewsheds)@[i])->Some_0.1.range as int;
                    &&& forall|idx: int|
                        0 <= idx < final(map).visible_tiles@.len()
                            ==> (final(map).visible_tiles@[idx] <==> fov_contains(
                            *old(map),
                            origin,
                            range,
                            tile_point(*old(map), idx),
                        ))
                    &&& forall|idx: int|
                        0 <= idx < final(map).revealed_tiles@.len()
                            ==> (final(map).revealed_tiles@[idx] <==> old(
                            map,
                        ).revealed_tiles@[idx] || fov_contains(
                            *old(map),
                            origin,
                            range,
                            tile_point(*old(map), idx),
                        ))
                },
    {
        let n = viewsheds.slots.len();
        let mut i: usize = 0;
        while i < n
            invariant
                i <= n,
                n == viewsheds@.len(),
                map.wf(),
                map.width == old(map).width,
                map.height == old(map).height,
                map.tiles == old(map).tiles,
                map.blocked == old(map).blocked,
                map.tile_content == old(map).tile_content,
                map.rooms == old(map).rooms,
                forall|j: int|
                    i <= j < n ==> viewsheds@[j] == old(viewsheds)@[j],
                forall|j: int|
                    0 <= j < i ==> (if viewer_active(old(viewsheds)@, positions@, j) {
                        let vs0 = (#[trigger] old(viewsheds)@[j])->Some_0.1;
                        let vs1 = viewsheds@[j]->Some_0.1;
                        &&& viewsheds@[j] is Some
                        &&& viewsheds@[j]->Some_0.0 == old(viewsheds)@[j]->Some_0.0
                        &&& vs1.range == vs0.range
                        &&& !vs1.dirty
                        &&& forall|p: Point|
                            vs1.visible_tiles@.contains(p) <==> fov_contains(
                                *old(map),
                                viewer_origin(old(viewsheds)@, positions@, j),
                                vs0.range as int,
                                p,
                            )
                    } else {
                        viewsheds@[j] == old(viewsheds)@[j]
                    }),
                (forall|j: int|
                    0 <= j < i ==> !player_refresh(old(viewsheds)@, positions@, players@, j))
                    ==> map.visible_tiles == old(map).visible_tiles && map.revealed_tiles == old(
                    map,
                ).revealed_tiles,
                forall|j: int|
                    0 <= j < i && player_refresh(old(viewsheds)@, positions@, players@, j) ==> {
                        let origin = viewer_origin(old(viewsheds)@, positions@, j);
                        let range = (#[trigger] old(viewsheds)@[j])->Some_0.1.range as int;
                        &&& forall|idx: int|
                            0 <= idx < map.visible_tiles@.len() ==> (map.visible_tiles@[idx]
                                <==> fov_contains(
                                *old(map),
                                origin,
                                range,
                                tile_point(*old(map), idx),
                            ))
                        &&& forall|idx: int|
                            0 <= idx < map.revealed_tiles@.len() ==> (map.revealed_tiles@[idx]
                                <==> old(map).revealed_tiles@[idx] || fov_contains(
                                *old(map),
                                origin,
                                range,
                                tile_point(*old(map), idx),
                            ))
                    },
            decreases n - i,
        {
            let header = match &viewsheds.slots[i] {
                Some(p) => Some((p.0, p.1.range, p.1.dirty)),
                None => None,
            };
            match header {
                Some((g, range, dirty)) => {
                    let e = Entity { id: i, gen: g };
                    let pos = match positions.get(e) {
                        Some(p) => Some(*p),
                        None => None,
                    };
                    match pos {
                        Some(p) => {
                            if dirty {
                                proof {
                                    assert(viewer_active(old(viewsheds)@, positions@, i as int));
                                }
                                let origin = Point { x: p.x, y: p.y };
                                let fresh = field_of_view(map, origin, range);
                                proof {
                                    crate::fov::lemma_fov_agree(*map, *old(map), origin, range as int);
                                    assert(forall|q: Point|
                                        fresh@.contains(q) <==> fov_contains(
                                            *old(map),
                                            origin,
                                            range as int,
                                            q,
                                        ));
                                }
                                let is_player = players.has(e);
                                if is_player {
                                    proof {
                                        assert(player_refresh(
                                            old(viewsheds)@,
                                            positions@,
                                            players@,
                                            i as int,
                                        ));
                                        assert forall|k: int|
                                            0 <= k < fresh@.len() implies map.in_bounds(
                                            (#[trigger] fresh@[k]).x as int,
                                            fresh@[k].y as int,
                                        ) by {
                                            assert(fresh@.contains(fresh@[k]));
                                        }
                                    }
                                    let ghost map_pre = *map;
                                    refresh_shared_visibility(map, &fresh);
                                    proof {
                                        assert forall|idx: int|
                                            0 <= idx < map.visible_tiles@.len() implies (
                                        map.visible_tiles@[idx] <==> fov_contains(
                                            *old(map),
                                            origin,
                                            range as int,
                                            tile_point(*old(map), idx),
                                        )) by {
                                            lemma_tile_point(*old(map), idx);
                                            if map.visible_tiles@[idx] {
                                                let k = choose|k: int|
                                                    0 <= k < fresh@.len() && old(map).spec_idx(
                                                        (#[trigger] fresh@[k]).x as int,
                                                        fresh@[k].y as int,
                                                    ) == idx;
                                                assert(fresh@.contains(fresh@[k]));
                                                assert(fov_contains(
                                                    *old(map),
                                                    origin,
                                                    range as int,
                                                    fresh@[k],
                                                ));
                                                assert(fresh@[k] == tile_point(*old(map), idx));
                                            }
                                            if fov_contains(
                                                *old(map),
                                                origin,
                                                range as int,
                                                tile_point(*old(map), idx),
                                            ) {
                                                assert(fresh@.contains(tile_point(*old(map), idx)));
                                                let k = choose|k: int|
                                                    0 <= k < fresh@.len() && fresh@[k] == tile_point(
                                                        *old(map),
                                                        idx,
                                                    );
                                                assert(old(map).spec_idx(
                                                    (fresh@[k]).x as int,
                                                    fresh@[k].y as int,
                                                ) == idx);
                                            }
                                        }
                                        assert forall|idx: int|
                                            0 <= idx < map.revealed_tiles@.len() implies (
                                        map.revealed_tiles@[idx] <==> old(
                                            map,
                                        ).revealed_tiles@[idx] || fov_contains(
                                            *old(map),
                                            origin,
                                            range as int,
                                            tile_point(*old(map), idx),
                                        )) by {
                                            lemma_tile_point(*old(map), idx);
                                            if map.revealed_tiles@[idx] && !old(
                                                map,
                                            ).revealed_tiles@[idx] {
                                                let k = choose|k: int|
                                                    0 <= k < fresh@.len() && old(map).spec_idx(
                                                        (#[trigger] fresh@[k]).x as int,
                                                        fresh@[k].y as int,
                                                    ) == idx;
                                                assert(fresh@.contains(fresh@[k]));
                                                assert(fresh@[k] == tile_point(*old(map), idx));
                                            }
                                            if fov_contains(
                                                *old(map),
                                                origin,
                                                range as int,
                                                tile_point(*old(map), idx),
                                            ) {
                                                assert(fresh@.contains(tile_point(*old(map), idx)));
                                                let k = choose|k: int|
                                                    0 <= k < fresh@.len() && fresh@[k] == tile_point(
                                                        *old(map),
                                                        idx,
                                                    );
                                                assert(old(map).spec_idx(
                                                    (fresh@[k]).x as int,
                                                    fresh@[k].y as int,
                                                ) == idx);
                                            }
                                        }
                                    }
                                }
                                viewsheds.slots[i] = Some(
                                    (g, Viewshed { visible_tiles: fresh, range, dirty: false }),
                                );
                            }
                        },
                        None => {},
                    }
                },
                None => {},
            }
            i += 1;
            proof {
                if i >= 1 && !viewer_active(old(viewsheds)@, positions@, i - 1) {
                    assert(viewsheds@[i - 1] == old(viewsheds)@[i - 1]);
                }
            }
        }
    }
}

} // verus!
