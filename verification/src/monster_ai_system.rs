//! Monster AI: during the monster turn, each monster first serves any
//! confusion status (skipping its action while the counter runs down),
//! then attacks the player when adjacent, and otherwise walks one step
//! along a shortest path toward the player when it can see it. A
//! monster that cannot see the player and is not adjacent stands still.

use vstd::prelude::*;
use crate::components::{
    Confusion, Entity, Monster, Point, Position, Viewshed, WantsToMelee,
};
use crate::fov::dist2;
use crate::game::RunState;
use crate::map::GameMap;
use crate::visibility_system::{lemma_tile_point, tile_point};
use crate::world::{store_clean, EntityAllocator, Storage};

verus! {

/// The slot has everything a monster needs to act: the marker, a
/// viewshed and a position.
pub open spec fn m_active(
    monsters: Seq<Option<(u64, Monster)>>,
    viewsheds: Seq<Option<(u64, Viewshed)>>,
    positions: Seq<Option<(u64, Position)>>,
    i: int,
) -> bool {
    &&& 0 <= i < monsters.len()
    &&& monsters[i] is Some
    &&& i < viewsheds.len() && viewsheds[i] is Some
    &&& i < positions.len() && positions[i] is Some
}

/// The point the slot's position occupies.
pub open spec fn m_point(positions: Seq<Option<(u64, Position)>>, i: int) -> Point {
    Point { x: positions[i]->Some_0.1.x, y: positions[i]->Some_0.1.y }
}

/// The monster stands within melee reach of the player: one step on
/// either axis, which is a Euclidean distance below one and a half
/// tiles.
pub open spec fn m_adjacent(
    positions: Seq<Option<(u64, Position)>>,
    i: int,
    ppos: Point,
) -> bool {
    dist2(m_point(positions, i), ppos) <= 2
}

/// What one monster turn leaves of a confusion counter: one fewer
/// turn, and the status ends when no turns remain.
pub open spec fn confusion_next(turns: i32) -> Option<i32> {
    if turns - 1 < 1 {
        None
    } else {
        Some((turns - 1) as i32)
    }
}

/// Confused-skip, stated over the per-turn counter rule: a monster
/// confused for two turns skips that turn and the next, and carries no
/// confusion on the third. The action skip itself is the monster
/// pass's contract: while the status is present the position is
/// untouched and no melee intent appears.
pub proof fn lemma_confused_two_turns()
    ensures
        confusion_next(2) == Some(1i32),
        confusion_next(1) == None::<i32>,
{
}

/// A slot entry of a storage, `None` past its end.
pub open spec fn slot_or_none<T>(s: Seq<Option<(u64, T)>>, i: int) -> Option<(u64, T)> {
    if 0 <= i < s.len() {
        s[i]
    } else {
        None
    }
}

/// The monster AI pass.
pub struct MonsterAI {}

impl MonsterAI {
    /// Run every monster's turn. Outside the monster turn this is a
    /// no-op. The contract pins the confusion countdown exactly, forces
    /// a melee intent for every unconfused adjacent monster, and bounds
    /// movement: at most one step, onto a walkable in-bounds tile, and
    /// only while the monster saw the player. The contract does not
    /// force a chase step: each monster paths against the blocked array
    /// as earlier movers left it, and the pathfinder promises only some
    /// shortest path, so the chosen tile is relational to mid-pass
    /// state that a two-state contract cannot name. The blocked array
    /// itself is scratch space that the next map indexing pass
    /// rebuilds.
    #[verifier::loop_isolation(false)]
    #[verifier::rlimit(100)]
    pub fn run(
        map: &mut GameMap,
        ppos: Point,
        player: Entity,
        run_state: RunState,
        ents: &EntityAllocator,
        viewsheds: &mut Storage<Viewshed>,
        monsters: &Storage<Monster>,
        positions: &mut Storage<Position>,
        melee: &mut Storage<WantsToMelee>,
        confusion: &mut Storage<Confusion>,
    )
        requires
            old(map).wf(),
            old(map).in_bounds(ppos.x as int, ppos.y as int),
            store_clean(*ents, monsters@),
            store_clean(*ents, old(viewsheds)@),
            store_clean(*ents, old(positions)@),
            store_clean(*ents, old(melee)@),
            store_clean(*ents, old(confusion)@),
            forall|i: int|
                0 <= i < old(positions)@.len() && old(positions)@[i] is Some ==> old(
                    map,
                ).in_bounds(
                    (#[trigger] old(positions)@[i])->Some_0.1.x as int,
                    old(positions)@[i]->Some_0.1.y as int,
                ),
            forall|i: int|
                0 <= i < old(positions)@.len() && old(positions)@[i] is Some ==> !(old(
                    map,
                ).tiles@[old(map).spec_idx(
                    (#[trigger] old(positions)@[i])->Some_0.1.x as int,
                    old(positions)@[i]->Some_0.1.y as int,
                )] is Wall),
            forall|idx: int|
                0 <= idx < old(map).tiles@.len() && old(map).tiles@[idx] is Wall ==> old(
                    map,
                ).blocked@[idx],
        ensures
            final(map).wf(),
            final(map).width == old(map).width,
            final(map).height == old(map).height,
            final(map).tiles == old(map).tiles,
            final(map).revealed_tiles == old(map).revealed_tiles,
            final(map).visible_tiles == old(map).visible_tiles,
            final(map).tile_content == old(map).tile_content,
            final(map).rooms == old(map).rooms,
            final(map).blocked@.len() == old(map).blocked@.len(),
            run_state != RunState::MonsterTurn ==> final(map).blocked == old(map).blocked
                && final(viewsheds)@ == old(viewsheds)@ && final(positions)@ == old(positions)@
                && final(melee)@ == old(melee)@ && final(confusion)@ == old(confusion)@,
            store_clean(*ents, final(viewsheds)@),
            store_clean(*ents, final(positions)@),
            store_clean(*ents, final(melee)@),
            store_clean(*ents, final(confusion)@),
            final(positions)@.len() == old(positions)@.len(),
            final(viewsheds)@.len() == old(viewsheds)@.len(),
            final(confusion)@.len() == old(confusion)@.len(),
            // the confusion countdown, exactly
            run_state == RunState::MonsterTurn ==> forall|i: int|
                0 <= i < final(confusion)@.len() ==> final(confusion)@[i] == (if m_active(
                    monsters@,
                    old(viewsheds)@,
                    old(positions)@,
                    i,
                ) && slot_or_none(old(confusion)@, i) is Some {
                    match confusion_next(old(confusion)@[i]->Some_0.1.turns) {
                        Some(t) => Some((old(confusion)@[i]->Some_0.0, Confusion { turns: t })),
                        None => None,
                    }
                } else {
                    slot_or_none(old(confusion)@, i)
                }),
            final(melee)@.len() >= old(melee)@.len(),
            // every unconfused adjacent monster's intent slot exists, so
            // the produced intents are forced, not merely bounded
            run_state == RunState::MonsterTurn ==> forall|i: int|
                0 <= i < monsters@.len() && m_active(monsters@, old(viewsheds)@, old(positions)@, i)
                    && !(slot_or_none(old(confusion)@, i) is Some) && #[trigger] m_adjacent(
                    old(positions)@,
                    i,
                    ppos,
                ) ==> i < final(melee)@.len(),
            // melee intents appear exactly for unconfused adjacent monsters
            run_state == RunState::MonsterTurn ==> forall|i: int|
                0 <= i < final(melee)@.len() ==> final(melee)@[i] == (if m_active(
                    monsters@,
                    old(viewsheds)@,
                    old(positions)@,
                    i,
                ) && !(slot_or_none(old(confusion)@, i) is Some) && m_adjacent(
                    old(positions)@,
                    i,
                    ppos,
                ) {
                    Some((monsters@[i]->Some_0.0, WantsToMelee { target: player }))
                } else {
                    slot_or_none(old(melee)@, i)
                }),
            // a monster moves at most one step, onto a walkable in-bounds
            // tile, and only when it saw the player and was not adjacent
            run_state == RunState::MonsterTurn ==> forall|i: int|
                0 <= i < final(positions)@.len() ==> (if m_active(
                    monsters@,
                    old(viewsheds)@,
                    old(positions)@,
                    i,
                ) && !(slot_or_none(old(confusion)@, i) is Some) && !m_adjacent(
                    old(positions)@,
                    i,
                    ppos,
                ) {
                    let p0 = m_point(old(positions)@, i);
                    let p1 = m_point(final(positions)@, i);
                    &&& final(positions)@[i] is Some
                    &&& final(positions)@[i]->Some_0.0 == old(positions)@[i]->Some_0.0
                    &&& final(map).in_bounds(p1.x as int, p1.y as int)
                    &&& !(final(map).tiles@[final(map).spec_idx(p1.x as int, p1.y as int)]
                        is Wall)
                    &&& -1 <= p1.x - p0.x <= 1 && -1 <= p1.y - p0.y <= 1
                    &&& (p1 != p0 ==> old(viewsheds)@[i]->Some_0.1.visible_tiles@.contains(ppos))
                } else {
                    final(positions)@[i] == old(positions)@[i]
                }),
            // a monster that moved has its viewshed marked dirty
            run_state == RunState::MonsterTurn ==> forall|i: int|
                0 <= i < final(viewsheds)@.len() ==> (if m_active(
                    monsters@,
                    old(viewsheds)@,
                    old(positions)@,
                    i,
                ) && final(positions)@[i] != old(positions)@[i] {
                    let vs0 = old(viewsheds)@[i]->Some_0.1;
                    let vs1 = final(viewsheds)@[i]->Some_0.1;
                    &&& final(viewsheds)@[i] is Some
                    &&& final(viewsheds)@[i]->Some_0.0 == old(viewsheds)@[i]->Some_0.0
                    &&& vs1.visible_tiles@ == vs0.visible_tiles@
                    &&& vs1.range == vs0.range
                    &&& vs1.dirty
                } else {
                    final(viewsheds)@[i] == old(viewsheds)@[i]
                }),
    {
        if !matches!(run_state, RunState::MonsterTurn) {
            return ;
        }
        let n = monsters.slots.len();
        let mut i: usize = 0;
        while i < n
            invariant
                n == monsters@.len(),
                i <= n,
                map.wf(),
                map.width == old(map).width,
                map.height == old(map).height,
                map.tiles == old(map).tiles,
                map.revealed_tiles == old(map).revealed_tiles,
                map.visible_tiles == old(map).visible_tiles,
                map.tile_content == old(map).tile_content,
                map.rooms == old(map).rooms,
                map.blocked@.len() == old(map).blocked@.len(),
                forall|idx: int|
                    0 <= idx < map.tiles@.len() && map.tiles@[idx] is Wall ==> map.blocked@[idx],
                store_clean(*ents, viewsheds@),
                store_clean(*ents, positions@),
                store_clean(*ents, melee@),
                store_clean(*ents, confusion@),
                positions@.len() == old(positions)@.len(),
                viewsheds@.len() == old(viewsheds)@.len(),
                confusion@.len() == old(confusion)@.len(),
                forall|j: int| i <= j < positions@.len() ==> positions@[j] == old(positions)@[j],
                forall|j: int| i <= j < viewsheds@.len() ==> viewsheds@[j] == old(viewsheds)@[j],
                forall|j: int| i <= j < confusion@.len() ==> confusion@[j] == old(confusion)@[j],
                forall|j: int|
                    i <= j < melee@.len() ==> melee@[j] == slot_or_none(old(melee)@, j),
                melee@.len() >= old(melee)@.len(),
                forall|j: int|
                    0 <= j < i && j < confusion@.len() ==> confusion@[j] == (if m_active(
                        monsters@,
                        old(viewsheds)@,
                        old(positions)@,
                        j,
                    ) && slot_or_none(old(confusion)@, j) is Some {
                        match confusion_next(old(confusion)@[j]->Some_0.1.turns) {
                            Some(t) => Some(
                                (old(confusion)@[j]->Some_0.0, Confusion { turns: t }),
                            ),
                            None => None,
                        }
                    } else {
                        slot_or_none(old(confusion)@, j)
                    }),
                forall|j: int|
                    0 <= j < i && j < monsters@.len() && m_active(
                        monsters@,
                        old(viewsheds)@,
                        old(positions)@,
                        j,
                    ) && !(slot_or_none(old(confusion)@, j) is Some) && #[trigger] m_adjacent(
                        old(positions)@,
                        j,
                        ppos,
                    ) ==> j < melee@.len(),
                forall|j: int|
                    0 <= j < i && j < melee@.len() ==> melee@[j] == (if m_active(
                        monsters@,
                        old(viewsheds)@,
                        old(positions)@,
                        j,
                    ) && !(slot_or_none(old(confusion)@, j) is Some) && m_adjacent(
                        old(positions)@,
                        j,
                        ppos,
                    ) {
                        Some((monsters@[j]->Some_0.0, WantsToMelee { target: player }))
                    } else {
                        slot_or_none(old(melee)@, j)
                    }),
                forall|j: int|
                    0 <= j < i && j < positions@.len() ==> (if m_active(
                        monsters@,
                        old(viewsheds)@,
                        old(positions)@,
                        j,
                    ) && !(slot_or_none(old(confusion)@, j) is Some) && !m_adjacent(
                        old(positions)@,
                        j,
                        ppos,
                    ) {
                        let p0 = m_point(old(positions)@, j);
                        let p1 = m_point(positions@, j);
                        &&& positions@[j] is Some
                        &&& positions@[j]->Some_0.0 == old(positions)@[j]->Some_0.0
                        &&& map.in_bounds(p1.x as int, p1.y as int)
                        &&& !(map.tiles@[map.spec_idx(p1.x as int, p1.y as int)] is Wall)
                        &&& -1 <= p1.x - p0.x <= 1 && -1 <= p1.y - p0.y <= 1
                        &&& (p1 != p0 ==> old(
                            viewsheds,
                        )@[j]->Some_0.1.visible_tiles@.contains(ppos))
                    } else {
                        positions@[j] == old(positions)@[j]
                    }),
                forall|j: int|
                    0 <= j < i && j < viewsheds@.len() ==> (if m_active(
                        monsters@,
                        old(viewsheds)@,
                        old(positions)@,
                        j,
                    ) && positions@[j] != old(positions)@[j] {
                        let vs0 = old(viewsheds)@[j]->Some_0.1;
                        let vs1 = viewsheds@[j]->Some_0.1;
                        &&& viewsheds@[j] is Some
                        &&& viewsheds@[j]->Some_0.0 == old(viewsheds)@[j]->Some_0.0
                        &&& vs1.visible_tiles@ == vs0.visible_tiles@
                        &&& vs1.range == vs0.range
                        &&& vs1.dirty
                    } else {
                        viewsheds@[j] == old(viewsheds)@[j]
                    }),
            decreases n - i,
        {
            let is_monster = match &monsters.slots[i] {
                Some(_) => true,
                None => false,
            };
            let has_view = i < viewsheds.slots.len() && match &viewsheds.slots[i] {
                Some(_) => true,
                None => false,
            };
            let pos_entry = if i < positions.slots.len() {
                match &positions.slots[i] {
                    Some(p) => Some((p.0, p.1)),
                    None => None,
                }
            } else {
                None
            };
            match pos_entry {
                Some((g, pos)) => {
                    if is_monster && has_view {
                        proof {
                            assert(m_active(monsters@, old(viewsheds)@, old(positions)@, i as int));
                        }
                        let e = Entity { id: i, gen: g };
                        let confused = i < confusion.slots.len() && match &confusion.slots[i] {
                            Some(_) => true,
                            None => false,
                        };
                        if confused {
                            let (cg, turns) = match &confusion.slots[i] {
                                Some(c) => (c.0, c.1.turns),
                                None => (0u64, 0i32),
                            };
                            if turns <= 1 {
                                confusion.slots[i] = None;
                            } else {
                                confusion.slots[i] = Some((cg, Confusion { turns: turns - 1 }));
                            }
                        } else {
                            let dx = (ppos.x as i128) - (pos.x as i128);
                            let dy = (ppos.y as i128) - (pos.y as i128);
                            proof {
                                assert(dx * dx <= 0x2_0000_0000_0000_0000 && dy * dy
                                    <= 0x2_0000_0000_0000_0000 && 0 <= dx * dx && 0 <= dy * dy)
                                    by (nonlinear_arith)
                                    requires
                                        -0x1_0000_0000 <= dx <= 0x1_0000_0000,
                                        -0x1_0000_0000 <= dy <= 0x1_0000_0000,
                                ;
                                assert(dist2(m_point(old(positions)@, i as int), ppos) == dx * dx
                                    + dy * dy);
                            }
                            let d2 = dx * dx + dy * dy;
                            if d2 <= 2 {
                                proof {
                                    assert(m_adjacent(old(positions)@, i as int, ppos));
                                    assert(monsters@[i as int]->Some_0.0 == g);
                                }
                                melee.insert(e, WantsToMelee { target: player });
                            } else {
                                proof {
                                    assert(!m_adjacent(old(positions)@, i as int, ppos));
                                }
                                let sees = match &viewsheds.slots[i] {
                                    Some(v) => contains_point(&v.1.visible_tiles, ppos),
                                    None => false,
                                };
                                if sees {
                                    let start = map.xy_idx(pos.x, pos.y);
                                    let goal = map.xy_idx(ppos.x, ppos.y);
                                    let path = map.find_path(start, goal);
                                    if path.success && path.steps.len() > 1 {
                                        let step = path.steps[1];
                                        proof {
                                            assert(crate::path::is_path(
                                                *map,
                                                start,
                                                goal,
                                                path.steps@,
                                            ));
                                            assert(path.steps@[0] == start);
                                            assert(crate::path::adjacent(
                                                *map,
                                                start as int,
                                                step as int,
                                            ));
                                            assert(!map.blocked@[step as int]);
                                            assert(!(map.tiles@[step as int] is Wall));
                                            lemma_tile_point(*map, step as int);
                                            lemma_tile_point(*map, start as int);
                                        }
                                        let np = map.idx_point(step);
                                        proof {
                                            assert(np == tile_point(*map, step as int));
                                            assert(Point { x: pos.x, y: pos.y } == tile_point(
                                                *map,
                                                start as int,
                                            ));
                                            assert(0 <= (step as int) % (map.width as int)
                                                < (map.width as int));
                                            assert(0 <= (step as int) / (map.width as int));
                                            assert(0 <= (start as int) % (map.width as int)
                                                < (map.width as int));
                                            assert(0 <= (start as int) / (map.width as int)) by {
                                                vstd::arithmetic::div_mod::lemma_div_pos_is_pos(
                                                    start as int,
                                                    map.width as int,
                                                );
                                            }
                                            assert(np.x == crate::path::idx_x(*map, step as int)
                                                && np.y == crate::path::idx_y(*map, step as int));
                                            assert(pos.x == crate::path::idx_x(*map, start as int)
                                                && pos.y == crate::path::idx_y(
                                                *map,
                                                start as int,
                                            ));
                                            assert(-1 <= np.x - pos.x <= 1 && -1 <= np.y - pos.y
                                                <= 1);
                                            assert(map.spec_idx(np.x as int, np.y as int)
                                                == step);
                                        }
                                        map.blocked[start] = false;
                                        map.blocked[step] = true;
                                        positions.slots[i] = Some(
                                            (g, Position { x: np.x, y: np.y }),
                                        );
                                        let vs_entry = match &viewsheds.slots[i] {
                                            Some(v) => Some((v.0, v.1.range, v.1.visible_tiles.clone())),
                                            None => None,
                                        };
                                        match vs_entry {
                                            Some((vg, range, tiles)) => {
                                                proof {
                                                    assert(tiles@ =~= old(
                                                        viewsheds,
                                                    )@[i as int]->Some_0.1.visible_tiles@);
                                                }
                                                viewsheds.slots[i] = Some(
                                                    (
                                                        vg,
                                                        Viewshed {
                                                            visible_tiles: tiles,
                                                            range,
                                                            dirty: true,
                                                        },
                                                    ),
                                                );
                                            },
                                            None => {},
                                        }
                                    }
                                }
                            }
                        }
                    }
                },
                None => {},
            }
            i += 1;
        }
    }
}

/// Report whether a list of points holds `p`.
fn contains_point(v: &Vec<Point>, p: Point) -> (r: bool)
    ensures
        r == v@.contains(p),
{
    let n = v.len();
    let mut i: usize = 0;
    while i < n
        invariant
            n == v@.len(),
            i <= n,
            forall|j: int| 0 <= j < i ==> v@[j] != p,
        decreases n - i,
    {
        if v[i].x == p.x && v[i].y == p.y {
            proof {
                assert(v@[i as int] == p);
            }
            return true;
        }
        i += 1;
    }
    false
}

} // verus!
