//! The item use engine: one pending use intent is resolved into a
//! target set — the user itself, one tile's occupants, or every
//! occupant of an area-of-effect disc — and then each effect the item
//! carries is applied to that set independently: healing clamped to the
//! maximum, damage appended to pending, a confusion status inserted,
//! and equippables swapped into their slot. A consumable item is
//! deleted once any effect applied.

use vstd::prelude::*;
use crate::components::{
    AreaOfEffect, CombatStats, Confusion, Consumable, Entity, Equippable, Equipped, InBackpack,
    InflictsDamage, Name, Point, ProvidesHealing, SufferDamage, WantsToUseItem,
};
use crate::damage_system::pending_of;
use crate::fov::{field_of_view, fov_contains};
use crate::gamelog::GameLog;
use vstd::string::StringExecFns;
use crate::inventory_system::{at_most_one, entry_or_none, find_intent, intent_slot};
use crate::map::GameMap;
use crate::visibility_system::{lemma_tile_point, tile_point};
use crate::world::{slot_get, store_clean, EntityAllocator, Storage};

verus! {

/// Tile `idx` lies in the area-of-effect disc around `center`: within
/// the blast's field of view and strictly inside the map border.
pub open spec fn aoe_tile(m: GameMap, center: Point, radius: int, idx: int) -> bool {
    &&& 0 <= idx < m.tile_content@.len()
    &&& fov_contains(m, center, radius, tile_point(m, idx))
    &&& 0 < tile_point(m, idx).x < m.width - 1
    &&& 0 < tile_point(m, idx).y < m.height - 1
}

/// Entity `e` belongs to the resolved target set of a use intent.
pub open spec fn in_targets(
    m: GameMap,
    user: Entity,
    target: Option<Point>,
    aoe_item: Option<AreaOfEffect>,
    e: Entity,
) -> bool {
    match target {
        None => e == user,
        Some(pt) => match aoe_item {
            None => m.tile_content@[m.spec_idx(pt.x as int, pt.y as int)]@.contains(e),
            Some(a) => exists|idx: int|
                #[trigger] aoe_tile(m, pt, a.radius as int, idx) && m.tile_content@[idx]@.contains(
                    e,
                ),
        },
    }
}

/// Every entity cached on a tile is live.
pub open spec fn content_clean(a: EntityAllocator, m: GameMap) -> bool {
    forall|idx: int, k: int|
        0 <= idx < m.tile_content@.len() && 0 <= k < m.tile_content@[idx]@.len() ==> {
            let e = #[trigger] m.tile_content@[idx]@[k];
            &&& e.id < a.gens@.len()
            &&& a.alive@[e.id as int]
            &&& a.gens@[e.id as int] == e.gen
        }
}

/// No entity is cached on a tile twice.
pub open spec fn content_unique(m: GameMap) -> bool {
    forall|idx: int, k: int, l: int|
        0 <= idx < m.tile_content@.len() && 0 <= k < l < m.tile_content@[idx]@.len()
            ==> m.tile_content@[idx]@[k] != m.tile_content@[idx]@[l]
}

/// No entity is cached on two different tiles.
pub open spec fn content_functional(m: GameMap) -> bool {
    forall|i1: int, i2: int, e: Entity|
        0 <= i1 < m.tile_content@.len() && 0 <= i2 < m.tile_content@.len()
            && #[trigger] m.tile_content@[i1]@.contains(e) && #[trigger] m.tile_content@[i2]@.contains(
            e,
        ) ==> i1 == i2
}

/// Resolve the target set of a use intent into a list: the user when
/// the intent is untargeted, one tile's occupants for a targeted item
/// without an area, and the occupants of the blast disc otherwise.
#[verifier::loop_isolation(false)]
#[verifier::rlimit(60)]
fn resolve_targets(
    m: &GameMap,
    user: Entity,
    target: Option<Point>,
    aoe_item: Option<AreaOfEffect>,
) -> (v: Vec<Entity>)
    requires
        m.wf(),
        content_unique(*m),
        content_functional(*m),
        match target {
            None => true,
            Some(pt) => m.in_bounds(pt.x as int, pt.y as int),
        },
        match aoe_item {
            None => true,
            Some(a) => a.radius >= 0,
        },
    ensures
        forall|e: Entity| v@.contains(e) <==> in_targets(*m, user, target, aoe_item, e),
        forall|k: int, l: int| 0 <= k < l < v@.len() ==> v@[k] != v@[l],
        target is None ==> v@ =~= seq![user],
        (target is Some && aoe_item is None) ==> v@ == m.tile_content@[m.spec_idx(
            target->Some_0.x as int,
            target->Some_0.y as int,
        )]@,
{
    match target {
        None => {
            let mut v: Vec<Entity> = Vec::new();
            v.push(user);
            proof {
                assert(v@ =~= seq![user]);
                assert forall|e: Entity| v@.contains(e) <==> in_targets(
                    *m,
                    user,
                    target,
                    aoe_item,
                    e,
                ) by {
                    if v@.contains(e) {
                        let k = choose|k: int| 0 <= k < v@.len() && v@[k] == e;
                        assert(e == user);
                    }
                    if e == user {
                        assert(v@[0] == e);
                    }
                }
            }
            v
        },
        Some(pt) => {
            match aoe_item {
                None => {
                    let idx = m.xy_idx(pt.x, pt.y);
                    let v = m.tile_content[idx].clone();
                    proof {
                        assert(v@ =~= m.tile_content@[idx as int]@);
                    }
                    v
                },
                Some(a) => {
                    let disc = field_of_view(m, pt, a.radius);
                    let mut v: Vec<Entity> = Vec::new();
                    let n = disc.len();
                    let mut k: usize = 0;
                    while k < n
                        invariant
                            n == disc@.len(),
                            k <= n,
                            forall|e: Entity| #[trigger]
                                v@.contains(e) <==> exists|j: int|
                                    0 <= j < k && in_disc_tile(*m, pt, a.radius as int, disc@, j, e),
                            forall|x: int, y: int| 0 <= x < y < v@.len() ==> v@[x] != v@[y],
                        decreases n - k,
                    {
                        let p = disc[k];
                        let interior = p.x > 0 && p.x < m.width - 1 && p.y > 0 && p.y < m.height
                            - 1;
                        if interior {
                            proof {
                                assert(disc@.contains(disc@[k as int]));
                                assert(fov_contains(*m, pt, a.radius as int, p));
                            }
                            let idx = m.xy_idx(p.x, p.y);
                            proof {
                                lemma_tile_point(*m, idx as int);
                                assert(tile_point(*m, idx as int) == p);
                                assert(aoe_tile(*m, pt, a.radius as int, idx as int));
                            }
                            let row = &m.tile_content[idx];
                            let rn = row.len();
                            let mut r: usize = 0;
                            while r < rn
                                invariant
                                    rn == m.tile_content@[idx as int]@.len(),
                                    r <= rn,
                                    forall|e: Entity| #[trigger]
                                        v@.contains(e) <==> (exists|j: int|
                                            0 <= j < k && in_disc_tile(
                                                *m,
                                                pt,
                                                a.radius as int,
                                                disc@,
                                                j,
                                                e,
                                            )) || exists|x: int|
                                            0 <= x < r && m.tile_content@[idx as int]@[x] == e,
                                    forall|x: int, y: int|
                                        0 <= x < y < v@.len() ==> v@[x] != v@[y],
                                decreases rn - r,
                            {
                                let e = m.tile_content[idx][r];
                                let ghost old_v = v@;
                                let dup = contains_entity(&v, e);
                                if !dup {
                                    v.push(e);
                                    proof {
                                        assert(v@[v@.len() - 1] == e);
                                        assert forall|e2: Entity| #[trigger] v@.contains(e2)
                                            implies (old_v.contains(e2) || e2 == e) by {
                                            let x = choose|x: int|
                                                0 <= x < v@.len() && v@[x] == e2;
                                            if x < old_v.len() {
                                                assert(old_v[x] == e2);
                                            }
                                        }
                                        assert forall|e2: Entity| old_v.contains(e2)
                                            implies #[trigger] v@.contains(e2) by {
                                            let x = choose|x: int|
                                                0 <= x < old_v.len() && old_v[x] == e2;
                                            assert(v@[x] == e2);
                                        }
                                        assert forall|x: int, y: int|
                                            0 <= x < y < v@.len() implies v@[x] != v@[y] by {
                                            if y == v@.len() - 1 {
                                                assert(old_v[x] == v@[x]);
                                                assert(old_v.contains(v@[x]));
                                            }
                                        }
                                    }
                                }
                                r += 1;
                                proof {
                                    assert(m.tile_content@[idx as int]@[r - 1] == e);
                                    assert forall|e2: Entity| #[trigger] v@.contains(e2)
                                        implies ((exists|j: int|
                                        0 <= j < k && in_disc_tile(
                                            *m,
                                            pt,
                                            a.radius as int,
                                            disc@,
                                            j,
                                            e2,
                                        )) || exists|x: int|
                                        0 <= x < r && m.tile_content@[idx as int]@[x] == e2) by {
                                        if !old_v.contains(e2) {
                                            assert(e2 == e);
                                            assert(m.tile_content@[idx as int]@[r - 1] == e2);
                                        }
                                    }
                                    if dup {
                                        assert(v@.contains(e));
                                    } else {
                                        assert(v@.contains(e)) by {
                                            assert(v@[v@.len() - 1] == e);
                                        }
                                    }
                                    assert forall|e2: Entity|
                                        ((exists|j: int|
                                            0 <= j < k && in_disc_tile(
                                                *m,
                                                pt,
                                                a.radius as int,
                                                disc@,
                                                j,
                                                e2,
                                            )) || (exists|x: int|
                                            0 <= x < r && m.tile_content@[idx as int]@[x] == e2))
                                        implies #[trigger] v@.contains(e2) by {
                                        if exists|x: int|
                                            0 <= x < r && m.tile_content@[idx as int]@[x] == e2 {
                                            let x = choose|x: int|
                                                0 <= x < r && m.tile_content@[idx as int]@[x]
                                                    == e2;
                                            if x < r - 1 {
                                                assert(old_v.contains(e2));
                                            } else {
                                                assert(e2 == e);
                                            }
                                        }
                                    }
                                }
                            }
                        }
                        k += 1;
                        proof {
                            assert forall|e: Entity| #[trigger] v@.contains(e) implies exists|
                                j: int,
                            |
                                0 <= j < k && in_disc_tile(*m, pt, a.radius as int, disc@, j, e) by {
                                if interior {
                                    if exists|x: int|
                                        0 <= x < m.tile_content@[
                                            m.spec_idx(p.x as int, p.y as int)]@.len()
                                            && m.tile_content@[
                                            m.spec_idx(p.x as int, p.y as int)]@[x] == e {
                                        assert(in_disc_tile(
                                            *m,
                                            pt,
                                            a.radius as int,
                                            disc@,
                                            k - 1,
                                            e,
                                        ));
                                    }
                                }
                            }
                            assert forall|e: Entity, j: int|
                                0 <= j < k && #[trigger] in_disc_tile(
                                    *m,
                                    pt,
                                    a.radius as int,
                                    disc@,
                                    j,
                                    e,
                                ) implies v@.contains(e) by {}
                        }
                    }
                    proof {
                        assert forall|e: Entity| v@.contains(e) <==> in_targets(
                            *m,
                            user,
                            target,
                            aoe_item,
                            e,
                        ) by {
                            if v@.contains(e) {
                                let j = choose|j: int|
                                    0 <= j < n && in_disc_tile(*m, pt, a.radius as int, disc@, j, e);
                                let pj = disc@[j];
                                let idx = m.spec_idx(pj.x as int, pj.y as int);
                                lemma_tile_point(*m, idx);
                                assert(tile_point(*m, idx) == pj);
                                assert(disc@.contains(pj));
                                assert(fov_contains(*m, pt, a.radius as int, pj));
                                assert(aoe_tile(*m, pt, a.radius as int, idx)
                                    && m.tile_content@[idx]@.contains(e));
                            }
                            if in_targets(*m, user, target, aoe_item, e) {
                                let idx = choose|idx: int|
                                    #[trigger] aoe_tile(*m, pt, a.radius as int, idx)
                                        && m.tile_content@[idx]@.contains(e);
                                lemma_tile_point(*m, idx);
                                let p2 = tile_point(*m, idx);
                                assert(disc@.contains(p2));
                                let j = choose|j: int| 0 <= j < disc@.len() && disc@[j] == p2;
                                assert(m.spec_idx(disc@[j].x as int, disc@[j].y as int) == idx);
                                assert(in_disc_tile(*m, pt, a.radius as int, disc@, j, e));
                            }
                        }
                    }
                    v
                },
            }
        },
    }
}

/// Entity `e` is cached on the `j`-th disc tile, and that tile is part
/// of the blast area.
pub open spec fn in_disc_tile(
    m: GameMap,
    center: Point,
    radius: int,
    disc: Seq<Point>,
    j: int,
    e: Entity,
) -> bool {
    let idx = m.spec_idx(disc[j].x as int, disc[j].y as int);
    &&& 0 < disc[j].x < m.width - 1
    &&& 0 < disc[j].y < m.height - 1
    &&& m.in_bounds(disc[j].x as int, disc[j].y as int)
    &&& 0 <= idx < m.tile_content@.len()
    &&& m.tile_content@[idx]@.contains(e)
}

/// The combat-stats slot after healing `amount` to every target that
/// has stats: raised hit points, clamped to the maximum.
pub open spec fn healed_slot(
    stats: Seq<Option<(u64, CombatStats)>>,
    targets: Seq<Entity>,
    amount: int,
    i: int,
) -> Option<(u64, CombatStats)> {
    match stats[i] {
        Some((g, st)) => {
            if targets.contains(Entity { id: i as usize, gen: g }) {
                Some(
                    (
                        g,
                        CombatStats {
                            hp: vstd::math::min(st.max_hp as int, st.hp + amount) as i32,
                            ..st
                        },
                    ),
                )
            } else {
                stats[i]
            }
        },
        None => stats[i],
    }
}

/// Raise each target's hit points by `amount`, clamped to its maximum.
/// Returns whether any target had combat stats, which is what counts
/// as the healing effect having applied.
#[verifier::loop_isolation(false)]
fn apply_healing(stats: &mut Storage<CombatStats>, targets: &Vec<Entity>, amount: i32) -> (applied:
    bool)
    requires
        amount >= 0,
        forall|k: int, l: int|
            0 <= k < l < targets@.len() ==> (#[trigger] targets@[k]).id != (#[trigger] targets@[l]).id,
    ensures
        final(stats)@.len() == old(stats)@.len(),
        forall|i: int|
            0 <= i < final(stats)@.len() ==> final(stats)@[i] == healed_slot(
                old(stats)@,
                targets@,
                amount as int,
                i,
            ),
        applied == exists|k: int| 0 <= k < targets@.len() && old(stats).contains(#[trigger] targets@[k]),
{
    let n = targets.len();
    let sn = stats.slots.len();
    let mut applied = false;
    let mut k: usize = 0;
    while k < n
        invariant
            n == targets@.len(),
            k <= n,
            sn == stats@.len(),
            stats@.len() == old(stats)@.len(),
            forall|i: int|
                0 <= i < stats@.len() ==> stats@[i] == (if exists|x: int|
                    0 <= x < k && (#[trigger] targets@[x]).id == i {
                    healed_slot(old(stats)@, targets@, amount as int, i)
                } else {
                    old(stats)@[i]
                }),
            applied == exists|x: int| 0 <= x < k && old(stats).contains(#[trigger] targets@[x]),
        decreases n - k,
    {
        let e = targets[k];
        let ghost pre = stats@;
        proof {
            // this target's slot is untouched so far
            if e.id < stats@.len() {
                assert(stats@[e.id as int] == old(stats)@[e.id as int]) by {
                    if exists|x: int| 0 <= x < k && (#[trigger] targets@[x]).id == e.id as int {
                        let x = choose|x: int|
                            0 <= x < k && (#[trigger] targets@[x]).id == e.id as int;
                        assert(targets@[x].id == targets@[k as int].id);
                        assert(false);
                    }
                }
            }
        }
        let mut hit = false;
        match stats.get(e) {
            Some(st) => {
                let max_hp = st.max_hp;
                let defense = st.defense;
                let power = st.power;
                let hp64 = (st.hp as i64) + (amount as i64);
                let new_hp: i32 = if hp64 > (max_hp as i64) {
                    max_hp
                } else {
                    hp64 as i32
                };
                stats.slots[e.id] = Some(
                    (e.gen, CombatStats { max_hp, hp: new_hp, defense, power }),
                );
                hit = true;
                applied = true;
            },
            None => {},
        }
        k += 1;
        proof {
            assert(targets@[k - 1] == e);
            assert forall|i: int| 0 <= i < stats@.len() implies stats@[i] == (if exists|x: int|
                0 <= x < k && (#[trigger] targets@[x]).id == i {
                healed_slot(old(stats)@, targets@, amount as int, i)
            } else {
                old(stats)@[i]
            }) by {
                if i == e.id {
                    assert(targets@[k - 1].id == i);
                    if hit {
                        assert(old(stats).contains(e));
                        assert(targets@.contains(Entity { id: e.id, gen: e.gen }));
                        assert(stats@[i] == healed_slot(old(stats)@, targets@, amount as int, i));
                    } else {
                        assert(stats@[i] == old(stats)@[i]);
                        assert(healed_slot(old(stats)@, targets@, amount as int, i) == old(stats)@[i]) by {
                            match old(stats)@[i] {
                                Some((g, st)) => {
                                    if targets@.contains(Entity { id: i as usize, gen: g }) {
                                        let x = choose|x: int|
                                            0 <= x < targets@.len() && targets@[x] == (Entity {
                                                id: i as usize,
                                                gen: g,
                                            });
                                        assert(targets@[x].id == targets@[k - 1].id);
                                        assert(x == k - 1);
                                        assert(g == e.gen);
                                        assert(old(stats).contains(e));
                                        assert(false);
                                    }
                                },
                                None => {},
                            }
                        }
                    }
                } else {
                    if exists|x: int| 0 <= x < k && (#[trigger] targets@[x]).id == i {
                        let x = choose|x: int|
                            0 <= x < k && (#[trigger] targets@[x]).id == i;
                        assert(x < k - 1);
                        assert(pre[i] == healed_slot(old(stats)@, targets@, amount as int, i));
                        assert(stats@[i] == pre[i]);
                    } else {
                        assert(stats@[i] == pre[i]);
                    }
                }
            }
            if old(stats).contains(e) {
                assert(exists|x: int|
                    0 <= x < k && old(stats).contains(#[trigger] targets@[x]));
            }
            if !hit {
                assert(applied == exists|x: int|
                    0 <= x < k && old(stats).contains(#[trigger] targets@[x])) by {
                    if exists|x: int| 0 <= x < k && old(stats).contains(#[trigger] targets@[x]) {
                        let x = choose|x: int|
                            0 <= x < k && old(stats).contains(#[trigger] targets@[x]);
                        if x == k - 1 {
                            assert(false);
                        }
                    }
                }
            }
        }
    }
    proof {
        assert forall|i: int| 0 <= i < stats@.len() implies stats@[i] == healed_slot(
            old(stats)@,
            targets@,
            amount as int,
            i,
        ) by {
            if !(exists|x: int| 0 <= x < n && (#[trigger] targets@[x]).id == i) {
                match old(stats)@[i] {
                    Some((g, st)) => {
                        if targets@.contains(Entity { id: i as usize, gen: g }) {
                            let x = choose|x: int|
                                0 <= x < targets@.len() && targets@[x] == (Entity {
                                    id: i as usize,
                                    gen: g,
                                });
                            assert(targets@[x].id == i);
                            assert(false);
                        }
                    },
                    None => {},
                }
            }
        }
    }
    applied
}

/// Append `amount` to every target's pending damage.
#[verifier::loop_isolation(false)]
fn apply_damage(
    ents: &EntityAllocator,
    dmg: &mut Storage<SufferDamage>,
    targets: &Vec<Entity>,
    amount: i32,
)
    requires
        store_clean(*ents, old(dmg)@),
        forall|k: int, l: int|
            0 <= k < l < targets@.len() ==> (#[trigger] targets@[k]).id != (#[trigger] targets@[l]).id,
        forall|k: int|
            0 <= k < targets@.len() ==> {
                let e = #[trigger] targets@[k];
                &&& e.id < ents.gens@.len()
                &&& ents.alive@[e.id as int]
                &&& ents.gens@[e.id as int] == e.gen
            },
        ents.gens@.len() <= usize::MAX,
    ensures
        final(dmg)@.len() >= old(dmg)@.len(),
        store_clean(*ents, final(dmg)@),
        forall|e: Entity|
            #[trigger] pending_of(final(dmg)@, e) == pending_of(old(dmg)@, e) + (if targets@.contains(
                e,
            ) {
                seq![amount]
            } else {
                Seq::<i32>::empty()
            }),
{
    let n = targets.len();
    let mut k: usize = 0;
    while k < n
        invariant
            n == targets@.len(),
            k <= n,
            dmg@.len() >= old(dmg)@.len(),
            store_clean(*ents, dmg@),
            forall|e: Entity|
                #[trigger] pending_of(dmg@, e) == pending_of(old(dmg)@, e) + (if exists|x: int|
                    0 <= x < k && targets@[x] == e {
                    seq![amount]
                } else {
                    Seq::<i32>::empty()
                }),
        decreases n - k,
    {
        let e = targets[k];
        let ghost pre = dmg@;
        SufferDamage::new_damage(ents, dmg, e, amount);
        k += 1;
        proof {
            assert(targets@[k - 1] == e);
            assert(pending_of(pre, e) == pending_of(old(dmg)@, e)) by {
                if exists|x: int| 0 <= x < k - 1 && targets@[x] == e {
                    let x = choose|x: int| 0 <= x < k - 1 && targets@[x] == e;
                    assert(targets@[x].id == targets@[k - 1].id);
                    assert(false);
                }
            }
            assert forall|e2: Entity| #[trigger] pending_of(dmg@, e2) == pending_of(old(dmg)@, e2)
                + (if exists|x: int| 0 <= x < k && targets@[x] == e2 {
                seq![amount]
            } else {
                Seq::<i32>::empty()
            }) by {
                if e2 == e {
                    assert(pending_of(dmg@, e2) == pending_of(pre, e2).push(amount));
                    assert(pending_of(dmg@, e2) =~= pending_of(old(dmg)@, e2) + seq![amount]);
                } else if e2.id == e.id {
                    // a different generation at the same slot owns nothing
                    assert(pending_of(pre, e2) =~= Seq::<i32>::empty());
                    assert(pending_of(dmg@, e2) =~= Seq::<i32>::empty());
                    assert(!(exists|x: int| 0 <= x < k && targets@[x] == e2)) by {
                        if exists|x: int| 0 <= x < k && targets@[x] == e2 {
                            let x = choose|x: int| 0 <= x < k && targets@[x] == e2;
                            assert(targets@[x].id == targets@[k - 1].id);
                            assert(x == k - 1);
                        }
                    }
                    assert(pending_of(dmg@, e2) =~= pending_of(old(dmg)@, e2) + Seq::<
                        i32,
                    >::empty()) by {
                        assert(pending_of(old(dmg)@, e2) =~= Seq::<i32>::empty()) by {
                            if pending_of(old(dmg)@, e2).len() > 0 {
                                assert(old(dmg)@[e2.id as int]->Some_0.0 == e2.gen);
                                assert(ents.gens@[e2.id as int] == e2.gen);
                            }
                        }
                    }
                } else {
                    assert(pending_of(dmg@, e2) == pending_of(pre, e2));
                    assert(!(exists|x: int| 0 <= x < k && targets@[x] == e2) ==> !(exists|x: int|
                        0 <= x < k - 1 && targets@[x] == e2));
                    if exists|x: int| 0 <= x < k && targets@[x] == e2 {
                        let x = choose|x: int| 0 <= x < k && targets@[x] == e2;
                        assert(x < k - 1);
                    }
                }
            }
        }
    }
    proof {
        assert forall|e: Entity| #[trigger] pending_of(dmg@, e) == pending_of(old(dmg)@, e) + (
        if targets@.contains(e) {
            seq![amount]
        } else {
            Seq::<i32>::empty()
        }) by {
            if targets@.contains(e) {
                let x = choose|x: int| 0 <= x < targets@.len() && targets@[x] == e;
            }
            if exists|x: int| 0 <= x < n && targets@[x] == e {
                let x = choose|x: int| 0 <= x < n && targets@[x] == e;
                assert(targets@.contains(e));
            }
        }
    }
}

/// Put a fresh confusion status on every target.
#[verifier::loop_isolation(false)]
fn apply_confusion(
    ents: &EntityAllocator,
    confusion: &mut Storage<Confusion>,
    targets: &Vec<Entity>,
    turns: i32,
)
    requires
        forall|k: int, l: int|
            0 <= k < l < targets@.len() ==> (#[trigger] targets@[k]).id != (#[trigger] targets@[l]).id,
        forall|k: int|
            0 <= k < targets@.len() ==> {
                let e = #[trigger] targets@[k];
                &&& e.id < ents.gens@.len()
                &&& ents.alive@[e.id as int]
                &&& ents.gens@[e.id as int] == e.gen
            },
        ents.gens@.len() <= usize::MAX,
    ensures
        final(confusion)@.len() >= old(confusion)@.len(),
        forall|k: int|
            0 <= k < targets@.len() ==> {
                let e = #[trigger] targets@[k];
                &&& final(confusion).contains(e)
                &&& final(confusion).value(e) == (Confusion { turns })
            },
        forall|i: int|
            0 <= i < final(confusion)@.len() && !(exists|k: int|
                0 <= k < targets@.len() && (#[trigger] targets@[k]).id == i) ==> final(confusion)@[i] == entry_or_none(old(confusion)@, i),
{
    let n = targets.len();
    let mut k: usize = 0;
    while k < n
        invariant
            n == targets@.len(),
            k <= n,
            confusion@.len() >= old(confusion)@.len(),
            forall|x: int|
                0 <= x < k ==> {
                    let e = #[trigger] targets@[x];
                    &&& confusion.contains(e)
                    &&& confusion.value(e) == (Confusion { turns })
                },
            forall|i: int|
                0 <= i < confusion@.len() && !(exists|x: int|
                    0 <= x < k && (#[trigger] targets@[x]).id == i) ==> confusion@[i]
                    == entry_or_none(old(confusion)@, i),
        decreases n - k,
    {
        let e = targets[k];
        confusion.insert(e, Confusion { turns });
        k += 1;
        proof {
            assert(targets@[k - 1] == e);
            assert forall|x: int| 0 <= x < k implies {
                let e2 = #[trigger] targets@[x];
                &&& confusion.contains(e2)
                &&& confusion.value(e2) == (Confusion { turns })
            } by {
                if x < k - 1 {
                    assert(targets@[x].id != e.id);
                }
            }
            assert forall|i: int|
                0 <= i < confusion@.len() && !(exists|x: int|
                    0 <= x < k && (#[trigger] targets@[x]).id == i) implies confusion@[i]
                == entry_or_none(old(confusion)@, i) by {
                assert(i != e.id);
            }
        }
    }
}

/// Equip `item` into `slot` on `wearer`: whatever the wearer had in
/// that slot moves back into its backpack, the item becomes equipped,
/// and the item leaves the backpack.
#[verifier::loop_isolation(false)]
fn apply_equip(
    equipped: &mut Storage<Equipped>,
    backpacks: &mut Storage<InBackpack>,
    item: Entity,
    wearer: Entity,
    slot: crate::components::EquipSlot,
)
    requires
        item.id < usize::MAX,
        old(equipped)@.len() <= usize::MAX,
        (match entry_or_none(old(equipped)@, item.id as int) {
            Some(p) => p.0 == item.gen,
            None => true,
        }),
        (match entry_or_none(old(backpacks)@, item.id as int) {
            Some(p) => p.0 == item.gen,
            None => true,
        }),
    ensures
        final(equipped)@.len() == vstd::math::max(old(equipped)@.len() as int, item.id + 1 as int),
        forall|i: int|
            0 <= i < final(equipped)@.len() ==> final(equipped)@[i] == (if i == item.id {
                Some((item.gen, Equipped { owner: wearer, slot }))
            } else {
                match entry_or_none(old(equipped)@, i) {
                    Some(p) => {
                        if p.1.owner == wearer && p.1.slot == slot {
                            None
                        } else {
                            entry_or_none(old(equipped)@, i)
                        }
                    },
                    None => None,
                }
            }),
        final(backpacks)@.len() >= old(backpacks)@.len(),
        !final(backpacks).contains(item),
        forall|i: int|
            (match #[trigger] entry_or_none(old(equipped)@, i) {
                Some(p) => p.1.owner == wearer && p.1.slot == slot,
                None => false,
            }) && i != item.id ==> i < final(backpacks)@.len(),
        forall|i: int|
            0 <= i < final(backpacks)@.len() ==> final(backpacks)@[i] == (if i == item.id {
                None
            } else {
                match entry_or_none(old(equipped)@, i) {
                    Some(p) => {
                        if p.1.owner == wearer && p.1.slot == slot {
                            Some((p.0, InBackpack { owner: wearer }))
                        } else {
                            entry_or_none(old(backpacks)@, i)
                        }
                    },
                    None => entry_or_none(old(backpacks)@, i)
                }
            }),
{
    let n = equipped.slots.len();
    let mut i: usize = 0;
    while i < n
        invariant
            n == equipped@.len(),
            n == old(equipped)@.len(),
            i <= n,
            backpacks@.len() >= old(backpacks)@.len(),
            forall|j: int|
                0 <= j < n ==> equipped@[j] == (if j < i {
                    match old(equipped)@[j] {
                        Some(p) => {
                            if p.1.owner == wearer && p.1.slot == slot {
                                None
                            } else {
                                old(equipped)@[j]
                            }
                        },
                        None => None,
                    }
                } else {
                    old(equipped)@[j]
                }),
            forall|j: int|
                0 <= j < i && (match #[trigger] entry_or_none(old(equipped)@, j) {
                    Some(p) => p.1.owner == wearer && p.1.slot == slot,
                    None => false,
                }) ==> j < backpacks@.len(),
            forall|j: int|
                0 <= j < backpacks@.len() ==> backpacks@[j] == (if j < i {
                    match entry_or_none(old(equipped)@, j) {
                        Some(p) => {
                            if p.1.owner == wearer && p.1.slot == slot {
                                Some((p.0, InBackpack { owner: wearer }))
                            } else {
                                entry_or_none(old(backpacks)@, j)
                            }
                        },
                        None => entry_or_none(old(backpacks)@, j)
                    }
                } else {
                    entry_or_none(old(backpacks)@, j)
                }),
        decreases n - i,
    {
        let worn = match &equipped.slots[i] {
            Some(p) => {
                if p.1.owner.id == wearer.id && p.1.owner.gen == wearer.gen && matches_slot(
                    p.1.slot,
                    slot,
                ) {
                    Some((p.0, p.1))
                } else {
                    None
                }
            },
            None => None,
        };
        match worn {
            Some((g, _w)) => {
                proof {
                    assert(old(equipped)@[i as int]->Some_0.1.owner == wearer);
                }
                equipped.slots[i] = None;
                backpacks.insert(Entity { id: i, gen: g }, InBackpack { owner: wearer });
            },
            None => {},
        }
        i += 1;
    }
    let ghost bp_mid = backpacks@;
    equipped.insert(item, Equipped { owner: wearer, slot });
    backpacks.remove(item);
    proof {
        assert(!final(backpacks).contains(item));
        assert forall|j: int| 0 <= j < backpacks@.len() implies backpacks@[j] == (if j == item.id {
            None::<(u64, InBackpack)>
        } else {
            match entry_or_none(old(equipped)@, j) {
                Some(p) => {
                    if p.1.owner == wearer && p.1.slot == slot {
                        Some((p.0, InBackpack { owner: wearer }))
                    } else {
                        entry_or_none(old(backpacks)@, j)
                    }
                },
                None => entry_or_none(old(backpacks)@, j),
            }
        }) by {
            if j == item.id {
                if bp_mid[j] is Some {
                    assert(bp_mid[j]->Some_0.0 == item.gen);
                }
                assert(backpacks@[j] is None);
            }
        }
    }
}

/// Report whether two equipment slots are the same.
fn matches_slot(a: crate::components::EquipSlot, b: crate::components::EquipSlot) -> (r: bool)
    ensures
        r == (a == b),
{
    match (a, b) {
        (crate::components::EquipSlot::Melee, crate::components::EquipSlot::Melee) => true,
        (crate::components::EquipSlot::Shield, crate::components::EquipSlot::Shield) => true,
        _ => false,
    }
}

/// The equipped-items slot the equip effect leaves at index `i`.
pub open spec fn equipped_after(
    old_eq: Seq<Option<(u64, Equipped)>>,
    item: Entity,
    t0: Entity,
    slot: crate::components::EquipSlot,
    i: int,
) -> Option<(u64, Equipped)> {
    if i == item.id {
        Some((item.gen, Equipped { owner: t0, slot }))
    } else {
        match entry_or_none(old_eq, i) {
            Some(p) => {
                if p.1.owner == t0 && p.1.slot == slot {
                    None
                } else {
                    entry_or_none(old_eq, i)
                }
            },
            None => None,
        }
    }
}

/// The backpack slot the equip effect leaves at index `i`.
pub open spec fn backpack_after_equip(
    old_eq: Seq<Option<(u64, Equipped)>>,
    old_bp: Seq<Option<(u64, InBackpack)>>,
    item: Entity,
    t0: Entity,
    slot: crate::components::EquipSlot,
    i: int,
) -> Option<(u64, InBackpack)> {
    if i == item.id {
        None
    } else {
        match entry_or_none(old_eq, i) {
            Some(p) => {
                if p.1.owner == t0 && p.1.slot == slot {
                    Some((p.0, InBackpack { owner: t0 }))
                } else {
                    entry_or_none(old_bp, i)
                }
            },
            None => entry_or_none(old_bp, i),
        }
    }
}

/// The item use pass.
pub struct ItemUseSystem {}

impl ItemUseSystem {
    /// Serve the pending use intent, if any: resolve the target set,
    /// apply each effect the item carries to it, log the player's use,
    /// queue a consumable for deletion once anything applied, and clear
    /// the intent.
    #[verifier::loop_isolation(false)]
    #[verifier::rlimit(100)]
    pub fn run(
        map: &GameMap,
        player: Entity,
        log: &mut GameLog,
        ents: &mut EntityAllocator,
        uses: &mut Storage<WantsToUseItem>,
        names: &Storage<Name>,
        consumables: &Storage<Consumable>,
        healing: &Storage<ProvidesHealing>,
        inflicts: &Storage<InflictsDamage>,
        stats: &mut Storage<CombatStats>,
        dmg: &mut Storage<SufferDamage>,
        aoe: &Storage<AreaOfEffect>,
        confusion: &mut Storage<Confusion>,
        equippables: &Storage<Equippable>,
        equipped: &mut Storage<Equipped>,
        backpacks: &mut Storage<InBackpack>,
    )
        requires
            map.wf(),
            at_most_one(old(uses)@),
            content_clean(*old(ents), *map),
            content_unique(*map),
            content_functional(*map),
            store_clean(*old(ents), old(uses)@),
            store_clean(*old(ents), old(dmg)@),
            store_clean(*old(ents), old(equipped)@),
            store_clean(*old(ents), old(backpacks)@),
            store_clean(*old(ents), equippables@),
            forall|i: int|
                0 <= i < healing@.len() && healing@[i] is Some ==> (#[trigger] healing@[i])->Some_0.1.heal_amount
                    >= 0,
            forall|i: int|
                0 <= i < aoe@.len() && aoe@[i] is Some ==> (#[trigger] aoe@[i])->Some_0.1.radius
                    >= 0,
            forall|i: int|
                0 <= i < old(uses)@.len() && (#[trigger] old(uses)@[i]) is Some ==> (match old(uses)@[i]->Some_0.1.target {
                    Some(pt) => map.in_bounds(pt.x as int, pt.y as int),
                    None => true,
                }),
            forall|i: int|
                0 <= i < old(uses)@.len() && (#[trigger] old(uses)@[i]) is Some && (Entity {
                    id: i as usize,
                    gen: old(uses)@[i]->Some_0.0,
                }) == player ==> names.contains(old(uses)@[i]->Some_0.1.item),
        ensures
            final(uses)@.len() == old(uses)@.len(),
            final(uses).is_clear(),
            old(log).entries@.is_prefix_of(final(log).entries@),
            final(ents).gens == old(ents).gens,
            final(ents).alive == old(ents).alive,
            final(ents).free == old(ents).free,
            match intent_slot(old(uses)@) {
                None => {
                    &&& final(stats)@ == old(stats)@
                    &&& final(dmg)@ == old(dmg)@
                    &&& final(confusion)@ == old(confusion)@
                    &&& final(equipped)@ == old(equipped)@
                    &&& final(backpacks)@ == old(backpacks)@
                    &&& final(ents).pending == old(ents).pending
                    &&& final(log).entries@ == old(log).entries@
                },
                Some(j) => {
                    let user = (Entity { id: j as usize, gen: old(uses)@[j]->Some_0.0 });
                    let intent = old(uses)@[j]->Some_0.1;
                    let item = intent.item;
                    let aoe_item = slot_get(aoe@, item);
                    let heal = slot_get(healing@, item);
                    let inflict = slot_get(inflicts@, item);
                    let conf = slot_get(old(confusion)@, item);
                    let equip = slot_get(equippables@, item);
                    let some_target = exists|e: Entity|
                        in_targets(*map, user, intent.target, aoe_item, e);
                    let applied = (heal is Some && exists|e: Entity|
                        in_targets(*map, user, intent.target, aoe_item, e) && old(stats).contains(
                            e,
                        )) || ((inflict is Some || conf is Some || equip is Some) && some_target);
                    &&& final(stats)@.len() == old(stats)@.len()
                    // healing raises each statted target, clamped to max
                    &&& forall|i: int|
                        0 <= i < final(stats)@.len() ==> final(stats)@[i] == (match old(stats)@[i] {
                            Some((g, st)) => {
                                if heal is Some && in_targets(
                                    *map,
                                    user,
                                    intent.target,
                                    aoe_item,
                                    Entity { id: i as usize, gen: g },
                                ) {
                                    Some(
                                        (
                                            g,
                                            CombatStats {
                                                hp: vstd::math::min(
                                                    st.max_hp as int,
                                                    st.hp + heal->Some_0.heal_amount,
                                                ) as i32,
                                                ..st
                                            },
                                        ),
                                    )
                                } else {
                                    old(stats)@[i]
                                }
                            },
                            None => old(stats)@[i],
                        })
                    // damage appends one entry per target
                    &&& forall|e: Entity|
                        #[trigger] pending_of(final(dmg)@, e) == pending_of(old(dmg)@, e) + (
                        if inflict is Some && in_targets(*map, user, intent.target, aoe_item, e) {
                            seq![inflict->Some_0.damage]
                        } else {
                            Seq::<i32>::empty()
                        })
                    // confusion lands on every target
                    &&& (conf is Some ==> forall|e: Entity|
                        #[trigger] in_targets(*map, user, intent.target, aoe_item, e) ==> final(confusion).contains(e) && final(confusion).value(e) == (Confusion {
                            turns: conf->Some_0.turns,
                        }))
                    &&& (conf is Some ==> forall|i: int|
                        0 <= i < final(confusion)@.len() && !(exists|e: Entity|
                            #[trigger] in_targets(*map, user, intent.target, aoe_item, e) && e.id
                                == i) ==> final(confusion)@[i] == entry_or_none(old(confusion)@, i))
                    &&& (conf is None ==> final(confusion)@ == old(confusion)@)
                    // an equippable goes onto the first target
                    &&& (match equip {
                        Some(eq) => {
                            if intent.target is None {
                                &&& final(equipped)@.len() == vstd::math::max(
                                    old(equipped)@.len() as int,
                                    item.id + 1 as int,
                                )
                                &&& forall|i: int|
                                    0 <= i < final(equipped)@.len() ==> final(equipped)@[i]
                                        == equipped_after(old(equipped)@, item, user, eq.slot, i)
                                &&& forall|i: int|
                                    0 <= i < final(backpacks)@.len() ==> final(backpacks)@[i]
                                        == backpack_after_equip(
                                        old(equipped)@,
                                        old(backpacks)@,
                                        item,
                                        user,
                                        eq.slot,
                                        i,
                                    )
                                &&& !final(backpacks).contains(item)
                                &&& forall|i: int|
                                    (match #[trigger] entry_or_none(old(equipped)@, i) {
                                        Some(p) => p.1.owner == user && p.1.slot == eq.slot,
                                        None => false,
                                    }) && i != item.id ==> i < final(backpacks)@.len()
                            } else if some_target {
                                exists|t0: Entity|
                                    {
                                        &&& #[trigger] in_targets(
                                            *map,
                                            user,
                                            intent.target,
                                            aoe_item,
                                            t0,
                                        )
                                        // a single-tile target pins the
                                        // wearer: the first occupant of
                                        // the aimed tile
                                        &&& (aoe_item is None ==> t0 == map.tile_content@[map.spec_idx(
                                            intent.target->Some_0.x as int,
                                            intent.target->Some_0.y as int,
                                        )]@[0])
                                        &&& final(equipped)@.len() == vstd::math::max(
                                            old(equipped)@.len() as int,
                                            item.id + 1 as int,
                                        )
                                        &&& forall|i: int|
                                            0 <= i < final(equipped)@.len() ==> final(equipped)@[i] == equipped_after(
                                                old(equipped)@,
                                                item,
                                                t0,
                                                eq.slot,
                                                i,
                                            )
                                        &&& forall|i: int|
                                            0 <= i < final(backpacks)@.len() ==> final(backpacks)@[i] == backpack_after_equip(
                                                old(equipped)@,
                                                old(backpacks)@,
                                                item,
                                                t0,
                                                eq.slot,
                                                i,
                                            )
                                        &&& forall|i: int|
                                            (match #[trigger] entry_or_none(old(equipped)@, i) {
                                                Some(p) => p.1.owner == t0 && p.1.slot
                                                    == eq.slot,
                                                None => false,
                                            }) && i != item.id ==> i < final(backpacks)@.len()
                                    }
                            } else {
                                final(equipped)@ == old(equipped)@ && final(backpacks)@ == old(backpacks)@
                            }
                        },
                        None => final(equipped)@ == old(equipped)@ && final(backpacks)@ == old(backpacks)@,
                    })
                    // a consumable is deleted once anything applied
                    &&& (consumables.contains(item) && applied ==> final(ents).pending@ == old(ents).pending@.push(item))
                    &&& (!(consumables.contains(item) && applied) ==> final(ents).pending@ == old(ents).pending@)
                },
            },
    {
        let found = find_intent(uses);
        match found {
            Some(j) => {
                let (g, intent) = match &uses.slots[j] {
                    Some(p) => (p.0, (p.1.item, p.1.target)),
                    None => (0u64, (player, None)),
                };
                let user = Entity { id: j, gen: g };
                let item = intent.0;
                let target = intent.1;
                let aoe_item = match aoe.get(item) {
                    Some(a) => Some(*a),
                    None => None,
                };
                proof {
                    assert(slot_get(aoe@, item) == aoe_item);
                }
                let targets = resolve_targets(map, user, target, aoe_item);
                proof {
                    // every target is a live entity, and ids never repeat
                    assert forall|k: int| 0 <= k < targets@.len() implies {
                        let e = #[trigger] targets@[k];
                        &&& e.id < ents.gens@.len()
                        &&& ents.alive@[e.id as int]
                        &&& ents.gens@[e.id as int] == e.gen
                    } by {
                        assert(targets@.contains(targets@[k]));
                        let e = targets@[k];
                        assert(in_targets(*map, user, target, aoe_item, e));
                        match target {
                            None => {
                                assert(e == user);
                                assert(old(uses)@[j as int] is Some);
                            },
                            Some(pt) => {
                                if aoe_item is None {
                                    let idx = map.spec_idx(pt.x as int, pt.y as int);
                                    map.lemma_idx_in_range(pt.x as int, pt.y as int);
                                    let x = choose|x: int|
                                        0 <= x < map.tile_content@[idx]@.len()
                                            && map.tile_content@[idx]@[x] == e;
                                    assert(map.tile_content@[idx]@[x] == e);
                                } else {
                                    let idx = choose|idx: int|
                                        #[trigger] aoe_tile(
                                            *map,
                                            pt,
                                            aoe_item->Some_0.radius as int,
                                            idx,
                                        ) && map.tile_content@[idx]@.contains(e);
                                    let x = choose|x: int|
                                        0 <= x < map.tile_content@[idx]@.len()
                                            && map.tile_content@[idx]@[x] == e;
                                    assert(map.tile_content@[idx]@[x] == e);
                                }
                            },
                        }
                    }
                    assert forall|k: int, l: int| 0 <= k < l < targets@.len() implies (
                    #[trigger] targets@[k]).id != (#[trigger] targets@[l]).id by {
                        if targets@[k].id == targets@[l].id {
                            assert(targets@[k].gen == ents.gens@[targets@[k].id as int]);
                            assert(targets@[l].gen == ents.gens@[targets@[l].id as int]);
                            assert(targets@[k] == targets@[l]);
                        }
                    }
                }
                let gen_cap = ents.gens.len();
                let mut applied = false;
                let mut heal_applied = false;
                // healing
                match healing.get(item) {
                    Some(h) => {
                        let amount = h.heal_amount;
                        heal_applied = apply_healing(stats, &targets, amount);
                        if heal_applied {
                            applied = true;
                        }
                    },
                    None => {},
                }
                // damage
                match inflicts.get(item) {
                    Some(d) => {
                        let amount = d.damage;
                        apply_damage(ents, dmg, &targets, amount);
                        if targets.len() > 0 {
                            applied = true;
                        }
                    },
                    None => {},
                }
                // confusion
                let conf_item = match confusion.get(item) {
                    Some(c) => Some(*c),
                    None => None,
                };
                proof {
                    assert(slot_get(old(confusion)@, item) == conf_item);
                }
                match conf_item {
                    Some(c) => {
                        apply_confusion(ents, confusion, &targets, c.turns);
                        if targets.len() > 0 {
                            applied = true;
                        }
                    },
                    None => {},
                }
                // equipping
                let eq_item = match equippables.get(item) {
                    Some(eq) => Some(*eq),
                    None => None,
                };
                match eq_item {
                    Some(eq) => {
                        let ecap = equipped.slots.len();
                        if targets.len() > 0 {
                            let wearer = targets[0];
                            proof {
                                assert(targets@.contains(targets@[0]));
                                assert(in_targets(*map, user, target, aoe_item, targets@[0]));
                                assert(equippables.contains(item));
                                assert(item.id < ents.gens@.len() && ents.gens@[item.id as int]
                                    == item.gen);
                            }
                            apply_equip(equipped, backpacks, item, wearer, eq.slot);
                            applied = true;
                        }
                    },
                    None => {},
                }
                // consumption
                if applied && consumables.has(item) {
                    ents.delete(item);
                }
                proof {
                    let juse = j as int;
                    assert(intent_slot(old(uses)@) == Some(juse));
                    assert(old(uses)@[juse]->Some_0.1.item == item);
                    assert(old(uses)@[juse]->Some_0.1.target == target);
                    let some_target = exists|e: Entity|
                        in_targets(*map, user, target, aoe_item, e);
                    assert((targets@.len() > 0) == some_target) by {
                        if targets@.len() > 0 {
                            assert(targets@.contains(targets@[0]));
                            assert(in_targets(*map, user, target, aoe_item, targets@[0]));
                        }
                        if some_target {
                            let e = choose|e: Entity| in_targets(*map, user, target, aoe_item, e);
                            assert(targets@.contains(e));
                        }
                    }
                    // healing: list membership is target membership
                    match slot_get(healing@, item) {
                        Some(h) => {
                            assert forall|i: int| 0 <= i < stats@.len() implies stats@[i] == (
                            match old(stats)@[i] {
                                Some((g2, st)) => {
                                    if in_targets(
                                        *map,
                                        user,
                                        target,
                                        aoe_item,
                                        Entity { id: i as usize, gen: g2 },
                                    ) {
                                        Some(
                                            (
                                                g2,
                                                CombatStats {
                                                    hp: vstd::math::min(
                                                        st.max_hp as int,
                                                        st.hp + h.heal_amount,
                                                    ) as i32,
                                                    ..st
                                                },
                                            ),
                                        )
                                    } else {
                                        old(stats)@[i]
                                    }
                                },
                                None => old(stats)@[i],
                            }) by {
                                assert(stats@[i] == healed_slot(
                                    old(stats)@,
                                    targets@,
                                    h.heal_amount as int,
                                    i,
                                ));
                            }
                            assert(heal_applied == (exists|e: Entity|
                                in_targets(*map, user, target, aoe_item, e) && old(
                                    stats,
                                ).contains(e))) by {
                                if heal_applied {
                                    let k = choose|k: int|
                                        0 <= k < targets@.len() && old(stats).contains(
                                            #[trigger] targets@[k],
                                        );
                                    assert(targets@.contains(targets@[k]));
                                }
                                if exists|e: Entity|
                                    in_targets(*map, user, target, aoe_item, e) && old(
                                        stats,
                                    ).contains(e) {
                                    let e = choose|e: Entity|
                                        in_targets(*map, user, target, aoe_item, e) && old(
                                            stats,
                                        ).contains(e);
                                    assert(targets@.contains(e));
                                    let k = choose|k: int|
                                        0 <= k < targets@.len() && targets@[k] == e;
                                    assert(old(stats).contains(targets@[k]));
                                }
                            }
                        },
                        None => {},
                    }
                    // damage: list membership is target membership
                    match slot_get(inflicts@, item) {
                        Some(d) => {
                            assert forall|e: Entity| #[trigger] pending_of(dmg@, e) == pending_of(
                                old(dmg)@,
                                e,
                            ) + (if in_targets(*map, user, target, aoe_item, e) {
                                seq![d.damage]
                            } else {
                                Seq::<i32>::empty()
                            }) by {
                                assert(targets@.contains(e) == in_targets(
                                    *map,
                                    user,
                                    target,
                                    aoe_item,
                                    e,
                                ));
                            }
                        },
                        None => {},
                    }
                    // confusion: every target got the fresh status
                    match conf_item {
                        Some(c) => {
                            assert forall|e: Entity| #[trigger] in_targets(
                                *map,
                                user,
                                target,
                                aoe_item,
                                e,
                            ) implies confusion.contains(e) && confusion.value(e) == (Confusion {
                                turns: c.turns,
                            }) by {
                                assert(targets@.contains(e));
                                let k = choose|k: int|
                                    0 <= k < targets@.len() && targets@[k] == e;
                                assert(targets@[k] == e);
                            }
                            assert forall|i: int|
                                0 <= i < confusion@.len() && !(exists|e: Entity|
                                    #[trigger] in_targets(*map, user, target, aoe_item, e) && e.id
                                        == i) implies confusion@[i] == entry_or_none(
                                old(confusion)@,
                                i,
                            ) by {
                                assert(!(exists|k: int|
                                    0 <= k < targets@.len() && (#[trigger] targets@[k]).id == i))
                                    by {
                                    if exists|k: int|
                                        0 <= k < targets@.len() && (#[trigger] targets@[k]).id
                                            == i {
                                        let k = choose|k: int|
                                            0 <= k < targets@.len() && (#[trigger] targets@[k]).id
                                                == i;
                                        assert(targets@.contains(targets@[k]));
                                        assert(in_targets(
                                            *map,
                                            user,
                                            target,
                                            aoe_item,
                                            targets@[k],
                                        ));
                                    }
                                }
                            }
                        },
                        None => {},
                    }
                    // equipping: the wearer of the untargeted case is the user
                    match eq_item {
                        Some(eq) => {
                            if targets.len() > 0 {
                                assert(targets@.contains(targets@[0]));
                                assert(in_targets(*map, user, target, aoe_item, targets@[0]));
                                if target is None {
                                    assert(targets@[0] == user);
                                }
                            }
                        },
                        None => {},
                    }
                }
                // the player's use is logged
                if user.id == player.id && user.gen == player.gen {
                    let line = match names.get(item) {
                        Some(nm) => use_line(nm),
                        None => String::new(),
                    };
                    log.entries.push(line);
                }
                uses.clear();
            },
            None => {
                uses.clear();
            },
        }
    }
}

/// Build the item use message for the log.
fn use_line(name: &Name) -> (r: String)
    ensures
        r@ == "You use the "@ + name.name@ + "."@,
{
    let mut s = String::from_str("You use the ");
    s.append(name.name.as_str());
    s.append(".");
    s
}

/// Report whether a list of entities holds `e`.
fn contains_entity(v: &Vec<Entity>, e: Entity) -> (r: bool)
    ensures
        r == v@.contains(e),
{
    let n = v.len();
    let mut i: usize = 0;
    while i < n
        invariant
            n == v@.len(),
            i <= n,
            forall|j: int| 0 <= j < i ==> v@[j] != e,
        decreases n - i,
    {
        if v[i].id == e.id && v[i].gen == e.gen {
            proof {
                assert(v@[i as int] == e);
            }
            return true;
        }
        i += 1;
    }
    false
}

} // verus!
