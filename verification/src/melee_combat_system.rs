//! Melee resolution: every melee intent whose attacker and target both
//! still have combat stats lands a hit of `power - defense` damage when
//! that difference is positive, appended to the target's pending damage.
//! Every melee intent is cleared by the pass, landed or not.

use vstd::prelude::*;
use crate::components::{CombatStats, Entity, SufferDamage, WantsToMelee};
use crate::damage_system::pending_of;
use crate::world::{slot_get, store_clean, EntityAllocator, Storage};

verus! {

/// The damage a landed hit deals before the positivity check: the
/// attacker's power less the target's defense, saturated into `i32`.
pub open spec fn melee_damage(att: CombatStats, tgt: CombatStats) -> int {
    crate::damage_system::sat_i32(att.power - tgt.defense)
}

/// What the attacker in slot `i` appends to `t`'s pending damage: one
/// entry when its intent targets `t`, both combatants have stats, and
/// the damage is positive; nothing otherwise.
pub open spec fn melee_contrib(
    melee: Seq<Option<(u64, WantsToMelee)>>,
    stats: Seq<Option<(u64, CombatStats)>>,
    i: int,
    t: Entity,
) -> Seq<i32> {
    if melee[i] is Some && melee[i]->Some_0.1.target == t && slot_get(
        stats,
        Entity { id: i as usize, gen: melee[i]->Some_0.0 },
    ) is Some && slot_get(stats, t) is Some && melee_damage(
        slot_get(stats, Entity { id: i as usize, gen: melee[i]->Some_0.0 })->Some_0,
        slot_get(stats, t)->Some_0,
    ) > 0 {
        seq![
            melee_damage(
                slot_get(stats, Entity { id: i as usize, gen: melee[i]->Some_0.0 })->Some_0,
                slot_get(stats, t)->Some_0,
            ) as i32,
        ]
    } else {
        Seq::empty()
    }
}

/// Everything the attackers in slots `0 .. n` append to `t`'s pending
/// damage, in ascending attacker order.
pub open spec fn melee_adds(
    melee: Seq<Option<(u64, WantsToMelee)>>,
    stats: Seq<Option<(u64, CombatStats)>>,
    t: Entity,
    n: int,
) -> Seq<i32>
    decreases n,
{
    if n <= 0 {
        Seq::empty()
    } else {
        melee_adds(melee, stats, t, n - 1) + melee_contrib(melee, stats, n - 1, t)
    }
}

/// The melee pass.
pub struct MeleeCombatSystem {}

impl MeleeCombatSystem {
    /// Turn every melee intent into pending damage and clear the
    /// intents. `ents` only witnesses that the stores hold no stale
    /// slots, so an append can never resurrect a deleted handle.
    pub fn run(
        ents: &EntityAllocator,
        melee: &mut Storage<WantsToMelee>,
        stats: &Storage<CombatStats>,
        dmg: &mut Storage<SufferDamage>,
    )
        requires
            store_clean(*ents, old(melee)@),
            store_clean(*ents, stats@),
            store_clean(*ents, old(dmg)@),
        ensures
            final(melee)@.len() == old(melee)@.len(),
            final(melee).is_clear(),
            final(dmg)@.len() >= old(dmg)@.len(),
            store_clean(*ents, final(dmg)@),
            forall|t: Entity|
                #[trigger] pending_of(final(dmg)@, t) == pending_of(old(dmg)@, t) + melee_adds(
                    old(melee)@,
                    stats@,
                    t,
                    old(melee)@.len() as int,
                ),
    {
        let n = melee.slots.len();
        let ns = stats.slots.len();
        let mut i: usize = 0;
        while i < n
            invariant
                n == melee@.len(),
                ns == stats@.len(),
                melee@ == old(melee)@,
                i <= n,
                dmg@.len() >= old(dmg)@.len(),
                store_clean(*ents, stats@),
                store_clean(*ents, dmg@),
                forall|t: Entity|
                    #[trigger] pending_of(dmg@, t) == pending_of(old(dmg)@, t) + melee_adds(
                        old(melee)@,
                        stats@,
                        t,
                        i as int,
                    ),
            decreases n - i,
        {
            let ghost dmg_pre = dmg@;
            let intent = match &melee.slots[i] {
                Some(p) => Some((p.0, p.1.target)),
                None => None,
            };
            match intent {
                Some((g, target)) => {
                    let attacker = Entity { id: i, gen: g };
                    let att_stats = stats.get(attacker);
                    let tgt_stats = stats.get(target);
                    match (att_stats, tgt_stats) {
                        (Some(att), Some(tgt)) => {
                            proof {
                                assert(slot_get(stats@, attacker) == Some(*att));
                                assert(slot_get(stats@, target) == Some(*tgt));
                            }
                            let diff = (att.power as i64) - (tgt.defense as i64);
                            let damage: i32 = if diff > (i32::MAX as i64) {
                                i32::MAX
                            } else if diff < (i32::MIN as i64) {
                                i32::MIN
                            } else {
                                diff as i32
                            };
                            proof {
                                assert(damage == melee_damage(*att, *tgt));
                            }
                            if damage > 0 {
                                proof {
                                    // the target is live, so no stale slot
                                    // is overwritten by the append
                                    assert(stats@[target.id as int] is Some);
                                    assert(ents.alive@[target.id as int] && ents.gens@[target.id as int]
                                        == target.gen);
                                }
                                SufferDamage::new_damage(ents, dmg, target, damage);
                            }
                        },
                        _ => {},
                    }
                },
                None => {},
            }
            i += 1;
            proof {
                assert forall|t: Entity| #[trigger] pending_of(dmg@, t) == pending_of(old(dmg)@, t)
                    + melee_adds(old(melee)@, stats@, t, i as int) by {
                    assert(melee_adds(old(melee)@, stats@, t, i as int) == melee_adds(
                        old(melee)@,
                        stats@,
                        t,
                        i - 1,
                    ) + melee_contrib(old(melee)@, stats@, i - 1, t));
                    let c = melee_contrib(old(melee)@, stats@, i - 1, t);
                    if dmg@ == dmg_pre {
                        assert(c =~= Seq::<i32>::empty());
                        assert(pending_of(dmg@, t) =~= pending_of(dmg_pre, t) + c);
                    } else {
                        // an append happened, to the slot of the intent's target
                        let g = old(melee)@[i - 1]->Some_0.0;
                        let target = old(melee)@[i - 1]->Some_0.1.target;
                        if t == target {
                            assert(pending_of(dmg@, t) == pending_of(dmg_pre, t).push(
                                c[0],
                            ));
                            assert(pending_of(dmg@, t) =~= pending_of(dmg_pre, t) + c);
                        } else if t.id == target.id {
                            // a different generation at the same slot: it
                            // owned nothing before and owns nothing now
                            assert(pending_of(dmg_pre, t) =~= Seq::<i32>::empty());
                            assert(pending_of(dmg@, t) =~= Seq::<i32>::empty());
                            assert(c =~= Seq::<i32>::empty()) by {
                                if c.len() > 0 {
                                    assert(slot_get(stats@, t) is Some);
                                    assert(t.gen == ents.gens@[t.id as int]);
                                    assert(target.gen == ents.gens@[target.id as int]);
                                }
                            }
                            assert(pending_of(dmg@, t) =~= pending_of(dmg_pre, t) + c);
                        } else {
                            assert(pending_of(dmg@, t) == pending_of(dmg_pre, t));
                            assert(c =~= Seq::<i32>::empty()) by {
                                if c.len() > 0 {
                                    assert(t == target);
                                }
                            }
                            assert(pending_of(dmg@, t) =~= pending_of(dmg_pre, t) + c);
                        }
                    }
                }
            }
        }
        melee.clear();
    }
}

} // verus!
