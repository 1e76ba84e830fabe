//! Combat damage resolution: pending damage entries are summed and
//! applied in one pass, and the dead are removed afterward. Summing all
//! of a turn's simultaneous hits before touching hit points keeps them
//! from being applied incrementally with intermediate clamping.

use vstd::prelude::*;
use crate::components::{CombatStats, Entity, SufferDamage};
use crate::world::{EntityAllocator, Storage};

verus! {

/// The sum of a list of damage entries.
pub open spec fn sum_of(s: Seq<i32>) -> int
    decreases s.len(),
{
    if s.len() == 0 {
        0
    } else {
        sum_of(s.drop_last()) + s.last()
    }
}

/// Every damage entry is an `i32`, so the sum of `n` of them stays
/// within `n` times the `i32` magnitude bound.
proof fn lemma_sum_bound(s: Seq<i32>)
    ensures
        -0x8000_0000 * s.len() <= sum_of(s) <= 0x8000_0000 * s.len(),
    decreases s.len(),
{
    if s.len() == 0 {
    } else {
        lemma_sum_bound(s.drop_last());
        assert(-0x8000_0000 * (s.len() - 1) - 0x8000_0000 == -0x8000_0000 * s.len() && 0x8000_0000
            * (s.len() - 1) + 0x8000_0000 == 0x8000_0000 * s.len()) by (nonlinear_arith);
    }
}

/// Clamp an unbounded value into the `i32` range.
pub open spec fn sat_i32(v: int) -> int {
    if v > i32::MAX {
        i32::MAX as int
    } else if v < i32::MIN {
        i32::MIN as int
    } else {
        v
    }
}

/// The pending damage entries of `e`, empty when it has none.
pub open spec fn pending_of(s: Seq<Option<(u64, SufferDamage)>>, e: Entity) -> Seq<i32> {
    if e.id < s.len() && s[e.id as int] is Some && s[e.id as int]->Some_0.0 == e.gen {
        s[e.id as int]->Some_0.1.amount@
    } else {
        Seq::empty()
    }
}

/// Sum the entries of one pending-damage list.
fn sum_pending(amounts: &Vec<i32>) -> (total: i128)
    ensures
        total == sum_of(amounts@),
        -0x8000_0000 * amounts@.len() <= total <= 0x8000_0000 * amounts@.len(),
        amounts@.len() <= usize::MAX,
{
    let n = amounts.len();
    let mut total: i128 = 0;
    let mut i: usize = 0;
    while i < n
        invariant
            n == amounts@.len(),
            i <= n,
            total == sum_of(amounts@.subrange(0, i as int)),
            -0x8000_0000 * (i as int) <= total <= 0x8000_0000 * (i as int),
        decreases n - i,
    {
        let ghost prefix = amounts@.subrange(0, i as int);
        total = total + (amounts[i] as i128);
        i += 1;
        proof {
            assert(amounts@.subrange(0, i as int).drop_last() =~= prefix);
            assert(amounts@.subrange(0, i as int).last() == amounts@[i - 1]);
            assert(-0x8000_0000 * (i - 1) - 0x8000_0000 == -0x8000_0000 * (i as int)
                && 0x8000_0000 * (i - 1) + 0x8000_0000 == 0x8000_0000 * (i as int))
                by (nonlinear_arith);
        }
    }
    proof {
        assert(amounts@.subrange(0, n as int) =~= amounts@);
    }
    total
}

impl SufferDamage {
    /// Append one hit to the victim's pending damage, creating the
    /// component when absent. The victim must exist: writing damage
    /// onto a deleted entity is a fault in pipeline ordering, so the
    /// caller shows the handle live in the arena.
    pub fn new_damage(
        ents: &EntityAllocator,
        store: &mut Storage<SufferDamage>,
        victim: Entity,
        amount: i32,
    )
        requires
            ents.live(victim),
            victim.id < usize::MAX,
        ensures
            final(store)@.len() == vstd::math::max(old(store)@.len() as int, victim.id + 1 as int),
            final(store).contains(victim),
            final(store).value(victim).amount@ == pending_of(old(store)@, victim).push(amount),
            forall|i: int|
                0 <= i < final(store)@.len() && i != victim.id ==> final(store)@[i] == (if i < old(
                    store,
                )@.len() {
                    old(store)@[i]
                } else {
                    None::<(u64, SufferDamage)>
                }),
    {
        let mut amounts: Vec<i32> = match store.get(victim) {
            Some(s) => s.amount.clone(),
            None => Vec::new(),
        };
        proof {
            assert(amounts@ =~= pending_of(old(store)@, victim));
        }
        amounts.push(amount);
        store.insert(victim, SufferDamage { amount: amounts });
    }
}

/// The damage pass: for every entity with pending damage and combat
/// stats, lower its hit points by the pending sum; every pending-damage
/// component is removed by the pass, whether or not it was applied.
pub struct DamageSystem {}

/// The combat-stats slot the damage pass leaves at index `i`.
pub open spec fn stats_slot_after_damage(
    stats: Seq<Option<(u64, CombatStats)>>,
    dmg: Seq<Option<(u64, SufferDamage)>>,
    i: int,
) -> Option<(u64, CombatStats)> {
    match stats[i] {
        Some((g, st)) => {
            if i < dmg.len() && dmg[i] is Some && dmg[i]->Some_0.0 == g {
                Some(
                    (
                        g,
                        CombatStats {
                            hp: sat_i32(st.hp - sum_of(dmg[i]->Some_0.1.amount@)) as i32,
                            ..st
                        },
                    ),
                )
            } else {
                stats[i]
            }
        },
        None => stats[i],
    }
}

impl DamageSystem {
    /// Apply and clear all pending damage in one pass. A subtraction
    /// that would leave the `i32` range saturates at its edge.
    pub fn run(stats: &mut Storage<CombatStats>, dmg: &mut Storage<SufferDamage>)
        ensures
            final(dmg)@.len() == old(dmg)@.len(),
            final(dmg).is_clear(),
            final(stats)@.len() == old(stats)@.len(),
            forall|i: int|
                0 <= i < old(stats)@.len() ==> final(stats)@[i] == stats_slot_after_damage(
                    old(stats)@,
                    old(dmg)@,
                    i,
                ),
    {
        let n = dmg.slots.len();
        let mut i: usize = 0;
        while i < n
            invariant
                n == dmg@.len(),
                n == old(dmg)@.len(),
                i <= n,
                stats@.len() == old(stats)@.len(),
                forall|j: int| i <= j < n ==> dmg@[j] == old(dmg)@[j],
                forall|j: int| 0 <= j < i ==> dmg@[j] is None,
                forall|j: int|
                    0 <= j < stats@.len() ==> stats@[j] == (if j < i {
                        stats_slot_after_damage(old(stats)@, old(dmg)@, j)
                    } else {
                        old(stats)@[j]
                    }),
            decreases n - i,
        {
            let has_pending = match &dmg.slots[i] {
                Some(_) => true,
                None => false,
            };
            if has_pending {
                let (g, total) = match &dmg.slots[i] {
                    Some(p) => (p.0, sum_pending(&p.1.amount)),
                    None => (0u64, 0i128),
                };
                let victim = Entity { id: i, gen: g };
                match stats.get(victim) {
                    Some(st) => {
                        let hp0 = st.hp;
                        let max_hp = st.max_hp;
                        let defense = st.defense;
                        let power = st.power;
                        proof {
                            assert(stats_slot_after_damage(old(stats)@, old(dmg)@, i as int)
                                is Some);
                        }
                        let diff = (hp0 as i128) - total;
                        let new_hp: i32 = if diff > (i32::MAX as i128) {
                            i32::MAX
                        } else if diff < (i32::MIN as i128) {
                            i32::MIN
                        } else {
                            diff as i32
                        };
                        stats.insert(
                            victim,
                            CombatStats { max_hp, hp: new_hp, defense, power },
                        );
                    },
                    None => {},
                }
                dmg.clear_slot(i);
            }
            i += 1;
            proof {
                assert forall|j: int| 0 <= j < stats@.len() implies stats@[j] == (if j < i {
                    stats_slot_after_damage(old(stats)@, old(dmg)@, j)
                } else {
                    old(stats)@[j]
                }) by {}
            }
        }
    }
}

/// The entity whose combat-stats slot at `i` has no hit points left.
pub open spec fn dead_at(stats: Seq<Option<(u64, CombatStats)>>, i: int) -> bool {
    stats[i] is Some && stats[i]->Some_0.1.hp <= 0
}

/// The death sub-step: queue every combatant without hit points for
/// deletion, except the player, whose death is the terminal condition
/// reported upward.
pub fn delete_the_dead(
    ents: &mut EntityAllocator,
    stats: &Storage<CombatStats>,
    player: Entity,
) -> (game_over: bool)
    ensures
        final(ents).gens == old(ents).gens,
        final(ents).alive == old(ents).alive,
        final(ents).free == old(ents).free,
        old(ents).pending@.is_prefix_of(final(ents).pending@),
        forall|k: int|
            old(ents).pending@.len() <= k < final(ents).pending@.len() ==> {
                let e = #[trigger] final(ents).pending@[k];
                &&& stats.contains(e)
                &&& stats.value(e).hp <= 0
                &&& e != player
            },
        forall|e: Entity|
            stats.contains(e) && stats.value(e).hp <= 0 && e != player
                ==> final(ents).pending@.contains(e),
        game_over == (stats.contains(player) && stats.value(player).hp <= 0),
{
    let n = stats.slots.len();
    let mut game_over = false;
    let mut i: usize = 0;
    while i < n
        invariant
            n == stats@.len(),
            i <= n,
            ents.gens == old(ents).gens,
            ents.alive == old(ents).alive,
            ents.free == old(ents).free,
            old(ents).pending@.is_prefix_of(ents.pending@),
            forall|k: int|
                old(ents).pending@.len() <= k < ents.pending@.len() ==> {
                    let e = #[trigger] ents.pending@[k];
                    &&& stats.contains(e)
                    &&& stats.value(e).hp <= 0
                    &&& e != player
                },
            forall|e: Entity|
                e.id < i && stats.contains(e) && stats.value(e).hp <= 0 && e != player
                    ==> ents.pending@.contains(e),
            game_over == (player.id < i && stats.contains(player) && stats.value(player).hp <= 0),
        decreases n - i,
    {
        let ghost pre = ents.pending@;
        let dead = match &stats.slots[i] {
            Some(p) => p.1.hp <= 0,
            None => false,
        };
        if dead {
            let g = match &stats.slots[i] {
                Some(p) => p.0,
                None => 0u64,
            };
            let e = Entity { id: i, gen: g };
            if e.id == player.id && e.gen == player.gen {
                game_over = true;
            } else {
                ents.delete(e);
                proof {
                    assert(ents.pending@[ents.pending@.len() - 1] == e);
                    assert(forall|k: int| 0 <= k < pre.len() ==> ents.pending@[k] == pre[k]);
                }
            }
        }
        i += 1;
        proof {
            assert forall|e: Entity|
                e.id < i && stats.contains(e) && stats.value(e).hp <= 0 && e != player
                    implies ents.pending@.contains(e) by {
                if e.id < i - 1 {
                    assert(pre.contains(e));
                    let k = choose|k: int| 0 <= k < pre.len() && pre[k] == e;
                    assert(ents.pending@[k] == e);
                } else {
                    assert(e.id == i - 1);
                    assert(ents.pending@.contains(e));
                }
            }
        }
    }
    game_over
}

} // verus!
