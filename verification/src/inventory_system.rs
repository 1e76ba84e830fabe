//! The inventory intents other than item use: pickup, drop, and
//! unequip. The input adapter writes each of these intents onto the
//! player entity, so at most one of each kind exists per pass; the pass
//! serves it and clears it, and an intent whose item is gone is a
//! cleared no-op.

use vstd::prelude::*;
use crate::components::{
    Entity, InBackpack, Name, Position, WantsToDropItem, WantsToPickUpItem, WantsToRemoveItem,
    Equipped,
};
use crate::gamelog::GameLog;
use crate::world::Storage;
use vstd::string::StringExecFns;

verus! {

/// At most one slot of the intent store is occupied.
pub open spec fn at_most_one<T>(s: Seq<Option<(u64, T)>>) -> bool {
    forall|i: int, j: int|
        0 <= i < s.len() && 0 <= j < s.len() && (#[trigger] s[i]) is Some && (#[trigger] s[j])
            is Some ==> i == j
}

/// The slot index of the single intent, if any.
pub open spec fn intent_slot<T>(s: Seq<Option<(u64, T)>>) -> Option<int> {
    if exists|i: int| 0 <= i < s.len() && s[i] is Some {
        Some(choose|i: int| 0 <= i < s.len() && s[i] is Some)
    } else {
        None
    }
}

/// A slot entry, `None` past the end of the storage.
pub open spec fn entry_or_none<T>(s: Seq<Option<(u64, T)>>, i: int) -> Option<(u64, T)> {
    if 0 <= i < s.len() {
        s[i]
    } else {
        None
    }
}

/// Find the single occupied slot of an intent store.
pub fn find_intent<T>(s: &Storage<T>) -> (r: Option<usize>)
    requires
        at_most_one(s@),
    ensures
        match r {
            Some(i) => intent_slot(s@) == Some(i as int) && (i as int) < s@.len() && s@[i as int]
                is Some,
            None => intent_slot(s@) is None,
        },
{
    let n = s.slots.len();
    let mut i: usize = 0;
    while i < n
        invariant
            at_most_one(s@),
            n == s@.len(),
            i <= n,
            forall|j: int| 0 <= j < i ==> s@[j] is None,
        decreases n - i,
    {
        let occupied = match &s.slots[i] {
            Some(_) => true,
            None => false,
        };
        if occupied {
            proof {
                assert(s@[i as int] is Some);
                assert(exists|k: int| 0 <= k < s@.len() && s@[k] is Some);
                let k = choose|k: int| 0 <= k < s@.len() && s@[k] is Some;
                assert(s@[k] is Some && s@[i as int] is Some);
                assert(k == i);
            }
            return Some(i);
        }
        i += 1;
    }
    proof {
        if exists|k: int| 0 <= k < s@.len() && s@[k] is Some {
            let k = choose|k: int| 0 <= k < s@.len() && s@[k] is Some;
            assert(false);
        }
    }
    None
}

/// Build the pickup message for the log.
fn pickup_line(name: &Name) -> (r: String)
    ensures
        r@ == "You pick up the "@ + name.name@ + "."@,
{
    let mut s = String::from_str("You pick up the ");
    s.append(name.name.as_str());
    s.append(".");
    s
}

/// Build the drop message for the log.
fn drop_line(name: &Name) -> (r: String)
    ensures
        r@ == "You drop the "@ + name.name@ + "."@,
{
    let mut s = String::from_str("You drop the ");
    s.append(name.name.as_str());
    s.append(".");
    s
}

/// Build the unequip message for the log.
fn remove_line(name: &Name) -> (r: String)
    ensures
        r@ == "You unequip the "@ + name.name@ + "."@,
{
    let mut s = String::from_str("You unequip the ");
    s.append(name.name.as_str());
    s.append(".");
    s
}

/// The pickup pass.
pub struct InventorySystem {}

impl InventorySystem {
    /// Serve the pending pickup intent, if any: the item loses its
    /// ground position and lands in the collector's backpack, and the
    /// player's pickups are logged. An item that no longer lies on the
    /// ground is left alone. The intent is cleared either way.
    pub fn run(
        player: Entity,
        log: &mut GameLog,
        pickups: &mut Storage<WantsToPickUpItem>,
        positions: &mut Storage<Position>,
        names: &Storage<Name>,
        backpacks: &mut Storage<InBackpack>,
    )
        requires
            at_most_one(old(pickups)@),
            forall|i: int|
                0 <= i < old(pickups)@.len() && (#[trigger] old(pickups)@[i]) is Some && old(
                    pickups,
                )@[i]->Some_0.1.collected_by == player ==> names.contains(
                    old(pickups)@[i]->Some_0.1.item,
                ),
        ensures
            final(pickups)@.len() == old(pickups)@.len(),
            final(pickups).is_clear(),
            old(log).entries@.is_prefix_of(final(log).entries@),
            match intent_slot(old(pickups)@) {
                None => final(positions)@ == old(positions)@ && final(backpacks)@ == old(
                    backpacks,
                )@ && final(log).entries@ == old(log).entries@,
                Some(j) => {
                    let intent = old(pickups)@[j]->Some_0.1;
                    if old(positions).contains(intent.item) {
                        &&& final(positions)@ == old(positions)@.update(
                            intent.item.id as int,
                            None,
                        )
                        &&& final(backpacks)@.len() == vstd::math::max(
                            old(backpacks)@.len() as int,
                            intent.item.id + 1 as int,
                        )
                        &&& forall|i: int|
                            0 <= i < final(backpacks)@.len() ==> final(backpacks)@[i] == (if i
                                == intent.item.id {
                                Some(
                                    (
                                        intent.item.gen,
                                        InBackpack { owner: intent.collected_by },
                                    ),
                                )
                            } else {
                                entry_or_none(old(backpacks)@, i)
                            })
                        &&& (intent.collected_by == player ==> final(log).entries@ == old(
                            log,
                        ).entries@.push(final(log).entries@.last()) && final(log).entries@.last()@ == "You pick up the "@ + names.value(
                            intent.item,
                        ).name@ + "."@)
                        &&& (intent.collected_by != player ==> final(log).entries@ == old(
                            log,
                        ).entries@)
                    } else {
                        final(positions)@ == old(positions)@ && final(backpacks)@ == old(
                            backpacks,
                        )@ && final(log).entries@ == old(log).entries@
                    }
                },
            },
    {
        let found = find_intent(pickups);
        match found {
            Some(j) => {
                let (g, intent) = match &pickups.slots[j] {
                    Some(p) => (p.0, p.1),
                    None => (0u64, WantsToPickUpItem { collected_by: player, item: player }),
                };
                if positions.has(intent.item) {
                    let cap = positions.slots.len();
                    positions.remove(intent.item);
                    proof {
                        assert(final(positions)@ =~= old(positions)@.update(
                            intent.item.id as int,
                            None,
                        ));
                    }
                    backpacks.insert(
                        intent.item,
                        InBackpack { owner: intent.collected_by },
                    );
                    if intent.collected_by.id == player.id && intent.collected_by.gen
                        == player.gen {
                        let line = match names.get(intent.item) {
                            Some(nm) => pickup_line(nm),
                            None => String::new(),
                        };
                        log.entries.push(line);
                    }
                }
                pickups.clear();
            },
            None => {
                pickups.clear();
            },
        }
    }
}

/// The drop pass.
pub struct ItemDropSystem {}

impl ItemDropSystem {
    /// Serve the pending drop intent, if any: the item gains a ground
    /// position equal to the dropper's current tile and leaves the
    /// backpack, and the player's drops are logged. The dropper must
    /// stand somewhere; an item that is not in a backpack is left
    /// alone. The intent is cleared either way.
    pub fn run(
        player: Entity,
        log: &mut GameLog,
        drops: &mut Storage<WantsToDropItem>,
        positions: &mut Storage<Position>,
        names: &Storage<Name>,
        backpacks: &mut Storage<InBackpack>,
    )
        requires
            at_most_one(old(drops)@),
            forall|i: int|
                0 <= i < old(drops)@.len() && (#[trigger] old(drops)@[i]) is Some ==> old(
                    positions,
                ).contains(
                    Entity { id: i as usize, gen: old(drops)@[i]->Some_0.0 },
                ),
            forall|i: int|
                0 <= i < old(drops)@.len() && (#[trigger] old(drops)@[i]) is Some && (Entity {
                    id: i as usize,
                    gen: old(drops)@[i]->Some_0.0,
                }) == player ==> names.contains(old(drops)@[i]->Some_0.1.item),
        ensures
            final(drops)@.len() == old(drops)@.len(),
            final(drops).is_clear(),
            old(log).entries@.is_prefix_of(final(log).entries@),
            match intent_slot(old(drops)@) {
                None => final(positions)@ == old(positions)@ && final(backpacks)@ == old(
                    backpacks,
                )@ && final(log).entries@ == old(log).entries@,
                Some(j) => {
                    let dropper = (Entity { id: j as usize, gen: old(drops)@[j]->Some_0.0 });
                    let item = old(drops)@[j]->Some_0.1.item;
                    let dpos = old(positions).value(dropper);
                    if old(backpacks).contains(item) {
                        &&& final(positions)@.len() == vstd::math::max(
                            old(positions)@.len() as int,
                            item.id + 1 as int,
                        )
                        &&& forall|i: int|
                            0 <= i < final(positions)@.len() ==> final(positions)@[i] == (if i
                                == item.id {
                                Some((item.gen, dpos))
                            } else {
                                entry_or_none(old(positions)@, i)
                            })
                        &&& final(backpacks)@ == old(backpacks)@.update(item.id as int, None)
                        &&& (dropper == player ==> final(log).entries@ == old(
                            log,
                        ).entries@.push(final(log).entries@.last()) && final(log).entries@.last()@ == "You drop the "@ + names.value(item).name@ + "."@)
                        &&& (dropper != player ==> final(log).entries@ == old(log).entries@)
                    } else {
                        final(positions)@ == old(positions)@ && final(backpacks)@ == old(
                            backpacks,
                        )@ && final(log).entries@ == old(log).entries@
                    }
                },
            },
    {
        let found = find_intent(drops);
        match found {
            Some(j) => {
                let (g, intent) = match &drops.slots[j] {
                    Some(p) => (p.0, p.1),
                    None => (0u64, WantsToDropItem { item: player }),
                };
                let dropper = Entity { id: j, gen: g };
                let dpos = match positions.get(dropper) {
                    Some(p) => *p,
                    None => Position { x: 0, y: 0 },
                };
                if backpacks.has(intent.item) {
                    let cap = backpacks.slots.len();
                    positions.insert(intent.item, dpos);
                    backpacks.remove(intent.item);
                    proof {
                        assert(final(backpacks)@ =~= old(backpacks)@.update(
                            intent.item.id as int,
                            None,
                        ));
                    }
                    if dropper.id == player.id && dropper.gen == player.gen {
                        let line = match names.get(intent.item) {
                            Some(nm) => drop_line(nm),
                            None => String::new(),
                        };
                        log.entries.push(line);
                    }
                }
                drops.clear();
            },
            None => {
                drops.clear();
            },
        }
    }
}

/// The unequip pass.
pub struct ItemRemoveSystem {}

impl ItemRemoveSystem {
    /// Serve the pending unequip intent, if any: the item leaves its
    /// slot and lands in the remover's backpack, and the player's
    /// unequips are logged. An item that is not equipped is left
    /// alone. The intent is cleared either way.
    pub fn run(
        player: Entity,
        log: &mut GameLog,
        removes: &mut Storage<WantsToRemoveItem>,
        equipped: &mut Storage<Equipped>,
        names: &Storage<Name>,
        backpacks: &mut Storage<InBackpack>,
    )
        requires
            at_most_one(old(removes)@),
            forall|i: int|
                0 <= i < old(removes)@.len() && (#[trigger] old(removes)@[i]) is Some && (Entity {
                    id: i as usize,
                    gen: old(removes)@[i]->Some_0.0,
                }) == player ==> names.contains(old(removes)@[i]->Some_0.1.item),
        ensures
            final(removes)@.len() == old(removes)@.len(),
            final(removes).is_clear(),
            old(log).entries@.is_prefix_of(final(log).entries@),
            match intent_slot(old(removes)@) {
                None => final(equipped)@ == old(equipped)@ && final(backpacks)@ == old(
                    backpacks,
                )@ && final(log).entries@ == old(log).entries@,
                Some(j) => {
                    let remover = (Entity { id: j as usize, gen: old(removes)@[j]->Some_0.0 });
                    let item = old(removes)@[j]->Some_0.1.item;
                    if old(equipped).contains(item) {
                        &&& final(equipped)@ == old(equipped)@.update(item.id as int, None)
                        &&& final(backpacks)@.len() == vstd::math::max(
                            old(backpacks)@.len() as int,
                            item.id + 1 as int,
                        )
                        &&& forall|i: int|
                            0 <= i < final(backpacks)@.len() ==> final(backpacks)@[i] == (if i
                                == item.id {
                                Some((item.gen, InBackpack { owner: remover }))
                            } else {
                                entry_or_none(old(backpacks)@, i)
                            })
                        &&& (remover == player ==> final(log).entries@ == old(
                            log,
                        ).entries@.push(final(log).entries@.last()) && final(log).entries@.last()@ == "You unequip the "@ + names.value(item).name@
                            + "."@)
                        &&& (remover != player ==> final(log).entries@ == old(log).entries@)
                    } else {
                        final(equipped)@ == old(equipped)@ && final(backpacks)@ == old(
                            backpacks,
                        )@ && final(log).entries@ == old(log).entries@
                    }
                },
            },
    {
        let found = find_intent(removes);
        match found {
            Some(j) => {
                let (g, intent) = match &removes.slots[j] {
                    Some(p) => (p.0, p.1),
                    None => (0u64, WantsToRemoveItem { item: player }),
                };
                let remover = Entity { id: j, gen: g };
                if equipped.has(intent.item) {
                    let cap = equipped.slots.len();
                    equipped.remove(intent.item);
                    proof {
                        assert(final(equipped)@ =~= old(equipped)@.update(
                            intent.item.id as int,
                            None,
                        ));
                    }
                    backpacks.insert(intent.item, InBackpack { owner: remover });
                    if remover.id == player.id && remover.gen == player.gen {
                        let line = match names.get(intent.item) {
                            Some(nm) => remove_line(nm),
                            None => String::new(),
                        };
                        log.entries.push(line);
                    }
                }
                removes.clear();
            },
            None => {
                removes.clear();
            },
        }
    }
}

} // verus!
