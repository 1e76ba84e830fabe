//! The item ownership law: at all times, every item is held in exactly
//! one of three ways — on the ground with a position, in a backpack, or
//! equipped. The inventory passes move items between these three states
//! atomically; the public lemmas here show that each pass's contract
//! keeps the law. Each lemma's hypotheses are the corresponding pass's
//! postconditions for a served intent, plus the arena's guarantee that
//! no storage holds a stale slot.

use vstd::prelude::*;
use crate::components::{Entity, Equipped, InBackpack, Item, Position};
use crate::inventory_system::entry_or_none;
use crate::world::{slot_get, store_clean, EntityAllocator};

verus! {

/// How many of the three ownership states hold for `e`.
pub open spec fn ownership_count(
    positions: Seq<Option<(u64, Position)>>,
    backpacks: Seq<Option<(u64, InBackpack)>>,
    equipped: Seq<Option<(u64, Equipped)>>,
    e: Entity,
) -> int {
    (if slot_get(positions, e) is Some {
        1int
    } else {
        0int
    }) + (if slot_get(backpacks, e) is Some {
        1int
    } else {
        0int
    }) + (if slot_get(equipped, e) is Some {
        1int
    } else {
        0int
    })
}

/// Every item is owned exactly once: a ground position, a backpack
/// entry, or an equipped slot — never none of them, never two at once.
pub open spec fn ownership_exclusive(
    items: Seq<Option<(u64, Item)>>,
    positions: Seq<Option<(u64, Position)>>,
    backpacks: Seq<Option<(u64, InBackpack)>>,
    equipped: Seq<Option<(u64, Equipped)>>,
) -> bool {
    forall|e: Entity|
        slot_get(items, e) is Some ==> #[trigger] ownership_count(
            positions,
            backpacks,
            equipped,
            e,
        ) == 1
}

/// Picking an item up keeps ownership exclusive: the served item loses
/// its ground position in the same pass that puts it into the
/// collector's backpack, and no other item's owner changes.
pub proof fn lemma_pickup_keeps_ownership(
    ents: EntityAllocator,
    items: Seq<Option<(u64, Item)>>,
    pos0: Seq<Option<(u64, Position)>>,
    pos1: Seq<Option<(u64, Position)>>,
    bp0: Seq<Option<(u64, InBackpack)>>,
    bp1: Seq<Option<(u64, InBackpack)>>,
    equipped: Seq<Option<(u64, Equipped)>>,
    item: Entity,
    collector: Entity,
)
    requires
        ownership_exclusive(items, pos0, bp0, equipped),
        store_clean(ents, items),
        store_clean(ents, pos0),
        slot_get(pos0, item) is Some,
        pos1 == pos0.update(item.id as int, None::<(u64, Position)>),
        bp1.len() == vstd::math::max(bp0.len() as int, item.id + 1 as int),
        forall|i: int|
            0 <= i < bp1.len() ==> bp1[i] == (if i == item.id {
                Some((item.gen, InBackpack { owner: collector }))
            } else {
                entry_or_none(bp0, i)
            }),
    ensures
        ownership_exclusive(items, pos1, bp1, equipped),
{
    assert forall|e: Entity| slot_get(items, e) is Some implies #[trigger] ownership_count(
        pos1,
        bp1,
        equipped,
        e,
    ) == 1 by {
        assert(ownership_count(pos0, bp0, equipped, e) == 1);
        if e.id == item.id {
            // one slot holds one generation, so `e` is the picked item
            assert(items[e.id as int]->Some_0.0 == ents.gens@[e.id as int]);
            assert(pos0[item.id as int]->Some_0.0 == ents.gens@[item.id as int]);
            assert(e.gen == item.gen);
            assert(slot_get(pos1, e) is None);
            assert(bp1[e.id as int] == Some((item.gen, InBackpack { owner: collector })));
            assert(slot_get(bp1, e) is Some);
            assert(slot_get(bp0, e) is None && slot_get(equipped, e) is None);
        } else {
            assert(slot_get(pos1, e) == slot_get(pos0, e));
            assert(entry_or_none(bp1, e.id as int) == entry_or_none(bp0, e.id as int));
            assert(slot_get(bp1, e) == slot_get(bp0, e));
        }
    }
}

/// Dropping an item keeps ownership exclusive: the served item leaves
/// the backpack in the same pass that puts it on the ground at the
/// dropper's tile.
pub proof fn lemma_drop_keeps_ownership(
    ents: EntityAllocator,
    items: Seq<Option<(u64, Item)>>,
    pos0: Seq<Option<(u64, Position)>>,
    pos1: Seq<Option<(u64, Position)>>,
    bp0: Seq<Option<(u64, InBackpack)>>,
    bp1: Seq<Option<(u64, InBackpack)>>,
    equipped: Seq<Option<(u64, Equipped)>>,
    item: Entity,
    dpos: Position,
)
    requires
        ownership_exclusive(items, pos0, bp0, equipped),
        store_clean(ents, items),
        store_clean(ents, bp0),
        slot_get(bp0, item) is Some,
        pos1.len() == vstd::math::max(pos0.len() as int, item.id + 1 as int),
        forall|i: int|
            0 <= i < pos1.len() ==> pos1[i] == (if i == item.id {
                Some((item.gen, dpos))
            } else {
                entry_or_none(pos0, i)
            }),
        bp1 == bp0.update(item.id as int, None::<(u64, InBackpack)>),
    ensures
        ownership_exclusive(items, pos1, bp1, equipped),
{
    assert forall|e: Entity| slot_get(items, e) is Some implies #[trigger] ownership_count(
        pos1,
        bp1,
        equipped,
        e,
    ) == 1 by {
        assert(ownership_count(pos0, bp0, equipped, e) == 1);
        if e.id == item.id {
            assert(items[e.id as int]->Some_0.0 == ents.gens@[e.id as int]);
            assert(bp0[item.id as int]->Some_0.0 == ents.gens@[item.id as int]);
            assert(e.gen == item.gen);
            assert(slot_get(bp1, e) is None);
            assert(pos1[e.id as int] == Some((item.gen, dpos)));
            assert(slot_get(pos1, e) is Some);
            assert(slot_get(pos0, e) is None && slot_get(equipped, e) is None);
        } else {
            assert(slot_get(bp1, e) == slot_get(bp0, e));
            assert(entry_or_none(pos1, e.id as int) == entry_or_none(pos0, e.id as int));
            assert(slot_get(pos1, e) == slot_get(pos0, e));
        }
    }
}

/// Unequipping an item keeps ownership exclusive: the served item
/// leaves its body slot in the same pass that puts it into the
/// remover's backpack.
pub proof fn lemma_unequip_keeps_ownership(
    ents: EntityAllocator,
    items: Seq<Option<(u64, Item)>>,
    positions: Seq<Option<(u64, Position)>>,
    bp0: Seq<Option<(u64, InBackpack)>>,
    bp1: Seq<Option<(u64, InBackpack)>>,
    eq0: Seq<Option<(u64, Equipped)>>,
    eq1: Seq<Option<(u64, Equipped)>>,
    item: Entity,
    remover: Entity,
)
    requires
        ownership_exclusive(items, positions, bp0, eq0),
        store_clean(ents, items),
        store_clean(ents, eq0),
        slot_get(eq0, item) is Some,
        eq1 == eq0.update(item.id as int, None::<(u64, Equipped)>),
        bp1.len() == vstd::math::max(bp0.len() as int, item.id + 1 as int),
        forall|i: int|
            0 <= i < bp1.len() ==> bp1[i] == (if i == item.id {
                Some((item.gen, InBackpack { owner: remover }))
            } else {
                entry_or_none(bp0, i)
            }),
    ensures
        ownership_exclusive(items, positions, bp1, eq1),
{
    assert forall|e: Entity| slot_get(items, e) is Some implies #[trigger] ownership_count(
        positions,
        bp1,
        eq1,
        e,
    ) == 1 by {
        assert(ownership_count(positions, bp0, eq0, e) == 1);
        if e.id == item.id {
            assert(items[e.id as int]->Some_0.0 == ents.gens@[e.id as int]);
            assert(eq0[item.id as int]->Some_0.0 == ents.gens@[item.id as int]);
            assert(e.gen == item.gen);
            assert(slot_get(eq1, e) is None);
            assert(bp1[e.id as int] == Some((item.gen, InBackpack { owner: remover })));
            assert(slot_get(bp1, e) is Some);
            assert(slot_get(bp0, e) is None && slot_get(positions, e) is None);
        } else {
            assert(slot_get(eq1, e) == slot_get(eq0, e));
            assert(entry_or_none(bp1, e.id as int) == entry_or_none(bp0, e.id as int));
            assert(slot_get(bp1, e) == slot_get(bp0, e));
        }
    }
}

/// Equipping an item from the backpack keeps ownership exclusive: the
/// item moves from the backpack into its body slot, and whatever the
/// wearer had in that slot moves back into the backpack in the same
/// pass.
#[verifier::rlimit(60)]
pub proof fn lemma_equip_keeps_ownership(
    ents: EntityAllocator,
    items: Seq<Option<(u64, Item)>>,
    positions: Seq<Option<(u64, Position)>>,
    bp0: Seq<Option<(u64, InBackpack)>>,
    bp1: Seq<Option<(u64, InBackpack)>>,
    eq0: Seq<Option<(u64, Equipped)>>,
    eq1: Seq<Option<(u64, Equipped)>>,
    item: Entity,
    wearer: Entity,
    slot: crate::components::EquipSlot,
)
    requires
        ownership_exclusive(items, positions, bp0, eq0),
        store_clean(ents, items),
        store_clean(ents, bp0),
        store_clean(ents, eq0),
        slot_get(bp0, item) is Some,
        forall|i: int|
            0 <= i < eq1.len() ==> eq1[i] == crate::item_use_system::equipped_after(
                eq0,
                item,
                wearer,
                slot,
                i,
            ),
        eq1.len() == vstd::math::max(eq0.len() as int, item.id + 1 as int),
        forall|i: int|
            0 <= i < bp1.len() ==> bp1[i] == crate::item_use_system::backpack_after_equip(
                eq0,
                bp0,
                item,
                wearer,
                slot,
                i,
            ),
        bp1.len() >= bp0.len(),
        forall|i: int|
            (match #[trigger] entry_or_none(eq0, i) {
                Some(p) => p.1.owner == wearer && p.1.slot == slot,
                None => false,
            }) && i != item.id ==> i < bp1.len(),
    ensures
        ownership_exclusive(items, positions, bp1, eq1),
{
    assert forall|e: Entity| slot_get(items, e) is Some implies #[trigger] ownership_count(
        positions,
        bp1,
        eq1,
        e,
    ) == 1 by {
        assert(ownership_count(positions, bp0, eq0, e) == 1);
        if e.id == item.id {
            // one slot holds one generation, so `e` is the equipped item
            assert(items[e.id as int]->Some_0.0 == ents.gens@[e.id as int]);
            assert(bp0[item.id as int]->Some_0.0 == ents.gens@[item.id as int]);
            assert(e.gen == item.gen);
            assert(eq1[e.id as int] == Some((item.gen, Equipped { owner: wearer, slot })));
            assert(slot_get(eq1, e) is Some);
            assert(slot_get(bp1, e) is None);
            assert(slot_get(positions, e) is None && slot_get(eq0, e) is None);
        } else {
            let i = e.id as int;
            match entry_or_none(eq0, i) {
                Some(p) => {
                    if p.1.owner == wearer && p.1.slot == slot {
                        // the displaced slot: one generation, so `e` is
                        // the item the wearer had there
                        assert(eq0[i]->Some_0.0 == ents.gens@[i]);
                        assert(items[i]->Some_0.0 == ents.gens@[i]);
                        assert(p.0 == e.gen);
                        assert(slot_get(eq0, e) is Some);
                        assert(slot_get(bp0, e) is None && slot_get(positions, e) is None);
                        assert(0 <= i < bp1.len());
                        assert(bp1[i] == Some((p.0, InBackpack { owner: wearer })));
                        assert(slot_get(bp1, e) is Some);
                        assert(slot_get(eq1, e) is None);
                    } else {
                        assert(entry_or_none(eq1, i) == entry_or_none(eq0, i));
                        assert(slot_get(eq1, e) == slot_get(eq0, e));
                        if 0 <= i < bp1.len() {
                            assert(entry_or_none(bp1, i) == entry_or_none(bp0, i));
                        }
                        assert(slot_get(bp1, e) == slot_get(bp0, e));
                    }
                },
                None => {
                    assert(slot_get(eq0, e) is None);
                    assert(slot_get(eq1, e) is None) by {
                        if 0 <= i < eq1.len() {
                            assert(eq1[i] is None);
                        }
                    }
                    if 0 <= i < bp1.len() {
                        assert(entry_or_none(bp1, i) == entry_or_none(bp0, i));
                    }
                    assert(slot_get(bp1, e) == slot_get(bp0, e));
                },
            }
        }
    }
}

} // verus!
