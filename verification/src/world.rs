//! The entity/component store: a generation-checked arena of entity slots
//! and one typed storage per component type. Deletions are deferred until
//! an explicit maintain point so that iteration stays valid within a pass.

use vstd::prelude::*;
use crate::components::{
    AreaOfEffect, BlocksTile, CombatStats, Confusion, Consumable, Entity, Equippable, Equipped,
    InBackpack, InflictsDamage, Item, Monster, Name, Player, Point, Position, ProvidesHealing,
    Ranged, Renderable, SerializeMe, SufferDamage, Viewshed, WantsToDropItem, WantsToMelee,
    WantsToPickUpItem, WantsToRemoveItem, WantsToUseItem,
};
use crate::gamelog::GameLog;
use crate::game::RunState;
use crate::map::GameMap;

verus! {

/// Typed component storage, indexed by entity id. Each occupied slot
/// remembers the generation of the entity the component belongs to, so a
/// stale handle (same id, older generation) resolves to "absent".
pub struct Storage<T> {
    pub slots: Vec<Option<(u64, T)>>,
}

impl<T> View for Storage<T> {
    type V = Seq<Option<(u64, T)>>;

    open spec fn view(&self) -> Seq<Option<(u64, T)>> {
        self.slots@
    }
}

impl<T> Storage<T> {
    /// The storage holds a component owned by `e` (id in range, slot
    /// occupied, generation matching).
    pub open spec fn contains(&self, e: Entity) -> bool {
        &&& e.id < self@.len()
        &&& match self@[e.id as int] {
            Some(p) => p.0 == e.gen,
            None => false,
        }
    }

    /// The component owned by `e`; meaningful only when `contains(e)`.
    pub open spec fn value(&self, e: Entity) -> T
        recommends
            self.contains(e),
    {
        self@[e.id as int]->Some_0.1
    }

    /// The component owned by `e`, as an option.
    pub open spec fn spec_get(&self, e: Entity) -> Option<T> {
        if self.contains(e) {
            Some(self.value(e))
        } else {
            None
        }
    }

    /// No slot is occupied.
    pub open spec fn is_clear(&self) -> bool {
        forall|i: int| 0 <= i < self@.len() ==> self@[i] is None
    }

    pub fn new() -> (s: Self)
        ensures
            s@.len() == 0,
            s.is_clear(),
    {
        Storage { slots: Vec::new() }
    }

    pub fn get(&self, e: Entity) -> (r: Option<&T>)
        ensures
            match r {
                Some(v) => self.contains(e) && *v == self.value(e),
                None => !self.contains(e),
            },
    {
        if e.id < self.slots.len() {
            match &self.slots[e.id] {
                Some(p) => {
                    if p.0 == e.gen {
                        Some(&p.1)
                    } else {
                        None
                    }
                },
                None => None,
            }
        } else {
            None
        }
    }

    pub fn has(&self, e: Entity) -> (r: bool)
        ensures
            r == self.contains(e),
    {
        match self.get(e) {
            Some(_) => true,
            None => false,
        }
    }

    /// Insert `v` as `e`'s component, overwriting whatever the slot held.
    /// The slot vector grows on demand; new slots are empty.
    pub fn insert(&mut self, e: Entity, v: T)
        requires
            e.id < usize::MAX,
        ensures
            final(self)@.len() == vstd::math::max(old(self)@.len() as int, e.id + 1 as int),
            final(self)@[e.id as int] == Some((e.gen, v)),
            forall|i: int|
                0 <= i < final(self)@.len() && i != e.id ==> final(self)@[i] == (if i
                    < old(self)@.len() {
                    old(self)@[i]
                } else {
                    None::<(u64, T)>
                }),
            final(self).contains(e) && final(self).value(e) == v,
    {
        while self.slots.len() <= e.id
            invariant
                e.id < usize::MAX,
                self@.len() >= old(self)@.len(),
                self@.len() > old(self)@.len() ==> self@.len() <= e.id + 1,
                forall|i: int| 0 <= i < old(self)@.len() ==> self@[i] == old(self)@[i],
                forall|i: int| old(self)@.len() <= i < self@.len() ==> self@[i] is None,
            decreases e.id + 1 - self.slots.len(),
        {
            self.slots.push(None);
        }
        self.slots[e.id] = Some((e.gen, v));
    }

    /// Remove `e`'s component if the storage holds one.
    pub fn remove(&mut self, e: Entity)
        ensures
            final(self)@.len() == old(self)@.len(),
            forall|i: int| 0 <= i < old(self)@.len() && i != e.id ==> final(self)@[i] == old(self)@[i],
            !final(self).contains(e),
            old(self).contains(e) ==> final(self)@[e.id as int] is None,
            !old(self).contains(e) ==> final(self)@ == old(self)@,
    {
        if e.id < self.slots.len() {
            let occupied = match &self.slots[e.id] {
                Some(p) => p.0 == e.gen,
                None => false,
            };
            if occupied {
                self.slots[e.id] = None;
            }
        }
        assert(final(self)@ =~= self@);
    }

    /// Empty every slot (the storage keeps its length).
    pub fn clear(&mut self)
        ensures
            final(self)@.len() == old(self)@.len(),
            final(self).is_clear(),
    {
        let n = self.slots.len();
        let mut i: usize = 0;
        while i < n
            invariant
                n == self@.len(),
                i <= n,
                forall|j: int| 0 <= j < i ==> self@[j] is None,
            decreases n - i,
        {
            self.slots[i] = None;
            i += 1;
        }
    }

    /// Empty the slot for entity id `id`, whatever generation it holds.
    /// Used when the world applies a deferred deletion.
    pub fn clear_slot(&mut self, id: usize)
        ensures
            final(self)@.len() == old(self)@.len(),
            forall|i: int| 0 <= i < old(self)@.len() && i != id ==> final(self)@[i] == old(self)@[i],
            id < old(self)@.len() ==> final(self)@[id as int] is None,
    {
        if id < self.slots.len() {
            self.slots[id] = None;
        }
    }

    /// Empty every slot whose id is listed. Used when the world applies
    /// its deferred deletions.
    pub fn purge(&mut self, ids: &Vec<usize>)
        ensures
            final(self)@.len() == old(self)@.len(),
            forall|i: int|
                0 <= i < old(self)@.len() ==> final(self)@[i] == (if id_listed(ids@, i) {
                    None::<(u64, T)>
                } else {
                    old(self)@[i]
                }),
    {
        let n = ids.len();
        let mut k: usize = 0;
        while k < n
            invariant
                n == ids@.len(),
                k <= n,
                self@.len() == old(self)@.len(),
                forall|i: int|
                    0 <= i < old(self)@.len() ==> self@[i] == (if id_listed(
                        ids@.subrange(0, k as int),
                        i,
                    ) {
                        None::<(u64, T)>
                    } else {
                        old(self)@[i]
                    }),
            decreases n - k,
        {
            self.clear_slot(ids[k]);
            k += 1;
            proof {
                assert forall|i: int| 0 <= i < old(self)@.len() implies self@[i] == (if id_listed(
                    ids@.subrange(0, k as int),
                    i,
                ) {
                    None::<(u64, T)>
                } else {
                    old(self)@[i]
                }) by {
                    let sub = ids@.subrange(0, k as int);
                    let subp = ids@.subrange(0, k - 1);
                    if id_listed(sub, i) {
                        let j = choose|j: int| 0 <= j < sub.len() && sub[j] == i;
                        if j < k - 1 {
                            assert(subp[j] == i);
                            assert(id_listed(subp, i));
                        } else {
                            assert(ids@[k - 1] == i);
                        }
                    } else {
                        assert(!id_listed(subp, i)) by {
                            if id_listed(subp, i) {
                                let j = choose|j: int| 0 <= j < subp.len() && subp[j] == i;
                                assert(sub[j] == i);
                            }
                        }
                        assert(sub[k - 1] == ids@[k - 1]);
                        assert(i != ids@[k - 1]);
                    }
                }
            }
        }
        proof {
            assert(ids@.subrange(0, n as int) =~= ids@);
        }
    }
}

/// Some entry of `ids` equals `i`.
pub open spec fn id_listed(ids: Seq<usize>, i: int) -> bool {
    exists|k: int| 0 <= k < ids.len() && ids[k] == i
}

/// The component owned by `e` in a storage's slot sequence.
pub open spec fn slot_get<T>(s: Seq<Option<(u64, T)>>, e: Entity) -> Option<T> {
    if e.id < s.len() && s[e.id as int] is Some && s[e.id as int]->Some_0.0 == e.gen {
        Some(s[e.id as int]->Some_0.1)
    } else {
        None
    }
}

/// Every occupied slot belongs to an entity that is live in `a`: the
/// storages hold no leftovers for deleted or stale handles.
pub open spec fn store_clean<T>(a: EntityAllocator, s: Seq<Option<(u64, T)>>) -> bool {
    forall|i: int|
        0 <= i < s.len() && s[i] is Some ==> i < a.gens@.len() && a.alive@[i] && (#[trigger] s[i])->Some_0.0
            == a.gens@[i]
}

/// The arena of entity slots: a generation per slot, a liveness flag, a
/// free list of reusable slots, and the list of deletions queued for the
/// next maintain point.
pub struct EntityAllocator {
    pub gens: Vec<u64>,
    pub alive: Vec<bool>,
    pub free: Vec<usize>,
    pub pending: Vec<Entity>,
}

impl EntityAllocator {
    /// `e` names an entity that currently exists.
    pub open spec fn live(&self, e: Entity) -> bool {
        &&& e.id < self.gens@.len()
        &&& self.alive@[e.id as int]
        &&& self.gens@[e.id as int] == e.gen
    }

    /// Well-formedness: the flags parallel the generations, and the free
    /// list names distinct dead slots whose generation can still grow.
    pub open spec fn wf(&self) -> bool {
        &&& self.alive@.len() == self.gens@.len()
        &&& forall|k: int|
            0 <= k < self.free@.len() ==> (#[trigger] self.free@[k]) < self.gens@.len()
                && !self.alive@[self.free@[k] as int] && self.gens@[self.free@[k] as int]
                < u64::MAX
        &&& forall|k: int, l: int| 0 <= k < l < self.free@.len() ==> self.free@[k] != self.free@[l]
    }

    pub fn new() -> (a: EntityAllocator)
        ensures
            a.wf(),
            a.gens@.len() == 0,
            a.pending@.len() == 0,
            forall|e: Entity| !a.live(e),
    {
        EntityAllocator { gens: Vec::new(), alive: Vec::new(), free: Vec::new(), pending: Vec::new() }
    }

    /// Create a new entity: a handle no storage holds anything for, and
    /// that differs from every live handle.
    pub fn create(&mut self) -> (e: Entity)
        requires
            old(self).wf(),
            old(self).gens@.len() < usize::MAX,
        ensures
            final(self).wf(),
            final(self).live(e),
            !old(self).live(e),
            forall|e2: Entity| old(self).live(e2) ==> final(self).live(e2) && e2 != e,
            forall|e2: Entity| final(self).live(e2) ==> old(self).live(e2) || e2 == e,
            final(self).pending@ == old(self).pending@,
            old(self).gens@.len() <= final(self).gens@.len() <= old(self).gens@.len() + 1,
            // the fresh handle reuses a dead slot at that slot's own
            // generation, or opens a new slot; generations never move
            e.gen < u64::MAX,
            e.id < old(self).gens@.len() ==> old(self).gens@[e.id as int] == e.gen,
            forall|j: int|
                0 <= j < old(self).gens@.len() ==> final(self).gens@[j] == old(self).gens@[j],
    {
        match self.free.pop() {
            Some(id) => {
                proof {
                    assert(self.free@ == old(self).free@.drop_last());
                    assert(old(self).free@[old(self).free@.len() - 1] == id);
                }
                self.alive[id] = true;
                let g = self.gens[id];
                Entity { id, gen: g }
            },
            None => {
                let id = self.gens.len();
                self.gens.push(0);
                self.alive.push(true);
                Entity { id, gen: 0 }
            },
        }
    }

    /// Queue `e` for deletion at the next maintain point.
    pub fn delete(&mut self, e: Entity)
        ensures
            final(self).gens == old(self).gens,
            final(self).alive == old(self).alive,
            final(self).free == old(self).free,
            final(self).pending@ == old(self).pending@.push(e),
    {
        self.pending.push(e);
    }

    /// The slot `id` belongs to an entity queued for deletion that is
    /// still live.
    pub open spec fn doomed(&self, id: int) -> bool {
        exists|j: int|
            0 <= j < self.pending@.len() && (#[trigger] self.pending@[j]).id == id && self.live(
                self.pending@[j],
            )
    }

    /// Apply every queued deletion: the affected slots die, their
    /// generation grows so stale handles stay dead, and the freed slots
    /// become reusable. Returns the ids that died, for the storages to
    /// purge.
    #[verifier::loop_isolation(false)]
    pub fn apply_pending(&mut self) -> (ids: Vec<usize>)
        requires
            old(self).wf(),
        ensures
            final(self).wf(),
            final(self).pending@.len() == 0,
            final(self).gens@.len() == old(self).gens@.len(),
            forall|e: Entity|
                final(self).live(e) <==> old(self).live(e) && !old(self).pending@.contains(e),
            forall|id: int| #[trigger] id_listed(ids@, id) <==> old(self).doomed(id),
            forall|j: int|
                0 <= j < old(self).gens@.len() ==> final(self).gens@[j] >= old(self).gens@[j],
            forall|e: Entity|
                old(self).live(e) && old(self).pending@.contains(e) ==> final(self).gens@[e.id as int]
                    > e.gen || e.gen == u64::MAX,
    {
        let mut ids: Vec<usize> = Vec::new();
        let n = self.pending.len();
        let mut k: usize = 0;
        while k < n
            invariant
                self.wf(),
                n == old(self).pending@.len(),
                k <= n,
                self.pending@ == old(self).pending@,
                self.gens@.len() == old(self).gens@.len(),
                forall|j: int|
                    0 <= j < old(self).gens@.len() ==> self.gens@[j] >= old(self).gens@[j],
                forall|e: Entity|
                    old(self).live(e) && old(self).pending@.subrange(0, k as int).contains(e)
                        ==> self.gens@[e.id as int] > e.gen || e.gen == u64::MAX,
                forall|e: Entity|
                    self.live(e) <==> old(self).live(e) && !old(self).pending@.subrange(
                        0,
                        k as int,
                    ).contains(e),
                forall|id: int|
                    #[trigger] id_listed(ids@, id) <==> exists|j: int|
                        0 <= j < k && (#[trigger] old(self).pending@[j]).id == id && old(self).live(old(self).pending@[j]),
            decreases n - k,
        {
            let e = self.pending[k];
            let ghost pre = *self;
            let ghost pre_ids = ids@;
            proof {
                assert(self.live(e) <==> old(self).live(e) && !old(self).pending@.subrange(
                    0,
                    k as int,
                ).contains(e));
            }
            let is_live = e.id < self.gens.len() && self.alive[e.id] && self.gens[e.id] == e.gen;
            proof {
                assert(is_live == pre.live(e));
            }
            if is_live {
                self.alive[e.id] = false;
                let g = self.gens[e.id];
                if g < u64::MAX {
                    self.gens[e.id] = g + 1;
                    if g + 1 < u64::MAX {
                        self.free.push(e.id);
                    }
                }
                ids.push(e.id);
            }
            k += 1;
            proof {
                let prefix = old(self).pending@.subrange(0, k as int);
                let prev = old(self).pending@.subrange(0, k - 1);
                assert(prefix =~= prev.push(e));
                assert(old(self).pending@[k - 1] == e);
                // liveness after this entry
                assert forall|e2: Entity| self.live(e2) <==> old(self).live(e2)
                    && !prefix.contains(e2) by {
                    if prefix.contains(e2) {
                        let j = choose|j: int| 0 <= j < prefix.len() && prefix[j] == e2;
                        if j < k - 1 {
                            assert(prev[j] == e2);
                            assert(prev.contains(e2));
                        } else {
                            assert(e2 == e);
                        }
                    } else {
                        assert(!prev.contains(e2)) by {
                            if prev.contains(e2) {
                                let j = choose|j: int| 0 <= j < prev.len() && prev[j] == e2;
                                assert(prefix[j] == e2);
                            }
                        }
                        assert(prefix[prefix.len() - 1] == e);
                        if e2 == e {
                            assert(prefix.contains(e2));
                            assert(false);
                        }
                    }
                    if is_live {
                        if e2.id == e.id {
                            assert(!self.live(e2));
                        } else {
                            assert(self.live(e2) == pre.live(e2));
                        }
                    }
                }
                // the id list after this entry
                assert forall|id: int| #[trigger] id_listed(ids@, id) <==> exists|j: int|
                    0 <= j < k && (#[trigger] old(self).pending@[j]).id == id && old(self).live(
                        old(self).pending@[j],
                    ) by {
                    if is_live {
                        assert(ids@ =~= pre_ids.push(e.id));
                        assert(pre.live(e) && !prev.contains(e));
                        assert(old(self).live(e));
                        if id_listed(ids@, id) {
                            let j = choose|j: int| 0 <= j < ids@.len() && ids@[j] == id;
                            if j < pre_ids.len() {
                                assert(pre_ids[j] == id);
                                assert(id_listed(pre_ids, id));
                            } else {
                                assert(id == e.id);
                                assert((old(self).pending@[k - 1]).id == id && old(self).live(
                                    old(self).pending@[k - 1],
                                ));
                            }
                        }
                        if exists|j: int|
                            0 <= j < k && (#[trigger] old(self).pending@[j]).id == id && old(self).live(old(self).pending@[j]) {
                            let j = choose|j: int|
                                0 <= j < k && (#[trigger] old(self).pending@[j]).id == id && old(self).live(old(self).pending@[j]);
                            if j < k - 1 {
                                assert(id_listed(pre_ids, id));
                                let l = choose|l: int|
                                    0 <= l < pre_ids.len() && pre_ids[l] == id;
                                assert(ids@[l] == id);
                            } else {
                                assert(ids@[ids@.len() - 1] == e.id);
                            }
                            assert(id_listed(ids@, id));
                        }
                    } else {
                        // a dead or stale entry clears nothing
                        assert(ids@ == pre_ids);
                        if exists|j: int|
                            0 <= j < k && (#[trigger] old(self).pending@[j]).id == id && old(self).live(old(self).pending@[j]) {
                            let j = choose|j: int|
                                0 <= j < k && (#[trigger] old(self).pending@[j]).id == id && old(self).live(old(self).pending@[j]);
                            if j == k - 1 {
                                assert(old(self).live(e));
                                if prev.contains(e) {
                                    let l = choose|l: int| 0 <= l < prev.len() && prev[l] == e;
                                    assert((old(self).pending@[l]).id == id && old(self).live(
                                        old(self).pending@[l],
                                    ));
                                    assert(id_listed(pre_ids, id));
                                } else {
                                    assert(pre.live(e));
                                    assert(false);
                                }
                            } else {
                                assert(id_listed(pre_ids, id));
                            }
                        }
                    }
                }
            }
        }
        proof {
            assert(old(self).pending@.subrange(0, n as int) =~= old(self).pending@);
        }
        self.pending.clear();
        ids
    }
}

/// The context object owning every component storage and every shared
/// resource: the map, the log, the player handle and position, and the
/// run state. Each resolution system borrows exactly the parts it reads
/// and writes.
pub struct World {
    pub ents: EntityAllocator,
    pub positions: Storage<Position>,
    pub renderables: Storage<Renderable>,
    pub players: Storage<Player>,
    pub viewsheds: Storage<Viewshed>,
    pub monsters: Storage<Monster>,
    pub names: Storage<Name>,
    pub blockers: Storage<BlocksTile>,
    pub combat_stats: Storage<CombatStats>,
    pub melee_intents: Storage<WantsToMelee>,
    pub suffer_damage: Storage<SufferDamage>,
    pub items: Storage<Item>,
    pub consumables: Storage<Consumable>,
    pub provides_healing: Storage<ProvidesHealing>,
    pub backpacks: Storage<InBackpack>,
    pub pickup_intents: Storage<WantsToPickUpItem>,
    pub use_intents: Storage<WantsToUseItem>,
    pub drop_intents: Storage<WantsToDropItem>,
    pub remove_intents: Storage<WantsToRemoveItem>,
    pub ranged: Storage<Ranged>,
    pub inflicts_damage: Storage<InflictsDamage>,
    pub aoe: Storage<AreaOfEffect>,
    pub confusion: Storage<Confusion>,
    pub equippables: Storage<Equippable>,
    pub equipped: Storage<Equipped>,
    pub serialize_tags: Storage<SerializeMe>,
    pub map: GameMap,
    pub log: GameLog,
    pub player_entity: Entity,
    pub player_pos: Point,
    pub run_state: RunState,
}

impl World {
    /// Well-formedness of the world as a whole.
    pub open spec fn wf(&self) -> bool {
        &&& self.ents.wf()
        &&& self.map.wf()
    }

    /// A world over a generator-produced map: no entities yet, an empty
    /// log, the machine at the main menu.
    pub fn new(map: GameMap) -> (w: World)
        requires
            map.wf(),
        ensures
            w.wf(),
            w.map == map,
            w.ents.gens@.len() == 0,
            w.ents.pending@.len() == 0,
            w.log.entries@.len() == 0,
            w.run_state == RunState::MainMenu,
            forall|e: Entity| !w.ents.live(e),
    {
        World {
            ents: EntityAllocator::new(),
            positions: Storage::new(),
            renderables: Storage::new(),
            players: Storage::new(),
            viewsheds: Storage::new(),
            monsters: Storage::new(),
            names: Storage::new(),
            blockers: Storage::new(),
            combat_stats: Storage::new(),
            melee_intents: Storage::new(),
            suffer_damage: Storage::new(),
            items: Storage::new(),
            consumables: Storage::new(),
            provides_healing: Storage::new(),
            backpacks: Storage::new(),
            pickup_intents: Storage::new(),
            use_intents: Storage::new(),
            drop_intents: Storage::new(),
            remove_intents: Storage::new(),
            ranged: Storage::new(),
            inflicts_damage: Storage::new(),
            aoe: Storage::new(),
            confusion: Storage::new(),
            equippables: Storage::new(),
            equipped: Storage::new(),
            serialize_tags: Storage::new(),
            map,
            log: GameLog::new(),
            player_entity: Entity { id: 0, gen: 0 },
            player_pos: Point { x: 0, y: 0 },
            run_state: RunState::MainMenu,
        }
    }
}

/// The slots listed by the deferred deletions are gone from `news`;
/// every other slot is as it was in `olds`.
pub open spec fn storage_purged<T>(
    a: EntityAllocator,
    olds: Seq<Option<(u64, T)>>,
    news: Seq<Option<(u64, T)>>,
) -> bool {
    &&& news.len() == olds.len()
    &&& forall|i: int|
        0 <= i < olds.len() ==> news[i] == (if a.doomed(i) {
            None::<(u64, T)>
        } else {
            olds[i]
        })
}

impl World {
    /// The maintain point at the end of a pass: apply every deferred
    /// deletion. The affected entities die, stale handles to them stay
    /// dead forever, and every storage drops their components. Nothing
    /// else changes; in particular no storage gains a component, so a
    /// cleared intent store stays clear.
    pub fn maintain(&mut self)
        requires
            old(self).wf(),
        ensures
            final(self).wf(),
            final(self).ents.pending@.len() == 0,
            final(self).ents.gens@.len() == old(self).ents.gens@.len(),
            forall|e: Entity|
                final(self).ents.live(e) <==> old(self).ents.live(e)
                    && !old(self).ents.pending@.contains(e),
            forall|j: int|
                0 <= j < old(self).ents.gens@.len() ==> final(self).ents.gens@[j] >= old(self).ents.gens@[j],
            forall|e: Entity|
                old(self).ents.live(e) && old(self).ents.pending@.contains(e) ==> final(self).ents.gens@[e.id as int] > e.gen || e.gen == u64::MAX,
            storage_purged(old(self).ents, old(self).positions@, final(self).positions@),
            storage_purged(old(self).ents, old(self).renderables@, final(self).renderables@),
            storage_purged(old(self).ents, old(self).players@, final(self).players@),
            storage_purged(old(self).ents, old(self).viewsheds@, final(self).viewsheds@),
            storage_purged(old(self).ents, old(self).monsters@, final(self).monsters@),
            storage_purged(old(self).ents, old(self).names@, final(self).names@),
            storage_purged(old(self).ents, old(self).blockers@, final(self).blockers@),
            storage_purged(old(self).ents, old(self).combat_stats@, final(self).combat_stats@),
            storage_purged(old(self).ents, old(self).melee_intents@, final(self).melee_intents@),
            storage_purged(old(self).ents, old(self).suffer_damage@, final(self).suffer_damage@),
            storage_purged(old(self).ents, old(self).items@, final(self).items@),
            storage_purged(old(self).ents, old(self).consumables@, final(self).consumables@),
            storage_purged(old(self).ents, old(self).provides_healing@, final(self).provides_healing@),
            storage_purged(old(self).ents, old(self).backpacks@, final(self).backpacks@),
            storage_purged(old(self).ents, old(self).pickup_intents@, final(self).pickup_intents@),
            storage_purged(old(self).ents, old(self).use_intents@, final(self).use_intents@),
            storage_purged(old(self).ents, old(self).drop_intents@, final(self).drop_intents@),
            storage_purged(old(self).ents, old(self).remove_intents@, final(self).remove_intents@),
            storage_purged(old(self).ents, old(self).ranged@, final(self).ranged@),
            storage_purged(old(self).ents, old(self).inflicts_damage@, final(self).inflicts_damage@),
            storage_purged(old(self).ents, old(self).aoe@, final(self).aoe@),
            storage_purged(old(self).ents, old(self).confusion@, final(self).confusion@),
            storage_purged(old(self).ents, old(self).equippables@, final(self).equippables@),
            storage_purged(old(self).ents, old(self).equipped@, final(self).equipped@),
            storage_purged(old(self).ents, old(self).serialize_tags@, final(self).serialize_tags@),
            final(self).map == old(self).map,
            final(self).log == old(self).log,
            final(self).player_entity == old(self).player_entity,
            final(self).player_pos == old(self).player_pos,
            final(self).run_state == old(self).run_state,
    {
        let ids = self.ents.apply_pending();
        self.positions.purge(&ids);
        self.renderables.purge(&ids);
        self.players.purge(&ids);
        self.viewsheds.purge(&ids);
        self.monsters.purge(&ids);
        self.names.purge(&ids);
        self.blockers.purge(&ids);
        self.combat_stats.purge(&ids);
        self.melee_intents.purge(&ids);
        self.suffer_damage.purge(&ids);
        self.items.purge(&ids);
        self.consumables.purge(&ids);
        self.provides_healing.purge(&ids);
        self.backpacks.purge(&ids);
        self.pickup_intents.purge(&ids);
        self.use_intents.purge(&ids);
        self.drop_intents.purge(&ids);
        self.remove_intents.purge(&ids);
        self.ranged.purge(&ids);
        self.inflicts_damage.purge(&ids);
        self.aoe.purge(&ids);
        self.confusion.purge(&ids);
        self.equippables.purge(&ids);
        self.equipped.purge(&ids);
        self.serialize_tags.purge(&ids);
    }
}

} // verus!
