//! The entity/attribute store: a typed registry of parallel sparse columns,
//! one per attribute kind, keyed by entity identifier, with a command buffer
//! for deferred structural deletion.

use vstd::prelude::*;
use crate::components::{
    CombatStats, BlocksTile, InBackpack, Item, Monster, Name, Player, Position, Potion, Renderable,
    SufferDamage, Viewshed, WantsToConsumeItem, WantsToMelee, WantsToPickupItem,
};

verus! {

/// An opaque, stable identifier for a simulation entity: an index into the
/// parallel attribute columns of the store.  Identifiers are never reused.
pub type Entity = usize;

/// The process-wide entity/attribute store.
///
/// Every column has the same length; entry `e` of a column holds entity `e`'s
/// attribute of that kind, if any.  Deletions requested during a tick are
/// queued in `pending_deletes` and applied at the explicit synchronization
/// point (`maintain`), never in the middle of an iteration.
#[derive(Clone, Debug)]
pub struct World {
    pub alive: Vec<bool>,
    pub positions: Vec<Option<Position>>,
    pub renderables: Vec<Option<Renderable>>,
    pub names: Vec<Option<Name>>,
    pub viewsheds: Vec<Option<Viewshed>>,
    pub combat_stats: Vec<Option<CombatStats>>,
    pub players: Vec<Option<Player>>,
    pub monsters: Vec<Option<Monster>>,
    pub blockers: Vec<Option<BlocksTile>>,
    pub items: Vec<Option<Item>>,
    pub potions: Vec<Option<Potion>>,
    pub backpacks: Vec<Option<InBackpack>>,
    pub melee_intents: Vec<Option<WantsToMelee>>,
    pub suffer_damage: Vec<Option<SufferDamage>>,
    pub pickup_intents: Vec<Option<WantsToPickupItem>>,
    pub consume_intents: Vec<Option<WantsToConsumeItem>>,
    pub pending_deletes: Vec<Entity>,
}

/// Entity `e` carries exactly the same attributes in `w2` as in `w1`.
pub open spec fn entity_unchanged(w1: World, w2: World, e: int) -> bool {
    &&& w2.alive@[e] == w1.alive@[e]
    &&& w2.positions@[e] == w1.positions@[e]
    &&& w2.renderables@[e] == w1.renderables@[e]
    &&& w2.names@[e] == w1.names@[e]
    &&& w2.viewsheds@[e] == w1.viewsheds@[e]
    &&& w2.combat_stats@[e] == w1.combat_stats@[e]
    &&& w2.players@[e] == w1.players@[e]
    &&& w2.monsters@[e] == w1.monsters@[e]
    &&& w2.blockers@[e] == w1.blockers@[e]
    &&& w2.items@[e] == w1.items@[e]
    &&& w2.potions@[e] == w1.potions@[e]
    &&& w2.backpacks@[e] == w1.backpacks@[e]
    &&& w2.melee_intents@[e] == w1.melee_intents@[e]
    &&& w2.suffer_damage@[e] == w1.suffer_damage@[e]
    &&& w2.pickup_intents@[e] == w1.pickup_intents@[e]
    &&& w2.consume_intents@[e] == w1.consume_intents@[e]
}

/// Entity `e` carries the same attributes in `w2` as in `w1`, except that
/// its viewshed may differ.
pub open spec fn entity_unchanged_but_viewshed(w1: World, w2: World, e: int) -> bool {
    &&& w2.alive@[e] == w1.alive@[e]
    &&& w2.positions@[e] == w1.positions@[e]
    &&& w2.renderables@[e] == w1.renderables@[e]
    &&& w2.names@[e] == w1.names@[e]
    &&& w2.combat_stats@[e] == w1.combat_stats@[e]
    &&& w2.players@[e] == w1.players@[e]
    &&& w2.monsters@[e] == w1.monsters@[e]
    &&& w2.blockers@[e] == w1.blockers@[e]
    &&& w2.items@[e] == w1.items@[e]
    &&& w2.potions@[e] == w1.potions@[e]
    &&& w2.backpacks@[e] == w1.backpacks@[e]
    &&& w2.melee_intents@[e] == w1.melee_intents@[e]
    &&& w2.suffer_damage@[e] == w1.suffer_damage@[e]
    &&& w2.pickup_intents@[e] == w1.pickup_intents@[e]
    &&& w2.consume_intents@[e] == w1.consume_intents@[e]
}

/// Entity `e` is dead and stripped of every attribute.
pub open spec fn entity_cleared(w: World, e: int) -> bool {
    &&& !w.alive@[e]
    &&& w.positions@[e] is None
    &&& w.renderables@[e] is None
    &&& w.names@[e] is None
    &&& w.viewsheds@[e] is None
    &&& w.combat_stats@[e] is None
    &&& w.players@[e] is None
    &&& w.monsters@[e] is None
    &&& w.blockers@[e] is None
    &&& w.items@[e] is None
    &&& w.potions@[e] is None
    &&& w.backpacks@[e] is None
    &&& w.melee_intents@[e] is None
    &&& w.suffer_damage@[e] is None
    &&& w.pickup_intents@[e] is None
    &&& w.consume_intents@[e] is None
}

impl World {
    /// Number of entity slots ever created.
    pub open spec fn spec_len(self) -> int {
        self.alive@.len() as int
    }

    /// Well-formed: every column covers every entity, and every stored
    /// attribute satisfies its record-level bounds.
    pub open spec fn spec_wf(self) -> bool {
        &&& self.positions@.len() == self.spec_len()
        &&& self.renderables@.len() == self.spec_len()
        &&& self.names@.len() == self.spec_len()
        &&& self.viewsheds@.len() == self.spec_len()
        &&& self.combat_stats@.len() == self.spec_len()
        &&& self.players@.len() == self.spec_len()
        &&& self.monsters@.len() == self.spec_len()
        &&& self.blockers@.len() == self.spec_len()
        &&& self.items@.len() == self.spec_len()
        &&& self.potions@.len() == self.spec_len()
        &&& self.backpacks@.len() == self.spec_len()
        &&& self.melee_intents@.len() == self.spec_len()
        &&& self.suffer_damage@.len() == self.spec_len()
        &&& self.pickup_intents@.len() == self.spec_len()
        &&& self.consume_intents@.len() == self.spec_len()
        &&& forall|e: int|
            0 <= e < self.spec_len() ==> (#[trigger] self.combat_stats@[e] matches Some(s)
                ==> s.wf())
        &&& forall|e: int|
            0 <= e < self.spec_len() ==> (#[trigger] self.suffer_damage@[e] matches Some(d)
                ==> forall|k: int| 0 <= k < d.amount@.len() ==> #[trigger] d.amount@[k] >= 0)
        &&& forall|e: int|
            0 <= e < self.spec_len() ==> (#[trigger] self.potions@[e] matches Some(p) ==> 0
                <= p.heal_amount <= crate::components::STAT_BOUND)
        &&& forall|e: int|
            0 <= e < self.spec_len() ==> (#[trigger] self.viewsheds@[e] matches Some(v) ==> 0
                <= v.range <= 1000)
    }

    /// A fresh, empty store.
    pub fn new() -> (w: World)
        ensures
            w.spec_wf(),
            w.spec_len() == 0,
            w.pending_deletes@.len() == 0,
    {
        World {
            alive: Vec::new(),
            positions: Vec::new(),
            renderables: Vec::new(),
            names: Vec::new(),
            viewsheds: Vec::new(),
            combat_stats: Vec::new(),
            players: Vec::new(),
            monsters: Vec::new(),
            blockers: Vec::new(),
            items: Vec::new(),
            potions: Vec::new(),
            backpacks: Vec::new(),
            melee_intents: Vec::new(),
            suffer_damage: Vec::new(),
            pickup_intents: Vec::new(),
            consume_intents: Vec::new(),
            pending_deletes: Vec::new(),
        }
    }

    pub fn len(&self) -> (n: usize)
        ensures
            n == self.spec_len(),
    {
        self.alive.len()
    }

    /// Create a fresh, alive entity with no attributes; its identifier is
    /// stable for the life of the store.
    pub fn create_entity(&mut self) -> (e: Entity)
        requires
            old(self).spec_wf(),
            old(self).spec_len() < usize::MAX,
        ensures
            final(self).spec_wf(),
            e == old(self).spec_len(),
            final(self).spec_len() == old(self).spec_len() + 1,
            final(self).alive@[e as int],
            final(self).positions@[e as int] is None,
            final(self).renderables@[e as int] is None,
            final(self).names@[e as int] is None,
            final(self).viewsheds@[e as int] is None,
            final(self).combat_stats@[e as int] is None,
            final(self).players@[e as int] is None,
            final(self).monsters@[e as int] is None,
            final(self).blockers@[e as int] is None,
            final(self).items@[e as int] is None,
            final(self).potions@[e as int] is None,
            final(self).backpacks@[e as int] is None,
            final(self).melee_intents@[e as int] is None,
            final(self).suffer_damage@[e as int] is None,
            final(self).pickup_intents@[e as int] is None,
            final(self).consume_intents@[e as int] is None,
            forall|d: int| 0 <= d < old(self).spec_len() ==> entity_unchanged(*old(self), *final(self), d),
            final(self).pending_deletes@ == old(self).pending_deletes@,
    {
        let e = self.alive.len();
        self.alive.push(true);
        self.positions.push(None);
        self.renderables.push(None);
        self.names.push(None);
        self.viewsheds.push(None);
        self.combat_stats.push(None);
        self.players.push(None);
        self.monsters.push(None);
        self.blockers.push(None);
        self.items.push(None);
        self.potions.push(None);
        self.backpacks.push(None);
        self.melee_intents.push(None);
        self.suffer_damage.push(None);
        self.pickup_intents.push(None);
        self.consume_intents.push(None);
        e
    }

    /// Queue `e` for deletion at the next synchronization point.
    pub fn delete_entity(&mut self, e: Entity)
        requires
            old(self).spec_wf(),
        ensures
            final(self).spec_wf(),
            final(self).spec_len() == old(self).spec_len(),
            final(self).pending_deletes@ == old(self).pending_deletes@.push(e),
            forall|d: int| 0 <= d < old(self).spec_len() ==> entity_unchanged(*old(self), *final(self), d),
    {
        self.pending_deletes.push(e);
    }

    /// The explicit synchronization point: apply every queued deletion,
    /// stripping the entity of all attributes and marking it dead.
    pub fn maintain(&mut self)
        requires
            old(self).spec_wf(),
        ensures
            final(self).spec_wf(),
            final(self).spec_len() == old(self).spec_len(),
            final(self).pending_deletes@.len() == 0,
            forall|e: Entity|
                e < old(self).spec_len() && old(self).pending_deletes@.contains(e)
                    ==> entity_cleared(*final(self), e as int),
            forall|e: Entity|
                e < old(self).spec_len() && !old(self).pending_deletes@.contains(e)
                    ==> entity_unchanged(*old(self), *final(self), e as int),
    {
        let n_pending = self.pending_deletes.len();
        let mut i: usize = 0;
        while i < n_pending
            invariant
                self.spec_wf(),
                self.spec_len() == old(self).spec_len(),
                self.pending_deletes@ == old(self).pending_deletes@,
                n_pending == self.pending_deletes@.len(),
                i <= n_pending,
                forall|e: int|
                    0 <= e < old(self).spec_len() && (exists|k: int|
                        0 <= k < i && old(self).pending_deletes@[k] == e) ==> entity_cleared(
                        *self,
                        e,
                    ),
                forall|e: int|
                    0 <= e < old(self).spec_len() && !(exists|k: int|
                        0 <= k < i && old(self).pending_deletes@[k] == e) ==> entity_unchanged(
                        *old(self),
                        *self,
                        e,
                    ),
            decreases n_pending - i,
        {
            let ghost prev = *self;
            let d = self.pending_deletes[i];
            if d < self.alive.len() {
                self.alive[d] = false;
                self.positions[d] = None;
                self.renderables[d] = None;
                self.names[d] = None;
                self.viewsheds[d] = None;
                self.combat_stats[d] = None;
                self.players[d] = None;
                self.monsters[d] = None;
                self.blockers[d] = None;
                self.items[d] = None;
                self.potions[d] = None;
                self.backpacks[d] = None;
                self.melee_intents[d] = None;
                self.suffer_damage[d] = None;
                self.pickup_intents[d] = None;
                self.consume_intents[d] = None;
            }
            proof {
                let pd = old(self).pending_deletes@;
                assert forall|e: int|
                    0 <= e < old(self).spec_len() && (exists|k: int|
                        0 <= k < i + 1 && pd[k] == e) implies entity_cleared(*self, e) by {
                    let k = choose|k: int| 0 <= k < i + 1 && pd[k] == e;
                    if k < i {
                        assert(entity_cleared(prev, e));
                    } else {
                        assert(e == d as int);
                    }
                }
                assert forall|e: int|
                    0 <= e < old(self).spec_len() && !(exists|k: int|
                        0 <= k < i + 1 && pd[k] == e) implies entity_unchanged(
                    *old(self),
                    *self,
                    e,
                ) by {
                    assert(!(exists|k: int| 0 <= k < i && pd[k] == e));
                    assert(entity_unchanged(*old(self), prev, e));
                    assert(e != d as int) by {
                        if e == d as int {
                            assert(0 <= i < i + 1 && pd[i as int] == e);
                        }
                    }
                }
            }
            i = i + 1;
        }
        proof {
            let pd = old(self).pending_deletes@;
            assert forall|e: Entity|
                e < old(self).spec_len() && #[trigger] pd.contains(e) implies entity_cleared(
                *self,
                e as int,
            ) by {
                let k = choose|k: int| 0 <= k < pd.len() && pd[k] == e;
                assert(0 <= k < n_pending && pd[k] == e as int);
            }
            assert forall|e: Entity|
                e < old(self).spec_len() && !(#[trigger] pd.contains(e)) implies entity_unchanged(
                *old(self),
                *self,
                e as int,
            ) by {
                assert(!(exists|k: int| 0 <= k < n_pending && pd[k] == e as int)) by {
                    if exists|k: int| 0 <= k < n_pending && pd[k] == e as int {
                        let k = choose|k: int| 0 <= k < n_pending && pd[k] == e as int;
                        assert(0 <= k < pd.len() && pd[k] == e);
                    }
                }
            }
        }
        self.pending_deletes.clear();
    }

    /// Is `e` a live entity?
    pub fn is_alive(&self, e: Entity) -> (r: bool)
        requires
            self.spec_wf(),
        ensures
            r == (e < self.spec_len() && self.alive@[e as int]),
    {
        e < self.alive.len() && self.alive[e]
    }
}

} // verus!
