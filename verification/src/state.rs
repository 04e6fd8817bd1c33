//! The turn scheduler: one process-wide state value drives the simulation
//! pipeline, with transitions a pure function of the current state and the
//! decoded player input.

use vstd::prelude::*;
use crate::components::{Position, RunState, WantsToConsumeItem};
use crate::map::TileType;
use crate::gamelog::GameLog;
use crate::map::{GameMap, positions_in_bounds};
use crate::player::PlayerMove;
use crate::viewport::Viewport;
use crate::world::{Entity, World};

verus! {

/// The whole simulation context: the attribute store, the map, the shared
/// player handle and position, the scheduler state and the log.
#[derive(Debug)]
pub struct State {
    pub viewport: Viewport,
    pub ecs: World,
    pub map: GameMap,
    pub player_entity: Entity,
    pub player_pos: Position,
    pub run_state: RunState,
    pub log: GameLog,
}

/// The scheduler's transition function: a pure function of the current
/// state and the decoded input.  `PreRun` settles into waiting; waiting
/// leaves only on an action input; a player turn is always followed by the
/// monster turn, which returns to waiting.
pub open spec fn spec_next_state(s: RunState, input: PlayerMove) -> RunState {
    match s {
        RunState::PreRun => RunState::AwaitingInput,
        RunState::AwaitingInput => match input {
            PlayerMove::Move(dx, dy) => RunState::PlayerTurn,
            PlayerMove::PickupItem => RunState::PlayerTurn,
            PlayerMove::UseItem(it) => RunState::PlayerTurn,
            _ => RunState::AwaitingInput,
        },
        RunState::PlayerTurn => RunState::MonsterTurn,
        RunState::MonsterTurn => RunState::AwaitingInput,
    }
}


/// Effect of the potion-use stage: stats healed, consume intents drained,
/// drunk potions queued for deletion, the player's drinks logged; every
/// other column untouched.
pub open spec fn spec_stage_item_use(
    w0: World,
    w1: World,
    pe: Entity,
    l0: Seq<String>,
    l1: Seq<String>,
) -> bool {
    &&& w1.spec_len() == w0.spec_len()
    &&& w1.alive@ == w0.alive@
    &&& w1.positions@ == w0.positions@
    &&& w1.renderables@ == w0.renderables@
    &&& w1.names@ == w0.names@
    &&& w1.viewsheds@ == w0.viewsheds@
    &&& w1.players@ == w0.players@
    &&& w1.monsters@ == w0.monsters@
    &&& w1.blockers@ == w0.blockers@
    &&& w1.items@ == w0.items@
    &&& w1.potions@ == w0.potions@
    &&& w1.backpacks@ == w0.backpacks@
    &&& w1.melee_intents@ == w0.melee_intents@
    &&& w1.suffer_damage@ == w0.suffer_damage@
    &&& w1.pickup_intents@ == w0.pickup_intents@
    &&& forall|e: int| 0 <= e < w0.spec_len() ==> w1.consume_intents@[e] is None
    &&& forall|e: int|
        0 <= e < w0.spec_len() ==> #[trigger] w1.combat_stats@[e]
            == crate::inventory_system::spec_healed_stats(w0, e)
    &&& w1.pending_deletes@ == w0.pending_deletes@ + crate::inventory_system::spec_consumed_marks(
        w0,
        w0.spec_len(),
    )
    &&& l1.len() == l0.len() + crate::inventory_system::spec_drink_lines(
        w0,
        pe,
        w0.spec_len(),
    ).len()
    &&& forall|k: int| 0 <= k < l0.len() ==> #[trigger] l1[k] == l0[k]
    &&& forall|k: int|
        0 <= k < crate::inventory_system::spec_drink_lines(w0, pe, w0.spec_len()).len()
            ==> (#[trigger] l1[l0.len() + k])@ == crate::inventory_system::spec_drink_lines(
            w0,
            pe,
            w0.spec_len(),
        )[k]
}

/// Effect of the visibility pass: dirty viewsheds recomputed against the
/// incoming terrain, the reveal mask grown monotonically, and visible tiles
/// kept a subset of revealed ones.
pub open spec fn spec_stage_visibility(w1: World, w2: World, m1: GameMap, m2: GameMap) -> bool {
    &&& w2.spec_len() == w1.spec_len()
    &&& m2.size == m1.size
    &&& m2.tiles@ == m1.tiles@
    &&& m2.rooms@ == m1.rooms@
    &&& m2.blocked@ == m1.blocked@
    &&& m2.tile_content@ == m1.tile_content@
    &&& w2.pending_deletes@ == w1.pending_deletes@
    &&& forall|e: int|
        0 <= e < w1.spec_len() ==> crate::world::entity_unchanged_but_viewshed(w1, w2, e)
    &&& forall|e: int|
        0 <= e < w1.spec_len() && !crate::visibility_system::spec_needs_recompute(w1, e)
            ==> w2.viewsheds@[e] == w1.viewsheds@[e]
    &&& forall|e: int|
        0 <= e < w1.spec_len() && w1.alive@[e] && w1.positions@[e] is Some
            ==> (#[trigger] w1.viewsheds@[e] matches Some(v) ==> (w2.viewsheds@[e] matches Some(nv)
            && !nv.dirty && nv.range == v.range))
    &&& forall|e: int|
        0 <= e < w1.spec_len() && crate::visibility_system::spec_needs_recompute(w1, e) ==> (
        #[trigger] w1.viewsheds@[e] matches Some(v) ==> (w1.positions@[e] matches Some(p) ==> (
        w2.viewsheds@[e] matches Some(nv) && nv.range == v.range && !nv.dirty && (forall|
            q: Position,
        |
            nv.visible_tiles@.contains(q) <==> crate::visibility_system::spec_visible(
                m1,
                p,
                v.range as int,
                q,
            )))))
    &&& forall|i: int|
        0 <= i < m1.size.spec_area() && m1.revealed_tiles@[i] ==> m2.revealed_tiles@[i]
    &&& ((forall|i: int|
        0 <= i < m1.size.spec_area() && m1.visible_tiles@[i] ==> m1.revealed_tiles@[i]) ==> (forall|
        i: int,
    |
        0 <= i < m1.size.spec_area() && m2.visible_tiles@[i] ==> m2.revealed_tiles@[i]))
}

/// Effect of the behavior pass: during the monster phase every monster acted
/// per `spec_monster_acted`; otherwise nothing moved.
pub open spec fn spec_stage_behavior(
    w2: World,
    w3: World,
    m: GameMap,
    ppos: Position,
    pe: Entity,
    rs: RunState,
) -> bool {
    &&& w3.spec_len() == w2.spec_len()
    &&& (rs != RunState::MonsterTurn ==> w3 == w2)
    &&& w3.alive@ == w2.alive@
    &&& w3.renderables@ == w2.renderables@
    &&& w3.names@ == w2.names@
    &&& w3.combat_stats@ == w2.combat_stats@
    &&& w3.players@ == w2.players@
    &&& w3.monsters@ == w2.monsters@
    &&& w3.blockers@ == w2.blockers@
    &&& w3.items@ == w2.items@
    &&& w3.potions@ == w2.potions@
    &&& w3.backpacks@ == w2.backpacks@
    &&& w3.suffer_damage@ == w2.suffer_damage@
    &&& w3.pickup_intents@ == w2.pickup_intents@
    &&& w3.consume_intents@ == w2.consume_intents@
    &&& w3.pending_deletes@ == w2.pending_deletes@
    &&& forall|e: int|
        0 <= e < w2.spec_len() && !crate::behavior::spec_is_monster_actor(w2, e)
            ==> crate::world::entity_unchanged(w2, w3, e)
    &&& (rs == RunState::MonsterTurn ==> forall|e: int|
        0 <= e < w2.spec_len() && #[trigger] crate::behavior::spec_is_monster_actor(w2, e)
            ==> crate::behavior::spec_monster_acted(w2, w3, m, ppos, pe, e))
}

/// Effect of the index rebuild: the blocking mask is exactly Walls plus live
/// blocking occupants, and the occupancy lists hold exactly the live
/// occupants.
pub open spec fn spec_stage_index(w: World, m_in: GameMap, m_out: GameMap) -> bool {
    &&& m_out.size == m_in.size
    &&& m_out.tiles@ == m_in.tiles@
    &&& m_out.rooms@ == m_in.rooms@
    &&& m_out.revealed_tiles@ == m_in.revealed_tiles@
    &&& m_out.visible_tiles@ == m_in.visible_tiles@
    &&& forall|i: int|
        0 <= i < m_in.size.spec_area() ==> (m_out.blocked@[i] <==> (m_in.tiles@[i]
            == TileType::Wall || exists|e: int|
            crate::map_indexing_system::spec_blocker_at(w, m_in, e, i)))
    &&& forall|i: int, e: Entity|
        0 <= i < m_in.size.spec_area() ==> (#[trigger] m_out.tile_content@[i]@.contains(e)
            <==> crate::map_indexing_system::spec_occupant_at(w, m_in, e as int, i))
}

/// Effect of melee resolution: accumulators extended by exactly the
/// per-attacker contributions, all intents consumed, nothing else touched.
pub open spec fn spec_stage_melee(w3: World, w4: World) -> bool {
    &&& w4.spec_len() == w3.spec_len()
    &&& w4.alive@ == w3.alive@
    &&& w4.positions@ == w3.positions@
    &&& w4.renderables@ == w3.renderables@
    &&& w4.names@ == w3.names@
    &&& w4.viewsheds@ == w3.viewsheds@
    &&& w4.combat_stats@ == w3.combat_stats@
    &&& w4.players@ == w3.players@
    &&& w4.monsters@ == w3.monsters@
    &&& w4.blockers@ == w3.blockers@
    &&& w4.items@ == w3.items@
    &&& w4.potions@ == w3.potions@
    &&& w4.backpacks@ == w3.backpacks@
    &&& w4.pickup_intents@ == w3.pickup_intents@
    &&& w4.consume_intents@ == w3.consume_intents@
    &&& w4.pending_deletes@ == w3.pending_deletes@
    &&& forall|e: int| 0 <= e < w3.spec_len() ==> w4.melee_intents@[e] is None
    &&& forall|t: int|
        0 <= t < w3.spec_len() ==> ((#[trigger] w4.suffer_damage@[t]) is Some <==> (
        w3.suffer_damage@[t] is Some || crate::melee_combat_system::spec_contribs(
            w3,
            t,
            w3.spec_len(),
        ).len() > 0))
    &&& forall|t: int|
        0 <= t < w3.spec_len() ==> (#[trigger] w4.suffer_damage@[t] matches Some(d) ==> d.amount@
            == crate::melee_combat_system::spec_old_amounts(w3, t)
            + crate::melee_combat_system::spec_contribs(w3, t, w3.spec_len()))
}

/// Effect of damage application: hit points clamped down by the accumulated
/// damage, accumulators drained.
pub open spec fn spec_stage_damage(w4: World, w5: World) -> bool {
    &&& w5.spec_len() == w4.spec_len()
    &&& w5.alive@ == w4.alive@
    &&& w5.positions@ == w4.positions@
    &&& w5.renderables@ == w4.renderables@
    &&& w5.names@ == w4.names@
    &&& w5.viewsheds@ == w4.viewsheds@
    &&& w5.players@ == w4.players@
    &&& w5.monsters@ == w4.monsters@
    &&& w5.blockers@ == w4.blockers@
    &&& w5.items@ == w4.items@
    &&& w5.potions@ == w4.potions@
    &&& w5.backpacks@ == w4.backpacks@
    &&& w5.melee_intents@ == w4.melee_intents@
    &&& w5.pickup_intents@ == w4.pickup_intents@
    &&& w5.consume_intents@ == w4.consume_intents@
    &&& w5.pending_deletes@ == w4.pending_deletes@
    &&& forall|e: int| 0 <= e < w4.spec_len() ==> w5.suffer_damage@[e] is None
    &&& forall|e: int|
        0 <= e < w4.spec_len() ==> #[trigger] w5.combat_stats@[e]
            == crate::damage_system::spec_damaged_stats(w4, e)
}

/// Effect of the death sweep: dead non-players queued, their deaths logged.
pub open spec fn spec_stage_death(w5: World, w6: World, l5: Seq<String>, l6: Seq<String>) -> bool {
    &&& w6.spec_len() == w5.spec_len()
    &&& forall|d: int|
        0 <= d < w5.spec_len() ==> crate::world::entity_unchanged(w5, w6, d)
    &&& w6.pending_deletes@ == w5.pending_deletes@ + crate::damage_system::spec_dead_marks(
        w5,
        w5.spec_len(),
    )
    &&& l6.len() == l5.len() + crate::damage_system::spec_death_lines(w5, w5.spec_len()).len()
    &&& forall|k: int| 0 <= k < l5.len() ==> #[trigger] l6[k] == l5[k]
    &&& forall|k: int|
        0 <= k < crate::damage_system::spec_death_lines(w5, w5.spec_len()).len()
            ==> (#[trigger] l6[l5.len() + k])@ == crate::damage_system::spec_death_lines(
            w5,
            w5.spec_len(),
        )[k]
}

/// Effect of item collection: picked items leave the map into backpacks,
/// the player's pickups are logged, intents drained.
pub open spec fn spec_stage_collect(
    w6: World,
    w7: World,
    pe: Entity,
    l6: Seq<String>,
    l7: Seq<String>,
) -> bool {
    &&& w7.spec_len() == w6.spec_len()
    &&& w7.alive@ == w6.alive@
    &&& w7.renderables@ == w6.renderables@
    &&& w7.names@ == w6.names@
    &&& w7.viewsheds@ == w6.viewsheds@
    &&& w7.combat_stats@ == w6.combat_stats@
    &&& w7.players@ == w6.players@
    &&& w7.monsters@ == w6.monsters@
    &&& w7.blockers@ == w6.blockers@
    &&& w7.items@ == w6.items@
    &&& w7.potions@ == w6.potions@
    &&& w7.melee_intents@ == w6.melee_intents@
    &&& w7.suffer_damage@ == w6.suffer_damage@
    &&& w7.consume_intents@ == w6.consume_intents@
    &&& w7.pending_deletes@ == w6.pending_deletes@
    &&& forall|e: int| 0 <= e < w6.spec_len() ==> w7.pickup_intents@[e] is None
    &&& forall|i: int|
        0 <= i < w6.spec_len() && (exists|e: int|
            crate::inventory_system::spec_picks(w6, e, i)) ==> w7.positions@[i] is None && (
        w7.backpacks@[i] matches Some(b) && exists|e: int|
            crate::inventory_system::spec_picks(w6, e, i)
                && w6.pickup_intents@[e]->Some_0.collected_by == b.owner)
    &&& forall|i: int|
        0 <= i < w6.spec_len() && !(exists|e: int|
            crate::inventory_system::spec_picks(w6, e, i)) ==> w7.positions@[i]
            == w6.positions@[i] && w7.backpacks@[i] == w6.backpacks@[i]
    &&& l7.len() == l6.len() + crate::inventory_system::spec_pickup_lines(
        w6,
        pe,
        w6.spec_len(),
    ).len()
    &&& forall|k: int| 0 <= k < l6.len() ==> #[trigger] l7[k] == l6[k]
    &&& forall|k: int|
        0 <= k < crate::inventory_system::spec_pickup_lines(w6, pe, w6.spec_len()).len()
            ==> (#[trigger] l7[l6.len() + k])@ == crate::inventory_system::spec_pickup_lines(
            w6,
            pe,
            w6.spec_len(),
        )[k]
}

/// Effect of the synchronization point: every queued entity cleared, every
/// other entity untouched, the queue emptied.
pub open spec fn spec_stage_maintain(w7: World, w8: World) -> bool {
    &&& w8.spec_len() == w7.spec_len()
    &&& w8.pending_deletes@.len() == 0
    &&& forall|e: Entity|
        e < w7.spec_len() && w7.pending_deletes@.contains(e) ==> crate::world::entity_cleared(
            w8,
            e as int,
        )
    &&& forall|e: Entity|
        e < w7.spec_len() && !w7.pending_deletes@.contains(e) ==> crate::world::entity_unchanged(
            w7,
            w8,
            e as int,
        )
}

/// The whole pipeline, stage by stage: there are intermediate store, map
/// and log states chaining the potion stage, the visibility pass, behavior,
/// the index rebuild, melee resolution, damage application, the death
/// sweep, item collection and the synchronization point, in that order.
pub open spec fn spec_pipeline_chain(
    pre: State,
    post: State,
    w1: World,
    w2: World,
    m2: GameMap,
    w3: World,
    w4: World,
    w5: World,
    w6: World,
    w7: World,
    l1: Seq<String>,
    l6: Seq<String>,
) -> bool {
    &&& spec_stage_item_use(pre.ecs, w1, pre.player_entity, pre.log.entries@, l1)
    &&& spec_stage_visibility(w1, w2, pre.map, m2)
    &&& spec_stage_behavior(w2, w3, m2, pre.player_pos, pre.player_entity, pre.run_state)
    &&& spec_stage_index(w3, m2, post.map)
    &&& spec_stage_melee(w3, w4)
    &&& spec_stage_damage(w4, w5)
    &&& spec_stage_death(w5, w6, l1, l6)
    &&& spec_stage_collect(w6, w7, pre.player_entity, l6, post.log.entries@)
    &&& spec_stage_maintain(w7, post.ecs)
}

/// One full pipeline pass ran between `pre` and `post`.
pub open spec fn spec_pipeline_post(pre: State, post: State) -> bool {
    exists|w1: World, w2: World, m2: GameMap, w3: World, w4: World, w5: World, w6: World, w7: World, l1: Seq<String>, l6: Seq<String>|
        spec_pipeline_chain(pre, post, w1, w2, m2, w3, w4, w5, w6, w7, l1, l6)
}

impl State {
    /// Well-formed simulation context: store and map well-formed and
    /// consistent, a live tagged player that owns no potion attribute, no
    /// deletion pending across tick boundaries, and the player handle in
    /// bounds.
    pub open spec fn spec_wf(self) -> bool {
        &&& self.ecs.spec_wf()
        &&& self.map.spec_wf()
        &&& positions_in_bounds(self.ecs, self.map)
        &&& self.player_entity < self.ecs.spec_len()
        &&& self.ecs.alive@[self.player_entity as int]
        &&& self.ecs.players@[self.player_entity as int] is Some
        &&& self.ecs.potions@[self.player_entity as int] is None
        &&& self.ecs.pending_deletes@.len() == 0
        &&& self.map.spec_in_bounds(self.player_pos)
        &&& self.map.size.spec_width() >= 3
        &&& self.map.size.spec_height() >= 3
    }

    /// One full pipeline pass, in the fixed per-phase order: potion use,
    /// visibility, behavior, spatial index rebuild, melee resolution, damage
    /// application, death sweep, item collection, and the structural
    /// synchronization point.  Every intent and accumulator created during
    /// the tick is drained before it ends, the player survives the sweep,
    /// the reveal mask only grows, and visible tiles stay a subset of
    /// revealed ones.
    #[verifier::rlimit(100)]
    pub fn run_systems(&mut self)
        requires
            old(self).spec_wf(),
        ensures
            final(self).spec_wf(),
            final(self).ecs.spec_len() == old(self).ecs.spec_len(),
            final(self).run_state == old(self).run_state,
            final(self).player_entity == old(self).player_entity,
            final(self).player_pos == old(self).player_pos,
            final(self).viewport == old(self).viewport,
            forall|e: int|
                0 <= e < final(self).ecs.spec_len() ==> final(self).ecs.melee_intents@[e] is None,
            forall|e: int|
                0 <= e < final(self).ecs.spec_len() ==> final(self).ecs.suffer_damage@[e] is None,
            forall|e: int|
                0 <= e < final(self).ecs.spec_len() ==> final(self).ecs.pickup_intents@[e]
                    is None,
            forall|e: int|
                0 <= e < final(self).ecs.spec_len() ==> final(self).ecs.consume_intents@[e]
                    is None,
            final(self).map.size == old(self).map.size,
            forall|i: int|
                0 <= i < old(self).map.size.spec_area() && old(self).map.revealed_tiles@[i]
                    ==> final(self).map.revealed_tiles@[i],
            (forall|i: int|
                0 <= i < old(self).map.size.spec_area() && old(self).map.visible_tiles@[i]
                    ==> old(self).map.revealed_tiles@[i]) ==> (forall|i: int|
                0 <= i < old(self).map.size.spec_area() && final(self).map.visible_tiles@[i]
                    ==> final(self).map.revealed_tiles@[i]),
            spec_pipeline_post(*old(self), *final(self)),
            (old(self).run_state != RunState::MonsterTurn && (forall|e: int|
                0 <= e < old(self).ecs.spec_len() ==> (#[trigger] old(self).ecs.viewsheds@[e] matches Some(v) ==> !v.dirty)) && (forall|e: int|
                0 <= e < old(self).ecs.spec_len() ==> old(self).ecs.melee_intents@[e] is None
                    && old(self).ecs.suffer_damage@[e] is None && old(self).ecs.pickup_intents@[e]
                    is None && old(self).ecs.consume_intents@[e] is None) && (forall|e: int|
                0 <= e < old(self).ecs.spec_len() ==> !crate::damage_system::spec_is_dead(
                    old(self).ecs,
                    e,
                ))) ==> (forall|e: int|
                0 <= e < old(self).ecs.spec_len() ==> final(self).ecs.viewsheds@[e] == old(self).ecs.viewsheds@[e]) && final(self).map.visible_tiles@ == old(self).map.visible_tiles@ && final(self).map.revealed_tiles@ == old(self).map.revealed_tiles@,
    {
        let pe = self.player_entity;
        let ghost w0 = self.ecs;
        crate::inventory_system::run_item_use(&mut self.ecs, pe, &mut self.log);
        let ghost l1 = self.log.entries@;
        let ghost consumed = crate::inventory_system::spec_consumed_marks(w0, w0.spec_len());
        proof {
            crate::inventory_system::lemma_consumed_marks_potions(w0, w0.spec_len());
        }
        let ghost w_vis = self.ecs;
        crate::visibility_system::run_visibility(&mut self.ecs, &mut self.map);
        let ghost w_ai_in = self.ecs;
        let ghost m_vis = self.map;
        proof {
            assert(crate::world::entity_unchanged_but_viewshed(w_vis, self.ecs, pe as int));
            assert(self.ecs.alive@[pe as int] && self.ecs.players@[pe as int] is Some
                && self.ecs.potions@[pe as int] is None);
        }
        crate::behavior::monster_ai(
            &mut self.ecs,
            &self.map,
            self.player_pos,
            pe,
            self.run_state,
        );
        crate::map_indexing_system::run_map_indexing(&self.ecs, &mut self.map);
        proof {
            assert(positions_in_bounds(self.ecs, self.map));
        }
        let ghost w_idx = self.ecs;
        crate::melee_combat_system::run_melee_combat(&mut self.ecs);
        let ghost w_mel = self.ecs;
        proof {
            crate::map::lemma_pib_transfer(w_idx, w_mel, self.map);
        }
        crate::damage_system::run_damage(&mut self.ecs);
        let ghost w_dmg = self.ecs;
        proof {
            crate::map::lemma_pib_transfer(w_mel, w_dmg, self.map);
        }
        let ghost w_del = self.ecs;
        let len_del = self.ecs.len();
        proof {
            assert(w_del.spec_len() == len_del);
        }
        crate::damage_system::delete_the_dead(&mut self.ecs, &mut self.log);
        let ghost l6 = self.log.entries@;
        let ghost w_postdel = self.ecs;
        let ghost dead = crate::damage_system::spec_dead_marks(w_del, w_del.spec_len());
        proof {
            crate::damage_system::lemma_dead_marks_non_player(w_del, w_del.spec_len());
            assert(crate::world::entity_unchanged(w_del, w_postdel, pe as int));
            assert forall|e: int|
                0 <= e < w_postdel.spec_len() implies #[trigger] w_postdel.positions@[e]
                == w_del.positions@[e] || w_postdel.positions@[e] is None by {
                assert(crate::world::entity_unchanged(w_del, w_postdel, e));
            }
            crate::map::lemma_pib_transfer(w_del, w_postdel, self.map);
            assert forall|e: int|
                0 <= e < w_postdel.spec_len() implies w_postdel.melee_intents@[e] is None
                && w_postdel.suffer_damage@[e] is None by {
                assert(crate::world::entity_unchanged(w_del, w_postdel, e));
            }
        }
        crate::inventory_system::run_item_collection(&mut self.ecs, pe, &mut self.log);
        let ghost w_maint = self.ecs;
        proof {
            crate::map::lemma_pib_transfer(w_postdel, w_maint, self.map);
            assert(w_maint.pending_deletes@ =~= consumed + dead);
            assert(!w_maint.pending_deletes@.contains(pe)) by {
                if w_maint.pending_deletes@.contains(pe) {
                    let k = choose|k: int|
                        0 <= k < w_maint.pending_deletes@.len() && w_maint.pending_deletes@[k]
                            == pe;
                    if k < consumed.len() {
                        assert(consumed[k] == pe);
                        assert(w0.potions@[pe as int] is Some);
                    } else {
                        assert(dead[k - consumed.len()] == pe);
                        assert(w_del.players@[pe as int] is None);
                    }
                }
            }
        }
        self.ecs.maintain();
        let n_final = self.ecs.len();
        proof {
            assert(crate::world::entity_unchanged(w_maint, self.ecs, pe as int));
            assert forall|d: int|
                0 <= d < self.ecs.spec_len() implies (#[trigger] self.ecs.positions@[d] matches Some(
                q,
            ) ==> self.map.spec_in_bounds(q)) by {
                if w_maint.pending_deletes@.contains(d as usize) {
                    assert(crate::world::entity_cleared(self.ecs, d));
                } else {
                    assert(crate::world::entity_unchanged(w_maint, self.ecs, d));
                    assert(w_maint.positions@[d] matches Some(q2) ==> self.map.spec_in_bounds(q2));
                }
            }
            assert forall|e: int|
                0 <= e < self.ecs.spec_len() implies self.ecs.melee_intents@[e] is None
                && self.ecs.suffer_damage@[e] is None && self.ecs.pickup_intents@[e] is None
                && self.ecs.consume_intents@[e] is None by {
                if w_maint.pending_deletes@.contains(e as usize) {
                    assert(crate::world::entity_cleared(self.ecs, e));
                } else {
                    assert(crate::world::entity_unchanged(w_maint, self.ecs, e));
                    assert(w_postdel.melee_intents@[e] is None && w_postdel.suffer_damage@[e]
                        is None);
                    assert(w_maint.melee_intents@[e] is None && w_maint.suffer_damage@[e]
                        is None && w_maint.pickup_intents@[e] is None);
                    assert(w_maint.consume_intents@[e] is None) by {
                        assert(w_vis.consume_intents@[e] is None);
                        assert(crate::world::entity_unchanged_but_viewshed(
                            w_vis,
                            w_ai_in,
                            e,
                        ));
                        assert(w_ai_in.consume_intents@[e] is None);
                        assert(w_dmg.consume_intents@[e] is None);
                        assert(crate::world::entity_unchanged(w_del, w_postdel, e));
                        assert(w_postdel.consume_intents@[e] is None);
                    }
                }
            }
        }
        proof {
            assert(spec_stage_item_use(
                old(self).ecs,
                w_vis,
                old(self).player_entity,
                old(self).log.entries@,
                l1,
            ));
            assert(spec_stage_visibility(w_vis, w_ai_in, old(self).map, m_vis));
            assert(spec_stage_behavior(
                w_ai_in,
                w_idx,
                m_vis,
                old(self).player_pos,
                old(self).player_entity,
                old(self).run_state,
            ));
            assert(spec_stage_index(w_idx, m_vis, self.map));
            assert(spec_stage_melee(w_idx, w_mel));
            assert(spec_stage_damage(w_mel, w_dmg));
            assert(spec_stage_death(w_dmg, w_postdel, l1, l6));
            assert(spec_stage_collect(w_postdel, w_maint, pe, l6, self.log.entries@));
            assert(spec_stage_maintain(w_maint, self.ecs));
            assert(spec_pipeline_chain(
                *old(self),
                *self,
                w_vis,
                w_ai_in,
                m_vis,
                w_idx,
                w_mel,
                w_dmg,
                w_postdel,
                w_maint,
                l1,
                l6,
            ));
            assert(spec_pipeline_post(*old(self), *self));
        }
        proof {
            let n0 = old(self).ecs.spec_len();
            if old(self).run_state != RunState::MonsterTurn && (forall|e: int|
                0 <= e < n0 ==> (#[trigger] old(self).ecs.viewsheds@[e] matches Some(v)
                    ==> !v.dirty)) && (forall|e: int|
                0 <= e < n0 ==> old(self).ecs.melee_intents@[e] is None && old(self).ecs.suffer_damage@[e] is None && old(self).ecs.pickup_intents@[e] is None && old(self).ecs.consume_intents@[e] is None) && (forall|e: int|
                0 <= e < n0 ==> !crate::damage_system::spec_is_dead(old(self).ecs, e)) {
                crate::inventory_system::lemma_consumed_marks_none(w0, w0.spec_len());
                assert forall|e: int|
                    0 <= e < n0 implies #[trigger] w_vis.combat_stats@[e] == old(self).ecs.combat_stats@[e] by {
                    if exists|i: int| crate::inventory_system::spec_drinks(w0, e, i) {
                        let i0 = choose|i: int| crate::inventory_system::spec_drinks(w0, e, i);
                        assert(w0.consume_intents@[e] is Some);
                    }
                }
                assert forall|e: int|
                    0 <= e < n0 implies !crate::visibility_system::spec_needs_recompute(
                    w_vis,
                    e,
                ) by {
                    assert(w_vis.viewsheds@[e] == old(self).ecs.viewsheds@[e]);
                }
                assert(w_ai_in == w_vis && m_vis == old(self).map);
                assert(w_idx == w_ai_in);
                assert forall|e: int|
                    0 <= e < n0 implies w_idx.melee_intents@[e] is None by {}
                assert forall|t: int|
                    0 <= t < n0 implies #[trigger] w_mel.suffer_damage@[t] is None by {
                    crate::melee_combat_system::lemma_contribs_none(w_idx, t, w_idx.spec_len());
                }
                assert forall|e: int|
                    0 <= e < n0 implies #[trigger] w_dmg.combat_stats@[e]
                    == w_mel.combat_stats@[e] by {
                    assert(w_mel.suffer_damage@[e] is None);
                }
                assert forall|e: int|
                    0 <= e < n0 implies !crate::damage_system::spec_is_dead(w_dmg, e) by {
                    assert(w_vis.combat_stats@[e] == old(self).ecs.combat_stats@[e]);
                    assert(w_mel.combat_stats@[e] == w_idx.combat_stats@[e]);
                    assert(w_dmg.combat_stats@[e] == w_mel.combat_stats@[e]);
                    assert(w_dmg.combat_stats@[e] == old(self).ecs.combat_stats@[e]);
                    assert(w_dmg.alive@[e] == old(self).ecs.alive@[e]);
                    assert(!crate::damage_system::spec_is_dead(old(self).ecs, e));
                }
                crate::damage_system::lemma_dead_marks_none(w_dmg, w_dmg.spec_len());
                assert(w_maint.pending_deletes@.len() == 0);
                assert forall|e: int|
                    0 <= e < n0 implies self.ecs.viewsheds@[e] == old(self).ecs.viewsheds@[e] by {
                    assert(!w_maint.pending_deletes@.contains(e as usize));
                    assert(crate::world::entity_unchanged(w_maint, self.ecs, e));
                    assert(crate::world::entity_unchanged(w_del, w_postdel, e));
                    assert(w_vis.viewsheds@[e] == old(self).ecs.viewsheds@[e]);
                }
                assert(self.map.visible_tiles@ == old(self).map.visible_tiles@);
                assert(self.map.revealed_tiles@ == old(self).map.revealed_tiles@);
            }
        }
    }

    /// Drive one external tick: select the phase from the scheduler state,
    /// run the pipeline or apply the decoded input, and move to the next
    /// state.  The resulting scheduler state is exactly
    /// `spec_next_state(old state, input)`.
    pub fn tick(&mut self, input: PlayerMove)
        requires
            old(self).spec_wf(),
            input matches PlayerMove::Move(dx, dy) ==> -1 <= dx <= 1 && -1 <= dy <= 1,
        ensures
            final(self).spec_wf(),
            final(self).run_state == spec_next_state(old(self).run_state, input),
            final(self).map.size == old(self).map.size,
            forall|i: int|
                0 <= i < old(self).map.size.spec_area() && old(self).map.revealed_tiles@[i]
                    ==> final(self).map.revealed_tiles@[i],
            (forall|i: int|
                0 <= i < old(self).map.size.spec_area() && old(self).map.visible_tiles@[i]
                    ==> old(self).map.revealed_tiles@[i]) ==> (forall|i: int|
                0 <= i < old(self).map.size.spec_area() && final(self).map.visible_tiles@[i]
                    ==> final(self).map.revealed_tiles@[i]),
            final(self).player_entity == old(self).player_entity,
            final(self).viewport == old(self).viewport,
            (old(self).run_state == RunState::PreRun || old(self).run_state
                == RunState::PlayerTurn || old(self).run_state == RunState::MonsterTurn)
                ==> spec_pipeline_post(*old(self), *final(self)),
            (old(self).run_state == RunState::PreRun || old(self).run_state
                == RunState::PlayerTurn || old(self).run_state == RunState::MonsterTurn)
                ==> final(self).player_pos == old(self).player_pos && (forall|e: int|
                0 <= e < final(self).ecs.spec_len() ==> final(self).ecs.melee_intents@[e] is None
                    && final(self).ecs.suffer_damage@[e] is None && final(self).ecs.pickup_intents@[e] is None && final(self).ecs.consume_intents@[e] is None),
            old(self).run_state == RunState::AwaitingInput && !(input is Move) && !(input
                is PickupItem) && !(input is UseItem) ==> *final(self) == *old(self),
            old(self).run_state == RunState::AwaitingInput ==> (input matches PlayerMove::Move(
                dx,
                dy,
            ) ==> final(self).map == old(self).map && final(self).log == old(self).log && final(self).player_entity == old(self).player_entity && (forall|e: int|
                crate::player::spec_sole_player(old(self).ecs, e)
                    ==> crate::player::spec_player_moved(
                    old(self).ecs,
                    final(self).ecs,
                    old(self).map,
                    old(self).player_pos,
                    final(self).player_pos,
                    dx as int,
                    dy as int,
                    e,
                ))),
            old(self).run_state == RunState::AwaitingInput && input is PickupItem
                && crate::player::spec_last_item(
                old(self).ecs,
                old(self).player_pos,
                old(self).ecs.spec_len(),
            ) is None ==> final(self).ecs == old(self).ecs && final(self).map == old(self).map
                && final(self).player_pos == old(self).player_pos && final(self).log.entries@.len()
                == old(self).log.entries@.len() + 1 && (final(self).log.entries@.last())@
                == "There is nothing here to pick up."@,
            old(self).run_state == RunState::AwaitingInput && input is PickupItem ==> (
            crate::player::spec_last_item(
                old(self).ecs,
                old(self).player_pos,
                old(self).ecs.spec_len(),
            ) matches Some(it) ==> final(self).ecs.pickup_intents@[old(self).player_entity as int]
                == Some(
                crate::components::WantsToPickupItem {
                    collected_by: old(self).player_entity,
                    item: it,
                },
            ) && final(self).log == old(self).log && final(self).map == old(self).map && (forall|
                d: int,
            |
                0 <= d < old(self).ecs.spec_len() && d != old(self).player_entity
                    ==> crate::world::entity_unchanged(old(self).ecs, final(self).ecs, d))),
            old(self).run_state == RunState::AwaitingInput ==> (input matches PlayerMove::UseItem(
                it,
            ) ==> final(self).ecs == (World {
                consume_intents: final(self).ecs.consume_intents,
                ..old(self).ecs
            }) && final(self).ecs.consume_intents@ == old(self).ecs.consume_intents@.update(
                old(self).player_entity as int,
                Some(WantsToConsumeItem { item: it }),
            ) && final(self).map == old(self).map && final(self).log == old(self).log && final(self).player_pos == old(self).player_pos),
    {
        match self.run_state {
            RunState::PreRun => {
                self.run_systems();
                let ghost mid = *self;
                self.run_state = RunState::AwaitingInput;
                proof {
                    let (w1, w2, m2, w3, w4, w5, w6, w7, l1, l6) = choose|
                        w1: World,
                        w2: World,
                        m2: GameMap,
                        w3: World,
                        w4: World,
                        w5: World,
                        w6: World,
                        w7: World,
                        l1: Seq<String>,
                        l6: Seq<String>,
                    |
                        spec_pipeline_chain(
                            *old(self),
                            mid,
                            w1,
                            w2,
                            m2,
                            w3,
                            w4,
                            w5,
                            w6,
                            w7,
                            l1,
                            l6,
                        );
                    assert(spec_pipeline_chain(
                        *old(self),
                        *self,
                        w1,
                        w2,
                        m2,
                        w3,
                        w4,
                        w5,
                        w6,
                        w7,
                        l1,
                        l6,
                    ));
                    assert(spec_pipeline_post(*old(self), *self));
                }
            },
            RunState::AwaitingInput => {
                match input {
                    PlayerMove::Move(dx, dy) => {
                        let pe = self.player_entity;
                        crate::player::try_move_player(
                            dx,
                            dy,
                            &mut self.ecs,
                            &self.map,
                            &mut self.player_pos,
                        );
                        proof {
                            assert(self.ecs.alive@[pe as int] && self.ecs.players@[pe as int]
                                is Some && self.ecs.potions@[pe as int] is None);
                        }
                        self.run_state = RunState::PlayerTurn;
                    },
                    PlayerMove::PickupItem => {
                        let pe = self.player_entity;
                        let pp = self.player_pos;
                        let ghost w_before = self.ecs;
                        crate::player::get_item(&mut self.ecs, pp, pe, &mut self.log);
                        proof {
                            if crate::player::spec_last_item(w_before, pp, w_before.spec_len())
                                is Some {
                                crate::map::lemma_pib_transfer(w_before, self.ecs, self.map);
                            }
                            assert(self.spec_wf());
                        }
                        self.run_state = RunState::PlayerTurn;
                    },
                    PlayerMove::UseItem(item) => {
                        let pe = self.player_entity;
                        let ghost w_before = self.ecs;
                        self.ecs.consume_intents[pe] = Some(WantsToConsumeItem { item });
                        proof {
                            crate::map::lemma_pib_transfer(w_before, self.ecs, self.map);
                        }
                        self.run_state = RunState::PlayerTurn;
                    },
                    _ => {
                        self.run_state = RunState::AwaitingInput;
                    },
                }
            },
            RunState::PlayerTurn => {
                self.run_systems();
                let ghost mid = *self;
                self.run_state = RunState::MonsterTurn;
                proof {
                    let (w1, w2, m2, w3, w4, w5, w6, w7, l1, l6) = choose|
                        w1: World,
                        w2: World,
                        m2: GameMap,
                        w3: World,
                        w4: World,
                        w5: World,
                        w6: World,
                        w7: World,
                        l1: Seq<String>,
                        l6: Seq<String>,
                    |
                        spec_pipeline_chain(
                            *old(self),
                            mid,
                            w1,
                            w2,
                            m2,
                            w3,
                            w4,
                            w5,
                            w6,
                            w7,
                            l1,
                            l6,
                        );
                    assert(spec_pipeline_chain(
                        *old(self),
                        *self,
                        w1,
                        w2,
                        m2,
                        w3,
                        w4,
                        w5,
                        w6,
                        w7,
                        l1,
                        l6,
                    ));
                    assert(spec_pipeline_post(*old(self), *self));
                }
            },
            RunState::MonsterTurn => {
                self.run_systems();
                let ghost mid = *self;
                self.run_state = RunState::AwaitingInput;
                proof {
                    let (w1, w2, m2, w3, w4, w5, w6, w7, l1, l6) = choose|
                        w1: World,
                        w2: World,
                        m2: GameMap,
                        w3: World,
                        w4: World,
                        w5: World,
                        w6: World,
                        w7: World,
                        l1: Seq<String>,
                        l6: Seq<String>,
                    |
                        spec_pipeline_chain(
                            *old(self),
                            mid,
                            w1,
                            w2,
                            m2,
                            w3,
                            w4,
                            w5,
                            w6,
                            w7,
                            l1,
                            l6,
                        );
                    assert(spec_pipeline_chain(
                        *old(self),
                        *self,
                        w1,
                        w2,
                        m2,
                        w3,
                        w4,
                        w5,
                        w6,
                        w7,
                        l1,
                        l6,
                    ));
                    assert(spec_pipeline_post(*old(self), *self));
                }
            },
        }
    }
}

} // verus!
