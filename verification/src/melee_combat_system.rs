//! Melee resolution, the first combat stage: every held melee intent is
//! resolved against the target's stats into a damage amount appended to the
//! target's accumulator, and all intents are consumed within the tick.

use vstd::prelude::*;
use crate::components::{CombatStats, SufferDamage};
use crate::world::World;

verus! {

/// Damage one attack inflicts: attack power minus target defense, floored at
/// zero.
pub open spec fn spec_damage(att: CombatStats, def: CombatStats) -> int {
    if att.power - def.defense > 0 {
        att.power - def.defense
    } else {
        0
    }
}

/// Attacker `a` lands a hit on target `t` this tick: `a` holds a melee
/// intent for `t` together with its own stats, and `t` is a live entity
/// whose stats show positive hit points.
pub open spec fn spec_attacker_hits(w: World, a: int, t: int) -> bool {
    &&& 0 <= a < w.spec_len()
    &&& w.alive@[a]
    &&& w.melee_intents@[a] matches Some(m) && m.target == t
    &&& w.combat_stats@[a] is Some
    &&& 0 <= t < w.spec_len()
    &&& w.alive@[t]
    &&& w.combat_stats@[t] matches Some(ds) && ds.hp > 0
}

/// The damage amounts appended to target `t` by the attackers with index
/// below `upto`, in attacker order; zero-damage hits append nothing.
pub open spec fn spec_contribs(w: World, t: int, upto: int) -> Seq<i32>
    decreases upto,
{
    if upto <= 0 {
        Seq::empty()
    } else {
        let a = upto - 1;
        spec_contribs(w, t, a) + (if spec_attacker_hits(w, a, t) && spec_damage(
            w.combat_stats@[a]->Some_0,
            w.combat_stats@[t]->Some_0,
        ) > 0 {
            seq![spec_damage(w.combat_stats@[a]->Some_0, w.combat_stats@[t]->Some_0) as i32]
        } else {
            Seq::<i32>::empty()
        })
    }
}

/// The damage amounts target `t` held before this stage.
pub open spec fn spec_old_amounts(w: World, t: int) -> Seq<i32> {
    match w.suffer_damage@[t] {
        Some(d) => d.amount@,
        None => Seq::empty(),
    }
}

/// Melee resolution: for every entity holding a melee intent paired with its
/// own stats, if the target exists with positive hit points, append
/// `max(0, power - defense)` to the target's damage accumulator when
/// positive; then consume every intent.  Nothing else changes: stats and hit
/// points are untouched until the damage application stage.
#[verifier::rlimit(100)]
pub fn run_melee_combat(world: &mut World)
    requires
        old(world).spec_wf(),
    ensures
        final(world).spec_wf(),
        final(world).spec_len() == old(world).spec_len(),
        final(world).alive@ == old(world).alive@,
        final(world).positions@ == old(world).positions@,
        final(world).renderables@ == old(world).renderables@,
        final(world).names@ == old(world).names@,
        final(world).viewsheds@ == old(world).viewsheds@,
        final(world).combat_stats@ == old(world).combat_stats@,
        final(world).players@ == old(world).players@,
        final(world).monsters@ == old(world).monsters@,
        final(world).blockers@ == old(world).blockers@,
        final(world).items@ == old(world).items@,
        final(world).potions@ == old(world).potions@,
        final(world).backpacks@ == old(world).backpacks@,
        final(world).pickup_intents@ == old(world).pickup_intents@,
        final(world).consume_intents@ == old(world).consume_intents@,
        final(world).pending_deletes@ == old(world).pending_deletes@,
        forall|e: int| 0 <= e < old(world).spec_len() ==> final(world).melee_intents@[e] is None,
        forall|t: int|
            0 <= t < old(world).spec_len() ==> ((#[trigger] final(world).suffer_damage@[t])
                is Some <==> (old(world).suffer_damage@[t] is Some || spec_contribs(
                *old(world),
                t,
                old(world).spec_len(),
            ).len() > 0)),
        forall|t: int|
            0 <= t < old(world).spec_len() ==> (#[trigger] final(world).suffer_damage@[t] matches Some(d) ==> d.amount@ == spec_old_amounts(*old(world), t)
                + spec_contribs(*old(world), t, old(world).spec_len())),
{
    let n = world.alive.len();
    let mut a: usize = 0;
    while a < n
        invariant
            world.spec_wf(),
            old(world).spec_wf(),
            n == old(world).spec_len(),
            world.spec_len() == n,
            a <= n,
            world.alive@ == old(world).alive@,
            world.positions@ == old(world).positions@,
            world.renderables@ == old(world).renderables@,
            world.names@ == old(world).names@,
            world.viewsheds@ == old(world).viewsheds@,
            world.combat_stats@ == old(world).combat_stats@,
            world.players@ == old(world).players@,
            world.monsters@ == old(world).monsters@,
            world.blockers@ == old(world).blockers@,
            world.items@ == old(world).items@,
            world.potions@ == old(world).potions@,
            world.backpacks@ == old(world).backpacks@,
            world.melee_intents@ == old(world).melee_intents@,
            world.pickup_intents@ == old(world).pickup_intents@,
            world.consume_intents@ == old(world).consume_intents@,
            world.pending_deletes@ == old(world).pending_deletes@,
            forall|t: int|
                0 <= t < n ==> ((#[trigger] world.suffer_damage@[t]) is Some <==> (old(world).suffer_damage@[t] is Some || spec_contribs(*old(world), t, a as int).len() > 0)),
            forall|t: int|
                0 <= t < n ==> (#[trigger] world.suffer_damage@[t] matches Some(d) ==> d.amount@
                    == spec_old_amounts(*old(world), t) + spec_contribs(*old(world), t, a as int)),
        decreases n - a,
    {
        let mut target: usize = 0;
        let mut has_intent = false;
        if world.alive[a] {
            if let Some(m) = &world.melee_intents[a] {
                if world.combat_stats[a].is_some() {
                    has_intent = true;
                    target = m.target;
                }
            }
        }
        let ghost w_pre = *world;
        let mut hit = false;
        if has_intent && target < n {
            if world.alive[target] {
                let att = match &world.combat_stats[a] {
                    Some(s) => *s,
                    None => CombatStats { max_hp: 0, hp: 0, defense: 0, power: 0 },
                };
                if let Some(ds) = &world.combat_stats[target] {
                    if ds.hp > 0 {
                        hit = true;
                        let dmg = if att.power - ds.defense > 0 {
                            att.power - ds.defense
                        } else {
                            0
                        };
                        if dmg > 0 {
                            SufferDamage::new_damage(&mut world.suffer_damage, target, dmg);
                        }
                    }
                }
            }
        }
        proof {
            assert forall|t: int|
                0 <= t < n implies ((#[trigger] world.suffer_damage@[t]) is Some <==> (old(world).suffer_damage@[t] is Some || spec_contribs(*old(world), t, a + 1).len() > 0)) && (
            world.suffer_damage@[t] matches Some(d) ==> d.amount@ == spec_old_amounts(
                *old(world),
                t,
            ) + spec_contribs(*old(world), t, a + 1)) by {
                assert(spec_contribs(*old(world), t, a + 1) == spec_contribs(*old(world), t, a as int)
                    + (if spec_attacker_hits(*old(world), a as int, t) && spec_damage(
                    old(world).combat_stats@[a as int]->Some_0,
                    old(world).combat_stats@[t]->Some_0,
                ) > 0 {
                    seq![spec_damage(
                        old(world).combat_stats@[a as int]->Some_0,
                        old(world).combat_stats@[t]->Some_0,
                    ) as i32]
                } else {
                    Seq::<i32>::empty()
                }));
                if t != target as int || !hit {
                    assert(world.suffer_damage@[t] == w_pre.suffer_damage@[t]);
                    assert(!(spec_attacker_hits(*old(world), a as int, t) && spec_damage(
                        old(world).combat_stats@[a as int]->Some_0,
                        old(world).combat_stats@[t]->Some_0,
                    ) > 0));
                    assert(spec_contribs(*old(world), t, a + 1) =~= spec_contribs(
                        *old(world),
                        t,
                        a as int,
                    ));
                }
            }
        }
        a = a + 1;
    }
    let mut e: usize = 0;
    while e < n
        invariant
            world.spec_wf(),
            n == world.spec_len(),
            e <= n,
            world.alive@ == old(world).alive@,
            world.positions@ == old(world).positions@,
            world.renderables@ == old(world).renderables@,
            world.names@ == old(world).names@,
            world.viewsheds@ == old(world).viewsheds@,
            world.combat_stats@ == old(world).combat_stats@,
            world.players@ == old(world).players@,
            world.monsters@ == old(world).monsters@,
            world.blockers@ == old(world).blockers@,
            world.items@ == old(world).items@,
            world.potions@ == old(world).potions@,
            world.backpacks@ == old(world).backpacks@,
            world.pickup_intents@ == old(world).pickup_intents@,
            world.consume_intents@ == old(world).consume_intents@,
            world.pending_deletes@ == old(world).pending_deletes@,
            forall|t: int|
                0 <= t < n ==> ((#[trigger] world.suffer_damage@[t]) is Some <==> (old(world).suffer_damage@[t] is Some || spec_contribs(*old(world), t, n as int).len() > 0)),
            forall|t: int|
                0 <= t < n ==> (#[trigger] world.suffer_damage@[t] matches Some(d) ==> d.amount@
                    == spec_old_amounts(*old(world), t) + spec_contribs(*old(world), t, n as int)),
            forall|d: int| 0 <= d < e ==> world.melee_intents@[d] is None,
        decreases n - e,
    {
        world.melee_intents[e] = None;
        e = e + 1;
    }
}

/// With no melee intents pending, no damage is contributed to anyone.
pub proof fn lemma_contribs_none(w: World, t: int, upto: int)
    requires
        forall|e: int| 0 <= e < w.spec_len() ==> w.melee_intents@[e] is None,
        upto <= w.spec_len(),
    ensures
        spec_contribs(w, t, upto).len() == 0,
    decreases upto,
{
    if upto > 0 {
        lemma_contribs_none(w, t, upto - 1);
    }
}

} // verus!
